//! The vocabulary tables: which rank a piece of bytes or a special token's
//! name has, and which bytes a rank stands for.
use vstd::prelude::*;
use vstd::utf8::{decode_utf8, valid_utf8};
use rustc_hash::FxHashMap;
use crate::text::as_text;
use crate::Rank;

verus! {

/// The hasher of `rustc_hash`; it only occurs inside the tables' type.
#[verifier::external_type_specification]
#[verifier::external_body]
pub struct ExFxHasher(rustc_hash::FxHasher);

/// The hasher factory that an `FxHashMap` is built with.
#[verifier::external_type_specification]
#[verifier::external_body]
#[verifier::reject_recursive_types(H)]
pub struct ExBuildHasherDefault<H>(core::hash::BuildHasherDefault<H>);

/// What a table from pieces to ranks holds.
pub uninterp spec fn byte_ranks(table: FxHashMap<Vec<u8>, Rank>) -> Map<Seq<u8>, Rank>;

/// What a table from special tokens' names to ranks holds.
pub uninterp spec fn text_ranks(table: FxHashMap<String, Rank>) -> Map<Seq<char>, Rank>;

/// What a table from ranks to pieces holds.
pub uninterp spec fn rank_bytes(table: FxHashMap<Rank, Vec<u8>>) -> Map<Rank, Seq<u8>>;

/// `HashMap::get` on an `FxHashMap` keyed by pieces: the rank stored under
/// exactly these bytes, or `None` when the table has no such key.
#[verifier::external_body]
fn get_by_bytes<'a>(table: &'a FxHashMap<Vec<u8>, Rank>, piece: &[u8]) -> (r: Option<&'a Rank>)
    ensures
        match r {
            Some(rank) => byte_ranks(*table).contains_key(piece@) && *rank == byte_ranks(
                *table,
            )[piece@],
            None => !byte_ranks(*table).contains_key(piece@),
        },
{
    table.get(piece)
}

/// `HashMap::get` on an `FxHashMap` keyed by names: the rank stored under
/// exactly this text, or `None` when the table has no such key.
#[verifier::external_body]
fn get_by_text<'a>(table: &'a FxHashMap<String, Rank>, name: &str) -> (r: Option<&'a Rank>)
    ensures
        match r {
            Some(rank) => text_ranks(*table).contains_key(name@) && *rank == text_ranks(
                *table,
            )[name@],
            None => !text_ranks(*table).contains_key(name@),
        },
{
    table.get(name)
}

/// `HashMap::get` on an `FxHashMap` keyed by ranks: the piece stored under
/// this rank, or `None` when the table has no such key.
#[verifier::external_body]
fn get_by_rank<'a>(table: &'a FxHashMap<Rank, Vec<u8>>, token: Rank) -> (r: Option<&'a Vec<u8>>)
    ensures
        match r {
            Some(piece) => rank_bytes(*table).contains_key(token) && piece@ == rank_bytes(
                *table,
            )[token],
            None => !rank_bytes(*table).contains_key(token),
        },
{
    table.get(&token)
}

/// A lookup that found nothing, with what was looked for.
#[derive(Debug)]
pub enum VocabularyMiss {
    /// No ordinary piece and no special token's name is made of these bytes.
    Piece(Vec<u8>),
    /// No ordinary piece and no special token has this rank.
    Token(Rank),
}

/// The tables of one vocabulary.
pub struct Vocabulary {
    encoder: FxHashMap<Vec<u8>, Rank>,
    special_tokens_encoder: FxHashMap<String, Rank>,
    decoder: FxHashMap<Rank, Vec<u8>>,
    special_tokens_decoder: FxHashMap<Rank, Vec<u8>>,
    sorted_token_bytes: Vec<Vec<u8>>,
}

/// The byte sequences that a vector of byte vectors holds.
pub open spec fn piece_views(pieces: Seq<Vec<u8>>) -> Seq<Seq<u8>> {
    Seq::new(pieces.len(), |i: int| pieces[i]@)
}

impl Vocabulary {
    /// Rank of each ordinary piece.
    pub closed spec fn ranks(&self) -> Map<Seq<u8>, Rank> {
        byte_ranks(self.encoder)
    }

    /// Rank of each special token, by its name.
    pub closed spec fn special_ranks(&self) -> Map<Seq<char>, Rank> {
        text_ranks(self.special_tokens_encoder)
    }

    /// Bytes of each ordinary rank.
    pub closed spec fn pieces(&self) -> Map<Rank, Seq<u8>> {
        rank_bytes(self.decoder)
    }

    /// Bytes of each special token's rank.
    pub closed spec fn special_pieces(&self) -> Map<Rank, Seq<u8>> {
        rank_bytes(self.special_tokens_decoder)
    }

    /// The ordinary pieces in the order in which they are listed.
    pub closed spec fn listed_pieces(&self) -> Seq<Seq<u8>> {
        piece_views(self.sorted_token_bytes@)
    }

    /// The bytes that `token` stands for: those of the ordinary piece with
    /// this rank, else those of the special token with this rank.
    pub open spec fn token_bytes(&self, token: Rank) -> Option<Seq<u8>> {
        if self.pieces().contains_key(token) {
            Some(self.pieces()[token])
        } else if self.special_pieces().contains_key(token) {
            Some(self.special_pieces()[token])
        } else {
            None
        }
    }

    /// The rank of `piece` taken as a single token: that of the ordinary piece
    /// made of exactly these bytes, else that of the special token whose name
    /// these bytes spell.
    pub open spec fn single_token(&self, piece: Seq<u8>) -> Option<Rank> {
        if self.ranks().contains_key(piece) {
            Some(self.ranks()[piece])
        } else if valid_utf8(piece) && self.special_ranks().contains_key(decode_utf8(piece)) {
            Some(self.special_ranks()[decode_utf8(piece)])
        } else {
            None
        }
    }

    /// Every ordinary piece is what its rank decodes to.
    pub open spec fn is_consistent(&self) -> bool {
        forall|piece: Seq<u8>| #[trigger]
            self.ranks().contains_key(piece) ==> self.token_bytes(self.ranks()[piece]) == Some(
                piece,
            )
    }

    /// Position of the first of `tokens` that stands for no bytes, or the
    /// length of `tokens` when there is none.
    pub open spec fn first_unknown(&self, tokens: Seq<Rank>) -> nat
        decreases tokens.len(),
    {
        if tokens.len() == 0 {
            0
        } else if self.token_bytes(tokens.first()) is None {
            0
        } else {
            1 + self.first_unknown(tokens.drop_first())
        }
    }

    /// The bytes of all `tokens`, one after the other.
    pub open spec fn joined_bytes(&self, tokens: Seq<Rank>) -> Seq<u8>
        decreases tokens.len(),
    {
        if tokens.len() == 0 {
            Seq::empty()
        } else {
            self.joined_bytes(tokens.drop_last()) + match self.token_bytes(tokens.last()) {
                Some(bytes) => bytes,
                None => Seq::empty(),
            }
        }
    }

    /// Whether every one of `tokens` stands for some bytes.
    pub open spec fn all_known(&self, tokens: Seq<Rank>) -> bool {
        forall|i: int| 0 <= i < tokens.len() ==> self.token_bytes(#[trigger] tokens[i]) is Some
    }

    /// What `tokens` decode to: their bytes joined, unless one of them is
    /// unknown.
    pub open spec fn decoded(&self, tokens: Seq<Rank>) -> Option<Seq<u8>> {
        if self.all_known(tokens) {
            Some(self.joined_bytes(tokens))
        } else {
            None
        }
    }

    /// Puts the five tables of a vocabulary together.
    pub fn new(
        encoder: FxHashMap<Vec<u8>, Rank>,
        special_tokens_encoder: FxHashMap<String, Rank>,
        decoder: FxHashMap<Rank, Vec<u8>>,
        special_tokens_decoder: FxHashMap<Rank, Vec<u8>>,
        sorted_token_bytes: Vec<Vec<u8>>,
    ) -> (vocab: Self)
        ensures
            vocab.ranks() == byte_ranks(encoder),
            vocab.special_ranks() == text_ranks(special_tokens_encoder),
            vocab.pieces() == rank_bytes(decoder),
            vocab.special_pieces() == rank_bytes(special_tokens_decoder),
            vocab.listed_pieces() == piece_views(sorted_token_bytes@),
    {
        Vocabulary {
            encoder,
            special_tokens_encoder,
            decoder,
            special_tokens_decoder,
            sorted_token_bytes,
        }
    }

    /// The rank of the ordinary piece made of exactly these bytes.
    pub fn lookup(&self, piece: &[u8]) -> (r: Option<Rank>)
        ensures
            r == if self.ranks().contains_key(piece@) {
                Some(self.ranks()[piece@])
            } else {
                None::<Rank>
            },
    {
        match get_by_bytes(&self.encoder, piece) {
            Some(rank) => Some(*rank),
            None => None,
        }
    }

    /// The rank of `piece` as a single token, ordinary pieces first, then the
    /// special tokens by name. A miss carries the bytes that were asked for.
    pub fn encode_single_token(&self, piece: &[u8]) -> (r: Result<Rank, VocabularyMiss>)
        ensures
            match r {
                Ok(rank) => self.single_token(piece@) == Some(rank),
                Err(VocabularyMiss::Piece(bytes)) => self.single_token(piece@) is None && bytes@
                    == piece@,
                Err(VocabularyMiss::Token(_)) => false,
            },
    {
        if let Some(rank) = get_by_bytes(&self.encoder, piece) {
            return Ok(*rank);
        }
        if let Ok(name) = as_text(piece) {
            if let Some(rank) = get_by_text(&self.special_tokens_encoder, name) {
                return Ok(*rank);
            }
        }
        Err(VocabularyMiss::Piece(vstd::slice::slice_to_vec(piece)))
    }

    /// The bytes of one token, ordinary ranks first, then the special tokens.
    /// A miss carries the rank that was asked for.
    pub fn decode_single_token_bytes(&self, token: Rank) -> (r: Result<&[u8], VocabularyMiss>)
        ensures
            match r {
                Ok(bytes) => self.token_bytes(token) == Some(bytes@),
                Err(VocabularyMiss::Token(t)) => self.token_bytes(token) is None && t == token,
                Err(VocabularyMiss::Piece(_)) => false,
            },
    {
        if let Some(bytes) = get_by_rank(&self.decoder, token) {
            return Ok(bytes.as_slice());
        }
        if let Some(bytes) = get_by_rank(&self.special_tokens_decoder, token) {
            return Ok(bytes.as_slice());
        }
        Err(VocabularyMiss::Token(token))
    }

    /// The bytes of `tokens`, joined in order. A miss carries the first rank
    /// that stands for no bytes.
    pub fn decode_bytes(&self, tokens: &[Rank]) -> (r: Result<Vec<u8>, VocabularyMiss>)
        ensures
            match r {
                Ok(bytes) => self.decoded(tokens@) == Some(bytes@),
                Err(VocabularyMiss::Token(t)) => {
                    &&& self.decoded(tokens@) is None
                    &&& self.first_unknown(tokens@) < tokens.len()
                    &&& t == tokens@[self.first_unknown(tokens@) as int]
                },
                Err(VocabularyMiss::Piece(_)) => false,
            },
    {
        let mut bytes: Vec<u8> = Vec::new();
        let mut i: usize = 0;
        while i < tokens.len()
            invariant
                i <= tokens.len(),
                self.all_known(tokens@.take(i as int)),
                bytes@ == self.joined_bytes(tokens@.take(i as int)),
            decreases tokens.len() - i,
        {
            let token = tokens[i];
            let ghost before = bytes@;
            match self.decode_single_token_bytes(token) {
                Ok(piece) => {
                    bytes.extend_from_slice(piece);
                    proof {
                        assert(tokens@.take(i + 1).drop_last() =~= tokens@.take(i as int));
                        assert(tokens@.take(i + 1).last() == token);
                        assert forall|j: int| 0 <= j < piece@.len() implies bytes@[before.len() + j]
                            == piece@[j] by {
                            assert(vstd::pervasive::cloned::<u8>(piece@[j], bytes@[before.len() + j]));
                        }
                        assert(bytes@ =~= before + piece@);
                    }
                },
                Err(miss) => {
                    proof {
                        self.lemma_first_unknown(tokens@, i as int);
                        assert(tokens@[i as int] == token);
                    }
                    return Err(miss);
                },
            }
            i += 1;
        }
        proof {
            assert(tokens@.take(i as int) =~= tokens@);
        }
        Ok(bytes)
    }

    /// The first unknown token is the one in front of which every token is
    /// known and which is unknown itself.
    pub proof fn lemma_first_unknown(&self, tokens: Seq<Rank>, i: int)
        requires
            0 <= i <= tokens.len(),
            self.all_known(tokens.take(i)),
            i < tokens.len() ==> self.token_bytes(tokens[i]) is None,
        ensures
            self.first_unknown(tokens) == i,
            i < tokens.len() ==> !self.all_known(tokens),
        decreases i,
    {
        if i > 0 {
            assert(tokens.take(i)[0] == tokens[0]);
            let rest = tokens.drop_first();
            assert forall|j: int| 0 <= j < rest.take(i - 1).len() implies self.token_bytes(
                #[trigger] rest.take(i - 1)[j],
            ) is Some by {
                assert(rest.take(i - 1)[j] == tokens.take(i)[j + 1]);
            }
            self.lemma_first_unknown(rest, i - 1);
        }
    }

    /// Decoding goes token by token: two sequences decode to the bytes of the
    /// first followed by those of the second, and fail when either fails.
    pub proof fn lemma_decoded_concat(&self, front: Seq<Rank>, back: Seq<Rank>)
        ensures
            self.decoded(front + back) == match (self.decoded(front), self.decoded(back)) {
                (Some(a), Some(b)) => Some(a + b),
                _ => None::<Seq<u8>>,
            },
            self.joined_bytes(front + back) == self.joined_bytes(front) + self.joined_bytes(back),
        decreases back.len(),
    {
        let all = front + back;
        if back.len() == 0 {
            assert(all =~= front);
            assert(self.joined_bytes(front) + self.joined_bytes(back) =~= self.joined_bytes(front));
        } else {
            assert(all.drop_last() =~= front + back.drop_last());
            assert(all.last() == back.last());
            self.lemma_decoded_concat(front, back.drop_last());
            let tail = match self.token_bytes(back.last()) {
                Some(bytes) => bytes,
                None => Seq::empty(),
            };
            assert(self.joined_bytes(all) =~= self.joined_bytes(front) + (self.joined_bytes(
                back.drop_last(),
            ) + tail));
        }
        if self.all_known(front) && self.all_known(back) {
            assert forall|i: int| 0 <= i < all.len() implies self.token_bytes(
                #[trigger] all[i],
            ) is Some by {
                if i < front.len() {
                    assert(all[i] == front[i]);
                } else {
                    assert(all[i] == back[i - front.len()]);
                }
            }
        } else if !self.all_known(front) {
            let i = choose|i: int| 0 <= i < front.len() && !(self.token_bytes(#[trigger] front[i]) is Some);
            assert(all[i] == front[i]);
        } else {
            let i = choose|i: int| 0 <= i < back.len() && !(self.token_bytes(#[trigger] back[i]) is Some);
            assert(all[i + front.len()] == back[i]);
        }
    }

    /// A single known token decodes to its bytes.
    pub proof fn lemma_decoded_single(&self, token: Rank)
        ensures
            self.decoded(seq![token]) == self.token_bytes(token),
    {
        let one = seq![token];
        assert(one.drop_last() =~= Seq::<Rank>::empty());
        assert(one.last() == token);
        assert(self.joined_bytes(one.drop_last()) =~= Seq::<u8>::empty());
        match self.token_bytes(token) {
            Some(bytes) => {
                assert(self.joined_bytes(one) =~= bytes);
                assert(self.all_known(one));
            },
            None => {
                assert(one[0] == token);
            },
        }
    }

    /// The ordinary pieces, in the order in which the vocabulary lists them.
    pub fn token_byte_values(&self) -> (r: &Vec<Vec<u8>>)
        ensures
            piece_views(r@) == self.listed_pieces(),
    {
        &self.sorted_token_bytes
    }
}

} // verus!
