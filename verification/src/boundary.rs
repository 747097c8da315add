//! Encoding bytes that may stop in the middle of a character.
//!
//! The longest prefix that is valid text is encoded as text. The last tokens
//! of that encoding, as many as could still change with what follows, are
//! turned back into bytes; with the bytes behind the prefix they form the
//! unstable bytes, which are encoded on their own: as one token where the
//! vocabulary has one, else by merging.
use vstd::prelude::*;
use vstd::slice::slice_subrange;
use vstd::utf8::{decode_utf8, encode_utf8, valid_utf8};
use std::collections::HashSet;
use crate::engine::Engine;
use crate::text::{as_text, invalid_tail, split_valid_prefix, valid_up_to};
use crate::vocab::{Vocabulary, VocabularyMiss};
use crate::Rank;

verus! {

/// A token that the engine produced and the vocabulary cannot decode: the
/// two disagree.
#[derive(Debug)]
pub struct DecodeInvariantFailure {
    /// The first such token.
    pub token: Rank,
}

/// An encoding cut in two: the tokens that stand, and the bytes at the end
/// that have to be encoded again.
pub struct UnstableSplit {
    pub stable_tokens: Vec<Rank>,
    pub unstable_bytes: Vec<u8>,
}

/// How many of the last tokens are taken back: `last_piece_token_len`, and
/// all of them where there are fewer.
pub open spec fn tail_len(tokens: Seq<Rank>, last_piece_token_len: nat) -> nat {
    if last_piece_token_len <= tokens.len() {
        last_piece_token_len
    } else {
        tokens.len()
    }
}

/// The tokens that stand.
pub open spec fn stable_tokens(tokens: Seq<Rank>, last_piece_token_len: nat) -> Seq<Rank> {
    tokens.take(tokens.len() - tail_len(tokens, last_piece_token_len))
}

/// The tokens that are taken back.
pub open spec fn tail_tokens(tokens: Seq<Rank>, last_piece_token_len: nat) -> Seq<Rank> {
    tokens.skip(tokens.len() - tail_len(tokens, last_piece_token_len))
}

/// The bytes to encode again: those of the tokens taken back, then `tail`.
/// `None` when one of these tokens cannot be decoded.
pub open spec fn unstable_bytes(
    vocab: &Vocabulary,
    tokens: Seq<Rank>,
    last_piece_token_len: nat,
    tail: Seq<u8>,
) -> Option<Seq<u8>> {
    match vocab.decoded(tail_tokens(tokens, last_piece_token_len)) {
        Some(bytes) => Some(bytes + tail),
        None => None,
    }
}

/// Cuts an encoding in two. The last `last_piece_token_len` tokens are taken
/// back and decoded, and `tail` is put behind their bytes; the tokens in
/// front of them stand. Fails with the first token that cannot be decoded.
pub fn split_unstable(
    vocab: &Vocabulary,
    tokens: Vec<Rank>,
    last_piece_token_len: usize,
    tail: &[u8],
) -> (r: Result<UnstableSplit, DecodeInvariantFailure>)
    ensures
        match r {
            Ok(split) => {
                &&& split.stable_tokens@ == stable_tokens(tokens@, last_piece_token_len as nat)
                &&& Some(split.unstable_bytes@) == unstable_bytes(
                    vocab,
                    tokens@,
                    last_piece_token_len as nat,
                    tail@,
                )
            },
            Err(failure) => {
                let taken = tail_tokens(tokens@, last_piece_token_len as nat);
                &&& unstable_bytes(vocab, tokens@, last_piece_token_len as nat, tail@) is None
                &&& vocab.first_unknown(taken) < taken.len()
                &&& failure.token == taken[vocab.first_unknown(taken) as int]
            },
        },
{
    let mut tokens = tokens;
    let taken = if last_piece_token_len <= tokens.len() {
        last_piece_token_len
    } else {
        tokens.len()
    };
    let keep = tokens.len() - taken;
    let mut unstable = match vocab.decode_bytes(slice_subrange(tokens.as_slice(), keep, tokens.len())) {
        Ok(bytes) => bytes,
        Err(VocabularyMiss::Token(token)) => {
            return Err(DecodeInvariantFailure { token });
        },
        Err(VocabularyMiss::Piece(_)) => vstd::pervasive::unreached(),
    };
    let ghost decoded = unstable@;
    unstable.extend_from_slice(tail);
    proof {
        assert forall|j: int| 0 <= j < tail@.len() implies unstable@[decoded.len() + j] == tail@[j] by {
            assert(vstd::pervasive::cloned::<u8>(tail@[j], unstable@[decoded.len() + j]));
        }
        assert(unstable@ =~= decoded + tail@);
    }
    tokens.truncate(keep);
    Ok(UnstableSplit { stable_tokens: tokens, unstable_bytes: unstable })
}

/// What encoding `bytes` behind a valid prefix comes to, given the answer
/// `(tokens, n)` of the engine for that prefix and the bytes `tail` behind it.
/// The tokens that stand come first. Behind them: nothing where no bytes are
/// unstable; the single token that the vocabulary has for the unstable bytes;
/// else an answer of the engine's merging to them. Where a token taken back
/// cannot be decoded, the outcome is the failure that names the first such.
pub open spec fn boundary_outcome<O, E, I, M>(
    engine: &Engine<O, E, I, M>,
    vocab: &Vocabulary,
    tokens: Seq<Rank>,
    n: nat,
    tail: Seq<u8>,
    outcome: Result<Vec<Rank>, DecodeInvariantFailure>,
) -> bool where
    O: Fn(&str) -> Vec<Rank>,
    E: Fn(&str, &HashSet<&str>) -> (Vec<Rank>, usize),
    I: Fn(Vec<Rank>, usize) -> (Vec<Rank>, usize),
    M: Fn(&[u8]) -> Vec<Rank>,
 {
    let stable = stable_tokens(tokens, n);
    let taken = tail_tokens(tokens, n);
    match unstable_bytes(vocab, tokens, n, tail) {
        None => (outcome matches Err(failure) && vocab.first_unknown(taken) < taken.len()
            && failure.token == taken[vocab.first_unknown(taken) as int]),
        Some(unstable) => (outcome matches Ok(out) && (if unstable.len() == 0 {
            out@ == stable
        } else if vocab.ranks().contains_key(unstable) {
            out@ == stable.push(vocab.ranks()[unstable])
        } else {
            exists|merged: Vec<Rank>| #[trigger]
                engine.merges(unstable, merged) && out@ == stable + merged@
        })),
    }
}

/// `outcome` is what encoding `bytes` comes to. For valid text it is an
/// answer of the engine's `encode_ordinary` to that text, as it is. Otherwise
/// it is what [`boundary_outcome`] says, for an answer of the engine to the
/// longest valid prefix and the bytes behind that prefix.
pub open spec fn encodes_bytes<O, E, I, M>(
    engine: &Engine<O, E, I, M>,
    vocab: &Vocabulary,
    bytes: Seq<u8>,
    outcome: Result<Vec<Rank>, DecodeInvariantFailure>,
) -> bool where
    O: Fn(&str) -> Vec<Rank>,
    E: Fn(&str, &HashSet<&str>) -> (Vec<Rank>, usize),
    I: Fn(Vec<Rank>, usize) -> (Vec<Rank>, usize),
    M: Fn(&[u8]) -> Vec<Rank>,
 {
    &&& valid_utf8(bytes) ==> (outcome matches Ok(out) && engine.encodes_ordinary(
        decode_utf8(bytes),
        out,
    ))
    &&& !valid_utf8(bytes) ==> exists|tokens: Vec<Rank>, n: usize| #[trigger]
        engine.encodes_prefix(decode_utf8(bytes.take(valid_up_to(bytes) as int)), tokens, n)
            && boundary_outcome(engine, vocab, tokens@, n as nat, invalid_tail(bytes), outcome)
}

/// Encoding `bytes` can come to some tokens.
pub open spec fn encoding_succeeds<O, E, I, M>(
    engine: &Engine<O, E, I, M>,
    vocab: &Vocabulary,
    bytes: Seq<u8>,
) -> bool where
    O: Fn(&str) -> Vec<Rank>,
    E: Fn(&str, &HashSet<&str>) -> (Vec<Rank>, usize),
    I: Fn(Vec<Rank>, usize) -> (Vec<Rank>, usize),
    M: Fn(&[u8]) -> Vec<Rank>,
 {
    exists|row: Vec<Rank>| #[trigger] encodes_bytes(engine, vocab, bytes, Ok(row))
}

/// Encodes one piece: the single token that the vocabulary has for exactly
/// these bytes, else what merging gives.
pub fn encode_single_piece<M>(vocab: &Vocabulary, byte_pair_encode: &M, piece: &[u8]) -> (tokens:
    Vec<Rank>) where M: Fn(&[u8]) -> Vec<Rank>
    requires
        forall|p: &[u8]| call_requires(*byte_pair_encode, (p,)),
    ensures
        vocab.ranks().contains_key(piece@) ==> tokens@ == seq![vocab.ranks()[piece@]],
        !vocab.ranks().contains_key(piece@) ==> call_ensures(*byte_pair_encode, (piece,), tokens),
{
    match vocab.lookup(piece) {
        Some(rank) => {
            let mut tokens: Vec<Rank> = Vec::new();
            tokens.push(rank);
            assert(tokens@ =~= seq![rank]);
            tokens
        },
        None => byte_pair_encode(piece),
    }
}

/// Encodes bytes that need not be valid text.
///
/// Valid text is handed to the engine's `encode_ordinary`, and its answer is
/// returned as it is. Otherwise the longest valid prefix is encoded with no
/// special token allowed, the count of last tokens is extended by the engine,
/// and the result is put together as [`boundary_outcome`] says. It fails only
/// where a token that the engine has just produced cannot be decoded.
pub fn encode_bytes<O, E, I, M>(engine: &Engine<O, E, I, M>, vocab: &Vocabulary, bytes: &[u8]) -> (r:
    Result<Vec<Rank>, DecodeInvariantFailure>) where
    O: Fn(&str) -> Vec<Rank>,
    E: Fn(&str, &HashSet<&str>) -> (Vec<Rank>, usize),
    I: Fn(Vec<Rank>, usize) -> (Vec<Rank>, usize),
    M: Fn(&[u8]) -> Vec<Rank>,

    requires
        engine.is_total(),
    ensures
        encodes_bytes(engine, vocab, bytes@, r),
{
    match as_text(bytes) {
        Ok(text) => {
            let out = (engine.encode_ordinary)(text);
            assert(call_ensures(engine.encode_ordinary, (text,), out));
            Ok(out)
        },
        Err(_) => {
            let (text, tail) = split_valid_prefix(bytes);
            let allowed: HashSet<&str> = HashSet::new();
            let (first, k) = (engine.encode)(text, &allowed);
            let ghost first_answer = first;
            let (tokens, n) = (engine.increase_last_piece_token_len)(first, k);
            let ghost answer = tokens;
            proof {
                assert(call_ensures(engine.encode, (text, &allowed), (first_answer, k)));
                assert(engine.encodes_plain(text@, first_answer, k));
                assert(call_ensures(
                    engine.increase_last_piece_token_len,
                    (first_answer, k),
                    (answer, n),
                ));
                assert(engine.encodes_prefix(text@, answer, n));
            }
            let r = match split_unstable(vocab, tokens, n, tail) {
                Err(failure) => Err(failure),
                Ok(split) => {
                    let mut out = split.stable_tokens;
                    if split.unstable_bytes.len() > 0 {
                        let ghost stable = out@;
                        let unstable = split.unstable_bytes.as_slice();
                        let resolved = encode_single_piece(vocab, &engine.byte_pair_encode, unstable);
                        out.extend_from_slice(resolved.as_slice());
                        proof {
                            assert forall|j: int| 0 <= j < resolved@.len() implies out@[stable.len()
                                + j] == resolved@[j] by {
                                assert(vstd::pervasive::cloned::<Rank>(
                                    resolved@[j],
                                    out@[stable.len() + j],
                                ));
                            }
                            assert(out@ =~= stable + resolved@);
                            if vocab.ranks().contains_key(unstable@) {
                                assert(stable + resolved@ =~= stable.push(
                                    vocab.ranks()[unstable@],
                                ));
                            } else {
                                assert(engine.merges(unstable@, resolved));
                            }
                        }
                    }
                    Ok(out)
                },
            };
            proof {
                assert(boundary_outcome(engine, vocab, answer@, n as nat, invalid_tail(bytes@), r));
            }
            r
        },
    }
}

/// Decoding what was encoded gives the bytes back, also where they are cut
/// off inside a character: this holds with a vocabulary whose two directions
/// agree and an engine whose answers decode to what it was asked to encode,
/// those for the valid prefix and those of its merging.
pub proof fn lemma_boundary_round_trip<O, E, I, M>(
    engine: &Engine<O, E, I, M>,
    vocab: &Vocabulary,
    bytes: Seq<u8>,
    tokens: Seq<Rank>,
    n: nat,
    outcome: Result<Vec<Rank>, DecodeInvariantFailure>,
) where
    O: Fn(&str) -> Vec<Rank>,
    E: Fn(&str, &HashSet<&str>) -> (Vec<Rank>, usize),
    I: Fn(Vec<Rank>, usize) -> (Vec<Rank>, usize),
    M: Fn(&[u8]) -> Vec<Rank>,

    requires
        boundary_outcome(engine, vocab, tokens, n, invalid_tail(bytes), outcome),
        vocab.is_consistent(),
        vocab.decoded(tokens) == Some(bytes.take(valid_up_to(bytes) as int)),
        forall|piece: Seq<u8>, merged: Vec<Rank>| #[trigger]
            engine.merges(piece, merged) ==> vocab.decoded(merged@) == Some(piece),
    ensures
        outcome matches Ok(out) && vocab.decoded(out@) == Some(bytes),
{
    crate::text::lemma_valid_up_to(bytes);
    let cut = valid_up_to(bytes) as int;
    let prefix = bytes.take(cut);
    let tail = invalid_tail(bytes);
    let stable = stable_tokens(tokens, n);
    let taken = tail_tokens(tokens, n);
    assert(stable + taken =~= tokens);
    assert(prefix + tail =~= bytes);
    vocab.lemma_decoded_concat(stable, taken);
    let a = vocab.decoded(stable)->Some_0;
    let b = vocab.decoded(taken)->Some_0;
    let unstable = b + tail;
    let out = outcome->Ok_0;
    if unstable.len() == 0 {
        assert(a =~= bytes);
    } else if vocab.ranks().contains_key(unstable) {
        let rank = vocab.ranks()[unstable];
        vocab.lemma_decoded_single(rank);
        vocab.lemma_decoded_concat(stable, seq![rank]);
        assert(stable.push(rank) =~= stable + seq![rank]);
        assert(a + unstable =~= bytes);
    } else {
        let merged = choose|merged: Vec<Rank>| #[trigger]
            engine.merges(unstable, merged) && out@ == stable + merged@;
        vocab.lemma_decoded_concat(stable, merged@);
        assert(a + unstable =~= bytes);
    }
}

/// An engine whose answers decode to what it was asked to encode: the bytes
/// of the text for `encode_ordinary` and for `encode` extended by
/// `increase_last_piece_token_len`, and the bytes themselves for
/// `byte_pair_encode`.
pub open spec fn answers_decode<O, E, I, M>(engine: &Engine<O, E, I, M>, vocab: &Vocabulary) -> bool where
    O: Fn(&str) -> Vec<Rank>,
    E: Fn(&str, &HashSet<&str>) -> (Vec<Rank>, usize),
    I: Fn(Vec<Rank>, usize) -> (Vec<Rank>, usize),
    M: Fn(&[u8]) -> Vec<Rank>,
 {
    &&& forall|text: Seq<char>, tokens: Vec<Rank>| #[trigger]
        engine.encodes_ordinary(text, tokens) ==> vocab.decoded(tokens@) == Some(
            encode_utf8(text),
        )
    &&& forall|text: Seq<char>, tokens: Vec<Rank>, n: usize| #[trigger]
        engine.encodes_prefix(text, tokens, n) ==> vocab.decoded(tokens@) == Some(
            encode_utf8(text),
        )
    &&& forall|piece: Seq<u8>, merged: Vec<Rank>| #[trigger]
        engine.merges(piece, merged) ==> vocab.decoded(merged@) == Some(piece)
}

/// Encoding and then decoding gives the bytes back, whether they are valid
/// text, text cut off inside a character, or neither: with a vocabulary whose
/// two directions agree and an engine whose answers decode to what it was
/// asked to encode, encoding does not fail, and its tokens decode to exactly
/// the bytes that were encoded.
pub proof fn lemma_encode_bytes_round_trip<O, E, I, M>(
    engine: &Engine<O, E, I, M>,
    vocab: &Vocabulary,
    bytes: Seq<u8>,
    outcome: Result<Vec<Rank>, DecodeInvariantFailure>,
) where
    O: Fn(&str) -> Vec<Rank>,
    E: Fn(&str, &HashSet<&str>) -> (Vec<Rank>, usize),
    I: Fn(Vec<Rank>, usize) -> (Vec<Rank>, usize),
    M: Fn(&[u8]) -> Vec<Rank>,

    requires
        encodes_bytes(engine, vocab, bytes, outcome),
        vocab.is_consistent(),
        answers_decode(engine, vocab),
    ensures
        outcome matches Ok(out) && vocab.decoded(out@) == Some(bytes),
{
    crate::text::lemma_valid_up_to(bytes);
    if valid_utf8(bytes) {
        vstd::utf8::decode_utf8_encode_utf8(bytes);
    } else {
        let prefix = bytes.take(valid_up_to(bytes) as int);
        vstd::utf8::decode_utf8_encode_utf8(prefix);
        let (tokens, n) = choose|tokens: Vec<Rank>, n: usize| #[trigger]
            engine.encodes_prefix(decode_utf8(prefix), tokens, n) && boundary_outcome(
                engine,
                vocab,
                tokens@,
                n as nat,
                invalid_tail(bytes),
                outcome,
            );
        lemma_boundary_round_trip(engine, vocab, bytes, tokens@, n as nat, outcome);
    }
}

} // verus!
