//! Turning padded rows back into bytes and text.
use vstd::prelude::*;
use vstd::slice::slice_subrange;
use vstd::utf8::{decode_utf8, valid_utf8};
use crate::padding::{buffer_row, row_of, strip, stripped_length};
use crate::text::{as_text, valid_up_to};
use crate::vocab::{Vocabulary, VocabularyMiss};
use crate::Rank;

verus! {

/// Why a row could not be decoded.
#[derive(Debug, PartialEq, Eq)]
pub enum DecodeError {
    /// The vocabulary has no bytes for this token, the first such in the row.
    UnknownToken(Rank),
    /// The tokens decode to bytes that are not valid text; only the first
    /// `valid_up_to` of them are.
    InvalidText { valid_up_to: usize },
}

/// The bytes of a padded row: those of its tokens without the trailing
/// padding, or the first token among them that is unknown.
pub open spec fn stripped_bytes(vocab: &Vocabulary, row: Seq<Rank>) -> Result<
    Seq<u8>,
    DecodeError,
> {
    let tokens = strip(row);
    match vocab.decoded(tokens) {
        Some(bytes) => Ok(bytes),
        None => Err(DecodeError::UnknownToken(tokens[vocab.first_unknown(tokens) as int])),
    }
}

/// The text of a padded row: its bytes read as UTF-8, or why there is none.
/// An unknown token is reported before bytes that are not valid text.
pub open spec fn stripped_text(vocab: &Vocabulary, row: Seq<Rank>) -> Result<
    Seq<char>,
    DecodeError,
> {
    match stripped_bytes(vocab, row) {
        Ok(bytes) => if valid_utf8(bytes) {
            Ok(decode_utf8(bytes))
        } else {
            Err(DecodeError::InvalidText { valid_up_to: valid_up_to(bytes) as usize })
        },
        Err(e) => Err(e),
    }
}

/// Decodes a padded row to bytes.
pub fn decode_strip_bytes(vocab: &Vocabulary, row: &[Rank]) -> (r: Result<Vec<u8>, DecodeError>)
    ensures
        match r {
            Ok(bytes) => stripped_bytes(vocab, row@) == Ok::<Seq<u8>, DecodeError>(bytes@),
            Err(e) => stripped_bytes(vocab, row@) == Err::<Seq<u8>, DecodeError>(e),
        },
{
    let n = stripped_length(row);
    proof {
        crate::padding::lemma_stripped_len_is_last_token(row@);
    }
    match vocab.decode_bytes(slice_subrange(row, 0, n)) {
        Ok(bytes) => Ok(bytes),
        Err(VocabularyMiss::Token(token)) => Err(DecodeError::UnknownToken(token)),
        Err(VocabularyMiss::Piece(_)) => vstd::pervasive::unreached(),
    }
}

/// Decodes a padded row to text.
pub fn decode_strip_string(vocab: &Vocabulary, row: &[Rank]) -> (r: Result<String, DecodeError>)
    ensures
        match r {
            Ok(text) => stripped_text(vocab, row@) == Ok::<Seq<char>, DecodeError>(text@),
            Err(e) => stripped_text(vocab, row@) == Err::<Seq<char>, DecodeError>(e),
        },
{
    let bytes = match decode_strip_bytes(vocab, row) {
        Ok(bytes) => bytes,
        Err(e) => {
            return Err(e);
        },
    };
    match as_text(bytes.as_slice()) {
        Ok(text) => Ok(text.to_owned()),
        Err(valid_up_to) => Err(DecodeError::InvalidText { valid_up_to }),
    }
}

/// Decodes every row of a flat buffer of `rows` rows of `max_len` positions
/// to text, in order. Fails with the error of the first row that fails.
pub fn decode_batch_string(vocab: &Vocabulary, buffer: &[Rank], rows: usize, max_len: usize) -> (r:
    Result<Vec<String>, DecodeError>)
    requires
        buffer.len() == rows * max_len,
    ensures
        match r {
            Ok(texts) => {
                &&& texts.len() == rows
                &&& forall|i: int|
                    0 <= i < rows ==> stripped_text(vocab, buffer_row(buffer@, max_len as nat, i))
                        == Ok::<Seq<char>, DecodeError>(#[trigger] texts[i]@)
            },
            Err(e) => exists|i: int|
                {
                    &&& 0 <= i < rows
                    &&& #[trigger] stripped_text(vocab, buffer_row(buffer@, max_len as nat, i))
                        == Err::<Seq<char>, DecodeError>(e)
                    &&& forall|j: int|
                        0 <= j < i ==> #[trigger] stripped_text(
                            vocab,
                            buffer_row(buffer@, max_len as nat, j),
                        ) is Ok
                },
        },
{
    let mut texts: Vec<String> = Vec::new();
    let mut i: usize = 0;
    while i < rows
        invariant
            i <= rows,
            buffer.len() == rows * max_len,
            texts.len() == i,
            forall|j: int|
                #![trigger texts[j]]
                #![trigger buffer_row(buffer@, max_len as nat, j)]
                0 <= j < i ==> stripped_text(vocab, buffer_row(buffer@, max_len as nat, j))
                    == Ok::<Seq<char>, DecodeError>(texts[j]@),
        decreases rows - i,
    {
        let row = row_of(buffer, rows, max_len, i);
        match decode_strip_string(vocab, row) {
            Ok(text) => {
                texts.push(text);
            },
            Err(e) => {
                assert(stripped_text(vocab, buffer_row(buffer@, max_len as nat, i as int))
                    == Err::<Seq<char>, DecodeError>(e));
                return Err(e);
            },
        }
        i += 1;
    }
    Ok(texts)
}

} // verus!
