//! Encoding a batch into one flat buffer of rows of equal width.
//!
//! Each item is encoded on its own, in input order; nothing is carried from
//! one item to the next. Row `i` of the buffer holds the tokens of item `i`,
//! cut off at `max_len` and padded with [`PAD`](crate::padding::PAD).
use vstd::prelude::*;
use std::collections::HashSet;
use crate::boundary::{encode_bytes, encodes_bytes, encoding_succeeds, DecodeInvariantFailure};
use crate::engine::Engine;
use crate::padding::{append_padded, flat_rows, row_views};
use crate::vocab::Vocabulary;
use crate::Rank;

verus! {

/// `rows` holds, for each of `items` in order, an answer of `encode_item`.
pub open spec fn encodes_each<T, F: Fn(&T) -> Vec<Rank>>(
    encode_item: &F,
    items: Seq<T>,
    rows: Seq<Vec<Rank>>,
) -> bool {
    &&& rows.len() == items.len()
    &&& forall|i: int|
        0 <= i < items.len() ==> call_ensures(*encode_item, (&items[i],), #[trigger] rows[i])
}

/// One more row behind those of a flat buffer.
proof fn lemma_push_row(rows: Seq<Vec<Rank>>, row: Vec<Rank>, max_len: nat)
    ensures
        flat_rows(row_views(rows.push(row)), max_len) == flat_rows(row_views(rows), max_len)
            + crate::padding::pad_row(row@, max_len),
{
    let next = rows.push(row);
    assert(row_views(next).drop_last() =~= row_views(rows));
    assert(row_views(next).last() == row@);
}

/// Room for one more row is left in a buffer of `i` rows out of `n`.
proof fn lemma_next_row_fits(i: nat, n: nat, max_len: nat)
    requires
        i < n,
    ensures
        (i + 1) * max_len == i * max_len + max_len,
        (i + 1) * max_len <= n * max_len,
{
    assert((i + 1) * max_len == i * max_len + max_len) by (nonlinear_arith);
    assert((i + 1) * max_len <= n * max_len) by (nonlinear_arith)
        requires
            i + 1 <= n,
    ;
}

/// Encodes every item with `encode_item` and lays the results out as one
/// flat buffer of `items.len() * max_len` positions.
pub fn batch_to_buffer<T, F: Fn(&T) -> Vec<Rank>>(
    items: &Vec<T>,
    max_len: usize,
    encode_item: &F,
) -> (buffer: Vec<Rank>)
    requires
        forall|i: int| 0 <= i < items.len() ==> call_requires(*encode_item, (&items[i],)),
        items.len() * max_len <= usize::MAX,
    ensures
        buffer.len() == items.len() * max_len,
        exists|rows: Seq<Vec<Rank>>| #[trigger]
            encodes_each(encode_item, items@, rows) && buffer@ == flat_rows(
                row_views(rows),
                max_len as nat,
            ),
{
    let mut buffer: Vec<Rank> = Vec::new();
    let ghost mut rows: Seq<Vec<Rank>> = Seq::empty();
    let mut i: usize = 0;
    while i < items.len()
        invariant
            i <= items.len(),
            items.len() * max_len <= usize::MAX,
            forall|j: int| 0 <= j < items.len() ==> call_requires(*encode_item, (&items[j],)),
            encodes_each(encode_item, items@.take(i as int), rows),
            buffer@ == flat_rows(row_views(rows), max_len as nat),
            buffer.len() == i * max_len,
        decreases items.len() - i,
    {
        let row = encode_item(&items[i]);
        proof {
            lemma_next_row_fits(i as nat, items.len() as nat, max_len as nat);
            lemma_push_row(rows, row, max_len as nat);
            let next = rows.push(row);
            assert forall|j: int| 0 <= j < i + 1 implies call_ensures(
                *encode_item,
                (&items@.take(i + 1)[j],),
                #[trigger] next[j],
            ) by {
                if j < i {
                    assert(next[j] == rows[j]);
                    assert(items@.take(i + 1)[j] == items@.take(i as int)[j]);
                }
            }
            rows = next;
        }
        append_padded(&mut buffer, row.as_slice(), max_len);
        i += 1;
    }
    proof {
        assert(items@.take(i as int) =~= items@);
    }
    buffer
}

/// Encodes each text without special tokens, into one flat buffer.
pub fn encode_ordinary_batch_to_buffer<O, E, I, M>(
    engine: &Engine<O, E, I, M>,
    texts: &Vec<String>,
    max_len: usize,
) -> (buffer: Vec<Rank>) where
    O: Fn(&str) -> Vec<Rank>,
    E: Fn(&str, &HashSet<&str>) -> (Vec<Rank>, usize),
    I: Fn(Vec<Rank>, usize) -> (Vec<Rank>, usize),
    M: Fn(&[u8]) -> Vec<Rank>,

    requires
        engine.is_total(),
        texts.len() * max_len <= usize::MAX,
    ensures
        buffer.len() == texts.len() * max_len,
        exists|rows: Seq<Vec<Rank>>|
            {
                &&& rows.len() == texts.len()
                &&& forall|i: int|
                    0 <= i < texts.len() ==> engine.encodes_ordinary(texts[i]@, #[trigger] rows[i])
                &&& #[trigger] flat_rows(row_views(rows), max_len as nat) == buffer@
            },
{
    let mut buffer: Vec<Rank> = Vec::new();
    let ghost mut rows: Seq<Vec<Rank>> = Seq::empty();
    let mut i: usize = 0;
    while i < texts.len()
        invariant
            i <= texts.len(),
            texts.len() * max_len <= usize::MAX,
            engine.is_total(),
            rows.len() == i,
            forall|j: int| 0 <= j < i ==> engine.encodes_ordinary(texts[j]@, #[trigger] rows[j]),
            buffer@ == flat_rows(row_views(rows), max_len as nat),
            buffer.len() == i * max_len,
        decreases texts.len() - i,
    {
        let text = texts[i].as_str();
        let row = (engine.encode_ordinary)(text);
        proof {
            assert(call_ensures(engine.encode_ordinary, (text,), row));
            lemma_next_row_fits(i as nat, texts.len() as nat, max_len as nat);
            lemma_push_row(rows, row, max_len as nat);
            rows = rows.push(row);
        }
        append_padded(&mut buffer, row.as_slice(), max_len);
        i += 1;
    }
    proof {
        assert(flat_rows(row_views(rows), max_len as nat) == buffer@);
    }
    buffer
}

/// Encodes each text, matching the special tokens in `allowed_special`, into
/// one flat buffer.
pub fn encode_batch_to_buffer<O, E, I, M>(
    engine: &Engine<O, E, I, M>,
    texts: &Vec<String>,
    max_len: usize,
    allowed_special: &HashSet<&str>,
) -> (buffer: Vec<Rank>) where
    O: Fn(&str) -> Vec<Rank>,
    E: Fn(&str, &HashSet<&str>) -> (Vec<Rank>, usize),
    I: Fn(Vec<Rank>, usize) -> (Vec<Rank>, usize),
    M: Fn(&[u8]) -> Vec<Rank>,

    requires
        engine.is_total(),
        texts.len() * max_len <= usize::MAX,
    ensures
        buffer.len() == texts.len() * max_len,
        exists|rows: Seq<Vec<Rank>>|
            {
                &&& rows.len() == texts.len()
                &&& forall|i: int|
                    0 <= i < texts.len() ==> engine.encodes_with(
                        texts[i]@,
                        allowed_special,
                        #[trigger] rows[i],
                    )
                &&& #[trigger] flat_rows(row_views(rows), max_len as nat) == buffer@
            },
{
    let mut buffer: Vec<Rank> = Vec::new();
    let ghost mut rows: Seq<Vec<Rank>> = Seq::empty();
    let mut i: usize = 0;
    while i < texts.len()
        invariant
            i <= texts.len(),
            texts.len() * max_len <= usize::MAX,
            engine.is_total(),
            rows.len() == i,
            forall|j: int|
                0 <= j < i ==> engine.encodes_with(texts[j]@, allowed_special, #[trigger] rows[j]),
            buffer@ == flat_rows(row_views(rows), max_len as nat),
            buffer.len() == i * max_len,
        decreases texts.len() - i,
    {
        let text = texts[i].as_str();
        let (row, n) = (engine.encode)(text, allowed_special);
        proof {
            assert(call_ensures(engine.encode, (text, allowed_special), (row, n)));
            lemma_next_row_fits(i as nat, texts.len() as nat, max_len as nat);
            lemma_push_row(rows, row, max_len as nat);
            rows = rows.push(row);
        }
        append_padded(&mut buffer, row.as_slice(), max_len);
        i += 1;
    }
    proof {
        assert(flat_rows(row_views(rows), max_len as nat) == buffer@);
    }
    buffer
}

/// Encodes each item, which need not be valid text, into one flat buffer.
/// Fails with the failure of the first item that fails.
pub fn encode_bytes_batch_to_buffer<O, E, I, M>(
    engine: &Engine<O, E, I, M>,
    vocab: &Vocabulary,
    items: &Vec<Vec<u8>>,
    max_len: usize,
) -> (r: Result<Vec<Rank>, DecodeInvariantFailure>) where
    O: Fn(&str) -> Vec<Rank>,
    E: Fn(&str, &HashSet<&str>) -> (Vec<Rank>, usize),
    I: Fn(Vec<Rank>, usize) -> (Vec<Rank>, usize),
    M: Fn(&[u8]) -> Vec<Rank>,

    requires
        engine.is_total(),
        items.len() * max_len <= usize::MAX,
    ensures
        match r {
            Ok(buffer) => {
                &&& buffer.len() == items.len() * max_len
                &&& exists|rows: Seq<Vec<Rank>>|
                    {
                        &&& rows.len() == items.len()
                        &&& forall|i: int|
                            0 <= i < items.len() ==> encodes_bytes(
                                engine,
                                vocab,
                                items[i]@,
                                Ok(#[trigger] rows[i]),
                            )
                        &&& #[trigger] flat_rows(row_views(rows), max_len as nat) == buffer@
                    }
            },
            Err(_) => exists|i: int|
                {
                    &&& 0 <= i < items.len()
                    &&& #[trigger] encodes_bytes(engine, vocab, items[i]@, r)
                    &&& forall|j: int|
                        0 <= j < i ==> #[trigger] encoding_succeeds(engine, vocab, items[j]@)
                },
        },
{
    let mut buffer: Vec<Rank> = Vec::new();
    let ghost mut rows: Seq<Vec<Rank>> = Seq::empty();
    let mut i: usize = 0;
    while i < items.len()
        invariant
            i <= items.len(),
            items.len() * max_len <= usize::MAX,
            engine.is_total(),
            rows.len() == i,
            forall|j: int|
                0 <= j < i ==> encodes_bytes(engine, vocab, items[j]@, Ok(#[trigger] rows[j])),
            buffer@ == flat_rows(row_views(rows), max_len as nat),
            buffer.len() == i * max_len,
        decreases items.len() - i,
    {
        let outcome = encode_bytes(engine, vocab, items[i].as_slice());
        let row = match outcome {
            Ok(row) => row,
            Err(failure) => {
                proof {
                    assert(encodes_bytes(engine, vocab, items[i as int]@, outcome));
                    assert forall|j: int| 0 <= j < i implies #[trigger] encoding_succeeds(
                        engine,
                        vocab,
                        items[j]@,
                    ) by {
                        assert(encodes_bytes(engine, vocab, items[j]@, Ok(rows[j])));
                    }
                }
                return Err(failure);
            },
        };
        proof {
            lemma_next_row_fits(i as nat, items.len() as nat, max_len as nat);
            lemma_push_row(rows, row, max_len as nat);
            rows = rows.push(row);
        }
        append_padded(&mut buffer, row.as_slice(), max_len);
        i += 1;
    }
    proof {
        assert(flat_rows(row_views(rows), max_len as nat) == buffer@);
    }
    Ok(buffer)
}

} // verus!
