//! The padding convention of batch buffers: every row has the same width, a
//! row's tokens come first, and the value [`PAD`] fills what is left.
use vstd::prelude::*;
use vstd::slice::slice_subrange;
use crate::Rank;

verus! {

/// The value that fills a row behind its tokens.
pub const PAD: Rank = 0;

/// Number of positions of `row` up to and including the last one that does
/// not hold [`PAD`]; zero when every position holds it.
pub open spec fn stripped_len(row: Seq<Rank>) -> nat
    decreases row.len(),
{
    if row.len() == 0 {
        0
    } else if row.last() != PAD {
        row.len()
    } else {
        stripped_len(row.drop_last())
    }
}

/// `row` without its trailing padding.
pub open spec fn strip(row: Seq<Rank>) -> Seq<Rank> {
    row.take(stripped_len(row) as int)
}

/// The first `max_len` tokens, or all of them when there are fewer.
pub open spec fn truncated(tokens: Seq<Rank>, max_len: nat) -> Seq<Rank> {
    if tokens.len() <= max_len {
        tokens
    } else {
        tokens.take(max_len as int)
    }
}

/// A row of exactly `max_len` positions: the tokens, cut off at `max_len`,
/// then padding.
pub open spec fn pad_row(tokens: Seq<Rank>, max_len: nat) -> Seq<Rank> {
    Seq::new(max_len, |j: int| if j < tokens.len() { tokens[j] } else { PAD })
}

/// The rows, each padded to `max_len`, one after the other.
pub open spec fn flat_rows(rows: Seq<Seq<Rank>>, max_len: nat) -> Seq<Rank>
    decreases rows.len(),
{
    if rows.len() == 0 {
        Seq::empty()
    } else {
        flat_rows(rows.drop_last(), max_len) + pad_row(rows.last(), max_len)
    }
}

/// The token sequences that a vector of token vectors holds.
pub open spec fn row_views(rows: Seq<Vec<Rank>>) -> Seq<Seq<Rank>> {
    Seq::new(rows.len(), |i: int| rows[i]@)
}

/// `stripped_len` is the one cut after which everything is padding and before
/// which the last position is not.
pub proof fn lemma_stripped_len_is_last_token(row: Seq<Rank>)
    ensures
        stripped_len(row) <= row.len(),
        forall|i: int| stripped_len(row) <= i < row.len() ==> row[i] == PAD,
        stripped_len(row) > 0 ==> row[stripped_len(row) - 1] != PAD,
    decreases row.len(),
{
    if row.len() != 0 && row.last() == PAD {
        let front = row.drop_last();
        lemma_stripped_len_is_last_token(front);
        assert forall|i: int| stripped_len(row) <= i < row.len() implies row[i] == PAD by {
            if i < front.len() {
                assert(front[i] == row[i]);
            }
        }
        if stripped_len(row) > 0 {
            assert(front[stripped_len(row) - 1] == row[stripped_len(row) - 1]);
        }
    }
}

/// Any cut with the two properties of `stripped_len` is `stripped_len`.
pub proof fn lemma_stripped_len_unique(row: Seq<Rank>, n: int)
    requires
        0 <= n <= row.len(),
        forall|i: int| n <= i < row.len() ==> row[i] == PAD,
        n > 0 ==> row[n - 1] != PAD,
    ensures
        stripped_len(row) == n,
{
    lemma_stripped_len_is_last_token(row);
    let m = stripped_len(row) as int;
    if m < n {
        assert(row[n - 1] == PAD);
    } else if n < m {
        assert(row[m - 1] == PAD);
    }
}

/// Stripping removes nothing but trailing padding: what is left is a prefix
/// of the row whose positions are unchanged, a zero in front of the last token
/// included; everything removed holds [`PAD`]; and what is left does not end
/// in [`PAD`].
pub proof fn lemma_strip_only_removes_trailing_padding(row: Seq<Rank>)
    ensures
        strip(row).len() == stripped_len(row) <= row.len(),
        forall|i: int| 0 <= i < strip(row).len() ==> strip(row)[i] == row[i],
        forall|i: int| strip(row).len() <= i < row.len() ==> row[i] == PAD,
        strip(row).len() > 0 ==> strip(row).last() != PAD,
{
    lemma_stripped_len_is_last_token(row);
}

/// A row that does not hold [`PAD`] in its last position is left as it is.
pub proof fn lemma_strip_unpadded(row: Seq<Rank>)
    requires
        row.len() > 0 ==> row.last() != PAD,
    ensures
        strip(row) == row,
{
    assert(row.take(row.len() as int) =~= row);
}

/// Stripping is idempotent.
pub proof fn lemma_strip_idempotent(row: Seq<Rank>)
    ensures
        strip(strip(row)) == strip(row),
{
    lemma_strip_only_removes_trailing_padding(row);
    lemma_strip_unpadded(strip(row));
}

/// Padding a token sequence and stripping the row again gives what stripping
/// the sequence itself, cut off at `max_len`, gives.
pub proof fn lemma_strip_padded_row(tokens: Seq<Rank>, max_len: nat)
    ensures
        strip(pad_row(tokens, max_len)) == strip(truncated(tokens, max_len)),
{
    let row = pad_row(tokens, max_len);
    let cut = truncated(tokens, max_len);
    lemma_stripped_len_is_last_token(cut);
    let n = stripped_len(cut) as int;
    assert forall|i: int| n <= i < row.len() implies row[i] == PAD by {
        if i < cut.len() {
            assert(row[i] == cut[i]);
        }
    }
    if n > 0 {
        assert(row[n - 1] == cut[n - 1]);
    }
    lemma_stripped_len_unique(row, n);
    assert(row.take(n) =~= cut.take(n));
}

/// Padding and stripping give back a token sequence of at most `max_len`
/// tokens, and the first `max_len` tokens of a longer one, provided that what
/// is kept does not end in [`PAD`]. A zero anywhere else in it is kept.
pub proof fn lemma_strip_recovers_tokens(tokens: Seq<Rank>, max_len: nat)
    requires
        truncated(tokens, max_len).len() > 0 ==> truncated(tokens, max_len).last() != PAD,
    ensures
        strip(pad_row(tokens, max_len)) == truncated(tokens, max_len),
{
    lemma_strip_padded_row(tokens, max_len);
    lemma_strip_unpadded(truncated(tokens, max_len));
}

/// Where no token is [`PAD`], padding and stripping give the tokens back,
/// cut off at `max_len`.
pub proof fn lemma_strip_recovers_padding_free_tokens(tokens: Seq<Rank>, max_len: nat)
    requires
        forall|i: int| 0 <= i < tokens.len() ==> tokens[i] != PAD,
    ensures
        strip(pad_row(tokens, max_len)) == truncated(tokens, max_len),
{
    let cut = truncated(tokens, max_len);
    if cut.len() > 0 {
        assert(cut.last() == tokens[cut.len() - 1]);
    }
    lemma_strip_recovers_tokens(tokens, max_len);
}

/// A padded row is the tokens, cut off at `max_len`, followed by padding only.
pub proof fn lemma_pad_row_is_tokens_then_padding(tokens: Seq<Rank>, max_len: nat)
    ensures
        pad_row(tokens, max_len).len() == max_len,
        truncated(tokens, max_len).len() <= max_len,
        pad_row(tokens, max_len) == truncated(tokens, max_len) + Seq::new(
            (max_len - truncated(tokens, max_len).len()) as nat,
            |j: int| PAD,
        ),
{
    let cut = truncated(tokens, max_len);
    assert(pad_row(tokens, max_len) =~= cut + Seq::new((max_len - cut.len()) as nat, |j: int| PAD));
}

/// Position of the last token of `row` other than [`PAD`], plus one.
pub fn stripped_length(row: &[Rank]) -> (n: usize)
    ensures
        n == stripped_len(row@),
{
    let mut n: usize = row.len();
    while n > 0 && row[n - 1] == PAD
        invariant
            n <= row.len(),
            forall|i: int| n <= i < row.len() ==> row@[i] == PAD,
        decreases n,
    {
        n -= 1;
    }
    proof {
        lemma_stripped_len_unique(row@, n as int);
    }
    n
}

/// Removes the trailing padding of a row in place. Tokens in front of the
/// last one that is not [`PAD`] stay, whatever their value.
pub fn strip_padding(tokens: &mut Vec<Rank>)
    ensures
        final(tokens)@ == strip(old(tokens)@),
{
    let n = stripped_length(tokens.as_slice());
    proof {
        lemma_stripped_len_is_last_token(tokens@);
    }
    tokens.truncate(n);
}

/// Appends one row of exactly `max_len` positions to `buffer`: the first
/// `max_len` of `tokens`, then [`PAD`] up to the row's width. Longer token
/// sequences are cut off without an error.
pub fn append_padded(buffer: &mut Vec<Rank>, tokens: &[Rank], max_len: usize)
    requires
        old(buffer).len() + max_len <= usize::MAX,
    ensures
        final(buffer)@ == old(buffer)@ + pad_row(tokens@, max_len as nat),
{
    let start = buffer.len();
    let keep = if tokens.len() < max_len { tokens.len() } else { max_len };
    buffer.extend_from_slice(slice_subrange(tokens, 0, keep));
    let ghost kept = buffer@;
    assert forall|i: int| 0 <= i < kept.len() implies kept[i] == (old(buffer)@ + pad_row(
        tokens@,
        max_len as nat,
    ))[i] by {
        if i >= start {
            assert(vstd::pervasive::cloned::<Rank>(tokens@.subrange(0, keep as int)[i - start], kept[i]));
        }
    }
    buffer.resize(start + max_len, PAD);
    assert forall|i: int| 0 <= i < start + max_len implies buffer@[i] == (old(buffer)@ + pad_row(
        tokens@,
        max_len as nat,
    ))[i] by {
        if i < kept.len() {
            if start + max_len > kept.len() {
                assert(buffer@.subrange(0, kept.len() as int)[i] == buffer@[i]);
            }
        } else {
            assert(vstd::pervasive::cloned::<Rank>(PAD, buffer@[i]));
        }
    }
    assert(buffer@ =~= old(buffer)@ + pad_row(tokens@, max_len as nat));
}

/// Row `i` of a flat buffer of rows of `max_len` positions.
#[verifier::opaque]
pub open spec fn buffer_row(buffer: Seq<Rank>, max_len: nat, i: int) -> Seq<Rank> {
    buffer.subrange(i * max_len, (i + 1) * max_len)
}

/// Row `i` of a flat buffer of `rows` rows of `max_len` positions.
pub fn row_of(buffer: &[Rank], rows: usize, max_len: usize, i: usize) -> (row: &[Rank])
    requires
        buffer.len() == rows * max_len,
        i < rows,
    ensures
        row@ == buffer_row(buffer@, max_len as nat, i as int),
        row.len() == max_len,
{
    proof {
        reveal(buffer_row);
        assert((i + 1) * max_len == i * max_len + max_len) by (nonlinear_arith);
        assert((i + 1) * max_len <= rows * max_len) by (nonlinear_arith)
            requires
                i + 1 <= rows,
        ;
    }
    let start = i * max_len;
    slice_subrange(buffer, start, start + max_len)
}

/// A flat buffer holds `max_len` positions for each row.
pub proof fn lemma_flat_rows_len(rows: Seq<Seq<Rank>>, max_len: nat)
    ensures
        flat_rows(rows, max_len).len() == rows.len() * max_len,
    decreases rows.len(),
{
    if rows.len() != 0 {
        lemma_flat_rows_len(rows.drop_last(), max_len);
        assert((rows.len() - 1) * max_len + max_len == rows.len() * max_len) by (nonlinear_arith);
    } else {
        assert(0 * max_len == 0) by (nonlinear_arith);
    }
}

/// Row `i` of a flat buffer is item `i` padded to `max_len`.
pub proof fn lemma_flat_rows_row(rows: Seq<Seq<Rank>>, max_len: nat, i: int)
    requires
        0 <= i < rows.len(),
    ensures
        (i + 1) * max_len <= flat_rows(rows, max_len).len(),
        buffer_row(flat_rows(rows, max_len), max_len, i) == pad_row(rows[i], max_len),
    decreases rows.len(),
{
    reveal(buffer_row);
    let front = rows.drop_last();
    lemma_flat_rows_len(rows, max_len);
    lemma_flat_rows_len(front, max_len);
    assert((i + 1) * max_len == i * max_len + max_len) by (nonlinear_arith);
    assert(0 <= i * max_len) by (nonlinear_arith)
        requires
            0 <= i,
    ;
    if i == rows.len() - 1 {
        assert(flat_rows(rows, max_len).subrange(i * max_len, (i + 1) * max_len) =~= pad_row(
            rows[i],
            max_len,
        ));
    } else {
        lemma_flat_rows_row(front, max_len, i);
        assert(front[i] == rows[i]);
        assert(flat_rows(rows, max_len).subrange(i * max_len, (i + 1) * max_len)
            =~= flat_rows(front, max_len).subrange(i * max_len, (i + 1) * max_len));
    }
}

/// Stripping row `i` of a flat buffer gives the tokens of item `i`, cut off at
/// `max_len`, whenever what is kept of them does not end in [`PAD`].
pub proof fn lemma_flat_rows_strip_row(rows: Seq<Seq<Rank>>, max_len: nat, i: int)
    requires
        0 <= i < rows.len(),
        truncated(rows[i], max_len).len() > 0 ==> truncated(rows[i], max_len).last() != PAD,
    ensures
        strip(buffer_row(flat_rows(rows, max_len), max_len, i)) == truncated(rows[i], max_len),
{
    lemma_flat_rows_row(rows, max_len, i);
    lemma_strip_recovers_tokens(rows[i], max_len);
}

/// Lays a batch out as one flat row-major buffer of `encoded.len() * max_len`
/// positions: row `i` holds the tokens of item `i`, cut off at `max_len` and
/// padded with [`PAD`].
pub fn pad_and_flatten(encoded: &Vec<Vec<Rank>>, max_len: usize) -> (buffer: Vec<Rank>)
    requires
        encoded.len() * max_len <= usize::MAX,
    ensures
        buffer@ == flat_rows(row_views(encoded@), max_len as nat),
        buffer.len() == encoded.len() * max_len,
{
    let mut buffer: Vec<Rank> = Vec::new();
    let mut i: usize = 0;
    let ghost rows = row_views(encoded@);
    while i < encoded.len()
        invariant
            i <= encoded.len(),
            rows == row_views(encoded@),
            encoded.len() * max_len <= usize::MAX,
            buffer@ == flat_rows(rows.take(i as int), max_len as nat),
            buffer.len() == i * max_len,
        decreases encoded.len() - i,
    {
        proof {
            assert((i + 1) * max_len <= encoded.len() * max_len) by (nonlinear_arith)
                requires
                    i + 1 <= encoded.len(),
            ;
            assert((i + 1) * max_len == i * max_len + max_len) by (nonlinear_arith);
            assert(rows.take(i + 1).drop_last() =~= rows.take(i as int));
            assert(rows.take(i + 1).last() == encoded@[i as int]@);
        }
        append_padded(&mut buffer, encoded[i].as_slice(), max_len);
        i += 1;
    }
    proof {
        assert(rows.take(i as int) =~= rows);
    }
    buffer
}

} // verus!
