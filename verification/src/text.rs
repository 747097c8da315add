//! Where a byte string stops being valid UTF-8.
use vstd::prelude::*;
use vstd::slice::slice_subrange;
use vstd::utf8::{decode_utf8, valid_utf8};

verus! {

/// Length of the longest prefix of `bytes`, among those of at most `n` bytes,
/// that is valid UTF-8.
pub open spec fn longest_valid_prefix(bytes: Seq<u8>, n: nat) -> nat
    decreases n,
{
    if n == 0 || valid_utf8(bytes.take(n as int)) {
        n
    } else {
        longest_valid_prefix(bytes, (n - 1) as nat)
    }
}

/// Length of the longest prefix of `bytes` that is valid UTF-8.
pub open spec fn valid_up_to(bytes: Seq<u8>) -> nat {
    longest_valid_prefix(bytes, bytes.len())
}

/// The bytes of `bytes` behind its longest valid prefix.
pub open spec fn invalid_tail(bytes: Seq<u8>) -> Seq<u8> {
    bytes.skip(valid_up_to(bytes) as int)
}

proof fn lemma_longest_valid_prefix(bytes: Seq<u8>, n: nat)
    requires
        n <= bytes.len(),
    ensures
        longest_valid_prefix(bytes, n) <= n,
        valid_utf8(bytes.take(longest_valid_prefix(bytes, n) as int)),
        forall|k: int| longest_valid_prefix(bytes, n) < k <= n ==> !valid_utf8(bytes.take(k)),
    decreases n,
{
    if n == 0 {
        assert(bytes.take(0).len() == 0);
    } else if !valid_utf8(bytes.take(n as int)) {
        lemma_longest_valid_prefix(bytes, (n - 1) as nat);
    }
}

/// `valid_up_to` cuts off a valid prefix, no longer prefix is valid, and it
/// is the whole length exactly when all of `bytes` is valid.
pub proof fn lemma_valid_up_to(bytes: Seq<u8>)
    ensures
        valid_up_to(bytes) <= bytes.len(),
        valid_utf8(bytes.take(valid_up_to(bytes) as int)),
        forall|k: int| valid_up_to(bytes) < k <= bytes.len() ==> !valid_utf8(bytes.take(k)),
        valid_utf8(bytes) <==> valid_up_to(bytes) == bytes.len(),
{
    lemma_longest_valid_prefix(bytes, bytes.len());
    assert(bytes.take(bytes.len() as int) =~= bytes);
}

/// `std::str::from_utf8`, with `Utf8Error::valid_up_to` on its error: the
/// text that `bytes` encodes when all of it is valid UTF-8, else the length
/// of its longest valid prefix.
#[verifier::external_body]
fn text_or_valid_up_to<'a>(bytes: &'a [u8]) -> (r: Result<&'a str, usize>)
    ensures
        match r {
            Ok(text) => valid_utf8(bytes@) && text@ == decode_utf8(bytes@),
            Err(n) => !valid_utf8(bytes@) && n == valid_up_to(bytes@),
        },
{
    match std::str::from_utf8(bytes) {
        Ok(text) => Ok(text),
        Err(e) => Err(e.valid_up_to()),
    }
}

/// The text that `bytes` encodes, or how many of its leading bytes are valid
/// when not all of them are.
pub fn as_text<'a>(bytes: &'a [u8]) -> (r: Result<&'a str, usize>)
    ensures
        match r {
            Ok(text) => valid_utf8(bytes@) && text@ == decode_utf8(bytes@),
            Err(n) => !valid_utf8(bytes@) && n == valid_up_to(bytes@) && n < bytes.len(),
        },
{
    proof {
        lemma_valid_up_to(bytes@);
    }
    text_or_valid_up_to(bytes)
}

/// Splits `bytes` behind its longest valid prefix: the text of that prefix
/// and the bytes that follow it.
pub fn split_valid_prefix<'a>(bytes: &'a [u8]) -> (r: (&'a str, &'a [u8]))
    ensures
        r.0@ == decode_utf8(bytes@.take(valid_up_to(bytes@) as int)),
        r.1@ == invalid_tail(bytes@),
{
    proof {
        lemma_valid_up_to(bytes@);
    }
    let n = match text_or_valid_up_to(bytes) {
        Ok(_) => bytes.len(),
        Err(n) => n,
    };
    let head = slice_subrange(bytes, 0, n);
    let tail = slice_subrange(bytes, n, bytes.len());
    assert(head@ == bytes@.take(n as int));
    assert(tail@ == bytes@.skip(n as int));
    match text_or_valid_up_to(head) {
        Ok(text) => (text, tail),
        Err(_) => vstd::pervasive::unreached(),
    }
}

} // verus!
