//! The tokenizer engine as this crate sees it: four operations that it is
//! handed and calls, without knowing how they work.
use vstd::prelude::*;
use std::collections::HashSet;
use crate::Rank;

verus! {

/// The operations of a tokenizer engine.
pub struct Engine<O, E, I, M> {
    /// Encodes text without looking for special tokens.
    pub encode_ordinary: O,
    /// Encodes text, matching the special tokens whose names are allowed;
    /// also returns how many of the last tokens come from the last piece
    /// that the text was split into.
    pub encode: E,
    /// Extends a count of last tokens over those in front of it that could
    /// still change with the text that follows.
    pub increase_last_piece_token_len: I,
    /// Encodes bytes for which the vocabulary has no single token by merging
    /// them pair by pair.
    pub byte_pair_encode: M,
}

impl<O, E, I, M> Engine<O, E, I, M> where
    O: Fn(&str) -> Vec<Rank>,
    E: Fn(&str, &HashSet<&str>) -> (Vec<Rank>, usize),
    I: Fn(Vec<Rank>, usize) -> (Vec<Rank>, usize),
    M: Fn(&[u8]) -> Vec<Rank>,
 {
    /// Every operation may be called on every argument.
    pub open spec fn is_total(&self) -> bool {
        &&& forall|text: &str| call_requires(self.encode_ordinary, (text,))
        &&& forall|text: &str, allowed: &HashSet<&str>| call_requires(self.encode, (text, allowed))
        &&& forall|tokens: Vec<Rank>, n: usize|
            call_requires(self.increase_last_piece_token_len, (tokens, n))
        &&& forall|piece: &[u8]| call_requires(self.byte_pair_encode, (piece,))
    }

    /// `tokens` is an answer of `encode_ordinary` to `text`.
    pub open spec fn encodes_ordinary(&self, text: Seq<char>, tokens: Vec<Rank>) -> bool {
        exists|t: &str| t@ == text && #[trigger] call_ensures(self.encode_ordinary, (t,), tokens)
    }

    /// `tokens` are the tokens of an answer of `encode` to `text` with the
    /// special tokens in `allowed`.
    pub open spec fn encodes_with(
        &self,
        text: Seq<char>,
        allowed: &HashSet<&str>,
        tokens: Vec<Rank>,
    ) -> bool {
        exists|t: &str, n: usize|
            t@ == text && #[trigger] call_ensures(self.encode, (t, allowed), (tokens, n))
    }

    /// `(tokens, n)` is an answer of `encode` to `text` with no special token
    /// allowed.
    pub open spec fn encodes_plain(&self, text: Seq<char>, tokens: Vec<Rank>, n: usize) -> bool {
        exists|t: &str, allowed: &HashSet<&str>|
            t@ == text && allowed@ == Set::<&str>::empty() && #[trigger] call_ensures(
                self.encode,
                (t, allowed),
                (tokens, n),
            )
    }

    /// `(tokens, n)` is an answer of `increase_last_piece_token_len` to an
    /// answer of `encode` to `text` with no special token allowed.
    pub open spec fn encodes_prefix(&self, text: Seq<char>, tokens: Vec<Rank>, n: usize) -> bool {
        exists|first: Vec<Rank>, k: usize|
            self.encodes_plain(text, first, k) && #[trigger] call_ensures(
                self.increase_last_piece_token_len,
                (first, k),
                (tokens, n),
            )
    }

    /// `tokens` is an answer of `byte_pair_encode` to `piece`.
    pub open spec fn merges(&self, piece: Seq<u8>, tokens: Vec<Rank>) -> bool {
        exists|p: &[u8]| p@ == piece && #[trigger] call_ensures(self.byte_pair_encode, (p,), tokens)
    }
}

} // verus!
