//! The machine word, and the arithmetic between counts of words and counts
//! of bytes.
//!
//! A word is as wide as the host's `usize`: four bytes or eight.

use vstd::prelude::*;

verus! {

/// Number of bytes in a machine word.
pub open spec fn word_size() -> int {
    if usize::BITS == 64 {
        8
    } else {
        4
    }
}

/// Number of bytes that `words` words take.
pub open spec fn bytes_of(words: int) -> int {
    if usize::BITS == 64 {
        8 * words
    } else {
        4 * words
    }
}

/// Number of whole words in `bytes` bytes.
pub open spec fn words_in(bytes: int) -> int {
    if usize::BITS == 64 {
        bytes / 8
    } else {
        bytes / 4
    }
}

/// Number of bytes that are left of `bytes` after its whole words.
pub open spec fn bytes_past_word(bytes: int) -> int {
    if usize::BITS == 64 {
        bytes % 8
    } else {
        bytes % 4
    }
}

/// Number of bytes in a machine word: 4 or 8.
pub fn word_bytes() -> (n: usize)
    ensures
        n == word_size(),
{
    if usize::BITS == 64 {
        8
    } else {
        4
    }
}

/// Number of bytes that `words` words take.
pub fn words_to_bytes(words: usize) -> (bytes: usize)
    requires
        bytes_of(words as int) <= usize::MAX,
    ensures
        bytes == bytes_of(words as int),
{
    if usize::BITS == 64 {
        8 * words
    } else {
        4 * words
    }
}

/// Number of whole words in `bytes` bytes.
pub fn bytes_to_words(bytes: usize) -> (words: usize)
    ensures
        words == words_in(bytes as int),
{
    if usize::BITS == 64 {
        bytes / 8
    } else {
        bytes / 4
    }
}

/// Whether `bytes` bytes are a whole number of words.
pub fn is_word_multiple(bytes: usize) -> (whole: bool)
    ensures
        whole == (bytes_past_word(bytes as int) == 0),
{
    if usize::BITS == 64 {
        bytes % 8 == 0
    } else {
        bytes % 4 == 0
    }
}

} // verus!
