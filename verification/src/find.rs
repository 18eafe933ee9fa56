//! Byte search: the first occurrence of a needle, and the first of two
//! structural bytes, in a byte slice.
//!
//! The two executable searches call into the `memchr` crate; their contracts
//! state exactly what that crate documents (the index of the first
//! occurrence). The spec functions give the same searches as recursive
//! definitions, and the lemmas connect the two forms.

use vstd::prelude::*;

verus! {

/// The needle `n` occurs in `h` starting at position `i`.
pub open spec fn matches_at(h: Seq<u8>, n: Seq<u8>, i: int) -> bool {
    0 <= i && i + n.len() <= h.len() && h.subrange(i, i + n.len()) == n
}

/// The first position at or after `k` where the needle `n` occurs in `h`.
pub open spec fn first_match(h: Seq<u8>, n: Seq<u8>, k: int) -> Option<int>
    decreases h.len() + 1 - k,
{
    if k < 0 || k + n.len() > h.len() {
        None
    } else if h.subrange(k, k + n.len()) == n {
        Some(k)
    } else {
        first_match(h, n, k + 1)
    }
}

/// The first position at or after `k` holding either `n1` or `n2`.
pub open spec fn first_of2(h: Seq<u8>, n1: u8, n2: u8, k: int) -> Option<int>
    decreases h.len() + 1 - k,
{
    if k < 0 || k >= h.len() {
        None
    } else if h[k] == n1 || h[k] == n2 {
        Some(k)
    } else {
        first_of2(h, n1, n2, k + 1)
    }
}

/// Relies on `memchr::memmem::find`: it returns the index of the first
/// occurrence of `needle` in `haystack`, or `None` if there is none.
#[verifier::external_body]
pub fn find_needle(haystack: &[u8], needle: &[u8]) -> (r: Option<usize>)
    ensures
        match r {
            Some(i) => matches_at(haystack@, needle@, i as int) && (forall|j: int|
                0 <= j < i ==> !matches_at(haystack@, needle@, j)),
            None => forall|j: int| !matches_at(haystack@, needle@, j),
        },
{
    memchr::memmem::find(haystack, needle)
}

/// Relies on `memchr::memchr2`: it returns the index of the first byte of
/// `haystack` equal to `n1` or to `n2`, or `None` if there is none.
#[verifier::external_body]
pub fn find_either_byte(n1: u8, n2: u8, haystack: &[u8]) -> (r: Option<usize>)
    ensures
        match r {
            Some(i) => i < haystack@.len() && (haystack@[i as int] == n1 || haystack@[i as int]
                == n2) && (forall|j: int|
                0 <= j < i ==> haystack@[j] != n1 && haystack@[j] != n2),
            None => forall|j: int|
                0 <= j < haystack@.len() ==> haystack@[j] != n1 && haystack@[j] != n2,
        },
{
    memchr::memchr2(n1, n2, haystack)
}

/// `first_match` from `k` finds `i` when the needle occurs at `i` and
/// nowhere in between.
pub proof fn lemma_first_match_some(h: Seq<u8>, n: Seq<u8>, k: int, i: int)
    requires
        0 <= k <= i,
        matches_at(h, n, i),
        forall|j: int| k <= j < i ==> !matches_at(h, n, j),
    ensures
        first_match(h, n, k) == Some(i),
    decreases i - k,
{
    if k < i {
        assert(!matches_at(h, n, k));
        lemma_first_match_some(h, n, k + 1, i);
    }
}

/// `first_match` from `k` finds nothing when the needle occurs nowhere at
/// or after `k`.
pub proof fn lemma_first_match_none(h: Seq<u8>, n: Seq<u8>, k: int)
    requires
        0 <= k,
        forall|j: int| k <= j ==> !matches_at(h, n, j),
    ensures
        first_match(h, n, k) == None::<int>,
    decreases h.len() + 1 - k,
{
    if k + n.len() <= h.len() {
        assert(!matches_at(h, n, k));
        lemma_first_match_none(h, n, k + 1);
    }
}

/// Whatever `first_match` finds lies at or after `k`, with the whole
/// needle inside `h`.
pub proof fn lemma_first_match_bounds(h: Seq<u8>, n: Seq<u8>, k: int)
    ensures
        first_match(h, n, k) matches Some(i) ==> k <= i && i + n.len() <= h.len(),
    decreases h.len() + 1 - k,
{
    if !(k < 0 || k + n.len() > h.len()) && h.subrange(k, k + n.len()) != n {
        lemma_first_match_bounds(h, n, k + 1);
    }
}

/// `first_of2` from `k` finds `i` when `h[i]` is one of the two bytes and
/// no position in between holds either.
pub proof fn lemma_first_of2_some(h: Seq<u8>, n1: u8, n2: u8, k: int, i: int)
    requires
        0 <= k <= i < h.len(),
        h[i] == n1 || h[i] == n2,
        forall|j: int| k <= j < i ==> h[j] != n1 && h[j] != n2,
    ensures
        first_of2(h, n1, n2, k) == Some(i),
    decreases i - k,
{
    if k < i {
        lemma_first_of2_some(h, n1, n2, k + 1, i);
    }
}

/// Whatever `first_of2` finds lies between `k` and the end of `h`, and
/// holds one of the two bytes.
pub proof fn lemma_first_of2_bounds(h: Seq<u8>, n1: u8, n2: u8, k: int)
    ensures
        first_of2(h, n1, n2, k) matches Some(i) ==> k <= i < h.len() && (h[i] == n1 || h[i]
            == n2),
    decreases h.len() + 1 - k,
{
    if 0 <= k < h.len() && h[k] != n1 && h[k] != n2 {
        lemma_first_of2_bounds(h, n1, n2, k + 1);
    }
}

/// `first_of2` from `k` finds nothing when no position at or after `k`
/// holds either byte.
pub proof fn lemma_first_of2_none(h: Seq<u8>, n1: u8, n2: u8, k: int)
    requires
        0 <= k,
        forall|j: int| k <= j < h.len() ==> h[j] != n1 && h[j] != n2,
    ensures
        first_of2(h, n1, n2, k) == None::<int>,
    decreases h.len() + 1 - k,
{
    if k < h.len() {
        lemma_first_of2_none(h, n1, n2, k + 1);
    }
}

} // verus!
