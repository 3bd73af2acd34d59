//! Request framing: a request is complete once the terminator has arrived.

use vstd::prelude::*;

verus! {

/// The terminator that closes a request: four line feeds.
pub open spec fn terminator() -> Seq<u8> {
    seq![10u8, 10u8, 10u8, 10u8]
}

/// `needle` stands in `haystack` at offset `at`.
pub open spec fn occurs_at(haystack: Seq<u8>, needle: Seq<u8>, at: int) -> bool {
    &&& 0 <= at
    &&& at + needle.len() <= haystack.len()
    &&& haystack.subrange(at, at + needle.len()) == needle
}

/// `needle` stands somewhere in `haystack`.
pub open spec fn contains_subsequence(haystack: Seq<u8>, needle: Seq<u8>) -> bool {
    exists|at: int| occurs_at(haystack, needle, at)
}

/// Whether the bytes of `haystack` from `at` on begin with `needle`.
fn matches_at(haystack: &[u8], needle: &[u8], at: usize) -> (hit: bool)
    requires
        at + needle@.len() <= haystack@.len(),
    ensures
        hit == occurs_at(haystack@, needle@, at as int),
{
    let len: usize = haystack.len();
    let mut k: usize = 0;
    while k < needle.len()
        invariant
            len == haystack@.len(),
            at + needle@.len() <= haystack@.len(),
            k <= needle@.len(),
            forall|j: int| 0 <= j < k ==> haystack@[at + j] == needle@[j],
        decreases needle@.len() - k,
    {
        if haystack[at + k] != needle[k] {
            proof {
                let window = haystack@.subrange(at as int, at + needle@.len());
                assert(window[k as int] == haystack@[at + k]);
            }
            return false;
        }
        k += 1;
    }
    proof {
        assert(haystack@.subrange(at as int, at + needle@.len()) =~= needle@);
    }
    true
}

/// The offset of the first occurrence of `needle` in `haystack`, if there is
/// one. The needle must not be empty.
pub fn find_subsequence(haystack: &[u8], needle: &[u8]) -> (found: Option<usize>)
    requires
        needle@.len() > 0,
    ensures
        match found {
            Some(at) => {
                &&& occurs_at(haystack@, needle@, at as int)
                &&& forall|earlier: int|
                    0 <= earlier < at ==> !occurs_at(haystack@, needle@, earlier)
            },
            None => !contains_subsequence(haystack@, needle@),
        },
{
    if haystack.len() < needle.len() {
        return None;
    }
    let total: usize = haystack.len();
    let last: usize = total - needle.len();
    let mut at: usize = 0;
    while at <= last
        invariant
            0 < needle@.len() <= haystack@.len(),
            total == haystack@.len(),
            last == haystack@.len() - needle@.len(),
            at <= last + 1,
            forall|earlier: int| 0 <= earlier < at ==> !occurs_at(haystack@, needle@, earlier),
        decreases last + 1 - at,
    {
        if matches_at(haystack, needle, at) {
            return Some(at);
        }
        at += 1;
    }
    None
}

/// Whether the bytes received so far hold the terminator anywhere.
pub fn is_request_ready(src: &[u8]) -> (ready: bool)
    ensures
        ready == contains_subsequence(src@, terminator()),
{
    let needle: [u8; 4] = [10u8, 10u8, 10u8, 10u8];
    assert(needle@ =~= terminator());
    find_subsequence(src, needle.as_slice()).is_some()
}

} // verus!
