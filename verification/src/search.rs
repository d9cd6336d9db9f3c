//! Byte search, delegated to `memchr`.

use vstd::prelude::*;

verus! {

/// `r` is the least index of `haystack` at which `wanted` holds, or `None`
/// when it holds nowhere.
pub open spec fn first_match(
    haystack: Seq<u8>,
    wanted: spec_fn(u8) -> bool,
    r: Option<usize>,
) -> bool {
    match r {
        Some(at) => at < haystack.len() && wanted(haystack[at as int]) && forall|j: int|
            0 <= j < at ==> !wanted(#[trigger] haystack[j]),
        None => forall|j: int| 0 <= j < haystack.len() ==> !wanted(#[trigger] haystack[j]),
    }
}

/// `memchr::memchr`: the index of the first byte equal to `needle`, as the
/// crate documents it.
pub assume_specification[ memchr::memchr ](needle: u8, haystack: &[u8]) -> (r: Option<usize>)
    ensures
        first_match(haystack@, |b: u8| b == needle, r),
;

/// `memchr::memchr2`: the index of the first byte equal to one of the two
/// needles, as the crate documents it.
pub assume_specification[ memchr::memchr2 ](needle1: u8, needle2: u8, haystack: &[u8]) -> (r:
    Option<usize>)
    ensures
        first_match(haystack@, |b: u8| b == needle1 || b == needle2, r),
;

/// `memchr::memchr3`: the index of the first byte equal to one of the three
/// needles, as the crate documents it.
pub assume_specification[ memchr::memchr3 ](
    needle1: u8,
    needle2: u8,
    needle3: u8,
    haystack: &[u8],
) -> (r: Option<usize>)
    ensures
        first_match(haystack@, |b: u8| b == needle1 || b == needle2 || b == needle3, r),
;

} // verus!
