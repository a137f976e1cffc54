//! Delimiter search over byte buffers.
//!
//! `scan_from` is the mathematical account of a left-to-right search for the
//! first occurrence of a delimiter; `find_bytes` and `find_bytes_from` are the
//! executable searches proved against it. The search is resumable: a caller
//! that has already ruled out every position below some window start may begin
//! there without missing a match.

use vstd::prelude::*;

verus! {

/// The delimiter `d` occurs in `hay` starting at position `i`.
pub open spec fn match_at(hay: Seq<u8>, d: Seq<u8>, i: int) -> bool {
    0 <= i && i + d.len() <= hay.len() && hay.subrange(i, i + d.len() as int) == d
}

/// Position of the first occurrence of `d` in `hay` at or after `i`;
/// `hay.len()` when there is none (for a non-empty `d`, no occurrence can
/// start at `hay.len()`, so the two cases never collide).
pub open spec fn scan_from(hay: Seq<u8>, d: Seq<u8>, i: nat) -> nat
    decreases hay.len() + 1 - i,
{
    if i + d.len() > hay.len() {
        hay.len()
    } else if hay.subrange(i as int, (i + d.len()) as int) == d {
        i
    } else {
        scan_from(hay, d, i + 1)
    }
}

/// Position of the first occurrence of `d` in `hay`, or `hay.len()` if none.
pub open spec fn first_match(hay: Seq<u8>, d: Seq<u8>) -> nat {
    scan_from(hay, d, 0)
}

/// What `scan_from` returns is the leftmost match position in its window.
pub proof fn lemma_scan_from_properties(hay: Seq<u8>, d: Seq<u8>, i: nat)
    requires
        d.len() >= 1,
        i <= hay.len(),
    ensures
        i <= scan_from(hay, d, i) <= hay.len(),
        scan_from(hay, d, i) < hay.len() ==> match_at(hay, d, scan_from(hay, d, i) as int),
        scan_from(hay, d, i) == hay.len() ==> forall|j: int| i <= j ==> !match_at(hay, d, j),
        forall|j: int| i <= j < scan_from(hay, d, i) ==> !match_at(hay, d, j),
    decreases hay.len() - i,
{
    if i + d.len() > hay.len() {
        assert(forall|j: int| i <= j ==> !match_at(hay, d, j));
    } else if hay.subrange(i as int, (i + d.len()) as int) == d {
    } else {
        lemma_scan_from_properties(hay, d, i + 1);
        assert(!match_at(hay, d, i as int));
        if scan_from(hay, d, i) == hay.len() {
            assert(forall|j: int| i <= j && !(i + 1 <= j) ==> !match_at(hay, d, j));
        }
    }
}

/// Skipping over positions known to hold no match does not change the result.
pub proof fn lemma_scan_from_skip(hay: Seq<u8>, d: Seq<u8>, i: nat, w: nat)
    requires
        i <= w <= hay.len(),
        forall|j: int| i <= j < w ==> !match_at(hay, d, j),
    ensures
        scan_from(hay, d, i) == scan_from(hay, d, w),
    decreases w - i,
{
    if i < w {
        assert(!match_at(hay, d, i as int));
        if i + d.len() > hay.len() {
            assert(w + d.len() > hay.len());
            assert(scan_from(hay, d, w) == hay.len());
        } else {
            assert(hay.subrange(i as int, (i + d.len()) as int) != d);
            lemma_scan_from_skip(hay, d, i + 1, w);
        }
    }
}

/// A match that lies wholly inside the prefix `a` of `a + b` is a match in `a`,
/// and conversely.
pub proof fn lemma_match_in_prefix(a: Seq<u8>, b: Seq<u8>, d: Seq<u8>, j: int)
    requires
        0 <= j,
        j + d.len() <= a.len(),
    ensures
        match_at(a + b, d, j) <==> match_at(a, d, j),
{
    assert((a + b).subrange(j, j + d.len() as int) =~= a.subrange(j, j + d.len() as int));
}

/// The bytes `hay[i .. i + needle.len()]` equal `needle`.
fn eq_at(haystack: &[u8], needle: &[u8], i: usize) -> (r: bool)
    requires
        i + needle@.len() <= haystack@.len(),
    ensures
        r == match_at(haystack@, needle@, i as int),
{
    let n = needle.len();
    let h = haystack.len();
    let mut j: usize = 0;
    while j < n
        invariant
            j <= n,
            n == needle@.len(),
            h == haystack@.len(),
            i + n <= h,
            forall|k: int| 0 <= k < j ==> haystack@[i + k] == needle@[k],
        decreases n - j,
    {
        if haystack[i + j] != needle[j] {
            assert(!match_at(haystack@, needle@, i as int)) by {
                if match_at(haystack@, needle@, i as int) {
                    assert(haystack@.subrange(i as int, i + n as int)[j as int]
                        == haystack@[i + j]);
                }
            }
            return false;
        }
        j += 1;
    }
    assert(haystack@.subrange(i as int, i + n as int) =~= needle@);
    true
}

/// Find the first occurrence of `needle` in `haystack` at or after `start`.
/// Returns the offset of the first byte of the match, or `None` when no
/// occurrence starts at or after `start` (in particular whenever the needle is
/// longer than the haystack).
pub fn find_bytes_from(haystack: &[u8], needle: &[u8], start: usize) -> (r: Option<usize>)
    requires
        start <= haystack@.len(),
    ensures
        match r {
            Some(i) => {
                &&& start <= i
                &&& i == scan_from(haystack@, needle@, start as nat)
                &&& match_at(haystack@, needle@, i as int)
                &&& forall|j: int| start <= j < i ==> !match_at(haystack@, needle@, j)
            },
            None => {
                &&& scan_from(haystack@, needle@, start as nat) == haystack@.len()
                &&& forall|j: int| start <= j ==> !match_at(haystack@, needle@, j)
            },
        },
{
    let n = needle.len();
    let h = haystack.len();
    if n > h {
        assert(forall|j: int| start <= j ==> !match_at(haystack@, needle@, j));
        return None;
    }
    if n == 0 {
        assert(haystack@.subrange(start as int, start as int) =~= needle@);
        assert(scan_from(haystack@, needle@, start as nat) == start as nat);
        return Some(start);
    }
    let mut i: usize = start;
    while i <= h - n
        invariant
            h == haystack@.len(),
            n == needle@.len(),
            1 <= n <= h,
            start <= i,
            i <= h + 1,
            scan_from(haystack@, needle@, start as nat) == scan_from(haystack@, needle@, i as nat),
            forall|j: int| start <= j < i ==> !match_at(haystack@, needle@, j),
        decreases h - i,
    {
        if eq_at(haystack, needle, i) {
            assert(scan_from(haystack@, needle@, i as nat) == i as nat);
            return Some(i);
        }
        assert(scan_from(haystack@, needle@, i as nat)
            == scan_from(haystack@, needle@, (i + 1) as nat)) by {
            assert(haystack@.subrange(i as int, i + n as int) != needle@);
        }
        i += 1;
    }
    assert(i + n > h);
    assert(scan_from(haystack@, needle@, i as nat) == haystack@.len());
    assert(forall|j: int| i <= j ==> !match_at(haystack@, needle@, j));
    None
}

/// Find the first occurrence of `needle` anywhere in `haystack`.
pub fn find_bytes(haystack: &[u8], needle: &[u8]) -> (r: Option<usize>)
    ensures
        match r {
            Some(i) => {
                &&& i == first_match(haystack@, needle@)
                &&& match_at(haystack@, needle@, i as int)
                &&& forall|j: int| 0 <= j < i ==> !match_at(haystack@, needle@, j)
            },
            None => {
                &&& first_match(haystack@, needle@) == haystack@.len()
                &&& forall|j: int| !match_at(haystack@, needle@, j)
            },
        },
{
    let r = find_bytes_from(haystack, needle, 0);
    proof {
        if r is None {
            assert(forall|j: int| !match_at(haystack@, needle@, j)) by {
                assert(forall|j: int| j < 0 ==> !match_at(haystack@, needle@, j));
                assert(forall|j: int| 0 <= j ==> !match_at(haystack@, needle@, j));
            }
        }
    }
    r
}

} // verus!
