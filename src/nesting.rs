//! The slash-separated nesting path, such as `rss/item`.
use vstd::prelude::*;

use crate::error::SplitError;

verus! {

/// Index of the first `/` at or after `k`, or the length of `s` when there is none.
pub open spec fn next_slash(s: Seq<char>, k: int) -> int
    decreases s.len() - k,
{
    if k < 0 || k >= s.len() {
        s.len() as int
    } else if s[k] == '/' {
        k
    } else {
        next_slash(s, k + 1)
    }
}

/// End of `s[..k]` once the `/` characters at its end are dropped.
pub open spec fn trim_slashes_end(s: Seq<char>, k: int) -> int
    decreases k,
{
    if k <= 0 || k > s.len() {
        0
    } else if s[k - 1] == '/' {
        trim_slashes_end(s, k - 1)
    } else {
        k
    }
}

/// Start of the segment that ends at `k`: just after the nearest `/` before `k`.
pub open spec fn segment_start(s: Seq<char>, k: int) -> int
    decreases k,
{
    if k <= 0 || k > s.len() {
        0
    } else if s[k - 1] == '/' {
        k
    } else {
        segment_start(s, k - 1)
    }
}

/// Whether the path has at least two segments.
pub open spec fn has_two_segments(s: Seq<char>) -> bool {
    next_slash(s, 0) < s.len()
}

/// Where the first segment starts: after one leading `/`, if there is one.
pub open spec fn first_segment_start(s: Seq<char>) -> int {
    if s.len() > 0 && s[0] == '/' {
        1
    } else {
        0
    }
}

/// The root tag: the first segment of a path of at least two segments,
/// one leading `/` skipped (`rss` in both `rss/item` and `/rss/item`).
pub open spec fn root_of(s: Seq<char>) -> Option<Seq<char>> {
    if has_two_segments(s) {
        let b = first_segment_start(s);
        Some(s.subrange(b, next_slash(s, b)))
    } else {
        None
    }
}

/// The last non-empty segment of a path of at least two segments.
pub open spec fn item_tag_of(s: Seq<char>) -> Option<Seq<char>> {
    let e = trim_slashes_end(s, s.len() as int);
    if has_two_segments(s) && e > 0 {
        Some(s.subrange(segment_start(s, e), e))
    } else {
        None
    }
}

proof fn lemma_next_slash_bounds(s: Seq<char>, k: int)
    requires
        0 <= k <= s.len(),
    ensures
        k <= next_slash(s, k) <= s.len(),
    decreases s.len() - k,
{
    if k < s.len() && s[k] != '/' {
        lemma_next_slash_bounds(s, k + 1);
    }
}

proof fn lemma_backward_bounds(s: Seq<char>, k: int)
    requires
        0 <= k <= s.len(),
    ensures
        0 <= trim_slashes_end(s, k) <= k,
        0 <= segment_start(s, k) <= k,
    decreases k,
{
    if k > 0 {
        lemma_backward_bounds(s, k - 1);
    }
}

fn find_slash(s: &str, from: usize) -> (r: usize)
    requires
        from <= s@.len(),
    ensures
        r as int == next_slash(s@, from as int),
{
    let len = s.unicode_len();
    let mut i: usize = from;
    while i < len
        invariant
            from <= i <= len,
            len == s@.len(),
            next_slash(s@, i as int) == next_slash(s@, from as int),
        decreases len - i,
    {
        if s.get_char(i) == '/' {
            return i;
        }
        i += 1;
    }
    i
}

fn skip_trailing_slashes(s: &str, end: usize) -> (r: usize)
    requires
        end <= s@.len(),
    ensures
        r as int == trim_slashes_end(s@, end as int),
{
    let mut k: usize = end;
    while k > 0
        invariant
            k <= end <= s@.len(),
            trim_slashes_end(s@, k as int) == trim_slashes_end(s@, end as int),
        decreases k,
    {
        if s.get_char(k - 1) != '/' {
            return k;
        }
        k -= 1;
    }
    k
}

fn find_segment_start(s: &str, end: usize) -> (r: usize)
    requires
        end <= s@.len(),
    ensures
        r as int == segment_start(s@, end as int),
{
    let mut k: usize = end;
    while k > 0
        invariant
            k <= end <= s@.len(),
            segment_start(s@, k as int) == segment_start(s@, end as int),
        decreases k,
    {
        if s.get_char(k - 1) == '/' {
            return k;
        }
        k -= 1;
    }
    k
}

/// The root tag: the first segment of the nesting path, one leading `/`
/// skipped; `None` when the path has no `/`.
pub fn root_from_nesting(nesting: &String) -> (r: Option<String>)
    ensures
        r matches Some(t) ==> root_of(nesting@) == Some(t@),
        r is None <==> root_of(nesting@) is None,
{
    let s = nesting.as_str();
    let len = s.unicode_len();
    if find_slash(s, 0) == len {
        return None;
    }
    let b: usize = if s.get_char(0) == '/' {
        1
    } else {
        0
    };
    proof {
        lemma_next_slash_bounds(s@, 0);
        lemma_next_slash_bounds(s@, b as int);
    }
    let e = find_slash(s, b);
    Some(s.substring_char(b, e).to_owned())
}

/// The item tag: the last non-empty segment of the nesting path, or `None`
/// when the path has fewer than two segments or only empty ones.
pub fn parent_from_nesting(nesting: &String) -> (r: Option<String>)
    ensures
        r matches Some(t) ==> item_tag_of(nesting@) == Some(t@),
        r is None <==> item_tag_of(nesting@) is None,
{
    let s = nesting.as_str();
    let len = s.unicode_len();
    if find_slash(s, 0) == len {
        return None;
    }
    let e = skip_trailing_slashes(s, len);
    if e == 0 {
        return None;
    }
    proof {
        lemma_next_slash_bounds(s@, 0);
        lemma_backward_bounds(s@, len as int);
        lemma_backward_bounds(s@, e as int);
    }
    let b = find_segment_start(s, e);
    Some(s.substring_char(b, e).to_owned())
}

/// A parsed nesting path: the tag of the repeated item element.
pub struct NestingSpec {
    pub item_tag: String,
}

impl NestingSpec {
    /// Parses a nesting path; fails when no item tag can be derived from it.
    pub fn parse(nesting: &String) -> (r: Result<NestingSpec, SplitError>)
        ensures
            r matches Ok(spec) ==> item_tag_of(nesting@) == Some(spec.item_tag@),
            r matches Err(e) ==> e == SplitError::InvalidNestingSpec,
            r is Err <==> item_tag_of(nesting@) is None,
    {
        match parent_from_nesting(nesting) {
            Some(item_tag) => Ok(NestingSpec { item_tag }),
            None => Err(SplitError::InvalidNestingSpec),
        }
    }
}

} // verus!
