//! Matching one pattern against one path.

use vstd::prelude::*;
use crate::params::{Param, ParamMap};
use crate::pattern::{Pattern, Segment, SegmentView, segment_views, well_formed, fault_at};
use crate::text::{join, join_from, segments, split_path, texts};

verus! {

/// Whether the pattern segment `segment`, standing at position `i`, takes what
/// the path has there: a literal takes the segment equal to its text, a
/// dynamic segment any non-empty one, a wildcard whatever is left.
pub open spec fn takes(segment: SegmentView, path: Seq<Seq<char>>, i: int) -> bool {
    match segment {
        SegmentView::Literal(text) => i < path.len() && path[i] == text,
        SegmentView::Dynamic(_) => i < path.len() && path[i].len() > 0,
        SegmentView::Wildcard(_) => true,
    }
}

/// Whether `p` ends in a wildcard.
pub open spec fn ends_in_wildcard(p: Seq<SegmentView>) -> bool {
    p.len() > 0 && p.last() is Wildcard
}

/// Whether the pattern `p` accepts a path with the segments `path`: every
/// pattern segment takes the path segment at its position, and the path has
/// as many segments as the pattern, or at least as many as stand before the
/// wildcard where the pattern ends in one.
pub open spec fn accepts(p: Seq<SegmentView>, path: Seq<Seq<char>>) -> bool {
    &&& if ends_in_wildcard(p) {
        path.len() >= p.len() - 1
    } else {
        path.len() == p.len()
    }
    &&& forall|i: int| 0 <= i < p.len() ==> takes(#[trigger] p[i], path, i)
}

/// What segment `i` of `p` captures from `path`: a wildcard the segments from
/// its position on, joined by separators; any other segment the one at its
/// position.
pub open spec fn capture_at(p: Seq<SegmentView>, path: Seq<Seq<char>>, i: int) -> Seq<char> {
    if p[i] is Wildcard {
        join(path.skip(i))
    } else {
        path[i]
    }
}

/// The bindings made by the first `n` segments of `p`, in order.
pub open spec fn captures_upto(p: Seq<SegmentView>, path: Seq<Seq<char>>, n: int) -> Seq<
    (Seq<char>, Seq<char>),
>
    decreases n,
{
    if n <= 0 {
        Seq::empty()
    } else {
        let before = captures_upto(p, path, n - 1);
        match p[n - 1].name() {
            None => before,
            Some(name) => before.push((name, capture_at(p, path, n - 1))),
        }
    }
}

/// The bindings that `p` makes on `path`: one for each dynamic or wildcard
/// segment, in the order of the segments.
pub open spec fn captures(p: Seq<SegmentView>, path: Seq<Seq<char>>) -> Seq<
    (Seq<char>, Seq<char>),
> {
    captures_upto(p, path, p.len() as int)
}

/// The outcome of matching the pattern `p` against the path text `path`: the
/// bindings if the pattern accepts the path's segments, nothing otherwise.
pub open spec fn match_spec(p: Seq<SegmentView>, path: Seq<char>) -> Option<
    Seq<(Seq<char>, Seq<char>)>,
> {
    if accepts(p, segments(path)) {
        Some(captures(p, segments(path)))
    } else {
        None
    }
}

/// The value of an optional map of bindings.
pub open spec fn bindings_of(outcome: Option<ParamMap>) -> Option<Seq<(Seq<char>, Seq<char>)>> {
    match outcome {
        Some(params) => Some(params@),
        None => None,
    }
}

/// Matches `pattern` against a path given by its segments.
pub fn match_segments(pattern: &Pattern, path: &Vec<String>) -> (out: Option<ParamMap>)
    ensures
        bindings_of(out) == if accepts(pattern@, texts(path@)) {
            Some(captures(pattern@, texts(path@)))
        } else {
            None
        },
{
    let parts = pattern.segments();
    let ghost p = pattern@;
    let ghost s = texts(path@);
    let mut bound: Vec<Param> = Vec::new();
    let mut i: usize = 0;
    while i < parts.len()
        invariant
            i <= parts.len(),
            p == segment_views(parts@),
            p == pattern@,
            well_formed(p),
            s == texts(path@),
            forall|j: int| 0 <= j < i ==> takes(#[trigger] p[j], s, j),
            forall|j: int| 0 <= j < i ==> !((#[trigger] p[j]) is Wildcard),
            bound@.map_values(|b: Param| b@) =~= captures_upto(p, s, i as int),
        decreases parts.len() - i,
    {
        match &parts[i] {
            Segment::Literal(text) => {
                if i >= path.len() || path[i] != *text {
                    return None;
                }
            },
            Segment::Dynamic(name) => {
                if i >= path.len() || path[i].as_str().is_empty() {
                    return None;
                }
                bound.push(Param { name: name.clone(), value: path[i].clone() });
            },
            Segment::Wildcard(name) => {
                assert(fault_at(p, i as int) is None);
                let rest = join_from(path, i);
                bound.push(Param { name: name.clone(), value: rest });
                return Some(ParamMap::of(bound));
            },
        }
        i = i + 1;
    }
    if path.len() != parts.len() {
        return None;
    }
    Some(ParamMap::of(bound))
}

/// Matches `pattern` against `path`. The path is cut into segments at every
/// `/`, where one leading and one trailing `/` make no segment. On a match the
/// result holds one binding for each dynamic or wildcard segment of the
/// pattern; a dynamic segment does not take an empty path segment.
pub fn match_pattern(pattern: &Pattern, path: &str) -> (out: Option<ParamMap>)
    ensures
        bindings_of(out) == match_spec(pattern@, path@),
{
    let parts = split_path(path);
    match_segments(pattern, &parts)
}

} // verus!
