//! Route patterns: the text `/literal/:dynamic/*wildcard` compiled into a
//! sequence of segments, and the rules that make such a sequence a pattern.

use vstd::prelude::*;
use crate::text::{segments, split_path, texts};

verus! {

/// A segment that starts with this character is dynamic; the rest is its name.
pub const DYNAMIC_MARK: char = ':';

/// A segment that starts with this character is a wildcard; the rest is its name.
pub const WILDCARD_MARK: char = '*';

/// One component of a pattern.
#[derive(Debug, PartialEq, Eq)]
pub enum Segment {
    /// Accepts the path segment that equals this text, character for character.
    Literal(String),
    /// Accepts any one non-empty path segment and binds it to this name.
    Dynamic(String),
    /// Accepts all path segments that are left, none included, and binds them,
    /// joined by separators, to this name.
    Wildcard(String),
}

/// The mathematical value of a [`Segment`].
pub enum SegmentView {
    Literal(Seq<char>),
    Dynamic(Seq<char>),
    Wildcard(Seq<char>),
}

impl SegmentView {
    /// The name that a dynamic or wildcard segment binds; a literal has none.
    pub open spec fn name(self) -> Option<Seq<char>> {
        match self {
            SegmentView::Literal(_) => None,
            SegmentView::Dynamic(name) => Some(name),
            SegmentView::Wildcard(name) => Some(name),
        }
    }
}

impl View for Segment {
    type V = SegmentView;

    open spec fn view(&self) -> SegmentView {
        match self {
            Segment::Literal(text) => SegmentView::Literal(text@),
            Segment::Dynamic(name) => SegmentView::Dynamic(name@),
            Segment::Wildcard(name) => SegmentView::Wildcard(name@),
        }
    }
}

/// Why a sequence of segments is no pattern.
#[derive(Debug, Clone, Copy, PartialEq, Eq)]
pub enum PatternError {
    /// A dynamic or wildcard segment has no name after its mark.
    EmptyName,
    /// A wildcard stands before the last segment.
    MisplacedWildcard,
    /// A name is bound by two segments.
    DuplicateName,
}

/// The values of a sequence of segments.
pub open spec fn segment_views(segments: Seq<Segment>) -> Seq<SegmentView> {
    segments.map_values(|s: Segment| s@)
}

/// The segment that one piece of pattern text declares.
pub open spec fn classify(piece: Seq<char>) -> SegmentView {
    if piece.len() > 0 && piece[0] == DYNAMIC_MARK {
        SegmentView::Dynamic(piece.skip(1))
    } else if piece.len() > 0 && piece[0] == WILDCARD_MARK {
        SegmentView::Wildcard(piece.skip(1))
    } else {
        SegmentView::Literal(piece)
    }
}

/// The segments that a pattern text declares: the text is cut as a path is,
/// and each segment is read by its first character.
pub open spec fn compile(text: Seq<char>) -> Seq<SegmentView> {
    segments(text).map_values(|piece: Seq<char>| classify(piece))
}

/// Segment `i` binds a name that an earlier segment binds already.
pub open spec fn name_taken_before(p: Seq<SegmentView>, i: int) -> bool {
    exists|j: int| 0 <= j < i && p[i].name() is Some && #[trigger] p[j].name() == p[i].name()
}

/// What is wrong with segment `i` of `p`, if anything. Of several defects the
/// one reported is the first of: empty name, misplaced wildcard, duplicate
/// name.
pub open spec fn fault_at(p: Seq<SegmentView>, i: int) -> Option<PatternError> {
    match p[i] {
        SegmentView::Literal(_) => None,
        SegmentView::Dynamic(name) => if name.len() == 0 {
            Some(PatternError::EmptyName)
        } else if name_taken_before(p, i) {
            Some(PatternError::DuplicateName)
        } else {
            None
        },
        SegmentView::Wildcard(name) => if name.len() == 0 {
            Some(PatternError::EmptyName)
        } else if i + 1 != p.len() {
            Some(PatternError::MisplacedWildcard)
        } else if name_taken_before(p, i) {
            Some(PatternError::DuplicateName)
        } else {
            None
        },
    }
}

/// A sequence of segments is a pattern when no segment is at fault: every
/// name is non-empty and bound once, and a wildcard stands only at the end.
pub open spec fn well_formed(p: Seq<SegmentView>) -> bool {
    forall|i: int| 0 <= i < p.len() ==> (#[trigger] fault_at(p, i)) is None
}

/// The defect of the first faulty segment among those from position `k` on.
pub open spec fn fault_from(p: Seq<SegmentView>, k: int) -> Option<PatternError>
    decreases p.len() - k,
{
    if k < 0 || k >= p.len() {
        None
    } else if fault_at(p, k) is Some {
        fault_at(p, k)
    } else {
        fault_from(p, k + 1)
    }
}

/// The defect of the first faulty segment of `p`; `None` when `p` is a pattern.
pub open spec fn first_fault(p: Seq<SegmentView>) -> Option<PatternError> {
    fault_from(p, 0)
}

/// Passing over faultless segments does not change the first fault.
pub proof fn lemma_fault_from_skips_faultless(p: Seq<SegmentView>, k: int, i: int)
    requires
        0 <= k <= i <= p.len(),
        forall|j: int| k <= j < i ==> (#[trigger] fault_at(p, j)) is None,
    ensures
        fault_from(p, k) == fault_from(p, i),
    decreases i - k,
{
    if k < i {
        lemma_fault_from_skips_faultless(p, k + 1, i);
    }
}

/// A sequence of segments has a first fault exactly when it is no pattern.
pub proof fn lemma_first_fault_none_iff_well_formed(p: Seq<SegmentView>)
    ensures
        first_fault(p) is None <==> well_formed(p),
{
    lemma_fault_from_is_first(p, 0);
}

/// `fault_from` reports a fault exactly when some segment from `k` on has one.
pub proof fn lemma_fault_from_is_first(p: Seq<SegmentView>, k: int)
    requires
        0 <= k,
    ensures
        fault_from(p, k) is None <==> (forall|i: int|
            k <= i < p.len() ==> (#[trigger] fault_at(p, i)) is None),
    decreases p.len() - k,
{
    if k < p.len() {
        lemma_fault_from_is_first(p, k + 1);
    }
}

impl Segment {
    /// Reads one piece of pattern text.
    pub fn from_text(piece: &str) -> (out: Segment)
        ensures
            out@ == classify(piece@),
    {
        let n = piece.unicode_len();
        if n == 0 {
            return Segment::Literal(piece.to_owned());
        }
        let first = piece.get_char(0);
        if first == DYNAMIC_MARK {
            Segment::Dynamic(piece.substring_char(1, n).to_owned())
        } else if first == WILDCARD_MARK {
            Segment::Wildcard(piece.substring_char(1, n).to_owned())
        } else {
            Segment::Literal(piece.to_owned())
        }
    }

    /// The name that this segment binds, if it binds one.
    pub fn name(&self) -> (out: Option<&String>)
        ensures
            match out {
                Some(name) => self@.name() == Some(name@),
                None => self@.name() is None,
            },
    {
        match self {
            Segment::Literal(_) => None,
            Segment::Dynamic(name) => Some(name),
            Segment::Wildcard(name) => Some(name),
        }
    }
}

/// A compiled route pattern: a sequence of segments in which every name is
/// non-empty and bound once, and a wildcard stands only at the end.
#[derive(Debug, PartialEq, Eq)]
pub struct Pattern {
    pub(crate) segments: Vec<Segment>,
}

impl View for Pattern {
    type V = Seq<SegmentView>;

    closed spec fn view(&self) -> Seq<SegmentView> {
        segment_views(self.segments@)
    }
}

/// Whether segment `i` of `segments` binds a name that an earlier one binds.
fn binds_taken_name(segments: &Vec<Segment>, i: usize) -> (out: bool)
    requires
        i < segments.len(),
    ensures
        out == name_taken_before(segment_views(segments@), i as int),
{
    let ghost p = segment_views(segments@);
    match segments[i].name() {
        None => false,
        Some(name) => {
            let mut j: usize = 0;
            while j < i
                invariant
                    j <= i < segments.len(),
                    p == segment_views(segments@),
                    p[i as int].name() == Some(name@),
                    forall|k: int| 0 <= k < j ==> (#[trigger] p[k].name()) != p[i as int].name(),
                decreases i - j,
            {
                let taken = match segments[j].name() {
                    None => false,
                    Some(other) => *other == *name,
                };
                if taken {
                    assert(p[j as int].name() == p[i as int].name());
                    return true;
                }
                j = j + 1;
            }
            false
        },
    }
}

/// What is wrong with segment `i` of `segments`, if anything.
fn fault_of(segments: &Vec<Segment>, i: usize) -> (out: Option<PatternError>)
    requires
        i < segments.len(),
    ensures
        out == fault_at(segment_views(segments@), i as int),
{
    match &segments[i] {
        Segment::Literal(_) => None,
        Segment::Dynamic(name) => {
            if name.as_str().is_empty() {
                Some(PatternError::EmptyName)
            } else if binds_taken_name(segments, i) {
                Some(PatternError::DuplicateName)
            } else {
                None
            }
        },
        Segment::Wildcard(name) => {
            if name.as_str().is_empty() {
                Some(PatternError::EmptyName)
            } else if i + 1 != segments.len() {
                Some(PatternError::MisplacedWildcard)
            } else if binds_taken_name(segments, i) {
                Some(PatternError::DuplicateName)
            } else {
                None
            }
        },
    }
}

impl Pattern {
    #[verifier::type_invariant]
    spec fn holds_a_pattern(self) -> bool {
        well_formed(segment_views(self.segments@))
    }

    /// Makes a pattern of `segments`, or reports the defect of the first
    /// segment that has one.
    pub fn from_segments(segments: Vec<Segment>) -> (out: Result<Pattern, PatternError>)
        ensures
            match out {
                Ok(pattern) => first_fault(segment_views(segments@)) is None && pattern@
                    == segment_views(segments@),
                Err(fault) => first_fault(segment_views(segments@)) == Some(fault),
            },
    {
        let ghost p = segment_views(segments@);
        let mut i: usize = 0;
        while i < segments.len()
            invariant
                i <= segments.len(),
                p == segment_views(segments@),
                forall|j: int| 0 <= j < i ==> (#[trigger] fault_at(p, j)) is None,
            decreases segments.len() - i,
        {
            let fault = fault_of(&segments, i);
            if let Some(found) = fault {
                proof {
                    lemma_fault_from_skips_faultless(p, 0, i as int);
                }
                return Err(found);
            }
            i = i + 1;
        }
        proof {
            lemma_fault_from_skips_faultless(p, 0, p.len() as int);
        }
        Ok(Pattern { segments })
    }

    /// Compiles a pattern text. The text is cut into segments as a path is; a
    /// segment that starts with `:` is dynamic, one that starts with `*` is a
    /// wildcard, and any other is literal.
    pub fn parse(text: &str) -> (out: Result<Pattern, PatternError>)
        ensures
            match out {
                Ok(pattern) => first_fault(compile(text@)) is None && pattern@ == compile(text@),
                Err(fault) => first_fault(compile(text@)) == Some(fault),
            },
    {
        let parts = split_path(text);
        let mut segments: Vec<Segment> = Vec::new();
        let mut i: usize = 0;
        while i < parts.len()
            invariant
                i <= parts.len(),
                texts(parts@) == crate::text::segments(text@),
                segment_views(segments@) =~= compile(text@).take(i as int),
            decreases parts.len() - i,
        {
            let ghost before = segment_views(segments@);
            segments.push(Segment::from_text(parts[i].as_str()));
            assert(segment_views(segments@) =~= before.push(compile(text@)[i as int]));
            i = i + 1;
        }
        assert(compile(text@).take(parts.len() as int) =~= compile(text@));
        Pattern::from_segments(segments)
    }

    /// The segments of this pattern, in order.
    pub fn segments(&self) -> (out: &Vec<Segment>)
        ensures
            segment_views(out@) == self@,
            well_formed(self@),
    {
        proof {
            use_type_invariant(self);
        }
        &self.segments
    }
}

} // verus!
