//! Theorems about matching and recognition, stated over the same spec
//! functions as the contracts of the executable functions.

use vstd::prelude::*;
use crate::matcher::{accepts, capture_at, captures, captures_upto, match_spec};
use crate::params::{lookup, names};
use crate::pattern::{SegmentView, compile, fault_at, first_fault, well_formed,
    lemma_first_fault_none_iff_well_formed};
use crate::table::{RouteTableView, compiled, strip_base};
use crate::text::{SEPARATOR, join, pieces, segments, lemma_pieces_hold_no_separator};

verus! {

/// Every segment of `p` is literal.
pub open spec fn all_literal(p: Seq<SegmentView>) -> bool {
    forall|i: int| 0 <= i < p.len() ==> (#[trigger] p[i]) is Literal
}

/// The texts of the segments of an all-literal pattern.
pub open spec fn literal_texts(p: Seq<SegmentView>) -> Seq<Seq<char>> {
    p.map_values(
        |s: SegmentView|
            match s {
                SegmentView::Literal(text) => text,
                _ => Seq::<char>::empty(),
            },
    )
}

/// The first `n` segments of a pattern without named segments bind nothing.
proof fn lemma_literals_bind_nothing(p: Seq<SegmentView>, path: Seq<Seq<char>>, n: int)
    requires
        all_literal(p),
        0 <= n <= p.len(),
    ensures
        captures_upto(p, path, n) == Seq::<(Seq<char>, Seq<char>)>::empty(),
    decreases n,
{
    if n > 0 {
        lemma_literals_bind_nothing(p, path, n - 1);
    }
}

/// A pattern of literal segments accepts exactly the path whose segments are
/// the pattern's texts, and binds nothing.
pub proof fn lemma_literal_pattern_accepts_its_own_segments(
    p: Seq<SegmentView>,
    path: Seq<Seq<char>>,
)
    requires
        all_literal(p),
    ensures
        accepts(p, path) <==> path == literal_texts(p),
        captures(p, path) == Seq::<(Seq<char>, Seq<char>)>::empty(),
{
    lemma_literals_bind_nothing(p, path, p.len() as int);
    if accepts(p, path) {
        assert(path =~= literal_texts(p));
    }
}

/// A pattern text without dynamic or wildcard segments matches a path exactly
/// when the path has the segments of the text, and the match binds nothing.
/// The segments leave out one leading and one trailing separator, so the path
/// is the pattern's own text up to these.
pub proof fn lemma_literal_text_matches_its_own_path(text: Seq<char>, path: Seq<char>)
    requires
        all_literal(compile(text)),
    ensures
        match_spec(compile(text), path) is Some <==> segments(path) == segments(text),
        match_spec(compile(text), path) is Some ==> match_spec(compile(text), path) == Some(
            Seq::<(Seq<char>, Seq<char>)>::empty(),
        ),
{
    let p = compile(text);
    lemma_literal_pattern_accepts_its_own_segments(p, segments(path));
    assert(literal_texts(p) =~= segments(text));
}

/// One separator at the end of a path makes no difference to its segments,
/// and so none to any match.
pub proof fn lemma_trailing_separator_is_ignored(path: Seq<char>)
    requires
        path.len() == 0 || path.last() != SEPARATOR,
    ensures
        segments(path.push(SEPARATOR)) == segments(path),
        forall|p: Seq<SegmentView>|
            #[trigger] match_spec(p, path.push(SEPARATOR)) == match_spec(p, path),
{
    assert(path.push(SEPARATOR).drop_last() =~= path);
}

/// A separator in front of a text adds one empty piece in front of the
/// text's pieces.
proof fn lemma_pieces_behind_separator(s: Seq<char>)
    ensures
        pieces(seq![SEPARATOR] + s) == seq![Seq::<char>::empty()] + pieces(s),
    decreases s.len(),
{
    let slashed = seq![SEPARATOR] + s;
    if s.len() == 0 {
        assert(pieces(slashed.drop_last()) =~= seq![Seq::<char>::empty()]);
    } else {
        lemma_pieces_behind_separator(s.drop_last());
        assert(slashed.drop_last() =~= seq![SEPARATOR] + s.drop_last());
    }
}

/// The first piece of a text that does not start with a separator starts
/// with the text's first character.
proof fn lemma_first_piece_starts_the_text(s: Seq<char>)
    requires
        s.len() > 0,
        s.first() != SEPARATOR,
    ensures
        pieces(s).len() > 0,
        pieces(s).first().len() > 0,
    decreases s.len(),
{
    let front = s.drop_last();
    lemma_pieces_hold_no_separator(front);
    if front.len() > 0 {
        lemma_first_piece_starts_the_text(front);
    }
}

/// One separator in front of a path makes no difference to its segments,
/// and so none to any match.
pub proof fn lemma_leading_separator_is_ignored(path: Seq<char>)
    requires
        path.len() == 0 || path.first() != SEPARATOR,
    ensures
        segments(seq![SEPARATOR] + path) == segments(path),
        forall|p: Seq<SegmentView>|
            #[trigger] match_spec(p, seq![SEPARATOR] + path) == match_spec(p, path),
{
    lemma_pieces_behind_separator(path);
    if path.len() > 0 {
        lemma_first_piece_starts_the_text(path);
    }
    assert(segments(seq![SEPARATOR] + path) =~= segments(path));
}

/// Cutting a text into pieces and joining the pieces gives the text back.
pub proof fn lemma_join_restores_pieces(s: Seq<char>)
    ensures
        join(pieces(s)) == s,
    decreases s.len(),
{
    if s.len() > 0 {
        let front = s.drop_last();
        lemma_join_restores_pieces(front);
        let before = pieces(front);
        if s.last() == SEPARATOR {
            assert(before.push(Seq::<char>::empty()).drop_last() =~= before);
        } else {
            let grown = before.last().push(s.last());
            assert(before.drop_last().push(grown).drop_last() =~= before.drop_last());
            if before.len() > 1 {
                let head = join(before.drop_last()).push(SEPARATOR);
                assert(head + grown =~= (head + before.last()).push(s.last()));
            }
        }
    }
}

/// A sequence of segments with two wildcards is no pattern: compiling it
/// reports a defect.
pub proof fn lemma_two_wildcards_are_rejected(p: Seq<SegmentView>, i: int, j: int)
    requires
        0 <= i < j < p.len(),
        p[i] is Wildcard,
        p[j] is Wildcard,
    ensures
        !well_formed(p),
        first_fault(p) is Some,
{
    assert(fault_at(p, i) is Some);
    lemma_first_fault_none_iff_well_formed(p);
}

/// Recognition is a function of the table and the path: two outcomes that
/// both are what recognising `path` gives are the same outcome.
pub proof fn lemma_recognition_is_deterministic<R>(
    table: RouteTableView<R>,
    path: Seq<char>,
    first: Option<(R, Seq<(Seq<char>, Seq<char>)>)>,
    second: Option<(R, Seq<(Seq<char>, Seq<char>)>)>,
)
    requires
        table.recognizes(path, first),
        table.recognizes(path, second),
    ensures
        first == second,
{
    let rest = strip_base(table.base, path);
    if rest is Some && first is Some && second is Some {
        let s = segments(rest->0);
        let a = first->0;
        let b = second->0;
        let i = choose|i: int|
            {
                &&& #[trigger] table.first_accepting(s, i)
                &&& a.0 == table.entries[i].1
                &&& a.1 == captures(table.entries[i].0, s)
            };
        let k = choose|k: int|
            {
                &&& #[trigger] table.first_accepting(s, k)
                &&& b.0 == table.entries[k].1
                &&& b.1 == captures(table.entries[k].0, s)
            };
        assert(i == k);
    }
}

/// A path that carries the table's base prefix, if one is set, is recognised
/// with one separator at its end as it is without.
pub proof fn lemma_recognition_ignores_trailing_separator<R>(
    table: RouteTableView<R>,
    path: Seq<char>,
    outcome: Option<(R, Seq<(Seq<char>, Seq<char>)>)>,
)
    requires
        strip_base(table.base, path) is Some,
        path.len() == 0 || path.last() != SEPARATOR,
    ensures
        table.recognizes(path.push(SEPARATOR), outcome) <==> table.recognizes(path, outcome),
{
    let rest = strip_base(table.base, path)->0;
    if let Some(prefix) = table.base {
        assert(path.push(SEPARATOR).subrange(0, prefix.len() as int) =~= path.subrange(
            0,
            prefix.len() as int,
        ));
        assert(path.push(SEPARATOR).skip(prefix.len() as int) =~= rest.push(SEPARATOR));
    }
    assert(strip_base(table.base, path.push(SEPARATOR)) == Some(rest.push(SEPARATOR)));
    lemma_trailing_separator_is_ignored(rest);
}

/// Resolution is a function of the table and the path.
pub proof fn lemma_resolution_is_deterministic<R>(
    table: RouteTableView<R>,
    path: Seq<char>,
    first: Option<(R, Seq<(Seq<char>, Seq<char>)>)>,
    second: Option<(R, Seq<(Seq<char>, Seq<char>)>)>,
)
    requires
        table.resolves(path, first),
        table.resolves(path, second),
    ensures
        first == second,
{
    if !table.recognizes(path, None) {
        lemma_recognition_is_deterministic(table, path, first, second);
    }
}

/// The path under which the table answers for the text `text`: the text
/// behind the base prefix, where one is set.
pub open spec fn behind_base(base: Option<Seq<char>>, text: Seq<char>) -> Seq<char> {
    match base {
        Some(prefix) => prefix + text,
        None => text,
    }
}

/// A declared pattern text without dynamic or wildcard segments, taken as a
/// path behind the table's base prefix, is recognised as its own route
/// without bindings, provided no pattern declared before it accepts that
/// text.
pub proof fn lemma_literal_route_round_trip<R>(
    table: RouteTableView<R>,
    routes: Seq<(Seq<char>, R)>,
    i: int,
)
    requires
        table.entries == compiled(routes),
        0 <= i < routes.len(),
        all_literal(compile(routes[i].0)),
        forall|j: int|
            0 <= j < i ==> !accepts(compile((#[trigger] routes[j]).0), segments(routes[i].0)),
    ensures
        table.recognizes(
            behind_base(table.base, routes[i].0),
            Some((routes[i].1, Seq::<(Seq<char>, Seq<char>)>::empty())),
        ),
{
    let text = routes[i].0;
    if let Some(prefix) = table.base {
        assert((prefix + text).skip(prefix.len() as int) =~= text);
    }
    lemma_literal_text_matches_its_own_path(text, text);
    assert(table.first_accepting(segments(text), i));
}

/// Appending a binding leaves every earlier binding in place and adds the
/// new one for a name that was not bound.
proof fn lemma_lookup_after_push(
    bindings: Seq<(Seq<char>, Seq<char>)>,
    added: (Seq<char>, Seq<char>),
    name: Seq<char>,
)
    ensures
        lookup(bindings.push(added), name) == if lookup(bindings, name) is Some {
            lookup(bindings, name)
        } else if added.0 == name {
            Some(added.1)
        } else {
            None
        },
    decreases bindings.len(),
{
    let longer = bindings.push(added);
    if bindings.len() == 0 {
        assert(longer.drop_first() =~= bindings);
    } else {
        assert(longer.drop_first() =~= bindings.drop_first().push(added));
        if bindings[0].0 != name {
            lemma_lookup_after_push(bindings.drop_first(), added, name);
        }
    }
}

/// The first `n` segments of a pattern bind the name of segment `i` exactly
/// when `i` is among them, and then to what segment `i` captures.
proof fn lemma_lookup_in_prefix(p: Seq<SegmentView>, path: Seq<Seq<char>>, i: int, n: int)
    requires
        well_formed(p),
        0 <= i < p.len(),
        0 <= n <= p.len(),
        p[i].name() is Some,
    ensures
        lookup(captures_upto(p, path, n), p[i].name()->0) == if i < n {
            Some(capture_at(p, path, i))
        } else {
            None
        },
    decreases n,
{
    if n > 0 {
        lemma_lookup_in_prefix(p, path, i, n - 1);
        let before = captures_upto(p, path, n - 1);
        let name = p[i].name()->0;
        match p[n - 1].name() {
            None => {},
            Some(other) => {
                lemma_lookup_after_push(before, (other, capture_at(p, path, n - 1)), name);
                assert(fault_at(p, i) is None);
                assert(fault_at(p, n - 1) is None);
            },
        }
    }
}

/// What a dynamic or wildcard segment of a pattern captures is found in the
/// bindings under the segment's name.
pub proof fn lemma_capture_is_bound_to_its_name(
    p: Seq<SegmentView>,
    path: Seq<Seq<char>>,
    i: int,
)
    requires
        well_formed(p),
        0 <= i < p.len(),
        p[i].name() is Some,
    ensures
        lookup(captures(p, path), p[i].name()->0) == Some(capture_at(p, path, i)),
{
    lemma_lookup_in_prefix(p, path, i, p.len() as int);
}

/// Every name bound by the first `n` segments is the name of one of them, and
/// no name is bound twice.
proof fn lemma_prefix_names_are_distinct(p: Seq<SegmentView>, path: Seq<Seq<char>>, n: int)
    requires
        well_formed(p),
        0 <= n <= p.len(),
    ensures
        names(captures_upto(p, path, n)).no_duplicates(),
        forall|k: int|
            0 <= k < captures_upto(p, path, n).len() ==> exists|j: int|
                0 <= j < n && (#[trigger] p[j]).name() == Some(
                    (#[trigger] captures_upto(p, path, n)[k]).0,
                ),
    decreases n,
{
    if n > 0 {
        lemma_prefix_names_are_distinct(p, path, n - 1);
        let before = captures_upto(p, path, n - 1);
        let now = captures_upto(p, path, n);
        match p[n - 1].name() {
            None => {},
            Some(name) => {
                assert(fault_at(p, n - 1) is None);
                assert forall|a: int, b: int|
                    0 <= a < now.len() && 0 <= b < now.len() && a != b implies names(now)[a]
                    != names(now)[b] by {
                    if a < before.len() && b < before.len() {
                        assert(names(before)[a] != names(before)[b]);
                    } else {
                        let k = if a < before.len() {
                            a
                        } else {
                            b
                        };
                        let j = choose|j: int|
                            0 <= j < n - 1 && (#[trigger] p[j]).name() == Some(before[k].0);
                    }
                }
            },
        }
    }
}

/// The bindings of a pattern bind each name once.
pub proof fn lemma_captured_names_are_distinct(p: Seq<SegmentView>, path: Seq<Seq<char>>)
    requires
        well_formed(p),
    ensures
        names(captures(p, path)).no_duplicates(),
{
    lemma_prefix_names_are_distinct(p, path, p.len() as int);
}

} // verus!
