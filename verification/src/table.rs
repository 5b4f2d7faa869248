//! The route table: patterns in declaration order, each with the route it
//! stands for, an optional base prefix and an optional fallback route.

use vstd::prelude::*;
use crate::matcher::{accepts, captures, match_segments};
use crate::params::ParamMap;
use crate::pattern::{Pattern, PatternError, SegmentView, compile, first_fault, well_formed,
    lemma_first_fault_none_iff_well_formed};
use crate::text::{chars_of, has_prefix, segments, segments_from, texts};

verus! {

/// One declared route: a pattern and the route that it stands for.
#[derive(Debug)]
pub struct RouteEntry<R> {
    pub(crate) pattern: Pattern,
    pub(crate) route: R,
}

/// The routes of an application in declaration order. A table is built once
/// and never changed afterwards.
#[derive(Debug)]
pub struct RouteTable<R> {
    pub(crate) entries: Vec<RouteEntry<R>>,
    pub(crate) base: Option<String>,
    pub(crate) fallback: Option<R>,
}

/// The mathematical value of a [`RouteTable`].
pub struct RouteTableView<R> {
    /// The patterns with their routes, first declared first.
    pub entries: Seq<(Seq<SegmentView>, R)>,
    /// The prefix that every recognised path must carry, if one is set.
    pub base: Option<Seq<char>>,
    /// The route for paths that no pattern accepts, if one is set.
    pub fallback: Option<R>,
}

/// Why a table could not be built: the declaration at `index` is the first
/// whose pattern text is malformed, and `reason` is that pattern's first
/// defect.
#[derive(Debug, Clone, Copy, PartialEq, Eq)]
pub struct BuildError {
    pub index: usize,
    pub reason: PatternError,
}

/// A path was not recognised and the table has no fallback route.
#[derive(Debug, Clone, Copy, PartialEq, Eq)]
pub struct MissingFallback;

/// What is left of `path` for matching: the path itself where no base prefix
/// is set, the path behind the prefix where it starts with the one that is
/// set, and nothing where it does not.
pub open spec fn strip_base(base: Option<Seq<char>>, path: Seq<char>) -> Option<Seq<char>> {
    match base {
        None => Some(path),
        Some(prefix) => if prefix.is_prefix_of(path) {
            Some(path.skip(prefix.len() as int))
        } else {
            None
        },
    }
}

/// The declarations `routes` with each pattern text compiled.
pub open spec fn compiled<R>(routes: Seq<(Seq<char>, R)>) -> Seq<(Seq<SegmentView>, R)> {
    routes.map_values(|d: (Seq<char>, R)| (compile(d.0), d.1))
}

/// The declarations that a vector of pattern texts and routes holds.
pub open spec fn declarations<R>(routes: Seq<(&str, R)>) -> Seq<(Seq<char>, R)> {
    routes.map_values(|d: (&str, R)| (d.0@, d.1))
}

/// The value of an optional string.
pub open spec fn text_of(s: Option<String>) -> Option<Seq<char>> {
    match s {
        Some(s) => Some(s@),
        None => None,
    }
}

/// The value of what a lookup returns.
pub open spec fn outcome_of<R>(found: Option<(&R, ParamMap)>) -> Option<
    (R, Seq<(Seq<char>, Seq<char>)>),
> {
    match found {
        Some((route, params)) => Some((*route, params@)),
        None => None,
    }
}

impl<R> RouteTableView<R> {
    /// Entry `i` is the first, in declaration order, whose pattern accepts
    /// the segments `path`.
    pub open spec fn first_accepting(self, path: Seq<Seq<char>>, i: int) -> bool {
        &&& 0 <= i < self.entries.len()
        &&& accepts(self.entries[i].0, path)
        &&& forall|j: int| 0 <= j < i ==> !accepts((#[trigger] self.entries[j]).0, path)
    }

    /// No entry's pattern accepts the segments `path`.
    pub open spec fn none_accepting(self, path: Seq<Seq<char>>) -> bool {
        forall|j: int| 0 <= j < self.entries.len() ==> !accepts((#[trigger] self.entries[j]).0, path)
    }

    /// `found` is the route and the bindings of the first declared entry
    /// whose pattern accepts the segments `path`.
    pub open spec fn finds(
        self,
        path: Seq<Seq<char>>,
        found: (R, Seq<(Seq<char>, Seq<char>)>),
    ) -> bool {
        exists|i: int|
            {
                &&& #[trigger] self.first_accepting(path, i)
                &&& found.0 == self.entries[i].1
                &&& found.1 == captures(self.entries[i].0, path)
            }
    }

    /// `outcome` is what recognising `path` gives. With a base prefix set, a
    /// path that does not start with it is not recognised; otherwise the
    /// prefix is taken off. What is left is recognised by the first declared
    /// entry whose pattern accepts its segments, with that pattern's
    /// bindings, and is not recognised where no entry accepts them.
    pub open spec fn recognizes(
        self,
        path: Seq<char>,
        outcome: Option<(R, Seq<(Seq<char>, Seq<char>)>)>,
    ) -> bool {
        let rest = strip_base(self.base, path);
        if rest is None {
            outcome is None
        } else if outcome is None {
            self.none_accepting(segments(rest->0))
        } else {
            self.finds(segments(rest->0), outcome->0)
        }
    }

    /// `outcome` is what resolving `path` gives: what recognising it gives
    /// where it is recognised; else the fallback route without bindings where
    /// one is set; else nothing.
    pub open spec fn resolves(
        self,
        path: Seq<char>,
        outcome: Option<(R, Seq<(Seq<char>, Seq<char>)>)>,
    ) -> bool {
        if self.recognizes(path, None) {
            outcome == match self.fallback {
                Some(route) => Some((route, Seq::<(Seq<char>, Seq<char>)>::empty())),
                None => None,
            }
        } else {
            outcome is Some && self.recognizes(path, outcome)
        }
    }
}

impl<R> View for RouteTable<R> {
    type V = RouteTableView<R>;

    closed spec fn view(&self) -> RouteTableView<R> {
        RouteTableView {
            entries: self.entries@.map_values(|e: RouteEntry<R>| (e.pattern@, e.route)),
            base: text_of(self.base),
            fallback: self.fallback,
        }
    }
}

/// Builds the table of the declarations `routes`, in their order, with the
/// base prefix `base` and the fallback route `fallback`. Every pattern text
/// is compiled; the first malformed one fails the build.
pub fn build_router<R>(routes: Vec<(&str, R)>, base: Option<String>, fallback: Option<R>) -> (out:
    Result<RouteTable<R>, BuildError>)
    ensures
        match out {
            Ok(table) => {
                &&& table@.entries == compiled(declarations(routes@))
                &&& table@.base == text_of(base)
                &&& table@.fallback == fallback
                &&& forall|i: int|
                    0 <= i < routes.len() ==> well_formed(#[trigger] compile(routes[i].0@))
            },
            Err(error) => {
                &&& error.index < routes.len()
                &&& first_fault(compile(routes[error.index as int].0@)) == Some(error.reason)
                &&& forall|i: int|
                    0 <= i < error.index ==> well_formed(#[trigger] compile(routes[i].0@))
            },
        },
{
    let ghost declared = routes@;
    let ghost wanted = compiled(declarations(declared));
    let mut entries: Vec<RouteEntry<R>> = Vec::new();
    let count = routes.len();
    let mut index: usize = 0;
    for declaration in it: routes
        invariant
            it.seq() == declared,
            index == it.index(),
            index <= declared.len() == count,
            wanted == compiled(declarations(declared)),
            entries@.map_values(|e: RouteEntry<R>| (e.pattern@, e.route)) =~= wanted.take(
                index as int,
            ),
            forall|i: int| 0 <= i < index ==> well_formed(#[trigger] compile(declared[i].0@)),
    {
        let (text, route) = declaration;
        let ghost before = entries@.map_values(|e: RouteEntry<R>| (e.pattern@, e.route));
        proof {
            lemma_first_fault_none_iff_well_formed(compile(text@));
        }
        match Pattern::parse(text) {
            Ok(pattern) => {
                entries.push(RouteEntry { pattern, route });
                assert(entries@.map_values(|e: RouteEntry<R>| (e.pattern@, e.route)) =~= before.push(
                    wanted[index as int],
                ));
            },
            Err(reason) => {
                return Err(BuildError { index, reason });
            },
        }
        index = index + 1;
    }
    Ok(RouteTable { entries, base, fallback })
}

impl<R> RouteTable<R> {
    /// The number of declared routes.
    pub fn len(&self) -> (out: usize)
        ensures
            out == self@.entries.len(),
    {
        self.entries.len()
    }

    /// The base prefix, if one is set.
    pub fn base(&self) -> (out: Option<&String>)
        ensures
            match out {
                Some(prefix) => self@.base == Some(prefix@),
                None => self@.base is None,
            },
    {
        match &self.base {
            Some(prefix) => Some(prefix),
            None => None,
        }
    }

    /// The fallback route, if one is set.
    pub fn fallback(&self) -> (out: Option<&R>)
        ensures
            match out {
                Some(route) => self@.fallback == Some(*route),
                None => self@.fallback is None,
            },
    {
        match &self.fallback {
            Some(route) => Some(route),
            None => None,
        }
    }

    /// The pattern and the route declared at position `i`, if there are
    /// that many declarations.
    pub fn entry(&self, i: usize) -> (out: Option<(&Pattern, &R)>)
        ensures
            match out {
                Some(entry) => i < self@.entries.len() && self@.entries[i as int] == (
                    entry.0@,
                    *entry.1,
                ),
                None => i >= self@.entries.len(),
            },
    {
        if i < self.entries.len() {
            Some((&self.entries[i].pattern, &self.entries[i].route))
        } else {
            None
        }
    }

    /// The route whose pattern is the first, in declaration order, to accept
    /// `path`, with the values that the pattern captures. With a base prefix
    /// set, only a path that starts with it is recognised, and the prefix is
    /// taken off before matching. One `/` at the end of what is left makes
    /// no difference.
    pub fn recognize(&self, path: &str) -> (out: Option<(&R, ParamMap)>)
        ensures
            self@.recognizes(path@, outcome_of(out)),
    {
        let chars = chars_of(path);
        let start: usize = match &self.base {
            None => 0,
            Some(prefix) => {
                let prefix_chars = chars_of(prefix.as_str());
                if !has_prefix(&chars, &prefix_chars) {
                    return None;
                }
                prefix_chars.len()
            },
        };
        let parts = segments_from(&chars, start);
        let ghost rest = path@.skip(start as int);
        let ghost s = segments(rest);
        let mut i: usize = 0;
        while i < self.entries.len()
            invariant
                i <= self.entries.len(),
                strip_base(self@.base, path@) == Some(rest),
                s == segments(rest),
                s == texts(parts@),
                forall|j: int| 0 <= j < i ==> !accepts((#[trigger] self@.entries[j]).0, s),
            decreases self.entries.len() - i,
        {
            match match_segments(&self.entries[i].pattern, &parts) {
                Some(params) => {
                    assert(self@.first_accepting(s, i as int));
                    return Some((&self.entries[i].route, params));
                },
                None => {},
            }
            i = i + 1;
        }
        None
    }

    /// The route for `path`: the recognised one with its captured values, or
    /// the fallback route without any. A path that is not recognised by a
    /// table without fallback is an error.
    pub fn resolve_or_fallback(&self, path: &str) -> (out: Result<(&R, ParamMap), MissingFallback>)
        ensures
            match out {
                Ok(found) => self@.resolves(path@, outcome_of(Some(found))),
                Err(_) => self@.resolves(path@, None),
            },
    {
        match self.recognize(path) {
            Some(found) => {
                Ok(found)
            },
            None => match &self.fallback {
                Some(route) => Ok((route, ParamMap::new())),
                None => Err(MissingFallback),
            },
        }
    }
}

/// Resolves `pathname` with `router`: the recognised route with its captured
/// values, else the fallback route without any, else nothing.
pub fn recognize_with_router<'a, R>(router: &'a RouteTable<R>, pathname: &str) -> (out: Option<
    (&'a R, ParamMap),
>)
    ensures
        router@.resolves(pathname@, outcome_of(out)),
{
    match router.resolve_or_fallback(pathname) {
        Ok(found) => Some(found),
        Err(_) => None,
    }
}

} // verus!
