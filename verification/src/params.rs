//! The values that a match captures, each under the name of the segment that
//! captured it.

use vstd::prelude::*;

verus! {

/// One captured value: the name of a dynamic or wildcard segment and the part
/// of the path that the segment took.
#[derive(Debug, PartialEq, Eq)]
pub struct Param {
    pub name: String,
    pub value: String,
}

impl View for Param {
    type V = (Seq<char>, Seq<char>);

    open spec fn view(&self) -> (Seq<char>, Seq<char>) {
        (self.name@, self.value@)
    }
}

/// The value that `bindings` holds for `name`: that of the first binding with
/// this name.
pub open spec fn lookup(bindings: Seq<(Seq<char>, Seq<char>)>, name: Seq<char>) -> Option<
    Seq<char>,
>
    decreases bindings.len(),
{
    if bindings.len() == 0 {
        None
    } else if bindings[0].0 == name {
        Some(bindings[0].1)
    } else {
        lookup(bindings.drop_first(), name)
    }
}

/// The names that `bindings` binds, in order.
pub open spec fn names(bindings: Seq<(Seq<char>, Seq<char>)>) -> Seq<Seq<char>> {
    bindings.map_values(|b: (Seq<char>, Seq<char>)| b.0)
}

/// The captured values of one match, in the order of the segments that
/// captured them.
#[derive(Debug, PartialEq, Eq)]
pub struct ParamMap {
    pub(crate) entries: Vec<Param>,
}

impl View for ParamMap {
    type V = Seq<(Seq<char>, Seq<char>)>;

    closed spec fn view(&self) -> Seq<(Seq<char>, Seq<char>)> {
        self.entries@.map_values(|p: Param| p@)
    }
}

impl ParamMap {
    /// A map without bindings.
    pub fn new() -> (out: ParamMap)
        ensures
            out@ == Seq::<(Seq<char>, Seq<char>)>::empty(),
    {
        let out = ParamMap { entries: Vec::new() };
        out
    }

    /// A map of the given bindings.
    pub(crate) fn of(entries: Vec<Param>) -> (out: ParamMap)
        ensures
            out@ == entries@.map_values(|p: Param| p@),
    {
        ParamMap { entries }
    }

    /// The number of bindings.
    pub fn len(&self) -> (out: usize)
        ensures
            out == self@.len(),
    {
        self.entries.len()
    }

    /// Whether there is no binding.
    pub fn is_empty(&self) -> (out: bool)
        ensures
            out == (self@.len() == 0),
    {
        self.entries.len() == 0
    }

    /// The bindings, in the order of the segments that captured them.
    pub fn entries(&self) -> (out: &Vec<Param>)
        ensures
            out@.map_values(|p: Param| p@) == self@,
    {
        &self.entries
    }

    /// The value bound to `name`, if the map binds it.
    pub fn get(&self, name: &str) -> (out: Option<&String>)
        ensures
            match out {
                Some(value) => lookup(self@, name@) == Some(value@),
                None => lookup(self@, name@) is None,
            },
    {
        let key = name.to_owned();
        let mut i: usize = 0;
        assert(self@.skip(0) =~= self@);
        while i < self.entries.len()
            invariant
                i <= self.entries.len(),
                key@ == name@,
                lookup(self@, name@) == lookup(self@.skip(i as int), name@),
            decreases self.entries.len() - i,
        {
            let ghost rest = self@.skip(i as int);
            assert(rest.drop_first() =~= self@.skip(i + 1));
            if self.entries[i].name == key {
                return Some(&self.entries[i].value);
            }
            i = i + 1;
        }
        None
    }
}

} // verus!
