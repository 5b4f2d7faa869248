//! Paths as sequences of characters: cutting a path into its `/`-separated
//! segments and joining segments back together.

use vstd::prelude::*;

verus! {

/// The character that separates the segments of a path.
pub const SEPARATOR: char = '/';

/// The pieces of `s` between separators. A text without a separator is one
/// piece, and each separator starts a new, possibly empty, piece.
pub open spec fn pieces(s: Seq<char>) -> Seq<Seq<char>>
    decreases s.len(),
{
    if s.len() == 0 {
        seq![Seq::<char>::empty()]
    } else {
        let before = pieces(s.drop_last());
        if s.last() == SEPARATOR {
            before.push(Seq::<char>::empty())
        } else {
            before.drop_last().push(before.last().push(s.last()))
        }
    }
}

/// `parts` without its first piece when that piece is empty, and then without
/// its last piece when that one is empty.
pub open spec fn trim(parts: Seq<Seq<char>>) -> Seq<Seq<char>> {
    let tail = if parts.len() > 0 && parts.first().len() == 0 {
        parts.drop_first()
    } else {
        parts
    };
    if tail.len() > 0 && tail.last().len() == 0 {
        tail.drop_last()
    } else {
        tail
    }
}

/// The segments of a path: its pieces, where the empty piece that a leading
/// separator produces and the empty piece that a trailing separator produces
/// do not count. So `/a/b`, `/a/b/` and `a/b` have the same two segments,
/// while `/a/b//` has a third, empty one.
pub open spec fn segments(s: Seq<char>) -> Seq<Seq<char>> {
    trim(pieces(s))
}

/// The pieces of `parts` written one after another with a separator between
/// each two neighbours.
pub open spec fn join(parts: Seq<Seq<char>>) -> Seq<char>
    decreases parts.len(),
{
    if parts.len() == 0 {
        Seq::<char>::empty()
    } else if parts.len() == 1 {
        parts[0]
    } else {
        join(parts.drop_last()).push(SEPARATOR) + parts.last()
    }
}

/// The character sequences that a sequence of strings stands for.
pub open spec fn texts(strings: Seq<String>) -> Seq<Seq<char>> {
    strings.map_values(|s: String| s@)
}

/// `String::push` of the standard library: the string afterwards is the
/// string before with `c` appended as its last character.
pub assume_specification[ String::push ](s: &mut String, c: char)
    ensures
        final(s)@ == old(s)@.push(c),
;

/// The characters of `s`, in order.
pub fn chars_of(s: &str) -> (out: Vec<char>)
    ensures
        out@ == s@,
{
    let mut out: Vec<char> = Vec::new();
    for c in it: s.chars()
        invariant
            it.seq() == s@,
            out@ == s@.take(it.index() as int),
    {
        out.push(c);
    }
    out
}

/// Every piece is free of separators.
pub proof fn lemma_pieces_hold_no_separator(s: Seq<char>)
    ensures
        pieces(s).len() >= 1,
        forall|i: int, k: int|
            0 <= i < pieces(s).len() && 0 <= k < pieces(s)[i].len() ==> pieces(s)[i][k]
                != SEPARATOR,
    decreases s.len(),
{
    if s.len() > 0 {
        lemma_pieces_hold_no_separator(s.drop_last());
    }
}

/// Cuts `chars`, from position `from` on, at every separator.
pub fn split_from(chars: &Vec<char>, from: usize) -> (out: Vec<String>)
    requires
        from <= chars.len(),
    ensures
        texts(out@) == pieces(chars@.skip(from as int)),
{
    let ghost rest = chars@.skip(from as int);
    let mut done: Vec<String> = Vec::new();
    let mut current = String::new();
    let mut i: usize = from;
    while i < chars.len()
        invariant
            from <= i <= chars.len(),
            rest == chars@.skip(from as int),
            texts(done@).push(current@) =~= pieces(rest.take(i - from)),
        decreases chars.len() - i,
    {
        let c = chars[i];
        proof {
            let sofar = rest.take(i - from + 1);
            assert(sofar.drop_last() =~= rest.take(i - from));
        }
        if c == SEPARATOR {
            done.push(current);
            current = String::new();
        } else {
            current.push(c);
        }
        i = i + 1;
    }
    assert(rest.take(chars.len() - from) =~= rest);
    done.push(current);
    done
}

/// The segments of the path that `chars` holds from position `from` on.
pub fn segments_from(chars: &Vec<char>, from: usize) -> (out: Vec<String>)
    requires
        from <= chars.len(),
    ensures
        texts(out@) == segments(chars@.skip(from as int)),
{
    let mut parts = split_from(chars, from);
    if parts.len() > 0 && parts[0].as_str().is_empty() {
        parts.remove(0);
    }
    if parts.len() > 0 && parts[parts.len() - 1].as_str().is_empty() {
        parts.pop();
    }
    parts
}

/// The segments of `path`.
pub fn split_path(path: &str) -> (out: Vec<String>)
    ensures
        texts(out@) == segments(path@),
{
    let chars = chars_of(path);
    assert(chars@.skip(0) =~= path@);
    segments_from(&chars, 0)
}

/// Joins the strings of `parts` from position `from` on, with a separator
/// between each two neighbours.
pub fn join_from(parts: &Vec<String>, from: usize) -> (out: String)
    requires
        from <= parts.len(),
    ensures
        out@ == join(texts(parts@).skip(from as int)),
{
    let ghost wanted = texts(parts@).skip(from as int);
    let mut out = String::new();
    let mut i: usize = from;
    while i < parts.len()
        invariant
            from <= i <= parts.len(),
            wanted == texts(parts@).skip(from as int),
            out@ == join(wanted.take(i - from)),
        decreases parts.len() - i,
    {
        proof {
            let sofar = wanted.take(i - from + 1);
            assert(sofar.drop_last() =~= wanted.take(i - from));
        }
        if i > from {
            out.push(SEPARATOR);
        }
        out.append(parts[i].as_str());
        i = i + 1;
    }
    assert(wanted.take(parts.len() - from) =~= wanted);
    out
}

/// Whether `chars` starts with `prefix`.
pub fn has_prefix(chars: &Vec<char>, prefix: &Vec<char>) -> (out: bool)
    ensures
        out == prefix@.is_prefix_of(chars@),
{
    if prefix.len() > chars.len() {
        return false;
    }
    let mut i: usize = 0;
    while i < prefix.len()
        invariant
            i <= prefix.len() <= chars.len(),
            forall|k: int| 0 <= k < i ==> prefix@[k] == chars@[k],
        decreases prefix.len() - i,
    {
        if prefix[i] != chars[i] {
            return false;
        }
        i = i + 1;
    }
    true
}

} // verus!
