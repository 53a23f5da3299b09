//! The metadata block of a Norg document.

use vstd::prelude::*;
use vstd::string::*;
use crate::text::{last_index_of, last_index, lemma_last_index_bounds, str_eq};
use crate::convert::texts;

verus! {

/// The pieces of `s` between line feeds, the last one included even when empty.
pub open spec fn pieces_of(s: Seq<char>) -> Seq<Seq<char>>
    decreases s.len(),
{
    let k = last_index_of(s, '\n');
    if k < 0 || k >= s.len() {
        seq![s]
    } else {
        pieces_of(s.take(k)).push(s.skip(k + 1))
    }
}

/// `s` without one trailing carriage return.
pub open spec fn strip_cr(s: Seq<char>) -> Seq<char> {
    if s.len() > 0 && s.last() == '\r' {
        s.drop_last()
    } else {
        s
    }
}

/// The lines of `s`, as std's `str::lines` gives them: split at line feeds, a
/// carriage return before a line feed dropped, and no line after a final
/// line feed.
pub open spec fn lines_of(s: Seq<char>) -> Seq<Seq<char>> {
    let p = pieces_of(s);
    let init = p.drop_last().map_values(|x: Seq<char>| strip_cr(x));
    if p.last().len() == 0 {
        init
    } else {
        init.push(p.last())
    }
}

proof fn lemma_pieces_nonempty(s: Seq<char>)
    ensures
        pieces_of(s).len() > 0,
    decreases s.len(),
{
    let k = last_index_of(s, '\n');
    if !(k < 0 || k >= s.len()) {
        lemma_pieces_nonempty(s.take(k));
    }
}

fn split_pieces(s: &str) -> (r: Vec<String>)
    ensures
        texts(r@) == pieces_of(s@),
    decreases s@.len(),
{
    proof {
        lemma_last_index_bounds(s@, '\n');
    }
    let n = s.unicode_len();
    match last_index(s, '\n') {
        None => {
            let mut out: Vec<String> = Vec::new();
            out.push(String::from_str(s));
            assert(texts(out@) =~= seq![s@]);
            out
        },
        Some(k) => {
            let mut out = split_pieces(s.substring_char(0, k));
            let tail = s.substring_char(k + 1, n);
            assert(tail@ =~= s@.skip(k + 1));
            let ghost head = texts(out@);
            out.push(String::from_str(tail));
            assert(texts(out@) =~= head.push(tail@));
            out
        },
    }
}

fn without_cr(s: &str) -> (r: String)
    ensures
        r@ == strip_cr(s@),
{
    let n = s.unicode_len();
    if n > 0 && s.get_char(n - 1) == '\r' {
        let r = String::from_str(s.substring_char(0, n - 1));
        assert(r@ =~= s@.drop_last());
        r
    } else {
        String::from_str(s)
    }
}

/// The lines of `s`.
pub fn split_lines(s: &str) -> (r: Vec<String>)
    ensures
        texts(r@) == lines_of(s@),
{
    let pieces = split_pieces(s);
    proof {
        lemma_pieces_nonempty(s@);
    }
    let ghost p = texts(pieces@);
    let last = pieces.len() - 1;
    let mut out: Vec<String> = Vec::new();
    let mut i: usize = 0;
    while i < last
        invariant
            last == pieces@.len() - 1,
            p == texts(pieces@),
            i <= last,
            texts(out@) == p.take(i as int).map_values(|x: Seq<char>| strip_cr(x)),
        decreases last - i,
    {
        let ghost before = texts(out@);
        out.push(without_cr(pieces[i].as_str()));
        assert(texts(out@) =~= before.push(strip_cr(p[i as int])));
        assert(p.take(i + 1).map_values(|x: Seq<char>| strip_cr(x)) =~= p.take(i as int).map_values(
            |x: Seq<char>| strip_cr(x),
        ).push(strip_cr(p[i as int])));
        i = i + 1;
    }
    assert(p.take(last as int) =~= p.drop_last());
    if pieces[last].as_str().unicode_len() > 0 {
        let ghost before = texts(out@);
        out.push(pieces[last].clone());
        assert(texts(out@) =~= before.push(p.last()));
    }
    out
}

/// The index of the first line equal to `t` from index `from` on, or the
/// number of lines.
pub open spec fn find_line(ls: Seq<Seq<char>>, t: Seq<char>, from: int) -> int
    decreases ls.len() - from,
{
    if from >= ls.len() || from < 0 {
        ls.len() as int
    } else if ls[from] == t {
        from
    } else {
        find_line(ls, t, from + 1)
    }
}

/// The lines of the metadata block: those after the first `@document.meta`
/// line, up to the next `@end` line or the end of the document.
pub open spec fn meta_lines_of(ls: Seq<Seq<char>>) -> Seq<Seq<char>> {
    let start = find_line(ls, "@document.meta"@, 0);
    if start >= ls.len() {
        Seq::empty()
    } else {
        let end = find_line(ls, "@end"@, start + 1);
        ls.subrange(start + 1, end)
    }
}

/// Lines joined by line feeds.
pub open spec fn join_lines(ls: Seq<Seq<char>>) -> Seq<char>
    decreases ls.len(),
{
    if ls.len() == 0 {
        Seq::empty()
    } else if ls.len() == 1 {
        ls[0]
    } else {
        join_lines(ls.drop_last()) + "\n"@ + ls.last()
    }
}

proof fn lemma_find_line_bounds(ls: Seq<Seq<char>>, t: Seq<char>, from: int)
    requires
        0 <= from,
    ensures
        from <= find_line(ls, t, from) <= ls.len() || (from > ls.len() && find_line(ls, t, from) == ls.len()),
        find_line(ls, t, from) < ls.len() ==> ls[find_line(ls, t, from)] == t,
    decreases ls.len() - from,
{
    if from < ls.len() && ls[from] != t {
        lemma_find_line_bounds(ls, t, from + 1);
    }
}

fn find_line_from(ls: &Vec<String>, t: &str, from: usize) -> (r: usize)
    requires
        from <= ls@.len(),
    ensures
        r as int == find_line(texts(ls@), t@, from as int),
{
    let mut i = from;
    while i < ls.len() && !str_eq(ls[i].as_str(), t)
        invariant
            from <= i <= ls@.len(),
            find_line(texts(ls@), t@, from as int) == find_line(texts(ls@), t@, i as int),
        decreases ls.len() - i,
    {
        assert(texts(ls@)[i as int] == ls@[i as int]@);
        i = i + 1;
    }
    if i < ls.len() {
        assert(texts(ls@)[i as int] == ls@[i as int]@);
    }
    i
}

/// The text of the metadata block of the Norg document `input`: the lines
/// between its first `@document.meta` line and the next `@end` line, joined by
/// line feeds; empty when it has no such block.
pub fn extract_meta(input: &str) -> (r: String)
    ensures
        r@ == join_lines(meta_lines_of(lines_of(input@))),
{
    let ls = split_lines(input);
    let ghost l = texts(ls@);
    let start = find_line_from(&ls, "@document.meta", 0);
    if start >= ls.len() {
        assert(meta_lines_of(l) =~= Seq::<Seq<char>>::empty());
        return String::new();
    }
    proof {
        lemma_find_line_bounds(l, "@end"@, start + 1);
    }
    let end = find_line_from(&ls, "@end", start + 1);
    let ghost block = l.subrange(start + 1, end as int);
    let mut out = String::new();
    let mut i: usize = start + 1;
    assert(l.subrange(start + 1, i as int) =~= Seq::<Seq<char>>::empty());
    while i < end
        invariant
            start + 1 <= i <= end <= ls@.len(),
            l == texts(ls@),
            out@ == join_lines(l.subrange(start + 1, i as int)),
        decreases end - i,
    {
        let ghost prev = l.subrange(start + 1, i as int);
        let ghost next = l.subrange(start + 1, i + 1);
        assert(next.drop_last() =~= prev);
        assert(next.last() == ls@[i as int]@);
        if i > start + 1 {
            out.append("\n");
        } else {
            assert(next.len() == 1);
        }
        out.append(ls[i].as_str());
        i = i + 1;
    }
    out
}

} // verus!
