use vstd::prelude::*;

use crate::blocks::{count_hashes, leading_hashes};
use crate::inline::{toggle, toggle_chars};
use crate::text::{
    lines, push_chars, slice_chars, split_lines, string_of, to_chars, trim,
    trim_chars, views,
};

verus! {

/// One trimmed line with its leading `#` markers and every `**`, `__`, `*` and `_` removed.
pub open spec fn strip_line(line: Seq<char>) -> Seq<char> {
    let l = trim(line);
    let l1 = if l.len() > 0 && l[0] == '#' {
        trim(l.skip(leading_hashes(l) as int))
    } else {
        l
    };
    let e = Seq::<char>::empty();
    let l2 = toggle(l1, "**"@, e, e, false);
    let l3 = toggle(l2, "__"@, e, e, false);
    let l4 = toggle(l3, "*"@, e, e, false);
    toggle(l4, "_"@, e, e, false)
}

/// The stripped lines, each followed by a line feed.
pub open spec fn strip_lines(ls: Seq<Seq<char>>) -> Seq<char>
    decreases ls.len(),
{
    if ls.len() == 0 {
        Seq::empty()
    } else {
        strip_lines(ls.drop_last()) + strip_line(ls.last()) + seq!['\n']
    }
}

/// The plain-text form of a chapter body.
pub open spec fn stripped(text: Seq<char>) -> Seq<char> {
    strip_lines(lines(text))
}

fn strip_line_chars(line: &Vec<char>) -> (r: Vec<char>)
    ensures
        r@ == strip_line(line@),
{
    proof {
        reveal_strlit("**");
        reveal_strlit("__");
        reveal_strlit("*");
        reveal_strlit("_");
    }
    let l = trim_chars(line);
    let l1 = if l.len() > 0 && l[0] == '#' {
        let h = count_hashes(&l);
        let rest = slice_chars(&l, h, l.len());
        trim_chars(&rest)
    } else {
        l
    };
    let e: Vec<char> = Vec::new();
    let d1 = to_chars("**");
    let d2 = to_chars("__");
    let d3 = to_chars("*");
    let d4 = to_chars("_");
    let l2 = toggle_chars(&l1, &d1, &e, &e);
    let l3 = toggle_chars(&l2, &d2, &e, &e);
    let l4 = toggle_chars(&l3, &d3, &e, &e);
    toggle_chars(&l4, &d4, &e, &e)
}

/// Removes heading markers and bold and italic markers, line by line.
pub fn strip_markdown(text: &str) -> (r: String)
    ensures
        r@ == stripped(text@),
{
    let t = to_chars(text);
    let ls = split_lines(&t);
    let mut out: Vec<char> = Vec::new();
    let mut i: usize = 0;
    while i < ls.len()
        invariant
            i <= ls@.len(),
            views(ls@) == lines(t@),
            out@ == strip_lines(views(ls@).take(i as int)),
        decreases ls@.len() - i,
    {
        let s = strip_line_chars(&ls[i]);
        push_chars(&mut out, &s);
        out.push('\n');
        let ghost pre = views(ls@).take(i as int);
        i = i + 1;
        assert(views(ls@).take(i as int).drop_last() =~= pre);
        assert(views(ls@).take(i as int).last() == ls@[i - 1]@);
    }
    assert(views(ls@).take(ls@.len() as int) =~= views(ls@));
    string_of(&out)
}

} // verus!
