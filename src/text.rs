use vstd::prelude::*;

verus! {

/// Whether `c` is a white-space character in the sense of Unicode's White_Space property.
pub open spec fn is_ws_spec(c: char) -> bool {
    c == '\t' || c == '\n' || c == '\x0B' || c == '\x0C' || c == '\r' || c == ' '
        || c == '\u{85}' || c == '\u{A0}' || c == '\u{1680}'
        || ('\u{2000}' <= c && c <= '\u{200A}')
        || c == '\u{2028}' || c == '\u{2029}' || c == '\u{202F}' || c == '\u{205F}'
        || c == '\u{3000}'
}

pub fn is_ws(c: char) -> (r: bool)
    ensures
        r == is_ws_spec(c),
{
    c == '\t' || c == '\n' || c == '\x0B' || c == '\x0C' || c == '\r' || c == ' '
        || c == '\u{85}' || c == '\u{A0}' || c == '\u{1680}'
        || ('\u{2000}' <= c && c <= '\u{200A}')
        || c == '\u{2028}' || c == '\u{2029}' || c == '\u{202F}' || c == '\u{205F}'
        || c == '\u{3000}'
}

/// The text with its leading white space removed.
pub open spec fn trim_start(t: Seq<char>) -> Seq<char>
    decreases t.len(),
{
    if t.len() > 0 && is_ws_spec(t[0]) {
        trim_start(t.skip(1))
    } else {
        t
    }
}

/// The text with its trailing white space removed.
pub open spec fn trim_end(t: Seq<char>) -> Seq<char>
    decreases t.len(),
{
    if t.len() > 0 && is_ws_spec(t.last()) {
        trim_end(t.drop_last())
    } else {
        t
    }
}

/// The text with white space removed at both ends.
pub open spec fn trim(t: Seq<char>) -> Seq<char> {
    trim_end(trim_start(t))
}

/// The segments of `t` between line feeds; there is always at least one.
pub open spec fn split_lf(t: Seq<char>) -> Seq<Seq<char>>
    decreases t.len(),
{
    if t.len() == 0 {
        seq![Seq::<char>::empty()]
    } else {
        let s = split_lf(t.drop_last());
        if t.last() == '\n' {
            s.push(Seq::<char>::empty())
        } else {
            s.update(s.len() - 1, s.last().push(t.last()))
        }
    }
}

/// The lines of `t`: its segments between line feeds, without the empty one that a
/// final line feed leaves. A carriage return before a line feed stays in its line;
/// every reader of these lines trims them.
pub open spec fn lines(t: Seq<char>) -> Seq<Seq<char>> {
    let s = split_lf(t);
    if s.last().len() == 0 {
        s.drop_last()
    } else {
        s
    }
}

/// Whether a word starts at position `i` of `t`.
pub open spec fn word_starts_at(t: Seq<char>, i: int) -> bool {
    !is_ws_spec(t[i]) && (i == 0 || is_ws_spec(t[i - 1]))
}

/// The number of maximal runs of non-white-space characters in `t`.
pub open spec fn word_count(t: Seq<char>) -> nat
    decreases t.len(),
{
    if t.len() == 0 {
        0
    } else {
        word_count(t.drop_last()) + if word_starts_at(t, t.len() - 1) {
            1nat
        } else {
            0nat
        }
    }
}

/// The decimal digit for `d`.
pub open spec fn digit(d: nat) -> char {
    if d == 0 {
        '0'
    } else if d == 1 {
        '1'
    } else if d == 2 {
        '2'
    } else if d == 3 {
        '3'
    } else if d == 4 {
        '4'
    } else if d == 5 {
        '5'
    } else if d == 6 {
        '6'
    } else if d == 7 {
        '7'
    } else if d == 8 {
        '8'
    } else {
        '9'
    }
}

/// The decimal notation of `n`, without leading zeros.
pub open spec fn decimal(n: nat) -> Seq<char>
    decreases n,
{
    if n < 10 {
        seq![digit(n)]
    } else {
        decimal(n / 10).push(digit(n % 10))
    }
}

/// The character sequences held by a sequence of vectors.
pub open spec fn views(v: Seq<Vec<char>>) -> Seq<Seq<char>> {
    v.map_values(|l: Vec<char>| l@)
}

/// Relies on `str::chars` collected into a `Vec`: the characters of `s`, in order.
#[verifier::external_body]
pub(crate) fn to_chars(s: &str) -> (r: Vec<char>)
    ensures
        r@ == s@,
{
    s.chars().collect()
}

/// Relies on `String::from_iter` over characters: the string of exactly these characters.
#[verifier::external_body]
pub(crate) fn string_of(v: &Vec<char>) -> (r: String)
    ensures
        r@ == v@,
{
    v.iter().collect()
}

/// Appends the characters of `s` to `out`.
pub fn push_str(out: &mut Vec<char>, s: &str)
    ensures
        final(out)@ == old(out)@ + s@,
{
    let mut c = to_chars(s);
    out.append(&mut c);
}

/// Appends the characters of `s` to `out`.
pub fn push_chars(out: &mut Vec<char>, s: &Vec<char>)
    ensures
        final(out)@ == old(out)@ + s@,
{
    let mut i: usize = 0;
    while i < s.len()
        invariant
            i <= s@.len(),
            out@ == old(out)@ + s@.take(i as int),
        decreases s@.len() - i,
    {
        out.push(s[i]);
        i = i + 1;
        assert(s@.take(i as int) == s@.take(i - 1).push(s@[i - 1]));
    }
    assert(s@.take(s@.len() as int) == s@);
}

/// The characters of `t` from `lo` up to `hi`.
pub fn slice_chars(t: &Vec<char>, lo: usize, hi: usize) -> (r: Vec<char>)
    requires
        lo <= hi <= t@.len(),
    ensures
        r@ == t@.subrange(lo as int, hi as int),
{
    let mut r: Vec<char> = Vec::new();
    let mut i: usize = lo;
    while i < hi
        invariant
            lo <= i <= hi <= t@.len(),
            r@ == t@.subrange(lo as int, i as int),
        decreases hi - i,
    {
        r.push(t[i]);
        i = i + 1;
        assert(r@ == t@.subrange(lo as int, i as int));
    }
    r
}

/// The characters of `t` with white space removed at both ends.
pub fn trim_chars(t: &Vec<char>) -> (r: Vec<char>)
    ensures
        r@ == trim(t@),
{
    let n = t.len();
    let mut lo: usize = 0;
    assert(t@.subrange(0, n as int) == t@);
    while lo < n && is_ws(t[lo])
        invariant
            lo <= n == t@.len(),
            trim_start(t@) == trim_start(t@.subrange(lo as int, n as int)),
        decreases n - lo,
    {
        assert(t@.subrange(lo as int, n as int).skip(1) == t@.subrange(lo + 1, n as int));
        lo = lo + 1;
    }
    assert(trim_start(t@.subrange(lo as int, n as int)) == t@.subrange(lo as int, n as int));
    let mut hi: usize = n;
    while hi > lo && is_ws(t[hi - 1])
        invariant
            lo <= hi <= n == t@.len(),
            trim(t@) == trim_end(t@.subrange(lo as int, hi as int)),
        decreases hi,
    {
        assert(t@.subrange(lo as int, hi as int).drop_last() == t@.subrange(
            lo as int,
            hi - 1,
        ));
        hi = hi - 1;
    }
    slice_chars(t, lo, hi)
}

/// The lines of `t`, as `lines` describes them.
pub fn split_lines(t: &Vec<char>) -> (r: Vec<Vec<char>>)
    ensures
        views(r@) == lines(t@),
{
    let mut done: Vec<Vec<char>> = Vec::new();
    let mut cur: Vec<char> = Vec::new();
    let mut i: usize = 0;
    while i < t.len()
        invariant
            i <= t@.len(),
            split_lf(t@.take(i as int)) == views(done@).push(cur@),
        decreases t@.len() - i,
    {
        let ghost before = t@.take(i as int);
        let c = t[i];
        i = i + 1;
        assert(t@.take(i as int).drop_last() == before);
        if c == '\n' {
            let ghost dv = views(done@);
            let full = cur;
            done.push(full);
            cur = Vec::new();
            assert(views(done@) =~= dv.push(full@));
        } else {
            cur.push(c);
        }
        assert(split_lf(t@.take(i as int)) == views(done@).push(cur@));
    }
    assert(t@.take(t@.len() as int) == t@);
    if cur.len() > 0 {
        let ghost dv = views(done@);
        let last = cur;
        done.push(last);
        assert(views(done@) =~= dv.push(last@));
        assert(dv.push(last@).drop_last() == dv);
    } else {
        assert(views(done@).push(cur@).drop_last() == views(done@));
    }
    done
}

/// The number of words of `t`: its maximal runs of non-white-space characters.
pub fn count_word_chars(t: &Vec<char>) -> (r: usize)
    ensures
        r == word_count(t@),
{
    let mut count: usize = 0;
    let mut i: usize = 0;
    while i < t.len()
        invariant
            i <= t@.len(),
            count == word_count(t@.take(i as int)),
            count <= i,
        decreases t@.len() - i,
    {
        let starts = !is_ws(t[i]) && (i == 0 || is_ws(t[i - 1]));
        let ghost pre = t@.take(i as int);
        i = i + 1;
        assert(t@.take(i as int).drop_last() == pre);
        if starts {
            count = count + 1;
        }
    }
    assert(t@.take(t@.len() as int) == t@);
    count
}

/// Appends the decimal notation of `n` to `out`.
pub fn push_decimal(out: &mut Vec<char>, n: u128)
    ensures
        final(out)@ == old(out)@ + decimal(n as nat),
    decreases n,
{
    if n >= 10 {
        push_decimal(out, n / 10);
    }
    let d = n % 10;
    let c = if d == 0 {
        '0'
    } else if d == 1 {
        '1'
    } else if d == 2 {
        '2'
    } else if d == 3 {
        '3'
    } else if d == 4 {
        '4'
    } else if d == 5 {
        '5'
    } else if d == 6 {
        '6'
    } else if d == 7 {
        '7'
    } else if d == 8 {
        '8'
    } else {
        '9'
    };
    out.push(c);
}

} // verus!
