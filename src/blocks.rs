use vstd::prelude::*;

use crate::inline::{inline_markup, inline_markup_chars, Escape};
use crate::text::{
    digit, lines, push_chars, push_str, slice_chars, split_lines, string_of, to_chars,
    trim, trim_chars, views,
};

verus! {

/// Whether the trimmed line is a horizontal rule.
pub open spec fn is_rule(l: Seq<char>) -> bool {
    l == seq!['-', '-', '-'] || l == seq!['*', '*', '*'] || l == seq!['_', '_', '_']
}

/// Whether `l` begins with the two characters `a` and `b`.
pub open spec fn starts2(l: Seq<char>, a: char, b: char) -> bool {
    l.len() >= 2 && l[0] == a && l[1] == b
}

/// Whether the trimmed line is a heading.
pub open spec fn is_heading(l: Seq<char>) -> bool {
    l.len() > 0 && l[0] == '#'
}

/// The number of `#` characters that `l` begins with.
pub open spec fn leading_hashes(l: Seq<char>) -> nat
    decreases l.len(),
{
    if l.len() > 0 && l[0] == '#' {
        1 + leading_hashes(l.skip(1))
    } else {
        0
    }
}

/// Whether the trimmed line is a blockquote line.
pub open spec fn is_quote(l: Seq<char>) -> bool {
    starts2(l, '>', ' ') || l == seq!['>']
}

/// The text of a blockquote line.
pub open spec fn quote_text(l: Seq<char>) -> Seq<char> {
    if l == seq!['>'] {
        Seq::empty()
    } else {
        trim(l.skip(2))
    }
}

/// Whether the trimmed line is an unordered list item.
pub open spec fn is_bullet(l: Seq<char>) -> bool {
    starts2(l, '-', ' ') || starts2(l, '*', ' ')
}

/// Whether `c` is an ASCII digit.
pub open spec fn is_digit(c: char) -> bool {
    '0' <= c && c <= '9'
}

/// The number of ASCII digits that `l` begins with.
pub open spec fn leading_digits(l: Seq<char>) -> nat
    decreases l.len(),
{
    if l.len() > 0 && is_digit(l[0]) {
        1 + leading_digits(l.skip(1))
    } else {
        0
    }
}

/// The text of an ordered list item `<digits>. <rest>`, or `None` for any other line.
pub open spec fn ordered_item(l: Seq<char>) -> Option<Seq<char>> {
    let k = leading_digits(l) as int;
    if k > 0 && k + 2 <= l.len() && l[k] == '.' && l[k + 1] == ' ' {
        Some(trim(l.skip(k + 2)))
    } else {
        None
    }
}

/// The buffered lines joined by line feeds.
pub open spec fn join_lines(b: Seq<Seq<char>>) -> Seq<char>
    decreases b.len(),
{
    if b.len() == 0 {
        Seq::empty()
    } else if b.len() == 1 {
        b[0]
    } else {
        join_lines(b.drop_last()) + seq!['\n'] + b.last()
    }
}

/// The state of the HTML/XHTML block parser, and what it has written so far.
pub struct BlockState {
    pub ul: bool,
    pub ol: bool,
    pub bq: bool,
    pub buf: Seq<Seq<char>>,
    pub out: Seq<char>,
}

/// The state before the first line.
pub open spec fn initial_state() -> BlockState {
    BlockState { ul: false, ol: false, bq: false, buf: Seq::empty(), out: Seq::empty() }
}

/// The buffered paragraph, if any, written out and the buffer emptied.
pub open spec fn flush(kind: Escape, s: BlockState) -> BlockState {
    if s.buf.len() == 0 {
        s
    } else {
        BlockState {
            buf: Seq::empty(),
            out: s.out + ("<p>"@ + inline_markup(kind, join_lines(s.buf)) + "</p>\n"@),
            ..s
        }
    }
}

/// The tags that close the open lists and blockquote, in that order.
pub open spec fn closing_tags(ul: bool, ol: bool, bq: bool) -> Seq<char> {
    (if ul {
        "</ul>\n"@
    } else {
        Seq::empty()
    }) + (if ol {
        "</ol>\n"@
    } else {
        Seq::empty()
    }) + (if bq {
        "</blockquote>\n"@
    } else {
        Seq::empty()
    })
}

/// Every open list and blockquote closed.
pub open spec fn close_all(s: BlockState) -> BlockState {
    BlockState {
        ul: false,
        ol: false,
        bq: false,
        out: s.out + closing_tags(s.ul, s.ol, s.bq),
        ..s
    }
}

/// The unordered list closed, if open.
pub open spec fn close_ul(s: BlockState) -> BlockState {
    if s.ul {
        BlockState { ul: false, out: s.out + "</ul>\n"@, ..s }
    } else {
        s
    }
}

/// The ordered list closed, if open.
pub open spec fn close_ol(s: BlockState) -> BlockState {
    if s.ol {
        BlockState { ol: false, out: s.out + "</ol>\n"@, ..s }
    } else {
        s
    }
}

/// `text` appended to the output.
pub open spec fn emit(s: BlockState, text: Seq<char>) -> BlockState {
    BlockState { out: s.out + text, ..s }
}

/// The heading level of a heading line: its count of `#`, at most six.
pub open spec fn heading_level(l: Seq<char>) -> nat {
    if leading_hashes(l) > 6 {
        6
    } else {
        leading_hashes(l)
    }
}

/// A heading element of the given level around already converted text.
pub open spec fn heading_html(level: nat, text: Seq<char>) -> Seq<char> {
    seq!['<', 'h', digit(level), '>'] + text + seq!['<', '/', 'h', digit(level), '>', '\n']
}

/// One list item element around already converted text.
pub open spec fn item_html(text: Seq<char>) -> Seq<char> {
    "<li>"@ + text + "</li>\n"@
}

/// A heading line: the paragraph flushed, every block closed, and the heading written.
pub open spec fn heading_step(kind: Escape, s: BlockState, l: Seq<char>) -> BlockState {
    let level = heading_level(l);
    emit(
        close_all(flush(kind, s)),
        heading_html(level, inline_markup(kind, trim(l.skip(level as int)))),
    )
}

/// A blockquote line: the paragraph flushed, the lists closed, the blockquote opened if
/// needed, and the line written as one paragraph in it.
pub open spec fn quote_step(kind: Escape, s: BlockState, l: Seq<char>) -> BlockState {
    let s1 = close_ol(close_ul(flush(kind, s)));
    let s2 = if s1.bq {
        s1
    } else {
        BlockState { bq: true, out: s1.out + "<blockquote>\n"@, ..s1 }
    };
    emit(s2, "<p>"@ + inline_markup(kind, quote_text(l)) + "</p>\n"@)
}

/// A line that is no rule, heading or blockquote line, once an open blockquote is closed.
pub open spec fn list_or_text_step(kind: Escape, s1: BlockState, l: Seq<char>) -> BlockState {
    if is_bullet(l) {
        let s2 = close_ol(flush(kind, s1));
        let s3 = if s2.ul {
            s2
        } else {
            BlockState { ul: true, out: s2.out + "<ul>\n"@, ..s2 }
        };
        emit(s3, item_html(inline_markup(kind, trim(l.skip(2)))))
    } else {
        let s2 = if s1.ul && l.len() > 0 {
            close_ul(s1)
        } else {
            s1
        };
        match ordered_item(l) {
            Some(rest) => {
                let s3 = close_ul(flush(kind, s2));
                let s4 = if s3.ol {
                    s3
                } else {
                    BlockState { ol: true, out: s3.out + "<ol>\n"@, ..s3 }
                };
                emit(s4, item_html(inline_markup(kind, rest)))
            },
            None => {
                let s3 = if s2.ol && l.len() > 0 {
                    close_ol(s2)
                } else {
                    s2
                };
                if l.len() == 0 {
                    close_ol(close_ul(flush(kind, s3)))
                } else {
                    BlockState { buf: s3.buf.push(l), ..s3 }
                }
            },
        }
    }
}

/// The parser after one more source line, tested in this order: rule, heading,
/// blockquote, unordered item, ordered item, blank line, paragraph text.
pub open spec fn step(kind: Escape, s: BlockState, line: Seq<char>) -> BlockState {
    let l = trim(line);
    if is_rule(l) {
        emit(close_all(flush(kind, s)), "<hr />\n"@)
    } else if is_heading(l) {
        heading_step(kind, s, l)
    } else if is_quote(l) {
        quote_step(kind, s, l)
    } else {
        let s1 = if s.bq {
            BlockState { bq: false, out: s.out + "</blockquote>\n"@, ..s }
        } else {
            s
        };
        list_or_text_step(kind, s1, l)
    }
}

/// The parser after the given source lines.
pub open spec fn run(kind: Escape, ls: Seq<Seq<char>>) -> BlockState
    decreases ls.len(),
{
    if ls.len() == 0 {
        initial_state()
    } else {
        step(kind, run(kind, ls.drop_last()), ls.last())
    }
}

/// The HTML (`Escape::Html`) or XHTML (`Escape::Xml`) rendering of a chapter body.
pub open spec fn render_markup(kind: Escape, text: Seq<char>) -> Seq<char> {
    close_all(flush(kind, run(kind, lines(text)))).out
}

/// The parser state that the executable renderer holds.
struct BlockWriter {
    ul: bool,
    ol: bool,
    bq: bool,
    buf: Vec<Vec<char>>,
    out: Vec<char>,
}

impl BlockWriter {
    spec fn state(&self) -> BlockState {
        BlockState { ul: self.ul, ol: self.ol, bq: self.bq, buf: views(self.buf@), out: self.out@ }
    }

    fn flush(&mut self, kind: Escape)
        ensures
            final(self).state() == flush(kind, old(self).state()),
    {
        if self.buf.len() > 0 {
            let joined = join_buffer(&self.buf);
            let converted = inline_markup_chars(kind, &joined);
            push_tagged(&mut self.out, "<p>", &converted, "</p>\n");
            self.buf = Vec::new();
            assert(views(self.buf@) =~= Seq::<Seq<char>>::empty());
        }
    }

    fn close_ul(&mut self)
        ensures
            final(self).state() == close_ul(old(self).state()),
    {
        if self.ul {
            push_str(&mut self.out, "</ul>\n");
            self.ul = false;
        }
    }

    fn close_ol(&mut self)
        ensures
            final(self).state() == close_ol(old(self).state()),
    {
        if self.ol {
            push_str(&mut self.out, "</ol>\n");
            self.ol = false;
        }
    }

    fn close_all(&mut self)
        ensures
            final(self).state() == close_all(old(self).state()),
    {
        let mut closed = String::new();
        close_list_state(&mut self.ul, &mut self.ol, &mut self.bq, &mut closed);
        let cs = to_chars(closed.as_str());
        push_chars(&mut self.out, &cs);
    }

    fn heading(&mut self, kind: Escape, l: &Vec<char>)
        requires
            is_heading(l@),
        ensures
            final(self).state() == heading_step(kind, old(self).state(), l@),
    {
        self.flush(kind);
        self.close_all();
        let n = l.len();
        let h = count_hashes(l);
        let level: usize = if h > 6 {
            6
        } else {
            h
        };
        let rest = slice_chars(l, level, n);
        let text = trim_chars(&rest);
        let converted = inline_markup_chars(kind, &text);
        let d = digit_char(level);
        let pre = vec!['<', 'h', d, '>'];
        let post = vec!['<', '/', 'h', d, '>', '\n'];
        assert(pre@ =~= seq!['<', 'h', digit(level as nat), '>']);
        assert(post@ =~= seq!['<', '/', 'h', digit(level as nat), '>', '\n']);
        push_wrapped(&mut self.out, &pre, &converted, &post);
    }

    fn quote(&mut self, kind: Escape, l: &Vec<char>)
        requires
            is_quote(l@),
        ensures
            final(self).state() == quote_step(kind, old(self).state(), l@),
    {
        let n = l.len();
        self.flush(kind);
        self.close_ul();
        self.close_ol();
        if !self.bq {
            push_str(&mut self.out, "<blockquote>\n");
            self.bq = true;
        }
        let text = if n == 1 {
            Vec::new()
        } else {
            let rest = slice_chars(l, 2, n);
            trim_chars(&rest)
        };
        proof {
            if n == 1 {
                assert(l@ =~= seq!['>']);
            } else {
                assert(l@ != seq!['>']);
            }
        }
        assert(text@ =~= quote_text(l@));
        let converted = inline_markup_chars(kind, &text);
        push_tagged(&mut self.out, "<p>", &converted, "</p>\n");
    }

    fn list_or_text(&mut self, kind: Escape, l: Vec<char>)
        ensures
            final(self).state() == list_or_text_step(kind, old(self).state(), l@),
    {
        let n = l.len();
        if n >= 2 && (l[0] == '-' || l[0] == '*') && l[1] == ' ' {
            self.flush(kind);
            self.close_ol();
            if !self.ul {
                push_str(&mut self.out, "<ul>\n");
                self.ul = true;
            }
            let rest = slice_chars(&l, 2, n);
            let text = trim_chars(&rest);
            let converted = inline_markup_chars(kind, &text);
            push_tagged(&mut self.out, "<li>", &converted, "</li>\n");
        } else {
            if self.ul && n > 0 {
                self.close_ul();
            }
            match ordered_item_chars(&l) {
                Some(rest) => {
                    self.flush(kind);
                    self.close_ul();
                    if !self.ol {
                        push_str(&mut self.out, "<ol>\n");
                        self.ol = true;
                    }
                    let converted = inline_markup_chars(kind, &rest);
                    push_tagged(&mut self.out, "<li>", &converted, "</li>\n");
                },
                None => {
                    if self.ol && n > 0 {
                        self.close_ol();
                    }
                    if n == 0 {
                        self.flush(kind);
                        self.close_ul();
                        self.close_ol();
                    } else {
                        let ghost b = views(self.buf@);
                        self.buf.push(l);
                        assert(views(self.buf@) =~= b.push(l@));
                    }
                },
            }
        }
    }

    fn step(&mut self, kind: Escape, line: &Vec<char>)
        ensures
            final(self).state() == step(kind, old(self).state(), line@),
    {
        let l = trim_chars(line);
        let n = l.len();
        if is_rule_line(&l) {
            self.flush(kind);
            self.close_all();
            push_str(&mut self.out, "<hr />\n");
        } else if n > 0 && l[0] == '#' {
            self.heading(kind, &l);
        } else if (n >= 2 && l[0] == '>' && l[1] == ' ') || (n == 1 && l[0] == '>') {
            proof {
                if n == 1 {
                    assert(l@ =~= seq!['>']);
                }
            }
            self.quote(kind, &l);
        } else {
            proof {
                if n == 1 {
                    assert(l@ != seq!['>']);
                }
            }
            if self.bq {
                push_str(&mut self.out, "</blockquote>\n");
                self.bq = false;
            }
            self.list_or_text(kind, l);
        }
    }
}

/// Appends `pre`, `t` and `post` to `out`.
pub fn push_wrapped(out: &mut Vec<char>, pre: &Vec<char>, t: &Vec<char>, post: &Vec<char>)
    ensures
        final(out)@ == old(out)@ + (pre@ + t@ + post@),
{
    push_chars(out, pre);
    push_chars(out, t);
    push_chars(out, post);
    assert(out@ =~= old(out)@ + (pre@ + t@ + post@));
}

/// Appends `pre`, `t` and `post` to `out`.
pub fn push_tagged(out: &mut Vec<char>, pre: &str, t: &Vec<char>, post: &str)
    ensures
        final(out)@ == old(out)@ + (pre@ + t@ + post@),
{
    let a = to_chars(pre);
    let b = to_chars(post);
    push_wrapped(out, &a, t, &b);
}

/// The buffered lines joined by line feeds.
fn join_buffer(b: &Vec<Vec<char>>) -> (r: Vec<char>)
    ensures
        r@ == join_lines(views(b@)),
{
    let mut out: Vec<char> = Vec::new();
    let mut i: usize = 0;
    while i < b.len()
        invariant
            i <= b@.len(),
            out@ == join_lines(views(b@).take(i as int)),
        decreases b@.len() - i,
    {
        if i > 0 {
            out.push('\n');
        }
        push_chars(&mut out, &b[i]);
        let ghost pre = views(b@).take(i as int);
        i = i + 1;
        assert(views(b@).take(i as int).drop_last() =~= pre);
        assert(views(b@).take(i as int).last() == b@[i - 1]@);
    }
    assert(views(b@).take(b@.len() as int) =~= views(b@));
    out
}

/// Whether the trimmed line is a horizontal rule.
pub fn is_rule_line(l: &Vec<char>) -> (r: bool)
    ensures
        r == is_rule(l@),
{
    if l.len() != 3 {
        return false;
    }
    let c = l[0];
    let r = (c == '-' || c == '*' || c == '_') && l[1] == c && l[2] == c;
    proof {
        if r {
            if c == '-' {
                assert(l@ =~= seq!['-', '-', '-']);
            } else if c == '*' {
                assert(l@ =~= seq!['*', '*', '*']);
            } else {
                assert(l@ =~= seq!['_', '_', '_']);
            }
        }
    }
    r
}

/// The number of `#` characters that `l` begins with.
pub fn count_hashes(l: &Vec<char>) -> (r: usize)
    ensures
        r == leading_hashes(l@),
        r <= l@.len(),
{
    let mut i: usize = 0;
    while i < l.len() && l[i] == '#'
        invariant
            i <= l@.len(),
            forall|j: int| 0 <= j < i ==> l@[j] == '#',
        decreases l@.len() - i,
    {
        i = i + 1;
    }
    proof {
        lemma_leading_hashes(l@, i as int);
    }
    i
}

proof fn lemma_leading_hashes(l: Seq<char>, i: int)
    requires
        0 <= i <= l.len(),
        forall|j: int| 0 <= j < i ==> l[j] == '#',
        i == l.len() || l[i] != '#',
    ensures
        leading_hashes(l) == i,
    decreases i,
{
    if i > 0 {
        lemma_leading_hashes(l.skip(1), i - 1);
    }
}

proof fn lemma_leading_digits(l: Seq<char>, i: int)
    requires
        0 <= i <= l.len(),
        forall|j: int| 0 <= j < i ==> is_digit(#[trigger] l[j]),
        i == l.len() || !is_digit(l[i]),
    ensures
        leading_digits(l) == i,
    decreases i,
{
    if i > 0 {
        assert(is_digit(l[0]));
        assert forall|j: int| 0 <= j < i - 1 implies is_digit(#[trigger] l.skip(1)[j]) by {
            assert(is_digit(l[j + 1]));
        }
        lemma_leading_digits(l.skip(1), i - 1);
    }
}

/// The character of the decimal digit `d`.
fn digit_char(d: usize) -> (c: char)
    requires
        d < 10,
    ensures
        c == digit(d as nat),
{
    if d == 0 {
        '0'
    } else if d == 1 {
        '1'
    } else if d == 2 {
        '2'
    } else if d == 3 {
        '3'
    } else if d == 4 {
        '4'
    } else if d == 5 {
        '5'
    } else if d == 6 {
        '6'
    } else if d == 7 {
        '7'
    } else if d == 8 {
        '8'
    } else {
        '9'
    }
}

/// The number of ASCII digits that `l` begins with.
fn count_digits(l: &Vec<char>) -> (r: usize)
    ensures
        r == leading_digits(l@),
        r <= l@.len(),
{
    let mut i: usize = 0;
    while i < l.len() && '0' <= l[i] && l[i] <= '9'
        invariant
            i <= l@.len(),
            forall|j: int| 0 <= j < i ==> is_digit(#[trigger] l@[j]),
        decreases l@.len() - i,
    {
        i = i + 1;
    }
    proof {
        lemma_leading_digits(l@, i as int);
    }
    i
}

/// The text of an ordered list item `<digits>. <rest>`, trimmed.
pub fn ordered_item_chars(l: &Vec<char>) -> (r: Option<Vec<char>>)
    ensures
        r matches Some(v) ==> ordered_item(l@) == Some(v@),
        r is None ==> ordered_item(l@) is None,
{
    let k = count_digits(l);
    if k > 0 && k < l.len() && l.len() - k >= 2 && l[k] == '.' && l[k + 1] == ' ' {
        let rest = slice_chars(l, k + 2, l.len());
        Some(trim_chars(&rest))
    } else {
        None
    }
}

/// Parses an ordered list item like `1. text` and returns its text, trimmed.
pub fn parse_ordered_list_item(line: &str) -> (r: Option<String>)
    ensures
        r matches Some(s) ==> ordered_item(line@) == Some(s@),
        r is None ==> ordered_item(line@) is None,
{
    let l = to_chars(line);
    match ordered_item_chars(&l) {
        Some(v) => Some(string_of(&v)),
        None => None,
    }
}

/// Appends the closing tags of the open lists and blockquote to `html` and marks them closed.
pub fn close_list_state(in_ul: &mut bool, in_ol: &mut bool, in_bq: &mut bool, html: &mut String)
    ensures
        final(html)@ == old(html)@ + closing_tags(*old(in_ul), *old(in_ol), *old(in_bq)),
        !*final(in_ul),
        !*final(in_ol),
        !*final(in_bq),
{
    if *in_ul {
        html.append("</ul>\n");
        *in_ul = false;
    }
    if *in_ol {
        html.append("</ol>\n");
        *in_ol = false;
    }
    if *in_bq {
        html.append("</blockquote>\n");
        *in_bq = false;
    }
}

/// Renders a chapter body as HTML (`Escape::Html`) or XHTML (`Escape::Xml`) characters.
pub fn render_markup_chars(kind: Escape, text: &Vec<char>) -> (r: Vec<char>)
    ensures
        r@ == render_markup(kind, text@),
{
    let ls = split_lines(text);
    let mut w = BlockWriter { ul: false, ol: false, bq: false, buf: Vec::new(), out: Vec::new() };
    assert(views(w.buf@) =~= Seq::<Seq<char>>::empty());
    let mut i: usize = 0;
    while i < ls.len()
        invariant
            i <= ls@.len(),
            views(ls@) == lines(text@),
            w.state() == run(kind, views(ls@).take(i as int)),
        decreases ls@.len() - i,
    {
        w.step(kind, &ls[i]);
        let ghost pre = views(ls@).take(i as int);
        i = i + 1;
        assert(views(ls@).take(i as int).drop_last() =~= pre);
        assert(views(ls@).take(i as int).last() == ls@[i - 1]@);
    }
    assert(views(ls@).take(ls@.len() as int) =~= views(ls@));
    w.flush(kind);
    w.close_all();
    w.out
}

/// Renders a chapter body as HTML: headings, blockquotes, lists, rules and paragraphs.
pub fn markdown_to_html(text: &str) -> (r: String)
    ensures
        r@ == render_markup(Escape::Html, text@),
{
    let t = to_chars(text);
    string_of(&render_markup_chars(Escape::Html, &t))
}

/// Renders a chapter body as XHTML for an EPUB chapter document.
pub fn markdown_to_xhtml(text: &str) -> (r: String)
    ensures
        r@ == render_markup(Escape::Xml, text@),
{
    let t = to_chars(text);
    string_of(&render_markup_chars(Escape::Xml, &t))
}

} // verus!
