use vstd::prelude::*;

use crate::text::{push_chars, push_str, string_of, to_chars};

verus! {

/// The escaping rules of the three markup targets.
#[derive(Clone, Copy, PartialEq, Eq, Debug, Structural)]
pub enum Escape {
    /// `&`, `<` and `>` become entities.
    Html,
    /// As `Html`, and the two quote characters too.
    Xml,
    /// The ten characters that LaTeX treats specially become commands or escapes.
    Latex,
}

/// What one character becomes under an escaping rule.
pub open spec fn escape_char(kind: Escape, c: char) -> Seq<char> {
    match kind {
        Escape::Html => {
            if c == '&' {
                "&amp;"@
            } else if c == '<' {
                "&lt;"@
            } else if c == '>' {
                "&gt;"@
            } else {
                seq![c]
            }
        },
        Escape::Xml => {
            if c == '&' {
                "&amp;"@
            } else if c == '<' {
                "&lt;"@
            } else if c == '>' {
                "&gt;"@
            } else if c == '"' {
                "&quot;"@
            } else if c == '\'' {
                "&apos;"@
            } else {
                seq![c]
            }
        },
        Escape::Latex => {
            if c == '\\' {
                "\\textbackslash{}"@
            } else if c == '&' {
                "\\&"@
            } else if c == '%' {
                "\\%"@
            } else if c == '$' {
                "\\$"@
            } else if c == '#' {
                "\\#"@
            } else if c == '_' {
                "\\_"@
            } else if c == '{' {
                "\\{"@
            } else if c == '}' {
                "\\}"@
            } else if c == '~' {
                "\\textasciitilde{}"@
            } else if c == '^' {
                "\\textasciicircum{}"@
            } else {
                seq![c]
            }
        },
    }
}

/// The text with each character replaced by what `escape_char` makes of it.
pub open spec fn escape(kind: Escape, t: Seq<char>) -> Seq<char>
    decreases t.len(),
{
    if t.len() == 0 {
        Seq::empty()
    } else {
        escape(kind, t.drop_last()) + escape_char(kind, t.last())
    }
}

/// Whether `d` occurs in `t` at position `i`.
pub open spec fn occurs_at(t: Seq<char>, i: int, d: Seq<char>) -> bool {
    0 <= i && i + d.len() <= t.len() && t.subrange(i, i + d.len()) == d
}

/// Each occurrence of the delimiter `d`, scanning from the left without overlap, replaced
/// alternately by `open` and `close`; `inside` says whether a span is open at the start.
/// An odd count leaves the last span open.
pub open spec fn toggle(
    t: Seq<char>,
    d: Seq<char>,
    open: Seq<char>,
    close: Seq<char>,
    inside: bool,
) -> Seq<char>
    decreases t.len(),
{
    if t.len() == 0 {
        Seq::empty()
    } else if d.len() > 0 && occurs_at(t, 0, d) {
        (if inside {
            close
        } else {
            open
        }) + toggle(t.skip(d.len() as int), d, open, close, !inside)
    } else {
        seq![t[0]] + toggle(t.skip(1), d, open, close, inside)
    }
}

/// Inline markup in HTML or XHTML: escaping, then bold, italic and code spans, in that order.
pub open spec fn inline_markup(kind: Escape, t: Seq<char>) -> Seq<char> {
    let e = escape(kind, t);
    let b1 = toggle(e, "**"@, "<strong>"@, "</strong>"@, false);
    let b2 = toggle(b1, "__"@, "<strong>"@, "</strong>"@, false);
    let i1 = toggle(b2, "*"@, "<em>"@, "</em>"@, false);
    let i2 = toggle(i1, "_"@, "<em>"@, "</em>"@, false);
    toggle(i2, "`"@, "<code>"@, "</code>"@, false)
}

/// Inline markup in LaTeX, on text that is already escaped: an underscore then reads `\_`.
pub open spec fn inline_latex(t: Seq<char>) -> Seq<char> {
    let b1 = toggle(t, "**"@, "\\textbf{"@, "}"@, false);
    let b2 = toggle(b1, "\\_\\_"@, "\\textbf{"@, "}"@, false);
    let i1 = toggle(b2, "*"@, "\\emph{"@, "}"@, false);
    let i2 = toggle(i1, "\\_"@, "\\emph{"@, "}"@, false);
    toggle(i2, "`"@, "\\texttt{"@, "}"@, false)
}

/// `t` escaped under `kind`.
pub fn escape_chars(kind: Escape, t: &Vec<char>) -> (r: Vec<char>)
    ensures
        r@ == escape(kind, t@),
{
    let mut out: Vec<char> = Vec::new();
    let mut i: usize = 0;
    while i < t.len()
        invariant
            i <= t@.len(),
            out@ == escape(kind, t@.take(i as int)),
        decreases t@.len() - i,
    {
        let c = t[i];
        match kind {
            Escape::Html => {
                if c == '&' {
                    push_str(&mut out, "&amp;");
                } else if c == '<' {
                    push_str(&mut out, "&lt;");
                } else if c == '>' {
                    push_str(&mut out, "&gt;");
                } else {
                    out.push(c);
                }
            },
            Escape::Xml => {
                if c == '&' {
                    push_str(&mut out, "&amp;");
                } else if c == '<' {
                    push_str(&mut out, "&lt;");
                } else if c == '>' {
                    push_str(&mut out, "&gt;");
                } else if c == '"' {
                    push_str(&mut out, "&quot;");
                } else if c == '\'' {
                    push_str(&mut out, "&apos;");
                } else {
                    out.push(c);
                }
            },
            Escape::Latex => {
                if c == '\\' {
                    push_str(&mut out, "\\textbackslash{}");
                } else if c == '&' {
                    push_str(&mut out, "\\&");
                } else if c == '%' {
                    push_str(&mut out, "\\%");
                } else if c == '$' {
                    push_str(&mut out, "\\$");
                } else if c == '#' {
                    push_str(&mut out, "\\#");
                } else if c == '_' {
                    push_str(&mut out, "\\_");
                } else if c == '{' {
                    push_str(&mut out, "\\{");
                } else if c == '}' {
                    push_str(&mut out, "\\}");
                } else if c == '~' {
                    push_str(&mut out, "\\textasciitilde{}");
                } else if c == '^' {
                    push_str(&mut out, "\\textasciicircum{}");
                } else {
                    out.push(c);
                }
            },
        }
        let ghost pre = t@.take(i as int);
        i = i + 1;
        assert(t@.take(i as int).drop_last() == pre);
        assert(out@ =~= escape(kind, t@.take(i as int)));
    }
    assert(t@.take(t@.len() as int) == t@);
    out
}

/// Escapes `&`, `<` and `>` for HTML text.
pub fn html_escape(text: &str) -> (r: String)
    ensures
        r@ == escape(Escape::Html, text@),
{
    let t = to_chars(text);
    let out = escape_chars(Escape::Html, &t);
    string_of(&out)
}

/// Escapes `&`, `<`, `>`, `"` and `'` for XML text.
pub fn xml_escape(text: &str) -> (r: String)
    ensures
        r@ == escape(Escape::Xml, text@),
{
    let t = to_chars(text);
    let out = escape_chars(Escape::Xml, &t);
    string_of(&out)
}

/// Escapes the characters that LaTeX treats specially, each one once.
pub fn latex_escape(text: &str) -> (r: String)
    ensures
        r@ == escape(Escape::Latex, text@),
{
    let t = to_chars(text);
    let out = escape_chars(Escape::Latex, &t);
    string_of(&out)
}

/// Whether `d` occurs in `t` at position `i`.
pub fn occurs(t: &Vec<char>, i: usize, d: &Vec<char>) -> (r: bool)
    requires
        i <= t@.len(),
    ensures
        r == occurs_at(t@, i as int, d@),
{
    if d.len() > t.len() - i {
        return false;
    }
    let mut k: usize = 0;
    while k < d.len()
        invariant
            k <= d@.len(),
            i + d@.len() <= t.len(),
            forall|j: int| 0 <= j < k ==> t@[i + j] == d@[j],
        decreases d@.len() - k,
    {
        if t[i + k] != d[k] {
            assert(t@.subrange(i as int, i + d@.len())[k as int] != d@[k as int]);
            return false;
        }
        k = k + 1;
    }
    assert(t@.subrange(i as int, i + d@.len()) =~= d@);
    true
}

/// Replaces the occurrences of `d` in `t` alternately by `open` and `close`.
pub fn toggle_chars(t: &Vec<char>, d: &Vec<char>, open: &Vec<char>, close: &Vec<char>) -> (r: Vec<
    char,
>)
    requires
        d@.len() > 0,
    ensures
        r@ == toggle(t@, d@, open@, close@, false),
{
    let mut out: Vec<char> = Vec::new();
    let mut inside = false;
    let mut i: usize = 0;
    assert(t@.skip(0) == t@);
    while i < t.len()
        invariant
            i <= t@.len(),
            d@.len() > 0,
            out@ + toggle(t@.skip(i as int), d@, open@, close@, inside) == toggle(
                t@,
                d@,
                open@,
                close@,
                false,
            ),
        decreases t@.len() - i,
    {
        let ghost rest = t@.skip(i as int);
        if occurs(t, i, d) {
            assert(rest.subrange(0, d@.len() as int) == t@.subrange(i as int, i + d@.len()));
            assert(rest.skip(d@.len() as int) == t@.skip(i + d@.len()));
            if inside {
                push_chars(&mut out, close);
            } else {
                push_chars(&mut out, open);
            }
            inside = !inside;
            i = i + d.len();
        } else {
            assert(!occurs_at(rest, 0, d@)) by {
                if occurs_at(rest, 0, d@) {
                    assert(rest.subrange(0, d@.len() as int) == t@.subrange(
                        i as int,
                        i + d@.len(),
                    ));
                }
            }
            assert(rest.skip(1) == t@.skip(i + 1));
            out.push(t[i]);
            i = i + 1;
        }
    }
    assert(t@.skip(t@.len() as int) == Seq::<char>::empty());
    out
}

/// Replaces the occurrences of `delimiter` in `text`, scanning from the left, alternately
/// by `open` and `close`.
pub fn replace_delimited(text: &str, delimiter: &str, open: &str, close: &str) -> (r: String)
    requires
        delimiter@.len() > 0,
    ensures
        r@ == toggle(text@, delimiter@, open@, close@, false),
{
    let t = to_chars(text);
    let d = to_chars(delimiter);
    let o = to_chars(open);
    let c = to_chars(close);
    let out = toggle_chars(&t, &d, &o, &c);
    string_of(&out)
}

/// One toggling pass with delimiter and tags given as literals.
fn toggle_lit(t: &Vec<char>, d: &str, open: &str, close: &str) -> (r: Vec<char>)
    requires
        d@.len() > 0,
    ensures
        r@ == toggle(t@, d@, open@, close@, false),
{
    let dv = to_chars(d);
    let ov = to_chars(open);
    let cv = to_chars(close);
    toggle_chars(t, &dv, &ov, &cv)
}

/// Inline markup of `t` in HTML (`Escape::Html`) or XHTML (`Escape::Xml`).
pub fn inline_markup_chars(kind: Escape, t: &Vec<char>) -> (r: Vec<char>)
    ensures
        r@ == inline_markup(kind, t@),
{
    proof {
        reveal_strlit("**");
        reveal_strlit("__");
        reveal_strlit("*");
        reveal_strlit("_");
        reveal_strlit("`");
    }
    let e = escape_chars(kind, t);
    let b1 = toggle_lit(&e, "**", "<strong>", "</strong>");
    let b2 = toggle_lit(&b1, "__", "<strong>", "</strong>");
    let i1 = toggle_lit(&b2, "*", "<em>", "</em>");
    let i2 = toggle_lit(&i1, "_", "<em>", "</em>");
    toggle_lit(&i2, "`", "<code>", "</code>")
}

/// Inline LaTeX markup of already escaped text.
pub fn inline_latex_chars(t: &Vec<char>) -> (r: Vec<char>)
    ensures
        r@ == inline_latex(t@),
{
    proof {
        reveal_strlit("**");
        reveal_strlit("\\_\\_");
        reveal_strlit("*");
        reveal_strlit("\\_");
        reveal_strlit("`");
    }
    let b1 = toggle_lit(t, "**", "\\textbf{", "}");
    let b2 = toggle_lit(&b1, "\\_\\_", "\\textbf{", "}");
    let i1 = toggle_lit(&b2, "*", "\\emph{", "}");
    let i2 = toggle_lit(&i1, "\\_", "\\emph{", "}");
    toggle_lit(&i2, "`", "\\texttt{", "}")
}

/// Converts bold, italic and code spans of `text` to HTML, after escaping it.
pub fn inline_markdown_to_html(text: &str) -> (r: String)
    ensures
        r@ == inline_markup(Escape::Html, text@),
{
    let t = to_chars(text);
    string_of(&inline_markup_chars(Escape::Html, &t))
}

/// Converts bold, italic and code spans of `text` to XHTML, after escaping it for XML.
pub fn inline_markdown_to_xhtml(text: &str) -> (r: String)
    ensures
        r@ == inline_markup(Escape::Xml, text@),
{
    let t = to_chars(text);
    string_of(&inline_markup_chars(Escape::Xml, &t))
}

/// Converts bold, italic and code spans of already escaped `text` to LaTeX commands.
pub fn inline_markdown_to_latex(text: &str) -> (r: String)
    ensures
        r@ == inline_latex(text@),
{
    let t = to_chars(text);
    string_of(&inline_latex_chars(&t))
}

} // verus!
