use vstd::prelude::*;

use crate::blocks::{
    render_markup,
    count_hashes, is_bullet, is_heading, is_quote, is_rule, is_rule_line, leading_hashes,
    ordered_item, ordered_item_chars, push_tagged, quote_text,
};
use crate::inline::{escape, escape_chars, inline_latex, inline_latex_chars, Escape};
use crate::text::{lines, push_chars, push_str, slice_chars, split_lines, string_of, to_chars, trim,
    trim_chars, views};

verus! {

/// Text escaped for LaTeX and its bold, italic and code spans converted.
pub open spec fn latex_text(t: Seq<char>) -> Seq<char> {
    inline_latex(escape(Escape::Latex, t))
}

/// The sectioning command that opens a heading of the given level.
pub open spec fn section_command(level: nat) -> Seq<char> {
    if level == 1 {
        "\\section{"@
    } else if level == 2 {
        "\\subsection{"@
    } else if level == 3 {
        "\\subsubsection{"@
    } else {
        "\\paragraph{"@
    }
}

/// The end of an open quote environment, if one is open.
pub open spec fn end_quote(q: bool) -> Seq<char> {
    if q {
        "\\end{quote}\n"@
    } else {
        Seq::empty()
    }
}

/// The LaTeX written for one source line after what came before, given whether a quote
/// environment is open; the result says whether one is open afterwards.
pub open spec fn latex_step(q: bool, line: Seq<char>) -> (bool, Seq<char>) {
    let l = trim(line);
    if is_rule(l) {
        (false, end_quote(q) + "\\bigskip\\noindent\\rule{\\textwidth}{0.4pt}\\bigskip\n\n"@)
    } else if is_heading(l) {
        let level = leading_hashes(l);
        (
            false,
            end_quote(q) + (section_command(level) + latex_text(trim(l.skip(level as int)))
                + "}\n\n"@),
        )
    } else if is_quote(l) {
        (
            true,
            (if q {
                Seq::empty()
            } else {
                "\\begin{quote}\n"@
            }) + (latex_text(quote_text(l)) + seq!['\n']),
        )
    } else if q && l.len() == 0 {
        (false, "\\end{quote}\n\n"@)
    } else {
        (false, end_quote(q) + latex_block(l))
    }
}

/// The LaTeX for a trimmed line that is no rule, heading or blockquote line. Each list
/// item stands in a list environment of its own.
pub open spec fn latex_block(l: Seq<char>) -> Seq<char> {
    if is_bullet(l) {
        "\\begin{itemize}\n\\item "@ + latex_text(trim(l.skip(2))) + "\n\\end{itemize}\n"@
    } else {
        match ordered_item(l) {
            Some(rest) => "\\begin{enumerate}\n\\item "@ + latex_text(rest)
                + "\n\\end{enumerate}\n"@,
            None => if l.len() == 0 {
                seq!['\n']
            } else {
                latex_text(l) + seq!['\n']
            },
        }
    }
}

/// Whether a quote environment is open after the given lines, and the LaTeX written so far.
pub open spec fn latex_run(ls: Seq<Seq<char>>) -> (bool, Seq<char>)
    decreases ls.len(),
{
    if ls.len() == 0 {
        (false, Seq::empty())
    } else {
        let prev = latex_run(ls.drop_last());
        let next = latex_step(prev.0, ls.last());
        (next.0, prev.1 + next.1)
    }
}

/// The LaTeX rendering of a chapter body.
pub open spec fn render_latex(text: Seq<char>) -> Seq<char> {
    let r = latex_run(lines(text));
    r.1 + end_quote(r.0)
}

/// `t` escaped for LaTeX with its spans converted.
fn latex_text_chars(t: &Vec<char>) -> (r: Vec<char>)
    ensures
        r@ == latex_text(t@),
{
    let e = escape_chars(Escape::Latex, t);
    inline_latex_chars(&e)
}

/// Appends the LaTeX for a trimmed line that is no rule, heading or blockquote line.
fn push_latex_block(out: &mut Vec<char>, l: &Vec<char>)
    ensures
        final(out)@ == old(out)@ + latex_block(l@),
{
    let n = l.len();
    if n >= 2 && (l[0] == '-' || l[0] == '*') && l[1] == ' ' {
        let rest = slice_chars(l, 2, n);
        let text = trim_chars(&rest);
        let converted = latex_text_chars(&text);
        push_tagged(out, "\\begin{itemize}\n\\item ", &converted, "\n\\end{itemize}\n");
    } else {
        match ordered_item_chars(l) {
            Some(rest) => {
                let converted = latex_text_chars(&rest);
                push_tagged(out, "\\begin{enumerate}\n\\item ", &converted, "\n\\end{enumerate}\n");
            },
            None => {
                if n == 0 {
                    out.push('\n');
                } else {
                    let converted = latex_text_chars(l);
                    push_chars(out, &converted);
                    out.push('\n');
                    assert(out@ =~= old(out)@ + latex_block(l@));
                }
            },
        }
    }
}

/// The sectioning command for a heading level.
fn section_command_str(level: usize) -> (r: &'static str)
    ensures
        r@ == section_command(level as nat),
{
    if level == 1 {
        "\\section{"
    } else if level == 2 {
        "\\subsection{"
    } else if level == 3 {
        "\\subsubsection{"
    } else {
        "\\paragraph{"
    }
}

/// Appends the LaTeX for one source line; returns whether a quote environment is open after it.
fn push_latex_line(out: &mut Vec<char>, q: bool, line: &Vec<char>) -> (r: bool)
    ensures
        r == latex_step(q, line@).0,
        final(out)@ == old(out)@ + latex_step(q, line@).1,
{
    let l = trim_chars(line);
    let n = l.len();
    if is_rule_line(&l) {
        if q {
            push_str(out, "\\end{quote}\n");
        }
        push_str(out, "\\bigskip\\noindent\\rule{\\textwidth}{0.4pt}\\bigskip\n\n");
        assert(out@ =~= old(out)@ + latex_step(q, line@).1);
        false
    } else if n > 0 && l[0] == '#' {
        if q {
            push_str(out, "\\end{quote}\n");
        }
        let level = count_hashes(&l);
        let rest = slice_chars(&l, level, n);
        let text = trim_chars(&rest);
        let converted = latex_text_chars(&text);
        push_tagged(out, section_command_str(level), &converted, "}\n\n");
        assert(out@ =~= old(out)@ + latex_step(q, line@).1);
        false
    } else if (n >= 2 && l[0] == '>' && l[1] == ' ') || (n == 1 && l[0] == '>') {
        if !q {
            push_str(out, "\\begin{quote}\n");
        }
        let text = if n == 1 {
            Vec::new()
        } else {
            let rest = slice_chars(&l, 2, n);
            trim_chars(&rest)
        };
        proof {
            if n == 1 {
                assert(l@ =~= seq!['>']);
            } else {
                assert(l@ != seq!['>']);
            }
        }
        assert(text@ =~= quote_text(l@));
        let converted = latex_text_chars(&text);
        push_chars(out, &converted);
        out.push('\n');
        assert(out@ =~= old(out)@ + latex_step(q, line@).1);
        true
    } else {
        proof {
            if n == 1 {
                assert(l@ != seq!['>']);
            }
        }
        if q && n == 0 {
            push_str(out, "\\end{quote}\n\n");
        } else {
            if q {
                push_str(out, "\\end{quote}\n");
            }
            push_latex_block(out, &l);
            assert(out@ =~= old(out)@ + latex_step(q, line@).1);
        }
        false
    }
}

/// Renders a chapter body as LaTeX characters.
pub fn render_latex_chars(text: &Vec<char>) -> (r: Vec<char>)
    ensures
        r@ == render_latex(text@),
{
    let ls = split_lines(text);
    let mut out: Vec<char> = Vec::new();
    let mut q = false;
    let mut i: usize = 0;
    while i < ls.len()
        invariant
            i <= ls@.len(),
            views(ls@) == lines(text@),
            (q, out@) == latex_run(views(ls@).take(i as int)),
        decreases ls@.len() - i,
    {
        q = push_latex_line(&mut out, q, &ls[i]);
        let ghost pre = views(ls@).take(i as int);
        i = i + 1;
        assert(views(ls@).take(i as int).drop_last() =~= pre);
        assert(views(ls@).take(i as int).last() == ls@[i - 1]@);
    }
    assert(views(ls@).take(ls@.len() as int) =~= views(ls@));
    if q {
        push_str(&mut out, "\\end{quote}\n");
    }
    out
}

/// Renders a chapter body as LaTeX: sections, quote environments, one list environment
/// per item, rules and text.
pub fn markdown_to_latex(text: &str) -> (r: String)
    ensures
        r@ == render_latex(text@),
{
    let t = to_chars(text);
    string_of(&render_latex_chars(&t))
}

/// Rendering is a function of the body alone: the same body through the same renderer,
/// HTML, XHTML or LaTeX, gives the same output every time.
pub proof fn lemma_rendering_repeatable(body: Seq<char>, again: Seq<char>)
    requires
        again == body,
    ensures
        render_markup(Escape::Html, body) == render_markup(Escape::Html, again),
        render_markup(Escape::Xml, body) == render_markup(Escape::Xml, again),
        render_latex(body) == render_latex(again),
{
}

} // verus!
