use quillborn::blocks::{close_list_state, markdown_to_html, markdown_to_xhtml, parse_ordered_list_item};
use quillborn::chapter::count_words;
use quillborn::inline::{
    html_escape, inline_markdown_to_html, inline_markdown_to_latex, inline_markdown_to_xhtml,
    latex_escape, replace_delimited, xml_escape,
};
use quillborn::latex::markdown_to_latex;
use quillborn::plain::strip_markdown;

#[test]
fn html_block_structure() {
    let text = "# Title\n\nHello **world**\nsecond line\n\n- a\n- b\n\n1. one\n2. two\n> quote\n---\n";
    let expected = "<h1>Title</h1>\n<p>Hello <strong>world</strong>\nsecond line</p>\n<ul>\n<li>a</li>\n<li>b</li>\n</ul>\n<ol>\n<li>one</li>\n<li>two</li>\n</ol>\n<blockquote>\n<p>quote</p>\n</blockquote>\n<hr />\n";
    assert_eq!(markdown_to_html(text), expected);
}

#[test]
fn html_heading_levels_clamp_at_six() {
    assert_eq!(markdown_to_html("### Three"), "<h3>Three</h3>\n");
    assert_eq!(markdown_to_html("######## Eight"), "<h6>## Eight</h6>\n");
}

#[test]
fn html_bare_quote_and_list_switch() {
    assert_eq!(markdown_to_html(">\n> x"), "<blockquote>\n<p></p>\n<p>x</p>\n</blockquote>\n");
    assert_eq!(markdown_to_html("- a\n1. b"), "<ul>\n<li>a</li>\n</ul>\n<ol>\n<li>b</li>\n</ol>\n");
    assert_eq!(markdown_to_html("- a\ntext"), "<ul>\n<li>a</li>\n</ul>\n<p>text</p>\n");
}

#[test]
fn html_empty_body() {
    assert_eq!(markdown_to_html(""), "");
    assert_eq!(markdown_to_html("\n\n"), "");
}

#[test]
fn delimiter_toggling_in_html() {
    let text = "**bold** and *italic* and `code`";
    let expected = "<strong>bold</strong> and <em>italic</em> and <code>code</code>";
    assert_eq!(inline_markdown_to_html(text), expected);
    assert_eq!(markdown_to_html(text), format!("<p>{}</p>\n", expected));
}

#[test]
fn odd_delimiter_leaves_span_open() {
    assert_eq!(replace_delimited("a*b*c*d", "*", "<i>", "</i>"), "a<i>b</i>c<i>d");
    assert_eq!(inline_markdown_to_html("__x__ _y"), "<strong>x</strong> <em>y");
}

#[test]
fn html_escaping_keeps_quotes() {
    assert_eq!(html_escape("A <b> & \"q\""), "A &lt;b&gt; &amp; \"q\"");
}

#[test]
fn xml_escaping_escapes_quotes() {
    assert_eq!(xml_escape("A <b> & \"q\" 'x'"), "A &lt;b&gt; &amp; &quot;q&quot; &apos;x&apos;");
    assert_eq!(inline_markdown_to_xhtml("<*a*>"), "&lt;<em>a</em>&gt;");
}

#[test]
fn xhtml_uses_xml_escaping() {
    assert_eq!(markdown_to_xhtml("Tom's \"day\"\n---"), "<p>Tom&apos;s &quot;day&quot;</p>\n<hr />\n");
}

#[test]
fn latex_escaping_once_per_character() {
    assert_eq!(
        latex_escape("50% of $x_1 {a} ~ ^ \\ # &"),
        "50\\% of \\$x\\_1 \\{a\\} \\textasciitilde{} \\textasciicircum{} \\textbackslash{} \\# \\&"
    );
}

#[test]
fn latex_list_items_stand_alone() {
    assert_eq!(
        markdown_to_latex("- one\n- two"),
        "\\begin{itemize}\n\\item one\n\\end{itemize}\n\\begin{itemize}\n\\item two\n\\end{itemize}\n"
    );
    assert_eq!(
        markdown_to_latex("1. one"),
        "\\begin{enumerate}\n\\item one\n\\end{enumerate}\n"
    );
}

#[test]
fn latex_quote_closes_on_blank_line() {
    assert_eq!(markdown_to_latex("> a\n\nb"), "\\begin{quote}\na\n\\end{quote}\n\nb\n");
    assert_eq!(markdown_to_latex("> a"), "\\begin{quote}\na\n\\end{quote}\n");
}

#[test]
fn latex_headings_and_rule() {
    assert_eq!(markdown_to_latex("# A & B"), "\\section{A \\& B}\n\n");
    assert_eq!(markdown_to_latex("## Intro"), "\\subsection{Intro}\n\n");
    assert_eq!(markdown_to_latex("### Deeper"), "\\subsubsection{Deeper}\n\n");
    assert_eq!(markdown_to_latex("#### Deep"), "\\paragraph{Deep}\n\n");
    assert_eq!(
        markdown_to_latex("***"),
        "\\bigskip\\noindent\\rule{\\textwidth}{0.4pt}\\bigskip\n\n"
    );
}

#[test]
fn latex_inline_spans_after_escaping() {
    assert_eq!(markdown_to_latex("_a_ and **b**"), "\\emph{a} and \\textbf{b}\n");
    assert_eq!(inline_markdown_to_latex("\\_\\_x\\_\\_ `c`"), "\\textbf{x} \\texttt{c}");
}

#[test]
fn rendering_twice_gives_the_same_output() {
    let body = "# H\n> q\n- a\ntext *x*";
    assert_eq!(markdown_to_html(body), markdown_to_html(body));
    assert_eq!(markdown_to_xhtml(body), markdown_to_xhtml(body));
    assert_eq!(markdown_to_latex(body), markdown_to_latex(body));
}

#[test]
fn strip_markdown_removes_markers() {
    assert_eq!(strip_markdown("# Title\n**bold** _it_\n"), "Title\nbold it\n");
    assert_eq!(strip_markdown("  ## Two  \nplain"), "Two\nplain\n");
}

#[test]
fn ordered_item_parsing() {
    assert_eq!(parse_ordered_list_item("12. item "), Some("item".to_string()));
    assert_eq!(parse_ordered_list_item("1.item"), None);
    assert_eq!(parse_ordered_list_item("a. b"), None);
    assert_eq!(parse_ordered_list_item(". x"), None);
}

#[test]
fn closing_open_blocks() {
    let mut ul = true;
    let mut ol = false;
    let mut bq = true;
    let mut out = String::from("x");
    close_list_state(&mut ul, &mut ol, &mut bq, &mut out);
    assert_eq!(out, "x</ul>\n</blockquote>\n");
    assert!(!ul && !ol && !bq);
}

#[test]
fn word_counting() {
    assert_eq!(count_words("  hello   world\n\tagain "), 3);
    assert_eq!(count_words(""), 0);
    assert_eq!(count_words(" \n "), 0);
}
