use vstd::prelude::*;

use crate::blocks::{render_markup, render_markup_chars};
use crate::chapter::Chapter;
use crate::inline::{escape, escape_char, escape_chars, Escape};
use crate::latex::{render_latex, render_latex_chars};
use crate::plain::{strip_markdown, stripped};
use crate::project::{chapters_from, chapters_under, find_node, id_seq, node_views, ManuscriptNode, ManuscriptStructure, NodeType, ProjectMetadata};
use crate::text::{lines, push_chars, push_str, split_lines, string_of, to_chars, views};

verus! {

/// The start of an HTML document, up to its title.
pub const HTML_HEAD: &'static str = r#"<!DOCTYPE html>
<html lang="en">
<head>
  <meta charset="UTF-8" />
  <meta name="viewport" content="width=device-width, initial-scale=1.0" />
  <title>"#;

/// The end of the HTML head, with its stylesheet, and the start of the body.
pub const HTML_STYLE: &'static str = r#"</title>
  <style>
    :root {
      --bg: #fdf6ec;
      --fg: #3b2f1e;
      --accent: #8b5e3c;
      --muted: #c9b99a;
      --chapter-bg: #fefbf5;
    }

    * {
      margin: 0;
      padding: 0;
      box-sizing: border-box;
    }

    body {
      font-family: "Georgia", "Times New Roman", "Palatino Linotype", serif;
      background-color: var(--bg);
      color: var(--fg);
      line-height: 1.8;
      max-width: 42em;
      margin: 0 auto;
      padding: 2em 1.5em;
    }

    .title-page {
      text-align: center;
      padding: 4em 0 3em;
      border-bottom: 2px solid var(--muted);
      margin-bottom: 3em;
    }

    .title-page h1 {
      font-size: 2.4em;
      color: var(--accent);
      margin-bottom: 0.4em;
      letter-spacing: 0.02em;
    }

    .title-page .author {
      font-size: 1.2em;
      font-style: italic;
      color: var(--accent);
    }

    .chapter {
      margin-bottom: 3em;
      padding-bottom: 2em;
      border-bottom: 1px solid var(--muted);
    }

    .chapter:last-child {
      border-bottom: none;
    }

    h2 {
      font-size: 1.6em;
      color: var(--accent);
      margin-bottom: 1em;
      padding-bottom: 0.3em;
      border-bottom: 1px solid var(--muted);
    }

    h3 { font-size: 1.3em; margin: 1.2em 0 0.6em; }
    h4 { font-size: 1.1em; margin: 1em 0 0.5em; }

    p {
      margin-bottom: 1em;
      text-align: justify;
      text-indent: 1.5em;
    }

    blockquote {
      margin: 1.5em 0;
      padding: 0.8em 1.5em;
      border-left: 4px solid var(--accent);
      background-color: var(--chapter-bg);
      font-style: italic;
    }

    blockquote p {
      text-indent: 0;
      margin-bottom: 0.5em;
    }

    ul, ol {
      margin: 1em 0 1em 2em;
    }

    li {
      margin-bottom: 0.3em;
    }

    hr {
      border: none;
      border-top: 1px solid var(--muted);
      margin: 2em 0;
    }

    code {
      font-family: "Courier New", monospace;
      background: var(--chapter-bg);
      padding: 0.1em 0.3em;
      border-radius: 3px;
    }

    strong {
      font-weight: bold;
    }

    em {
      font-style: italic;
    }

    @media print {
      body {
        background-color: #fff;
        color: #000;
        max-width: none;
        padding: 0;
      }

      .title-page {
        page-break-after: always;
      }

      .chapter {
        page-break-before: always;
        border-bottom: none;
      }

      h2 {
        color: #000;
        border-bottom-color: #999;
      }

      blockquote {
        background-color: #f5f5f5;
        border-left-color: #666;
      }
    }
  </style>
</head>
<body>
"#;

/// The end of an HTML document.
pub const HTML_END: &'static str = r#"</body>
</html>
"#;

/// The LaTeX preamble, up to the title.
pub const LATEX_PREAMBLE: &'static str = r#"\documentclass[12pt]{book}

\usepackage[utf8]{inputenc}
\usepackage[T1]{fontenc}
\usepackage{geometry}
\usepackage{setspace}
\usepackage{parskip}

\geometry{
  a4paper,
  margin=1in
}

\onehalfspacing

\title{"#;

/// The opening of a LaTeX document body.
pub const LATEX_BEGIN: &'static str = "\\begin{document}\n\n\\maketitle\n\\tableofcontents\n\\newpage\n\n";

/// The uppercase form of a text, as `str::to_uppercase` gives it.
pub uninterp spec fn upper_of(s: Seq<char>) -> Seq<char>;

/// Relies on `str::to_uppercase`: the result depends on the characters alone, and an empty
/// text stays empty.
#[verifier::external_body]
fn uppercase(s: &str) -> (r: String)
    ensures
        r@ == upper_of(s@),
        s@.len() == 0 ==> r@.len() == 0,
{
    s.to_uppercase()
}

/// `text` if `cond`, else nothing.
pub open spec fn when(cond: bool, text: Seq<char>) -> Seq<char> {
    if cond {
        text
    } else {
        Seq::empty()
    }
}

/// The markdown of one chapter in the exported document.
pub open spec fn markdown_chapter(c: Chapter) -> Seq<char> {
    "## "@ + c.title@ + "\n\n"@ + c.content@ + "\n\n---\n\n"@
}

/// The plain text of one chapter in the exported document.
pub open spec fn plain_chapter(c: Chapter) -> Seq<char> {
    upper_of(c.title@) + "\n\n"@ + stripped(c.content@) + "\n\n"@
}

/// Each line of `t` indented by six spaces.
pub open spec fn indented(ls: Seq<Seq<char>>) -> Seq<char>
    decreases ls.len(),
{
    if ls.len() == 0 {
        Seq::empty()
    } else {
        indented(ls.drop_last()) + ("      "@ + ls.last() + "\n"@)
    }
}

/// The section of one chapter in the exported HTML document.
pub open spec fn html_chapter(c: Chapter) -> Seq<char> {
    "    <section class=\"chapter\">\n"@ + ("      <h2>"@ + escape(Escape::Html, c.title@) + "</h2>\n"@)
        + indented(lines(render_markup(Escape::Html, c.content@))) + "    </section>\n\n"@
}

/// The LaTeX of one chapter in the exported document.
pub open spec fn latex_chapter(c: Chapter) -> Seq<char> {
    "\\chapter{"@ + escape(Escape::Latex, c.title@) + "}\n\n"@ + render_latex(c.content@) + "\n"@
}

/// What the given function makes of each chapter, in order.
pub open spec fn each_chapter(chs: Seq<Chapter>, f: spec_fn(Chapter) -> Seq<char>) -> Seq<char>
    decreases chs.len(),
{
    if chs.len() == 0 {
        Seq::empty()
    } else {
        each_chapter(chs.drop_last(), f) + f(chs.last())
    }
}

/// The exported markdown document.
pub open spec fn markdown_document(m: ProjectMetadata, chs: Seq<Chapter>) -> Seq<char> {
    "# "@ + m.title@ + "\n\n"@ + when(m.author@.len() > 0, "*By "@ + m.author@ + "*\n\n"@)
        + "---\n\n"@ + each_chapter(chs, |c: Chapter| markdown_chapter(c))
}

/// The exported plain-text document.
pub open spec fn plain_document(m: ProjectMetadata, chs: Seq<Chapter>) -> Seq<char> {
    upper_of(m.title@) + "\n"@ + when(m.author@.len() > 0, "by "@ + m.author@) + "\n\n"@
        + each_chapter(chs, |c: Chapter| plain_chapter(c))
}

/// The title header of the exported HTML document, from the escaped title and author.
pub open spec fn html_header(title: Seq<char>, author: Seq<char>) -> Seq<char> {
    "    <header class=\"title-page\">\n"@ + ("      <h1>"@ + title + "</h1>\n"@) + when(
        author.len() > 0,
        "      <p class=\"author\">"@ + author + "</p>\n"@,
    ) + "    </header>\n\n"@
}

/// The exported HTML document.
pub open spec fn html_document(m: ProjectMetadata, chs: Seq<Chapter>) -> Seq<char> {
    let title = escape(Escape::Html, m.title@);
    let author = escape(Escape::Html, m.author@);
    HTML_HEAD@ + title + HTML_STYLE@ + html_header(title, author) + each_chapter(
        chs,
        |c: Chapter| html_chapter(c),
    ) + HTML_END@
}

/// The exported LaTeX document.
pub open spec fn latex_document(m: ProjectMetadata, chs: Seq<Chapter>) -> Seq<char> {
    LATEX_PREAMBLE@ + escape(Escape::Latex, m.title@) + "}\n\\author{"@ + escape(
        Escape::Latex,
        m.author@,
    ) + "}\n\\date{}\n\n"@ + LATEX_BEGIN@ + each_chapter(chs, |c: Chapter| latex_chapter(c))
        + "\\end{document}\n"@
}

/// The ids of the chapter nodes under `id`, depth first, appended to `out`.
fn walk(nodes: &Vec<ManuscriptNode>, id: &String, fuel: usize, out: &mut Vec<String>)
    ensures
        id_seq(final(out)@) == id_seq(old(out)@) + chapters_from(node_views(nodes@), id@, fuel as nat),
    decreases fuel, 0nat,
{
    if fuel == 0 {
        assert(id_seq(out@) =~= id_seq(old(out)@) + Seq::<Seq<char>>::empty());
        return;
    }
    match find_node(nodes, id) {
        None => {
            assert(id_seq(out@) =~= id_seq(old(out)@) + Seq::<Seq<char>>::empty());
        },
        Some(i) => {
            let node = &nodes[i];
            let ghost start = id_seq(out@);
            if matches!(node.node_type, NodeType::Chapter) {
                out.push(id.clone());
                assert(id_seq(out@) =~= start + seq![id@]);
            } else {
                assert(id_seq(out@) =~= start + Seq::<Seq<char>>::empty());
            }
            let ghost mid = id_seq(out@);
            let ghost cs = node.view().children;
            let mut k: usize = 0;
            while k < node.children.len()
                invariant
                    k <= node.children@.len(),
                    fuel > 0,
                    cs == id_seq(node.children@),
                    id_seq(out@) == mid + chapters_under(node_views(nodes@), cs.take(k as int), (fuel - 1) as nat),
                decreases node.children@.len() - k,
            {
                walk(nodes, &node.children[k], fuel - 1, out);
                let ghost pre = cs.take(k as int);
                k = k + 1;
                assert(cs.take(k as int).drop_last() =~= pre);
                assert(cs.take(k as int).last() == node.children@[k - 1]@);
            }
            assert(cs.take(node.children@.len() as int) =~= cs);
        },
    }
}

/// The ids of the chapter nodes in reading order: depth first from the root through the
/// children lists; the flat order plays no part.
pub fn chapter_ids_in_order(structure: &ManuscriptStructure) -> (r: Vec<String>)
    ensures
        id_seq(r@) == structure.chapter_order(),
{
    let mut out: Vec<String> = Vec::new();
    walk(&structure.nodes, &structure.root, structure.nodes.len(), &mut out);
    assert(id_seq(Seq::<String>::empty()) =~= Seq::<Seq<char>>::empty());
    out
}

/// Appends `pre`, `s` and `post`.
fn push_between(out: &mut Vec<char>, pre: &str, s: &str, post: &str)
    ensures
        final(out)@ == old(out)@ + (pre@ + s@ + post@),
{
    push_str(out, pre);
    push_str(out, s);
    push_str(out, post);
    assert(out@ =~= old(out)@ + (pre@ + s@ + post@));
}

/// The whole manuscript as one markdown document: title, author line, then each chapter
/// under a `##` heading with its body as written.
pub fn export_markdown(metadata: &ProjectMetadata, chapters: &Vec<Chapter>) -> (r: String)
    ensures
        r@ == markdown_document(*metadata, chapters@),
{
    let mut out: Vec<char> = Vec::new();
    push_between(&mut out, "# ", metadata.title.as_str(), "\n\n");
    let ghost head = out@;
    if !metadata.author.as_str().is_empty() {
        push_between(&mut out, "*By ", metadata.author.as_str(), "*\n\n");
    }
    assert(out@ =~= head + when(metadata.author@.len() > 0, "*By "@ + metadata.author@ + "*\n\n"@));
    push_str(&mut out, "---\n\n");
    let ghost start = out@;
    let mut i: usize = 0;
    while i < chapters.len()
        invariant
            i <= chapters@.len(),
            out@ == start + each_chapter(chapters@.take(i as int), |c: Chapter| markdown_chapter(c)),
        decreases chapters@.len() - i,
    {
        let c = &chapters[i];
        let ghost before = out@;
        push_between(&mut out, "## ", c.title.as_str(), "\n\n");
        push_str(&mut out, c.content.as_str());
        push_str(&mut out, "\n\n---\n\n");
        assert(out@ =~= before + markdown_chapter(*c));
        let ghost pre = chapters@.take(i as int);
        i = i + 1;
        assert(chapters@.take(i as int).drop_last() =~= pre);
    }
    assert(chapters@.take(chapters@.len() as int) =~= chapters@);
    string_of(&out)
}

/// The whole manuscript as plain text: titles in uppercase, bodies without markdown markers.
pub fn export_plain_text(metadata: &ProjectMetadata, chapters: &Vec<Chapter>) -> (r: String)
    ensures
        r@ == plain_document(*metadata, chapters@),
{
    let mut out: Vec<char> = Vec::new();
    let title = uppercase(metadata.title.as_str());
    push_str(&mut out, title.as_str());
    push_str(&mut out, "\n");
    let ghost head = out@;
    if !metadata.author.as_str().is_empty() {
        push_str(&mut out, "by ");
        push_str(&mut out, metadata.author.as_str());
    }
    assert(out@ =~= head + when(metadata.author@.len() > 0, "by "@ + metadata.author@));
    push_str(&mut out, "\n\n");
    let ghost start = out@;
    let mut i: usize = 0;
    while i < chapters.len()
        invariant
            i <= chapters@.len(),
            out@ == start + each_chapter(chapters@.take(i as int), |c: Chapter| plain_chapter(c)),
        decreases chapters@.len() - i,
    {
        let c = &chapters[i];
        let ghost before = out@;
        let t = uppercase(c.title.as_str());
        let body = strip_markdown(c.content.as_str());
        push_between(&mut out, t.as_str(), "\n\n", body.as_str());
        push_str(&mut out, "\n\n");
        assert(out@ =~= before + plain_chapter(*c));
        let ghost pre = chapters@.take(i as int);
        i = i + 1;
        assert(chapters@.take(i as int).drop_last() =~= pre);
    }
    assert(chapters@.take(chapters@.len() as int) =~= chapters@);
    string_of(&out)
}

/// Appends each line of `t` indented by six spaces.
fn push_indented(out: &mut Vec<char>, t: &Vec<char>)
    ensures
        final(out)@ == old(out)@ + indented(lines(t@)),
{
    let ls = split_lines(t);
    let ghost start = out@;
    let mut i: usize = 0;
    while i < ls.len()
        invariant
            i <= ls@.len(),
            views(ls@) == lines(t@),
            out@ == start + indented(views(ls@).take(i as int)),
        decreases ls@.len() - i,
    {
        let ghost before = out@;
        push_str(out, "      ");
        push_chars(out, &ls[i]);
        push_str(out, "\n");
        assert(out@ =~= before + ("      "@ + ls@[i as int]@ + "\n"@));
        let ghost pre = views(ls@).take(i as int);
        i = i + 1;
        assert(views(ls@).take(i as int).drop_last() =~= pre);
        assert(views(ls@).take(i as int).last() == ls@[i - 1]@);
    }
    assert(views(ls@).take(ls@.len() as int) =~= views(ls@));
}

/// Appends the section of one chapter.
fn push_html_chapter(out: &mut Vec<char>, c: &Chapter)
    ensures
        final(out)@ == old(out)@ + html_chapter(*c),
{
    push_str(out, "    <section class=\"chapter\">\n");
    let ctv = to_chars(c.title.as_str());
    let ct = escape_chars(Escape::Html, &ctv);
    push_str(out, "      <h2>");
    push_chars(out, &ct);
    push_str(out, "</h2>\n");
    let cv = to_chars(c.content.as_str());
    let rendered = render_markup_chars(Escape::Html, &cv);
    push_indented(out, &rendered);
    push_str(out, "    </section>\n\n");
    assert(out@ =~= old(out)@ + html_chapter(*c));
}

/// Appends the LaTeX of one chapter.
fn push_latex_chapter(out: &mut Vec<char>, c: &Chapter)
    ensures
        final(out)@ == old(out)@ + latex_chapter(*c),
{
    let ctv = to_chars(c.title.as_str());
    let ct = escape_chars(Escape::Latex, &ctv);
    push_str(out, "\\chapter{");
    push_chars(out, &ct);
    push_str(out, "}\n\n");
    let cv = to_chars(c.content.as_str());
    let rendered = render_latex_chars(&cv);
    push_chars(out, &rendered);
    push_str(out, "\n");
    assert(out@ =~= old(out)@ + latex_chapter(*c));
}

/// Appends the title header.
fn push_html_header(out: &mut Vec<char>, title: &Vec<char>, author: &Vec<char>)
    ensures
        final(out)@ == old(out)@ + html_header(title@, author@),
{
    push_str(out, "    <header class=\"title-page\">\n");
    push_str(out, "      <h1>");
    push_chars(out, title);
    push_str(out, "</h1>\n");
    let ghost mid = out@;
    if author.len() > 0 {
        push_str(out, "      <p class=\"author\">");
        push_chars(out, author);
        push_str(out, "</p>\n");
    }
    assert(out@ =~= mid + when(author@.len() > 0, "      <p class=\"author\">"@ + author@ + "</p>\n"@));
    push_str(out, "    </header>\n\n");
    assert(out@ =~= old(out)@ + html_header(title@, author@));
}

/// Appends the sections of the chapters, in order.
fn push_html_chapters(out: &mut Vec<char>, chapters: &Vec<Chapter>)
    ensures
        final(out)@ == old(out)@ + each_chapter(chapters@, |c: Chapter| html_chapter(c)),
{
    let ghost start = out@;
    let mut i: usize = 0;
    assert(chapters@.take(0) =~= Seq::<Chapter>::empty());
    assert(start =~= start + each_chapter(chapters@.take(0), |c: Chapter| html_chapter(c)));
    while i < chapters.len()
        invariant
            i <= chapters@.len(),
            out@ == start + each_chapter(chapters@.take(i as int), |c: Chapter| html_chapter(c)),
        decreases chapters@.len() - i,
    {
        push_html_chapter(out, &chapters[i]);
        let ghost pre = chapters@.take(i as int);
        i = i + 1;
        assert(chapters@.take(i as int).drop_last() =~= pre);
    }
    assert(chapters@.take(chapters@.len() as int) =~= chapters@);
}

/// The whole manuscript as one styled HTML page: a title header, then one section per
/// chapter with its rendered body indented.
pub fn export_html(metadata: &ProjectMetadata, chapters: &Vec<Chapter>) -> (r: String)
    ensures
        r@ == html_document(*metadata, chapters@),
{
    let tv = to_chars(metadata.title.as_str());
    let title = escape_chars(Escape::Html, &tv);
    let av = to_chars(metadata.author.as_str());
    let author = escape_chars(Escape::Html, &av);
    let mut out: Vec<char> = Vec::new();
    push_str(&mut out, HTML_HEAD);
    push_chars(&mut out, &title);
    push_str(&mut out, HTML_STYLE);
    push_html_header(&mut out, &title, &author);
    push_html_chapters(&mut out, chapters);
    push_str(&mut out, HTML_END);
    assert(out@ =~= html_document(*metadata, chapters@));
    string_of(&out)
}

/// The whole manuscript as a LaTeX book: preamble with title and author, then one
/// `\chapter` per chapter with its rendered body.
pub fn export_latex(metadata: &ProjectMetadata, chapters: &Vec<Chapter>) -> (r: String)
    ensures
        r@ == latex_document(*metadata, chapters@),
{
    let tv = to_chars(metadata.title.as_str());
    let title = escape_chars(Escape::Latex, &tv);
    let av = to_chars(metadata.author.as_str());
    let author = escape_chars(Escape::Latex, &av);
    let mut out: Vec<char> = Vec::new();
    push_str(&mut out, LATEX_PREAMBLE);
    push_chars(&mut out, &title);
    push_str(&mut out, "}\n\\author{");
    push_chars(&mut out, &author);
    push_str(&mut out, "}\n\\date{}\n\n");
    push_str(&mut out, LATEX_BEGIN);
    let ghost start = out@;
    let mut i: usize = 0;
    while i < chapters.len()
        invariant
            i <= chapters@.len(),
            out@ == start + each_chapter(chapters@.take(i as int), |c: Chapter| latex_chapter(c)),
        decreases chapters@.len() - i,
    {
        push_latex_chapter(&mut out, &chapters[i]);
        let ghost pre = chapters@.take(i as int);
        i = i + 1;
        assert(chapters@.take(i as int).drop_last() =~= pre);
    }
    assert(chapters@.take(chapters@.len() as int) =~= chapters@);
    push_str(&mut out, "\\end{document}\n");
    assert(out@ =~= latex_document(*metadata, chapters@));
    string_of(&out)
}

/// The export order is the depth-first order of the tree from the root: two structures
/// with the same root and nodes give the same chapter order, whatever their flat orders.
pub proof fn lemma_reading_order_ignores_flat_order(a: ManuscriptStructure, b: ManuscriptStructure)
    requires
        a.root@ == b.root@,
        a.node_list() == b.node_list(),
    ensures
        a.chapter_order() == b.chapter_order(),
{
    assert(a.nodes@.len() == a.node_list().len());
    assert(b.nodes@.len() == b.node_list().len());
}

/// Whether `piece` occurs in `t`.
pub open spec fn contains(t: Seq<char>, piece: Seq<char>) -> bool {
    exists|p: int| 0 <= p && p + piece.len() <= t.len() && #[trigger] t.subrange(p, p + piece.len()) == piece
}

proof fn lemma_each_chapter_holds(chs: Seq<Chapter>, f: spec_fn(Chapter) -> Seq<char>, i: int)
    requires
        0 <= i < chs.len(),
    ensures
        exists|pre: Seq<char>, post: Seq<char>| #[trigger] (pre + f(chs[i]) + post) == each_chapter(chs, f),
    decreases chs.len(),
{
    let init = chs.drop_last();
    if i == chs.len() - 1 {
        let pre = each_chapter(init, f);
        let post = Seq::<char>::empty();
        assert(pre + f(chs[i]) + post =~= each_chapter(chs, f));
    } else {
        lemma_each_chapter_holds(init, f, i);
        let (pre, post) = choose|pre: Seq<char>, post: Seq<char>| #[trigger] (pre + f(init[i]) + post) == each_chapter(init, f);
        assert(init[i] == chs[i]);
        let post2 = post + f(chs.last());
        assert(pre + f(chs[i]) + post2 =~= each_chapter(chs, f));
    }
}

/// In the exported HTML, each chapter's section opens with a heading of its title, in which
/// `&`, `<` and `>` are escaped and every other character, quotes included, is kept.
pub proof fn lemma_html_headings(m: ProjectMetadata, chs: Seq<Chapter>, i: int)
    requires
        0 <= i < chs.len(),
    ensures
        contains(
            html_document(m, chs),
            "    <section class=\"chapter\">\n"@ + ("      <h2>"@ + escape(Escape::Html, chs[i].title@)
                + "</h2>\n"@),
        ),
{
    let f = |c: Chapter| html_chapter(c);
    lemma_each_chapter_holds(chs, f, i);
    let (pre, post) = choose|pre: Seq<char>, post: Seq<char>| #[trigger] (pre + f(chs[i]) + post) == each_chapter(chs, f);
    let head = "    <section class=\"chapter\">\n"@ + ("      <h2>"@ + escape(Escape::Html, chs[i].title@)
        + "</h2>\n"@);
    let rest = indented(lines(render_markup(Escape::Html, chs[i].content@))) + "    </section>\n\n"@;
    assert(f(chs[i]) =~= head + rest);
    let title = escape(Escape::Html, m.title@);
    let author = escape(Escape::Html, m.author@);
    let before = HTML_HEAD@ + title + HTML_STYLE@ + html_header(title, author);
    let doc = html_document(m, chs);
    assert(doc =~= before + each_chapter(chs, f) + HTML_END@);
    let p = (before.len() + pre.len()) as int;
    assert(doc.subrange(p, p + head.len() as int) =~= head);
}

/// HTML escaping keeps a text without `&`, `<` and `>` as it is, quotes included; XML escaping
/// leaves no quote of either kind.
pub proof fn lemma_escaping_quotes(t: Seq<char>)
    ensures
        (forall|i: int| 0 <= i < t.len() ==> t[i] != '&' && t[i] != '<' && t[i] != '>')
            ==> escape(Escape::Html, t) == t,
        forall|i: int| 0 <= i < escape(Escape::Xml, t).len() ==> escape(Escape::Xml, t)[i] != '"'
            && escape(Escape::Xml, t)[i] != '\'',
    decreases t.len(),
{
    reveal_strlit("&amp;");
    reveal_strlit("&lt;");
    reveal_strlit("&gt;");
    reveal_strlit("&quot;");
    reveal_strlit("&apos;");
    if t.len() > 0 {
        lemma_escaping_quotes(t.drop_last());
        if forall|i: int| 0 <= i < t.len() ==> t[i] != '&' && t[i] != '<' && t[i] != '>' {
            assert forall|i: int| 0 <= i < t.drop_last().len() implies t.drop_last()[i] != '&'
                && t.drop_last()[i] != '<' && t.drop_last()[i] != '>' by {
                assert(t.drop_last()[i] == t[i]);
            }
            assert(t[t.len() - 1] == t.last());
            assert(t.drop_last() + seq![t.last()] =~= t);
        }
        let a = escape(Escape::Xml, t.drop_last());
        let b = escape_char(Escape::Xml, t.last());
        assert forall|i: int| 0 <= i < (a + b).len() implies (a + b)[i] != '"' && (a + b)[i] != '\'' by {
            if i >= a.len() {
                assert((a + b)[i] == b[i - a.len()]);
            } else {
                assert((a + b)[i] == a[i]);
            }
        }
    }
}

} // verus!
