use std::io::Read;

use quillborn::chapter::Chapter;
use quillborn::epub::{epub_entries, export_epub, package, EpubEntry};
use quillborn::export::{
    chapter_ids_in_order, export_html, export_latex, export_markdown, export_plain_text,
};
use quillborn::project::{ChapterStatus, ManuscriptNode, ManuscriptStructure, NodeType, ProjectMetadata};
use quillborn::time::Timestamp;

fn epoch() -> Timestamp {
    Timestamp { secs: 0, nanos: 0 }
}

fn meta(title: &str, author: &str) -> ProjectMetadata {
    ProjectMetadata {
        title: title.to_string(),
        author: author.to_string(),
        genre: String::new(),
        word_count_target: None,
        deadline: None,
        created_at: epoch(),
        modified_at: epoch(),
    }
}

fn chapter(title: &str, content: &str) -> Chapter {
    Chapter {
        id: title.to_lowercase(),
        title: title.to_string(),
        content: content.to_string(),
        status: "draft".to_string(),
        mood: None,
        pov: None,
        word_count: 0,
        created_at: epoch(),
        modified_at: epoch(),
    }
}

fn node(id: &str, node_type: NodeType, children: &[&str]) -> ManuscriptNode {
    ManuscriptNode {
        id: id.to_string(),
        title: id.to_string(),
        node_type,
        children: children.iter().map(|c| c.to_string()).collect(),
        status: ChapterStatus::Draft,
        mood: None,
        pov: None,
        word_count: 0,
    }
}

#[test]
fn reading_order_is_depth_first_not_flat_order() {
    let s = ManuscriptStructure {
        root: "r".to_string(),
        nodes: vec![
            node("c3", NodeType::Chapter, &[]),
            node("r", NodeType::Book, &["p1", "c3"]),
            node("c1", NodeType::Chapter, &[]),
            node("p1", NodeType::Part, &["c1", "c2"]),
            node("c2", NodeType::Chapter, &["s1"]),
            node("s1", NodeType::Scene, &[]),
        ],
        order: vec!["c3".to_string(), "c2".to_string(), "c1".to_string()],
    };
    assert_eq!(chapter_ids_in_order(&s), vec!["c1", "c2", "c3"]);
}

#[test]
fn reading_order_skips_missing_nodes_and_stops_on_cycles() {
    let s = ManuscriptStructure {
        root: "r".to_string(),
        nodes: vec![
            node("r", NodeType::Book, &["gone", "a"]),
            node("a", NodeType::Chapter, &["a"]),
        ],
        order: vec![],
    };
    assert_eq!(chapter_ids_in_order(&s), vec!["a"]);
}

#[test]
fn markdown_export() {
    let out = export_markdown(&meta("Book", "Ann"), &vec![chapter("T1", "Body one")]);
    assert_eq!(out, "# Book\n\n*By Ann*\n\n---\n\n## T1\n\nBody one\n\n---\n\n");
    let anon = export_markdown(&meta("Book", ""), &vec![]);
    assert_eq!(anon, "# Book\n\n---\n\n");
}

#[test]
fn plain_text_export() {
    let out = export_plain_text(&meta("Book", "Ann"), &vec![chapter("T1", "**Body** one")]);
    assert_eq!(out, "BOOK\nby Ann\n\nT1\n\nBody one\n\n\n");
    assert_eq!(export_plain_text(&meta("b", ""), &vec![]), "B\n\n\n");
}

#[test]
fn html_export() {
    let out = export_html(&meta("Book", "Ann"), &vec![chapter("T1", "Body one")]);
    assert!(out.starts_with("<!DOCTYPE html>\n<html lang=\"en\">\n<head>\n"));
    assert!(out.contains("  <title>Book</title>\n  <style>\n"));
    assert!(out.ends_with(
        "<body>\n    <header class=\"title-page\">\n      <h1>Book</h1>\n      <p class=\"author\">Ann</p>\n    </header>\n\n    <section class=\"chapter\">\n      <h2>T1</h2>\n      <p>Body one</p>\n    </section>\n\n</body>\n</html>\n"
    ));
}

#[test]
fn html_export_escapes_titles_but_not_quotes() {
    let out = export_html(&meta("B", ""), &vec![chapter("A <b> & \"q\"", "x")]);
    assert!(out.contains("<h2>A &lt;b&gt; &amp; \"q\"</h2>"));
    assert!(!out.contains("class=\"author\">"));
}

#[test]
fn latex_export() {
    let out = export_latex(&meta("Book", "Ann"), &vec![chapter("T1", "Body one")]);
    assert!(out.starts_with("\\documentclass[12pt]{book}\n\n\\usepackage[utf8]{inputenc}\n"));
    assert!(out.contains("\\title{Book}\n\\author{Ann}\n\\date{}\n\n\\begin{document}\n\n\\maketitle\n\\tableofcontents\n\\newpage\n\n"));
    assert!(out.ends_with("\\chapter{T1}\n\nBody one\n\n\\end{document}\n"));
}

#[test]
fn epub_layout() {
    let chapters = vec![chapter("One", "a"), chapter("Two & <3> \"x\"", "b")];
    let es = epub_entries(&meta("Book", "Ann"), &chapters, "u1", "u2", "2024-01-01T00:00:00Z");
    let names: Vec<&str> = es.iter().map(|e| e.name.as_str()).collect();
    assert_eq!(
        names,
        vec![
            "mimetype",
            "META-INF/container.xml",
            "OEBPS/style.css",
            "OEBPS/title.xhtml",
            "OEBPS/chapter-1.xhtml",
            "OEBPS/chapter-2.xhtml",
            "OEBPS/nav.xhtml",
            "OEBPS/toc.ncx",
            "OEBPS/content.opf",
        ]
    );
    assert!(es[0].stored);
    assert_eq!(es[0].data, "application/epub+zip");
    assert!(es.iter().skip(1).all(|e| !e.stored));
    let opf = &es[8].data;
    assert_eq!(opf.matches("<itemref ").count(), 3);
    assert!(opf.contains("<dc:identifier id=\"book-id\">urn:uuid:u2</dc:identifier>"));
    assert!(opf.contains("<meta property=\"dcterms:modified\">2024-01-01T00:00:00Z</meta>"));
    assert!(opf.contains("    <itemref idref=\"title-page\" />\n    <itemref idref=\"chapter-1\" />\n    <itemref idref=\"chapter-2\" />\n  </spine>"));
    let ncx = &es[7].data;
    assert!(ncx.contains("content=\"quillborn-u1\""));
    assert!(ncx.contains("<navPoint id=\"chapter-2\" playOrder=\"3\">"));
    assert!(es[5].data.contains("<h2>Two &amp; &lt;3&gt; &quot;x&quot;</h2>"));
    assert!(es[6].data.contains("<li><a href=\"chapter-1.xhtml\">One</a></li>"));
}

#[test]
fn epub_archive() {
    let chapters = vec![chapter("One", "Hello *there*")];
    let bytes = export_epub(&meta("Book", "Ann"), &chapters).ok().unwrap();
    let mut archive = zip::ZipArchive::new(std::io::Cursor::new(bytes)).unwrap();
    assert_eq!(archive.len(), 8);
    {
        let mut first = archive.by_index(0).unwrap();
        assert_eq!(first.name(), "mimetype");
        assert_eq!(first.compression(), zip::CompressionMethod::Stored);
        let mut text = String::new();
        first.read_to_string(&mut text).unwrap();
        assert_eq!(text, "application/epub+zip");
    }
    let mut page = archive.by_name("OEBPS/chapter-1.xhtml").unwrap();
    let mut text = String::new();
    page.read_to_string(&mut text).unwrap();
    assert!(text.contains("  <h2>One</h2>\n<p>Hello <em>there</em></p>\n</body>"));
}

#[test]
fn package_rejects_overlong_and_repeated_names() {
    let long = EpubEntry { name: "n".repeat(70000), stored: false, data: "x".to_string() };
    assert!(package(&vec![long]).is_err());
    let a = EpubEntry { name: "a".to_string(), stored: true, data: String::new() };
    let b = EpubEntry { name: "a".to_string(), stored: false, data: "y".to_string() };
    assert!(package(&vec![a.clone(), b]).is_err());
    assert!(package(&vec![a]).is_ok());
}
