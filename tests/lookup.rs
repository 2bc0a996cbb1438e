use quillborn::fonts::{font_name, is_font_file, sort_fonts, FontInfo};
use quillborn::search::{chapter_body, search_chapter, search_text};

fn font(name: &str, path: &str) -> FontInfo {
    FontInfo { name: name.to_string(), path: path.to_string(), source: "system".to_string() }
}

#[test]
fn search_finds_every_occurrence() {
    let found = search_text("abcab\nxx AB", "ab", false);
    let spots: Vec<(usize, usize, usize)> = found.iter().map(|m| (m.line_number, m.start, m.end)).collect();
    assert_eq!(spots, vec![(1, 0, 2), (1, 3, 5), (2, 3, 5)]);
    assert_eq!(found[2].line_content, "xx AB");
    let exact = search_text("abcab\nxx AB", "AB", true);
    assert_eq!(exact.len(), 1);
    assert_eq!(exact[0].line_number, 2);
}

#[test]
fn search_overlapping_and_bytes() {
    let found = search_text("aaa", "aa", true);
    let starts: Vec<usize> = found.iter().map(|m| m.start).collect();
    assert_eq!(starts, vec![0, 1]);
    let wide = search_text("é x", "x", true);
    assert_eq!((wide[0].start, wide[0].end), (3, 4));
    assert!(search_text("abc", "", true).is_empty());
}

#[test]
fn search_skips_frontmatter() {
    assert_eq!(chapter_body("---\ntitle: \"needle\"\n---\nbody needle"), "\nbody needle");
    assert_eq!(chapter_body("plain needle"), "plain needle");
    assert_eq!(chapter_body("---\nunclosed needle"), "");
    let r = search_chapter("c1", "One", "---\ntitle: \"needle\"\n---\nbody needle", "needle", true).unwrap();
    assert_eq!(r.chapter_id, "c1");
    assert_eq!(r.chapter_title, "One");
    assert_eq!(r.matches.len(), 1);
    assert_eq!(r.matches[0].line_number, 2);
    assert_eq!(r.matches[0].start, 5);
    assert!(search_chapter("c1", "One", "nothing here", "needle", true).is_none());
}

#[test]
fn font_files_by_extension() {
    assert!(is_font_file("/usr/share/fonts/DejaVuSans.ttf"));
    assert!(is_font_file("/x/Font.OTF"));
    assert!(is_font_file("a/b.c.woff2"));
    assert!(!is_font_file("/x/readme.txt"));
    assert!(!is_font_file("/x/.ttf"));
    assert!(!is_font_file("/x/ttf"));
    assert!(!is_font_file("/x.ttf/notes"));
}

#[test]
fn font_display_names() {
    assert_eq!(font_name("Open-Sans_Bold"), "Open Sans Bold");
}

#[test]
fn fonts_sorted_and_deduplicated() {
    let fonts = vec![
        font("beta", "/1"),
        font("Alpha", "/2"),
        font("BETA", "/3"),
        font("alpha", "/4"),
        font("gamma", "/5"),
    ];
    let out = sort_fonts(fonts);
    let paths: Vec<&str> = out.iter().map(|f| f.path.as_str()).collect();
    assert_eq!(paths, vec!["/2", "/1", "/5"]);
}
