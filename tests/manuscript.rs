use quillborn::chapter::{Chapter, ChapterError};
use quillborn::project::{
    sanitize_filename, ChapterStatus, ManuscriptNode, ManuscriptStructure, NodeType, Project,
    ProjectError, ProjectMetadata,
};
use quillborn::time::Timestamp;

fn epoch() -> Timestamp {
    Timestamp { secs: 0, nanos: 0 }
}

fn sample_chapter() -> Chapter {
    Chapter {
        id: "c1".to_string(),
        title: "My Title".to_string(),
        content: "Some body text.".to_string(),
        status: "revised".to_string(),
        mood: Some("calm".to_string()),
        pov: None,
        word_count: 3,
        created_at: epoch(),
        modified_at: epoch(),
    }
}

fn node(id: &str, node_type: NodeType, children: &[&str]) -> ManuscriptNode {
    ManuscriptNode {
        id: id.to_string(),
        title: id.to_uppercase(),
        node_type,
        children: children.iter().map(|c| c.to_string()).collect(),
        status: ChapterStatus::Draft,
        mood: None,
        pov: None,
        word_count: 0,
    }
}

fn metadata() -> ProjectMetadata {
    ProjectMetadata {
        title: "Book".to_string(),
        author: "Ann".to_string(),
        genre: String::new(),
        word_count_target: None,
        deadline: None,
        created_at: epoch(),
        modified_at: epoch(),
    }
}

#[test]
fn chapter_text_layout() {
    let expected = "---\nid: \"c1\"\ntitle: \"My Title\"\nstatus: \"revised\"\nmood: \"calm\"\nword_count: 3\ncreated_at: \"1970-01-01T00:00:00+00:00\"\nmodified_at: \"1970-01-01T00:00:00+00:00\"\n---\n\nSome body text.";
    assert_eq!(sample_chapter().to_markdown(), expected);
}

#[test]
fn chapter_round_trip() {
    let mut padded = sample_chapter();
    padded.content = "\n  indented body\n\n".to_string();
    let again = Chapter::from_markdown(&padded.to_markdown(), Some("c1")).unwrap();
    assert_eq!(again.content, padded.content);
    assert_eq!(again.word_count, 2);
    let c = sample_chapter();
    let back = Chapter::from_markdown(&c.to_markdown(), Some("c1")).unwrap();
    assert_eq!(back.id, "c1");
    assert_eq!(back.title, c.title);
    assert_eq!(back.status, c.status);
    assert_eq!(back.mood, c.mood);
    assert_eq!(back.pov, c.pov);
    assert_eq!(back.content, c.content);
    assert_eq!(back.word_count, 3);
    assert_eq!(back.created_at, epoch());
    assert_eq!(back.modified_at, epoch());
}

#[test]
fn chapter_without_frontmatter() {
    let c = Chapter::from_markdown("Just text here", Some("abc")).unwrap();
    assert_eq!(c.id, "abc");
    assert_eq!(c.title, "abc");
    assert_eq!(c.content, "Just text here");
    assert_eq!(c.status, "draft");
    assert_eq!(c.word_count, 3);
    assert_eq!(c.created_at, c.modified_at);
    let d = Chapter::from_markdown("text", None).unwrap();
    assert_eq!(d.id, "unknown");
    assert_eq!(d.title, "Untitled");
}

#[test]
fn chapter_with_unclosed_frontmatter() {
    let raw = "---\ntitle: x\nno close";
    let c = Chapter::from_markdown(raw, Some("id9")).unwrap();
    assert_eq!(c.title, "Untitled");
    assert_eq!(c.content, raw);
    assert_eq!(c.word_count, 5);
}

#[test]
fn chapter_frontmatter_keys() {
    let raw = "---\nid: \"other\"\ntitle: \"A: B\"\npov: Ann\nextra: 1\ncreated_at: \"2024-05-06T07:08:09+02:00\"\nmodified_at: \"nonsense\"\n---\n\n  one two  \n";
    let c = Chapter::from_markdown(raw, Some("f")).unwrap();
    assert_eq!(c.id, "f");
    assert_eq!(c.title, "A: B");
    assert_eq!(c.status, "draft");
    assert_eq!(c.mood, None);
    assert_eq!(c.pov, Some("Ann".to_string()));
    assert_eq!(c.content, "  one two  \n");
    assert_eq!(c.word_count, 2);
    assert_eq!(c.created_at, Timestamp { secs: 1714972089, nanos: 0 });
}

#[test]
fn chapter_update_and_filename() {
    let mut c = Chapter::new("Fresh");
    assert_eq!(c.title, "Fresh");
    assert_eq!(c.status, "draft");
    assert_eq!(c.word_count, 0);
    assert_eq!(c.id.len(), 36);
    assert!(c.id.chars().enumerate().all(|(i, ch)| if [8, 13, 18, 23].contains(&i) { ch == '-' } else { ch.is_ascii_hexdigit() && !ch.is_ascii_uppercase() }));
    assert_eq!(c.filename(), format!("{}.md", c.id));
    let before = c.created_at;
    c.update_content("a b c d");
    assert_eq!(c.content, "a b c d");
    assert_eq!(c.word_count, 4);
    assert_eq!(c.created_at, before);
}

#[test]
fn chapter_error_message() {
    assert_eq!(ChapterError::Io("gone".to_string()).message(), "IO error: gone");
}

#[test]
fn timestamps_in_rfc3339() {
    let mut c = sample_chapter();
    c.created_at = Timestamp { secs: 1714979289, nanos: 0 };
    assert!(c.to_markdown().contains("created_at: \"2024-05-06T07:08:09+00:00\"\n"));
    let raw = "---\ncreated_at: \"2024-05-06T07:08:09Z\"\n---\nx";
    let back = Chapter::from_markdown(raw, Some("t")).unwrap();
    assert_eq!(back.created_at, Timestamp { secs: 1714979289, nanos: 0 });
}

#[test]
fn sanitized_directory_names() {
    assert_eq!(sanitize_filename("My: Book!"), "My_ Book_");
    assert_eq!(sanitize_filename("  a/b  "), "a_b");
    assert_eq!(sanitize_filename("Café-2_x"), "Café-2_x");
}

#[test]
fn create_project_layout() {
    let p = Project::create("/tmp/books", "My: Book!", "Ann");
    assert_eq!(p.path, "/tmp/books/My_ Book_.qb");
    assert_eq!(p.metadata.title, "My: Book!");
    assert_eq!(p.metadata.author, "Ann");
    assert_eq!(p.structure.nodes.len(), 1);
    assert_eq!(p.structure.nodes[0].id, p.structure.root);
    assert_eq!(p.structure.nodes[0].node_type, NodeType::Book);
    assert!(p.structure.order.is_empty());
    let q = Project::create("/tmp/books/", "X", "");
    assert_eq!(q.path, "/tmp/books/X.qb");
}

#[test]
fn add_rename_delete_chapter() {
    let mut p = Project::create("/tmp", "B", "A");
    let root = p.structure.root.clone();
    let c = p.add_chapter("One", None).unwrap();
    assert_eq!(c.title, "One");
    assert_eq!(p.structure.order, vec![c.id.clone()]);
    let r = p.structure.nodes.iter().find(|n| n.id == root).unwrap();
    assert_eq!(r.children, vec![c.id.clone()]);
    let n = p.structure.nodes.iter().find(|n| n.id == c.id).unwrap();
    assert_eq!(n.node_type, NodeType::Chapter);
    assert_eq!(n.title, "One");

    assert!(p.rename_chapter(&c.id, "Uno").is_ok());
    let n = p.structure.nodes.iter().find(|n| n.id == c.id).unwrap();
    assert_eq!(n.title, "Uno");
    match p.rename_chapter("nope", "x") {
        Err(ProjectError::ChapterNotFound(id)) => assert_eq!(id, "nope"),
        _ => panic!("expected ChapterNotFound"),
    }

    assert!(p.delete_chapter(&c.id));
    assert!(p.structure.order.is_empty());
    assert_eq!(p.structure.nodes.len(), 1);
    assert!(p.structure.nodes[0].children.is_empty());
    assert!(!p.delete_chapter(&c.id));
    assert_eq!(p.structure.nodes.len(), 1);
}

#[test]
fn delete_removes_id_everywhere() {
    let structure = ManuscriptStructure {
        root: "r".to_string(),
        nodes: vec![
            node("r", NodeType::Book, &["c1", "p"]),
            node("p", NodeType::Part, &["c1", "c2"]),
            node("c1", NodeType::Chapter, &[]),
            node("c2", NodeType::Chapter, &[]),
        ],
        order: vec!["c1".to_string(), "c2".to_string(), "c1".to_string()],
    };
    let mut p = Project { path: "/x".to_string(), metadata: metadata(), structure };
    assert!(p.delete_chapter("c1"));
    assert_eq!(p.structure.order, vec!["c2".to_string()]);
    assert_eq!(p.structure.nodes.len(), 3);
    for n in &p.structure.nodes {
        assert!(n.id != "c1");
        assert!(!n.children.contains(&"c1".to_string()));
    }
    assert!(!p.delete_chapter("ghost"));
    assert_eq!(p.structure.nodes.len(), 3);
}

#[test]
fn add_under_missing_parent_leaves_node_unreferenced() {
    let mut p = Project::create("/tmp", "B", "A");
    let c = p.add_chapter("Lost", Some("nowhere")).unwrap();
    assert_eq!(p.structure.nodes.len(), 2);
    assert!(p.structure.nodes.iter().all(|n| !n.children.contains(&c.id)));
    assert_eq!(p.structure.order, vec![c.id.clone()]);
}

#[test]
fn reorder_replaces_children_and_order() {
    let mut p = Project::create("/tmp", "B", "A");
    let a = p.add_chapter("a", None).unwrap();
    let b = p.add_chapter("b", None).unwrap();
    p.reorder_chapters(vec![b.id.clone(), a.id.clone()], None);
    let root = p.structure.root.clone();
    let r = p.structure.nodes.iter().find(|n| n.id == root).unwrap();
    assert_eq!(r.children, vec![b.id.clone(), a.id.clone()]);
    assert_eq!(p.structure.order, vec![b.id.clone(), a.id.clone()]);
    p.reorder_chapters(vec!["z".to_string()], Some("missing"));
    assert_eq!(p.structure.order, vec!["z".to_string()]);
}

#[test]
fn total_word_count_sums_cached_counts() {
    let mut n1 = node("a", NodeType::Chapter, &[]);
    n1.word_count = 10;
    let mut n2 = node("b", NodeType::Part, &[]);
    n2.word_count = 5;
    let structure = ManuscriptStructure { root: "a".to_string(), nodes: vec![n1, n2], order: vec![] };
    let p = Project { path: "/x".to_string(), metadata: metadata(), structure };
    assert_eq!(p.total_word_count(), 15);
    let mut big = node("c", NodeType::Chapter, &[]);
    big.word_count = u64::MAX;
    let mut one = node("d", NodeType::Chapter, &[]);
    one.word_count = 1;
    let s = ManuscriptStructure { root: "c".to_string(), nodes: vec![big, one], order: vec![] };
    let q = Project { path: "/x".to_string(), metadata: metadata(), structure: s };
    assert_eq!(q.total_word_count(), u64::MAX);
}

#[test]
fn open_without_metadata_defaults() {
    let s = ManuscriptStructure { root: "r".to_string(), nodes: vec![node("r", NodeType::Book, &[])], order: vec![] };
    let p = Project::open("/p", Some(s), None).unwrap();
    assert_eq!(p.metadata.title, "Untitled");
    assert_eq!(p.metadata.author, "");
    assert_eq!(p.path, "/p");
    assert_eq!(p.structure.root, "r");
}

#[test]
fn open_without_structure_is_not_found() {
    match Project::open("/p", None, Some(metadata())) {
        Err(ProjectError::NotFound(path)) => assert_eq!(path, "/p/manuscript.json"),
        _ => panic!("expected NotFound"),
    }
}

#[test]
fn open_keeps_given_metadata() {
    let s = ManuscriptStructure { root: "r".to_string(), nodes: vec![], order: vec![] };
    let p = Project::open("/p", Some(s), Some(metadata())).unwrap();
    assert_eq!(p.metadata.title, "Book");
    assert_eq!(p.metadata.author, "Ann");
}

#[test]
fn project_state_totals_word_counts() {
    let mut n = node("r", NodeType::Book, &[]);
    n.word_count = 7;
    let structure = ManuscriptStructure { root: "r".to_string(), nodes: vec![n], order: vec![] };
    let state = Project { path: "/x".to_string(), metadata: metadata(), structure }.into_state();
    assert_eq!(state.path, "/x");
    assert_eq!(state.metadata.title, "Book");
    assert_eq!(state.total_word_count, 7);
}

#[test]
fn word_count_recorded_in_node() {
    let mut p = Project::create("/tmp", "B", "A");
    let c = p.add_chapter("One", None).unwrap();
    p.set_word_count(&c.id, 42);
    p.set_word_count("missing", 9);
    assert_eq!(p.total_word_count(), 42);
    let n = p.structure.nodes.iter().find(|n| n.id == c.id).unwrap();
    assert_eq!(n.word_count, 42);
}

#[test]
fn unique_ids_are_detected() {
    let ok = ManuscriptStructure {
        root: "r".to_string(),
        nodes: vec![node("r", NodeType::Book, &[]), node("a", NodeType::Chapter, &[])],
        order: vec![],
    };
    assert!(ok.has_unique_ids());
    let twice = ManuscriptStructure {
        root: "r".to_string(),
        nodes: vec![node("a", NodeType::Book, &[]), node("a", NodeType::Chapter, &[])],
        order: vec![],
    };
    assert!(!twice.has_unique_ids());
}

#[test]
fn ids_in_use() {
    let s = ManuscriptStructure {
        root: "r".to_string(),
        nodes: vec![node("r", NodeType::Book, &["dangling"])],
        order: vec!["listed".to_string()],
    };
    assert!(s.id_in_use(&"r".to_string()));
    assert!(s.id_in_use(&"dangling".to_string()));
    assert!(s.id_in_use(&"listed".to_string()));
    assert!(!s.id_in_use(&"fresh".to_string()));
}

#[test]
fn create_in_empty_directory_is_relative() {
    let p = Project::create("", "Book", "A");
    assert_eq!(p.path, "Book.qb");
}

#[test]
fn project_error_messages() {
    assert_eq!(ProjectError::NotFound("/p".to_string()).message(), "Project not found: /p");
    assert_eq!(ProjectError::ChapterNotFound("c".to_string()).message(), "Chapter not found: c");
}
