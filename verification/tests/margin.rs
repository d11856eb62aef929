use atp_tools::margin::{
    find_document, group_notes_by_source, slugify, sort_notes_by_created, Note, NoteBody, NoteSelector, NoteTarget,
    RepoRecord, SourceNotesDocument,
};

fn note(uri: &str, source: &str, created: &str, title: Option<&str>) -> RepoRecord<Note> {
    RepoRecord {
        uri: uri.to_string(),
        cid: format!("cid-{uri}"),
        value: Note {
            created_at: created.to_string(),
            modified_at: None,
            tags: None,
            target: NoteTarget { source: source.to_string(), title: title.map(str::to_string), selector: None },
            body: None,
        },
    }
}

#[test]
fn slugifies_titles() {
    assert_eq!(slugify("Hello, World!"), Some("hello-world".to_string()));
    assert_eq!(slugify("  --Rust & Verus--  "), Some("rust-verus".to_string()));
    assert_eq!(slugify("ÀB"), Some("b".to_string()));
    assert_eq!(slugify("!!!"), None);
}

#[test]
fn groups_notes_by_source() {
    let notes = vec![
        note("n1", "https://b.test", "2026-02-01", None),
        note("n2", "https://a.test", "2026-01-01", Some("A page")),
        note("n3", "https://b.test", "2026-01-15", Some("B page")),
    ];
    let docs = group_notes_by_source(notes);
    assert_eq!(docs.len(), 2);
    assert_eq!(docs[0].source, "https://a.test");
    assert_eq!(docs[0].title, "A page");
    assert_eq!(docs[1].source, "https://b.test");
    assert_eq!(docs[1].notes[0].uri, "n3");
    assert_eq!(docs[1].notes[1].uri, "n1");
    assert_eq!(docs[1].title, "B page");
    assert_eq!(docs[1].updated, "2026-02-01");
    assert_eq!(docs[1].sha.len(), 64);
    assert_eq!(docs[1].filename(), "b-page.md");
    let found = find_document(docs, "https://b.test").expect("document");
    assert_eq!(found.notes.len(), 2);
}

#[test]
fn orders_notes_stably() {
    let sorted = sort_notes_by_created(vec![
        note("late", "s", "2026-03-01", None),
        note("tie1", "s", "2026-01-01", None),
        note("tie2", "s", "2026-01-01", None),
    ]);
    let uris: Vec<&str> = sorted.iter().map(|n| n.uri.as_str()).collect();
    assert_eq!(uris, ["tie1", "tie2", "late"]);
}

#[test]
fn names_files_from_title_then_source() {
    let doc = SourceNotesDocument::from_notes("https://example.test/Page", vec![note("n", "x", "2026-01-01", None)]);
    assert_eq!(doc.title, "https://example.test/Page");
    assert_eq!(doc.filename(), "https-example-test-page.md");
    let empty = SourceNotesDocument::from_notes("", vec![]);
    assert_eq!(empty.filename(), "notes.md");
    assert_eq!(empty.updated, "");
}

#[test]
fn writes_markdown() {
    let mut record = note("at://n/1", "https://a.test", "2026-01-01T00:00:00Z", Some("A"));
    record.value.modified_at = Some("2026-01-02T00:00:00Z".to_string());
    record.value.tags = Some(vec!["x".to_string(), "y".to_string()]);
    record.value.target.selector = Some(NoteSelector { exact: Some("line one\nline two".to_string()) });
    record.value.body = Some(NoteBody { value: Some("Some *text*".to_string()) });
    let doc = SourceNotesDocument::from_notes("https://a.test", vec![record, note("at://n/2", "https://a.test", "2026-01-03", None)]);
    let markdown = doc.to_markdown().expect("markdown");
    assert!(markdown.starts_with("+++\ntitle = \"A\"\nsource = \"https://a.test\"\nupdated = \"2026-01-03\"\nsha = \""));
    assert!(markdown.contains(
        "- uri: at://n/1\n- cid: cid-at://n/1\n- created: 2026-01-01T00:00:00Z\n- modified: 2026-01-02T00:00:00Z\n- tags: x, y\n\n> line one\n> line two\n\nSome *text*\n\n---\n\n- uri: at://n/2\n"
    ));
}

#[test]
fn normalizes_note_bodies_as_commonmark() {
    let mut record = note("at://n/1", "https://a.test", "2026-01-01T00:00:00Z", Some("A"));
    record.value.body = Some(NoteBody { value: Some("Some _text_".to_string()) });
    let doc = SourceNotesDocument::from_notes("https://a.test", vec![record]);
    let markdown = doc.to_markdown().expect("markdown");
    assert!(markdown.contains("\n\nSome *text*\n"));
    assert!(!markdown.contains("_text_"));
}
