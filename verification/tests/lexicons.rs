use atp_tools::cli::{default_generated_output, default_lexicon_input, default_lexicon_sync_spec, Tool};
use atp_tools::lexsync::{
    clean_relative_path, clone_url, dest_file_name, git_failure_message, lexicon_dest_path, synced_lexicon_text,
    LexiconSyncError,
};

#[test]
fn builds_clone_urls() {
    assert_eq!(clone_url("https://example.test/repo.git"), "https://example.test/repo.git");
    assert_eq!(clone_url("ssh://git@example.test/repo"), "ssh://git@example.test/repo");
    assert_eq!(clone_url("bluesky-social/atproto"), "https://github.com/bluesky-social/atproto.git");
    assert_eq!(clone_url("tangled.org/tangled.org/core"), "https://tangled.org/tangled.org/core");
    assert_eq!(clone_url("example.test"), "https://example.test");
}

#[test]
fn names_destination_files() {
    assert_eq!(dest_file_name("feed/defs.json").unwrap(), "defs.json");
    assert_eq!(dest_file_name("feed/defs.json/").unwrap(), "defs.json");
    assert_eq!(dest_file_name("./a/./b.json/.").unwrap(), "b.json");
    assert!(matches!(dest_file_name("a/.."), Err(LexiconSyncError::InvalidFileName(_))));
    assert!(dest_file_name("/").is_err());
    assert!(dest_file_name("").is_err());
}

#[test]
fn keeps_only_clean_relative_paths() {
    assert_eq!(clean_relative_path("feed/defs.json").unwrap(), "feed/defs.json");
    assert!(clean_relative_path("/etc/passwd").is_err());
    assert!(clean_relative_path("a/../b").is_err());
    assert_eq!(clean_relative_path("a/..b").unwrap(), "a/..b");
}

#[test]
fn places_synced_files() {
    let spec = default_lexicon_sync_spec(Tool::Bsky, "abc123".to_string());
    assert_eq!(spec.repo, "bluesky-social/atproto");
    assert_eq!(spec.files.len(), 5);
    assert!(spec.preserve_paths);
    assert_eq!(lexicon_dest_path(&spec, "feed/defs.json").unwrap(), "lexicons/app/bsky/feed/defs.json");
    let margin = default_lexicon_sync_spec(Tool::Margin, "c".to_string());
    assert_eq!(lexicon_dest_path(&margin, "x/note.json").unwrap(), "lexicons/at/margin/note.json");
    let tangled = default_lexicon_sync_spec(Tool::Tangled, "c".to_string());
    assert_eq!(tangled.source_path, "lexicons");
    assert_eq!(tangled.dest_dir, "lexicons/sh/tangled");
    let error = lexicon_dest_path(&spec, "../x.json").unwrap_err();
    assert_eq!(error.message(), "invalid lexicon filename \"../x.json\"");
}

#[test]
fn knows_tool_directories() {
    assert_eq!(default_lexicon_input(Tool::Margin), "lexicons/at/margin");
    assert_eq!(default_generated_output(Tool::Tangled), "crates/tngl/src/generated.rs");
}

#[test]
fn formats_git_failures() {
    assert_eq!(git_failure_message("  fatal: no\n", " \n"), "fatal: no");
    assert_eq!(git_failure_message(" err ", " out "), "err\nout");
}

#[test]
fn describes_each_sync_error() {
    let path = || "lexicons/a.json".to_string();
    let message = || "denied".to_string();
    assert_eq!(
        LexiconSyncError::CreateDir { path: path(), message: message() }.message(),
        "failed to create lexicon directory at lexicons/a.json: denied"
    );
    assert_eq!(
        LexiconSyncError::Read { path: path(), message: message() }.message(),
        "failed to read lexicon at lexicons/a.json: denied"
    );
    assert_eq!(
        LexiconSyncError::Json { file: "a.json".to_string(), message: message() }.message(),
        "failed to parse fetched lexicon JSON for a.json: denied"
    );
    assert_eq!(
        LexiconSyncError::Write { path: path(), message: message() }.message(),
        "failed to write lexicon at lexicons/a.json: denied"
    );
    assert_eq!(LexiconSyncError::Git("exit 1".to_string()).message(), "git command failed: exit 1");
}

#[test]
fn pretty_prints_synced_lexicons() {
    let text = synced_lexicon_text("a.json", r#"{"a":[true,null],"b":1.5,"c":{"d":"x"}}"#).expect("json");
    assert_eq!(text, "{\n  \"a\": [\n    true,\n    null\n  ],\n  \"b\": 1.5,\n  \"c\": {\n    \"d\": \"x\"\n  }\n}\n");
    match synced_lexicon_text("a.json", "not json") {
        Err(LexiconSyncError::Json { file, .. }) => assert_eq!(file, "a.json"),
        other => panic!("unexpected {other:?}"),
    }
}
