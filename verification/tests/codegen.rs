use atp_tools::codegen::{generate_serde_models, generate_typescript_models, pascal_case, snake_case, words, parse_lexicon_source, CodegenError};

const CARD: &str = r##"{
  "lexicon": 1,
  "id": "network.cosmik.card",
  "defs": {
    "main": {
      "type": "record",
      "record": {
        "type": "object",
        "required": ["type", "content"],
        "properties": {
          "type": { "type": "string", "knownValues": ["URL", "NOTE"] },
          "content": { "type": "union", "refs": ["#urlContent", "#noteContent"] },
          "parentCard": { "type": "ref", "ref": "com.atproto.repo.strongRef" }
        }
      }
    },
    "urlContent": {
      "type": "object",
      "required": ["url"],
      "properties": { "url": { "type": "string" } }
    },
    "noteContent": {
      "type": "object",
      "required": ["text"],
      "properties": { "text": { "type": "string" } }
    }
  }
}"##;

#[test]
fn generates_typescript_records_unions_and_strong_refs() {
    let sources = vec![("lexicons/card.json".to_string(), CARD.to_string())];
    let generated = generate_typescript_models(&sources).expect("generate typescript");
    let source = generated.source;

    assert_eq!(generated.structs, ["Card", "CardNoteContent", "CardUrlContent"]);
    assert!(source.contains("export type AtprotoStrongRef = {"));
    assert!(source.contains("'$type'?: 'network.cosmik.card';"));
    assert!(source.contains("content: CardUrlContent | CardNoteContent;"));
    assert!(source.contains("parentCard?: AtprotoStrongRef;"));
    assert!(source.contains("type: 'URL' | 'NOTE';"));
}

#[test]
fn generates_serde_record_struct() {
    let sources = vec![("lexicons/card.json".to_string(), CARD.to_string())];
    let generated = generate_serde_models(&sources).expect("generate rust");
    println!("{}", generated.source);
    assert_eq!(generated.structs, ["Card", "CardNoteContent", "CardUrlContent"]);
    assert!(generated.source.contains("pub struct Card {\n    #[serde(rename = \"$type\", default = \"default_card_type\")]\n    pub r#type: std::string::String,\n"));
    assert!(generated.source.contains("    pub content: serde_json::Value,\n"));
    assert!(generated.source.contains("    #[serde(skip_serializing_if = \"Option::is_none\")]\n    #[serde(rename = \"parentCard\")]\n    pub parent_card: Option<serde_json::Value>,\n"));
    assert!(generated.source.contains("fn default_card_type() -> std::string::String {\n    \"network.cosmik.card\".to_string()\n}\n"));
    assert!(generated.source.ends_with("}\n"));
}

#[test]
fn casing_follows_word_boundaries() {
    assert_eq!(words("isOverAge13"), ["is", "over", "age13"]);
    assert_eq!(pascal_case("getAuthorFeed"), "GetAuthorFeed");
    assert_eq!(snake_case("hideRepliesByLikeCount"), "hide_replies_by_like_count");
    assert_eq!(snake_case("URLContent"), "urlcontent");
}

#[test]
fn describes_each_codegen_error() {
    let path = || "lex/a.json".to_string();
    let message = || "denied".to_string();
    assert_eq!(
        CodegenError::ReadDir { path: path(), message: message() }.message(),
        "failed to read lexicon directory at lex/a.json: denied"
    );
    assert_eq!(
        CodegenError::ReadFile { path: path(), message: message() }.message(),
        "failed to read lexicon at lex/a.json: denied"
    );
    assert_eq!(
        CodegenError::Json { path: path(), message: message() }.message(),
        "failed to parse lexicon JSON at lex/a.json: denied"
    );
    assert_eq!(
        CodegenError::MissingField { path: path(), field: "id".to_string() }.message(),
        "lexicon at lex/a.json is missing id"
    );
    assert_eq!(
        CodegenError::CreateDir { path: path(), message: message() }.message(),
        "failed to create generated source directory at lex/a.json: denied"
    );
    assert_eq!(
        CodegenError::WriteFile { path: path(), message: message() }.message(),
        "failed to write generated source at lex/a.json: denied"
    );
}

#[test]
fn parses_each_lexicon_file_on_its_own() {
    let (path, value) = parse_lexicon_source("lex/a.json".to_string(), r#"{"id":"a.b"}"#).expect("json");
    assert_eq!(path, "lex/a.json");
    assert_eq!(value.get_str("id"), Some("a.b"));
    match parse_lexicon_source("lex/b.json".to_string(), "{") {
        Err(CodegenError::Json { path, .. }) => assert_eq!(path, "lex/b.json"),
        other => panic!("unexpected {other:?}"),
    }
}
