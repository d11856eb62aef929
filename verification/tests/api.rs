use atp_tools::api::{
    decide_actor, jetstream_step, jetstream_top_level_post, jetstream_url, source_label, stale_after_seconds, validate_actors,
    confidence_label, DbActorLastPost, JetstreamCommit, JetstreamEvent,
};
use atp_tools::json::parse_json;

#[test]
fn validates_actor_batch() {
    let actors = validate_actors(vec![
        "did:plc:abc".to_string(),
        "did:plc:abc".to_string(),
        "did:web:example.com".to_string(),
    ])
    .expect("valid actors");

    assert_eq!(actors, ["did:plc:abc", "did:web:example.com"]);
}

#[test]
fn rejects_handles() {
    let error = validate_actors(vec!["desertthunder.dev".to_string()]).expect_err("handle should be rejected");
    assert!(error.contains("must be a DID"));
}

fn event(record: &str) -> JetstreamEvent {
    JetstreamEvent {
        did: "did:plc:abc".to_string(),
        time_us: 1725911162329308i64,
        kind: "commit".to_string(),
        commit: Some(JetstreamCommit {
            operation: "create".to_string(),
            collection: "app.bsky.feed.post".to_string(),
            rkey: "3abc".to_string(),
            record: Some(parse_json(record).expect("record")),
        }),
    }
}

#[test]
fn extracts_top_level_post_from_jetstream_event() {
    let event = event(
        r#"{"$type": "app.bsky.feed.post", "text": "hello", "createdAt": "2026-05-11T12:00:00.000Z"}"#,
    );

    assert_eq!(
        jetstream_top_level_post(&event),
        Some((
            "2026-05-11T12:00:00.000Z".to_string(),
            "at://did:plc:abc/app.bsky.feed.post/3abc".to_string(),
        ))
    );
}

#[test]
fn skips_replies_from_jetstream_event() {
    let event = event(
        r#"{
            "$type": "app.bsky.feed.post",
            "text": "hello",
            "createdAt": "2026-05-11T12:00:00.000Z",
            "reply": {
                "root": {"uri": "at://did:plc:abc/app.bsky.feed.post/3root", "cid": "bafy"},
                "parent": {"uri": "at://did:plc:abc/app.bsky.feed.post/3root", "cid": "bafy"}
            }
        }"#,
    );

    assert_eq!(jetstream_top_level_post(&event), None);
}

#[test]
fn rejects_empty_and_oversized_actor_lists() {
    assert_eq!(validate_actors(vec![]), Err("actors must contain at least one DID".to_string()));
    let many = (0..101).map(|i| format!("did:plc:{i}")).collect::<Vec<_>>();
    assert_eq!(validate_actors(many), Err("actors must contain at most 100 DIDs".to_string()));
    let hundred = (0..100).map(|i| format!("did:plc:{i}")).collect::<Vec<_>>();
    assert_eq!(validate_actors(hundred.clone()), Ok(hundred));
}

#[test]
fn reports_the_first_invalid_actor_quoted() {
    let error = validate_actors(vec!["did:plc:a".to_string(), "did:plc:has space".to_string(), "bob".to_string()])
        .expect_err("whitespace is refused");
    assert_eq!(error, "actor \"did:plc:has space\" must be a DID");
}

#[test]
fn keeps_first_occurrences_in_order() {
    let actors = validate_actors(vec![
        "did:plc:b".to_string(),
        "did:plc:a".to_string(),
        "did:plc:b".to_string(),
        "did:plc:c".to_string(),
        "did:plc:a".to_string(),
    ])
    .unwrap();
    assert_eq!(actors, ["did:plc:b", "did:plc:a", "did:plc:c"]);
}

#[test]
fn checks_stale_window() {
    assert_eq!(stale_after_seconds(None), Ok(86_400));
    assert_eq!(stale_after_seconds(Some(60)), Ok(60));
    assert_eq!(stale_after_seconds(Some(604_800)), Ok(604_800));
    assert_eq!(
        stale_after_seconds(Some(59)),
        Err("staleAfterSeconds must be between 60 and 604800".to_string())
    );
    assert!(stale_after_seconds(Some(604_801)).is_err());
}

#[test]
fn labels_sources() {
    assert_eq!(source_label("author_feed"), "authorFeed");
    assert_eq!(source_label("jetstream"), "jetstream");
    assert_eq!(source_label("repair"), "repair");
    assert_eq!(source_label("other"), "unknown");
}

#[test]
fn grades_confidence() {
    let now = (1_000_000i64, 0u32);
    assert_eq!(confidence_label("empty", None, now, 60), "empty");
    assert_eq!(confidence_label("fresh", None, now, 60), "unknown");
    assert_eq!(confidence_label("fresh", Some((1_000_000 - 61, 0)), now, 60), "stale");
    assert_eq!(confidence_label("fresh", Some((1_000_000 - 60, 0)), now, 60), "fresh");
    // 60.5 seconds old counts as 60 whole seconds.
    assert_eq!(confidence_label("fresh", Some((1_000_000 - 61, 500_000_000)), now, 60), "fresh");
}

fn row(did: &str, confidence: &str, checked_at: &str) -> DbActorLastPost {
    DbActorLastPost {
        did: did.to_string(),
        last_post_at: Some("2026-05-11T12:00:00.000Z".to_string()),
        last_post_uri: Some("at://did:plc:abc/app.bsky.feed.post/3abc".to_string()),
        source: "jetstream".to_string(),
        confidence: confidence.to_string(),
        checked_at: checked_at.to_string(),
    }
}

#[test]
fn decides_each_actor() {
    let rows = vec![row("did:plc:abc", "fresh", "2026-05-11T12:00:00Z"), row("did:plc:old", "fresh", "not a time")];
    let now = (1_778_500_800i64 + 86_400 * 365, 0u32);

    let found = decide_actor("did:plc:abc", &rows, now, 86_400, true);
    let item = found.item.expect("stored row");
    assert_eq!(item.source, "jetstream");
    assert_eq!(item.confidence, "stale");
    assert!(found.enqueue && !found.missing);

    let unknown = decide_actor("did:plc:old", &rows, now, 86_400, true);
    assert_eq!(unknown.item.expect("row").confidence, "unknown");
    assert!(!unknown.enqueue);

    let missing = decide_actor("did:plc:none", &rows, now, 86_400, false);
    assert!(missing.item.is_none() && missing.missing && !missing.enqueue);
}

#[test]
fn builds_jetstream_urls() {
    assert_eq!(
        jetstream_url("wss://example.test/subscribe", None),
        "wss://example.test/subscribe?wantedCollections=app.bsky.feed.post"
    );
    assert_eq!(
        jetstream_url("wss://example.test/subscribe?x=1", Some(-42)),
        "wss://example.test/subscribe?x=1&wantedCollections=app.bsky.feed.post&cursor=-42"
    );
}

#[test]
fn reads_records_given_as_arrays_and_other_types() {
    let typed = event(r#"["app.bsky.feed.post", "2026-05-11T12:00:00.000Z", null]"#);
    assert!(jetstream_top_level_post(&typed).is_some());
    let other_type = event(r#"{"$type": "app.bsky.feed.like", "createdAt": "2026-05-11T12:00:00.000Z"}"#);
    assert_eq!(jetstream_top_level_post(&other_type), None);
    let untyped = event(r#"{"createdAt": "2026-05-11T12:00:00.000Z", "reply": null}"#);
    assert!(jetstream_top_level_post(&untyped).is_some());
    let no_time = event(r#"{"$type": "app.bsky.feed.post"}"#);
    assert_eq!(jetstream_top_level_post(&no_time), None);
}

#[test]
fn steps_the_worker_through_events() {
    let post = event(r#"{"$type":"app.bsky.feed.post","text":"hi","createdAt":"2026-05-11T12:00:00.000Z"}"#);
    let step = jetstream_step(&post);
    assert_eq!(step.cursor, 1725911162329308);
    assert_eq!(
        step.post,
        Some(("2026-05-11T12:00:00.000Z".to_string(), "at://did:plc:abc/app.bsky.feed.post/3abc".to_string()))
    );

    let mut identity = event(r#"{"$type":"app.bsky.feed.post","createdAt":"2026-05-11T12:00:00.000Z"}"#);
    identity.kind = "identity".to_string();
    identity.time_us = 7;
    let step = jetstream_step(&identity);
    assert_eq!(step.cursor, 7);
    assert_eq!(step.post, None);

    let reply = event(
        r#"{"$type":"app.bsky.feed.post","createdAt":"2026-05-11T12:00:00.000Z","reply":{"root":{},"parent":{}}}"#,
    );
    assert_eq!(jetstream_step(&reply).post, None);
}
