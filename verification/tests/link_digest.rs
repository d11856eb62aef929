use atp_tools::bsky_models::{ActorDefsProfileViewBasic, FeedDefsFeedViewPost, FeedDefsPostView};
use atp_tools::follows::{select_last_post, select_top_level_post};
use atp_tools::json::{parse_json, JsonValue};
use atp_tools::link_digest::{extract_external_link_post, page_links, post_matches_window, AuthorFeedLinkOptions};

fn author(did: &str, handle: &str) -> ActorDefsProfileViewBasic {
    ActorDefsProfileViewBasic {
        associated: None,
        avatar: None,
        created_at: None,
        debug: None,
        did: did.to_string(),
        display_name: None,
        handle: handle.to_string(),
        labels: None,
        pronouns: None,
        status: None,
        verification: None,
        viewer: None,
    }
}

fn post_view(uri: &str, record: &str, indexed_at: &str) -> FeedDefsPostView {
    FeedDefsPostView {
        author: author("did:plc:author", "author.test"),
        bookmark_count: None,
        cid: "bafy".to_string(),
        debug: None,
        embed: None,
        indexed_at: indexed_at.to_string(),
        labels: None,
        like_count: None,
        quote_count: None,
        record: parse_json(record).expect("post view"),
        reply_count: None,
        repost_count: None,
        threadgate: None,
        uri: uri.to_string(),
        viewer: None,
    }
}

#[test]
fn extracts_external_embed_link_post() {
    let mut post = post_view(
        "at://did:plc:author/app.bsky.feed.post/abc",
        r#"{
            "$type": "app.bsky.feed.post",
            "createdAt": "2026-05-14T01:55:12.540Z",
            "embed": {
                "$type": "app.bsky.embed.external",
                "external": {
                    "description": "A rounded display face.",
                    "title": "Sniglet - Google Fonts",
                    "uri": "https://fonts.google.com/specimen/Sniglet"
                }
            },
            "text": "fonts.google.com/specimen/Sni..."
        }"#,
        "2026-05-14T01:55:14.174Z",
    );
    post.bookmark_count = Some(2);
    post.like_count = Some(5);
    post.repost_count = Some(3);

    let link = extract_external_link_post(&post).expect("external link");

    assert_eq!(link.author, "author.test");
    assert_eq!(link.author_did, "did:plc:author");
    assert_eq!(link.post_uri, "at://did:plc:author/app.bsky.feed.post/abc");
    assert_eq!(link.created_at.as_deref(), Some("2026-05-14T01:55:12.540Z"));
    assert_eq!(link.external_uri, "https://fonts.google.com/specimen/Sniglet");
    assert_eq!(link.title, "Sniglet - Google Fonts");
    assert_eq!(link.description, "A rounded display face.");
    assert_eq!(link.bookmark_count, 2);
    assert_eq!(link.repost_count, 3);
    assert_eq!(link.like_count, 5);
}

#[test]
fn skips_non_external_embeds() {
    let post = post_view(
        "at://did:plc:author/app.bsky.feed.post/abc",
        r#"{
            "$type": "app.bsky.feed.post",
            "embed": {
                "$type": "app.bsky.embed.images",
                "images": []
            },
            "text": "image post"
        }"#,
        "2026-05-14T01:55:14.174Z",
    );

    assert_eq!(extract_external_link_post(&post), None);
}

#[test]
fn fills_missing_card_text_and_counts() {
    let post = post_view(
        "at://did:plc:author/app.bsky.feed.post/x",
        r#"{"embed": {"$type": "app.bsky.embed.external", "external": {"uri": "https://a.test", "title": 7}}}"#,
        "2026-01-01T00:00:00Z",
    );
    let link = extract_external_link_post(&post).expect("link");
    assert_eq!(link.title, "");
    assert_eq!(link.description, "");
    assert_eq!(link.created_at, None);
    assert_eq!(link.like_count, 0);
    let no_uri = post_view("u", r#"{"embed": {"$type": "app.bsky.embed.external", "external": {}}}"#, "t");
    assert_eq!(extract_external_link_post(&no_uri), None);
}

#[test]
fn windows_posts_by_creation_or_index_time() {
    let dated = post_view("u", r#"{"createdAt": "2026-05-10T00:00:00Z"}"#, "2030-01-01T00:00:00Z");
    let undated = post_view("u", r#"{}"#, "2026-05-12T00:00:00Z");
    let options = AuthorFeedLinkOptions {
        since: Some("2026-05-10T00:00:00Z".to_string()),
        until: Some("2026-05-12T00:00:00Z".to_string()),
        limit: 100,
        max_pages: 5,
    };
    assert!(post_matches_window(&dated, &options));
    assert!(!post_matches_window(&undated, &options));
    assert!(post_matches_window(&undated, &AuthorFeedLinkOptions::default()));
    assert_eq!(AuthorFeedLinkOptions { limit: 250, ..AuthorFeedLinkOptions::default() }.page_limit(), 100);
}

fn item(uri: &str, did: &str, handle: &str, repost: bool, reply: bool) -> FeedDefsFeedViewPost {
    let mut post = post_view(uri, r#"{"createdAt": "2026-05-01T00:00:00Z"}"#, "2026-05-02T00:00:00Z");
    post.author = author(did, handle);
    FeedDefsFeedViewPost {
        feed_context: None,
        post,
        reason: if repost { Some(JsonValue::Null) } else { None },
        reply: if reply {
            Some(atp_tools::bsky_models::FeedDefsReplyRef {
                grandparent_author: None,
                parent: JsonValue::Null,
                root: JsonValue::Null,
            })
        } else {
            None
        },
        req_id: None,
    }
}

#[test]
fn picks_latest_posts_from_feeds() {
    let feed = vec![
        item("at://did:plc:a/app.bsky.feed.post/1", "did:plc:a", "a.test", true, false),
        item("at://did:plc:a/app.bsky.feed.post/2", "did:plc:a", "a.test", false, true),
        item("at://did:plc:a/app.bsky.feed.post/3", "did:plc:a", "", false, false),
    ];
    let last = select_last_post(&feed, "did:plc:a").expect("reply counts");
    assert_eq!(last.rkey, "2");
    assert_eq!(last.url, "https://bsky.app/profile/a.test/post/2");
    assert_eq!(last.created_at, "2026-05-01T00:00:00Z");
    let top = select_top_level_post(&feed, "did:plc:a").expect("top-level post");
    assert_eq!(top.uri, "at://did:plc:a/app.bsky.feed.post/3");
    assert!(select_top_level_post(&feed, "did:plc:b").is_none());
    let without_handle = vec![item("at://did:plc:a/app.bsky.feed.post/9", "did:plc:a", "", false, false)];
    assert_eq!(
        select_last_post(&without_handle, "did:plc:a").unwrap().url,
        "https://bsky.app/profile/did:plc:a/post/9"
    );
}

#[test]
fn collects_page_links_in_order() {
    let link = r#"{"createdAt": "2026-05-01T00:00:00Z", "embed": {"$type": "app.bsky.embed.external", "external": {"uri": "https://x.test"}}}"#;
    let mut feed = vec![item("u1", "d", "h", false, false), item("u2", "d", "h", false, false)];
    feed[1].post.record = parse_json(link).unwrap();
    let links = page_links(&feed, &AuthorFeedLinkOptions::default());
    assert_eq!(links.len(), 1);
    assert_eq!(links[0].post_uri, "u2");
}
