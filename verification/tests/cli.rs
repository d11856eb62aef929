use atp_tools::cli::{
    follows_options, follows_status, follows_table, opt, should_show_progress, column_widths, FollowsSortFieldArg,
};
use atp_tools::follows::{FollowLastPost, FollowsProgress, FollowsSortDirection, FollowsSortField};
use atp_tools::author_feed::{author_feed_query, AuthorFeedFetchOptions, AuthorFeedFilter};

#[test]
fn picks_the_requested_sort() {
    let default = follows_options(None, None, false, false, None, None);
    assert_eq!(default.sort.field, FollowsSortField::LastPostAt);
    assert_eq!(default.sort.direction, FollowsSortDirection::Asc);
    assert_eq!(default.recache_after, Some(86_400));
    let desc = follows_options(Some(3), Some(FollowsSortFieldArg::Handle), false, true, None, None);
    assert_eq!((desc.sort.field, desc.sort.direction, desc.limit), (FollowsSortField::Handle, FollowsSortDirection::Desc, Some(3)));
    let both = follows_options(None, None, true, true, None, None);
    assert_eq!(both.sort.direction, FollowsSortDirection::Asc);
    let shorthand = follows_options(None, None, false, false, None, Some(FollowsSortFieldArg::Did));
    assert_eq!((shorthand.sort.field, shorthand.sort.direction), (FollowsSortField::Did, FollowsSortDirection::Desc));
}

#[test]
fn reports_progress_sparingly() {
    assert!(should_show_progress(1, 100));
    assert!(should_show_progress(50, 100));
    assert!(should_show_progress(100, 100));
    assert!(!should_show_progress(51, 100));
    assert_eq!(follows_status(&FollowsProgress::CacheHit { path: "/c.json".to_string(), count: 3 }).unwrap(), "cache hit: 3 follows from /c.json");
    assert_eq!(follows_status(&FollowsProgress::FetchingLastPosts { completed: 1, total: 2 }), None);
    assert_eq!(opt("key", Some("v".to_string())), Some(("key".to_string(), "v".to_string())));
    assert_eq!(opt("key", None), None);
}

#[test]
fn lays_out_the_follows_table() {
    let rows = vec![FollowLastPost {
        handle: "alice.test".to_string(),
        did: "did:plc:a".to_string(),
        profile_url: "https://bsky.app/profile/alice.test".to_string(),
        last_post_at: None,
        last_post_url: Some("https://bsky.app/profile/alice.test/post/1".to_string()),
        last_post_rkey: Some("1".to_string()),
    }];
    assert_eq!(column_widths(&rows), [10, 9, 35, 10]);
    let lines = follows_table(&rows);
    assert_eq!(
        lines[0],
        format!("{:<10}  {:<9}  {:<35}  {:<10}  lastPost", "handle", "did", "profile", "lastPostAt")
    );
    assert_eq!(
        lines[1],
        format!(
            "{:<10}  {:<9}  {:<35}  {:<10}  {}",
            "alice.test", "did:plc:a", "https://bsky.app/profile/alice.test", "", "https://bsky.app/profile/alice.test/post/1"
        )
    );
}

#[test]
fn builds_author_feed_queries() {
    let mut options = AuthorFeedFetchOptions::default();
    options.limit = 500;
    let query = author_feed_query("did:plc:a", options, &Some("cur".to_string()));
    let expected: Vec<(String, String)> = [
        ("actor", "did:plc:a"),
        ("limit", "100"),
        ("filter", "posts_with_replies"),
        ("includePins", "false"),
        ("cursor", "cur"),
    ]
    .iter()
    .map(|(k, v)| (k.to_string(), v.to_string()))
    .collect();
    assert_eq!(query, expected);
    assert_eq!(AuthorFeedFilter::PostsNoReplies.as_str(), "posts_no_replies");
}
