use atp_tools::follows::{
    add_follows_page, cache_base_dir, cache_is_fresh, follow_sync_cache_path, hash_follows, next_cursor, profile_url,
    report_cache_key, report_cache_path, sanitize_cache_component, sort_report, Follow, FollowLastPost, FollowsReport,
    FollowsSort, FollowsSortDirection, FollowsSortField, last_path_segment, follows_limit_reached, FollowsReportError,
};
use atp_tools::client::ClientError;
use atp_tools::follows::{follows_next_page, new_follow_sync_cache, sync_cache_use, CacheUse, FeedWalk};
use atp_tools::parallel::ParallelTaskError;

fn report(follows: Vec<FollowLastPost>) -> FollowsReport {
    FollowsReport {
        actor: "actor.test".to_string(),
        actor_did: "did:plc:actor".to_string(),
        cache_key: "cache".to_string(),
        cache_path: "cache.json".to_string(),
        generated_at_unix: 0,
        follows_hash: "hash".to_string(),
        follows,
    }
}

fn follow(handle: &str, last_post_at: Option<&str>) -> FollowLastPost {
    FollowLastPost {
        handle: handle.to_string(),
        did: format!("did:plc:{handle}"),
        profile_url: profile_url(handle),
        last_post_at: last_post_at.map(str::to_string),
        last_post_rkey: None,
        last_post_url: None,
    }
}

fn handles(report: &FollowsReport) -> Vec<&str> {
    report.follows.iter().map(|follow| follow.handle.as_str()).collect()
}

fn sync_follow(handle: &str) -> Follow {
    Follow { handle: handle.to_string(), did: format!("did:plc:{handle}"), profile_url: profile_url(handle) }
}

#[test]
fn sorts_last_post_at_with_missing_values_last() {
    let mut report = report(vec![
        follow("newer", Some("2026-05-10T10:00:00.000Z")),
        follow("missing", None),
        follow("older", Some("2026-05-09T10:00:00.000Z")),
    ]);

    sort_report(
        &mut report,
        FollowsSort { field: FollowsSortField::LastPostAt, direction: FollowsSortDirection::Asc },
    );
    assert_eq!(handles(&report), ["older", "newer", "missing"]);

    sort_report(
        &mut report,
        FollowsSort { field: FollowsSortField::LastPostAt, direction: FollowsSortDirection::Desc },
    );
    assert_eq!(handles(&report), ["newer", "older", "missing"]);
}

#[test]
fn sorts_handles_descending() {
    let mut report = report(vec![follow("alpha", None), follow("charlie", None), follow("bravo", None)]);

    sort_report(&mut report, FollowsSort { field: FollowsSortField::Handle, direction: FollowsSortDirection::Desc });

    assert_eq!(handles(&report), ["charlie", "bravo", "alpha"]);
}

#[test]
fn hashes_follow_lists_by_content_not_order() {
    let left = vec![sync_follow("bravo"), sync_follow("alpha")];
    let right = vec![sync_follow("alpha"), sync_follow("bravo")];

    assert_eq!(hash_follows(&left), hash_follows(&right));
}

#[test]
fn hashes_change_when_follow_list_changes() {
    let before = vec![sync_follow("alpha"), sync_follow("bravo")];
    let changed = vec![sync_follow("alpha"), sync_follow("charlie")];

    assert_ne!(hash_follows(&before), hash_follows(&changed));
}

#[test]
fn hashes_as_lowercase_sha256_hex() {
    let hash = hash_follows(&[]);
    assert_eq!(hash.len(), 64);
    assert!(hash.chars().all(|c| c.is_ascii_hexdigit() && !c.is_ascii_uppercase()));
    // SHA-256 of the single version byte 0x01.
    assert_eq!(hash, "4bf5122f344554c53bde2ebb8cd2b7e3d1600ad631c385a5d7cce23c7785459a");
}

#[test]
fn empty_values_sort_with_missing_ones() {
    let mut report = report(vec![follow("blank", Some("")), follow("dated", Some("2026-01-01")), follow("alpha", None)]);
    sort_report(&mut report, FollowsSort { field: FollowsSortField::LastPostAt, direction: FollowsSortDirection::Asc });
    assert_eq!(handles(&report), ["dated", "alpha", "blank"]);
}

#[test]
fn names_cache_files() {
    assert_eq!(sanitize_cache_component("did:plc:ab_c"), "did-plc-ab-c");
    assert_eq!(cache_base_dir(Some("/xdg"), Some("/home/u")), Some("/xdg/atproto-tools".to_string()));
    assert_eq!(cache_base_dir(None, Some("/home/u")), Some("/home/u/.cache/atproto-tools".to_string()));
    assert_eq!(cache_base_dir(None, None), None);
    assert_eq!(
        follow_sync_cache_path("/c", "did:plc:x", Some(5)),
        "/c/bsky-follow-sync/did-plc-x-limit-5.json"
    );
    assert_eq!(follow_sync_cache_path("/c", "did:plc:x", None), "/c/bsky-follow-sync/did-plc-x-all.json");
    assert_eq!(report_cache_path("/c", "did:plc:x", "abc"), "/c/bsky-follows/did-plc-x-abc.json");
    let key = report_cache_key("did:plc:x", "x.test", 2, "hash");
    // SHA-256 of [2] "did:plc:x" 0 "x.test" 0 "2" 0 "hash".
    assert_eq!(key, "798a151b45bf4c09c08543683654b148c97c1723456074871998db2b282f0313");
    assert_eq!(key.len(), 64);
    assert!(key.chars().all(|c| c.is_ascii_hexdigit() && !c.is_ascii_uppercase()));
    assert_ne!(key, report_cache_key("did:plc:y", "x.test", 2, "hash"));
    assert_ne!(key, report_cache_key("did:plc:x", "y.test", 2, "hash"));
    assert_ne!(key, report_cache_key("did:plc:x", "x.test", 3, "hash"));
    assert_ne!(key, report_cache_key("did:plc:x", "x.test", 2, "other"));
}

#[test]
fn judges_cache_freshness() {
    assert!(cache_is_fresh(0, None, Some(1_000_000)));
    assert!(cache_is_fresh(0, Some(10), None));
    assert!(cache_is_fresh(100, Some(10), Some(109)));
    assert!(!cache_is_fresh(100, Some(10), Some(110)));
    assert!(cache_is_fresh(200, Some(10), Some(100)));
}

#[test]
fn pages_follows() {
    let mut follows = vec![1, 2];
    add_follows_page(&mut follows, vec![3, 4, 5], Some(4));
    assert_eq!(follows, [1, 2, 3, 4]);
    assert!(follows_limit_reached(follows.len(), Some(4)));
    assert!(!follows_limit_reached(follows.len(), None));
    assert_eq!(next_cursor(Some("abc".to_string())), Some("abc".to_string()));
    assert_eq!(next_cursor(Some(String::new())), None);
    assert_eq!(next_cursor(None), None);
}

#[test]
fn takes_record_keys_from_uris() {
    assert_eq!(last_path_segment("at://did:plc:a/app.bsky.feed.post/3abc"), "3abc");
    assert_eq!(last_path_segment("at://did:plc:a/app.bsky.feed.post/"), "");
    assert_eq!(last_path_segment("plain"), "plain");
}

#[test]
fn describes_each_follows_report_error() {
    let client = || ClientError::UnsupportedDid("did:key:z".to_string());
    assert_eq!(
        FollowsReportError::Client(client()).message(),
        "unsupported DID method for repository lookup: did:key:z"
    );
    assert_eq!(
        FollowsReportError::ParallelFetch(ParallelTaskError::Task(client())).message(),
        "failed to fetch follow posts in parallel: parallel task failed: unsupported DID method for repository lookup: did:key:z"
    );
    assert_eq!(
        FollowsReportError::ParallelFetch(ParallelTaskError::InvalidMaxParallel).message(),
        "failed to fetch follow posts in parallel: max_parallel must be greater than zero"
    );
    assert_eq!(
        FollowsReportError::ParallelFetch(ParallelTaskError::Join("cancelled".to_string())).message(),
        "failed to fetch follow posts in parallel: parallel task failed to join: cancelled"
    );
    assert_eq!(
        FollowsReportError::MissingCacheDir.message(),
        "could not determine cache directory; set XDG_CACHE_HOME or HOME"
    );
    let path = || "/c/f.json".to_string();
    let message = || "denied".to_string();
    assert_eq!(
        FollowsReportError::CreateCacheDir { path: path(), message: message() }.message(),
        "failed to create cache directory at /c/f.json: denied"
    );
    assert_eq!(
        FollowsReportError::ReadCache { path: path(), message: message() }.message(),
        "failed to read cache at /c/f.json: denied"
    );
    assert_eq!(
        FollowsReportError::ParseCache { path: path(), message: message() }.message(),
        "failed to parse cache at /c/f.json: denied"
    );
    assert_eq!(FollowsReportError::SerializeCache("bad".to_string()).message(), "failed to serialize cache: bad");
    assert_eq!(
        FollowsReportError::WriteCache { path: path(), message: message() }.message(),
        "failed to write cache at /c/f.json: denied"
    );
}

#[test]
fn walks_at_most_the_allowed_pages() {
    let mut walk = FeedWalk::new(2);
    assert!(!walk.done);
    walk.after_page(Some("c1".to_string()));
    assert!(!walk.done);
    assert_eq!(walk.cursor, Some("c1".to_string()));
    walk.after_page(Some("c2".to_string()));
    assert!(walk.done);
    assert_eq!(walk.pages_fetched, 2);

    let mut short = FeedWalk::new(5);
    short.after_page(Some(String::new()));
    assert!(short.done);
    let mut ended = FeedWalk::new(5);
    ended.after_page(None);
    assert!(ended.done);
    assert!(FeedWalk::new(0).done);
}

#[test]
fn pages_follow_lists_until_the_limit() {
    assert_eq!(follows_next_page(3, None, Some("next".to_string())), Some("next".to_string()));
    assert_eq!(follows_next_page(3, Some(3), Some("next".to_string())), None);
    assert_eq!(follows_next_page(2, Some(3), Some(String::new())), None);
    assert_eq!(follows_next_page(2, Some(3), None), None);
}

#[test]
fn decides_on_cached_follow_lists() {
    let cache = new_follow_sync_cache("a.test".to_string(), "did:plc:a".to_string(), 1_000, Vec::new());
    assert_eq!(sync_cache_use(&cache, Some(100), Some(1_050)), CacheUse::Hit);
    assert_eq!(sync_cache_use(&cache, Some(100), Some(1_200)), CacheUse::Stale);
    assert_eq!(sync_cache_use(&cache, None, Some(9_999_999)), CacheUse::Hit);
    let mut old = cache.clone();
    old.version = cache.version + 1;
    assert_eq!(sync_cache_use(&old, Some(100), Some(1_050)), CacheUse::Outdated);
}
