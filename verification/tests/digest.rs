use atp_tools::digest::{
    aggregate_digest_links, checked_aggregate_digest_links, digest_seen_time, link_digest_markdown,
    link_digest_markdown_checked,
    markdown_plain_text, rank_digest_links, render_link_digest, DigestLink,
};
use atp_tools::calendar::{civil_from_days, utc_date_from_days};
use atp_tools::link_digest::ExternalLinkPost;

fn share(url: &str, post: &str, author: &str, at: &str, likes: i64) -> ExternalLinkPost {
    ExternalLinkPost {
        author: author.to_string(),
        author_did: format!("did:plc:{author}"),
        post_uri: post.to_string(),
        indexed_at: "2026-05-14T09:00:00.000Z".to_string(),
        created_at: Some(at.to_string()),
        external_uri: url.to_string(),
        title: String::new(),
        description: String::new(),
        bookmark_count: 1,
        repost_count: 2,
        like_count: likes,
    }
}

#[test]
fn tallies_links_per_url() {
    let mut first = share("https://b.test", "at://p/1", "ann", "2026-05-14T10:30:00.000Z", 3);
    first.title = "B".to_string();
    let links = vec![
        first,
        share("https://a.test", "at://p/2", "bob", "2026-05-13T08:00:00.000Z", 1),
        share("https://b.test", "at://p/3", "cat", "2026-05-12T07:15:00.000Z", 4),
        share("https://b.test", "at://p/1", "ann", "2026-05-14T10:30:00.000Z", 3),
    ];
    let digest = aggregate_digest_links(links.clone());
    let checked = checked_aggregate_digest_links(links).expect("counts fit");
    assert_eq!(checked.len(), 2);
    assert_eq!(checked[1].like_count, 7);
    assert_eq!(digest.len(), 2);
    assert_eq!(digest[0].uri, "https://a.test");
    assert_eq!(digest[1].uri, "https://b.test");
    let b = &digest[1];
    assert_eq!(b.title, "B");
    assert_eq!(b.shares.len(), 2);
    assert_eq!(b.like_count, 7);
    assert_eq!(b.score(), 2 + 4 + 7);
    assert_eq!(b.distinct_sharers(), ["ann", "cat"]);
    assert_eq!(b.distinct_sharer_count(), 2);
    assert_eq!(b.first_seen(), "2026-05-12T07:15:00.000Z");
    assert_eq!(b.last_seen(), "2026-05-14T10:30:00.000Z");
}

#[test]
fn counts_a_post_once_for_each_sharer() {
    let mut again = share("https://a.test", "at://p/1", "ann", "2026-05-14T10:30:00.000Z", 3);
    again.author_did = "did:plc:other".to_string();
    again.title = "Late title".to_string();
    let links = vec![share("https://a.test", "at://p/1", "ann", "2026-05-14T10:30:00.000Z", 3), again];
    let digest = aggregate_digest_links(links);
    assert_eq!(digest[0].shares.len(), 2);
    assert_eq!(digest[0].like_count, 3);
    assert_eq!(digest[0].title, "Late title");
}

fn link(uri: &str, title: &str, sharers: &[&str], likes: i64) -> DigestLink {
    DigestLink {
        uri: uri.to_string(),
        title: title.to_string(),
        description: String::new(),
        bookmark_count: 0,
        repost_count: 0,
        like_count: likes,
        shares: sharers
            .iter()
            .enumerate()
            .map(|(i, s)| share(uri, &format!("at://{s}/{i}"), s, "2026-05-14T10:30:00.000Z", 0))
            .collect(),
    }
}

#[test]
fn ranks_by_sharers_score_title_and_url() {
    let links = vec![
        link("https://d.test", "D", &["a"], 100),
        link("https://c.test", "C", &["a", "b"], 1),
        link("https://b.test", "B", &["a", "b"], 5),
        link("https://a.test", "B", &["a", "b"], 5),
        link("https://e.test", "E", &["a"], 0),
    ];
    let ranked = rank_digest_links(links, 3, 1, 1);
    let uris: Vec<&str> = ranked.iter().map(|l| l.uri.as_str()).collect();
    assert_eq!(uris, ["https://a.test", "https://b.test", "https://c.test"]);
    let strict = rank_digest_links(vec![link("https://d.test", "D", &["a"], 100)], 10, 0, 2);
    assert!(strict.is_empty());
}

#[test]
fn renders_markdown_sections() {
    let mut l = link("https://a.test", "", &["bob", "amy", "bob"], 1);
    l.shares[1].created_at = Some("2026-05-13T08:05:00.000Z".to_string());
    let text = render_link_digest(&vec![l], "2026-05-14");
    assert_eq!(
        text,
        "---\ntitle: Social Links\ndate: 2026-05-14\n---\n\n## https://a.test\n\nURL: <https://a.test>\n\nShared by:\n\n- @amy\n- @bob\n\nFirst seen: 08:05\nLast seen: 10:30\n\n"
    );
}

#[test]
fn builds_whole_digest() {
    let links = vec![
        share("https://a.test", "at://p/1", "ann", "2026-05-14T10:30:00.000Z", 3),
        share("https://a.test", "at://p/2", "bob", "2026-05-14T11:00:00.000Z", 0),
    ];
    let checked = link_digest_markdown_checked(links.clone(), 10, 0, 2, "2026-05-15");
    let text = link_digest_markdown(links, 10, 0, 2, "2026-05-15");
    assert_eq!(checked.as_deref(), Some(text.as_str()));
    assert!(text.starts_with("---\ntitle: Social Links\ndate: 2026-05-15\n---\n\n## https://a.test\n"));
    assert!(text.contains("- @ann\n- @bob\n"));
}

#[test]
fn shows_clock_times() {
    assert_eq!(digest_seen_time("2026-05-14T10:30:00.000Z"), "10:30");
    assert_eq!(digest_seen_time("2026-05-14"), "2026-05-14");
    assert_eq!(digest_seen_time("2026-05-14 10-30-00"), "2026-05-14 10-30-00");
    assert_eq!(digest_seen_time(""), "");
    // A multi-byte character before byte 11 moves the slice off the time.
    assert_eq!(digest_seen_time("2026-05-é4T10:30:00"), "2026-05-é4T10:30:00");
}

#[test]
fn collapses_whitespace() {
    assert_eq!(markdown_plain_text("  Hello \n\t world  "), "Hello world");
    assert_eq!(markdown_plain_text("   "), "");
    assert_eq!(markdown_plain_text("one"), "one");
}

#[test]
fn converts_days_to_dates() {
    assert_eq!(civil_from_days(0), (1970, 1, 1));
    assert_eq!(civil_from_days(-1), (1969, 12, 31));
    assert_eq!(civil_from_days(59), (1970, 3, 1));
    assert_eq!(civil_from_days(11016), (2000, 2, 29));
    assert_eq!(civil_from_days(20586), (2026, 5, 13));
    assert_eq!(utc_date_from_days(0), "1970-01-01");
    assert_eq!(utc_date_from_days(20586), "2026-05-13");
}

#[test]
fn keeps_february_within_its_length() {
    assert_eq!(civil_from_days(19782), (2024, 2, 29));
    assert_eq!(civil_from_days(19783), (2024, 3, 1));
    assert_eq!(civil_from_days(47540), (2100, 2, 28));
    assert_eq!(civil_from_days(47541), (2100, 3, 1));
    assert_eq!(civil_from_days(-25508), (1900, 3, 1));
    assert_eq!(civil_from_days(-25509), (1900, 2, 28));
}

#[test]
fn refuses_counts_that_do_not_fit() {
    let mut big = share("https://a.test", "at://p/1", "ann", "2026-05-14T10:30:00.000Z", i64::MAX);
    big.title = "A".to_string();
    let other = share("https://a.test", "at://p/2", "bob", "2026-05-14T11:00:00.000Z", 1);
    // The running like count overflows when the second post is added.
    assert!(checked_aggregate_digest_links(vec![big.clone(), other.clone()]).is_none());
    assert!(link_digest_markdown_checked(vec![big.clone(), other], 10, 0, 1, "2026-05-15").is_none());
    // Each count fits, but the score (bookmarks + reposts + likes) does not.
    let mut wide = big.clone();
    wide.bookmark_count = 1;
    assert!(checked_aggregate_digest_links(vec![wide.clone()]).is_some());
    assert!(link_digest_markdown_checked(vec![wide], 10, 0, 1, "2026-05-15").is_none());
    // Negative counts are fine as long as the sums fit.
    let mut negative = big;
    negative.like_count = -3;
    assert!(link_digest_markdown_checked(vec![negative], 10, i64::MIN, 1, "2026-05-15").is_some());
}
