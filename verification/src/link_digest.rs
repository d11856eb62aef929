//! Posts of followed accounts that share a link card, taken from their author feeds.
use vstd::prelude::*;
use vstd::string::*;
use crate::bsky_models::{FeedDefsFeedViewPost, FeedDefsPostView};
use crate::follows::{opt_view, post_view_date, post_view_time};
use crate::json::JsonValue;
use crate::text::{Order, compare_str, copy_str, lemma_seq_less_irreflexive, seq_less, str_eq};

verus! {

/// Largest page the author feed serves.
pub const AUTHOR_FEED_LIMIT: u16 = 100;

/// Pages read per author by default.
pub const AUTHOR_FEED_MAX_PAGES: usize = 5;

/// The `$type` of a link card embed.
pub open spec fn external_embed_type() -> Seq<char> {
    "app.bsky.embed.external"@
}

/// A post that shares a link card.
#[derive(Debug, Clone, PartialEq, Eq)]
pub struct ExternalLinkPost {
    pub author: String,
    pub author_did: String,
    pub post_uri: String,
    pub indexed_at: String,
    pub created_at: Option<String>,
    pub external_uri: String,
    pub title: String,
    pub description: String,
    pub bookmark_count: i64,
    pub repost_count: i64,
    pub like_count: i64,
}

/// Which posts to collect from each author feed.
#[derive(Debug, Clone, PartialEq, Eq)]
pub struct AuthorFeedLinkOptions {
    /// Only posts dated at or after this time.
    pub since: Option<String>,
    /// Only posts dated before this time.
    pub until: Option<String>,
    /// Posts per page (at most `AUTHOR_FEED_LIMIT` are asked for).
    pub limit: u16,
    /// Pages read per author.
    pub max_pages: usize,
}

impl Default for AuthorFeedLinkOptions {
    /// No time window, full pages, and `AUTHOR_FEED_MAX_PAGES` pages.
    fn default() -> (r: Self)
        ensures
            r.since is None,
            r.until is None,
            r.limit == AUTHOR_FEED_LIMIT,
            r.max_pages == AUTHOR_FEED_MAX_PAGES,
    {
        AuthorFeedLinkOptions { since: None, until: None, limit: AUTHOR_FEED_LIMIT, max_pages: AUTHOR_FEED_MAX_PAGES }
    }
}

impl AuthorFeedLinkOptions {
    /// The page size asked of the service: `limit`, capped at `AUTHOR_FEED_LIMIT`.
    pub fn page_limit(&self) -> (r: u16)
        ensures
            r == (if self.limit < AUTHOR_FEED_LIMIT { self.limit } else { AUTHOR_FEED_LIMIT }),
    {
        if self.limit < AUTHOR_FEED_LIMIT {
            self.limit
        } else {
            AUTHOR_FEED_LIMIT
        }
    }
}

/// Whether a post dated `at` lies in the window: not before `since`, and before `until`.
pub open spec fn in_window(at: Seq<char>, since: Option<Seq<char>>, until: Option<Seq<char>>) -> bool {
    &&& match since {
        Some(s) => !seq_less(at, s),
        None => true,
    }
    &&& match until {
        Some(u) => seq_less(at, u),
        None => true,
    }
}

pub open spec fn opt_string_view(o: Option<String>) -> Option<Seq<char>> {
    match o {
        Some(s) => Some(s@),
        None => None,
    }
}

/// Whether `post` lies in the time window of `options`, dated by `post_view_time`.
pub open spec fn post_in_window(post: FeedDefsPostView, options: AuthorFeedLinkOptions) -> bool {
    in_window(post_view_time(post), opt_string_view(options.since), opt_string_view(options.until))
}

/// Whether `post` falls in the time window of `options`.
pub fn post_matches_window(post: &FeedDefsPostView, options: &AuthorFeedLinkOptions) -> (r: bool)
    ensures
        r == post_in_window(*post, *options),
{
    let sort_at = post_view_date(post);
    proof {
        lemma_seq_less_irreflexive(sort_at@);
    }
    if let Some(since) = &options.since {
        if compare_str(sort_at, since.as_str()) == Order::Less {
            return false;
        }
    }
    if let Some(until) = &options.until {
        if compare_str(sort_at, until.as_str()) != Order::Less {
            return false;
        }
    }
    true
}

/// The `external` object of a post's link card embed: the record's `embed` must be an object
/// whose `$type` is the string `external_embed_type()` and which has a member `external`.
pub open spec fn external_object(post: FeedDefsPostView) -> Option<JsonValue> {
    match post.record.spec_get("embed"@) {
        Some(embed) => if embed.spec_get_str("$type"@) == Some(external_embed_type()) {
            embed.spec_get("external"@)
        } else {
            None
        },
        None => None,
    }
}

/// Whether `post` shares a link card with a string `uri`.
pub open spec fn has_external_link(post: FeedDefsPostView) -> bool {
    match external_object(post) {
        Some(ext) => ext.spec_get_str("uri"@) is Some,
        None => false,
    }
}

pub open spec fn str_or_empty(o: Option<Seq<char>>) -> Seq<char> {
    match o {
        Some(s) => s,
        None => Seq::empty(),
    }
}

pub open spec fn count_or_zero(o: Option<i64>) -> i64 {
    match o {
        Some(n) => n,
        None => 0,
    }
}

/// `link` is what `post` shares: its author, URIs and times, the card's `uri`, `title` and
/// `description` (empty where missing or not strings), and its counts (0 where missing).
pub open spec fn link_of_post(link: ExternalLinkPost, post: FeedDefsPostView) -> bool {
    let ext = external_object(post).unwrap();
    &&& link.author@ == post.author.handle@
    &&& link.author_did@ == post.author.did@
    &&& link.post_uri@ == post.uri@
    &&& link.indexed_at@ == post.indexed_at@
    &&& opt_string_view(link.created_at) == post.record.spec_get_str("createdAt"@)
    &&& Some(link.external_uri@) == ext.spec_get_str("uri"@)
    &&& link.title@ == str_or_empty(ext.spec_get_str("title"@))
    &&& link.description@ == str_or_empty(ext.spec_get_str("description"@))
    &&& link.bookmark_count == count_or_zero(post.bookmark_count)
    &&& link.repost_count == count_or_zero(post.repost_count)
    &&& link.like_count == count_or_zero(post.like_count)
}

fn get_str_or_empty(value: &JsonValue, key: &str) -> (r: String)
    ensures
        r@ == str_or_empty(value.spec_get_str(key@)),
{
    match value.get_str(key) {
        Some(s) => copy_str(s),
        None => String::new(),
    }
}

/// The link card `post` shares, or `None` where it shares none.
pub fn extract_external_link_post(post: &FeedDefsPostView) -> (r: Option<ExternalLinkPost>)
    ensures
        r is Some <==> has_external_link(*post),
        r matches Some(link) ==> link_of_post(link, *post),
{
    let embed = match post.record.get("embed") {
        Some(e) => e,
        None => return None,
    };
    match embed.get_str("$type") {
        Some(t) => {
            if !str_eq(t, "app.bsky.embed.external") {
                return None;
            }
        },
        None => return None,
    }
    let external = match embed.get("external") {
        Some(e) => e,
        None => return None,
    };
    let external_uri = match external.get_str("uri") {
        Some(u) => copy_str(u),
        None => return None,
    };
    let title = get_str_or_empty(external, "title");
    let description = get_str_or_empty(external, "description");
    let created_at = match post.record.get_str("createdAt") {
        Some(t) => Some(copy_str(t)),
        None => None,
    };
    Some(ExternalLinkPost {
        author: copy_str(post.author.handle.as_str()),
        author_did: copy_str(post.author.did.as_str()),
        post_uri: copy_str(post.uri.as_str()),
        indexed_at: copy_str(post.indexed_at.as_str()),
        created_at,
        external_uri,
        title,
        description,
        bookmark_count: match post.bookmark_count {
            Some(n) => n,
            None => 0,
        },
        repost_count: match post.repost_count {
            Some(n) => n,
            None => 0,
        },
        like_count: match post.like_count {
            Some(n) => n,
            None => 0,
        },
    })
}

/// Whether a feed item is kept: its post lies in the window and shares a link card.
pub open spec fn keeps_item(options: AuthorFeedLinkOptions) -> spec_fn(FeedDefsFeedViewPost) -> bool {
    |item: FeedDefsFeedViewPost| post_in_window(item.post, options) && has_external_link(item.post)
}

/// The links shared in one page of an author feed, in feed order: one for each item whose post
/// lies in the window and shares a link card.
pub fn page_links(feed: &Vec<FeedDefsFeedViewPost>, options: &AuthorFeedLinkOptions) -> (r: Vec<
    ExternalLinkPost,
>)
    ensures
        r@.len() == feed@.filter(keeps_item(*options)).len(),
        forall|k: int|
            0 <= k < r@.len() ==> link_of_post(#[trigger] r@[k], feed@.filter(keeps_item(*options))[k].post),
{
    let ghost keep = keeps_item(*options);
    let mut links: Vec<ExternalLinkPost> = Vec::new();
    let mut i: usize = 0;
    while i < feed.len()
        invariant
            0 <= i <= feed@.len(),
            keep == keeps_item(*options),
            links@.len() == feed@.take(i as int).filter(keep).len(),
            forall|k: int|
                0 <= k < links@.len() ==> link_of_post(#[trigger] links@[k], feed@.take(i as int).filter(keep)[k].post),
        decreases feed@.len() - i,
    {
        let ghost before = feed@.take(i as int);
        let ghost after = feed@.take(i + 1);
        assert(after.drop_last() =~= before);
        assert(after.last() == feed@[i as int]);
        proof {
            reveal(Seq::filter);
        }
        let post = &feed[i].post;
        if post_matches_window(post, options) {
            match extract_external_link_post(post) {
                Some(link) => {
                    assert(keep(feed@[i as int]));
                    assert(after.filter(keep) == before.filter(keep).push(feed@[i as int]));
                    links.push(link);
                },
                None => {
                    assert(!keep(feed@[i as int]));
                    assert(after.filter(keep) == before.filter(keep));
                },
            }
        } else {
            assert(!keep(feed@[i as int]));
            assert(after.filter(keep) == before.filter(keep));
        }
        i = i + 1;
    }
    assert(feed@.take(feed@.len() as int) =~= feed@);
    links
}

} // verus!
