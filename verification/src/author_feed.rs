//! Queries of the author-feed and follows listings.
use vstd::prelude::*;
use vstd::string::*;
use crate::text::{copy_str, decimal, u64_to_decimal};

verus! {

/// Which posts an author feed lists.
#[derive(Debug, Clone, Copy, PartialEq, Eq, Structural)]
pub enum AuthorFeedFilter {
    PostsNoReplies,
    PostsWithReplies,
}

impl AuthorFeedFilter {
    pub open spec fn name(self) -> Seq<char> {
        match self {
            AuthorFeedFilter::PostsNoReplies => "posts_no_replies"@,
            AuthorFeedFilter::PostsWithReplies => "posts_with_replies"@,
        }
    }

    /// The name the service knows the filter by.
    pub fn as_str(self) -> (r: &'static str)
        ensures
            r@ == self.name(),
    {
        match self {
            AuthorFeedFilter::PostsNoReplies => "posts_no_replies",
            AuthorFeedFilter::PostsWithReplies => "posts_with_replies",
        }
    }
}

/// How to read an author feed: page size, pages, filter, and whether pinned posts come first.
#[derive(Debug, Clone, Copy, PartialEq, Eq)]
pub struct AuthorFeedFetchOptions {
    pub limit: u16,
    pub max_pages: usize,
    pub filter: AuthorFeedFilter,
    pub include_pins: bool,
}

impl Default for AuthorFeedFetchOptions {
    /// Full pages, five of them, replies included, no pinned posts.
    fn default() -> (r: Self)
        ensures
            r.limit == 100,
            r.max_pages == 5,
            r.filter == AuthorFeedFilter::PostsWithReplies,
            !r.include_pins,
    {
        AuthorFeedFetchOptions { limit: 100, max_pages: 5, filter: AuthorFeedFilter::PostsWithReplies, include_pins: false }
    }
}

pub open spec fn pairs_view(q: Seq<(String, String)>) -> Seq<(Seq<char>, Seq<char>)> {
    q.map_values(|p: (String, String)| (p.0@, p.1@))
}

pub open spec fn bool_text(b: bool) -> Seq<char> {
    if b {
        "true"@
    } else {
        "false"@
    }
}

/// The query of one author-feed page: actor, page size (at most 100), filter, pins, and the
/// cursor where there is one.
pub open spec fn author_feed_query_of(actor: Seq<char>, options: AuthorFeedFetchOptions, cursor: Option<Seq<char>>) -> Seq<
    (Seq<char>, Seq<char>),
> {
    seq![
        ("actor"@, actor),
        ("limit"@, decimal((if options.limit < 100 { options.limit } else { 100 }) as nat)),
        ("filter"@, options.filter.name()),
        ("includePins"@, bool_text(options.include_pins)),
    ] + match cursor {
        Some(c) => seq![("cursor"@, c)],
        None => Seq::empty(),
    }
}

fn pair(key: &str, value: String) -> (r: (String, String))
    ensures
        r.0@ == key@,
        r.1 == value,
{
    (copy_str(key), value)
}

/// The query of one `getAuthorFeed` page for `actor`.
pub fn author_feed_query(actor: &str, options: AuthorFeedFetchOptions, cursor: &Option<String>) -> (r: Vec<(String, String)>)
    ensures
        pairs_view(r@) == author_feed_query_of(
            actor@,
            options,
            match cursor {
                Some(c) => Some(c@),
                None => None,
            },
        ),
{
    let limit: u16 = if options.limit < 100 {
        options.limit
    } else {
        100
    };
    let mut q: Vec<(String, String)> = Vec::new();
    q.push(pair("actor", copy_str(actor)));
    q.push(pair("limit", u64_to_decimal(limit as u64)));
    q.push(pair("filter", copy_str(options.filter.as_str())));
    q.push(pair("includePins", if options.include_pins {
        String::from_str("true")
    } else {
        String::from_str("false")
    }));
    if let Some(c) = cursor {
        q.push(pair("cursor", copy_str(c.as_str())));
    }
    assert(pairs_view(q@) =~= author_feed_query_of(
        actor@,
        options,
        match cursor {
            Some(c) => Some(c@),
            None => None,
        },
    ));
    q
}

/// The query of one page of an account's follows: the actor, pages of 100, and the cursor where
/// there is one.
pub open spec fn follows_query_of(actor: Seq<char>, cursor: Option<Seq<char>>) -> Seq<(Seq<char>, Seq<char>)> {
    seq![("actor"@, actor), ("limit"@, "100"@)] + match cursor {
        Some(c) => seq![("cursor"@, c)],
        None => Seq::empty(),
    }
}

/// The query of one `getFollows` page for `actor`.
pub fn follows_query(actor: &str, cursor: &Option<String>) -> (r: Vec<(String, String)>)
    ensures
        pairs_view(r@) == follows_query_of(
            actor@,
            match cursor {
                Some(c) => Some(c@),
                None => None,
            },
        ),
{
    let mut q: Vec<(String, String)> = Vec::new();
    q.push(pair("actor", copy_str(actor)));
    q.push(pair("limit", String::from_str("100")));
    if let Some(c) = cursor {
        q.push(pair("cursor", copy_str(c.as_str())));
    }
    assert(pairs_view(q@) =~= follows_query_of(
        actor@,
        match cursor {
            Some(c) => Some(c@),
            None => None,
        },
    ));
    q
}

} // verus!
