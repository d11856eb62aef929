//! The last-post API: request checks, answers built from stored rows, and the Jetstream events
//! that keep those rows current.
use vstd::prelude::*;
use vstd::string::*;
use crate::json::JsonValue;
use crate::text::{debug_quoted, debug_text, contains_char, i64_to_decimal, signed_decimal, contains_whitespace, copy_str, has_prefix, has_whitespace, starts_with, str_eq};

verus! {

/// Most actors one request may ask about.
pub const MAX_ACTORS: usize = 100;

/// How old a stored post may be, in seconds, before it counts as stale, unless asked otherwise.
pub const DEFAULT_STALE_AFTER_SECONDS: i64 = 86_400;

pub const MIN_STALE_AFTER_SECONDS: i64 = 60;

pub const MAX_STALE_AFTER_SECONDS: i64 = 604_800;

/// A DID: it begins with `did:` and holds no whitespace.
pub open spec fn is_did(s: Seq<char>) -> bool {
    has_prefix(s, "did:"@) && !has_whitespace(s)
}

/// `actors` without repeats, each kept where it first occurs.
pub open spec fn first_occurrences(actors: Seq<Seq<char>>) -> Seq<Seq<char>>
    decreases actors.len(),
{
    if actors.len() == 0 {
        Seq::empty()
    } else {
        let init = first_occurrences(actors.drop_last());
        if init.contains(actors.last()) {
            init
        } else {
            init.push(actors.last())
        }
    }
}

pub open spec fn strings_view(v: Seq<String>) -> Seq<Seq<char>> {
    v.map_values(|s: String| s@)
}

/// The position of the first actor that is not a DID.
pub open spec fn first_non_did(actors: Seq<Seq<char>>, i: int) -> bool {
    0 <= i < actors.len() && !is_did(actors[i]) && forall|j: int| 0 <= j < i ==> is_did(#[trigger] actors[j])
}

/// The first occurrences of a list hold each of its items once, and no other.
pub proof fn lemma_first_occurrences_facts(actors: Seq<Seq<char>>)
    ensures
        first_occurrences(actors).no_duplicates(),
        first_occurrences(actors).to_set() == actors.to_set(),
    decreases actors.len(),
{
    if actors.len() > 0 {
        let init = actors.drop_last();
        lemma_first_occurrences_facts(init);
        let f = first_occurrences(init);
        assert(actors =~= init.push(actors.last()));
        init.lemma_push_to_set_commute(actors.last());
        if !f.contains(actors.last()) {
            f.lemma_push_to_set_commute(actors.last());
            assert forall|i: int, j: int|
                0 <= i < f.len() + 1 && 0 <= j < f.len() + 1 && i != j implies f.push(actors.last())[i] != f.push(
                actors.last(),
            )[j] by {
                if i == f.len() {
                    assert(f.contains(f[j]));
                } else if j == f.len() {
                    assert(f.contains(f[i]));
                }
            }
        } else {
            assert(f.to_set().insert(actors.last()) =~= f.to_set());
        }
    }
}

/// Whether `v` holds a string equal to `s`.
pub fn contains_string(v: &Vec<String>, s: &str) -> (r: bool)
    ensures
        r == strings_view(v@).contains(s@),
{
    let mut k: usize = 0;
    while k < v.len()
        invariant
            0 <= k <= v@.len(),
            forall|j: int| 0 <= j < k ==> v@[j]@ != s@,
        decreases v@.len() - k,
    {
        if str_eq(v[k].as_str(), s) {
            assert(strings_view(v@)[k as int] == s@);
            return true;
        }
        k = k + 1;
    }
    assert forall|j: int| 0 <= j < strings_view(v@).len() implies strings_view(v@)[j] != s@ by {
        assert(strings_view(v@)[j] == v@[j]@);
    }
    false
}

/// The DIDs of a request, each once in the order first given.  An empty list, more than
/// `MAX_ACTORS` entries, or an entry that is not a DID is refused with its message.
pub fn validate_actors(actors: Vec<String>) -> (r: Result<Vec<String>, String>)
    ensures
        actors@.len() == 0 ==> r is Err && r->Err_0@ == "actors must contain at least one DID"@,
        actors@.len() > MAX_ACTORS ==> r is Err && r->Err_0@ == "actors must contain at most 100 DIDs"@,
        0 < actors@.len() <= MAX_ACTORS ==> match r {
            Ok(v) => (forall|i: int| 0 <= i < actors@.len() ==> is_did(#[trigger] actors@[i]@)) && strings_view(v@)
                == first_occurrences(strings_view(actors@)),
            Err(e) => exists|i: int|
                first_non_did(strings_view(actors@), i) && e@ == "actor "@ + debug_text(actors@[i]@)
                    + " must be a DID"@,
        },
        0 < actors@.len() <= MAX_ACTORS ==> (r is Ok <==> forall|i: int| 0 <= i < actors@.len() ==> is_did(#[trigger] actors@[i]@)),
        r matches Ok(v) ==> strings_view(v@).no_duplicates() && strings_view(v@).to_set() == strings_view(actors@).to_set(),
{
    if actors.len() == 0 {
        return Err(String::from_str("actors must contain at least one DID"));
    }
    if actors.len() > MAX_ACTORS {
        return Err(String::from_str("actors must contain at most 100 DIDs"));
    }
    let ghost all = strings_view(actors@);
    let mut validated: Vec<String> = Vec::new();
    let mut i: usize = 0;
    while i < actors.len()
        invariant
            all == strings_view(actors@),
            0 < actors@.len() <= MAX_ACTORS,
            0 <= i <= actors@.len(),
            forall|j: int| 0 <= j < i ==> is_did(#[trigger] all[j]),
            strings_view(validated@) == first_occurrences(all.take(i as int)),
        decreases actors@.len() - i,
    {
        let actor = actors[i].as_str();
        assert(all[i as int] == actor@);
        if !(starts_with(actor, "did:") && !contains_whitespace(actor)) {
            let mut message = String::from_str("actor ");
            message.append(debug_quoted(actor).as_str());
            message.append(" must be a DID");
            assert(first_non_did(all, i as int));
            assert(!is_did(actors@[i as int]@));
            return Err(message);
        }
        assert(all.take(i + 1).drop_last() =~= all.take(i as int));
        let ghost before = strings_view(validated@);
        let seen = contains_string(&validated, actor);
        if !seen {
            validated.push(copy_str(actor));
            assert(strings_view(validated@) =~= before.push(actor@));
        }
        i = i + 1;
    }
    assert(all.take(actors@.len() as int) =~= all);
    assert forall|j: int| 0 <= j < actors@.len() implies is_did(#[trigger] actors@[j]@) by {
        assert(all[j] == actors@[j]@);
    }
    proof {
        lemma_first_occurrences_facts(all);
    }
    Ok(validated)
}

/// The stale-after window of a request: `DEFAULT_STALE_AFTER_SECONDS` when not given; refused
/// outside `MIN_STALE_AFTER_SECONDS..=MAX_STALE_AFTER_SECONDS`.
pub fn stale_after_seconds(requested: Option<i64>) -> (r: Result<i64, String>)
    ensures
        ({
            let s = match requested {
                Some(v) => v,
                None => DEFAULT_STALE_AFTER_SECONDS,
            };
            if MIN_STALE_AFTER_SECONDS <= s <= MAX_STALE_AFTER_SECONDS {
                r == Ok::<i64, String>(s)
            } else {
                r is Err && r->Err_0@ == "staleAfterSeconds must be between 60 and 604800"@
            }
        }),
{
    let s = match requested {
        Some(v) => v,
        None => DEFAULT_STALE_AFTER_SECONDS,
    };
    if MIN_STALE_AFTER_SECONDS <= s && s <= MAX_STALE_AFTER_SECONDS {
        Ok(s)
    } else {
        Err(String::from_str("staleAfterSeconds must be between 60 and 604800"))
    }
}

/// A stored last-post row.
#[derive(Debug, Clone)]
pub struct DbActorLastPost {
    pub did: String,
    pub last_post_at: Option<String>,
    pub last_post_uri: Option<String>,
    pub source: String,
    pub confidence: String,
    pub checked_at: String,
}

/// How the API names where a row came from.
pub open spec fn source_label_of(source: Seq<char>) -> Seq<char> {
    if source == "author_feed"@ {
        "authorFeed"@
    } else if source == "jetstream"@ {
        "jetstream"@
    } else if source == "repair"@ {
        "repair"@
    } else {
        "unknown"@
    }
}

/// The label a stored source is reported under: `authorFeed`, `jetstream`, `repair`, else `unknown`.
pub fn source_label(source: &str) -> (r: String)
    ensures
        r@ == source_label_of(source@),
{
    if str_eq(source, "author_feed") {
        String::from_str("authorFeed")
    } else if str_eq(source, "jetstream") {
        String::from_str("jetstream")
    } else if str_eq(source, "repair") {
        String::from_str("repair")
    } else {
        String::from_str("unknown")
    }
}

/// The instant an RFC 3339 timestamp denotes, as whole seconds since 1970-01-01 UTC and the
/// nanoseconds past them, or `None` where chrono refuses the text.
pub uninterp spec fn rfc3339_instant(text: Seq<char>) -> Option<(i64, u32)>;

/// `chrono::DateTime::parse_from_rfc3339`, read back as `timestamp()` and
/// `timestamp_subsec_nanos()`; its result is named `rfc3339_instant`.
#[verifier::external_body]
pub fn parse_rfc3339(text: &str) -> (r: Option<(i64, u32)>)
    ensures
        r == rfc3339_instant(text@),
{
    match chrono::DateTime::parse_from_rfc3339(text) {
        Ok(t) => Some((t.timestamp(), t.timestamp_subsec_nanos())),
        Err(_) => None,
    }
}

pub open spec fn nanos_of(secs: i64, nanos: u32) -> int {
    secs * 1_000_000_000 + nanos
}

/// Whole seconds from `then` to `now`, rounded toward zero.
pub open spec fn age_seconds(then: (i64, u32), now: (i64, u32)) -> int {
    let d = nanos_of(now.0, now.1) - nanos_of(then.0, then.1);
    if d >= 0 {
        d / 1_000_000_000
    } else {
        -((-d) / 1_000_000_000)
    }
}

/// The confidence reported for a row: `empty` stays; otherwise `unknown` where the check time
/// does not parse, `stale` where it is more than `stale_after` seconds before `now`, else `fresh`.
pub open spec fn confidence_of(stored: Seq<char>, checked: Option<(i64, u32)>, now: (i64, u32), stale_after: i64) -> Seq<char> {
    if stored == "empty"@ {
        stored
    } else {
        match checked {
            None => "unknown"@,
            Some(t) => if age_seconds(t, now) > stale_after {
                "stale"@
            } else {
                "fresh"@
            },
        }
    }
}

/// `confidence_of` for a check time already parsed.
pub fn confidence_label(stored: &str, checked: Option<(i64, u32)>, now: (i64, u32), stale_after: i64) -> (r: String)
    ensures
        r@ == confidence_of(stored@, checked, now, stale_after),
{
    if str_eq(stored, "empty") {
        return copy_str(stored);
    }
    match checked {
        None => String::from_str("unknown"),
        Some(t) => {
            let then_ns: i128 = t.0 as i128 * 1_000_000_000 + t.1 as i128;
            let now_ns: i128 = now.0 as i128 * 1_000_000_000 + now.1 as i128;
            let d: i128 = now_ns - then_ns;
            let age: i128 = if d >= 0 {
                d / 1_000_000_000
            } else {
                -((-d) / 1_000_000_000)
            };
            if age > stale_after as i128 {
                String::from_str("stale")
            } else {
                String::from_str("fresh")
            }
        },
    }
}

/// A row's confidence (`confidence_of`) with its check time parsed by chrono.
pub fn row_confidence(row: &DbActorLastPost, now: (i64, u32), stale_after: i64) -> (r: String)
    ensures
        r@ == confidence_of(row.confidence@, rfc3339_instant(row.checked_at@), now, stale_after),
{
    let checked = parse_rfc3339(row.checked_at.as_str());
    confidence_label(row.confidence.as_str(), checked, now, stale_after)
}

/// One answered actor.
#[derive(Debug, Clone)]
pub struct ActorLastPostItem {
    pub did: String,
    pub last_post_at: Option<String>,
    pub last_post_uri: Option<String>,
    pub source: String,
    pub confidence: String,
    pub checked_at: String,
}

/// What to do for one requested actor: the answer where a row is stored (else the actor is
/// missing), and whether a backfill should be queued.
#[derive(Debug, Clone)]
pub struct ActorDecision {
    pub item: Option<ActorLastPostItem>,
    pub missing: bool,
    pub enqueue: bool,
}

/// The first row stored for `did`.
pub fn find_row(rows: &Vec<DbActorLastPost>, did: &str) -> (r: Option<usize>)
    ensures
        match r {
            Some(i) => i < rows@.len() && rows@[i as int].did@ == did@ && forall|j: int| 0 <= j < i ==> (#[trigger] rows@[j]).did@ != did@,
            None => forall|j: int| 0 <= j < rows@.len() ==> (#[trigger] rows@[j]).did@ != did@,
        },
{
    let mut i: usize = 0;
    while i < rows.len()
        invariant
            0 <= i <= rows@.len(),
            forall|j: int| 0 <= j < i ==> (#[trigger] rows@[j]).did@ != did@,
        decreases rows@.len() - i,
    {
        if str_eq(rows[i].did.as_str(), did) {
            return Some(i);
        }
        i = i + 1;
    }
    None
}

pub open spec fn opt_view(o: Option<String>) -> Option<Seq<char>> {
    match o {
        Some(s) => Some(s@),
        None => None,
    }
}

fn copy_opt(o: &Option<String>) -> (r: Option<String>)
    ensures
        opt_view(r) == opt_view(*o),
{
    match o {
        Some(s) => Some(copy_str(s.as_str())),
        None => None,
    }
}

/// The decision for `actor` given the stored `rows`: with a row (the first for the actor) the
/// answer carries its times, its source label and its confidence, and a backfill is wanted when
/// that confidence is `stale` and backfills were asked for; without one the actor is missing and
/// a backfill is wanted when asked for.
pub fn decide_actor(
    actor: &str,
    rows: &Vec<DbActorLastPost>,
    now: (i64, u32),
    stale_after: i64,
    enqueue_backfill: bool,
) -> (r: ActorDecision)
    ensures
        match r.item {
            Some(item) => exists|i: int|
                0 <= i < rows@.len() && (#[trigger] rows@[i]).did@ == actor@ && (forall|j: int|
                    0 <= j < i ==> (#[trigger] rows@[j]).did@ != actor@) && !r.missing && item.did@
                    == rows@[i].did@ && opt_view(item.last_post_at) == opt_view(rows@[i].last_post_at)
                    && opt_view(item.last_post_uri) == opt_view(rows@[i].last_post_uri) && item.source@
                    == source_label_of(rows@[i].source@) && item.confidence@ == confidence_of(
                    rows@[i].confidence@,
                    rfc3339_instant(rows@[i].checked_at@),
                    now,
                    stale_after,
                ) && item.checked_at@ == rows@[i].checked_at@ && r.enqueue == (item.confidence@ == "stale"@
                    && enqueue_backfill),
            None => r.missing && r.enqueue == enqueue_backfill && forall|j: int|
                0 <= j < rows@.len() ==> (#[trigger] rows@[j]).did@ != actor@,
        },
{
    match find_row(rows, actor) {
        Some(i) => {
            let row = &rows[i];
            let confidence = row_confidence(row, now, stale_after);
            let enqueue = str_eq(confidence.as_str(), "stale") && enqueue_backfill;
            let item = ActorLastPostItem {
                did: copy_str(row.did.as_str()),
                last_post_at: copy_opt(&row.last_post_at),
                last_post_uri: copy_opt(&row.last_post_uri),
                source: source_label(row.source.as_str()),
                confidence,
                checked_at: copy_str(row.checked_at.as_str()),
            };
            ActorDecision { item: Some(item), missing: false, enqueue }
        },
        None => ActorDecision { item: None, missing: true, enqueue: enqueue_backfill },
    }
}

// ----------------------------------------------------------------------------------------------
// Jetstream
// ----------------------------------------------------------------------------------------------

/// A Jetstream commit.
#[derive(Debug)]
pub struct JetstreamCommit {
    pub operation: String,
    pub collection: String,
    pub rkey: String,
    pub record: Option<JsonValue>,
}

/// A Jetstream event.
#[derive(Debug)]
pub struct JetstreamEvent {
    pub did: String,
    pub time_us: i64,
    pub kind: String,
    pub commit: Option<JetstreamCommit>,
}

/// The fields of a post record that matter here, as serde reads them into a struct with an
/// optional `$type` string, a `createdAt` string and an optional `reply`: from an object (other
/// members ignored, a missing or null `$type` or `reply` is none), or from an array of exactly
/// those three values in that order.  `None` where the record does not read.
pub open spec fn post_record_fields(v: JsonValue) -> Option<(Option<Seq<char>>, Seq<char>, bool)> {
    match v {
        JsonValue::Object(entries) => {
            let ty = match v.spec_get("$type"@) {
                None => Some(None::<Seq<char>>),
                Some(JsonValue::Null) => Some(None::<Seq<char>>),
                Some(JsonValue::Str(s)) => Some(Some(s@)),
                Some(_) => None,
            };
            let created = match v.spec_get("createdAt"@) {
                Some(JsonValue::Str(s)) => Some(s@),
                _ => None,
            };
            let reply = match v.spec_get("reply"@) {
                None => false,
                Some(JsonValue::Null) => false,
                Some(_) => true,
            };
            match (ty, created) {
                (Some(t), Some(c)) => Some((t, c, reply)),
                _ => None,
            }
        },
        JsonValue::Array(items) => if items@.len() == 3 {
            let ty = match items@[0] {
                JsonValue::Null => Some(None::<Seq<char>>),
                JsonValue::Str(s) => Some(Some(s@)),
                _ => None,
            };
            let created = match items@[1] {
                JsonValue::Str(s) => Some(s@),
                _ => None,
            };
            let reply = !(items@[2] is Null);
            match (ty, created) {
                (Some(t), Some(c)) => Some((t, c, reply)),
                _ => None,
            }
        } else {
            None
        },
        _ => None,
    }
}

fn optional_type(v: Option<&JsonValue>) -> (r: Option<Option<String>>)
    ensures
        match v {
            None => r == Some(None::<String>),
            Some(JsonValue::Null) => r == Some(None::<String>),
            Some(JsonValue::Str(s)) => r matches Some(Some(t)) && t@ == s@,
            Some(_) => r is None,
        },
{
    match v {
        None => Some(None),
        Some(JsonValue::Null) => Some(None),
        Some(JsonValue::Str(s)) => Some(Some(copy_str(s.as_str()))),
        Some(_) => None,
    }
}

fn required_string(v: Option<&JsonValue>) -> (r: Option<String>)
    ensures
        match v {
            Some(JsonValue::Str(s)) => r matches Some(t) && t@ == s@,
            _ => r is None,
        },
{
    match v {
        Some(JsonValue::Str(s)) => Some(copy_str(s.as_str())),
        _ => None,
    }
}

/// Reads a post record (`post_record_fields`).
pub fn read_post_record(v: &JsonValue) -> (r: Option<(Option<String>, String, bool)>)
    ensures
        match post_record_fields(*v) {
            None => r is None,
            Some((t, c, reply)) => r matches Some(x) && (match x.0 {
                Some(s) => t == Some(s@),
                None => t is None,
            }) && x.1@ == c && x.2 == reply,
        },
{
    match v {
        JsonValue::Object(_) => {
            let ty = optional_type(v.get("$type"));
            let created = required_string(v.get("createdAt"));
            let reply = match v.get("reply") {
                None => false,
                Some(JsonValue::Null) => false,
                Some(_) => true,
            };
            match (ty, created) {
                (Some(t), Some(c)) => Some((t, c, reply)),
                _ => None,
            }
        },
        JsonValue::Array(items) => {
            if items.len() != 3 {
                return None;
            }
            let ty = optional_type(Some(&items[0]));
            let created = required_string(Some(&items[1]));
            let reply = !items[2].is_null_value();
            match (ty, created) {
                (Some(t), Some(c)) => Some((t, c, reply)),
                _ => None,
            }
        },
        _ => None,
    }
}

/// The post collection.
pub open spec fn post_collection() -> Seq<char> {
    "app.bsky.feed.post"@
}

/// The AT URI of a record.
pub open spec fn at_uri_of(did: Seq<char>, collection: Seq<char>, rkey: Seq<char>) -> Seq<char> {
    "at://"@ + did + "/"@ + collection + "/"@ + rkey
}

/// The top-level post an event announces, as (created time, AT URI): the event must carry a
/// commit that creates a record in the post collection, whose record reads
/// (`post_record_fields`), is no reply, and has no `$type` other than the post type.
pub open spec fn jetstream_post_of(event: JetstreamEvent) -> Option<(Seq<char>, Seq<char>)> {
    match event.commit {
        None => None,
        Some(commit) => if commit.operation@ != "create"@ || commit.collection@ != post_collection() {
            None
        } else {
            match commit.record {
                None => None,
                Some(record) => match post_record_fields(record) {
                    None => None,
                    Some((ty, created, reply)) => if reply {
                        None
                    } else if ty matches Some(t) && t != post_collection() {
                        None
                    } else {
                        Some((created, at_uri_of(event.did@, commit.collection@, commit.rkey@)))
                    },
                },
            }
        },
    }
}

/// The creation time and URI of the top-level post an event creates, if it creates one.
pub fn jetstream_top_level_post(event: &JetstreamEvent) -> (r: Option<(String, String)>)
    ensures
        match jetstream_post_of(*event) {
            None => r is None,
            Some((c, u)) => r matches Some(x) && x.0@ == c && x.1@ == u,
        },
{
    let commit = match &event.commit {
        Some(c) => c,
        None => return None,
    };
    if !str_eq(commit.operation.as_str(), "create") || !str_eq(commit.collection.as_str(), "app.bsky.feed.post") {
        return None;
    }
    let record_value = match &commit.record {
        Some(r) => r,
        None => return None,
    };
    let (ty, created_at, reply) = match read_post_record(record_value) {
        Some(x) => x,
        None => return None,
    };
    if reply {
        return None;
    }
    if let Some(t) = &ty {
        if !str_eq(t.as_str(), "app.bsky.feed.post") {
            return None;
        }
    }
    let mut uri = String::from_str("at://");
    uri.append(event.did.as_str());
    uri.append("/");
    uri.append(commit.collection.as_str());
    uri.append("/");
    uri.append(commit.rkey.as_str());
    Some((created_at, uri))
}

/// Whether an event is a commit (only commits can announce posts).
pub fn is_commit_event(event: &JetstreamEvent) -> (r: bool)
    ensures
        r == (event.kind@ == "commit"@),
{
    str_eq(event.kind.as_str(), "commit")
}

/// What the worker does with one event: resume from its time next, and record the post it
/// announces where it is a commit creating a top-level post.
#[derive(Debug)]
pub struct JetstreamStep {
    pub cursor: i64,
    pub post: Option<(String, String)>,
}

/// The worker's step for `event`: the cursor moves to the event's time; a post (its creation
/// time and URI) is recorded only for a commit that announces a top-level post.
pub fn jetstream_step(event: &JetstreamEvent) -> (r: JetstreamStep)
    ensures
        r.cursor == event.time_us,
        match r.post {
            None => event.kind@ != "commit"@ || jetstream_post_of(*event) is None,
            Some(p) => event.kind@ == "commit"@ && jetstream_post_of(*event) == Some((p.0@, p.1@)),
        },
{
    let post = if is_commit_event(event) {
        jetstream_top_level_post(event)
    } else {
        None
    };
    JetstreamStep { cursor: event.time_us, post }
}

/// The Jetstream address the worker connects to: the endpoint with the post collection asked
/// for, and the cursor to resume from where there is one.
pub open spec fn jetstream_url_of(endpoint: Seq<char>, cursor: Option<Seq<char>>) -> Seq<char> {
    endpoint + (if endpoint.contains('?') {
        "&"@
    } else {
        "?"@
    }) + "wantedCollections=app.bsky.feed.post"@ + match cursor {
        Some(c) => "&cursor="@ + c,
        None => Seq::empty(),
    }
}

/// The Jetstream subscription address for `endpoint`, resuming at `cursor` where given.
pub fn jetstream_url(endpoint: &str, cursor: Option<i64>) -> (r: String)
    ensures
        r@ == jetstream_url_of(
            endpoint@,
            match cursor {
                Some(c) => Some(signed_decimal(c as int)),
                None => None,
            },
        ),
{
    let mut url = copy_str(endpoint);
    if contains_char(endpoint, '?') {
        url.append("&");
    } else {
        url.append("?");
    }
    url.append("wantedCollections=app.bsky.feed.post");
    if let Some(c) = cursor {
        url.append("&cursor=");
        url.append(i64_to_decimal(c).as_str());
    }
    url
}

} // verus!
