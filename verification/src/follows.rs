//! Bluesky follow lists and the follow report: caching keys, freshness, ordering, and the
//! choice of each account's latest post.
use vstd::prelude::*;
use vstd::string::*;
use vstd::relations::*;
use vstd::seq_lib::*;
use vstd::utf8::encode_utf8;
use crate::hashing::{hex_hash, hex_of, is_lower_hex_sha256, lemma_hex_sha256, sha256, sha256_digest};
use crate::bsky_models::{FeedDefsFeedViewPost, FeedDefsPostView};
use crate::client::{client_error_message, ClientError};
use crate::parallel::{parallel_client_error_message, ParallelTaskError};
use crate::text::{
    Order, ascii_alnum, chars_of, str_eq, compare_str, copy_str, is_ascii_alnum, join_path, path_join, push_char, usize_to_decimal, decimal, lemma_seq_less_irreflexive, lemma_seq_less_transitive,
    lemma_seq_less_trichotomy, lemma_sorted_same_multiset, order_of, seq_less,
};

verus! {

/// Why a follow list or a follow report could not be had.
#[derive(Debug, Clone)]
pub enum FollowsReportError {
    Client(ClientError),
    ParallelFetch(ParallelTaskError<ClientError>),
    MissingCacheDir,
    CreateCacheDir { path: String, message: String },
    ReadCache { path: String, message: String },
    ParseCache { path: String, message: String },
    SerializeCache(String),
    WriteCache { path: String, message: String },
}

/// The message of a follow report error, as the command line shows it.
pub open spec fn follows_report_error_message(e: FollowsReportError) -> Seq<char> {
    match e {
        FollowsReportError::Client(c) => client_error_message(c),
        FollowsReportError::ParallelFetch(p) => "failed to fetch follow posts in parallel: "@
            + parallel_client_error_message(p),
        FollowsReportError::MissingCacheDir => "could not determine cache directory; set XDG_CACHE_HOME or HOME"@,
        FollowsReportError::CreateCacheDir { path, message } => "failed to create cache directory at "@ + path@
            + ": "@ + message@,
        FollowsReportError::ReadCache { path, message } => "failed to read cache at "@ + path@ + ": "@ + message@,
        FollowsReportError::ParseCache { path, message } => "failed to parse cache at "@ + path@ + ": "@ + message@,
        FollowsReportError::SerializeCache(message) => "failed to serialize cache: "@ + message@,
        FollowsReportError::WriteCache { path, message } => "failed to write cache at "@ + path@ + ": "@ + message@,
    }
}

/// `prefix`, `path`, `": "` and `message` run together.
fn located_message(prefix: &str, path: &str, message: &str) -> (r: String)
    ensures
        r@ == prefix@ + path@ + ": "@ + message@,
{
    let mut r = copy_str(prefix);
    r.append(path);
    r.append(": ");
    r.append(message);
    r
}

impl FollowsReportError {
    /// The error's message, as the command line shows it.
    pub fn message(&self) -> (r: String)
        ensures
            r@ == follows_report_error_message(*self),
    {
        match self {
            FollowsReportError::Client(c) => c.message(),
            FollowsReportError::ParallelFetch(p) => {
                let mut r = String::from_str("failed to fetch follow posts in parallel: ");
                r.append(p.message().as_str());
                r
            },
            FollowsReportError::MissingCacheDir => String::from_str(
                "could not determine cache directory; set XDG_CACHE_HOME or HOME",
            ),
            FollowsReportError::CreateCacheDir { path, message } => located_message(
                "failed to create cache directory at ",
                path.as_str(),
                message.as_str(),
            ),
            FollowsReportError::ReadCache { path, message } => located_message(
                "failed to read cache at ",
                path.as_str(),
                message.as_str(),
            ),
            FollowsReportError::ParseCache { path, message } => located_message(
                "failed to parse cache at ",
                path.as_str(),
                message.as_str(),
            ),
            FollowsReportError::SerializeCache(message) => {
                let mut r = String::from_str("failed to serialize cache: ");
                r.append(message.as_str());
                r
            },
            FollowsReportError::WriteCache { path, message } => located_message(
                "failed to write cache at ",
                path.as_str(),
                message.as_str(),
            ),
        }
    }
}

/// A followed account.
#[derive(Debug, Clone, PartialEq, Eq)]
pub struct Follow {
    pub handle: String,
    pub did: String,
    pub profile_url: String,
}

/// A followed account with its latest original post, where one was found.
#[derive(Debug, Clone, PartialEq)]
pub struct FollowLastPost {
    pub handle: String,
    pub did: String,
    pub profile_url: String,
    pub last_post_at: Option<String>,
    pub last_post_rkey: Option<String>,
    pub last_post_url: Option<String>,
}

/// The follow list of an actor, as synchronised and cached.
#[derive(Debug, Clone, PartialEq)]
pub struct FollowSync {
    pub actor: String,
    pub actor_did: String,
    pub cache_path: String,
    pub generated_at_unix: u64,
    pub follows_hash: String,
    pub follows: Vec<Follow>,
}

/// The follow report of an actor.
#[derive(Debug, Clone, PartialEq)]
pub struct FollowsReport {
    pub actor: String,
    pub actor_did: String,
    pub cache_key: String,
    pub cache_path: String,
    pub generated_at_unix: u64,
    pub follows_hash: String,
    pub follows: Vec<FollowLastPost>,
}

/// The latest top-level post of an actor.
#[derive(Debug, Clone, PartialEq, Eq)]
pub struct ActorTopLevelPost {
    pub created_at: String,
    pub uri: String,
}

/// The column a follow report is ordered by.
#[derive(Debug, Clone, Copy, PartialEq, Eq, Structural)]
pub enum FollowsSortField {
    Handle,
    Did,
    ProfileUrl,
    LastPostAt,
    LastPostRkey,
    LastPostUrl,
}

/// Which way a report column is ordered.
#[derive(Debug, Clone, Copy, PartialEq, Eq, Structural)]
pub enum FollowsSortDirection {
    Asc,
    Desc,
}

/// The column a report is ordered by, and the direction.
#[derive(Debug, Clone, Copy, PartialEq, Eq, Structural)]
pub struct FollowsSort {
    pub field: FollowsSortField,
    pub direction: FollowsSortDirection,
}

// ----------------------------------------------------------------------------------------------
// Ordering of report rows
// ----------------------------------------------------------------------------------------------

pub open spec fn flip(o: Order) -> Order {
    match o {
        Order::Less => Order::Greater,
        Order::Equal => Order::Equal,
        Order::Greater => Order::Less,
    }
}

/// The three comparisons among `a`, `b`, `c` agree with one another as those of a total preorder.
pub open spec fn consistent(ab: Order, bc: Order, ac: Order) -> bool {
    &&& (ab != Order::Greater && bc != Order::Greater ==> ac != Order::Greater)
    &&& (ab == Order::Less && bc != Order::Greater ==> ac == Order::Less)
    &&& (ab != Order::Greater && bc == Order::Less ==> ac == Order::Less)
    &&& (ab == Order::Equal && bc == Order::Equal ==> ac == Order::Equal)
}

/// The first comparison, or the second where the first finds no difference.
pub open spec fn then_order(first: Order, second: Order) -> Order {
    if first == Order::Equal {
        second
    } else {
        first
    }
}

pub open spec fn dir_order(dir: FollowsSortDirection, a: Seq<char>, b: Seq<char>) -> Order {
    match dir {
        FollowsSortDirection::Asc => order_of(a, b),
        FollowsSortDirection::Desc => order_of(b, a),
    }
}

/// An optional column value, with an empty string counted as missing.
pub open spec fn present(o: Option<String>) -> Option<Seq<char>> {
    match o {
        Some(s) => if s@.len() > 0 {
            Some(s@)
        } else {
            None
        },
        None => None,
    }
}

/// Present values in the chosen direction, missing values after all of them.
pub open spec fn opt_order(dir: FollowsSortDirection, a: Option<Seq<char>>, b: Option<Seq<char>>) -> Order {
    match (a, b) {
        (Some(x), Some(y)) => dir_order(dir, x, y),
        (Some(_), None) => Order::Less,
        (None, Some(_)) => Order::Greater,
        (None, None) => Order::Equal,
    }
}

pub open spec fn field_order(sort: FollowsSort, a: FollowLastPost, b: FollowLastPost) -> Order {
    match sort.field {
        FollowsSortField::Handle => dir_order(sort.direction, a.handle@, b.handle@),
        FollowsSortField::Did => dir_order(sort.direction, a.did@, b.did@),
        FollowsSortField::ProfileUrl => dir_order(sort.direction, a.profile_url@, b.profile_url@),
        FollowsSortField::LastPostAt => opt_order(
            sort.direction,
            present(a.last_post_at),
            present(b.last_post_at),
        ),
        FollowsSortField::LastPostRkey => opt_order(
            sort.direction,
            present(a.last_post_rkey),
            present(b.last_post_rkey),
        ),
        FollowsSortField::LastPostUrl => opt_order(
            sort.direction,
            present(a.last_post_url),
            present(b.last_post_url),
        ),
    }
}

/// The order of report rows: the chosen column, then handle, then DID.
pub open spec fn row_order(sort: FollowsSort, a: FollowLastPost, b: FollowLastPost) -> Order {
    then_order(
        field_order(sort, a, b),
        then_order(order_of(a.handle@, b.handle@), order_of(a.did@, b.did@)),
    )
}

/// String order is reflexive, antisymmetric and transitive.
pub proof fn lemma_order_of_facts(a: Seq<char>, b: Seq<char>, c: Seq<char>)
    ensures
        order_of(a, a) == Order::Equal,
        order_of(b, a) == flip(order_of(a, b)),
        consistent(order_of(a, b), order_of(b, c), order_of(a, c)),
{
    lemma_seq_less_trichotomy(a, b);
    lemma_seq_less_trichotomy(b, c);
    lemma_seq_less_trichotomy(a, c);
    lemma_seq_less_irreflexive(a);
    if seq_less(a, b) && seq_less(b, c) {
        lemma_seq_less_transitive(a, b, c);
    }
    if seq_less(c, b) && seq_less(b, a) {
        lemma_seq_less_transitive(c, b, a);
    }
}

/// String order in either direction is reflexive, antisymmetric and transitive.
pub proof fn lemma_dir_order_facts(dir: FollowsSortDirection, a: Seq<char>, b: Seq<char>, c: Seq<char>)
    ensures
        dir_order(dir, a, a) == Order::Equal,
        dir_order(dir, b, a) == flip(dir_order(dir, a, b)),
        consistent(dir_order(dir, a, b), dir_order(dir, b, c), dir_order(dir, a, c)),
{
    lemma_order_of_facts(a, b, c);
    lemma_order_of_facts(c, b, a);
}

/// The order on optional values (missing ones last) is reflexive, antisymmetric and transitive.
pub proof fn lemma_opt_order_facts(
    dir: FollowsSortDirection,
    a: Option<Seq<char>>,
    b: Option<Seq<char>>,
    c: Option<Seq<char>>,
)
    ensures
        opt_order(dir, a, a) == Order::Equal,
        opt_order(dir, b, a) == flip(opt_order(dir, a, b)),
        consistent(opt_order(dir, a, b), opt_order(dir, b, c), opt_order(dir, a, c)),
{
    let x = match a {
        Some(s) => s,
        None => Seq::empty(),
    };
    let y = match b {
        Some(s) => s,
        None => Seq::empty(),
    };
    let z = match c {
        Some(s) => s,
        None => Seq::empty(),
    };
    lemma_dir_order_facts(dir, x, y, z);
}

/// Ordering by one key, then by another, keeps transitivity.
pub proof fn lemma_then_facts(x_ab: Order, x_bc: Order, x_ac: Order, y_ab: Order, y_bc: Order, y_ac: Order)
    requires
        consistent(x_ab, x_bc, x_ac),
        consistent(y_ab, y_bc, y_ac),
    ensures
        consistent(then_order(x_ab, y_ab), then_order(x_bc, y_bc), then_order(x_ac, y_ac)),
{
}

/// The order on a report column is reflexive, antisymmetric and transitive.
pub proof fn lemma_field_order_facts(sort: FollowsSort, a: FollowLastPost, b: FollowLastPost, c: FollowLastPost)
    ensures
        field_order(sort, a, a) == Order::Equal,
        field_order(sort, b, a) == flip(field_order(sort, a, b)),
        consistent(field_order(sort, a, b), field_order(sort, b, c), field_order(sort, a, c)),
{
    let d = sort.direction;
    match sort.field {
        FollowsSortField::Handle => lemma_dir_order_facts(d, a.handle@, b.handle@, c.handle@),
        FollowsSortField::Did => lemma_dir_order_facts(d, a.did@, b.did@, c.did@),
        FollowsSortField::ProfileUrl => lemma_dir_order_facts(
            d,
            a.profile_url@,
            b.profile_url@,
            c.profile_url@,
        ),
        FollowsSortField::LastPostAt => lemma_opt_order_facts(
            d,
            present(a.last_post_at),
            present(b.last_post_at),
            present(c.last_post_at),
        ),
        FollowsSortField::LastPostRkey => lemma_opt_order_facts(
            d,
            present(a.last_post_rkey),
            present(b.last_post_rkey),
            present(c.last_post_rkey),
        ),
        FollowsSortField::LastPostUrl => lemma_opt_order_facts(
            d,
            present(a.last_post_url),
            present(b.last_post_url),
            present(c.last_post_url),
        ),
    }
}

/// `row_order` is a total preorder: reflexive, flipping with its arguments, and transitive.
pub proof fn lemma_row_order_facts(sort: FollowsSort, a: FollowLastPost, b: FollowLastPost, c: FollowLastPost)
    ensures
        row_order(sort, a, a) == Order::Equal,
        row_order(sort, b, a) == flip(row_order(sort, a, b)),
        consistent(row_order(sort, a, b), row_order(sort, b, c), row_order(sort, a, c)),
{
    lemma_field_order_facts(sort, a, b, c);
    lemma_order_of_facts(a.handle@, b.handle@, c.handle@);
    lemma_order_of_facts(a.did@, b.did@, c.did@);
    lemma_then_facts(
        order_of(a.handle@, b.handle@),
        order_of(b.handle@, c.handle@),
        order_of(a.handle@, c.handle@),
        order_of(a.did@, b.did@),
        order_of(b.did@, c.did@),
        order_of(a.did@, c.did@),
    );
    lemma_then_facts(
        field_order(sort, a, b),
        field_order(sort, b, c),
        field_order(sort, a, c),
        then_order(order_of(a.handle@, b.handle@), order_of(a.did@, b.did@)),
        then_order(order_of(b.handle@, c.handle@), order_of(b.did@, c.did@)),
        then_order(order_of(a.handle@, c.handle@), order_of(a.did@, c.did@)),
    );
}

/// Compares two values in the sort direction.
pub fn compare_required(left: &str, right: &str, direction: FollowsSortDirection) -> (r: Order)
    ensures
        r == dir_order(direction, left@, right@),
{
    match direction {
        FollowsSortDirection::Asc => compare_str(left, right),
        FollowsSortDirection::Desc => compare_str(right, left),
    }
}

fn present_str(o: &Option<String>) -> (r: Option<&str>)
    ensures
        match r {
            Some(s) => present(*o) == Some(s@),
            None => present(*o) is None,
        },
{
    match o {
        Some(s) => if s.as_str().is_empty() {
            None
        } else {
            Some(s.as_str())
        },
        None => None,
    }
}

/// Compares two optional values in the sort direction, missing or empty ones last.
pub fn compare_optional(left: Option<&str>, right: Option<&str>, direction: FollowsSortDirection) -> (r:
    Order)
    ensures
        r == opt_order(
            direction,
            match left {
                Some(s) => if s@.len() > 0 {
                    Some(s@)
                } else {
                    None
                },
                None => None,
            },
            match right {
                Some(s) => if s@.len() > 0 {
                    Some(s@)
                } else {
                    None
                },
                None => None,
            },
        ),
{
    let l = match left {
        Some(s) => if s.is_empty() {
            None
        } else {
            Some(s)
        },
        None => None,
    };
    let r = match right {
        Some(s) => if s.is_empty() {
            None
        } else {
            Some(s)
        },
        None => None,
    };
    match (l, r) {
        (Some(a), Some(b)) => compare_required(a, b, direction),
        (Some(_), None) => Order::Less,
        (None, Some(_)) => Order::Greater,
        (None, None) => Order::Equal,
    }
}

fn compare_rows(sort: FollowsSort, left: &FollowLastPost, right: &FollowLastPost) -> (r: Order)
    ensures
        r == row_order(sort, *left, *right),
{
    let d = sort.direction;
    let first = match sort.field {
        FollowsSortField::Handle => compare_required(left.handle.as_str(), right.handle.as_str(), d),
        FollowsSortField::Did => compare_required(left.did.as_str(), right.did.as_str(), d),
        FollowsSortField::ProfileUrl => compare_required(
            left.profile_url.as_str(),
            right.profile_url.as_str(),
            d,
        ),
        FollowsSortField::LastPostAt => compare_optional(
            present_str(&left.last_post_at),
            present_str(&right.last_post_at),
            d,
        ),
        FollowsSortField::LastPostRkey => compare_optional(
            present_str(&left.last_post_rkey),
            present_str(&right.last_post_rkey),
            d,
        ),
        FollowsSortField::LastPostUrl => compare_optional(
            present_str(&left.last_post_url),
            present_str(&right.last_post_url),
            d,
        ),
    };
    if first != Order::Equal {
        return first;
    }
    let by_handle = compare_str(left.handle.as_str(), right.handle.as_str());
    if by_handle != Order::Equal {
        return by_handle;
    }
    compare_str(left.did.as_str(), right.did.as_str())
}

/// The stable-sort order on rows tagged with their input positions.
pub open spec fn indexed_leq(sort: FollowsSort) -> spec_fn((FollowLastPost, int), (FollowLastPost, int)) -> bool {
    |x: (FollowLastPost, int), y: (FollowLastPost, int)|
        row_order(sort, x.0, y.0) == Order::Less || (row_order(sort, x.0, y.0) == Order::Equal && x.1
            <= y.1)
}

/// Each row tagged with its position.
pub open spec fn indexed(rows: Seq<FollowLastPost>) -> Seq<(FollowLastPost, int)> {
    Seq::new(rows.len(), |i: int| (rows[i], i))
}

pub open spec fn untagged(g: Seq<(FollowLastPost, int)>) -> Seq<FollowLastPost> {
    g.map_values(|p: (FollowLastPost, int)| p.0)
}

/// `after` holds the rows of `before` ordered by `row_order`, rows that compare equal keeping
/// their order in `before`.
pub open spec fn stably_sorted(before: Seq<FollowLastPost>, after: Seq<FollowLastPost>, sort: FollowsSort) -> bool {
    exists|g: Seq<(FollowLastPost, int)>|
        #![trigger untagged(g)]
        untagged(g) == after && sorted_by(g, indexed_leq(sort)) && g.to_multiset() == indexed(
            before,
        ).to_multiset()
}

/// The value of column `field` of a row; the last-post columns only where present (non-empty).
pub open spec fn column_value(field: FollowsSortField, row: FollowLastPost) -> Option<Seq<char>> {
    match field {
        FollowsSortField::Handle => Some(row.handle@),
        FollowsSortField::Did => Some(row.did@),
        FollowsSortField::ProfileUrl => Some(row.profile_url@),
        FollowsSortField::LastPostAt => present(row.last_post_at),
        FollowsSortField::LastPostRkey => present(row.last_post_rkey),
        FollowsSortField::LastPostUrl => present(row.last_post_url),
    }
}

/// `a` may come before `b` among rows with the same column value: by handle, then by DID.
pub open spec fn tie_ordered(a: FollowLastPost, b: FollowLastPost) -> bool {
    !seq_less(b.handle@, a.handle@) && (a.handle@ == b.handle@ ==> !seq_less(b.did@, a.did@))
}

/// Rows in `rows` come in the column order of `sort`: rows whose values of the column differ
/// are in strictly ascending order of those values under `Asc` and strictly descending under
/// `Desc`; a row without a value never comes before one with a value; and rows with the same
/// value (or both without one) are in ascending order of handle, then of DID.
pub open spec fn in_column_order(rows: Seq<FollowLastPost>, sort: FollowsSort) -> bool {
    forall|i: int, j: int|
        0 <= i < j < rows.len() ==> match (column_value(sort.field, #[trigger] rows[i]), column_value(sort.field, #[trigger] rows[j])) {
            (Some(x), Some(y)) => if x != y {
                match sort.direction {
                    FollowsSortDirection::Asc => seq_less(x, y),
                    FollowsSortDirection::Desc => seq_less(y, x),
                }
            } else {
                tie_ordered(rows[i], rows[j])
            },
            (None, Some(_)) => false,
            (Some(_), None) => true,
            (None, None) => tie_ordered(rows[i], rows[j]),
        }
}

/// Descending is ascending with the rows swapped: for two rows that both have a value in the
/// column, comparing them under `Desc` gives what comparing them the other way round gives
/// under `Asc`.
pub proof fn lemma_desc_swaps(field: FollowsSortField, a: FollowLastPost, b: FollowLastPost)
    requires
        column_value(field, a) is Some,
        column_value(field, b) is Some,
    ensures
        field_order(FollowsSort { field, direction: FollowsSortDirection::Desc }, a, b) == field_order(
            FollowsSort { field, direction: FollowsSortDirection::Asc },
            b,
            a,
        ),
{
}

/// Rows ordered by `row_order` (as `sort_report` leaves them) are in the column order of the
/// sort: ascending or descending by the chosen column, missing values last.
pub proof fn lemma_sorted_rows_in_column_order(rows: Seq<FollowLastPost>, sort: FollowsSort)
    requires
        forall|i: int, j: int|
            0 <= i < j < rows.len() ==> row_order(sort, #[trigger] rows[i], #[trigger] rows[j]) != Order::Greater,
    ensures
        in_column_order(rows, sort),
{
    assert forall|i: int, j: int| 0 <= i < j < rows.len() implies match (
        column_value(sort.field, #[trigger] rows[i]),
        column_value(sort.field, #[trigger] rows[j]),
    ) {
        (Some(x), Some(y)) => if x != y {
            match sort.direction {
                FollowsSortDirection::Asc => seq_less(x, y),
                FollowsSortDirection::Desc => seq_less(y, x),
            }
        } else {
            tie_ordered(rows[i], rows[j])
        },
        (None, Some(_)) => false,
        (Some(_), None) => true,
        (None, None) => tie_ordered(rows[i], rows[j]),
    } by {
        let a = rows[i];
        let b = rows[j];
        assert(row_order(sort, a, b) != Order::Greater);
        assert(field_order(sort, a, b) != Order::Greater);
        lemma_seq_less_trichotomy(a.handle@, b.handle@);
        lemma_seq_less_trichotomy(a.did@, b.did@);
        if let Some(x) = column_value(sort.field, a) {
            lemma_seq_less_irreflexive(x);
        }
    }
}

/// The report order leaves no choice: two results of stably sorting the same rows by the same
/// column are the same sequence.
pub proof fn lemma_report_sort_determined(
    before: Seq<FollowLastPost>,
    a1: Seq<FollowLastPost>,
    a2: Seq<FollowLastPost>,
    sort: FollowsSort,
)
    requires
        stably_sorted(before, a1, sort),
        stably_sorted(before, a2, sort),
    ensures
        a1 == a2,
{
    broadcast use vstd::seq_lib::group_to_multiset_ensures;

    let leq = indexed_leq(sort);
    let tagged = indexed(before);
    let g1 = choose|g: Seq<(FollowLastPost, int)>|
        #![trigger untagged(g)]
        untagged(g) == a1 && sorted_by(g, leq) && g.to_multiset() == tagged.to_multiset();
    let g2 = choose|g: Seq<(FollowLastPost, int)>|
        #![trigger untagged(g)]
        untagged(g) == a2 && sorted_by(g, leq) && g.to_multiset() == tagged.to_multiset();
    assert forall|p: (FollowLastPost, int)| g1.contains(p) implies tagged.contains(p) && p.0 == before[p.1] && 0
        <= p.1 < before.len() by {
        assert(g1.to_multiset().count(p) > 0);
        assert(tagged.to_multiset().count(p) > 0);
        let i = choose|i: int| 0 <= i < tagged.len() && tagged[i] == p;
    }
    assert forall|p: (FollowLastPost, int), q: (FollowLastPost, int)| g1.contains(p) && g1.contains(q) implies leq(
        p,
        q,
    ) || leq(q, p) by {
        lemma_row_order_facts(sort, p.0, q.0, p.0);
    }
    assert forall|p: (FollowLastPost, int), q: (FollowLastPost, int)|
        g1.contains(p) && g1.contains(q) && leq(p, q) && leq(q, p) implies p == q by {
        lemma_row_order_facts(sort, p.0, q.0, p.0);
        assert(p.1 == q.1);
    }
    lemma_sorted_same_multiset(g1, g2, leq);
}

/// Orders the rows of a report by the chosen column (missing values last), then by handle and
/// DID, keeping rows that compare equal in their order.
pub fn sort_report(report: &mut FollowsReport, sort: FollowsSort)
    ensures
        stably_sorted(old(report).follows@, final(report).follows@, sort),
        forall|i: int, j: int|
            0 <= i < j < final(report).follows@.len() ==> row_order(
                sort,
                #[trigger] final(report).follows@[i],
                #[trigger] final(report).follows@[j],
            ) != Order::Greater,
        final(report).follows@.to_multiset() == old(report).follows@.to_multiset(),
        final(report).actor == old(report).actor,
        final(report).actor_did == old(report).actor_did,
        final(report).cache_key == old(report).cache_key,
        final(report).cache_path == old(report).cache_path,
        final(report).generated_at_unix == old(report).generated_at_unix,
        final(report).follows_hash == old(report).follows_hash,
        in_column_order(final(report).follows@, sort),
{
    broadcast use group_to_multiset_ensures;
    let mut rows: Vec<FollowLastPost> = Vec::new();
    std::mem::swap(&mut rows, &mut report.follows);
    let ghost input = rows@;
    let ghost leq = indexed_leq(sort);
    let mut out: Vec<FollowLastPost> = Vec::new();
    let ghost mut g: Seq<(FollowLastPost, int)> = Seq::empty();
    let ghost mut i: int = 0;
    assert(input.skip(0) =~= input);
    assert(indexed(input).take(0) =~= Seq::<(FollowLastPost, int)>::empty());
    assert(untagged(g) =~= out@);
    while rows.len() > 0
        invariant
            leq == indexed_leq(sort),
            0 <= i <= input.len(),
            rows@ == input.skip(i),
            out@ == untagged(g),
            sorted_by(g, leq),
            g.to_multiset() == indexed(input).take(i).to_multiset(),
            out@.to_multiset() == input.take(i).to_multiset(),
            forall|j: int| 0 <= j < g.len() ==> (#[trigger] g[j]).1 < i,
        decreases rows@.len(),
    {
        let x = rows.remove(0);
        assert(input.skip(i).remove(0) =~= input.skip(i + 1));
        assert(x == input[i]);
        let mut k: usize = 0;
        while k < out.len() && compare_rows(sort, &out[k], &x) != Order::Greater
            invariant
                0 <= k <= out@.len(),
                out@ == untagged(g),
                forall|j: int| 0 <= j < k ==> row_order(sort, #[trigger] g[j].0, x) != Order::Greater,
            decreases out@.len() - k,
        {
            assert(out@[k as int] == g[k as int].0);
            k = k + 1;
        }
        proof {
            let ng = g.insert(k as int, (x, i));
            assert forall|a: int, b: int| 0 <= a < b < ng.len() implies #[trigger] leq(ng[a], ng[b]) by {
                if b < k {
                    assert(ng[a] == g[a] && ng[b] == g[b]);
                } else if b == k {
                    assert(ng[a] == g[a]);
                    assert(ng[b] == (x, i));
                    assert(row_order(sort, g[a].0, x) != Order::Greater);
                    assert(g[a].1 < i);
                } else if a == k {
                    assert(ng[b] == g[b - 1]);
                    assert(k < out@.len());
                    assert(out@[k as int] == g[k as int].0);
                    assert(row_order(sort, g[k as int].0, x) == Order::Greater);
                    lemma_row_order_facts(sort, x, g[k as int].0, g[b - 1].0);
                    if b - 1 > k {
                        assert(leq(g[k as int], g[b - 1]));
                    } else {
                        lemma_row_order_facts(sort, g[k as int].0, g[k as int].0, g[k as int].0);
                    }
                } else if a < k {
                    assert(ng[a] == g[a] && ng[b] == g[b - 1]);
                    assert(leq(g[a], g[b - 1]));
                } else {
                    assert(ng[a] == g[a - 1] && ng[b] == g[b - 1]);
                    assert(leq(g[a - 1], g[b - 1]));
                }
            }
            assert(indexed(input).take(i + 1) =~= indexed(input).take(i).push((x, i)));
            to_multiset_insert(g, k as int, (x, i));
            to_multiset_build(indexed(input).take(i), (x, i));
            assert(ng.to_multiset() == g.to_multiset().insert((x, i)));
            assert forall|j: int| 0 <= j < ng.len() implies (#[trigger] ng[j]).1 < i + 1 by {
                if j < k {
                    assert(ng[j] == g[j]);
                } else if j > k {
                    assert(ng[j] == g[j - 1]);
                }
            }
            assert(untagged(ng) =~= out@.insert(k as int, x));
            assert(input.take(i + 1) =~= input.take(i).push(x));
            to_multiset_insert(out@, k as int, x);
            to_multiset_build(input.take(i), x);
            assert(out@.insert(k as int, x).to_multiset() == out@.to_multiset().insert(x));
            g = ng;
            i = i + 1;
        }
        out.insert(k, x);
    }
    proof {
        assert(i == input.len()) by {
            if i < input.len() {
                assert(input.skip(i).len() > 0);
            }
        }
        assert(indexed(input).take(i) =~= indexed(input));
        assert forall|a: int, b: int|
            0 <= a < b < out@.len() implies row_order(
                sort,
                #[trigger] out@[a],
                #[trigger] out@[b],
            ) != Order::Greater by {
            assert(leq(g[a], g[b]));
        }
        assert(input.take(i) =~= input);
    }
    proof {
        lemma_sorted_rows_in_column_order(out@, sort);
    }
    report.follows = out;
}

// ----------------------------------------------------------------------------------------------
// Follow-list hash
// ----------------------------------------------------------------------------------------------

/// The `(did, handle)` pairs of a follow list.
pub open spec fn follow_pairs(follows: Seq<Follow>) -> Seq<(Seq<char>, Seq<char>)> {
    follows.map_values(|f: Follow| (f.did@, f.handle@))
}

pub open spec fn pair_less(x: (Seq<char>, Seq<char>), y: (Seq<char>, Seq<char>)) -> bool {
    seq_less(x.0, y.0) || (x.0 == y.0 && seq_less(x.1, y.1))
}

/// The order of `(&str, &str)` tuples: by DID, then by handle.
pub open spec fn pair_leq() -> spec_fn((Seq<char>, Seq<char>), (Seq<char>, Seq<char>)) -> bool {
    |x: (Seq<char>, Seq<char>), y: (Seq<char>, Seq<char>)| x == y || pair_less(x, y)
}

/// The order on (DID, handle) pairs is a total order.
pub proof fn lemma_pair_leq_total()
    ensures
        total_ordering(pair_leq()),
{
    let leq = pair_leq();
    assert forall|x: (Seq<char>, Seq<char>), y: (Seq<char>, Seq<char>)|
        #[trigger] leq(x, y) && #[trigger] leq(y, x) implies x == y by {
        lemma_seq_less_trichotomy(x.0, y.0);
        lemma_seq_less_trichotomy(x.1, y.1);
        lemma_seq_less_irreflexive(x.0);
        lemma_seq_less_irreflexive(x.1);
    }
    assert forall|x: (Seq<char>, Seq<char>), y: (Seq<char>, Seq<char>), z: (Seq<char>, Seq<char>)|
        #[trigger] leq(x, y) && #[trigger] leq(y, z) implies leq(x, z) by {
        if x != y && y != z {
            if seq_less(x.0, y.0) && seq_less(y.0, z.0) {
                lemma_seq_less_transitive(x.0, y.0, z.0);
            }
            if x.0 == y.0 && y.0 == z.0 && seq_less(x.1, y.1) && seq_less(y.1, z.1) {
                lemma_seq_less_transitive(x.1, y.1, z.1);
            }
        }
    }
    assert forall|x: (Seq<char>, Seq<char>), y: (Seq<char>, Seq<char>)|
        #[trigger] leq(x, y) || #[trigger] leq(y, x) by {
        lemma_seq_less_trichotomy(x.0, y.0);
        lemma_seq_less_trichotomy(x.1, y.1);
    }
}

/// The bytes hashed for a follow list: a format byte, then each DID and handle, each followed
/// by a zero byte.
pub open spec fn follows_message(pairs: Seq<(Seq<char>, Seq<char>)>) -> Seq<u8>
    decreases pairs.len(),
{
    if pairs.len() == 0 {
        seq![1u8]
    } else {
        follows_message(pairs.drop_last()) + encode_utf8(pairs.last().0) + seq![0u8] + encode_utf8(
            pairs.last().1,
        ) + seq![0u8]
    }
}

/// The hash of a follow list: hexadecimal SHA-256 of its pairs in sorted order, so that it
/// depends on the pairs and not on their order.
pub open spec fn follows_hash_of(follows: Seq<Follow>) -> Seq<char> {
    hex_of(sha256(follows_message(follow_pairs(follows).sort_by(pair_leq()))))
}

/// The hash of a follow list depends on which `(did, handle)` pairs it holds, not on their order.
pub proof fn lemma_follows_hash_order_independent(a: Seq<Follow>, b: Seq<Follow>)
    requires
        follow_pairs(a).to_multiset() == follow_pairs(b).to_multiset(),
    ensures
        follows_hash_of(a) == follows_hash_of(b),
{
    lemma_pair_leq_total();
    follow_pairs(a).lemma_sort_by_ensures(pair_leq());
    follow_pairs(b).lemma_sort_by_ensures(pair_leq());
    lemma_sorted_unique(
        follow_pairs(a).sort_by(pair_leq()),
        follow_pairs(b).sort_by(pair_leq()),
        pair_leq(),
    );
}

pub open spec fn pairs_of_strings(v: Seq<(String, String)>) -> Seq<(Seq<char>, Seq<char>)> {
    v.map_values(|p: (String, String)| (p.0@, p.1@))
}

fn compare_pair(a: &(String, String), b: &(String, String)) -> (r: Order)
    ensures
        (r == Order::Less) == pair_less((a.0@, a.1@), (b.0@, b.1@)),
        (r == Order::Equal) == ((a.0@, a.1@) == (b.0@, b.1@)),
{
    proof {
        lemma_seq_less_trichotomy(a.0@, b.0@);
        lemma_seq_less_trichotomy(a.1@, b.1@);
        lemma_seq_less_irreflexive(a.0@);
    }
    match compare_str(a.0.as_str(), b.0.as_str()) {
        Order::Equal => compare_str(a.1.as_str(), b.1.as_str()),
        other => other,
    }
}

fn append_bytes(out: &mut Vec<u8>, bytes: &[u8])
    ensures
        final(out)@ == old(out)@ + bytes@,
{
    let mut i: usize = 0;
    while i < bytes.len()
        invariant
            0 <= i <= bytes@.len(),
            out@ == old(out)@ + bytes@.take(i as int),
        decreases bytes@.len() - i,
    {
        out.push(bytes[i]);
        assert(bytes@.take(i + 1) =~= bytes@.take(i as int).push(bytes@[i as int]));
        i = i + 1;
    }
    assert(bytes@.take(bytes@.len() as int) =~= bytes@);
}

/// The hash of a follow list, independent of the order of the follows.
pub fn hash_follows(follows: &[Follow]) -> (r: String)
    ensures
        r@ == follows_hash_of(follows@),
        is_lower_hex_sha256(r@),
{
    broadcast use group_to_multiset_ensures;
    proof {
        lemma_pair_leq_total();
    }
    let ghost leq = pair_leq();
    let ghost input = follow_pairs(follows@);
    let mut sorted: Vec<(String, String)> = Vec::new();
    let mut i: usize = 0;
    while i < follows.len()
        invariant
            0 <= i <= follows@.len(),
            leq == pair_leq(),
            total_ordering(leq),
            input == follow_pairs(follows@),
            sorted_by(pairs_of_strings(sorted@), leq),
            pairs_of_strings(sorted@).to_multiset() == input.take(i as int).to_multiset(),
        decreases follows@.len() - i,
    {
        let x = (follows[i].did.clone(), follows[i].handle.clone());
        let ghost xv = (x.0@, x.1@);
        assert(xv == input[i as int]);
        let ghost view = pairs_of_strings(sorted@);
        let mut k: usize = 0;
        while k < sorted.len() && compare_pair(&x, &sorted[k]) != Order::Less
            invariant
                0 <= k <= sorted@.len(),
                view == pairs_of_strings(sorted@),
                xv == (x.0@, x.1@),
                forall|j: int| 0 <= j < k ==> !pair_less(xv, #[trigger] view[j]),
            decreases sorted@.len() - k,
        {
            assert(view[k as int] == (sorted@[k as int].0@, sorted@[k as int].1@));
            k = k + 1;
        }
        proof {
            if k < sorted@.len() {
                assert(view[k as int] == (sorted@[k as int].0@, sorted@[k as int].1@));
            }
            let nv = view.insert(k as int, xv);
            assert forall|a: int, b: int| 0 <= a < b < nv.len() implies #[trigger] leq(nv[a], nv[b]) by {
                if b < k {
                    assert(nv[a] == view[a] && nv[b] == view[b]);
                } else if b == k {
                    assert(nv[a] == view[a]);
                    assert(!pair_less(xv, view[a]));
                    lemma_seq_less_trichotomy(xv.0, view[a].0);
                    lemma_seq_less_trichotomy(xv.1, view[a].1);
                    assert(leq(view[a], xv));
                } else if a == k {
                    assert(nv[b] == view[b - 1]);
                    assert(pair_less(xv, view[k as int]));
                    assert(leq(xv, view[k as int]));
                    if b - 1 > k {
                        assert(leq(view[k as int], view[b - 1]));
                        assert(leq(xv, view[b - 1]));
                    }
                } else if a < k {
                    assert(nv[a] == view[a] && nv[b] == view[b - 1]);
                    assert(leq(view[a], view[b - 1]));
                } else {
                    assert(nv[a] == view[a - 1] && nv[b] == view[b - 1]);
                    assert(leq(view[a - 1], view[b - 1]));
                }
            }
            to_multiset_insert(view, k as int, xv);
            to_multiset_build(input.take(i as int), xv);
            assert(input.take(i + 1) =~= input.take(i as int).push(xv));
        }
        sorted.insert(k, x);
        assert(pairs_of_strings(sorted@) =~= view.insert(k as int, xv));
        i = i + 1;
    }
    proof {
        assert(input.take(follows@.len() as int) =~= input);
        input.lemma_sort_by_ensures(leq);
        lemma_sorted_unique(pairs_of_strings(sorted@), input.sort_by(leq), leq);
    }
    let ghost view = pairs_of_strings(sorted@);
    let mut message: Vec<u8> = Vec::new();
    message.push(1u8);
    assert(message@ =~= follows_message(view.take(0)));
    let mut j: usize = 0;
    while j < sorted.len()
        invariant
            0 <= j <= sorted@.len(),
            view == pairs_of_strings(sorted@),
            message@ == follows_message(view.take(j as int)),
        decreases sorted@.len() - j,
    {
        assert(view.take(j + 1).drop_last() =~= view.take(j as int));
        append_bytes(&mut message, sorted[j].0.as_str().as_bytes());
        message.push(0u8);
        append_bytes(&mut message, sorted[j].1.as_str().as_bytes());
        message.push(0u8);
        j = j + 1;
    }
    assert(view.take(sorted@.len() as int) =~= view);
    let digest = sha256_digest(message.as_slice());
    proof {
        lemma_hex_sha256(digest@);
    }
    hex_hash(digest.as_slice())
}

// ----------------------------------------------------------------------------------------------
// Cache files and their paths
// ----------------------------------------------------------------------------------------------

/// The format version of follow-list cache files.
pub const FOLLOW_SYNC_CACHE_VERSION: u8 = 1;

/// The format version of report cache files.
pub const REPORT_CACHE_VERSION: u8 = 2;

/// The default age after which a cached follow list is fetched again: one day, in seconds.
pub const DEFAULT_FOLLOW_RECACHE_AFTER_SECS: u64 = 86400;

/// Options for a follow report.
#[derive(Debug, Clone, Copy, PartialEq, Eq)]
pub struct FollowsOptions {
    pub limit: Option<usize>,
    pub sort: FollowsSort,
    /// Seconds after which a cached follow list is stale; `None`: never.
    pub recache_after: Option<u64>,
}

/// Options for synchronising a follow list.
#[derive(Debug, Clone, Copy, PartialEq, Eq)]
pub struct FollowSyncOptions {
    pub limit: Option<usize>,
    /// Seconds after which a cached follow list is stale; `None`: never.
    pub recache_after: Option<u64>,
}

impl Default for FollowsSort {
    /// By latest post, ascending.
    fn default() -> (r: Self)
        ensures
            r.field == FollowsSortField::LastPostAt,
            r.direction == FollowsSortDirection::Asc,
    {
        FollowsSort { field: FollowsSortField::LastPostAt, direction: FollowsSortDirection::Asc }
    }
}

impl Default for FollowsOptions {
    /// No limit, the default order, and a one-day cache.
    fn default() -> (r: Self)
        ensures
            r.limit is None,
            r.sort.field == FollowsSortField::LastPostAt,
            r.sort.direction == FollowsSortDirection::Asc,
            r.recache_after == Some(DEFAULT_FOLLOW_RECACHE_AFTER_SECS),
    {
        FollowsOptions {
            limit: None,
            sort: FollowsSort::default(),
            recache_after: Some(DEFAULT_FOLLOW_RECACHE_AFTER_SECS),
        }
    }
}

impl Default for FollowSyncOptions {
    /// No limit and a one-day cache.
    fn default() -> (r: Self)
        ensures
            r.limit is None,
            r.recache_after == Some(DEFAULT_FOLLOW_RECACHE_AFTER_SECS),
    {
        FollowSyncOptions { limit: None, recache_after: Some(DEFAULT_FOLLOW_RECACHE_AFTER_SECS) }
    }
}

/// Progress of fetching a follow list or report.
#[derive(Debug, Clone, PartialEq, Eq)]
pub enum FollowsProgress {
    ResolvingActor,
    CheckingCache { path: String },
    CacheHit { path: String, count: usize },
    CacheStale { path: String, generated_at_unix: u64 },
    ApplyingLimit { limit: usize },
    FetchingFollowsPage { page: usize },
    FetchedFollowsPage { page: usize, total: usize },
    FetchingLastPosts { completed: usize, total: usize },
    WritingCache { path: String },
    WroteCache { path: String },
}

/// A cached follow list as stored on disk.
#[derive(Debug, Clone, PartialEq)]
pub struct FollowSyncCacheFile {
    pub version: u8,
    pub actor: String,
    pub actor_did: String,
    pub generated_at_unix: u64,
    pub follows_hash: String,
    pub follows: Vec<Follow>,
}

/// A cached follow report as stored on disk.
#[derive(Debug, Clone, PartialEq)]
pub struct ReportCacheFile {
    pub version: u8,
    pub actor: String,
    pub actor_did: String,
    pub cache_key: String,
    pub generated_at_unix: u64,
    pub follows_hash: String,
    pub follows: Vec<FollowLastPost>,
}

impl FollowSyncCacheFile {
    /// The follow list this cache file holds, located at `cache_path`.
    pub fn into_sync(self, cache_path: String) -> (r: FollowSync)
        ensures
            r.actor == self.actor,
            r.actor_did == self.actor_did,
            r.cache_path == cache_path,
            r.generated_at_unix == self.generated_at_unix,
            r.follows_hash == self.follows_hash,
            r.follows == self.follows,
    {
        FollowSync {
            actor: self.actor,
            actor_did: self.actor_did,
            cache_path,
            generated_at_unix: self.generated_at_unix,
            follows_hash: self.follows_hash,
            follows: self.follows,
        }
    }

    /// Whether the file has the current format; older files are ignored.
    pub fn is_current(&self) -> (r: bool)
        ensures
            r == (self.version == FOLLOW_SYNC_CACHE_VERSION),
    {
        self.version == FOLLOW_SYNC_CACHE_VERSION
    }
}

impl ReportCacheFile {
    /// The report this cache file holds, located at `cache_path`.
    pub fn into_report(self, cache_path: String) -> (r: FollowsReport)
        ensures
            r.actor == self.actor,
            r.actor_did == self.actor_did,
            r.cache_key == self.cache_key,
            r.cache_path == cache_path,
            r.generated_at_unix == self.generated_at_unix,
            r.follows_hash == self.follows_hash,
            r.follows == self.follows,
    {
        FollowsReport {
            actor: self.actor,
            actor_did: self.actor_did,
            cache_key: self.cache_key,
            cache_path,
            generated_at_unix: self.generated_at_unix,
            follows_hash: self.follows_hash,
            follows: self.follows,
        }
    }

    /// Whether the file has the current format; older files are ignored.
    pub fn is_current(&self) -> (r: bool)
        ensures
            r == (self.version == REPORT_CACHE_VERSION),
    {
        self.version == REPORT_CACHE_VERSION
    }
}

/// `value` with every character other than an ASCII letter or digit replaced by `-`.
pub open spec fn sanitized(value: Seq<char>) -> Seq<char> {
    value.map_values(|c: char| if is_ascii_alnum(c) {
        c
    } else {
        '-'
    })
}

/// `value` with every character other than an ASCII letter or digit made `-`.
pub fn sanitize_cache_component(value: &str) -> (r: String)
    ensures
        r@ == sanitized(value@),
{
    let v = chars_of(value);
    let mut r = String::new();
    let mut i: usize = 0;
    while i < v.len()
        invariant
            v@ == value@,
            0 <= i <= v@.len(),
            r@ == sanitized(v@.take(i as int)),
        decreases v@.len() - i,
    {
        let c = v[i];
        push_char(&mut r, if ascii_alnum(c) { c } else { '-' });
        assert(sanitized(v@.take(i + 1)) =~= sanitized(v@.take(i as int)).push(
            if is_ascii_alnum(c) { c } else { '-' },
        ));
        i = i + 1;
    }
    assert(v@.take(v@.len() as int) =~= v@);
    r
}

/// The cache directory of the tools: `$XDG_CACHE_HOME/atproto-tools`, else
/// `$HOME/.cache/atproto-tools`; `None` when neither variable is set.
pub open spec fn cache_base_dir_of(xdg_cache_home: Option<Seq<char>>, home: Option<Seq<char>>) -> Option<
    Seq<char>,
> {
    match xdg_cache_home {
        Some(x) => Some(path_join(x, "atproto-tools"@)),
        None => match home {
            Some(h) => Some(path_join(path_join(h, ".cache"@), "atproto-tools"@)),
            None => None,
        },
    }
}

pub open spec fn opt_view(o: Option<&str>) -> Option<Seq<char>> {
    match o {
        Some(s) => Some(s@),
        None => None,
    }
}

/// The cache directory: under `XDG_CACHE_HOME`, else under `HOME/.cache`.
pub fn cache_base_dir(xdg_cache_home: Option<&str>, home: Option<&str>) -> (r: Option<String>)
    ensures
        match r {
            Some(p) => cache_base_dir_of(opt_view(xdg_cache_home), opt_view(home)) == Some(p@),
            None => cache_base_dir_of(opt_view(xdg_cache_home), opt_view(home)) is None,
        },
{
    match xdg_cache_home {
        Some(x) => Some(join_path(x, "atproto-tools")),
        None => match home {
            Some(h) => {
                let dot_cache = join_path(h, ".cache");
                Some(join_path(dot_cache.as_str(), "atproto-tools"))
            },
            None => None,
        },
    }
}

/// The file name suffix of a follow-list cache: `limit-N` or `all`.
pub open spec fn limit_suffix(limit: Option<usize>) -> Seq<char> {
    match limit {
        Some(n) => "limit-"@ + decimal(n as nat),
        None => "all"@,
    }
}

/// Where the follow list of `did` (at most `limit` follows) is cached under `base_dir`.
pub open spec fn follow_sync_cache_path_of(base_dir: Seq<char>, did: Seq<char>, limit: Option<usize>) -> Seq<
    char,
> {
    path_join(
        path_join(base_dir, "bsky-follow-sync"@),
        sanitized(did) + "-"@ + limit_suffix(limit) + ".json"@,
    )
}

/// The cache file of the follow list of `did` fetched with `limit`.
pub fn follow_sync_cache_path(base_dir: &str, did: &str, limit: Option<usize>) -> (r: String)
    ensures
        r@ == follow_sync_cache_path_of(base_dir@, did@, limit),
{
    let mut name = sanitize_cache_component(did);
    name.append("-");
    match limit {
        Some(n) => {
            name.append("limit-");
            let digits = usize_to_decimal(n);
            name.append(digits.as_str());
        },
        None => {
            name.append("all");
        },
    }
    name.append(".json");
    let dir = join_path(base_dir, "bsky-follow-sync");
    join_path(dir.as_str(), name.as_str())
}

/// The bytes hashed for a report cache key: the format version, then the actor's DID, its
/// handle, its follows count in decimal and its follow-list hash, separated by zero bytes.
pub open spec fn report_key_message(
    actor_did: Seq<char>,
    actor_handle: Seq<char>,
    follows_count: nat,
    follows_hash: Seq<char>,
) -> Seq<u8> {
    seq![REPORT_CACHE_VERSION] + encode_utf8(actor_did) + seq![0u8] + encode_utf8(actor_handle) + seq![0u8]
        + encode_utf8(decimal(follows_count)) + seq![0u8] + encode_utf8(follows_hash)
}

/// The cache key of a report: the lowercase hexadecimal SHA-256 of the actor's DID, handle and
/// follows count (and of the follow-list hash, so that a changed list misses the cache).
pub fn report_cache_key(actor_did: &str, actor_handle: &str, follows_count: usize, follows_hash: &str) -> (r: String)
    ensures
        r@ == hex_of(sha256(report_key_message(actor_did@, actor_handle@, follows_count as nat, follows_hash@))),
        is_lower_hex_sha256(r@),
{
    let count = usize_to_decimal(follows_count);
    let mut message: Vec<u8> = Vec::new();
    message.push(REPORT_CACHE_VERSION);
    append_bytes(&mut message, actor_did.as_bytes());
    message.push(0u8);
    append_bytes(&mut message, actor_handle.as_bytes());
    message.push(0u8);
    append_bytes(&mut message, count.as_str().as_bytes());
    message.push(0u8);
    append_bytes(&mut message, follows_hash.as_bytes());
    assert(message@ =~= report_key_message(actor_did@, actor_handle@, follows_count as nat, follows_hash@));
    let digest = sha256_digest(message.as_slice());
    proof {
        lemma_hex_sha256(digest@);
    }
    hex_hash(digest.as_slice())
}

/// Where the report with `cache_key` for `actor_did` is cached under `base_dir`.
pub open spec fn report_cache_path_of(base_dir: Seq<char>, actor_did: Seq<char>, cache_key: Seq<char>) -> Seq<
    char,
> {
    path_join(
        path_join(base_dir, "bsky-follows"@),
        sanitized(actor_did) + "-"@ + cache_key + ".json"@,
    )
}

/// The cache file of the follow report of `actor_did` under `cache_key`.
pub fn report_cache_path(base_dir: &str, actor_did: &str, cache_key: &str) -> (r: String)
    ensures
        r@ == report_cache_path_of(base_dir@, actor_did@, cache_key@),
{
    let mut name = sanitize_cache_component(actor_did);
    name.append("-");
    name.append(cache_key);
    name.append(".json");
    let dir = join_path(base_dir, "bsky-follows");
    join_path(dir.as_str(), name.as_str())
}

/// Whether a cache written at `generated_at_unix` is still fresh at `now_unix`: always when no
/// expiry is set or the clock cannot be read, otherwise while less than `recache_after` seconds
/// have passed (a cache from the future counts as just written).
pub open spec fn is_fresh(generated_at_unix: u64, recache_after: Option<u64>, now_unix: Option<u64>) -> bool {
    match recache_after {
        None => true,
        Some(after) => match now_unix {
            None => true,
            Some(now) => (if now >= generated_at_unix {
                now - generated_at_unix
            } else {
                0
            }) < after,
        },
    }
}

/// Whether a cache written at `generated_at_unix` is still fresh at `now_unix`.
pub fn cache_is_fresh(generated_at_unix: u64, recache_after: Option<u64>, now_unix: Option<u64>) -> (r:
    bool)
    ensures
        r == is_fresh(generated_at_unix, recache_after, now_unix),
{
    let Some(after) = recache_after else {
        return true;
    };
    let Some(now) = now_unix else {
        return true;
    };
    now.saturating_sub(generated_at_unix) < after
}

/// The Bluesky profile page of a handle.
pub open spec fn profile_url_of(handle: Seq<char>) -> Seq<char> {
    "https://bsky.app/profile/"@ + handle
}

/// The Bluesky profile address of `handle`.
pub fn profile_url(handle: &str) -> (r: String)
    ensures
        r@ == profile_url_of(handle@),
{
    let mut r = String::from_str("https://bsky.app/profile/");
    r.append(handle);
    r
}

/// When the post was made: the record's `createdAt` where it is a string, else when the
/// service indexed it.
pub open spec fn post_view_time(post: FeedDefsPostView) -> Seq<char> {
    match post.record.spec_get_str("createdAt"@) {
        Some(t) => t,
        None => post.indexed_at@,
    }
}

/// `post_view_time` of a feed item's post.
pub open spec fn post_time(item: FeedDefsFeedViewPost) -> Seq<char> {
    post_view_time(item.post)
}

/// A feed item that is `actor`'s own top-level post: not a repost, not a reply, and written
/// by `actor`.
pub open spec fn is_top_level_by(item: FeedDefsFeedViewPost, actor: Seq<char>) -> bool {
    &&& item.reason is None
    &&& item.reply is None
    &&& item.post.author.did@ == actor
}

/// The time by which a post is dated (`post_view_time`).
pub fn post_view_date(post: &FeedDefsPostView) -> (r: &str)
    ensures
        r@ == post_view_time(*post),
{
    match post.record.get_str("createdAt") {
        Some(t) => t,
        None => post.indexed_at.as_str(),
    }
}

fn record_time(item: &FeedDefsFeedViewPost) -> (r: String)
    ensures
        r@ == post_time(*item),
{
    copy_str(post_view_date(&item.post))
}

/// The first item of `feed` that is `actor`'s own top-level post, with its time and URI.
pub fn select_top_level_post(feed: &Vec<FeedDefsFeedViewPost>, actor: &str) -> (r: Option<
    ActorTopLevelPost,
>)
    ensures
        match r {
            None => forall|i: int| 0 <= i < feed@.len() ==> !is_top_level_by(#[trigger] feed@[i], actor@),
            Some(p) => exists|i: int|
                0 <= i < feed@.len() && is_top_level_by(#[trigger] feed@[i], actor@) && (forall|j: int|
                    0 <= j < i ==> !is_top_level_by(#[trigger] feed@[j], actor@)) && p.created_at@
                    == post_time(feed@[i]) && p.uri@ == feed@[i].post.uri@,
        },
{
    let mut i: usize = 0;
    while i < feed.len()
        invariant
            0 <= i <= feed@.len(),
            forall|j: int| 0 <= j < i ==> !is_top_level_by(#[trigger] feed@[j], actor@),
        decreases feed@.len() - i,
    {
        let item = &feed[i];
        if item.reason.is_none() && item.reply.is_none() && str_eq(item.post.author.did.as_str(), actor) {
            let created_at = record_time(item);
            let uri = copy_str(item.post.uri.as_str());
            assert(is_top_level_by(feed@[i as int], actor@));
            return Some(ActorTopLevelPost { created_at, uri });
        }
        i = i + 1;
    }
    None
}

/// The latest post found for an account.
#[derive(Debug, Clone, PartialEq, Eq)]
pub struct LastPost {
    pub created_at: String,
    pub rkey: String,
    pub url: String,
}

/// What follows the last `/` of `s` (all of `s` where it holds none).
pub open spec fn last_segment(s: Seq<char>) -> Seq<char>
    decreases s.len(),
{
    if s.len() == 0 {
        s
    } else if s.last() == '/' {
        Seq::empty()
    } else {
        last_segment(s.drop_last()).push(s.last())
    }
}

/// The part of `s` after its last `/`.
pub fn last_path_segment(s: &str) -> (r: String)
    ensures
        r@ == last_segment(s@),
{
    let v = chars_of(s);
    let mut seg = String::new();
    let mut i: usize = 0;
    while i < v.len()
        invariant
            v@ == s@,
            0 <= i <= v@.len(),
            seg@ == last_segment(v@.take(i as int)),
        decreases v@.len() - i,
    {
        assert(v@.take(i + 1).drop_last() =~= v@.take(i as int));
        if v[i] == '/' {
            seg = String::new();
        } else {
            push_char(&mut seg, v[i]);
        }
        i = i + 1;
    }
    assert(v@.take(v@.len() as int) =~= v@);
    seg
}

/// The name shown in a post link: the handle, or the DID where the handle is empty.
pub open spec fn link_name(item: FeedDefsFeedViewPost) -> Seq<char> {
    if item.post.author.handle@.len() == 0 {
        item.post.author.did@
    } else {
        item.post.author.handle@
    }
}

/// The Bluesky page of post `rkey` by `name`.
pub open spec fn post_url_of(name: Seq<char>, rkey: Seq<char>) -> Seq<char> {
    "https://bsky.app/profile/"@ + name + "/post/"@ + rkey
}

/// A feed item that counts as `actor`'s latest post: not a repost, written by `actor`, with a
/// URI whose record key is not empty.  Replies count.
pub open spec fn is_last_post_by(item: FeedDefsFeedViewPost, actor: Seq<char>) -> bool {
    &&& item.reason is None
    &&& item.post.author.did@ == actor
    &&& last_segment(item.post.uri@).len() > 0
}

/// The Bluesky address of post `rkey` of `name`.
pub fn post_url(name: &str, rkey: &str) -> (r: String)
    ensures
        r@ == post_url_of(name@, rkey@),
{
    let mut r = String::from_str("https://bsky.app/profile/");
    r.append(name);
    r.append("/post/");
    r.append(rkey);
    r
}

/// The first item of `feed` that counts as `actor`'s latest post, with its time, record key
/// and link.
pub fn select_last_post(feed: &Vec<FeedDefsFeedViewPost>, actor: &str) -> (r: Option<LastPost>)
    ensures
        match r {
            None => forall|i: int| 0 <= i < feed@.len() ==> !is_last_post_by(#[trigger] feed@[i], actor@),
            Some(p) => exists|i: int|
                0 <= i < feed@.len() && is_last_post_by(#[trigger] feed@[i], actor@) && (forall|j: int|
                    0 <= j < i ==> !is_last_post_by(#[trigger] feed@[j], actor@)) && p.created_at@
                    == post_time(feed@[i]) && p.rkey@ == last_segment(feed@[i].post.uri@) && p.url@
                    == post_url_of(link_name(feed@[i]), last_segment(feed@[i].post.uri@)),
        },
{
    let mut i: usize = 0;
    while i < feed.len()
        invariant
            0 <= i <= feed@.len(),
            forall|j: int| 0 <= j < i ==> !is_last_post_by(#[trigger] feed@[j], actor@),
        decreases feed@.len() - i,
    {
        let item = &feed[i];
        if item.reason.is_none() && str_eq(item.post.author.did.as_str(), actor) {
            let rkey = last_path_segment(item.post.uri.as_str());
            if rkey.as_str().unicode_len() > 0 {
                let created_at = record_time(item);
                let url = if item.post.author.handle.as_str().unicode_len() == 0 {
                    post_url(item.post.author.did.as_str(), rkey.as_str())
                } else {
                    post_url(item.post.author.handle.as_str(), rkey.as_str())
                };
                assert(is_last_post_by(feed@[i as int], actor@));
                return Some(LastPost { created_at, rkey, url });
            }
        }
        i = i + 1;
    }
    None
}

/// A follow together with what was found of its latest post.
pub fn follow_last_post(follow: &Follow, last_post: &Option<LastPost>) -> (r: FollowLastPost)
    ensures
        r.handle@ == follow.handle@,
        r.did@ == follow.did@,
        r.profile_url@ == profile_url_of(follow.handle@),
        match last_post {
            None => r.last_post_at is None && r.last_post_rkey is None && r.last_post_url is None,
            Some(p) => r.last_post_at == Some(p.created_at) && r.last_post_rkey == Some(p.rkey)
                && r.last_post_url == Some(p.url),
        },
{
    let (last_post_at, last_post_rkey, last_post_url) = match last_post {
        None => (None, None, None),
        Some(p) => (Some(p.created_at.clone()), Some(p.rkey.clone()), Some(p.url.clone())),
    };
    FollowLastPost {
        handle: copy_str(follow.handle.as_str()),
        did: copy_str(follow.did.as_str()),
        profile_url: profile_url(follow.handle.as_str()),
        last_post_at,
        last_post_rkey,
        last_post_url,
    }
}

/// The cursor for the next page of a listing: none once the service sends none or an empty one.
pub fn next_cursor(cursor: Option<String>) -> (r: Option<String>)
    ensures
        match cursor {
            Some(c) => if c@.len() > 0 { r == Some(c) } else { r is None },
            None => r is None,
        },
{
    match cursor {
        Some(c) => if c.as_str().unicode_len() > 0 { Some(c) } else { None },
        None => None,
    }
}

/// `s` cut to its first `limit` items where a limit is set.
pub open spec fn limited<T>(s: Seq<T>, limit: Option<usize>) -> Seq<T> {
    match limit {
        Some(l) => if l < s.len() {
            s.take(l as int)
        } else {
            s
        },
        None => s,
    }
}

/// Whether a page's cursor leads to another page: it is given and not empty.
pub open spec fn cursor_continues(next: Option<String>) -> bool {
    next matches Some(c) && c@.len() > 0
}

/// A walk through the pages of a feed: how many pages were fetched, how many may be, whether
/// the walk is over, and the cursor of the next page while it is not.
#[derive(Debug, Clone)]
pub struct FeedWalk {
    pub pages_fetched: usize,
    pub max_pages: usize,
    pub cursor: Option<String>,
    pub done: bool,
}

impl FeedWalk {
    /// A walk never fetches more than `max_pages` pages, and goes on only while it has fetched
    /// fewer.
    pub open spec fn wf(&self) -> bool {
        self.pages_fetched <= self.max_pages && (!self.done ==> self.pages_fetched < self.max_pages)
    }

    /// A walk that has fetched nothing; it is over at once where no page may be fetched.
    pub fn new(max_pages: usize) -> (r: Self)
        ensures
            r.wf(),
            r.pages_fetched == 0,
            r.max_pages == max_pages,
            r.cursor is None,
            r.done == (max_pages == 0),
    {
        FeedWalk { pages_fetched: 0, max_pages, cursor: None, done: max_pages == 0 }
    }

    /// Records a fetched page and its cursor: the walk goes on to that cursor while pages may
    /// still be fetched and the cursor is given and not empty, and is over otherwise.
    pub fn after_page(&mut self, next: Option<String>)
        requires
            old(self).wf(),
            !old(self).done,
        ensures
            final(self).wf(),
            final(self).max_pages == old(self).max_pages,
            final(self).pages_fetched == old(self).pages_fetched + 1,
            final(self).done == (final(self).pages_fetched >= final(self).max_pages || !cursor_continues(next)),
            !final(self).done ==> final(self).cursor == next,
    {
        self.pages_fetched = self.pages_fetched + 1;
        let more = self.pages_fetched < self.max_pages;
        match next_cursor(next) {
            Some(c) => {
                if more {
                    self.cursor = Some(c);
                    self.done = false;
                } else {
                    self.done = true;
                }
            },
            None => {
                self.done = true;
            },
        }
    }

    /// Ends the walk early (its answer was found).
    pub fn stop(&mut self)
        requires
            old(self).wf(),
        ensures
            final(self).wf(),
            final(self).done,
            final(self).pages_fetched == old(self).pages_fetched,
            final(self).max_pages == old(self).max_pages,
    {
        self.done = true;
    }
}

/// The cursor of the next page of a follow list: none once `count` follows reach `limit`, else
/// the page's cursor where it is given and not empty.
pub fn follows_next_page(count: usize, limit: Option<usize>, next: Option<String>) -> (r: Option<String>)
    ensures
        (limit matches Some(l) && count >= l) ==> r is None,
        !(limit matches Some(l) && count >= l) ==> (if cursor_continues(next) {
            r == next
        } else {
            r is None
        }),
{
    if follows_limit_reached(count, limit) {
        None
    } else {
        next_cursor(next)
    }
}

/// What a cached follow list is good for.
#[derive(Debug, Clone, Copy, PartialEq, Eq, Structural)]
pub enum CacheUse {
    /// Current and fresh: use it.
    Hit,
    /// Current but too old: fetch again.
    Stale,
    /// Written by another format version: ignore it.
    Outdated,
}

/// Whether the cached follow list `cache` is used, at `now_unix`.
pub fn sync_cache_use(cache: &FollowSyncCacheFile, recache_after: Option<u64>, now_unix: Option<u64>) -> (r: CacheUse)
    ensures
        r == (if cache.version != FOLLOW_SYNC_CACHE_VERSION {
            CacheUse::Outdated
        } else if is_fresh(cache.generated_at_unix, recache_after, now_unix) {
            CacheUse::Hit
        } else {
            CacheUse::Stale
        }),
{
    if !cache.is_current() {
        CacheUse::Outdated
    } else if cache_is_fresh(cache.generated_at_unix, recache_after, now_unix) {
        CacheUse::Hit
    } else {
        CacheUse::Stale
    }
}

/// Adds a page of follows, keeping at most `limit` of them.
pub fn add_follows_page<T>(follows: &mut Vec<T>, page: Vec<T>, limit: Option<usize>)
    ensures
        final(follows)@ == limited(old(follows)@ + page@, limit),
{
    let mut page = page;
    follows.append(&mut page);
    if let Some(l) = limit {
        follows.truncate(l);
    }
}

/// Whether paging stops because the limit is reached.
pub fn follows_limit_reached(count: usize, limit: Option<usize>) -> (r: bool)
    ensures
        r == (limit matches Some(l) && count >= l),
{
    match limit {
        Some(l) => count >= l,
        None => false,
    }
}

/// The follows of a profile listing, each with its profile link.
pub fn follows_from_profiles(profiles: &Vec<crate::bsky_models::ActorDefsProfileView>) -> (r: Vec<Follow>)
    ensures
        r@.len() == profiles@.len(),
        forall|i: int|
            0 <= i < r@.len() ==> (#[trigger] r@[i]).handle@ == profiles@[i].handle@ && r@[i].did@ == profiles@[i].did@
                && r@[i].profile_url@ == profile_url_of(profiles@[i].handle@),
{
    let mut r: Vec<Follow> = Vec::new();
    let mut i: usize = 0;
    while i < profiles.len()
        invariant
            0 <= i <= profiles@.len(),
            r@.len() == i,
            forall|j: int|
                0 <= j < i ==> (#[trigger] r@[j]).handle@ == profiles@[j].handle@ && r@[j].did@ == profiles@[j].did@
                    && r@[j].profile_url@ == profile_url_of(profiles@[j].handle@),
        decreases profiles@.len() - i,
    {
        let p = &profiles[i];
        r.push(Follow {
            handle: copy_str(p.handle.as_str()),
            did: copy_str(p.did.as_str()),
            profile_url: profile_url(p.handle.as_str()),
        });
        i = i + 1;
    }
    r
}

/// A fresh follow-list cache file: the current format, the actor, when it was made, and the
/// follows with their hash.
pub fn new_follow_sync_cache(actor: String, actor_did: String, generated_at_unix: u64, follows: Vec<Follow>) -> (r:
    FollowSyncCacheFile)
    ensures
        r.version == FOLLOW_SYNC_CACHE_VERSION,
        r.actor == actor,
        r.actor_did == actor_did,
        r.generated_at_unix == generated_at_unix,
        r.follows_hash@ == follows_hash_of(follows@),
        r.follows == follows,
{
    let follows_hash = hash_follows(follows.as_slice());
    FollowSyncCacheFile {
        version: FOLLOW_SYNC_CACHE_VERSION,
        actor,
        actor_did,
        generated_at_unix,
        follows_hash,
        follows,
    }
}

/// A fresh report cache file: the current format, the follow list it was made from, its key,
/// when it was made, and the rows.
pub fn new_report_cache(sync: FollowSync, cache_key: String, generated_at_unix: u64, rows: Vec<FollowLastPost>) -> (r:
    ReportCacheFile)
    ensures
        r.version == REPORT_CACHE_VERSION,
        r.actor == sync.actor,
        r.actor_did == sync.actor_did,
        r.cache_key == cache_key,
        r.generated_at_unix == generated_at_unix,
        r.follows_hash == sync.follows_hash,
        r.follows == rows,
{
    ReportCacheFile {
        version: REPORT_CACHE_VERSION,
        actor: sync.actor,
        actor_did: sync.actor_did,
        cache_key,
        generated_at_unix,
        follows_hash: sync.follows_hash,
        follows: rows,
    }
}

} // verus!
