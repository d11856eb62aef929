//! The command line's own decisions: its commands, its presets per tool, the sort it asks for,
//! and the text it shows.
use vstd::prelude::*;
use vstd::string::*;
use crate::follows::{FollowLastPost, FollowsOptions, FollowsProgress, FollowsSort, FollowsSortDirection,
    FollowsSortField, DEFAULT_FOLLOW_RECACHE_AFTER_SECS};
use crate::lexsync::LexiconSyncSpec;
use vstd::utf8::encode_utf8;
use crate::text::{byte_len, char_utf8_width, chars_of, copy_str, push_char, decimal, u64_to_decimal, usize_to_decimal};

verus! {

/// The tools whose Lexicons the command line knows.
#[derive(Debug, Clone, Copy, PartialEq, Eq, Structural)]
pub enum Tool {
    Bsky,
    Margin,
    Tangled,
}

/// A report column as the command line names it.
#[derive(Debug, Clone, Copy, PartialEq, Eq, Structural)]
pub enum FollowsSortFieldArg {
    Handle,
    Did,
    ProfileUrl,
    LastPostAt,
    LastPostRkey,
    LastPostUrl,
}

/// `config` subcommands.
#[derive(Debug, Clone)]
pub enum ConfigCommands {
    SetValue { field: String, value: String },
}

/// `lexicons` subcommands.
#[derive(Debug, Clone)]
pub enum LexiconCommands {
    Sync {
        tool: Tool,
        repo: Option<String>,
        commit: String,
        source_path: Option<String>,
        dest: Option<String>,
        files: Vec<String>,
    },
    Generate { tool: Tool, input: Option<String>, output: Option<String> },
}

/// `margin` subcommands.
#[derive(Debug, Clone)]
pub enum MarginCommands {
    Export { source: Option<String>, actor: Option<String>, output_dir: String },
}

/// `bsky` subcommands.
#[derive(Debug, Clone)]
pub enum BskyCommands {
    LinkDigest {
        actor: Option<String>,
        since: Option<String>,
        until: Option<String>,
        limit: Option<usize>,
        min_score: Option<i64>,
        min_shares: Option<usize>,
        feed_limit: u16,
        max_pages: usize,
        refresh_follows: bool,
    },
    Follows {
        actor: Option<String>,
        limit: Option<usize>,
        sort: Option<FollowsSortFieldArg>,
        asc: bool,
        desc: bool,
        sort_ascending: Option<FollowsSortFieldArg>,
        sort_descending: Option<FollowsSortFieldArg>,
        refresh: bool,
        json: bool,
    },
}

pub open spec fn sort_field_of(field: FollowsSortFieldArg) -> FollowsSortField {
    match field {
        FollowsSortFieldArg::Handle => FollowsSortField::Handle,
        FollowsSortFieldArg::Did => FollowsSortField::Did,
        FollowsSortFieldArg::ProfileUrl => FollowsSortField::ProfileUrl,
        FollowsSortFieldArg::LastPostAt => FollowsSortField::LastPostAt,
        FollowsSortFieldArg::LastPostRkey => FollowsSortField::LastPostRkey,
        FollowsSortFieldArg::LastPostUrl => FollowsSortField::LastPostUrl,
    }
}

impl FollowsSortFieldArg {
    /// The report column this argument names.
    pub fn to_sort_field(self) -> (r: FollowsSortField)
        ensures
            r == sort_field_of(self),
    {
        match self {
            FollowsSortFieldArg::Handle => FollowsSortField::Handle,
            FollowsSortFieldArg::Did => FollowsSortField::Did,
            FollowsSortFieldArg::ProfileUrl => FollowsSortField::ProfileUrl,
            FollowsSortFieldArg::LastPostAt => FollowsSortField::LastPostAt,
            FollowsSortFieldArg::LastPostRkey => FollowsSortField::LastPostRkey,
            FollowsSortFieldArg::LastPostUrl => FollowsSortField::LastPostUrl,
        }
    }
}

/// The sort the `follows` flags ask for: `--sa FIELD` ascending, else `--sd FIELD` descending,
/// else `--sort FIELD` (last post time by default) descending only with `--desc` and without
/// `--asc`.
pub open spec fn requested_sort(
    sort: Option<FollowsSortFieldArg>,
    asc: bool,
    desc: bool,
    sort_ascending: Option<FollowsSortFieldArg>,
    sort_descending: Option<FollowsSortFieldArg>,
) -> FollowsSort {
    match sort_ascending {
        Some(f) => FollowsSort { field: sort_field_of(f), direction: FollowsSortDirection::Asc },
        None => match sort_descending {
            Some(f) => FollowsSort { field: sort_field_of(f), direction: FollowsSortDirection::Desc },
            None => FollowsSort {
                field: sort_field_of(
                    match sort {
                        Some(f) => f,
                        None => FollowsSortFieldArg::LastPostAt,
                    },
                ),
                direction: if desc && !asc {
                    FollowsSortDirection::Desc
                } else {
                    FollowsSortDirection::Asc
                },
            },
        },
    }
}

/// The report options of the `follows` command: its limit and sort, and the default cache
/// lifetime.
pub fn follows_options(
    limit: Option<usize>,
    sort: Option<FollowsSortFieldArg>,
    asc: bool,
    desc: bool,
    sort_ascending: Option<FollowsSortFieldArg>,
    sort_descending: Option<FollowsSortFieldArg>,
) -> (r: FollowsOptions)
    ensures
        r.limit == limit,
        r.sort == requested_sort(sort, asc, desc, sort_ascending, sort_descending),
        r.recache_after == Some(DEFAULT_FOLLOW_RECACHE_AFTER_SECS),
{
    let (field, direction) = if let Some(field) = sort_ascending {
        (field, FollowsSortDirection::Asc)
    } else if let Some(field) = sort_descending {
        (field, FollowsSortDirection::Desc)
    } else {
        (
            match sort {
                Some(f) => f,
                None => FollowsSortFieldArg::LastPostAt,
            },
            if desc && !asc {
                FollowsSortDirection::Desc
            } else {
                FollowsSortDirection::Asc
            },
        )
    };
    let defaults = FollowsOptions::default();
    FollowsOptions {
        limit,
        sort: FollowsSort { field: field.to_sort_field(), direction },
        recache_after: defaults.recache_after,
    }
}

/// Whether a progress count is shown: the first, the last, and every 25th.
pub open spec fn shows_progress(completed: usize, total: usize) -> bool {
    completed == 1 || completed == total || completed % 25 == 0
}

/// Whether a progress line is shown after `completed` of `total` steps.
pub fn should_show_progress(completed: usize, total: usize) -> (r: bool)
    ensures
        r == shows_progress(completed, total),
{
    completed == 1 || completed == total || completed % 25 == 0
}

/// The status line for a step of fetching follows; `None` for the latest-post counts, which
/// are shown as progress.
pub open spec fn follows_status_of(progress: FollowsProgress) -> Option<Seq<char>> {
    match progress {
        FollowsProgress::ResolvingActor => Some("resolving actor"@),
        FollowsProgress::CheckingCache { path } => Some("checking cache "@ + path@),
        FollowsProgress::CacheHit { path, count } => Some("cache hit: "@ + decimal(count as nat) + " follows from "@ + path@),
        FollowsProgress::CacheStale { path, generated_at_unix } => Some(
            "cache stale: "@ + path@ + " generated at "@ + decimal(generated_at_unix as nat),
        ),
        FollowsProgress::ApplyingLimit { limit } => Some("limiting to "@ + decimal(limit as nat) + " follows"@),
        FollowsProgress::FetchingFollowsPage { page } => Some("fetching follows page "@ + decimal(page as nat)),
        FollowsProgress::FetchedFollowsPage { page, total } => Some("fetched "@ + decimal(total as nat) + " follows"@),
        FollowsProgress::FetchingLastPosts { completed, total } => None,
        FollowsProgress::WritingCache { path } => Some("writing cache "@ + path@),
        FollowsProgress::WroteCache { path } => Some("wrote cache "@ + path@),
    }
}

/// The status line shown for a follow-report progress event, where it has one.
pub fn follows_status(progress: &FollowsProgress) -> (r: Option<String>)
    ensures
        match follows_status_of(*progress) {
            Some(t) => r matches Some(s) && s@ == t,
            None => r is None,
        },
{
    match progress {
        FollowsProgress::ResolvingActor => Some(String::from_str("resolving actor")),
        FollowsProgress::CheckingCache { path } => {
            let mut s = String::from_str("checking cache ");
            s.append(path.as_str());
            Some(s)
        },
        FollowsProgress::CacheHit { path, count } => {
            let mut s = String::from_str("cache hit: ");
            s.append(usize_to_decimal(*count).as_str());
            s.append(" follows from ");
            s.append(path.as_str());
            Some(s)
        },
        FollowsProgress::CacheStale { path, generated_at_unix } => {
            let mut s = String::from_str("cache stale: ");
            s.append(path.as_str());
            s.append(" generated at ");
            s.append(u64_to_decimal(*generated_at_unix).as_str());
            Some(s)
        },
        FollowsProgress::ApplyingLimit { limit } => {
            let mut s = String::from_str("limiting to ");
            s.append(usize_to_decimal(*limit).as_str());
            s.append(" follows");
            Some(s)
        },
        FollowsProgress::FetchingFollowsPage { page } => {
            let mut s = String::from_str("fetching follows page ");
            s.append(usize_to_decimal(*page).as_str());
            Some(s)
        },
        FollowsProgress::FetchedFollowsPage { page, total } => {
            let mut s = String::from_str("fetched ");
            s.append(usize_to_decimal(*total).as_str());
            s.append(" follows");
            Some(s)
        },
        FollowsProgress::FetchingLastPosts { completed, total } => None,
        FollowsProgress::WritingCache { path } => {
            let mut s = String::from_str("writing cache ");
            s.append(path.as_str());
            Some(s)
        },
        FollowsProgress::WroteCache { path } => {
            let mut s = String::from_str("wrote cache ");
            s.append(path.as_str());
            Some(s)
        },
    }
}

/// The pair a labelled value prints as, where there is a value.
pub fn opt(key: &str, value: Option<String>) -> (r: Option<(String, String)>)
    ensures
        match value {
            Some(v) => r matches Some(p) && p.0@ == key@ && p.1 == v,
            None => r is None,
        },
{
    match value {
        Some(v) => Some((copy_str(key), v)),
        None => None,
    }
}

/// Where each tool's Lexicon JSON lives locally.
pub open spec fn lexicon_input_of(tool: Tool) -> Seq<char> {
    match tool {
        Tool::Bsky => "lexicons/app/bsky"@,
        Tool::Margin => "lexicons/at/margin"@,
        Tool::Tangled => "lexicons/sh/tangled"@,
    }
}

/// Where each tool's generated models are written.
pub open spec fn generated_output_of(tool: Tool) -> Seq<char> {
    match tool {
        Tool::Bsky => "crates/bsky/src/generated.rs"@,
        Tool::Margin => "crates/margin/src/generated.rs"@,
        Tool::Tangled => "crates/tngl/src/generated.rs"@,
    }
}

/// Where the lexicons of `tool` are read from by default.
pub fn default_lexicon_input(tool: Tool) -> (r: String)
    ensures
        r@ == lexicon_input_of(tool),
{
    match tool {
        Tool::Bsky => String::from_str("lexicons/app/bsky"),
        Tool::Margin => String::from_str("lexicons/at/margin"),
        Tool::Tangled => String::from_str("lexicons/sh/tangled"),
    }
}

/// Where the models generated for `tool` are written by default.
pub fn default_generated_output(tool: Tool) -> (r: String)
    ensures
        r@ == generated_output_of(tool),
{
    match tool {
        Tool::Bsky => String::from_str("crates/bsky/src/generated.rs"),
        Tool::Margin => String::from_str("crates/margin/src/generated.rs"),
        Tool::Tangled => String::from_str("crates/tngl/src/generated.rs"),
    }
}

pub open spec fn strs(v: Seq<String>) -> Seq<Seq<char>> {
    v.map_values(|s: String| s@)
}

/// Each tool's sync preset: its repository, the Lexicon directory in it, where the files go, the
/// files taken, and whether their paths are kept.
pub open spec fn sync_preset(tool: Tool) -> (Seq<char>, Seq<char>, Seq<char>, Seq<Seq<char>>, bool) {
    match tool {
        Tool::Bsky => (
            "bluesky-social/atproto"@,
            "lexicons/app/bsky"@,
            "lexicons/app/bsky"@,
            seq![
                "actor/defs.json"@,
                "feed/defs.json"@,
                "feed/getAuthorFeed.json"@,
                "feed/post.json"@,
                "graph/getFollows.json"@,
            ],
            true,
        ),
        Tool::Margin => (
            "margin-at/margin"@,
            "lexicons/at/margin"@,
            "lexicons/at/margin"@,
            seq!["collection.json"@, "collectionItem.json"@, "like.json"@, "note.json"@],
            false,
        ),
        Tool::Tangled => (
            "tangled.org/tangled.org/core"@,
            "lexicons"@,
            "lexicons/sh/tangled"@,
            seq!["string/string.json"@, "repo/repo.json"@, "issue/issue.json"@],
            false,
        ),
    }
}

fn string_list(items: &[&str]) -> (r: Vec<String>)
    ensures
        strs(r@) == items@.map_values(|s: &str| s@),
{
    let mut r: Vec<String> = Vec::new();
    let mut i: usize = 0;
    while i < items.len()
        invariant
            0 <= i <= items@.len(),
            strs(r@) == items@.take(i as int).map_values(|s: &str| s@),
        decreases items@.len() - i,
    {
        let ghost before = r@;
        r.push(copy_str(items[i]));
        assert(strs(r@) =~= strs(before).push(items@[i as int]@));
        assert(items@.take(i + 1) =~= items@.take(i as int).push(items@[i as int]));
        assert(items@.take(i + 1).map_values(|s: &str| s@) =~= items@.take(i as int).map_values(|s: &str| s@).push(items@[i as int]@));
        i = i + 1;
    }
    assert(items@.take(items@.len() as int) =~= items@);
    r
}

/// The sync preset of `tool` at `commit`.
pub fn default_lexicon_sync_spec(tool: Tool, commit: String) -> (r: LexiconSyncSpec)
    ensures
        r.commit == commit,
        r.repo@ == sync_preset(tool).0,
        r.source_path@ == sync_preset(tool).1,
        r.dest_dir@ == sync_preset(tool).2,
        strs(r.files@) == sync_preset(tool).3,
        r.preserve_paths == sync_preset(tool).4,
{
    match tool {
        Tool::Bsky => {
            let files = string_list(
                &["actor/defs.json", "feed/defs.json", "feed/getAuthorFeed.json", "feed/post.json", "graph/getFollows.json"],
            );
            assert(strs(files@) =~= sync_preset(tool).3);
            LexiconSyncSpec {
                repo: String::from_str("bluesky-social/atproto"),
                commit,
                source_path: String::from_str("lexicons/app/bsky"),
                dest_dir: String::from_str("lexicons/app/bsky"),
                files,
                preserve_paths: true,
            }
        },
        Tool::Margin => {
            let files = string_list(&["collection.json", "collectionItem.json", "like.json", "note.json"]);
            assert(strs(files@) =~= sync_preset(tool).3);
            LexiconSyncSpec {
                repo: String::from_str("margin-at/margin"),
                commit,
                source_path: String::from_str("lexicons/at/margin"),
                dest_dir: String::from_str("lexicons/at/margin"),
                files,
                preserve_paths: false,
            }
        },
        Tool::Tangled => {
            let files = string_list(&["string/string.json", "repo/repo.json", "issue/issue.json"]);
            assert(strs(files@) =~= sync_preset(tool).3);
            LexiconSyncSpec {
                repo: String::from_str("tangled.org/tangled.org/core"),
                commit,
                source_path: String::from_str("lexicons"),
                dest_dir: String::from_str("lexicons/sh/tangled"),
                files,
                preserve_paths: false,
            }
        },
    }
}

// ----------------------------------------------------------------------------------------------
// The follows table
// ----------------------------------------------------------------------------------------------

/// How wide `str::len` says a cell is: its length in UTF-8 bytes.
pub open spec fn cell_len(s: Seq<char>) -> int {
    (encode_utf8(s).len() as usize) as int
}

/// The cells of a report row: handle, DID, profile, latest post time and link (empty where
/// missing).
pub open spec fn row_cells(f: FollowLastPost) -> Seq<Seq<char>> {
    seq![
        f.handle@,
        f.did@,
        f.profile_url@,
        match f.last_post_at {
            Some(t) => t@,
            None => Seq::empty(),
        },
        match f.last_post_url {
            Some(u) => u@,
            None => Seq::empty(),
        },
    ]
}

pub open spec fn table_headers() -> Seq<Seq<char>> {
    seq!["handle"@, "did"@, "profile"@, "lastPostAt"@]
}

/// The width of column `c`: the longest of its header and its cells.
pub open spec fn column_width(follows: Seq<FollowLastPost>, c: int) -> int
    decreases follows.len(),
{
    if follows.len() == 0 {
        cell_len(table_headers()[c])
    } else {
        let w = column_width(follows.drop_last(), c);
        let x = cell_len(row_cells(follows.last())[c]);
        if x > w {
            x
        } else {
            w
        }
    }
}

/// `s` padded with spaces to `width` characters (`format!("{:<width$}")`).
pub open spec fn pad_right(s: Seq<char>, width: int) -> Seq<char> {
    if s.len() < width {
        s + Seq::new((width - s.len()) as nat, |i: int| ' ')
    } else {
        s
    }
}

/// One table line: four padded cells and a last one, two spaces apart.
pub open spec fn table_line(cells: Seq<Seq<char>>, last: Seq<char>, widths: Seq<int>) -> Seq<char> {
    pad_right(cells[0], widths[0]) + "  "@ + pad_right(cells[1], widths[1]) + "  "@ + pad_right(cells[2], widths[2])
        + "  "@ + pad_right(cells[3], widths[3]) + "  "@ + last
}

pub open spec fn table_widths(follows: Seq<FollowLastPost>) -> Seq<int> {
    seq![column_width(follows, 0), column_width(follows, 1), column_width(follows, 2), column_width(follows, 3)]
}

fn padded(s: &str, width: usize) -> (r: String)
    ensures
        r@ == pad_right(s@, width as int),
{
    let n = s.unicode_len();
    let mut r = copy_str(s);
    if n >= width {
        return r;
    }
    let ghost base = r@;
    let mut i: usize = 0;
    while i < width - n
        invariant
            0 <= i <= width - n,
            n == s@.len(),
            r@ == base + Seq::new(i as nat, |j: int| ' '),
        decreases width - n - i,
    {
        push_char(&mut r, ' ');
        assert(base + Seq::new((i + 1) as nat, |j: int| ' ') =~= (base + Seq::new(i as nat, |j: int| ' ')).push(' '));
        i = i + 1;
    }
    r
}

fn opt_or_empty(o: &Option<String>) -> (r: &str)
    ensures
        r@ == match o {
            Some(s) => s@,
            None => Seq::<char>::empty(),
        },
{
    proof {
        reveal_strlit("");
    }
    match o {
        Some(s) => s.as_str(),
        None => "",
    }
}

fn cell(f: &FollowLastPost, c: usize) -> (r: &str)
    requires
        c < 5,
    ensures
        r@ == row_cells(*f)[c as int],
{
    if c == 0 {
        f.handle.as_str()
    } else if c == 1 {
        f.did.as_str()
    } else if c == 2 {
        f.profile_url.as_str()
    } else if c == 3 {
        opt_or_empty(&f.last_post_at)
    } else {
        opt_or_empty(&f.last_post_url)
    }
}

/// The width of one column of the follows table.
pub fn follows_column_width(follows: &Vec<FollowLastPost>, c: usize) -> (r: usize)
    requires
        c < 4,
    ensures
        r == column_width(follows@, c as int),
{
    let header = if c == 0 {
        "handle"
    } else if c == 1 {
        "did"
    } else if c == 2 {
        "profile"
    } else {
        "lastPostAt"
    };
    proof {
        reveal_strlit("handle");
    }
    let mut w: usize = header.len();
    assert(w == cell_len(table_headers()[c as int]));
    let mut i: usize = 0;
    while i < follows.len()
        invariant
            0 <= i <= follows@.len(),
            c < 4,
            w == column_width(follows@.take(i as int), c as int),
        decreases follows@.len() - i,
    {
        assert(follows@.take(i + 1).drop_last() =~= follows@.take(i as int));
        let x = cell(&follows[i], c).len();
        if x > w {
            w = x;
        }
        i = i + 1;
    }
    assert(follows@.take(follows@.len() as int) =~= follows@);
    w
}

/// The widths of the first four columns of the follows table.
pub fn column_widths(follows: &Vec<FollowLastPost>) -> (r: Vec<usize>)
    ensures
        r@.len() == 4,
        forall|c: int| 0 <= c < 4 ==> r@[c] == column_width(follows@, c),
{
    let mut r: Vec<usize> = Vec::new();
    r.push(follows_column_width(follows, 0));
    r.push(follows_column_width(follows, 1));
    r.push(follows_column_width(follows, 2));
    r.push(follows_column_width(follows, 3));
    r
}

/// The follows table: a header line, then one line per row, columns padded to their widths.
pub fn follows_table(follows: &Vec<FollowLastPost>) -> (r: Vec<String>)
    ensures
        r@.len() == follows@.len() + 1,
        r@[0]@ == table_line(table_headers(), "lastPost"@, table_widths(follows@)),
        forall|k: int|
            0 <= k < follows@.len() ==> (#[trigger] r@[k + 1])@ == table_line(
                row_cells(follows@[k]),
                row_cells(follows@[k])[4],
                table_widths(follows@),
            ),
{
    let w0 = follows_column_width(follows, 0);
    let w1 = follows_column_width(follows, 1);
    let w2 = follows_column_width(follows, 2);
    let w3 = follows_column_width(follows, 3);
    let ghost widths = table_widths(follows@);
    let mut lines: Vec<String> = Vec::new();
    let mut head = padded("handle", w0);
    head.append("  ");
    head.append(padded("did", w1).as_str());
    head.append("  ");
    head.append(padded("profile", w2).as_str());
    head.append("  ");
    head.append(padded("lastPostAt", w3).as_str());
    head.append("  ");
    head.append("lastPost");
    assert(head@ =~= table_line(table_headers(), "lastPost"@, widths));
    lines.push(head);
    let mut k: usize = 0;
    while k < follows.len()
        invariant
            0 <= k <= follows@.len(),
            widths == table_widths(follows@),
            w0 == widths[0] && w1 == widths[1] && w2 == widths[2] && w3 == widths[3],
            lines@.len() == k + 1,
            lines@[0]@ == table_line(table_headers(), "lastPost"@, widths),
            forall|j: int|
                0 <= j < k ==> (#[trigger] lines@[j + 1])@ == table_line(row_cells(follows@[j]), row_cells(follows@[j])[4], widths),
        decreases follows@.len() - k,
    {
        let f = &follows[k];
        let mut line = padded(cell(f, 0), w0);
        line.append("  ");
        line.append(padded(cell(f, 1), w1).as_str());
        line.append("  ");
        line.append(padded(cell(f, 2), w2).as_str());
        line.append("  ");
        line.append(padded(cell(f, 3), w3).as_str());
        line.append("  ");
        line.append(cell(f, 4));
        assert(line@ =~= table_line(row_cells(follows@[k as int]), row_cells(follows@[k as int])[4], widths));
        lines.push(line);
        k = k + 1;
    }
    lines
}

} // verus!
