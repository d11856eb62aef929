//! Lexicon syncing: where fetched Lexicon files come from and where they are written.
use vstd::prelude::*;
use vstd::string::*;
use crate::text::{copy_str, debug_quoted, debug_text, has_prefix, join_path, path_join, split_char, split_on,
    starts_with, str_eq, trim, trim_ws};
use crate::json::{json_document, parse_json, pretty_json, pretty_json_text};

verus! {

/// What to fetch: a repository at a commit, a directory in it, the files to take, and where to
/// put them (keeping their relative paths, or just their names).
#[derive(Debug, Clone)]
pub struct LexiconSyncSpec {
    pub repo: String,
    pub commit: String,
    pub source_path: String,
    pub dest_dir: String,
    pub files: Vec<String>,
    pub preserve_paths: bool,
}

/// The commit synced and the files written.
#[derive(Debug, Clone)]
pub struct LexiconSyncReport {
    pub commit: String,
    pub written: Vec<String>,
}

/// Why a sync failed.
#[derive(Debug, Clone)]
pub enum LexiconSyncError {
    CreateDir { path: String, message: String },
    Read { path: String, message: String },
    Json { file: String, message: String },
    InvalidFileName(String),
    Write { path: String, message: String },
    Git(String),
}

/// The message of a sync error, as the command line shows it.
pub open spec fn sync_error_message(e: LexiconSyncError) -> Seq<char> {
    match e {
        LexiconSyncError::CreateDir { path, message } => "failed to create lexicon directory at "@ + path@ + ": "@
            + message@,
        LexiconSyncError::Read { path, message } => "failed to read lexicon at "@ + path@ + ": "@ + message@,
        LexiconSyncError::Json { file, message } => "failed to parse fetched lexicon JSON for "@ + file@ + ": "@
            + message@,
        LexiconSyncError::InvalidFileName(f) => "invalid lexicon filename "@ + debug_text(f@),
        LexiconSyncError::Write { path, message } => "failed to write lexicon at "@ + path@ + ": "@ + message@,
        LexiconSyncError::Git(m) => "git command failed: "@ + m@,
    }
}

impl LexiconSyncError {
    /// The error's message, as the command line shows it.
    pub fn message(&self) -> (r: String)
        ensures
            r@ == sync_error_message(*self),
    {
        match self {
            LexiconSyncError::CreateDir { path, message } => {
                let mut r = String::from_str("failed to create lexicon directory at ");
                r.append(path.as_str());
                r.append(": ");
                r.append(message.as_str());
                r
            },
            LexiconSyncError::Read { path, message } => {
                let mut r = String::from_str("failed to read lexicon at ");
                r.append(path.as_str());
                r.append(": ");
                r.append(message.as_str());
                r
            },
            LexiconSyncError::Json { file, message } => {
                let mut r = String::from_str("failed to parse fetched lexicon JSON for ");
                r.append(file.as_str());
                r.append(": ");
                r.append(message.as_str());
                r
            },
            LexiconSyncError::InvalidFileName(file) => {
                let mut r = String::from_str("invalid lexicon filename ");
                r.append(debug_quoted(file.as_str()).as_str());
                r
            },
            LexiconSyncError::Write { path, message } => {
                let mut r = String::from_str("failed to write lexicon at ");
                r.append(path.as_str());
                r.append(": ");
                r.append(message.as_str());
                r
            },
            LexiconSyncError::Git(message) => {
                let mut r = String::from_str("git command failed: ");
                r.append(message.as_str());
                r
            },
        }
    }
}

/// The file a synced lexicon is written as: `body` read as JSON and written back pretty-printed,
/// with a final line break.
pub open spec fn synced_lexicon_of(body: Seq<char>) -> Option<Seq<char>> {
    match json_document(body) {
        Some(v) => match pretty_json_text(v) {
            Some(text) => Some(text + "\n"@),
            None => None,
        },
        None => None,
    }
}

/// The text a fetched lexicon file `file` is written with: its JSON pretty-printed, with a final
/// line break; refused with the parser's message where the body is not JSON.
pub fn synced_lexicon_text(file: &str, body: &str) -> (r: Result<String, LexiconSyncError>)
    ensures
        match synced_lexicon_of(body@) {
            Some(text) => r matches Ok(s) && s@ == text,
            None => r matches Err(e) && e matches LexiconSyncError::Json { file: f, message: _ } && f@ == file@,
        },
{
    let value = match parse_json(body) {
        Ok(v) => v,
        Err(message) => return Err(LexiconSyncError::Json { file: copy_str(file), message }),
    };
    match pretty_json(&value) {
        Ok(mut text) => {
            text.append("\n");
            Ok(text)
        },
        Err(message) => Err(LexiconSyncError::Json { file: copy_str(file), message }),
    }
}

/// How many times `c` occurs in `s`.
pub open spec fn count_char(s: Seq<char>, c: char) -> nat
    decreases s.len(),
{
    if s.len() == 0 {
        0
    } else {
        count_char(s.drop_last(), c) + if s.last() == c {
            1nat
        } else {
            0nat
        }
    }
}

/// How many times `c` occurs in `s`.
pub fn count_of(s: &str, c: char) -> (r: usize)
    ensures
        r == count_char(s@, c),
{
    let v = crate::text::chars_of(s);
    let mut n: usize = 0;
    let mut i: usize = 0;
    while i < v.len()
        invariant
            v@ == s@,
            0 <= i <= v@.len(),
            n == count_char(v@.take(i as int), c),
            n <= i,
        decreases v@.len() - i,
    {
        assert(v@.take(i + 1).drop_last() =~= v@.take(i as int));
        if v[i] == c {
            n = n + 1;
        }
        i = i + 1;
    }
    assert(v@.take(v@.len() as int) =~= v@);
    n
}

/// The address git clones: a URL as given; `owner/name` on GitHub; any other host path over
/// HTTPS.
pub open spec fn clone_url_of(repo: Seq<char>) -> Seq<char> {
    if has_prefix(repo, "http://"@) || has_prefix(repo, "https://"@) || has_prefix(repo, "ssh://"@) {
        repo
    } else if count_char(repo, '/') == 1 {
        "https://github.com/"@ + repo + ".git"@
    } else {
        "https://"@ + repo
    }
}

/// The address `git clone` is given for `repo`.
pub fn clone_url(repo: &str) -> (r: String)
    ensures
        r@ == clone_url_of(repo@),
{
    if starts_with(repo, "http://") || starts_with(repo, "https://") || starts_with(repo, "ssh://") {
        copy_str(repo)
    } else if count_of(repo, '/') == 1 {
        let mut r = String::from_str("https://github.com/");
        r.append(repo);
        r.append(".git");
        r
    } else {
        let mut r = String::from_str("https://");
        r.append(repo);
        r
    }
}

/// The names along a Unix path: the pieces between `/`s that are neither empty nor `.`.
pub open spec fn path_names(file: Seq<char>) -> Seq<Seq<char>> {
    split_on(file, '/').filter(|p: Seq<char>| p.len() > 0 && p != "."@)
}

/// The file name of a path (`Path::file_name`): its last name, unless that is `..` or there is
/// none.
pub open spec fn file_name_of(file: Seq<char>) -> Option<Seq<char>> {
    let names = path_names(file);
    if names.len() == 0 || names.last() == ".."@ {
        None
    } else {
        Some(names.last())
    }
}

fn last_name(file: &str) -> (r: Option<String>)
    ensures
        match r {
            Some(n) => path_names(file@).len() > 0 && n@ == path_names(file@).last(),
            None => path_names(file@).len() == 0,
        },
{
    let pieces = split_char(file, '/');
    let ghost views = pieces@.map_values(|p: String| p@);
    let ghost keep = |p: Seq<char>| p.len() > 0 && p != "."@;
    let mut last: Option<String> = None;
    let mut i: usize = 0;
    while i < pieces.len()
        invariant
            0 <= i <= pieces@.len(),
            views == pieces@.map_values(|p: String| p@),
            views == split_on(file@, '/'),
            keep == (|p: Seq<char>| p.len() > 0 && p != "."@),
            match last {
                Some(n) => views.take(i as int).filter(keep).len() > 0 && n@ == views.take(i as int).filter(keep).last(),
                None => views.take(i as int).filter(keep).len() == 0,
            },
        decreases pieces@.len() - i,
    {
        proof {
            reveal(Seq::filter);
            assert(views.take(i + 1).drop_last() =~= views.take(i as int));
            assert(views.take(i + 1).last() == pieces@[i as int]@);
        }
        let p = pieces[i].as_str();
        if p.unicode_len() > 0 && !str_eq(p, ".") {
            last = Some(copy_str(p));
        }
        i = i + 1;
    }
    assert(views.take(pieces@.len() as int) =~= views);
    last
}

/// The file name of `file`; refused where it has none.
pub fn dest_file_name(file: &str) -> (r: Result<String, LexiconSyncError>)
    ensures
        match file_name_of(file@) {
            Some(n) => r matches Ok(s) && s@ == n,
            None => r matches Err(e) && e matches LexiconSyncError::InvalidFileName(f) && f@ == file@,
        },
{
    match last_name(file) {
        Some(n) => {
            if str_eq(n.as_str(), "..") {
                Err(LexiconSyncError::InvalidFileName(copy_str(file)))
            } else {
                Ok(n)
            }
        },
        None => Err(LexiconSyncError::InvalidFileName(copy_str(file))),
    }
}

/// A relative path that never climbs: not absolute and with no `..` piece.
pub open spec fn is_clean_relative(file: Seq<char>) -> bool {
    !has_prefix(file, "/"@) && !split_on(file, '/').contains(".."@)
}

/// `file` itself where it is a clean relative path; refused otherwise.
pub fn clean_relative_path(file: &str) -> (r: Result<String, LexiconSyncError>)
    ensures
        is_clean_relative(file@) ==> (r matches Ok(s) && s@ == file@),
        !is_clean_relative(file@) ==> (r matches Err(e) && e matches LexiconSyncError::InvalidFileName(f) && f@ == file@),
{
    if starts_with(file, "/") {
        return Err(LexiconSyncError::InvalidFileName(copy_str(file)));
    }
    let pieces = split_char(file, '/');
    let ghost views = pieces@.map_values(|p: String| p@);
    let mut i: usize = 0;
    while i < pieces.len()
        invariant
            0 <= i <= pieces@.len(),
            views == pieces@.map_values(|p: String| p@),
            views == split_on(file@, '/'),
            forall|j: int| 0 <= j < i ==> views[j] != ".."@,
        decreases pieces@.len() - i,
    {
        if str_eq(pieces[i].as_str(), "..") {
            assert(views[i as int] == ".."@);
            return Err(LexiconSyncError::InvalidFileName(copy_str(file)));
        }
        i = i + 1;
    }
    assert(!views.contains(".."@));
    Ok(copy_str(file))
}

/// Where a fetched file is written: under `dest_dir`, at its relative path when paths are
/// kept, else at its file name.
pub open spec fn dest_path_of(spec: LexiconSyncSpec, file: Seq<char>) -> Option<Seq<char>> {
    if spec.preserve_paths {
        if is_clean_relative(file) {
            Some(path_join(spec.dest_dir@, file))
        } else {
            None
        }
    } else {
        match file_name_of(file) {
            Some(n) => Some(path_join(spec.dest_dir@, n)),
            None => None,
        }
    }
}

/// Where a synced lexicon file is written, refused for unsafe names.
pub fn lexicon_dest_path(spec: &LexiconSyncSpec, file: &str) -> (r: Result<String, LexiconSyncError>)
    ensures
        match dest_path_of(*spec, file@) {
            Some(p) => r matches Ok(s) && s@ == p,
            None => r matches Err(e) && e matches LexiconSyncError::InvalidFileName(f) && f@ == file@,
        },
{
    let relative = if spec.preserve_paths {
        clean_relative_path(file)
    } else {
        dest_file_name(file)
    };
    match relative {
        Ok(rel) => Ok(join_path(spec.dest_dir.as_str(), rel.as_str())),
        Err(e) => Err(e),
    }
}

/// The message of a failed git command: its trimmed error output, followed on a new line by
/// its trimmed standard output where that is not blank.
pub open spec fn git_failure_text(stderr: Seq<char>, stdout: Seq<char>) -> Seq<char> {
    if trim_ws(stdout).len() == 0 {
        trim_ws(stderr)
    } else {
        trim_ws(stderr) + "\n"@ + trim_ws(stdout)
    }
}

/// The message of a failed git command: its trimmed standard error, then its trimmed standard
/// output on a line of its own where there is any.
pub fn git_failure_message(stderr: &str, stdout: &str) -> (r: String)
    ensures
        r@ == git_failure_text(stderr@, stdout@),
{
    let out = trim(stdout);
    let mut r = trim(stderr);
    if out.as_str().unicode_len() > 0 {
        r.append("\n");
        r.append(out.as_str());
    }
    r
}

} // verus!
