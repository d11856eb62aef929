//! Record types of the `sh.tangled` Lexicons.
use vstd::prelude::*;
use vstd::string::*;

verus! {

#[derive(Debug, Clone, PartialEq)]
pub struct Issue {
    pub kind: String,
    pub body: Option<String>,
    pub created_at: String,
    pub mentions: Option<Vec<String>>,
    pub references: Option<Vec<String>>,
    pub repo: Option<String>,
    pub repo_did: Option<String>,
    pub title: String,
}

/// The `$type` of a record of this kind.
pub fn default_issue_type() -> (r: String)
    ensures
        r@ == "sh.tangled.repo.issue"@,
{
    String::from_str("sh.tangled.repo.issue")
}

#[derive(Debug, Clone, PartialEq)]
pub struct Repo {
    pub kind: String,
    pub created_at: String,
    pub description: Option<String>,
    pub knot: String,
    pub labels: Option<Vec<String>>,
    pub name: String,
    pub repo_did: Option<String>,
    pub source: Option<String>,
    pub spindle: Option<String>,
    pub topics: Option<Vec<String>>,
    pub website: Option<String>,
}

/// The `$type` of a record of this kind.
pub fn default_repo_type() -> (r: String)
    ensures
        r@ == "sh.tangled.repo"@,
{
    String::from_str("sh.tangled.repo")
}

#[derive(Debug, Clone, PartialEq)]
pub struct StringRecord {
    pub kind: String,
    pub contents: String,
    pub created_at: String,
    pub description: String,
    pub filename: String,
}

/// The `$type` of a record of this kind.
pub fn default_string_record_type() -> (r: String)
    ensures
        r@ == "sh.tangled.string"@,
{
    String::from_str("sh.tangled.string")
}

} // verus!
