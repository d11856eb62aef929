//! at.margin notes exported as Markdown: one document per annotated source, with TOML front
//! matter, a content hash and a file name derived from the title.
use vstd::prelude::*;
use vstd::string::*;
use vstd::relations::*;
use vstd::seq_lib::*;
use crate::follows::{consistent, flip, lemma_order_of_facts};
use crate::hashing::{hex_hash, hex_of, is_lower_hex_sha256, lemma_hex_sha256, sha256, sha256_digest};
use crate::text::{Order, ascii_alnum, chars_of, compare_str, copy_str, is_ascii_alnum, lemma_seq_less_irreflexive,
    lemma_seq_less_transitive, lemma_seq_less_trichotomy, lemma_sorted_same_multiset, order_of, push_char, seq_less, str_eq, trim, trim_ws};
use vstd::utf8::encode_utf8;

verus! {

/// The quoted passage of a note.
#[derive(Debug, Clone)]
pub struct NoteSelector {
    pub exact: Option<String>,
}

/// The text of a note.
#[derive(Debug, Clone)]
pub struct NoteBody {
    pub value: Option<String>,
}

/// What a note is about: a source URL, its title, and the passage quoted.
#[derive(Debug, Clone)]
pub struct NoteTarget {
    pub source: String,
    pub title: Option<String>,
    pub selector: Option<NoteSelector>,
}

/// An at.margin note.
#[derive(Debug, Clone)]
pub struct Note {
    pub created_at: String,
    pub modified_at: Option<String>,
    pub tags: Option<Vec<String>>,
    pub target: NoteTarget,
    pub body: Option<NoteBody>,
}

/// A record of a repository with its address and content id.
#[derive(Debug, Clone)]
pub struct RepoRecord<T> {
    pub uri: String,
    pub cid: String,
    pub value: T,
}

/// One page of `com.atproto.repo.listRecords`.
#[derive(Debug, Clone)]
pub struct ListRecordsResponse<T> {
    pub records: Vec<RepoRecord<T>>,
    pub cursor: Option<String>,
}

/// The notes on one source, ready to be written out.
#[derive(Debug, Clone)]
pub struct SourceNotesDocument {
    pub title: String,
    pub source: String,
    pub updated: String,
    pub sha: String,
    pub notes: Vec<RepoRecord<Note>>,
}

/// Why an export failed.
#[derive(Debug, Clone)]
pub enum MarginExportError {
    Client(String),
    Frontmatter(String),
    Markdown(String),
}

impl MarginExportError {
    /// The error's message, as the command line shows it.
    pub fn message(&self) -> (r: String)
        ensures
            self matches MarginExportError::Client(m) ==> r@ == m@,
            self matches MarginExportError::Frontmatter(m) ==> r@ == "failed to serialize markdown frontmatter: "@ + m@,
            self matches MarginExportError::Markdown(m) ==> r@ == "failed to format markdown note body: "@ + m@,
    {
        match self {
            MarginExportError::Client(m) => copy_str(m.as_str()),
            MarginExportError::Frontmatter(m) => {
                let mut r = String::from_str("failed to serialize markdown frontmatter: ");
                r.append(m.as_str());
                r
            },
            MarginExportError::Markdown(m) => {
                let mut r = String::from_str("failed to format markdown note body: ");
                r.append(m.as_str());
                r
            },
        }
    }
}

// ----------------------------------------------------------------------------------------------
// Ordering notes by creation time
// ----------------------------------------------------------------------------------------------

pub open spec fn note_order(a: RepoRecord<Note>, b: RepoRecord<Note>) -> Order {
    order_of(a.value.created_at@, b.value.created_at@)
}

pub open spec fn indexed_note_leq() -> spec_fn((RepoRecord<Note>, int), (RepoRecord<Note>, int)) -> bool {
    |x: (RepoRecord<Note>, int), y: (RepoRecord<Note>, int)|
        note_order(x.0, y.0) == Order::Less || (note_order(x.0, y.0) == Order::Equal && x.1 <= y.1)
}

pub open spec fn indexed_notes(rows: Seq<RepoRecord<Note>>) -> Seq<(RepoRecord<Note>, int)> {
    Seq::new(rows.len(), |i: int| (rows[i], i))
}

pub open spec fn untagged_notes(g: Seq<(RepoRecord<Note>, int)>) -> Seq<RepoRecord<Note>> {
    g.map_values(|p: (RepoRecord<Note>, int)| p.0)
}

/// `after` holds the notes of `before` ordered by creation time, notes created at the same time
/// keeping their order in `before`.
pub open spec fn notes_stably_sorted(before: Seq<RepoRecord<Note>>, after: Seq<RepoRecord<Note>>) -> bool {
    exists|g: Seq<(RepoRecord<Note>, int)>|
        #![trigger untagged_notes(g)]
        untagged_notes(g) == after && sorted_by(g, indexed_note_leq()) && g.to_multiset()
            == indexed_notes(before).to_multiset()
}

/// Ordering notes by creation time leaves no choice: two results of stably sorting the same
/// notes are the same sequence.
pub proof fn lemma_notes_sort_determined(
    before: Seq<RepoRecord<Note>>,
    a1: Seq<RepoRecord<Note>>,
    a2: Seq<RepoRecord<Note>>,
)
    requires
        notes_stably_sorted(before, a1),
        notes_stably_sorted(before, a2),
    ensures
        a1 == a2,
{
    broadcast use vstd::seq_lib::group_to_multiset_ensures;

    let leq = indexed_note_leq();
    let tagged = indexed_notes(before);
    let g1 = choose|g: Seq<(RepoRecord<Note>, int)>|
        #![trigger untagged_notes(g)]
        untagged_notes(g) == a1 && sorted_by(g, leq) && g.to_multiset() == tagged.to_multiset();
    let g2 = choose|g: Seq<(RepoRecord<Note>, int)>|
        #![trigger untagged_notes(g)]
        untagged_notes(g) == a2 && sorted_by(g, leq) && g.to_multiset() == tagged.to_multiset();
    assert forall|p: (RepoRecord<Note>, int)| g1.contains(p) implies tagged.contains(p) && p.0 == before[p.1] && 0
        <= p.1 < before.len() by {
        assert(g1.to_multiset().count(p) > 0);
        assert(tagged.to_multiset().count(p) > 0);
        let i = choose|i: int| 0 <= i < tagged.len() && tagged[i] == p;
    }
    assert forall|p: (RepoRecord<Note>, int), q: (RepoRecord<Note>, int)| g1.contains(p) && g1.contains(q) implies leq(
        p,
        q,
    ) || leq(q, p) by {
        lemma_order_of_facts(p.0.value.created_at@, q.0.value.created_at@, p.0.value.created_at@);
    }
    assert forall|p: (RepoRecord<Note>, int), q: (RepoRecord<Note>, int)|
        g1.contains(p) && g1.contains(q) && leq(p, q) && leq(q, p) implies p == q by {
        lemma_order_of_facts(p.0.value.created_at@, q.0.value.created_at@, p.0.value.created_at@);
        assert(p.1 == q.1);
    }
    lemma_sorted_same_multiset(g1, g2, leq);
}

/// Sorts notes by creation time, keeping notes created at the same time in their order.
pub fn sort_notes_by_created(notes: Vec<RepoRecord<Note>>) -> (r: Vec<RepoRecord<Note>>)
    ensures
        notes_stably_sorted(notes@, r@),
        forall|i: int, j: int| 0 <= i < j < r@.len() ==> note_order(#[trigger] r@[i], #[trigger] r@[j]) != Order::Greater,
        r@.to_multiset() == notes@.to_multiset(),
{
    broadcast use group_to_multiset_ensures;
    let mut rows = notes;
    let ghost input = rows@;
    let ghost leq = indexed_note_leq();
    let mut out: Vec<RepoRecord<Note>> = Vec::new();
    let ghost mut g: Seq<(RepoRecord<Note>, int)> = Seq::empty();
    let ghost mut i: int = 0;
    assert(input.skip(0) =~= input);
    assert(indexed_notes(input).take(0) =~= Seq::<(RepoRecord<Note>, int)>::empty());
    assert(untagged_notes(g) =~= out@);
    while rows.len() > 0
        invariant
            leq == indexed_note_leq(),
            0 <= i <= input.len(),
            rows@ == input.skip(i),
            out@ == untagged_notes(g),
            sorted_by(g, leq),
            g.to_multiset() == indexed_notes(input).take(i).to_multiset(),
            out@.to_multiset() == input.take(i).to_multiset(),
            forall|j: int| 0 <= j < g.len() ==> (#[trigger] g[j]).1 < i,
        decreases rows@.len(),
    {
        let x = rows.remove(0);
        assert(input.skip(i).remove(0) =~= input.skip(i + 1));
        assert(x == input[i]);
        let mut k: usize = 0;
        while k < out.len() && compare_str(out[k].value.created_at.as_str(), x.value.created_at.as_str()) != Order::Greater
            invariant
                0 <= k <= out@.len(),
                out@ == untagged_notes(g),
                forall|j: int| 0 <= j < k ==> note_order(#[trigger] g[j].0, x) != Order::Greater,
            decreases out@.len() - k,
        {
            assert(out@[k as int] == g[k as int].0);
            k = k + 1;
        }
        proof {
            let ng = g.insert(k as int, (x, i));
            assert forall|a: int, b: int| 0 <= a < b < ng.len() implies #[trigger] leq(ng[a], ng[b]) by {
                if b < k {
                    assert(ng[a] == g[a] && ng[b] == g[b]);
                } else if b == k {
                    assert(ng[a] == g[a]);
                    assert(ng[b] == (x, i));
                    assert(note_order(g[a].0, x) != Order::Greater);
                    assert(g[a].1 < i);
                } else if a == k {
                    assert(ng[b] == g[b - 1]);
                    assert(k < out@.len());
                    assert(out@[k as int] == g[k as int].0);
                    assert(note_order(g[k as int].0, x) == Order::Greater);
                    lemma_order_of_facts(x.value.created_at@, g[k as int].0.value.created_at@, g[b - 1].0.value.created_at@);
                    if b - 1 > k {
                        assert(leq(g[k as int], g[b - 1]));
                    } else {
                        lemma_order_of_facts(g[k as int].0.value.created_at@, g[k as int].0.value.created_at@, g[k as int].0.value.created_at@);
                    }
                } else if a < k {
                    assert(ng[a] == g[a] && ng[b] == g[b - 1]);
                    assert(leq(g[a], g[b - 1]));
                } else {
                    assert(ng[a] == g[a - 1] && ng[b] == g[b - 1]);
                    assert(leq(g[a - 1], g[b - 1]));
                }
            }
            assert(indexed_notes(input).take(i + 1) =~= indexed_notes(input).take(i).push((x, i)));
            to_multiset_insert(g, k as int, (x, i));
            to_multiset_build(indexed_notes(input).take(i), (x, i));
            assert(ng.to_multiset() == g.to_multiset().insert((x, i)));
            assert forall|j: int| 0 <= j < ng.len() implies (#[trigger] ng[j]).1 < i + 1 by {
                if j < k {
                    assert(ng[j] == g[j]);
                } else if j > k {
                    assert(ng[j] == g[j - 1]);
                }
            }
            assert(untagged_notes(ng) =~= out@.insert(k as int, x));
            assert(input.take(i + 1) =~= input.take(i).push(x));
            to_multiset_insert(out@, k as int, x);
            to_multiset_build(input.take(i), x);
            assert(out@.insert(k as int, x).to_multiset() == out@.to_multiset().insert(x));
            g = ng;
            i = i + 1;
        }
        out.insert(k, x);
    }
    proof {
        assert(i == input.len()) by {
            if i < input.len() {
                assert(input.skip(i).len() > 0);
            }
        }
        assert(indexed_notes(input).take(i) =~= indexed_notes(input));
        assert forall|a: int, b: int|
            0 <= a < b < out@.len() implies note_order(#[trigger] out@[a], #[trigger] out@[b]) != Order::Greater by {
            assert(leq(g[a], g[b]));
        }
        assert(input.take(i) =~= input);
    }
    out
}

// ----------------------------------------------------------------------------------------------
// A document's title, update time and hash
// ----------------------------------------------------------------------------------------------

pub open spec fn opt_text(o: Option<String>) -> Seq<char> {
    match o {
        Some(s) => s@,
        None => Seq::empty(),
    }
}

pub open spec fn opt_string(o: Option<String>) -> Option<Seq<char>> {
    match o {
        Some(s) => Some(s@),
        None => None,
    }
}

/// The quoted passage of a note (empty without one).
pub open spec fn exact_text(n: Note) -> Seq<char> {
    match n.target.selector {
        Some(sel) => opt_text(sel.exact),
        None => Seq::empty(),
    }
}

/// The text of a note (empty without one).
pub open spec fn body_text(n: Note) -> Seq<char> {
    match n.body {
        Some(b) => opt_text(b.value),
        None => Seq::empty(),
    }
}

/// The lines a note contributes to a document's hash.
pub open spec fn note_digest_text(r: RepoRecord<Note>) -> Seq<char> {
    r.uri@ + "\n"@ + r.cid@ + "\n"@ + r.value.created_at@ + "\n"@ + opt_text(r.value.modified_at) + "\n"@
        + exact_text(r.value) + "\n"@ + body_text(r.value) + "\n---\n"@
}

/// The text a document's hash is taken of: its source, then each note.
pub open spec fn notes_digest_text(source: Seq<char>, notes: Seq<RepoRecord<Note>>) -> Seq<char>
    decreases notes.len(),
{
    if notes.len() == 0 {
        source + "\n"@
    } else {
        notes_digest_text(source, notes.drop_last()) + note_digest_text(notes.last())
    }
}

/// A document's hash: lowercase hexadecimal SHA-256 of the UTF-8 of `notes_digest_text`.
pub open spec fn notes_sha_of(source: Seq<char>, notes: Seq<RepoRecord<Note>>) -> Seq<char> {
    hex_of(sha256(encode_utf8(notes_digest_text(source, notes))))
}

/// The title of the first note that carries one.
pub open spec fn first_title(notes: Seq<RepoRecord<Note>>) -> Option<Seq<char>>
    decreases notes.len(),
{
    if notes.len() == 0 {
        None
    } else {
        match first_title(notes.drop_last()) {
            Some(t) => Some(t),
            None => opt_string(notes.last().value.target.title),
        }
    }
}

/// When a note last changed: its modification time, else its creation time.
pub open spec fn note_stamp(r: RepoRecord<Note>) -> Seq<char> {
    match r.value.modified_at {
        Some(m) => m@,
        None => r.value.created_at@,
    }
}

/// The latest `note_stamp` of the notes (`""` without notes).
pub open spec fn latest_stamp(notes: Seq<RepoRecord<Note>>) -> Seq<char>
    decreases notes.len(),
{
    if notes.len() == 0 {
        Seq::empty()
    } else if notes.len() == 1 {
        note_stamp(notes[0])
    } else {
        let m = latest_stamp(notes.drop_last());
        let t = note_stamp(notes.last());
        if seq_less(t, m) {
            m
        } else {
            t
        }
    }
}

fn append_opt(out: &mut String, o: &Option<String>)
    ensures
        final(out)@ == old(out)@ + opt_text(*o),
{
    if let Some(s) = o {
        out.append(s.as_str());
    }
}

/// The hash of a document (`notes_sha_of`).
pub fn notes_sha(source: &str, notes: &Vec<RepoRecord<Note>>) -> (r: String)
    ensures
        r@ == notes_sha_of(source@, notes@),
        is_lower_hex_sha256(r@),
{
    let mut text = copy_str(source);
    text.append("\n");
    let mut i: usize = 0;
    while i < notes.len()
        invariant
            0 <= i <= notes@.len(),
            text@ == notes_digest_text(source@, notes@.take(i as int)),
        decreases notes@.len() - i,
    {
        assert(notes@.take(i + 1).drop_last() =~= notes@.take(i as int));
        let record = &notes[i];
        let piece = note_digest_piece(record);
        text.append(piece.as_str());
        i = i + 1;
    }
    assert(notes@.take(notes@.len() as int) =~= notes@);
    let digest = sha256_digest(text.as_str().as_bytes());
    proof {
        lemma_hex_sha256(digest@);
    }
    hex_hash(digest.as_slice())
}

fn note_digest_piece(record: &RepoRecord<Note>) -> (text: String)
    ensures
        text@ == note_digest_text(*record),
{
    let mut text = String::new();
    {
        text.append(record.uri.as_str());
        text.append("\n");
        text.append(record.cid.as_str());
        text.append("\n");
        text.append(record.value.created_at.as_str());
        text.append("\n");
        append_opt(&mut text, &record.value.modified_at);
        text.append("\n");
        if let Some(sel) = &record.value.target.selector {
            append_opt(&mut text, &sel.exact);
        }
        text.append("\n");
        if let Some(body) = &record.value.body {
            append_opt(&mut text, &body.value);
        }
        text.append("\n---\n");
    }
    assert(text@ =~= note_digest_text(*record));
    text
}

fn note_title(notes: &Vec<RepoRecord<Note>>) -> (r: Option<String>)
    ensures
        opt_string(r) == first_title(notes@),
{
    let mut i: usize = 0;
    while i < notes.len()
        invariant
            0 <= i <= notes@.len(),
            first_title(notes@.take(i as int)) is None,
        decreases notes@.len() - i,
    {
        assert(notes@.take(i + 1).drop_last() =~= notes@.take(i as int));
        if let Some(t) = &notes[i].value.target.title {
            proof {
                lemma_first_title_prefix(notes@, i as int + 1);
            }
            return Some(copy_str(t.as_str()));
        }
        i = i + 1;
    }
    assert(notes@.take(notes@.len() as int) =~= notes@);
    None
}

/// Once a prefix has a title, every longer sequence has the same first title.
proof fn lemma_first_title_prefix(notes: Seq<RepoRecord<Note>>, k: int)
    requires
        0 <= k <= notes.len(),
        first_title(notes.take(k)) is Some,
    ensures
        first_title(notes) == first_title(notes.take(k)),
    decreases notes.len() - k,
{
    if k < notes.len() {
        assert(notes.take(k + 1).drop_last() =~= notes.take(k));
        lemma_first_title_prefix(notes, k + 1);
    } else {
        assert(notes.take(k) =~= notes);
    }
}

fn stamp_of(r: &RepoRecord<Note>) -> (s: &str)
    ensures
        s@ == note_stamp(*r),
{
    match &r.value.modified_at {
        Some(m) => m.as_str(),
        None => r.value.created_at.as_str(),
    }
}

fn latest_note_stamp(notes: &Vec<RepoRecord<Note>>) -> (r: String)
    ensures
        r@ == latest_stamp(notes@),
{
    if notes.len() == 0 {
        return String::new();
    }
    let mut best = copy_str(stamp_of(&notes[0]));
    assert(notes@.take(1).len() == 1 && notes@.take(1)[0] == notes@[0]);
    let mut i: usize = 1;
    while i < notes.len()
        invariant
            1 <= i <= notes@.len(),
            best@ == latest_stamp(notes@.take(i as int)),
        decreases notes@.len() - i,
    {
        assert(notes@.take(i + 1).drop_last() =~= notes@.take(i as int));
        let t = stamp_of(&notes[i]);
        if compare_str(t, best.as_str()) != Order::Less {
            best = copy_str(t);
        }
        i = i + 1;
    }
    assert(notes@.take(notes@.len() as int) =~= notes@);
    best
}

/// `doc` is the document of `source` made from `notes`: the notes ordered by creation time
/// (stably), the first note title (else the source) as title, the latest change as update time,
/// and the hash of the ordered notes.
pub open spec fn document_of(doc: SourceNotesDocument, source: Seq<char>, notes: Seq<RepoRecord<Note>>) -> bool {
    &&& doc.source@ == source
    &&& notes_stably_sorted(notes, doc.notes@)
    &&& doc.title@ == match first_title(doc.notes@) {
        Some(t) => t,
        None => source,
    }
    &&& doc.updated@ == latest_stamp(doc.notes@)
    &&& doc.sha@ == notes_sha_of(source, doc.notes@)
}

/// When note `r` last changed as its fields say: `modified_at` where present, else
/// `created_at`.
pub open spec fn changed_at(r: RepoRecord<Note>) -> Seq<char> {
    match r.value.modified_at {
        Some(m) => m@,
        None => r.value.created_at@,
    }
}

/// The latest change of `notes` is at or after each note's `modified_at` (its `created_at` where
/// it has none), and is one of those times.
pub proof fn lemma_latest_stamp_is_latest_change(notes: Seq<RepoRecord<Note>>)
    ensures
        forall|i: int| 0 <= i < notes.len() ==> !seq_less(latest_stamp(notes), changed_at(#[trigger] notes[i])),
        forall|i: int|
            0 <= i < notes.len() ==> match (#[trigger] notes[i]).value.modified_at {
                Some(m) => !seq_less(latest_stamp(notes), m@),
                None => !seq_less(latest_stamp(notes), notes[i].value.created_at@),
            },
        notes.len() > 0 ==> exists|i: int| 0 <= i < notes.len() && latest_stamp(notes) == changed_at(#[trigger] notes[i]),
    decreases notes.len(),
{
    if notes.len() == 1 {
        lemma_seq_less_irreflexive(changed_at(notes[0]));
        assert(latest_stamp(notes) == changed_at(notes[0]));
    } else if notes.len() > 1 {
        let init = notes.drop_last();
        lemma_latest_stamp_is_latest_change(init);
        let m = latest_stamp(init);
        let t = changed_at(notes.last());
        let l = latest_stamp(notes);
        lemma_seq_less_trichotomy(t, m);
        lemma_seq_less_irreflexive(l);
        assert forall|i: int| 0 <= i < notes.len() implies !seq_less(l, changed_at(#[trigger] notes[i])) by {
            if i < notes.len() - 1 {
                assert(notes[i] == init[i]);
                assert(!seq_less(m, changed_at(init[i])));
                if seq_less(l, changed_at(notes[i])) && l != m {
                    // l == t and m < t
                    lemma_seq_less_transitive(m, t, changed_at(notes[i]));
                }
            }
        }
        let k = choose|k: int| 0 <= k < init.len() && m == changed_at(#[trigger] init[k]);
        if l == m {
            assert(notes[k] == init[k]);
        } else {
            assert(l == changed_at(notes[notes.len() - 1]));
        }
    }
    assert forall|i: int| 0 <= i < notes.len() implies match (#[trigger] notes[i]).value.modified_at {
        Some(m) => !seq_less(latest_stamp(notes), m@),
        None => !seq_less(latest_stamp(notes), notes[i].value.created_at@),
    } by {
        assert(!seq_less(latest_stamp(notes), changed_at(notes[i])));
    }
}

impl SourceNotesDocument {
    /// The document of `source` made from `notes` (`document_of`).
    pub fn from_notes(source: &str, notes: Vec<RepoRecord<Note>>) -> (r: Self)
        ensures
            document_of(r, source@, notes@),
            forall|i: int|
                0 <= i < r.notes@.len() ==> match (#[trigger] r.notes@[i]).value.modified_at {
                    Some(m) => !seq_less(r.updated@, m@),
                    None => !seq_less(r.updated@, r.notes@[i].value.created_at@),
                },
            r.notes@.len() > 0 ==> exists|i: int| 0 <= i < r.notes@.len() && r.updated@ == changed_at(#[trigger] r.notes@[i]),
    {
        let notes = sort_notes_by_created(notes);
        let title = match note_title(&notes) {
            Some(t) => t,
            None => copy_str(source),
        };
        let updated = latest_note_stamp(&notes);
        let sha = notes_sha(source, &notes);
        proof {
            lemma_latest_stamp_is_latest_change(notes@);
        }
        SourceNotesDocument { title, source: copy_str(source), updated, sha, notes }
    }
}

// ----------------------------------------------------------------------------------------------
// Markdown
// ----------------------------------------------------------------------------------------------

/// The line `toml` writes for the string entry `key = value` of a table, or `None` where it
/// refuses it.
pub uninterp spec fn toml_entry(key: Seq<char>, value: Seq<char>) -> Option<Seq<char>>;

/// `toml::to_string` of a table holding the one string entry `key = value`; its result is
/// named `toml_entry`.  The error is passed on as its message.
#[verifier::external_body]
fn toml_key_value(key: &str, value: &str) -> (r: Result<String, String>)
    ensures
        match toml_entry(key@, value@) {
            Some(line) => r matches Ok(s) && s@ == line,
            None => r is Err,
        },
{
    let mut table = std::collections::BTreeMap::new();
    table.insert(key, value);
    toml::to_string(&table).map_err(|e| e.to_string())
}

/// What comrak's CommonMark formatter writes for the Markdown `value` parsed with default
/// options, or `None` where formatting fails.
pub uninterp spec fn commonmark_of(value: Seq<char>) -> Option<Seq<char>>;

/// comrak's `parse_document` then `format_commonmark`, both with default options; the result
/// is named `commonmark_of`.  The error is passed on as its message.
#[verifier::external_body]
fn normalize_markdown(value: &str) -> (r: Result<String, String>)
    ensures
        match commonmark_of(value@) {
            Some(text) => r matches Ok(s) && s@ == text,
            None => r is Err,
        },
{
    let arena = comrak::Arena::new();
    let root = comrak::parse_document(&arena, value, &comrak::Options::default());
    let mut output = String::new();
    comrak::format_commonmark(root, &comrak::Options::default(), &mut output).map_err(|e| e.to_string())?;
    Ok(output)
}

/// The front matter of a document: its title, source, update time and hash as TOML.
pub open spec fn frontmatter_of(doc: SourceNotesDocument) -> Option<Seq<char>> {
    match (
        toml_entry("title"@, doc.title@),
        toml_entry("source"@, doc.source@),
        toml_entry("updated"@, doc.updated@),
        toml_entry("sha"@, doc.sha@),
    ) {
        (Some(a), Some(b), Some(c), Some(d)) => Some(a + b + c + d),
        _ => None,
    }
}

/// `s` with `"> "` after every line break, so that each line stays quoted.
pub open spec fn quote_lines(s: Seq<char>) -> Seq<char>
    decreases s.len(),
{
    if s.len() == 0 {
        s
    } else if s.last() == '\n' {
        quote_lines(s.drop_last()) + "\n> "@
    } else {
        quote_lines(s.drop_last()).push(s.last())
    }
}

/// The metadata lines of a note: URI, CID, creation, modification and tags where present.
pub open spec fn note_header(r: RepoRecord<Note>) -> Seq<char> {
    "- uri: "@ + r.uri@ + "\n- cid: "@ + r.cid@ + "\n- created: "@ + r.value.created_at@ + "\n"@ + (match r.value.modified_at {
        Some(m) => "- modified: "@ + m@ + "\n"@,
        None => Seq::empty(),
    }) + (match r.value.tags {
        Some(tags) => if tags@.len() > 0 {
            "- tags: "@ + crate::text::join(tags@.map_values(|t: String| t@), ", "@) + "\n"@
        } else {
            Seq::empty()
        },
        None => Seq::empty(),
    }) + "\n"@
}

/// The quote of a note, where it has one.
pub open spec fn note_quote(r: RepoRecord<Note>) -> Seq<char> {
    match r.value.target.selector {
        Some(sel) => match sel.exact {
            Some(e) => "> "@ + quote_lines(e@) + "\n\n"@,
            None => Seq::empty(),
        },
        None => Seq::empty(),
    }
}

/// The Markdown of one note; `None` where its text cannot be formatted.
pub open spec fn note_markdown(r: RepoRecord<Note>) -> Option<Seq<char>> {
    let head = note_header(r) + note_quote(r);
    match r.value.body {
        Some(b) => match b.value {
            Some(v) => match commonmark_of(v@) {
                Some(text) => Some(head + text + "\n"@),
                None => None,
            },
            None => Some(head),
        },
        None => Some(head),
    }
}

/// The notes' Markdown separated by rules; `None` where one of them cannot be formatted.
pub open spec fn notes_markdown(notes: Seq<RepoRecord<Note>>) -> Option<Seq<char>>
    decreases notes.len(),
{
    if notes.len() == 0 {
        Some(Seq::empty())
    } else {
        match (notes_markdown(notes.drop_last()), note_markdown(notes.last())) {
            (Some(before), Some(last)) => Some(
                if notes.len() == 1 {
                    last
                } else {
                    before + "---\n\n"@ + last
                },
            ),
            _ => None,
        }
    }
}

/// The Markdown of a document: TOML front matter between `+++` lines, then its notes.
pub open spec fn document_markdown(doc: SourceNotesDocument) -> Option<Seq<char>> {
    match (frontmatter_of(doc), notes_markdown(doc.notes@)) {
        (Some(f), Some(n)) => Some("+++\n"@ + f + "+++\n\n"@ + n),
        _ => None,
    }
}

/// `s` with the Markdown quote marker `> ` after each line break.
pub fn quote_newlines(s: &str) -> (r: String)
    ensures
        r@ == quote_lines(s@),
{
    let v = chars_of(s);
    let mut r = String::new();
    let mut i: usize = 0;
    while i < v.len()
        invariant
            v@ == s@,
            0 <= i <= v@.len(),
            r@ == quote_lines(v@.take(i as int)),
        decreases v@.len() - i,
    {
        assert(v@.take(i + 1).drop_last() =~= v@.take(i as int));
        if v[i] == '\n' {
            r.append("\n> ");
        } else {
            push_char(&mut r, v[i]);
        }
        i = i + 1;
    }
    assert(v@.take(v@.len() as int) =~= v@);
    r
}

fn note_header_text(record: &RepoRecord<Note>) -> (out: String)
    ensures
        out@ == note_header(*record),
{
    let mut out = String::from_str("- uri: ");
    out.append(record.uri.as_str());
    out.append("\n- cid: ");
    out.append(record.cid.as_str());
    out.append("\n- created: ");
    out.append(record.value.created_at.as_str());
    out.append("\n");
    let ghost base = out@;
    let mut modified = String::new();
    if let Some(m) = &record.value.modified_at {
        modified.append("- modified: ");
        modified.append(m.as_str());
        modified.append("\n");
    }
    let mut tag_line = String::new();
    if let Some(tags) = &record.value.tags {
        if tags.len() > 0 {
            tag_line.append("- tags: ");
            tag_line.append(crate::text::join_strings(tags, ", ").as_str());
            tag_line.append("\n");
        }
    }
    out.append(modified.as_str());
    out.append(tag_line.as_str());
    out.append("\n");
    assert(out@ =~= note_header(*record));
    out
}

fn note_quote_text(record: &RepoRecord<Note>) -> (out: String)
    ensures
        out@ == note_quote(*record),
{
    let mut out = String::new();
    if let Some(sel) = &record.value.target.selector {
        if let Some(exact) = &sel.exact {
            out.append("> ");
            out.append(quote_newlines(exact.as_str()).as_str());
            out.append("\n\n");
        }
    }
    out
}

fn append_note(out: &mut String, record: &RepoRecord<Note>) -> (r: Result<(), MarginExportError>)
    ensures
        match note_markdown(*record) {
            Some(text) => r is Ok && final(out)@ == old(out)@ + text,
            None => r matches Err(e) && e is Markdown,
        },
{
    let mut piece = note_header_text(record);
    piece.append(note_quote_text(record).as_str());
    if let Some(body) = &record.value.body {
        if let Some(value) = &body.value {
            match normalize_markdown(value.as_str()) {
                Ok(text) => {
                    piece.append(text.as_str());
                    piece.append("\n");
                },
                Err(message) => {
                    return Err(MarginExportError::Markdown(message));
                },
            }
        }
    }
    out.append(piece.as_str());
    Ok(())
}

fn frontmatter(doc: &SourceNotesDocument) -> (r: Result<String, MarginExportError>)
    ensures
        match frontmatter_of(*doc) {
            Some(f) => r matches Ok(s) && s@ == f,
            None => r matches Err(e) && e is Frontmatter,
        },
{
    let a = match toml_key_value("title", doc.title.as_str()) {
        Ok(s) => s,
        Err(m) => return Err(MarginExportError::Frontmatter(m)),
    };
    let b = match toml_key_value("source", doc.source.as_str()) {
        Ok(s) => s,
        Err(m) => return Err(MarginExportError::Frontmatter(m)),
    };
    let c = match toml_key_value("updated", doc.updated.as_str()) {
        Ok(s) => s,
        Err(m) => return Err(MarginExportError::Frontmatter(m)),
    };
    let d = match toml_key_value("sha", doc.sha.as_str()) {
        Ok(s) => s,
        Err(m) => return Err(MarginExportError::Frontmatter(m)),
    };
    let mut r = a;
    r.append(b.as_str());
    r.append(c.as_str());
    r.append(d.as_str());
    Ok(r)
}

impl SourceNotesDocument {
    /// The document as Markdown (`document_markdown`); fails where the front matter cannot be
    /// written or a note's text cannot be formatted.
    pub fn to_markdown(&self) -> (r: Result<String, MarginExportError>)
        ensures
            match document_markdown(*self) {
                Some(text) => r matches Ok(s) && s@ == text,
                None => r is Err,
            },
    {
        let front = match frontmatter(self) {
            Ok(f) => f,
            Err(e) => return Err(e),
        };
        let mut markdown = String::from_str("+++\n");
        markdown.append(front.as_str());
        markdown.append("+++\n\n");
        let ghost head = markdown@;
        let mut i: usize = 0;
        while i < self.notes.len()
            invariant
                0 <= i <= self.notes@.len(),
                frontmatter_of(*self) == Some(front@),
                head == "+++\n"@ + front@ + "+++\n\n"@,
                notes_markdown(self.notes@.take(i as int)) matches Some(n) && markdown@ == head + n,
            decreases self.notes@.len() - i,
        {
            assert(self.notes@.take(i + 1).drop_last() =~= self.notes@.take(i as int));
            assert(self.notes@.take(i + 1).last() == self.notes@[i as int]);
            if i > 0 {
                markdown.append("---\n\n");
            }
            match append_note(&mut markdown, &self.notes[i]) {
                Ok(()) => {},
                Err(e) => {
                    proof {
                        lemma_notes_markdown_fails(self.notes@, i as int);
                    }
                    return Err(e);
                },
            }
            i = i + 1;
        }
        assert(self.notes@.take(self.notes@.len() as int) =~= self.notes@);
        Ok(markdown)
    }
}

/// A note that cannot be formatted makes every longer run of notes fail.
proof fn lemma_notes_markdown_fails(notes: Seq<RepoRecord<Note>>, k: int)
    requires
        0 <= k < notes.len(),
        note_markdown(notes[k]) is None,
    ensures
        notes_markdown(notes) is None,
    decreases notes.len(),
{
    if k < notes.len() - 1 {
        lemma_notes_markdown_fails(notes.drop_last(), k);
    }
}

// ----------------------------------------------------------------------------------------------
// File names
// ----------------------------------------------------------------------------------------------

/// The characters `char::to_lowercase` gives for `c`.
pub uninterp spec fn lower_chars(c: char) -> Seq<char>;

/// `char::to_lowercase`, collected; its result is named `lower_chars`.
#[verifier::external_body]
fn lowercase_chars(c: char) -> (r: Vec<char>)
    ensures
        r@ == lower_chars(c),
{
    c.to_lowercase().collect()
}

/// `s` in lower case, character by character.
pub open spec fn lowered(s: Seq<char>) -> Seq<char>
    decreases s.len(),
{
    if s.len() == 0 {
        Seq::empty()
    } else {
        lowered(s.drop_last()) + lower_chars(s.last())
    }
}

/// The slug built from `chars` so far, and whether it ends in a dash just added: letters and
/// digits are kept, and each run of other characters after some kept one becomes one dash.
pub open spec fn slug_scan(chars: Seq<char>) -> (Seq<char>, bool)
    decreases chars.len(),
{
    if chars.len() == 0 {
        (Seq::empty(), false)
    } else {
        let (slug, dash) = slug_scan(chars.drop_last());
        let c = chars.last();
        if is_ascii_alnum(c) {
            (slug.push(c), false)
        } else if !dash && slug.len() > 0 {
            (slug.push('-'), true)
        } else {
            (slug, dash)
        }
    }
}

/// `s` without its trailing dashes.
pub open spec fn trim_dashes(s: Seq<char>) -> Seq<char>
    decreases s.len(),
{
    if s.len() > 0 && s.last() == '-' {
        trim_dashes(s.drop_last())
    } else {
        s
    }
}

/// The slug of `value`, or `None` where it keeps no letter or digit.
pub open spec fn slug_of(value: Seq<char>) -> Option<Seq<char>> {
    let s = trim_dashes(slug_scan(lowered(value)).0);
    if s.len() == 0 {
        None
    } else {
        Some(s)
    }
}

/// Lower-casing a string character by character.
pub proof fn lemma_lowered_push(s: Seq<char>, c: char)
    ensures
        lowered(s.push(c)) == lowered(s) + lower_chars(c),
{
    assert(s.push(c).drop_last() =~= s);
}

/// A lowercase ASCII slug of `value`: letters and digits kept, other runs become single dashes,
/// none at either end; `None` where nothing is kept.
pub fn slugify(value: &str) -> (r: Option<String>)
    ensures
        match slug_of(value@) {
            Some(s) => r matches Some(t) && t@ == s,
            None => r is None,
        },
{
    let v = chars_of(value);
    let mut slug = String::new();
    let mut dash = false;
    let ghost mut seen: Seq<char> = Seq::empty();
    let mut i: usize = 0;
    while i < v.len()
        invariant
            v@ == value@,
            0 <= i <= v@.len(),
            seen == lowered(v@.take(i as int)),
            (slug@, dash) == slug_scan(seen),
        decreases v@.len() - i,
    {
        assert(v@.take(i + 1) =~= v@.take(i as int).push(v@[i as int]));
        proof {
            lemma_lowered_push(v@.take(i as int), v@[i as int]);
        }
        let lower = lowercase_chars(v[i]);
        let mut k: usize = 0;
        while k < lower.len()
            invariant
                0 <= k <= lower@.len(),
                (slug@, dash) == slug_scan(seen + lower@.take(k as int)),
            decreases lower@.len() - k,
        {
            let c = lower[k];
            assert((seen + lower@.take(k + 1)).drop_last() =~= seen + lower@.take(k as int));
            assert((seen + lower@.take(k + 1)).last() == c);
            if ascii_alnum(c) {
                push_char(&mut slug, c);
                dash = false;
            } else if !dash && slug.as_str().unicode_len() > 0 {
                push_char(&mut slug, '-');
                dash = true;
            }
            k = k + 1;
        }
        proof {
            assert(lower@.take(lower@.len() as int) =~= lower@);
            seen = seen + lower@;
        }
        i = i + 1;
    }
    assert(v@.take(v@.len() as int) =~= v@);
    let sv = chars_of(slug.as_str());
    let mut n: usize = sv.len();
    assert(sv@.take(sv@.len() as int) =~= sv@);
    while n > 0 && sv[n - 1] == '-'
        invariant
            0 <= n <= sv@.len(),
            trim_dashes(sv@) == trim_dashes(sv@.take(n as int)),
        decreases n,
    {
        assert(sv@.take(n as int).drop_last() =~= sv@.take(n - 1));
        n = n - 1;
    }
    if n == 0 {
        return None;
    }
    Some(crate::text::chars_between(&sv, 0, n))
}

/// The file name of a document: the slug of its trimmed title, else of its source, else
/// `notes`, with `.md` added.
pub open spec fn filename_of(doc: SourceNotesDocument) -> Seq<char> {
    (match slug_of(trim_ws(doc.title@)) {
        Some(s) => s,
        None => match slug_of(doc.source@) {
            Some(s) => s,
            None => "notes"@,
        },
    }) + ".md"@
}

impl SourceNotesDocument {
    /// The Markdown file name of the document: from its title, else from its source.
    pub fn filename(&self) -> (r: String)
        ensures
            r@ == filename_of(*self),
    {
        let title = trim(self.title.as_str());
        let mut name = match slugify(title.as_str()) {
            Some(s) => s,
            None => match slugify(self.source.as_str()) {
                Some(s) => s,
                None => String::from_str("notes"),
            },
        };
        name.append(".md");
        name
    }
}

// ----------------------------------------------------------------------------------------------
// Grouping by source
// ----------------------------------------------------------------------------------------------

/// The notes on `source`, in their order.
pub open spec fn notes_on(notes: Seq<RepoRecord<Note>>, source: Seq<char>) -> Seq<RepoRecord<Note>> {
    notes.filter(|n: RepoRecord<Note>| n.value.target.source@ == source)
}

/// Strictly ascending by source.
pub open spec fn sources_ascending(docs: Seq<SourceNotesDocument>) -> bool {
    forall|i: int, j: int| 0 <= i < j < docs.len() ==> seq_less(#[trigger] docs[i].source@, #[trigger] docs[j].source@)
}

pub open spec fn group_keys_ascending(groups: Seq<(String, Vec<RepoRecord<Note>>)>) -> bool {
    forall|i: int, j: int| 0 <= i < j < groups.len() ==> seq_less(#[trigger] groups[i].0@, #[trigger] groups[j].0@)
}

/// `groups` holds, for each source among `notes`, exactly once, the notes on it in order.
pub open spec fn groups_of(groups: Seq<(String, Vec<RepoRecord<Note>>)>, notes: Seq<RepoRecord<Note>>) -> bool {
    &&& forall|j: int| 0 <= j < groups.len() ==> (#[trigger] groups[j]).1@ == notes_on(notes, groups[j].0@) && groups[j].1@.len() > 0
    &&& forall|i: int| 0 <= i < notes.len() ==> exists|j: int| 0 <= j < groups.len() && (#[trigger] groups[j]).0@ == (#[trigger] notes[i]).value.target.source@
}

fn group_slot(groups: &Vec<(String, Vec<RepoRecord<Note>>)>, key: &str) -> (r: (usize, bool))
    requires
        group_keys_ascending(groups@),
    ensures
        r.0 <= groups@.len(),
        forall|j: int| 0 <= j < r.0 ==> seq_less(#[trigger] groups@[j].0@, key@),
        r.1 ==> r.0 < groups@.len() && groups@[r.0 as int].0@ == key@,
        !r.1 ==> forall|j: int| r.0 <= j < groups@.len() ==> seq_less(key@, #[trigger] groups@[j].0@),
{
    let mut j: usize = 0;
    while j < groups.len()
        invariant
            group_keys_ascending(groups@),
            0 <= j <= groups@.len(),
            forall|i: int| 0 <= i < j ==> seq_less(#[trigger] groups@[i].0@, key@),
        decreases groups@.len() - j,
    {
        match compare_str(groups[j].0.as_str(), key) {
            Order::Less => {},
            Order::Equal => {
                return (j, true);
            },
            Order::Greater => {
                proof {
                    lemma_seq_less_trichotomy(groups@[j as int].0@, key@);
                    assert forall|i: int| j <= i < groups@.len() implies seq_less(key@, #[trigger] groups@[i].0@) by {
                        if i > j {
                            lemma_seq_less_transitive(key@, groups@[j as int].0@, groups@[i].0@);
                        }
                    }
                }
                return (j, false);
            },
        }
        j = j + 1;
    }
    (j, false)
}

proof fn lemma_notes_on_push(notes: Seq<RepoRecord<Note>>, n: RepoRecord<Note>, source: Seq<char>)
    ensures
        notes_on(notes.push(n), source) == (if n.value.target.source@ == source {
            notes_on(notes, source).push(n)
        } else {
            notes_on(notes, source)
        }),
{
    reveal(Seq::filter);
    assert(notes.push(n).drop_last() =~= notes);
}

proof fn lemma_less_ne(a: Seq<char>, b: Seq<char>)
    requires
        seq_less(a, b),
    ensures
        a != b,
{
    lemma_seq_less_irreflexive(a);
}

/// Whether some document in `docs` is about `source`.
pub open spec fn has_document(docs: Seq<SourceNotesDocument>, source: Seq<char>) -> bool {
    exists|j: int| 0 <= j < docs.len() && (#[trigger] docs[j]).source@ == source
}

proof fn lemma_documents_cover(
    notes: Seq<RepoRecord<Note>>,
    gs: Seq<(String, Vec<RepoRecord<Note>>)>,
    docs: Seq<SourceNotesDocument>,
)
    requires
        groups_of(gs, notes),
        docs.len() == gs.len(),
        forall|j: int| 0 <= j < docs.len() ==> (#[trigger] docs[j]).source@ == gs[j].0@,
    ensures
        forall|i: int| 0 <= i < notes.len() ==> has_document(docs, (#[trigger] notes[i]).value.target.source@),
{
    assert forall|i: int| 0 <= i < notes.len() implies has_document(docs, (#[trigger] notes[i]).value.target.source@) by {
        let j = choose|j: int| 0 <= j < gs.len() && (#[trigger] gs[j]).0@ == (#[trigger] notes[i]).value.target.source@;
        assert(docs[j].source@ == gs[j].0@);
    }
}

/// The notes grouped by source: one document per source, in ascending source order, each made
/// by `from_notes` from the notes on that source in their order.
pub fn group_notes_by_source(notes: Vec<RepoRecord<Note>>) -> (r: Vec<SourceNotesDocument>)
    ensures
        sources_ascending(r@),
        forall|j: int|
            0 <= j < r@.len() ==> document_of(#[trigger] r@[j], r@[j].source@, notes_on(notes@, r@[j].source@))
                && notes_on(notes@, r@[j].source@).len() > 0,
        forall|i: int| 0 <= i < notes@.len() ==> has_document(r@, (#[trigger] notes@[i]).value.target.source@),
{
    let ghost all = notes@;
    let mut groups: Vec<(String, Vec<RepoRecord<Note>>)> = Vec::new();
    for note in it: notes
        invariant
            all == notes@,
            it.seq() == all,
            group_keys_ascending(groups@),
            groups_of(groups@, all.take(it.index() as int)),
    {
        let ghost i = it.index() as int;
        let ghost before = all.take(i);
        assert(all.take(i + 1) =~= before.push(note));
        let ghost g0 = groups@;
        let key = copy_str(note.value.target.source.as_str());
        let (slot, found) = group_slot(&groups, key.as_str());
        proof {
            assert forall|k: Seq<char>| #[trigger] notes_on(all.take(i + 1), k) == (if note.value.target.source@ == k {
                notes_on(before, k).push(note)
            } else {
                notes_on(before, k)
            }) by {
                lemma_notes_on_push(before, note, k);
            }
        }
        if found {
            let mut g = groups.remove(slot);
            g.1.push(note);
            groups.insert(slot, g);
            proof {
                assert(groups@ =~= g0.update(slot as int, groups@[slot as int]));
                assert forall|j: int| 0 <= j < groups@.len() implies (#[trigger] groups@[j]).1@ == notes_on(all.take(i + 1), groups@[j].0@) && groups@[j].1@.len() > 0 by {
                    if j != slot {
                        if j < slot {
                            lemma_less_ne(g0[j].0@, key@);
                        } else {
                            lemma_less_ne(key@, g0[j].0@);
                        }
                        assert(groups@[j] == g0[j]);
                    }
                }
                assert forall|a: int| 0 <= a < all.take(i + 1).len() implies exists|j: int| 0 <= j < groups@.len() && (#[trigger] groups@[j]).0@ == (#[trigger] all.take(i + 1)[a]).value.target.source@ by {
                    if a < i {
                        assert(all.take(i + 1)[a] == before[a]);
                        let j = choose|j: int| 0 <= j < g0.len() && (#[trigger] g0[j]).0@ == (#[trigger] before[a]).value.target.source@;
                        assert(groups@[j].0@ == g0[j].0@);
                    } else {
                        assert(groups@[slot as int].0@ == key@);
                    }
                }
                assert forall|a: int, b: int| 0 <= a < b < groups@.len() implies seq_less(#[trigger] groups@[a].0@, #[trigger] groups@[b].0@) by {
                    assert(groups@[a].0@ == g0[a].0@ && groups@[b].0@ == g0[b].0@);
                }
            }
        } else {
            let mut v: Vec<RepoRecord<Note>> = Vec::new();
            v.push(note);
            groups.insert(slot, (key, v));
            proof {
                assert(!exists|j: int| 0 <= j < g0.len() && g0[j].0@ == key@) by {
                    if exists|j: int| 0 <= j < g0.len() && g0[j].0@ == key@ {
                        let j = choose|j: int| 0 <= j < g0.len() && g0[j].0@ == key@;
                        lemma_seq_less_irreflexive(key@);
                    }
                }
                assert(notes_on(before, key@).len() == 0) by {
                    if notes_on(before, key@).len() > 0 {
                        let m = notes_on(before, key@)[0];
                        before.lemma_filter_pred(|n: RepoRecord<Note>| n.value.target.source@ == key@, 0);
                        assert(notes_on(before, key@).contains(m));
                        before.lemma_filter_contains_rev(|n: RepoRecord<Note>| n.value.target.source@ == key@, m);
                        let a = choose|a: int| 0 <= a < before.len() && before[a] == m;
                        let j = choose|j: int| 0 <= j < g0.len() && (#[trigger] g0[j]).0@ == (#[trigger] before[a]).value.target.source@;
                    }
                }
                assert(groups@ =~= g0.insert(slot as int, groups@[slot as int]));
                assert forall|j: int| 0 <= j < groups@.len() implies (#[trigger] groups@[j]).1@ == notes_on(all.take(i + 1), groups@[j].0@) && groups@[j].1@.len() > 0 by {
                    if j < slot {
                        lemma_less_ne(g0[j].0@, key@);
                        assert(groups@[j] == g0[j]);
                    } else if j > slot {
                        lemma_less_ne(key@, g0[j - 1].0@);
                        assert(groups@[j] == g0[j - 1]);
                    } else {
                        assert(notes_on(before, key@) =~= Seq::<RepoRecord<Note>>::empty());
                        assert(groups@[j].1@ =~= seq![note]);
                    }
                }
                assert forall|a: int| 0 <= a < all.take(i + 1).len() implies exists|j: int| 0 <= j < groups@.len() && (#[trigger] groups@[j]).0@ == (#[trigger] all.take(i + 1)[a]).value.target.source@ by {
                    if a < i {
                        assert(all.take(i + 1)[a] == before[a]);
                        let j = choose|j: int| 0 <= j < g0.len() && (#[trigger] g0[j]).0@ == (#[trigger] before[a]).value.target.source@;
                        if j < slot {
                            assert(groups@[j].0@ == g0[j].0@);
                        } else {
                            assert(groups@[j + 1].0@ == g0[j].0@);
                        }
                    } else {
                        assert(groups@[slot as int].0@ == key@);
                    }
                }
                assert forall|a: int, b: int| 0 <= a < b < groups@.len() implies seq_less(#[trigger] groups@[a].0@, #[trigger] groups@[b].0@) by {
                    if a < slot && b > slot {
                        lemma_seq_less_transitive(g0[a].0@, key@, g0[b - 1].0@);
                    }
                }
            }
        }
    }
    assert(all.take(all.len() as int) =~= all);
    let ghost gs = groups@;
    let mut docs: Vec<SourceNotesDocument> = Vec::new();
    for group in it: groups
        invariant
            gs == groups@,
            it.seq() == gs,
            group_keys_ascending(gs),
            groups_of(gs, all),
            docs@.len() == it.index(),
            forall|j: int| 0 <= j < docs@.len() ==> (#[trigger] docs@[j]).source@ == gs[j].0@ && document_of(docs@[j], gs[j].0@, gs[j].1@),
    {
        let ghost j = it.index() as int;
        assert(gs[j] == group);
        let (source, members) = group;
        let doc = SourceNotesDocument::from_notes(source.as_str(), members);
        docs.push(doc);
    }
    proof {
        assert forall|j: int| 0 <= j < docs@.len() implies document_of(#[trigger] docs@[j], docs@[j].source@, notes_on(all, docs@[j].source@))
            && notes_on(all, docs@[j].source@).len() > 0 by {
            assert(gs[j].1@ == notes_on(all, gs[j].0@));
        }
        assert forall|a: int, b: int| 0 <= a < b < docs@.len() implies seq_less(#[trigger] docs@[a].source@, #[trigger] docs@[b].source@) by {
            assert(seq_less(gs[a].0@, gs[b].0@));
        }
        assert forall|i: int| 0 <= i < all.len() implies exists|j: int| 0 <= j < docs@.len() && (#[trigger] docs@[j]).source@ == (#[trigger] all[i]).value.target.source@ by {
            let j = choose|j: int| 0 <= j < gs.len() && (#[trigger] gs[j]).0@ == (#[trigger] all[i]).value.target.source@;
            assert(docs@[j].source@ == gs[j].0@);
        }
        lemma_documents_cover(all, gs, docs@);
    }
    docs
}

/// The document of `source` among `docs`, where there is one.
pub fn find_document(docs: Vec<SourceNotesDocument>, source: &str) -> (r: Option<SourceNotesDocument>)
    ensures
        match r {
            Some(d) => exists|i: int| 0 <= i < docs@.len() && docs@[i] == d && d.source@ == source@ && forall|j: int| 0 <= j < i ==> (#[trigger] docs@[j]).source@ != source@,
            None => forall|j: int| 0 <= j < docs@.len() ==> (#[trigger] docs@[j]).source@ != source@,
        },
{
    let ghost all = docs@;
    for doc in it: docs
        invariant
            all == docs@,
            it.seq() == all,
            forall|j: int| 0 <= j < it.index() ==> (#[trigger] all[j]).source@ != source@,
    {
        let ghost i = it.index() as int;
        assert(all[i] == doc);
        if str_eq(doc.source.as_str(), source) {
            return Some(doc);
        }
    }
    None
}

/// The shape of a slug under construction: letters, digits and dashes, starting with a letter or
/// digit, never two dashes in a row, and `dash` telling whether it ends in one.
pub open spec fn slug_shaped(slug: Seq<char>, dash: bool) -> bool {
    &&& forall|i: int| 0 <= i < slug.len() ==> is_ascii_alnum(#[trigger] slug[i]) || slug[i] == '-'
    &&& slug.len() > 0 ==> is_ascii_alnum(slug[0])
    &&& forall|i: int| 0 <= i < slug.len() - 1 ==> !(#[trigger] slug[i] == '-' && slug[i + 1] == '-')
    &&& dash == (slug.len() > 0 && slug.last() == '-')
}

proof fn lemma_slug_scan_shaped(chars: Seq<char>)
    ensures
        slug_shaped(slug_scan(chars).0, slug_scan(chars).1),
    decreases chars.len(),
{
    if chars.len() > 0 {
        lemma_slug_scan_shaped(chars.drop_last());
        let (slug, dash) = slug_scan(chars.drop_last());
        let (slug2, dash2) = slug_scan(chars);
        if is_ascii_alnum(chars.last()) {
            assert(slug2 == slug.push(chars.last()));
            assert forall|i: int| 0 <= i < slug2.len() - 1 implies !(#[trigger] slug2[i] == '-' && slug2[i + 1] == '-') by {
                if i + 1 < slug.len() {
                    assert(slug2[i] == slug[i] && slug2[i + 1] == slug[i + 1]);
                }
            }
        } else if !dash && slug.len() > 0 {
            assert(slug2 == slug.push('-'));
            assert forall|i: int| 0 <= i < slug2.len() - 1 implies !(#[trigger] slug2[i] == '-' && slug2[i + 1] == '-') by {
                if i + 1 < slug.len() {
                    assert(slug2[i] == slug[i] && slug2[i + 1] == slug[i + 1]);
                } else {
                    assert(slug2[i] == slug.last());
                }
            }
        }
    }
}

proof fn lemma_trim_dashes_shape(s: Seq<char>)
    requires
        forall|i: int| 0 <= i < s.len() ==> is_ascii_alnum(#[trigger] s[i]) || s[i] == '-',
        s.len() > 0 ==> is_ascii_alnum(s[0]),
        forall|i: int| 0 <= i < s.len() - 1 ==> !(#[trigger] s[i] == '-' && s[i + 1] == '-'),
    ensures
        trim_dashes(s).len() <= s.len(),
        trim_dashes(s) == s.take(trim_dashes(s).len() as int),
        trim_dashes(s).len() > 0 ==> trim_dashes(s).last() != '-',
    decreases s.len(),
{
    if s.len() > 0 && s.last() == '-' {
        let t = s.drop_last();
        assert forall|i: int| 0 <= i < t.len() - 1 implies !(#[trigger] t[i] == '-' && t[i + 1] == '-') by {
            assert(t[i] == s[i] && t[i + 1] == s[i + 1]);
        }
        lemma_trim_dashes_shape(t);
        assert(s.take(trim_dashes(t).len() as int) =~= t.take(trim_dashes(t).len() as int));
    } else {
        assert(s.take(s.len() as int) =~= s);
    }
}

/// A slug holds only ASCII letters, digits and single dashes, and starts and ends with a letter
/// or digit.
pub proof fn lemma_slug_shape(value: Seq<char>)
    ensures
        slug_of(value) matches Some(s) ==> {
            &&& s.len() > 0
            &&& forall|i: int| 0 <= i < s.len() ==> is_ascii_alnum(#[trigger] s[i]) || s[i] == '-'
            &&& is_ascii_alnum(s[0])
            &&& s.last() != '-'
            &&& forall|i: int| 0 <= i < s.len() - 1 ==> !(#[trigger] s[i] == '-' && s[i + 1] == '-')
        },
{
    let (slug, dash) = slug_scan(lowered(value));
    lemma_slug_scan_shaped(lowered(value));
    lemma_trim_dashes_shape(slug);
    let t = trim_dashes(slug);
    if t.len() > 0 {
        assert forall|i: int| 0 <= i < t.len() implies is_ascii_alnum(#[trigger] t[i]) || t[i] == '-' by {
            assert(t[i] == slug[i]);
        }
        assert(t[0] == slug[0]);
        assert forall|i: int| 0 <= i < t.len() - 1 implies !(#[trigger] t[i] == '-' && t[i + 1] == '-') by {
            assert(t[i] == slug[i] && t[i + 1] == slug[i + 1]);
        }
    }
}

} // verus!
