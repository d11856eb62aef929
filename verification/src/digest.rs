//! The link digest: links shared by followed accounts, tallied per URL, filtered, ranked and
//! written out as Markdown.
use vstd::prelude::*;
use vstd::string::*;
use vstd::relations::*;
use vstd::seq_lib::*;
use crate::follows::{consistent, flip, lemma_order_of_facts, lemma_then_facts, then_order};
use crate::link_digest::ExternalLinkPost;
use crate::text::{Order, at_byte, byte_len, char_utf8_width, chars_between, chars_of, collapse_whitespace, collapse_ws, lemma_at_byte_unique, lemma_byte_len_increasing, compare_str, copy_str, order_of, lemma_seq_less_irreflexive, lemma_seq_less_transitive,
    lemma_seq_less_trichotomy, lemma_sorted_same_multiset, seq_less, str_eq};

verus! {

/// One shared URL with its tallies.
#[derive(Debug, Clone)]
pub struct DigestLink {
    pub uri: String,
    pub title: String,
    pub description: String,
    pub bookmark_count: i64,
    pub repost_count: i64,
    pub like_count: i64,
    /// Every share of the URL, in the order they were seen.
    pub shares: Vec<ExternalLinkPost>,
}

/// What is known of one URL after some shares: its title and description, the summed counts
/// of the distinct posts that shared it, and the shares themselves.
pub struct LinkTally {
    pub title: Seq<char>,
    pub description: Seq<char>,
    pub bookmarks: int,
    pub reposts: int,
    pub likes: int,
    pub shares: Seq<ExternalLinkPost>,
}

pub open spec fn entry_tally(d: DigestLink) -> LinkTally {
    LinkTally {
        title: d.title@,
        description: d.description@,
        bookmarks: d.bookmark_count as int,
        reposts: d.repost_count as int,
        likes: d.like_count as int,
        shares: d.shares@,
    }
}

/// The tally a URL starts with when `link` first shares it.
pub open spec fn new_tally(link: ExternalLinkPost) -> LinkTally {
    LinkTally {
        title: link.title@,
        description: link.description@,
        bookmarks: 0,
        reposts: 0,
        likes: 0,
        shares: Seq::empty(),
    }
}

/// Whether some share in `shares` comes from the post `post_uri`.
pub open spec fn has_post(shares: Seq<ExternalLinkPost>, post_uri: Seq<char>) -> bool {
    exists|i: int| 0 <= i < shares.len() && (#[trigger] shares[i]).post_uri@ == post_uri
}

/// Whether `shares` already holds the share of `post_uri` by `author_did`.
pub open spec fn has_share(shares: Seq<ExternalLinkPost>, post_uri: Seq<char>, author_did: Seq<char>) -> bool {
    exists|i: int|
        0 <= i < shares.len() && (#[trigger] shares[i]).post_uri@ == post_uri && shares[i].author_did@
            == author_did
}

/// `t` after `link` shares its URL: a share already recorded (same post, same author) changes
/// nothing; otherwise an empty title or description is filled from the link, the link's counts
/// are added unless its post was counted before, and the share is appended.
pub open spec fn tally_add(t: LinkTally, link: ExternalLinkPost) -> LinkTally {
    if has_share(t.shares, link.post_uri@, link.author_did@) {
        t
    } else {
        let counted = has_post(t.shares, link.post_uri@);
        LinkTally {
            title: if t.title.len() == 0 && link.title@.len() > 0 {
                link.title@
            } else {
                t.title
            },
            description: if t.description.len() == 0 && link.description@.len() > 0 {
                link.description@
            } else {
                t.description
            },
            bookmarks: if counted {
                t.bookmarks
            } else {
                t.bookmarks + link.bookmark_count
            },
            reposts: if counted {
                t.reposts
            } else {
                t.reposts + link.repost_count
            },
            likes: if counted {
                t.likes
            } else {
                t.likes + link.like_count
            },
            shares: t.shares.push(link),
        }
    }
}

/// The tallies of every URL shared in `links`, taken in order.
pub open spec fn tallies(links: Seq<ExternalLinkPost>) -> Map<Seq<char>, LinkTally>
    decreases links.len(),
{
    if links.len() == 0 {
        Map::empty()
    } else {
        let before = tallies(links.drop_last());
        let link = links.last();
        let key = link.external_uri@;
        let t = if before.contains_key(key) {
            before[key]
        } else {
            new_tally(link)
        };
        before.insert(key, tally_add(t, link))
    }
}

pub open spec fn fits_i64(n: int) -> bool {
    i64::MIN <= n <= i64::MAX
}

pub open spec fn tally_fits(t: LinkTally) -> bool {
    fits_i64(t.bookmarks) && fits_i64(t.reposts) && fits_i64(t.likes)
}

/// Whether every running count stays within `i64` while `links` are tallied.
pub open spec fn tallies_fit(links: Seq<ExternalLinkPost>) -> bool {
    forall|i: int, k: Seq<char>|
        0 <= i <= links.len() && #[trigger] tallies(links.take(i)).contains_key(k) ==> tally_fits(
            tallies(links.take(i))[k],
        )
}

/// Strictly ascending by URL.
pub open spec fn sorted_by_uri(entries: Seq<DigestLink>) -> bool {
    forall|i: int, j: int| 0 <= i < j < entries.len() ==> seq_less(#[trigger] entries[i].uri@, #[trigger] entries[j].uri@)
}

/// `entries` holds exactly the tallies `m`, one entry per URL.
pub open spec fn holds_tallies(entries: Seq<DigestLink>, m: Map<Seq<char>, LinkTally>) -> bool {
    &&& forall|j: int|
        0 <= j < entries.len() ==> m.contains_key(#[trigger] entries[j].uri@) && m[entries[j].uri@]
            == entry_tally(entries[j])
    &&& forall|k: Seq<char>| #[trigger] m.contains_key(k) ==> exists|j: int| 0 <= j < entries.len() && (#[trigger] entries[j]).uri@ == k
}

/// Where `key` is or would go in entries sorted by URL: the first entry not below it, and
/// whether that entry has it.
fn find_slot(entries: &Vec<DigestLink>, key: &str) -> (r: (usize, bool))
    requires
        sorted_by_uri(entries@),
    ensures
        r.0 <= entries@.len(),
        forall|j: int| 0 <= j < r.0 ==> seq_less(#[trigger] entries@[j].uri@, key@),
        r.1 ==> r.0 < entries@.len() && entries@[r.0 as int].uri@ == key@,
        !r.1 ==> forall|j: int| r.0 <= j < entries@.len() ==> seq_less(key@, #[trigger] entries@[j].uri@),
{
    let mut j: usize = 0;
    while j < entries.len()
        invariant
            sorted_by_uri(entries@),
            0 <= j <= entries@.len(),
            forall|i: int| 0 <= i < j ==> seq_less(#[trigger] entries@[i].uri@, key@),
        decreases entries@.len() - j,
    {
        match compare_str(entries[j].uri.as_str(), key) {
            Order::Less => {},
            Order::Equal => {
                return (j, true);
            },
            Order::Greater => {
                proof {
                    lemma_seq_less_trichotomy(entries@[j as int].uri@, key@);
                    assert forall|i: int| j <= i < entries@.len() implies seq_less(key@, #[trigger] entries@[i].uri@) by {
                        if i > j {
                            lemma_seq_less_transitive(key@, entries@[j as int].uri@, entries@[i].uri@);
                        }
                    }
                }
                return (j, false);
            },
        }
        j = j + 1;
    }
    (j, false)
}

fn shares_has_post(shares: &Vec<ExternalLinkPost>, post_uri: &str) -> (r: bool)
    ensures
        r == has_post(shares@, post_uri@),
{
    let mut i: usize = 0;
    while i < shares.len()
        invariant
            0 <= i <= shares@.len(),
            forall|j: int| 0 <= j < i ==> (#[trigger] shares@[j]).post_uri@ != post_uri@,
        decreases shares@.len() - i,
    {
        if str_eq(shares[i].post_uri.as_str(), post_uri) {
            return true;
        }
        i = i + 1;
    }
    false
}

fn shares_has_share(shares: &Vec<ExternalLinkPost>, post_uri: &str, author_did: &str) -> (r: bool)
    ensures
        r == has_share(shares@, post_uri@, author_did@),
{
    let mut i: usize = 0;
    while i < shares.len()
        invariant
            0 <= i <= shares@.len(),
            forall|j: int|
                0 <= j < i ==> !((#[trigger] shares@[j]).post_uri@ == post_uri@ && shares@[j].author_did@
                    == author_did@),
        decreases shares@.len() - i,
    {
        if str_eq(shares[i].post_uri.as_str(), post_uri) && str_eq(shares[i].author_did.as_str(), author_did) {
            return true;
        }
        i = i + 1;
    }
    false
}

/// Records one more share of the entry's URL (`tally_add`).
fn add_share(entry: &mut DigestLink, link: ExternalLinkPost)
    requires
        tally_fits(tally_add(entry_tally(*old(entry)), link)),
    ensures
        final(entry).uri == old(entry).uri,
        entry_tally(*final(entry)) == tally_add(entry_tally(*old(entry)), link),
{
    if shares_has_share(&entry.shares, link.post_uri.as_str(), link.author_did.as_str()) {
        return;
    }
    let counted = shares_has_post(&entry.shares, link.post_uri.as_str());
    if entry.title.as_str().unicode_len() == 0 && link.title.as_str().unicode_len() > 0 {
        entry.title = copy_str(link.title.as_str());
    }
    if entry.description.as_str().unicode_len() == 0 && link.description.as_str().unicode_len() > 0 {
        entry.description = copy_str(link.description.as_str());
    }
    if !counted {
        entry.bookmark_count = entry.bookmark_count + link.bookmark_count;
        entry.repost_count = entry.repost_count + link.repost_count;
        entry.like_count = entry.like_count + link.like_count;
    }
    entry.shares.push(link);
}

proof fn lemma_less_ne(a: Seq<char>, b: Seq<char>)
    requires
        seq_less(a, b),
    ensures
        a != b,
{
    lemma_seq_less_irreflexive(a);
}

/// Replacing the entry of `key` keeps `holds_tallies` for the updated tally.
proof fn lemma_update_holds(
    old_e: Seq<DigestLink>,
    slot: int,
    d: DigestLink,
    m: Map<Seq<char>, LinkTally>,
)
    requires
        sorted_by_uri(old_e),
        holds_tallies(old_e, m),
        0 <= slot < old_e.len(),
        old_e[slot].uri@ == d.uri@,
    ensures
        holds_tallies(old_e.update(slot, d), m.insert(d.uri@, entry_tally(d))),
{
    let new_e = old_e.update(slot, d);
    let m2 = m.insert(d.uri@, entry_tally(d));
    assert forall|j: int| 0 <= j < new_e.len() implies m2.contains_key(#[trigger] new_e[j].uri@) && m2[new_e[j].uri@]
        == entry_tally(new_e[j]) by {
        if j != slot {
            if j < slot {
                lemma_less_ne(old_e[j].uri@, old_e[slot].uri@);
            } else {
                lemma_less_ne(old_e[slot].uri@, old_e[j].uri@);
            }
        }
    }
    assert forall|k: Seq<char>| #[trigger] m2.contains_key(k) implies exists|j: int| 0 <= j < new_e.len() && (#[trigger] new_e[j]).uri@ == k by {
        if k == d.uri@ {
            assert(new_e[slot].uri@ == k);
        } else {
            let j = choose|j: int| 0 <= j < old_e.len() && (#[trigger] old_e[j]).uri@ == k;
            assert(j != slot);
            assert(new_e[j].uri@ == k);
        }
    }
}

/// Inserting a new entry at its place in URL order keeps `holds_tallies` and the order.
proof fn lemma_insert_holds(
    old_e: Seq<DigestLink>,
    slot: int,
    d: DigestLink,
    m: Map<Seq<char>, LinkTally>,
)
    requires
        sorted_by_uri(old_e),
        holds_tallies(old_e, m),
        0 <= slot <= old_e.len(),
        forall|j: int| 0 <= j < slot ==> seq_less(#[trigger] old_e[j].uri@, d.uri@),
        forall|j: int| slot <= j < old_e.len() ==> seq_less(d.uri@, #[trigger] old_e[j].uri@),
    ensures
        sorted_by_uri(old_e.insert(slot, d)),
        holds_tallies(old_e.insert(slot, d), m.insert(d.uri@, entry_tally(d))),
{
    let new_e = old_e.insert(slot, d);
    let m2 = m.insert(d.uri@, entry_tally(d));
    assert forall|a: int, b: int| 0 <= a < b < new_e.len() implies seq_less(
        #[trigger] new_e[a].uri@,
        #[trigger] new_e[b].uri@,
    ) by {
        if a < slot && b < slot {
        } else if a < slot && b == slot {
        } else if a < slot {
            lemma_seq_less_transitive(old_e[a].uri@, d.uri@, old_e[b - 1].uri@);
        } else if a == slot {
        } else {
        }
    }
    assert forall|j: int| 0 <= j < new_e.len() implies m2.contains_key(#[trigger] new_e[j].uri@) && m2[new_e[j].uri@]
        == entry_tally(new_e[j]) by {
        if j < slot {
            lemma_less_ne(old_e[j].uri@, d.uri@);
        } else if j > slot {
            lemma_less_ne(d.uri@, old_e[j - 1].uri@);
        }
    }
    assert forall|k: Seq<char>| #[trigger] m2.contains_key(k) implies exists|j: int| 0 <= j < new_e.len() && (#[trigger] new_e[j]).uri@ == k by {
        if k == d.uri@ {
            assert(new_e[slot].uri@ == k);
        } else {
            let j = choose|j: int| 0 <= j < old_e.len() && (#[trigger] old_e[j]).uri@ == k;
            if j < slot {
                assert(new_e[j].uri@ == k);
            } else {
                assert(new_e[j + 1].uri@ == k);
            }
        }
    }
}

/// Whether every running count stays within `i64` while the first `n` of `links` are tallied.
pub open spec fn tallies_fit_upto(links: Seq<ExternalLinkPost>, n: int) -> bool {
    forall|i: int, k: Seq<char>|
        0 <= i <= n && #[trigger] tallies(links.take(i)).contains_key(k) ==> tally_fits(tallies(links.take(i))[k])
}

/// `add_share` with the counts added under a check: `true`, and the share added, exactly when
/// the new counts fit in `i64`.
fn add_share_checked(entry: &mut DigestLink, link: ExternalLinkPost) -> (ok: bool)
    ensures
        final(entry).uri == old(entry).uri,
        ok == tally_fits(tally_add(entry_tally(*old(entry)), link)),
        ok ==> entry_tally(*final(entry)) == tally_add(entry_tally(*old(entry)), link),
{
    if shares_has_share(&entry.shares, link.post_uri.as_str(), link.author_did.as_str()) {
        return true;
    }
    let counted = shares_has_post(&entry.shares, link.post_uri.as_str());
    if !counted {
        let bookmarks = entry.bookmark_count.checked_add(link.bookmark_count);
        let reposts = entry.repost_count.checked_add(link.repost_count);
        let likes = entry.like_count.checked_add(link.like_count);
        if bookmarks.is_none() || reposts.is_none() || likes.is_none() {
            return false;
        }
    }
    add_share(entry, link);
    true
}

/// The tallies of `links` per URL as `aggregate_digest_links` makes them, where every running
/// count fits in `i64`; `None` exactly where one does not.
pub fn checked_aggregate_digest_links(links: Vec<ExternalLinkPost>) -> (r: Option<Vec<DigestLink>>)
    ensures
        r is Some <==> tallies_fit(links@),
        r matches Some(v) ==> sorted_by_uri(v@) && holds_tallies(v@, tallies(links@)),
{
    let ghost all = links@;
    let mut entries: Vec<DigestLink> = Vec::new();
    proof {
        assert(all.take(0) =~= Seq::<ExternalLinkPost>::empty());
    }
    for link in it: links
        invariant
            all == links@,
            it.seq() == all,
            tallies_fit_upto(all, it.index() as int),
            sorted_by_uri(entries@),
            holds_tallies(entries@, tallies(all.take(it.index() as int))),
    {
        let ghost i = it.index() as int;
        let ghost before = tallies(all.take(i));
        assert(all.take(i + 1).drop_last() =~= all.take(i));
        assert(all.take(i + 1).last() == link);
        let ghost after = tallies(all.take(i + 1));
        let key = copy_str(link.external_uri.as_str());
        let (slot, found) = find_slot(&entries, key.as_str());
        let ghost entries0 = entries@;
        if found {
            let mut entry = entries.remove(slot);
            assert(before.contains_key(key@));
            assert(after[key@] == tally_add(before[key@], link));
            assert(after.contains_key(key@));
            let ok = add_share_checked(&mut entry, link);
            if !ok {
                assert(!tallies_fit(all)) by {
                    assert(all.take(i + 1).len() == i + 1);
                    assert(tallies(all.take(i + 1)).contains_key(key@));
                }
                return None;
            }
            entries.insert(slot, entry);
            proof {
                assert(entries@ =~= entries0.update(slot as int, entry));
                lemma_update_holds(entries0, slot as int, entry, before);
                assert(after =~= before.insert(key@, entry_tally(entry)));
            }
        } else {
            let mut entry = DigestLink {
                uri: copy_str(key.as_str()),
                title: copy_str(link.title.as_str()),
                description: copy_str(link.description.as_str()),
                bookmark_count: 0,
                repost_count: 0,
                like_count: 0,
                shares: Vec::new(),
            };
            assert(!before.contains_key(key@)) by {
                if before.contains_key(key@) {
                    let j = choose|j: int| 0 <= j < entries@.len() && (#[trigger] entries@[j]).uri@ == key@;
                    lemma_seq_less_irreflexive(key@);
                }
            }
            assert(entry_tally(entry) == new_tally(link));
            assert(after[key@] == tally_add(new_tally(link), link));
            assert(after.contains_key(key@));
            let ok = add_share_checked(&mut entry, link);
            if !ok {
                assert(!tallies_fit(all)) by {
                    assert(tallies(all.take(i + 1)).contains_key(key@));
                }
                return None;
            }
            entries.insert(slot, entry);
            proof {
                lemma_insert_holds(entries0, slot as int, entry, before);
                assert(after =~= before.insert(key@, entry_tally(entry)));
            }
        }
        assert(tallies_fit_upto(all, i + 1)) by {
            assert forall|j: int, k: Seq<char>|
                0 <= j <= i + 1 && #[trigger] tallies(all.take(j)).contains_key(k) implies tally_fits(
                tallies(all.take(j))[k],
            ) by {
                if j <= i {
                } else if k != key@ {
                    assert(before.contains_key(k));
                    assert(tallies(all.take(i)).contains_key(k));
                }
            }
        }
    }
    assert(all.take(all.len() as int) =~= all);
    Some(entries)
}

/// The first non-empty card title among `shares`, in order (`""` where every title is empty).
pub open spec fn first_card_title(shares: Seq<ExternalLinkPost>) -> Seq<char>
    decreases shares.len(),
{
    if shares.len() == 0 {
        Seq::empty()
    } else if shares[0].title@.len() > 0 {
        shares[0].title@
    } else {
        first_card_title(shares.drop_first())
    }
}

/// The first non-empty card description among `shares`, in order (`""` where every one is
/// empty).
pub open spec fn first_card_description(shares: Seq<ExternalLinkPost>) -> Seq<char>
    decreases shares.len(),
{
    if shares.len() == 0 {
        Seq::empty()
    } else if shares[0].description@.len() > 0 {
        shares[0].description@
    } else {
        first_card_description(shares.drop_first())
    }
}

proof fn lemma_first_card_push(shares: Seq<ExternalLinkPost>, link: ExternalLinkPost)
    ensures
        first_card_title(shares.push(link)) == if first_card_title(shares).len() > 0 {
            first_card_title(shares)
        } else {
            link.title@
        },
        first_card_description(shares.push(link)) == if first_card_description(shares).len() > 0 {
            first_card_description(shares)
        } else {
            link.description@
        },
    decreases shares.len(),
{
    if shares.len() == 0 {
        let one = shares.push(link);
        assert(one.drop_first() =~= Seq::<ExternalLinkPost>::empty());
        assert(one[0] == link);
        assert(first_card_title(one.drop_first()) == Seq::<char>::empty());
        assert(first_card_description(one.drop_first()) == Seq::<char>::empty());
        assert(first_card_title(shares) == Seq::<char>::empty());
        assert(first_card_description(shares) == Seq::<char>::empty());
        if link.title@.len() == 0 {
            assert(link.title@ =~= Seq::<char>::empty());
        }
        if link.description@.len() == 0 {
            assert(link.description@ =~= Seq::<char>::empty());
        }
    } else {
        lemma_first_card_push(shares.drop_first(), link);
        assert(shares.push(link).drop_first() =~= shares.drop_first().push(link));
        assert(shares.push(link)[0] == shares[0]);
        assert(shares.push(link).len() > 0);
    }
}

/// A URL's title and description are those of the first of its recorded shares whose card has
/// a non-empty one (empty where none has): a later share never replaces a title or description
/// once there is one.
pub proof fn lemma_tally_titles(links: Seq<ExternalLinkPost>)
    ensures
        forall|k: Seq<char>|
            #[trigger] tallies(links).contains_key(k) ==> tallies(links)[k].title == first_card_title(
                tallies(links)[k].shares,
            ) && tallies(links)[k].description == first_card_description(tallies(links)[k].shares),
    decreases links.len(),
{
    if links.len() > 0 {
        let init = links.drop_last();
        let link = links.last();
        lemma_tally_titles(init);
        let before = tallies(init);
        let key = link.external_uri@;
        let t = if before.contains_key(key) {
            before[key]
        } else {
            new_tally(link)
        };
        if !before.contains_key(key) {
            assert(!has_share(t.shares, link.post_uri@, link.author_did@));
        }
        lemma_first_card_push(t.shares, link);
        if !before.contains_key(key) {
            assert(t.shares =~= Seq::<ExternalLinkPost>::empty());
            assert(first_card_title(t.shares) =~= Seq::<char>::empty());
            assert(first_card_description(t.shares) =~= Seq::<char>::empty());
        }
    }
}

/// A non-empty title or description is never replaced by a later share.
pub proof fn lemma_title_kept(t: LinkTally, link: ExternalLinkPost)
    ensures
        t.title.len() > 0 ==> tally_add(t, link).title == t.title,
        t.description.len() > 0 ==> tally_add(t, link).description == t.description,
{
}

pub open spec fn entry_uris(entries: Seq<DigestLink>) -> Seq<Seq<char>> {
    entries.map_values(|d: DigestLink| d.uri@)
}

/// Tallying leaves no choice: two entry lists that hold the same tallies in ascending URL order
/// agree, entry by entry, on the URL and on every tallied field.
pub proof fn lemma_tallied_entries_determined(
    m: Map<Seq<char>, LinkTally>,
    e1: Seq<DigestLink>,
    e2: Seq<DigestLink>,
)
    requires
        sorted_by_uri(e1),
        holds_tallies(e1, m),
        sorted_by_uri(e2),
        holds_tallies(e2, m),
    ensures
        e1.len() == e2.len(),
        forall|j: int| 0 <= j < e1.len() ==> (#[trigger] e1[j]).uri@ == e2[j].uri@ && entry_tally(e1[j])
            == entry_tally(e2[j]),
{
    let u1 = entry_uris(e1);
    let u2 = entry_uris(e2);
    assert(ascending(u1));
    assert(ascending(u2));
    assert forall|k: Seq<char>| u1.to_set().contains(k) implies u2.to_set().contains(k) by {
        let i = choose|i: int| 0 <= i < u1.len() && u1[i] == k;
        assert(m.contains_key(e1[i].uri@));
        let j = choose|j: int| 0 <= j < e2.len() && (#[trigger] e2[j]).uri@ == k;
        assert(u2[j] == k);
    }
    assert forall|k: Seq<char>| u2.to_set().contains(k) implies u1.to_set().contains(k) by {
        let i = choose|i: int| 0 <= i < u2.len() && u2[i] == k;
        assert(m.contains_key(e2[i].uri@));
        let j = choose|j: int| 0 <= j < e1.len() && (#[trigger] e1[j]).uri@ == k;
        assert(u1[j] == k);
    }
    assert(u1.to_set() =~= u2.to_set());
    lemma_ascending_same_set(u1, u2);
    assert forall|j: int| 0 <= j < e1.len() implies (#[trigger] e1[j]).uri@ == e2[j].uri@ && entry_tally(e1[j])
        == entry_tally(e2[j]) by {
        assert(u1[j] == u2[j]);
    }
}

/// The tallies of `links` per URL, one entry per URL in ascending URL order.
pub fn aggregate_digest_links(links: Vec<ExternalLinkPost>) -> (r: Vec<DigestLink>)
    requires
        tallies_fit(links@),
    ensures
        sorted_by_uri(r@),
        holds_tallies(r@, tallies(links@)),
        forall|j: int|
            0 <= j < r@.len() ==> (#[trigger] r@[j]).title@ == first_card_title(r@[j].shares@)
                && r@[j].description@ == first_card_description(r@[j].shares@),
{
    let ghost all = links@;
    let mut entries: Vec<DigestLink> = Vec::new();
    for link in it: links
        invariant
            all == links@,
            it.seq() == all,
            tallies_fit(all),
            sorted_by_uri(entries@),
            holds_tallies(entries@, tallies(all.take(it.index() as int))),
    {
        let ghost i = it.index() as int;
        let ghost before = tallies(all.take(i));
        assert(all.take(i + 1).drop_last() =~= all.take(i));
        assert(all.take(i + 1).last() == link);
        let ghost after = tallies(all.take(i + 1));
        let key = copy_str(link.external_uri.as_str());
        let (slot, found) = find_slot(&entries, key.as_str());
        let ghost entries0 = entries@;
        if found {
            let mut entry = entries.remove(slot);
            assert(before.contains_key(key@));
            assert(after[key@] == tally_add(before[key@], link));
            assert(after.contains_key(key@));
            assert(tally_fits(after[key@]));
            add_share(&mut entry, link);
            entries.insert(slot, entry);
            proof {
                assert(entries@ =~= entries0.update(slot as int, entry));
                lemma_update_holds(entries0, slot as int, entry, before);
                assert(after =~= before.insert(key@, entry_tally(entry)));
            }
        } else {
            let mut entry = DigestLink {
                uri: copy_str(key.as_str()),
                title: copy_str(link.title.as_str()),
                description: copy_str(link.description.as_str()),
                bookmark_count: 0,
                repost_count: 0,
                like_count: 0,
                shares: Vec::new(),
            };
            assert(!before.contains_key(key@)) by {
                if before.contains_key(key@) {
                    let j = choose|j: int| 0 <= j < entries@.len() && (#[trigger] entries@[j]).uri@ == key@;
                    lemma_seq_less_irreflexive(key@);
                }
            }
            assert(entry_tally(entry) == new_tally(link));
            assert(after[key@] == tally_add(new_tally(link), link));
            assert(after.contains_key(key@));
            assert(tally_fits(after[key@]));
            add_share(&mut entry, link);
            entries.insert(slot, entry);
            proof {
                lemma_insert_holds(entries0, slot as int, entry, before);
                assert(after =~= before.insert(key@, entry_tally(entry)));
            }
        }
    }
    assert(all.take(all.len() as int) =~= all);
    proof {
        lemma_tally_titles(all);
        assert forall|j: int| 0 <= j < entries@.len() implies (#[trigger] entries@[j]).title@ == first_card_title(
            entries@[j].shares@,
        ) && entries@[j].description@ == first_card_description(entries@[j].shares@) by {
            assert(tallies(all).contains_key(entries@[j].uri@));
        }
    }
    entries
}

/// The names of the accounts that shared a link.
pub open spec fn sharer_names(shares: Seq<ExternalLinkPost>) -> Set<Seq<char>> {
    shares.map_values(|s: ExternalLinkPost| s.author@).to_set()
}

/// How many distinct accounts shared the link.
pub open spec fn sharer_count(d: DigestLink) -> nat {
    sharer_names(d.shares@).len()
}

pub open spec fn names_view(v: Seq<String>) -> Seq<Seq<char>> {
    v.map_values(|s: String| s@)
}

/// Strictly ascending in the order of `str`.
pub open spec fn ascending(v: Seq<Seq<char>>) -> bool {
    forall|i: int, j: int| 0 <= i < j < v.len() ==> seq_less(#[trigger] v[i], #[trigger] v[j])
}

/// When a share was made: the post's `createdAt`, else when it was indexed.
pub open spec fn shared_at(s: ExternalLinkPost) -> Seq<char> {
    match s.created_at {
        Some(t) => t@,
        None => s.indexed_at@,
    }
}

/// The digest score: bookmarks, reposts and likes together.
pub open spec fn score_of(d: DigestLink) -> int {
    d.bookmark_count + d.repost_count + d.like_count
}

/// Whether the score can be summed in `i64`, left to right.
pub open spec fn score_fits(d: DigestLink) -> bool {
    fits_i64(d.bookmark_count + d.repost_count) && fits_i64(score_of(d))
}

/// A strictly ascending list holds no name twice.
pub proof fn lemma_ascending_no_duplicates(v: Seq<Seq<char>>)
    requires
        ascending(v),
    ensures
        v.no_duplicates(),
        v.to_set().len() == v.len(),
{
    assert forall|i: int, j: int| 0 <= i < v.len() && 0 <= j < v.len() && i != j implies v[i] != v[j] by {
        if i < j {
            lemma_less_ne(v[i], v[j]);
        } else {
            lemma_less_ne(v[j], v[i]);
        }
    }
    v.unique_seq_to_set();
}

/// Where `name` is or would go in the ascending `names`: the first name not below it, and
/// whether that name is `name`.
fn name_slot(names: &Vec<String>, name: &str) -> (r: (usize, bool))
    requires
        ascending(names_view(names@)),
    ensures
        r.0 <= names@.len(),
        forall|i: int| 0 <= i < r.0 ==> seq_less(#[trigger] names_view(names@)[i], name@),
        r.1 ==> r.0 < names@.len() && names@[r.0 as int]@ == name@,
        !r.1 ==> forall|i: int| r.0 <= i < names@.len() ==> seq_less(name@, #[trigger] names_view(names@)[i]),
{
    let ghost v0 = names_view(names@);
    let mut j: usize = 0;
    while j < names.len()
        invariant
            v0 == names_view(names@),
            ascending(v0),
            0 <= j <= names@.len(),
            forall|i: int| 0 <= i < j ==> seq_less(#[trigger] v0[i], name@),
        decreases names@.len() - j,
    {
        match compare_str(names[j].as_str(), name) {
            Order::Less => {},
            Order::Equal => {
                return (j, true);
            },
            Order::Greater => {
                proof {
                    lemma_seq_less_trichotomy(v0[j as int], name@);
                    assert forall|i: int| j <= i < v0.len() implies seq_less(name@, #[trigger] v0[i]) by {
                        if i > j {
                            lemma_seq_less_transitive(name@, v0[j as int], v0[i]);
                        }
                    }
                }
                return (j, false);
            },
        }
        j = j + 1;
    }
    (j, false)
}

/// Inserts `name` into the ascending `names` unless it is there already.
fn insert_name(names: &mut Vec<String>, name: &str)
    requires
        ascending(names_view(old(names)@)),
    ensures
        ascending(names_view(final(names)@)),
        names_view(final(names)@).to_set() == names_view(old(names)@).to_set().insert(name@),
{
    let ghost v0 = names_view(names@);
    let (j, found) = name_slot(names, name);
    if found {
        assert(v0[j as int] == name@);
        assert(v0.to_set().insert(name@) =~= v0.to_set());
        return;
    }
    names.insert(j, copy_str(name));
    proof {
        let v1 = names_view(names@);
        assert(v1 =~= v0.insert(j as int, name@));
        assert forall|a: int, b: int| 0 <= a < b < v1.len() implies seq_less(#[trigger] v1[a], #[trigger] v1[b]) by {
            if a < j && b > j {
                lemma_seq_less_transitive(v0[a], name@, v0[b - 1]);
            }
        }
        assert forall|x: Seq<char>| v1.to_set().contains(x) == v0.to_set().insert(name@).contains(x) by {
            if v1.contains(x) {
                let k = choose|k: int| 0 <= k < v1.len() && v1[k] == x;
                if k < j {
                    assert(v0[k] == x);
                } else if k > j {
                    assert(v0[k - 1] == x);
                }
            }
            if v0.contains(x) {
                let k = choose|k: int| 0 <= k < v0.len() && v0[k] == x;
                if k < j {
                    assert(v1[k] == x);
                } else {
                    assert(v1[k + 1] == x);
                }
            }
            if x == name@ {
                assert(v1[j as int] == x);
            }
        }
        assert(v1.to_set() =~= v0.to_set().insert(name@));
    }
}

impl DigestLink {
    /// Bookmarks, reposts and likes together.
    pub fn score(&self) -> (r: i64)
        requires
            score_fits(*self),
        ensures
            r == score_of(*self),
    {
        self.bookmark_count + self.repost_count + self.like_count
    }

    /// The names of the accounts that shared the link, each once, in ascending order.
    pub fn distinct_sharers(&self) -> (r: Vec<String>)
        ensures
            ascending(names_view(r@)),
            names_view(r@).to_set() == sharer_names(self.shares@),
    {
        let ghost authors = self.shares@.map_values(|s: ExternalLinkPost| s.author@);
        let mut names: Vec<String> = Vec::new();
        let mut i: usize = 0;
        while i < self.shares.len()
            invariant
                0 <= i <= self.shares@.len(),
                authors == self.shares@.map_values(|s: ExternalLinkPost| s.author@),
                ascending(names_view(names@)),
                names_view(names@).to_set() == authors.take(i as int).to_set(),
            decreases self.shares@.len() - i,
        {
            insert_name(&mut names, self.shares[i].author.as_str());
            proof {
                assert(authors.take(i + 1) =~= authors.take(i as int).push(self.shares@[i as int].author@));
                authors.take(i as int).lemma_push_to_set_commute(self.shares@[i as int].author@);
            }
            i = i + 1;
        }
        assert(authors.take(self.shares@.len() as int) =~= authors);
        names
    }

    /// How many distinct accounts shared the link.
    pub fn distinct_sharer_count(&self) -> (r: usize)
        ensures
            r == sharer_count(*self),
    {
        let names = self.distinct_sharers();
        proof {
            lemma_ascending_no_duplicates(names_view(names@));
        }
        names.len()
    }

    /// The earliest time the link was shared (`""` when it never was).
    pub fn first_seen(&self) -> (r: String)
        ensures
            self.shares@.len() == 0 ==> r@ == Seq::<char>::empty(),
            self.shares@.len() > 0 ==> (exists|i: int| 0 <= i < self.shares@.len() && r@ == shared_at(#[trigger] self.shares@[i])),
            forall|i: int| 0 <= i < self.shares@.len() ==> !seq_less(shared_at(#[trigger] self.shares@[i]), r@),
    {
        if self.shares.len() == 0 {
            return String::new();
        }
        let mut best: usize = 0;
        let mut i: usize = 1;
        proof {
            lemma_seq_less_irreflexive(shared_at(self.shares@[0]));
        }
        while i < self.shares.len()
            invariant
                0 <= best < i <= self.shares@.len(),
                forall|j: int| 0 <= j < i ==> !seq_less(shared_at(#[trigger] self.shares@[j]), shared_at(self.shares@[best as int])),
            decreases self.shares@.len() - i,
        {
            let candidate = share_time(&self.shares[i]);
            let current = share_time(&self.shares[best]);
            if compare_str(candidate, current) == Order::Less {
                proof {
                    assert forall|j: int| 0 <= j <= i implies !seq_less(shared_at(#[trigger] self.shares@[j]), shared_at(self.shares@[i as int])) by {
                        lemma_seq_less_irreflexive(shared_at(self.shares@[i as int]));
                        if j < i {
                            lemma_seq_less_trichotomy(shared_at(self.shares@[j]), shared_at(self.shares@[best as int]));
                            if seq_less(shared_at(self.shares@[j]), shared_at(self.shares@[i as int])) {
                                lemma_seq_less_transitive(shared_at(self.shares@[j]), shared_at(self.shares@[i as int]), shared_at(self.shares@[best as int]));
                            }
                        }
                    }
                }
                best = i;
            }
            i = i + 1;
        }
        copy_str(share_time(&self.shares[best]))
    }

    /// The latest time the link was shared (`""` when it never was).
    pub fn last_seen(&self) -> (r: String)
        ensures
            self.shares@.len() == 0 ==> r@ == Seq::<char>::empty(),
            self.shares@.len() > 0 ==> (exists|i: int| 0 <= i < self.shares@.len() && r@ == shared_at(#[trigger] self.shares@[i])),
            forall|i: int| 0 <= i < self.shares@.len() ==> !seq_less(r@, shared_at(#[trigger] self.shares@[i])),
    {
        if self.shares.len() == 0 {
            return String::new();
        }
        let mut best: usize = 0;
        let mut i: usize = 1;
        proof {
            lemma_seq_less_irreflexive(shared_at(self.shares@[0]));
        }
        while i < self.shares.len()
            invariant
                0 <= best < i <= self.shares@.len(),
                forall|j: int| 0 <= j < i ==> !seq_less(shared_at(self.shares@[best as int]), shared_at(#[trigger] self.shares@[j])),
            decreases self.shares@.len() - i,
        {
            let candidate = share_time(&self.shares[i]);
            let current = share_time(&self.shares[best]);
            if compare_str(current, candidate) == Order::Less {
                proof {
                    assert forall|j: int| 0 <= j <= i implies !seq_less(shared_at(self.shares@[i as int]), shared_at(#[trigger] self.shares@[j])) by {
                        lemma_seq_less_irreflexive(shared_at(self.shares@[i as int]));
                        if j < i {
                            lemma_seq_less_trichotomy(shared_at(self.shares@[j]), shared_at(self.shares@[best as int]));
                            if seq_less(shared_at(self.shares@[i as int]), shared_at(self.shares@[j])) {
                                lemma_seq_less_transitive(shared_at(self.shares@[best as int]), shared_at(self.shares@[i as int]), shared_at(self.shares@[j]));
                            }
                        }
                    }
                }
                best = i;
            }
            i = i + 1;
        }
        copy_str(share_time(&self.shares[best]))
    }
}

/// `shared_at` of one share.
pub fn share_time(share: &ExternalLinkPost) -> (r: &str)
    ensures
        r@ == shared_at(*share),
{
    match &share.created_at {
        Some(t) => t.as_str(),
        None => share.indexed_at.as_str(),
    }
}

// ----------------------------------------------------------------------------------------------
// Ranking
// ----------------------------------------------------------------------------------------------

/// Larger numbers first.
pub open spec fn int_desc(a: int, b: int) -> Order {
    if a > b {
        Order::Less
    } else if a < b {
        Order::Greater
    } else {
        Order::Equal
    }
}

/// The digest order: more distinct sharers first, then higher score, then title, then URL.
pub open spec fn digest_order(a: DigestLink, b: DigestLink) -> Order {
    then_order(
        int_desc(sharer_count(a) as int, sharer_count(b) as int),
        then_order(
            int_desc(score_of(a), score_of(b)),
            then_order(order_of(a.title@, b.title@), order_of(a.uri@, b.uri@)),
        ),
    )
}

/// Descending integer order is reflexive, antisymmetric and transitive.
pub proof fn lemma_int_desc_facts(a: int, b: int, c: int)
    ensures
        int_desc(a, a) == Order::Equal,
        int_desc(b, a) == flip(int_desc(a, b)),
        consistent(int_desc(a, b), int_desc(b, c), int_desc(a, c)),
{
}

/// `digest_order` is a total preorder: reflexive, flipping with its arguments, and transitive.
pub proof fn lemma_digest_order_facts(a: DigestLink, b: DigestLink, c: DigestLink)
    ensures
        digest_order(a, a) == Order::Equal,
        digest_order(b, a) == flip(digest_order(a, b)),
        consistent(digest_order(a, b), digest_order(b, c), digest_order(a, c)),
{
    lemma_int_desc_facts(sharer_count(a) as int, sharer_count(b) as int, sharer_count(c) as int);
    lemma_int_desc_facts(score_of(a), score_of(b), score_of(c));
    lemma_order_of_facts(a.title@, b.title@, c.title@);
    lemma_order_of_facts(a.uri@, b.uri@, c.uri@);
    lemma_then_facts(
        order_of(a.title@, b.title@),
        order_of(b.title@, c.title@),
        order_of(a.title@, c.title@),
        order_of(a.uri@, b.uri@),
        order_of(b.uri@, c.uri@),
        order_of(a.uri@, c.uri@),
    );
    lemma_then_facts(
        int_desc(score_of(a), score_of(b)),
        int_desc(score_of(b), score_of(c)),
        int_desc(score_of(a), score_of(c)),
        then_order(order_of(a.title@, b.title@), order_of(a.uri@, b.uri@)),
        then_order(order_of(b.title@, c.title@), order_of(b.uri@, c.uri@)),
        then_order(order_of(a.title@, c.title@), order_of(a.uri@, c.uri@)),
    );
    lemma_then_facts(
        int_desc(sharer_count(a) as int, sharer_count(b) as int),
        int_desc(sharer_count(b) as int, sharer_count(c) as int),
        int_desc(sharer_count(a) as int, sharer_count(c) as int),
        then_order(int_desc(score_of(a), score_of(b)), then_order(order_of(a.title@, b.title@), order_of(a.uri@, b.uri@))),
        then_order(int_desc(score_of(b), score_of(c)), then_order(order_of(b.title@, c.title@), order_of(b.uri@, c.uri@))),
        then_order(int_desc(score_of(a), score_of(c)), then_order(order_of(a.title@, c.title@), order_of(a.uri@, c.uri@))),
    );
}

fn compare_usize_desc(a: usize, b: usize) -> (r: Order)
    ensures
        r == int_desc(a as int, b as int),
{
    if a > b {
        Order::Less
    } else if a < b {
        Order::Greater
    } else {
        Order::Equal
    }
}

fn compare_i64_desc(a: i64, b: i64) -> (r: Order)
    ensures
        r == int_desc(a as int, b as int),
{
    if a > b {
        Order::Less
    } else if a < b {
        Order::Greater
    } else {
        Order::Equal
    }
}

/// Compares two digest links in the digest order.
pub fn compare_digest_links(left: &DigestLink, right: &DigestLink) -> (r: Order)
    requires
        score_fits(*left),
        score_fits(*right),
    ensures
        r == digest_order(*left, *right),
{
    let by_sharers = compare_usize_desc(left.distinct_sharer_count(), right.distinct_sharer_count());
    if by_sharers != Order::Equal {
        return by_sharers;
    }
    let by_score = compare_i64_desc(left.score(), right.score());
    if by_score != Order::Equal {
        return by_score;
    }
    let by_title = compare_str(left.title.as_str(), right.title.as_str());
    if by_title != Order::Equal {
        return by_title;
    }
    compare_str(left.uri.as_str(), right.uri.as_str())
}

/// Whether a link makes the digest: a score of at least `min_score` and at least
/// `min_shares` distinct sharers.
pub open spec fn digest_kept(min_score: i64, min_shares: usize) -> spec_fn(DigestLink) -> bool {
    |d: DigestLink| score_of(d) >= min_score && sharer_count(d) >= min_shares
}

/// The links that make the digest, in their order.
pub fn filter_digest_links(links: Vec<DigestLink>, min_score: i64, min_shares: usize) -> (r: Vec<DigestLink>)
    requires
        forall|i: int| 0 <= i < links@.len() ==> score_fits(#[trigger] links@[i]),
    ensures
        r@ == links@.filter(digest_kept(min_score, min_shares)),
{
    let ghost all = links@;
    let ghost keep = digest_kept(min_score, min_shares);
    let mut out: Vec<DigestLink> = Vec::new();
    for link in it: links
        invariant
            all == links@,
            it.seq() == all,
            keep == digest_kept(min_score, min_shares),
            forall|i: int| 0 <= i < all.len() ==> score_fits(#[trigger] all[i]),
            out@ == all.take(it.index() as int).filter(keep),
    {
        let ghost i = it.index() as int;
        assert(all.take(i + 1).drop_last() =~= all.take(i));
        assert(all.take(i + 1).last() == link);
        assert(all[i] == link);
        proof {
            reveal(Seq::filter);
        }
        if link.score() >= min_score && link.distinct_sharer_count() >= min_shares {
            out.push(link);
        }
    }
    assert(all.take(all.len() as int) =~= all);
    out
}

/// The stable-sort order on links tagged with their input positions.
pub open spec fn indexed_digest_leq() -> spec_fn((DigestLink, int), (DigestLink, int)) -> bool {
    |x: (DigestLink, int), y: (DigestLink, int)|
        digest_order(x.0, y.0) == Order::Less || (digest_order(x.0, y.0) == Order::Equal && x.1 <= y.1)
}

pub open spec fn indexed_links(rows: Seq<DigestLink>) -> Seq<(DigestLink, int)> {
    Seq::new(rows.len(), |i: int| (rows[i], i))
}

pub open spec fn untagged_links(g: Seq<(DigestLink, int)>) -> Seq<DigestLink> {
    g.map_values(|p: (DigestLink, int)| p.0)
}

/// `after` holds the links of `before` in the digest order, links that compare equal keeping
/// their order in `before`.
pub open spec fn digest_stably_sorted(before: Seq<DigestLink>, after: Seq<DigestLink>) -> bool {
    exists|g: Seq<(DigestLink, int)>|
        #![trigger untagged_links(g)]
        untagged_links(g) == after && sorted_by(g, indexed_digest_leq()) && g.to_multiset()
            == indexed_links(before).to_multiset()
}

/// The stable digest order leaves no choice: two results of stably sorting the same links are
/// the same sequence.
pub proof fn lemma_digest_sort_determined(before: Seq<DigestLink>, a1: Seq<DigestLink>, a2: Seq<DigestLink>)
    requires
        digest_stably_sorted(before, a1),
        digest_stably_sorted(before, a2),
    ensures
        a1 == a2,
{
    broadcast use vstd::seq_lib::group_to_multiset_ensures;

    let leq = indexed_digest_leq();
    let tagged = indexed_links(before);
    let g1 = choose|g: Seq<(DigestLink, int)>|
        #![trigger untagged_links(g)]
        untagged_links(g) == a1 && sorted_by(g, leq) && g.to_multiset() == tagged.to_multiset();
    let g2 = choose|g: Seq<(DigestLink, int)>|
        #![trigger untagged_links(g)]
        untagged_links(g) == a2 && sorted_by(g, leq) && g.to_multiset() == tagged.to_multiset();
    assert forall|p: (DigestLink, int)| g1.contains(p) implies tagged.contains(p) && p.0 == before[p.1] && 0 <= p.1
        < before.len() by {
        assert(g1.to_multiset().count(p) > 0);
        assert(tagged.to_multiset().count(p) > 0);
        let i = choose|i: int| 0 <= i < tagged.len() && tagged[i] == p;
    }
    assert forall|p: (DigestLink, int), q: (DigestLink, int)| g1.contains(p) && g1.contains(q) implies leq(p, q)
        || leq(q, p) by {
        lemma_digest_order_facts(p.0, q.0, p.0);
    }
    assert forall|p: (DigestLink, int), q: (DigestLink, int)|
        g1.contains(p) && g1.contains(q) && leq(p, q) && leq(q, p) implies p == q by {
        lemma_digest_order_facts(p.0, q.0, p.0);
        assert(p.1 == q.1);
    }
    lemma_sorted_same_multiset(g1, g2, leq);
}

/// Sorts links into the digest order, keeping links that compare equal in their order.
pub fn sort_digest_links(links: Vec<DigestLink>) -> (r: Vec<DigestLink>)
    requires
        forall|i: int| 0 <= i < links@.len() ==> score_fits(#[trigger] links@[i]),
    ensures
        digest_stably_sorted(links@, r@),
        forall|i: int, j: int| 0 <= i < j < r@.len() ==> digest_order(#[trigger] r@[i], #[trigger] r@[j]) != Order::Greater,
        r@.to_multiset() == links@.to_multiset(),
{
    broadcast use group_to_multiset_ensures;
    let mut rows = links;
    let ghost input = rows@;
    let ghost leq = indexed_digest_leq();
    let mut out: Vec<DigestLink> = Vec::new();
    let ghost mut g: Seq<(DigestLink, int)> = Seq::empty();
    let ghost mut i: int = 0;
    assert(input.skip(0) =~= input);
    assert(indexed_links(input).take(0) =~= Seq::<(DigestLink, int)>::empty());
    assert(untagged_links(g) =~= out@);
    while rows.len() > 0
        invariant
            leq == indexed_digest_leq(),
            forall|j: int| 0 <= j < input.len() ==> score_fits(#[trigger] input[j]),
            0 <= i <= input.len(),
            rows@ == input.skip(i),
            out@ == untagged_links(g),
            sorted_by(g, leq),
            g.to_multiset() == indexed_links(input).take(i).to_multiset(),
            out@.to_multiset() == input.take(i).to_multiset(),
            forall|j: int| 0 <= j < g.len() ==> (#[trigger] g[j]).1 < i,
            forall|j: int| 0 <= j < g.len() ==> (#[trigger] g[j]).0 == input[g[j].1] && 0 <= g[j].1,
        decreases rows@.len(),
    {
        let x = rows.remove(0);
        assert(input.skip(i).remove(0) =~= input.skip(i + 1));
        assert(x == input[i]);
        let mut k: usize = 0;
        while k < out.len() && compare_digest_links(&out[k], &x) != Order::Greater
            invariant
                0 <= k <= out@.len(),
                out@ == untagged_links(g),
                score_fits(x),
                forall|j: int| 0 <= j < input.len() ==> score_fits(#[trigger] input[j]),
                forall|j: int| 0 <= j < g.len() ==> (#[trigger] g[j]).0 == input[g[j].1] && 0 <= g[j].1 < input.len(),
                forall|j: int| 0 <= j < k ==> digest_order(#[trigger] g[j].0, x) != Order::Greater,
            decreases out@.len() - k,
        {
            assert(out@[k as int] == g[k as int].0);
            assert(score_fits(input[g[k as int].1]));
            k = k + 1;
        }
        proof {
            let ng = g.insert(k as int, (x, i));
            assert forall|a: int, b: int| 0 <= a < b < ng.len() implies #[trigger] leq(ng[a], ng[b]) by {
                if b < k {
                    assert(ng[a] == g[a] && ng[b] == g[b]);
                } else if b == k {
                    assert(ng[a] == g[a]);
                    assert(ng[b] == (x, i));
                    assert(digest_order(g[a].0, x) != Order::Greater);
                    assert(g[a].1 < i);
                } else if a == k {
                    assert(ng[b] == g[b - 1]);
                    assert(k < out@.len());
                    assert(out@[k as int] == g[k as int].0);
                    assert(digest_order(g[k as int].0, x) == Order::Greater);
                    lemma_digest_order_facts(x, g[k as int].0, g[b - 1].0);
                    if b - 1 > k {
                        assert(leq(g[k as int], g[b - 1]));
                    } else {
                        lemma_digest_order_facts(g[k as int].0, g[k as int].0, g[k as int].0);
                    }
                } else if a < k {
                    assert(ng[a] == g[a] && ng[b] == g[b - 1]);
                    assert(leq(g[a], g[b - 1]));
                } else {
                    assert(ng[a] == g[a - 1] && ng[b] == g[b - 1]);
                    assert(leq(g[a - 1], g[b - 1]));
                }
            }
            assert(indexed_links(input).take(i + 1) =~= indexed_links(input).take(i).push((x, i)));
            to_multiset_insert(g, k as int, (x, i));
            to_multiset_build(indexed_links(input).take(i), (x, i));
            assert(ng.to_multiset() == g.to_multiset().insert((x, i)));
            assert forall|j: int| 0 <= j < ng.len() implies (#[trigger] ng[j]).1 < i + 1 && ng[j].0 == input[ng[j].1] && 0 <= ng[j].1 by {
                if j < k {
                    assert(ng[j] == g[j]);
                } else if j > k {
                    assert(ng[j] == g[j - 1]);
                }
            }
            assert(untagged_links(ng) =~= out@.insert(k as int, x));
            assert(input.take(i + 1) =~= input.take(i).push(x));
            to_multiset_insert(out@, k as int, x);
            to_multiset_build(input.take(i), x);
            assert(out@.insert(k as int, x).to_multiset() == out@.to_multiset().insert(x));
            g = ng;
            i = i + 1;
        }
        out.insert(k, x);
    }
    proof {
        assert(i == input.len()) by {
            if i < input.len() {
                assert(input.skip(i).len() > 0);
            }
        }
        assert(indexed_links(input).take(i) =~= indexed_links(input));
        assert forall|a: int, b: int|
            0 <= a < b < out@.len() implies digest_order(#[trigger] out@[a], #[trigger] out@[b]) != Order::Greater by {
            assert(leq(g[a], g[b]));
        }
        assert(input.take(i) =~= input);
    }
    out
}

/// The links of the digest: those kept by `digest_kept`, in the digest order (stably), at most
/// `limit` of them.
pub fn rank_digest_links(links: Vec<DigestLink>, limit: usize, min_score: i64, min_shares: usize) -> (r: Vec<
    DigestLink,
>)
    requires
        forall|i: int| 0 <= i < links@.len() ==> score_fits(#[trigger] links@[i]),
    ensures
        exists|full: Seq<DigestLink>|
            #![trigger digest_stably_sorted(links@.filter(digest_kept(min_score, min_shares)), full)]
            digest_stably_sorted(links@.filter(digest_kept(min_score, min_shares)), full) && r@ == (if limit
                < full.len() {
                full.take(limit as int)
            } else {
                full
            }),
{
    let ghost keep = digest_kept(min_score, min_shares);
    let kept = filter_digest_links(links, min_score, min_shares);
    proof {
        assert forall|i: int| 0 <= i < kept@.len() implies score_fits(#[trigger] kept@[i]) by {
            assert(kept@.contains(kept@[i]));
            links@.lemma_filter_contains_rev(keep, kept@[i]);
            let j = choose|j: int| 0 <= j < links@.len() && links@[j] == kept@[i];
        }
    }
    let mut sorted = sort_digest_links(kept);
    let ghost full = sorted@;
    sorted.truncate(limit);
    assert(sorted@ == (if limit < full.len() { full.take(limit as int) } else { full }));
    sorted
}

// ----------------------------------------------------------------------------------------------
// Markdown output
// ----------------------------------------------------------------------------------------------

/// The clock time in a timestamp: bytes 11 to 16 of `s`, where those are character boundaries
/// and byte 13 is a `:` (`a`, `b`, `c` are the characters at bytes 11, 16 and 13).
pub open spec fn seen_time_at(s: Seq<char>, a: int, b: int, c: int) -> bool {
    at_byte(s, a, 11) && at_byte(s, b, 16) && at_byte(s, c, 13) && c < s.len() && s[c] == ':'
}

pub open spec fn has_seen_time(s: Seq<char>) -> bool {
    exists|a: int, b: int, c: int| seen_time_at(s, a, b, c)
}

/// The `HH:MM` of an RFC 3339 timestamp, or the whole value where it has none.
pub fn digest_seen_time(value: &str) -> (r: String)
    ensures
        has_seen_time(value@) ==> exists|a: int, b: int, c: int| seen_time_at(value@, a, b, c) && r@ == value@.subrange(a, b),
        !has_seen_time(value@) ==> r@ == value@,
{
    let v = chars_of(value);
    let ghost s = value@;
    let mut off: usize = 0;
    let mut i: usize = 0;
    let mut a: Option<usize> = None;
    let mut b: Option<usize> = None;
    let mut c: Option<usize> = None;
    while i < v.len() && off <= 16
        invariant
            v@ == s,
            0 <= i <= s.len(),
            off == byte_len(s.take(i as int)),
            off <= 20,
            match a {
                Some(k) => k < i && at_byte(s, k as int, 11),
                None => forall|k: int| 0 <= k < i ==> !at_byte(s, k, 11),
            },
            match b {
                Some(k) => k < i && at_byte(s, k as int, 16),
                None => forall|k: int| 0 <= k < i ==> !at_byte(s, k, 16),
            },
            match c {
                Some(k) => k < i && at_byte(s, k as int, 13),
                None => forall|k: int| 0 <= k < i ==> !at_byte(s, k, 13),
            },
        decreases s.len() - i,
    {
        if off == 11 {
            a = Some(i);
        }
        if off == 16 {
            b = Some(i);
        }
        if off == 13 {
            c = Some(i);
        }
        assert(s.take(i + 1).drop_last() =~= s.take(i as int));
        off = off + char_utf8_width(v[i]);
        i = i + 1;
    }
    if off == 11 {
        a = Some(i);
    }
    if off == 16 {
        b = Some(i);
    }
    if off == 13 {
        c = Some(i);
    }
    proof {
        assert forall|k: int, t: int| i < k <= s.len() && (t == 11 || t == 13 || t == 16) implies !at_byte(s, k, t) by {
            lemma_byte_len_increasing(s, i as int, k);
        }
    }
    match (a, b, c) {
        (Some(x), Some(y), Some(z)) => {
            if z < v.len() && v[z] == ':' && x <= y {
                assert(seen_time_at(s, x as int, y as int, z as int));
                return chars_between(&v, x, y);
            }
            proof {
                if has_seen_time(s) {
                    let (a2, b2, c2) = choose|a2: int, b2: int, c2: int| seen_time_at(s, a2, b2, c2);
                    lemma_at_byte_unique(s, a2, x as int, 11);
                    lemma_at_byte_unique(s, b2, y as int, 16);
                    lemma_at_byte_unique(s, c2, z as int, 13);
                    if y < x {
                        lemma_byte_len_increasing(s, y as int, x as int);
                    }
                }
            }
        },
        _ => {
            proof {
                if has_seen_time(s) {
                    let (a2, b2, c2) = choose|a2: int, b2: int, c2: int| seen_time_at(s, a2, b2, c2);
                    assert(at_byte(s, a2, 11));
                    assert(at_byte(s, b2, 16));
                    assert(at_byte(s, c2, 13));
                }
            }
        },
    }
    copy_str(value)
}

/// The text a Markdown heading shows: the words of `value` joined by single spaces.
pub fn markdown_plain_text(value: &str) -> (r: String)
    ensures
        r@ == collapse_ws(value@),
{
    collapse_whitespace(value)
}

/// The first and last lines of the digest's front matter, and the blank line after them.
pub open spec fn digest_header(date: Seq<char>) -> Seq<char> {
    "---\ntitle: Social Links\ndate: "@ + date + "\n---\n\n"@
}

/// One `- @name` line per sharer.
pub open spec fn sharer_lines(names: Seq<Seq<char>>) -> Seq<char>
    decreases names.len(),
{
    if names.len() == 0 {
        Seq::empty()
    } else {
        sharer_lines(names.drop_last()) + "- @"@ + names.last() + "\n"@
    }
}

/// What a link's heading shows: its title, or its URL where the title is empty.
pub open spec fn heading_of(d: DigestLink) -> Seq<char> {
    if d.title@.len() == 0 {
        d.uri@
    } else {
        d.title@
    }
}

/// The Markdown section of one link, given its sharers and its first and last times.
pub open spec fn section_text(d: DigestLink, names: Seq<Seq<char>>, first: Seq<char>, last: Seq<char>) -> Seq<char> {
    "## "@ + collapse_ws(heading_of(d)) + "\n\nURL: <"@ + d.uri@ + ">\n\nShared by:\n\n"@ + sharer_lines(names)
        + "\nFirst seen: "@ + first + "\nLast seen: "@ + last + "\n\n"@
}

/// `names` are the link's sharers, each once, ascending.
pub open spec fn is_sharer_list(d: DigestLink, names: Seq<Seq<char>>) -> bool {
    ascending(names) && names.to_set() == sharer_names(d.shares@)
}

/// `t` is the earliest share time of `d` (`""` without shares).
pub open spec fn is_first_seen(d: DigestLink, t: Seq<char>) -> bool {
    &&& d.shares@.len() == 0 ==> t == Seq::<char>::empty()
    &&& d.shares@.len() > 0 ==> exists|i: int| 0 <= i < d.shares@.len() && t == shared_at(#[trigger] d.shares@[i])
    &&& forall|i: int| 0 <= i < d.shares@.len() ==> !seq_less(shared_at(#[trigger] d.shares@[i]), t)
}

/// `t` is the latest share time of `d` (`""` without shares).
pub open spec fn is_last_seen(d: DigestLink, t: Seq<char>) -> bool {
    &&& d.shares@.len() == 0 ==> t == Seq::<char>::empty()
    &&& d.shares@.len() > 0 ==> exists|i: int| 0 <= i < d.shares@.len() && t == shared_at(#[trigger] d.shares@[i])
    &&& forall|i: int| 0 <= i < d.shares@.len() ==> !seq_less(t, shared_at(#[trigger] d.shares@[i]))
}

/// `t` is what `digest_seen_time` makes of `v`.
pub open spec fn is_seen_time(v: Seq<char>, t: Seq<char>) -> bool {
    &&& has_seen_time(v) ==> exists|a: int, b: int, c: int| seen_time_at(v, a, b, c) && t == v.subrange(a, b)
    &&& !has_seen_time(v) ==> t == v
}

/// `text` is the Markdown section of `d`.
pub open spec fn is_section(d: DigestLink, text: Seq<char>) -> bool {
    exists|names: Seq<Seq<char>>, first: Seq<char>, last: Seq<char>, ft: Seq<char>, lt: Seq<char>|
        is_sharer_list(d, names) && is_first_seen(d, first) && is_last_seen(d, last) && is_seen_time(first, ft)
            && is_seen_time(last, lt) && text == section_text(d, names, ft, lt)
}

/// Two strictly ascending lists of the same names are the same list.
proof fn lemma_ascending_same_set(a: Seq<Seq<char>>, b: Seq<Seq<char>>)
    requires
        ascending(a),
        ascending(b),
        a.to_set() == b.to_set(),
    ensures
        a == b,
    decreases a.len(),
{
    if a.len() == 0 || b.len() == 0 {
        if a.len() > 0 {
            assert(a.to_set().contains(a[0]));
        }
        if b.len() > 0 {
            assert(b.to_set().contains(b[0]));
        }
        assert(a =~= b);
    } else {
        assert(b.to_set().contains(a[0]));
        assert(a.to_set().contains(b[0]));
        let k = choose|k: int| 0 <= k < b.len() && b[k] == a[0];
        let m = choose|m: int| 0 <= m < a.len() && a[m] == b[0];
        if k != 0 && m != 0 {
            assert(seq_less(b[0], b[k]));
            assert(seq_less(a[0], a[m]));
            lemma_seq_less_trichotomy(a[0], b[0]);
        }
        assert(a[0] == b[0]);
        let a1 = a.drop_first();
        let b1 = b.drop_first();
        assert forall|x: Seq<char>| a1.to_set().contains(x) implies b1.to_set().contains(x) by {
            let i = choose|i: int| 0 <= i < a1.len() && a1[i] == x;
            assert(a[i + 1] == x);
            assert(seq_less(a[0], x));
            lemma_less_ne(a[0], x);
            assert(b.to_set().contains(x));
            let j = choose|j: int| 0 <= j < b.len() && b[j] == x;
            assert(j != 0);
            assert(b1[j - 1] == x);
        }
        assert forall|x: Seq<char>| b1.to_set().contains(x) implies a1.to_set().contains(x) by {
            let i = choose|i: int| 0 <= i < b1.len() && b1[i] == x;
            assert(b[i + 1] == x);
            assert(seq_less(b[0], x));
            lemma_less_ne(b[0], x);
            assert(a.to_set().contains(x));
            let j = choose|j: int| 0 <= j < a.len() && a[j] == x;
            assert(j != 0);
            assert(a1[j - 1] == x);
        }
        assert(a1.to_set() =~= b1.to_set());
        lemma_ascending_same_set(a1, b1);
        assert(a =~= b) by {
            assert forall|i: int| 0 <= i < a.len() implies a[i] == b[i] by {
                if i > 0 {
                    assert(a[i] == a1[i - 1]);
                    assert(b[i] == b1[i - 1]);
                }
            }
        }
    }
}

proof fn lemma_first_seen_unique(d: DigestLink, t1: Seq<char>, t2: Seq<char>)
    requires
        is_first_seen(d, t1),
        is_first_seen(d, t2),
    ensures
        t1 == t2,
{
    if d.shares@.len() > 0 {
        let i = choose|i: int| 0 <= i < d.shares@.len() && t1 == shared_at(#[trigger] d.shares@[i]);
        let j = choose|j: int| 0 <= j < d.shares@.len() && t2 == shared_at(#[trigger] d.shares@[j]);
        assert(!seq_less(shared_at(d.shares@[i]), t2));
        assert(!seq_less(shared_at(d.shares@[j]), t1));
        lemma_seq_less_trichotomy(t1, t2);
    }
}

proof fn lemma_last_seen_unique(d: DigestLink, t1: Seq<char>, t2: Seq<char>)
    requires
        is_last_seen(d, t1),
        is_last_seen(d, t2),
    ensures
        t1 == t2,
{
    if d.shares@.len() > 0 {
        let i = choose|i: int| 0 <= i < d.shares@.len() && t1 == shared_at(#[trigger] d.shares@[i]);
        let j = choose|j: int| 0 <= j < d.shares@.len() && t2 == shared_at(#[trigger] d.shares@[j]);
        assert(!seq_less(t2, shared_at(d.shares@[i])));
        assert(!seq_less(t1, shared_at(d.shares@[j])));
        lemma_seq_less_trichotomy(t1, t2);
    }
}

proof fn lemma_seen_time_unique(v: Seq<char>, t1: Seq<char>, t2: Seq<char>)
    requires
        is_seen_time(v, t1),
        is_seen_time(v, t2),
    ensures
        t1 == t2,
{
    if has_seen_time(v) {
        let (a1, b1, c1) = choose|a: int, b: int, c: int| seen_time_at(v, a, b, c) && t1 == v.subrange(a, b);
        let (a2, b2, c2) = choose|a: int, b: int, c: int| seen_time_at(v, a, b, c) && t2 == v.subrange(a, b);
        lemma_at_byte_unique(v, a1, a2, 11);
        lemma_at_byte_unique(v, b1, b2, 16);
    }
}

/// A link has one Markdown section: `is_section`, which `render_digest_section` meets, holds of
/// one text only.
pub proof fn lemma_section_determined(d: DigestLink, t1: Seq<char>, t2: Seq<char>)
    requires
        is_section(d, t1),
        is_section(d, t2),
    ensures
        t1 == t2,
{
    let (n1, f1, l1, ft1, lt1) = choose|names: Seq<Seq<char>>, first: Seq<char>, last: Seq<char>, ft: Seq<char>, lt: Seq<char>|
        is_sharer_list(d, names) && is_first_seen(d, first) && is_last_seen(d, last) && is_seen_time(first, ft)
            && is_seen_time(last, lt) && t1 == section_text(d, names, ft, lt);
    let (n2, f2, l2, ft2, lt2) = choose|names: Seq<Seq<char>>, first: Seq<char>, last: Seq<char>, ft: Seq<char>, lt: Seq<char>|
        is_sharer_list(d, names) && is_first_seen(d, first) && is_last_seen(d, last) && is_seen_time(first, ft)
            && is_seen_time(last, lt) && t2 == section_text(d, names, ft, lt);
    lemma_ascending_same_set(n1, n2);
    lemma_first_seen_unique(d, f1, f2);
    lemma_last_seen_unique(d, l1, l2);
    lemma_seen_time_unique(f1, ft1, ft2);
    lemma_seen_time_unique(l1, lt1, lt2);
}

fn append_sharer_lines(out: &mut String, names: &Vec<String>)
    ensures
        final(out)@ == old(out)@ + sharer_lines(names_view(names@)),
{
    let ghost start = out@;
    let mut i: usize = 0;
    while i < names.len()
        invariant
            0 <= i <= names@.len(),
            out@ == start + sharer_lines(names_view(names@).take(i as int)),
        decreases names@.len() - i,
    {
        assert(names_view(names@).take(i + 1).drop_last() =~= names_view(names@).take(i as int));
        out.append("- @");
        out.append(names[i].as_str());
        out.append("\n");
        i = i + 1;
    }
    assert(names_view(names@).take(names@.len() as int) =~= names_view(names@));
}

/// The Markdown section of one link.
pub fn render_digest_section(link: &DigestLink) -> (r: String)
    ensures
        is_section(*link, r@),
{
    let heading = if link.title.as_str().unicode_len() == 0 {
        markdown_plain_text(link.uri.as_str())
    } else {
        markdown_plain_text(link.title.as_str())
    };
    let names = link.distinct_sharers();
    let first = link.first_seen();
    let last = link.last_seen();
    let first_time = digest_seen_time(first.as_str());
    let last_time = digest_seen_time(last.as_str());
    let mut out = String::from_str("## ");
    out.append(heading.as_str());
    out.append("\n\nURL: <");
    out.append(link.uri.as_str());
    out.append(">\n\nShared by:\n\n");
    append_sharer_lines(&mut out, &names);
    out.append("\nFirst seen: ");
    out.append(first_time.as_str());
    out.append("\nLast seen: ");
    out.append(last_time.as_str());
    out.append("\n\n");
    proof {
        assert(is_sharer_list(*link, names_view(names@)));
        assert(is_first_seen(*link, first@));
        assert(is_last_seen(*link, last@));
        assert(is_seen_time(first@, first_time@));
        assert(is_seen_time(last@, last_time@));
        assert(out@ =~= section_text(*link, names_view(names@), first_time@, last_time@));
    }
    out
}

/// `text` is the Markdown digest of `links` dated `date`: the front matter, then the section of
/// each link in turn.
pub open spec fn is_digest_text(links: Seq<DigestLink>, date: Seq<char>, text: Seq<char>) -> bool {
    exists|sections: Seq<Seq<char>>|
        sections.len() == links.len() && (forall|k: int| 0 <= k < links.len() ==> is_section(#[trigger] links[k], sections[k]))
            && text == digest_header(date) + crate::text::concat(sections)
}

/// A list of links has one Markdown digest for a date: `is_digest_text`, which
/// `render_link_digest` meets, holds of one text only.
pub proof fn lemma_digest_text_determined(links: Seq<DigestLink>, date: Seq<char>, t1: Seq<char>, t2: Seq<char>)
    requires
        is_digest_text(links, date, t1),
        is_digest_text(links, date, t2),
    ensures
        t1 == t2,
{
    let s1 = choose|sections: Seq<Seq<char>>|
        sections.len() == links.len() && (forall|k: int| 0 <= k < links.len() ==> is_section(#[trigger] links[k], sections[k]))
            && t1 == digest_header(date) + crate::text::concat(sections);
    let s2 = choose|sections: Seq<Seq<char>>|
        sections.len() == links.len() && (forall|k: int| 0 <= k < links.len() ==> is_section(#[trigger] links[k], sections[k]))
            && t2 == digest_header(date) + crate::text::concat(sections);
    assert forall|k: int| 0 <= k < links.len() implies s1[k] == s2[k] by {
        lemma_section_determined(links[k], s1[k], s2[k]);
    }
    assert(s1 =~= s2);
}

/// The Markdown digest: front matter titled "Social Links" and dated `date`, then one section
/// per link in order.
pub fn render_link_digest(links: &Vec<DigestLink>, date: &str) -> (r: String)
    ensures
        is_digest_text(links@, date@, r@),
{
    let mut out = String::from_str("---\ntitle: Social Links\ndate: ");
    out.append(date);
    out.append("\n---\n\n");
    let ghost head = out@;
    let ghost mut sections: Seq<Seq<char>> = Seq::empty();
    let mut i: usize = 0;
    while i < links.len()
        invariant
            0 <= i <= links@.len(),
            head == digest_header(date@),
            sections.len() == i,
            forall|k: int| 0 <= k < i ==> is_section(#[trigger] links@[k], sections[k]),
            out@ == head + crate::text::concat(sections),
        decreases links@.len() - i,
    {
        let section = render_digest_section(&links[i]);
        out.append(section.as_str());
        proof {
            assert(sections.push(section@).drop_last() =~= sections);
            sections = sections.push(section@);
        }
        i = i + 1;
    }
    out
}

// ----------------------------------------------------------------------------------------------
// The whole digest
// ----------------------------------------------------------------------------------------------

/// The score of a tally can be summed in `i64`, left to right.
pub open spec fn tally_score_fits(t: LinkTally) -> bool {
    fits_i64(t.bookmarks + t.reposts) && fits_i64(t.bookmarks + t.reposts + t.likes)
}

/// Every running count, and every final score, stays within `i64` while `links` are tallied.
pub open spec fn digest_fits(links: Seq<ExternalLinkPost>) -> bool {
    &&& tallies_fit(links)
    &&& forall|k: Seq<char>| #[trigger] tallies(links).contains_key(k) ==> tally_score_fits(tallies(links)[k])
}

/// The links of the digest, ranked: the tallies of `links` per URL (`aggregate_digest_links`),
/// those kept by `digest_kept`, in the digest order, at most `limit`.
pub fn select_digest_links(links: Vec<ExternalLinkPost>, limit: usize, min_score: i64, min_shares: usize) -> (r: Vec<
    DigestLink,
>)
    requires
        digest_fits(links@),
    ensures
        exists|entries: Seq<DigestLink>, full: Seq<DigestLink>|
            sorted_by_uri(entries) && holds_tallies(entries, tallies(links@)) && digest_stably_sorted(
                entries.filter(digest_kept(min_score, min_shares)),
                full,
            ) && r@ == (if limit < full.len() {
                full.take(limit as int)
            } else {
                full
            }),
{
    let ghost all = links@;
    let entries = aggregate_digest_links(links);
    proof {
        assert forall|i: int| 0 <= i < entries@.len() implies score_fits(#[trigger] entries@[i]) by {
            assert(tallies(all).contains_key(entries@[i].uri@));
            assert(tally_score_fits(tallies(all)[entries@[i].uri@]));
        }
    }
    let ghost e = entries@;
    let r = rank_digest_links(entries, limit, min_score, min_shares);
    r
}

/// The Markdown digest of `links`, where every count and score fits in `i64`
/// (`digest_fits`); `None` exactly where one does not.
pub fn link_digest_markdown_checked(
    links: Vec<ExternalLinkPost>,
    limit: usize,
    min_score: i64,
    min_shares: usize,
    date: &str,
) -> (r: Option<String>)
    ensures
        r is Some <==> digest_fits(links@),
        r matches Some(text) ==> exists|entries: Seq<DigestLink>, full: Seq<DigestLink>|
            sorted_by_uri(entries) && holds_tallies(entries, tallies(links@)) && digest_stably_sorted(
                entries.filter(digest_kept(min_score, min_shares)),
                full,
            ) && is_digest_text(
                if limit < full.len() {
                    full.take(limit as int)
                } else {
                    full
                },
                date@,
                text@,
            ),
{
    let ghost all = links@;
    let entries = match checked_aggregate_digest_links(links) {
        Some(e) => e,
        None => return None,
    };
    let mut i: usize = 0;
    while i < entries.len()
        invariant
            all == links@,
            0 <= i <= entries@.len(),
            sorted_by_uri(entries@),
            holds_tallies(entries@, tallies(all)),
            forall|j: int| 0 <= j < i ==> score_fits(#[trigger] entries@[j]),
        decreases entries@.len() - i,
    {
        let e = &entries[i];
        let fits = match e.bookmark_count.checked_add(e.repost_count) {
            Some(partial) => partial.checked_add(e.like_count).is_some(),
            None => false,
        };
        if !fits {
            assert(!digest_fits(all)) by {
                assert(tallies(all).contains_key(entries@[i as int].uri@));
                assert(!tally_score_fits(tallies(all)[entries@[i as int].uri@]));
            }
            return None;
        }
        i = i + 1;
    }
    assert(digest_fits(all)) by {
        assert forall|k: Seq<char>| #[trigger] tallies(all).contains_key(k) implies tally_score_fits(tallies(all)[k]) by {
            let j = choose|j: int| 0 <= j < entries@.len() && (#[trigger] entries@[j]).uri@ == k;
            assert(score_fits(entries@[j]));
        }
    }
    let ghost e = entries@;
    let chosen = rank_digest_links(entries, limit, min_score, min_shares);
    Some(render_link_digest(&chosen, date))
}

/// The Markdown link digest dated `date`: the links of `select_digest_links`, one section each.
pub fn link_digest_markdown(links: Vec<ExternalLinkPost>, limit: usize, min_score: i64, min_shares: usize, date: &str) -> (r:
    String)
    requires
        digest_fits(links@),
    ensures
        exists|entries: Seq<DigestLink>, full: Seq<DigestLink>|
            sorted_by_uri(entries) && holds_tallies(entries, tallies(links@)) && digest_stably_sorted(
                entries.filter(digest_kept(min_score, min_shares)),
                full,
            ) && is_digest_text(
                if limit < full.len() {
                    full.take(limit as int)
                } else {
                    full
                },
                date@,
                r@,
            ),
{
    let chosen = select_digest_links(links, limit, min_score, min_shares);
    render_link_digest(&chosen, date)
}

/// Seeing the same share twice in a row tallies it once.
pub proof fn lemma_repeated_share_ignored(links: Seq<ExternalLinkPost>, link: ExternalLinkPost)
    ensures
        tallies(links.push(link).push(link)) == tallies(links.push(link)),
{
    let once = links.push(link);
    let twice = once.push(link);
    assert(twice.drop_last() =~= once);
    assert(once.drop_last() =~= links);
    let before = tallies(links);
    let key = link.external_uri@;
    let t = if before.contains_key(key) {
        before[key]
    } else {
        new_tally(link)
    };
    let m = tallies(once);
    assert(m == before.insert(key, tally_add(t, link)));
    let t1 = tally_add(t, link);
    assert(has_share(t1.shares, link.post_uri@, link.author_did@)) by {
        if !has_share(t.shares, link.post_uri@, link.author_did@) {
            assert(t1.shares[t.shares.len() as int] == link);
        }
    }
    assert(m.contains_key(key) && m[key] == t1);
    assert(tallies(twice) == m.insert(key, tally_add(m[key], link)));
    assert(tally_add(t1, link) == t1);
    assert(m.insert(key, t1) =~= m);
}

/// Every URL tallied was shared by some link, and every shared URL is tallied.
pub proof fn lemma_tallied_urls(links: Seq<ExternalLinkPost>, key: Seq<char>)
    ensures
        tallies(links).contains_key(key) <==> exists|i: int| 0 <= i < links.len() && (#[trigger] links[i]).external_uri@ == key,
    decreases links.len(),
{
    if links.len() > 0 {
        let init = links.drop_last();
        lemma_tallied_urls(init, key);
        if tallies(links).contains_key(key) && links.last().external_uri@ != key {
            let i = choose|i: int| 0 <= i < init.len() && (#[trigger] init[i]).external_uri@ == key;
            assert(links[i] == init[i]);
        }
        if exists|i: int| 0 <= i < links.len() && (#[trigger] links[i]).external_uri@ == key {
            let i = choose|i: int| 0 <= i < links.len() && (#[trigger] links[i]).external_uri@ == key;
            if i < links.len() - 1 {
                assert(init[i] == links[i]);
            }
        }
    }
}

} // verus!
