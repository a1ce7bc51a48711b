//! The mathematical model of the library slice that the consistency core
//! reads and writes: one value of [`StoreV`] stands for the change counter
//! together with the five tables.  The step relations at the bottom say,
//! for each mutation, exactly how the store after the call relates to the
//! store before it; the executable operations promise these relations and
//! the laws are proved from them.

use vstd::prelude::*;

use crate::strings::contains_ci;
use crate::strings::dec_digits;
use crate::strings::lex_le;
use crate::Error;

verus! {

/// A track record as handed to callers: identifier, lowercased filename,
/// rating.
#[verifier::ext_equal]
pub struct ContentV {
    pub id: Seq<char>,
    pub file_name: Seq<char>,
    pub rating: int,
}

/// A stored track row; the folder path is read by lookup only.
#[verifier::ext_equal]
pub struct ContentRowV {
    pub id: Seq<char>,
    pub file_name: Seq<char>,
    pub folder_path: Seq<char>,
    pub rating: int,
}

/// A row of the read-only tag vocabulary.
#[verifier::ext_equal]
pub struct TagV {
    pub id: Seq<char>,
    pub name: Seq<char>,
}

/// An association row joining one track to one tag.
#[verifier::ext_equal]
pub struct AssocV {
    pub id: Seq<char>,
    pub tag_id: Seq<char>,
    pub content_id: Seq<char>,
    pub uuid: Seq<char>,
    pub usn: int,
    pub created_at: Seq<char>,
    pub updated_at: Seq<char>,
}

/// A playlist row; `seq_no` is its position among its siblings.
#[verifier::ext_equal]
pub struct PlaylistV {
    pub seq_no: int,
    pub id: Seq<char>,
    pub name: Seq<char>,
    pub attribute: int,
    pub parent_id: Seq<char>,
    pub uuid: Seq<char>,
    pub usn: int,
    pub created_at: Seq<char>,
    pub updated_at: Seq<char>,
}

/// A membership row placing one track inside one playlist at `track_no`.
#[verifier::ext_equal]
pub struct MemberV {
    pub id: Seq<char>,
    pub playlist_id: Seq<char>,
    pub content_id: Seq<char>,
    pub uuid: Seq<char>,
    pub created_at: Seq<char>,
    pub updated_at: Seq<char>,
    pub usn: int,
    pub track_no: int,
}

/// The modelled slice of the store.
#[verifier::ext_equal]
pub struct StoreV {
    pub counter: int,
    pub contents: Seq<ContentRowV>,
    pub tags: Seq<TagV>,
    pub assocs: Seq<AssocV>,
    pub playlists: Seq<PlaylistV>,
    pub members: Seq<MemberV>,
}

/// The implicit parent of top-level playlists.
pub open spec fn root_id() -> Seq<char> {
    "root"@
}

/// Well-formedness of a store value: key columns are unique, association
/// and membership are sets with respect to their compound keys, and the
/// positions handed out by the core stay within the row count.
pub open spec fn wf(s: StoreV) -> bool {
    &&& forall|i: int, j: int|
        0 <= i < j < s.contents.len() ==> #[trigger] s.contents[i].id != #[trigger] s.contents[j].id
    &&& forall|i: int, j: int|
        0 <= i < j < s.tags.len() ==> #[trigger] s.tags[i].id != #[trigger] s.tags[j].id
    &&& forall|i: int, j: int|
        0 <= i < j < s.tags.len() ==> s.tags[i].name != s.tags[j].name
    &&& forall|i: int, j: int|
        0 <= i < j < s.assocs.len() ==> !(#[trigger] s.assocs[i].content_id
            == #[trigger] s.assocs[j].content_id && s.assocs[i].tag_id == s.assocs[j].tag_id)
    &&& forall|i: int, j: int|
        0 <= i < j < s.playlists.len() ==> #[trigger] s.playlists[i].id
            != #[trigger] s.playlists[j].id
    &&& forall|i: int, j: int|
        0 <= i < j < s.playlists.len() ==> s.playlists[i].name != s.playlists[j].name
    &&& forall|i: int, j: int|
        0 <= i < j < s.members.len() ==> !(#[trigger] s.members[i].playlist_id
            == #[trigger] s.members[j].playlist_id && s.members[i].content_id
            == s.members[j].content_id)
    &&& forall|k: int|
        0 <= k < s.playlists.len() ==> 1 <= #[trigger] s.playlists[k].seq_no <= s.playlists.len()
    &&& forall|k: int|
        0 <= k < s.members.len() ==> 1 <= #[trigger] s.members[k].track_no <= s.members.len()
}

/// A tag named `name` exists in the vocabulary.
pub open spec fn has_tag(s: StoreV, name: Seq<char>) -> bool {
    exists|k: int| 0 <= k < s.tags.len() && #[trigger] s.tags[k].name == name
}

/// `tid` is the identifier of a vocabulary tag named `name`.
pub open spec fn tag_id_matches(s: StoreV, tid: Seq<char>, name: Seq<char>) -> bool {
    exists|k: int|
        0 <= k < s.tags.len() && #[trigger] s.tags[k].name == name && s.tags[k].id == tid
}

/// An association row joins content `cid` to tag `tid`.
pub open spec fn has_assoc(s: StoreV, cid: Seq<char>, tid: Seq<char>) -> bool {
    exists|k: int|
        0 <= k < s.assocs.len() && #[trigger] s.assocs[k].content_id == cid
            && s.assocs[k].tag_id == tid
}

/// Content `cid` carries the tag named `name`.
pub open spec fn is_tagged(s: StoreV, cid: Seq<char>, name: Seq<char>) -> bool {
    exists|tid: Seq<char>| #[trigger] tag_id_matches(s, tid, name) && has_assoc(s, cid, tid)
}

/// The association row `a` joins `cid` to the tag named `name`.
pub open spec fn assoc_named(s: StoreV, a: AssocV, cid: Seq<char>, name: Seq<char>) -> bool {
    a.content_id == cid && tag_id_matches(s, a.tag_id, name)
}

/// A playlist named `name` exists.
pub open spec fn has_playlist(s: StoreV, name: Seq<char>) -> bool {
    exists|k: int| 0 <= k < s.playlists.len() && #[trigger] s.playlists[k].name == name
}

/// `pid` is the identifier of a playlist named `name`.
pub open spec fn playlist_named(s: StoreV, pid: Seq<char>, name: Seq<char>) -> bool {
    exists|k: int|
        0 <= k < s.playlists.len() && #[trigger] s.playlists[k].name == name
            && s.playlists[k].id == pid
}

/// Some playlist already uses the identifier `id`.
pub open spec fn playlist_id_taken(s: StoreV, id: Seq<char>) -> bool {
    exists|k: int| 0 <= k < s.playlists.len() && #[trigger] s.playlists[k].id == id
}

/// A content row with identifier `cid` exists.
pub open spec fn has_content(s: StoreV, cid: Seq<char>) -> bool {
    exists|k: int| 0 <= k < s.contents.len() && #[trigger] s.contents[k].id == cid
}

/// Content `cid` is a member of playlist `pid`.
pub open spec fn is_member(s: StoreV, pid: Seq<char>, cid: Seq<char>) -> bool {
    exists|k: int|
        0 <= k < s.members.len() && #[trigger] s.members[k].playlist_id == pid
            && s.members[k].content_id == cid
}

/// The largest sibling position among top-level playlists, 0 when there
/// are none.
pub open spec fn max_root_seq(ps: Seq<PlaylistV>) -> int
    decreases ps.len(),
{
    if ps.len() == 0 {
        0
    } else {
        let rest = max_root_seq(ps.drop_last());
        if ps.last().parent_id == root_id() && ps.last().seq_no > rest {
            ps.last().seq_no
        } else {
            rest
        }
    }
}

/// The largest track number inside playlist `pid`, 0 when it is empty.
pub open spec fn max_track_no(ms: Seq<MemberV>, pid: Seq<char>) -> int
    decreases ms.len(),
{
    if ms.len() == 0 {
        0
    } else {
        let rest = max_track_no(ms.drop_last(), pid);
        if ms.last().playlist_id == pid && ms.last().track_no > rest {
            ms.last().track_no
        } else {
            rest
        }
    }
}

/// An identifier the allocator can have produced: the decimal rendering of
/// a 32-bit value at or above the reserved threshold.
pub open spec fn is_allocated_id(id: Seq<char>) -> bool {
    exists|n: nat| 100 <= n < 0x1_0000_0000 && id == #[trigger] dec_digits(n)
}

/// The store with its counter advanced by one, nothing else changed.
pub open spec fn with_counter(s: StoreV) -> StoreV {
    StoreV { counter: s.counter + 1, ..s }
}

/// The store after one atomic counter allocation returning `r`.
pub open spec fn usn_step(pre: StoreV, post: StoreV, r: i64) -> bool {
    &&& post == with_counter(pre)
    &&& r == pre.counter + 1
}

/// The store with an association row appended and the counter advanced.
pub open spec fn with_assoc(s: StoreV, row: AssocV) -> StoreV {
    StoreV { counter: s.counter + 1, assocs: s.assocs.push(row), ..s }
}

/// The shape of a freshly inserted association row for (`cid`, `name`).
pub open spec fn tag_row_shape(s: StoreV, row: AssocV, cid: Seq<char>, name: Seq<char>) -> bool {
    &&& tag_id_matches(s, row.tag_id, name)
    &&& row.content_id == cid
    &&& row.usn == s.counter + 1
    &&& row.created_at == row.updated_at
}

/// `post` is `pre` with one fresh association row for (`cid`, `name`).
pub open spec fn tag_inserted(pre: StoreV, post: StoreV, cid: Seq<char>, name: Seq<char>) -> bool {
    exists|row: AssocV| #[trigger] tag_row_shape(pre, row, cid, name) && post == with_assoc(pre, row)
}

/// Idempotent tag assignment: a no-op when the pair is present or the tag
/// name is not in the vocabulary, otherwise one insert stamped with the
/// advanced counter, whose value is returned.
pub open spec fn tag_step(
    pre: StoreV,
    post: StoreV,
    cid: Seq<char>,
    name: Seq<char>,
    r: Option<i64>,
) -> bool {
    if is_tagged(pre, cid, name) || !has_tag(pre, name) {
        &&& post == pre
        &&& r is None
    } else {
        &&& r matches Some(u) && u == pre.counter + 1
        &&& tag_inserted(pre, post, cid, name)
    }
}

/// Tag removal: the association rows for (`cid`, `name`) disappear and
/// nothing else changes; in particular the counter does not move.
pub open spec fn untag_step(pre: StoreV, post: StoreV, cid: Seq<char>, name: Seq<char>) -> bool {
    post == StoreV {
        assocs: pre.assocs.filter(|a: AssocV| !assoc_named(pre, a, cid, name)),
        ..pre
    }
}

/// Clearing: every association row of `cid` disappears.
pub open spec fn clear_step(pre: StoreV, post: StoreV, cid: Seq<char>) -> bool {
    post == StoreV { assocs: pre.assocs.filter(|a: AssocV| a.content_id != cid), ..pre }
}

/// Rating update: the rating of the row keyed `cid` becomes `rating`;
/// rating is not synchronized state, so the counter does not move.
pub open spec fn rate_step(pre: StoreV, post: StoreV, cid: Seq<char>, rating: int) -> bool {
    post == StoreV {
        contents: Seq::new(
            pre.contents.len(),
            |i: int|
                if pre.contents[i].id == cid {
                    ContentRowV { rating, ..pre.contents[i] }
                } else {
                    pre.contents[i]
                },
        ),
        ..pre
    }
}

/// The store with a playlist row appended and the counter advanced.
pub open spec fn with_playlist(s: StoreV, row: PlaylistV) -> StoreV {
    StoreV { counter: s.counter + 1, playlists: s.playlists.push(row), ..s }
}

/// The shape of a freshly created playlist row named `name`: a top-level
/// child placed after the last sibling, carrying a fresh identifier and
/// the advanced counter.
pub open spec fn playlist_row_shape(s: StoreV, row: PlaylistV, name: Seq<char>) -> bool {
    &&& row.name == name
    &&& row.parent_id == root_id()
    &&& row.attribute == 0
    &&& row.seq_no == max_root_seq(s.playlists) + 1
    &&& row.usn == s.counter + 1
    &&& row.created_at == row.updated_at
    &&& is_allocated_id(row.id)
    &&& !playlist_id_taken(s, row.id)
}

/// `post` is `pre` with one fresh playlist row named `name`.
pub open spec fn playlist_inserted(pre: StoreV, post: StoreV, name: Seq<char>) -> bool {
    exists|row: PlaylistV| #[trigger] playlist_row_shape(pre, row, name) && post == with_playlist(
        pre,
        row,
    )
}

/// Idempotent playlist creation: a no-op when the name exists, otherwise
/// one insert; identifier allocation may be exhausted, which leaves the
/// store unchanged.
pub open spec fn create_step(
    pre: StoreV,
    post: StoreV,
    name: Seq<char>,
    r: Result<Option<i64>, Error>,
) -> bool {
    if has_playlist(pre, name) {
        &&& post == pre
        &&& r == Ok::<Option<i64>, Error>(None)
    } else {
        match r {
            Ok(opt) => {
                &&& opt matches Some(u) && u == pre.counter + 1
                &&& playlist_inserted(pre, post, name)
            },
            Err(e) => e == Error::AllocationExhausted && post == pre,
        }
    }
}

/// The store with a membership row appended and the counter advanced.
pub open spec fn with_member(s: StoreV, row: MemberV) -> StoreV {
    StoreV { counter: s.counter + 1, members: s.members.push(row), ..s }
}

/// The shape of a freshly inserted membership row: it joins `cid` to the
/// playlist named `name` and takes the next track number in it.
pub open spec fn member_row_shape(s: StoreV, row: MemberV, name: Seq<char>, cid: Seq<char>) -> bool {
    &&& playlist_named(s, row.playlist_id, name)
    &&& row.content_id == cid
    &&& row.usn == s.counter + 1
    &&& row.track_no == max_track_no(s.members, row.playlist_id) + 1
    &&& row.created_at == row.updated_at
}

/// `post` is `pre` with one fresh membership row for (`name`, `cid`).
pub open spec fn member_inserted(pre: StoreV, post: StoreV, name: Seq<char>, cid: Seq<char>) -> bool {
    exists|row: MemberV| #[trigger] member_row_shape(pre, row, name, cid) && post == with_member(
        pre,
        row,
    )
}

/// The insert happens only when the named playlist exists, the content
/// row exists, and the pair is not yet a member.
pub open spec fn can_add(s: StoreV, name: Seq<char>, cid: Seq<char>) -> bool {
    &&& has_content(s, cid)
    &&& exists|pid: Seq<char>| #[trigger] playlist_named(s, pid, name) && !is_member(s, pid, cid)
}

/// Idempotent, order-preserving playlist insertion.
pub open spec fn add_step(
    pre: StoreV,
    post: StoreV,
    name: Seq<char>,
    cid: Seq<char>,
    r: Option<i64>,
) -> bool {
    if can_add(pre, name, cid) {
        &&& r matches Some(u) && u == pre.counter + 1
        &&& member_inserted(pre, post, name, cid)
    } else {
        &&& post == pre
        &&& r is None
    }
}

/// The tag rows associated with `cid`, in vocabulary order, as listed by
/// the tag query before sorting.
pub open spec fn listed_tags(s: StoreV, cid: Seq<char>) -> Seq<TagV> {
    s.tags.filter(|t: TagV| has_assoc(s, cid, t.id))
}

/// Exactly one association row joins `cid` to the tag named `name`.
pub open spec fn exactly_one_assoc(s: StoreV, cid: Seq<char>, name: Seq<char>) -> bool {
    exists|k: int|
        0 <= k < s.assocs.len() && #[trigger] assoc_named(s, s.assocs[k], cid, name) && forall|
            j: int,
        |
            0 <= j < s.assocs.len() && j != k ==> !assoc_named(s, #[trigger] s.assocs[j], cid, name)
}

/// Exactly one playlist row carries the name `name`.
pub open spec fn exactly_one_playlist(s: StoreV, name: Seq<char>) -> bool {
    exists|k: int|
        0 <= k < s.playlists.len() && #[trigger] s.playlists[k].name == name && forall|j: int|
            0 <= j < s.playlists.len() && j != k ==> (#[trigger] s.playlists[j].name) != name
}

/// Exactly one membership row joins `cid` to playlist `pid`, and it holds
/// the track number `track`.
pub open spec fn exactly_one_member_at(s: StoreV, pid: Seq<char>, cid: Seq<char>, track: int) -> bool {
    exists|k: int|
        0 <= k < s.members.len() && (#[trigger] s.members[k].playlist_id) == pid
            && s.members[k].content_id == cid && s.members[k].track_no == track && forall|j: int|
            0 <= j < s.members.len() && j != k ==> !((#[trigger] s.members[j].playlist_id) == pid
                && s.members[j].content_id == cid)
}

/// The identifier column of the playlist table.
pub open spec fn playlist_ids_of(s: StoreV) -> Seq<Seq<char>> {
    Seq::new(s.playlists.len(), |k: int| s.playlists[k].id)
}

/// Some vocabulary tag already uses the identifier `id`.
pub open spec fn tag_id_taken(s: StoreV, id: Seq<char>) -> bool {
    exists|k: int| 0 <= k < s.tags.len() && #[trigger] s.tags[k].id == id
}

/// The caller-visible part of a stored track row.
pub open spec fn content_info(c: ContentRowV) -> ContentV {
    ContentV { id: c.id, file_name: c.file_name, rating: c.rating }
}

/// Row `k` answers a path lookup for `pat`.
pub open spec fn path_matches(s: StoreV, pat: Seq<char>, k: int) -> bool {
    0 <= k < s.contents.len() && contains_ci(s.contents[k].folder_path, pat)
}

/// Row `k` is the first row answering a path lookup for `pat`.
pub open spec fn first_path_match(s: StoreV, pat: Seq<char>, k: int) -> bool {
    path_matches(s, pat, k) && forall|j: int| 0 <= j < k ==> !path_matches(s, pat, j)
}

/// The pattern a filename lookup for `id` really searches for: the
/// identifier in square brackets.
pub open spec fn bracketed(id: Seq<char>) -> Seq<char> {
    seq!['['] + id + seq![']']
}

/// Row `k` answers a filename lookup for `id`.
pub open spec fn file_matches(s: StoreV, id: Seq<char>, k: int) -> bool {
    0 <= k < s.contents.len() && contains_ci(s.contents[k].file_name, bracketed(id))
}

/// Row `k` is the first row answering a filename lookup for `id`.
pub open spec fn first_file_match(s: StoreV, id: Seq<char>, k: int) -> bool {
    file_matches(s, id, k) && forall|j: int| 0 <= j < k ==> !file_matches(s, id, j)
}

/// The names of the listed tag rows.
pub open spec fn tag_names(ts: Seq<TagV>) -> Seq<Seq<char>> {
    ts.map_values(|t: TagV| t.name)
}

/// The name sequence is in ascending lexicographic order.
pub open spec fn sorted_names(ns: Seq<Seq<char>>) -> bool {
    forall|i: int, j: int| 0 <= i < j < ns.len() ==> lex_le(#[trigger] ns[i], #[trigger] ns[j])
}

/// A store holding nothing but the counter, the state of a fresh model.
pub open spec fn empty_store(counter: int) -> StoreV {
    StoreV {
        counter,
        contents: Seq::empty(),
        tags: Seq::empty(),
        assocs: Seq::empty(),
        playlists: Seq::empty(),
        members: Seq::empty(),
    }
}

/// Filtering with a predicate that holds everywhere keeps the sequence.
pub proof fn lemma_filter_all<A>(s: Seq<A>, p: spec_fn(A) -> bool)
    requires
        forall|i: int| 0 <= i < s.len() ==> p(#[trigger] s[i]),
    ensures
        s.filter(p) == s,
    decreases s.len(),
{
    reveal(Seq::filter);
    if s.len() > 0 {
        lemma_filter_all(s.drop_last(), p);
        assert(p(s[s.len() - 1]));
        assert(s.filter(p) =~= s);
    }
}

/// Every element of a filtered sequence stands somewhere in the original.
pub proof fn lemma_filter_subset<A>(s: Seq<A>, p: spec_fn(A) -> bool)
    ensures
        forall|i: int|
            0 <= i < s.filter(p).len() ==> exists|k: int|
                0 <= k < s.len() && s[k] == #[trigger] s.filter(p)[i],
    decreases s.len(),
{
    reveal(Seq::filter);
    if s.len() > 0 {
        let sub = s.drop_last();
        lemma_filter_subset(sub, p);
        assert forall|i: int| 0 <= i < s.filter(p).len() implies exists|k: int|
            0 <= k < s.len() && s[k] == #[trigger] s.filter(p)[i] by {
            if p(s.last()) && i == s.filter(p).len() - 1 {
                assert(s.filter(p) == sub.filter(p).push(s.last()));
                assert(s[s.len() - 1] == s.filter(p)[i]);
            } else {
                assert(s.filter(p)[i] == sub.filter(p)[i]);
                let k = choose|k: int| 0 <= k < sub.len() && sub[k] == sub.filter(p)[i];
                assert(s[k] == s.filter(p)[i]);
            }
        }
    }
}

/// Filtering preserves any pairwise property of the sequence.
pub proof fn lemma_filter_pairwise<A>(s: Seq<A>, p: spec_fn(A) -> bool, q: spec_fn(A, A) -> bool)
    requires
        forall|i: int, j: int| 0 <= i < j < s.len() ==> q(#[trigger] s[i], #[trigger] s[j]),
    ensures
        forall|i: int, j: int|
            0 <= i < j < s.filter(p).len() ==> q(#[trigger] s.filter(p)[i], #[trigger] s.filter(p)[j]),
    decreases s.len(),
{
    reveal(Seq::filter);
    if s.len() > 0 {
        let sub = s.drop_last();
        lemma_filter_pairwise(sub, p, q);
        lemma_filter_subset(sub, p);
        assert forall|i: int, j: int|
            0 <= i < j < s.filter(p).len() implies q(#[trigger] s.filter(p)[i], #[trigger] s.filter(p)[j]) by {
            if p(s.last()) && j == s.filter(p).len() - 1 {
                assert(s.filter(p) == sub.filter(p).push(s.last()));
                assert(s.filter(p)[i] == sub.filter(p)[i]);
                let k = choose|k: int| 0 <= k < sub.len() && sub[k] == sub.filter(p)[i];
                assert(q(s[k], s[s.len() - 1]));
                assert(s.filter(p)[j] == s[s.len() - 1]);
            } else {
                assert(s.filter(p)[i] == sub.filter(p)[i]);
                assert(s.filter(p)[j] == sub.filter(p)[j]);
            }
        }
    }
}

/// The running maximum of root sibling positions stays within any bound
/// that holds of every row.
pub proof fn lemma_max_root_seq_bounds(ps: Seq<PlaylistV>, bound: int)
    requires
        0 <= bound,
        forall|k: int| 0 <= k < ps.len() ==> #[trigger] ps[k].seq_no <= bound,
    ensures
        0 <= max_root_seq(ps) <= bound,
    decreases ps.len(),
{
    if ps.len() > 0 {
        lemma_max_root_seq_bounds(ps.drop_last(), bound);
        assert(ps[ps.len() - 1].seq_no <= bound);
    }
}

/// The running maximum of track numbers stays within any bound that holds
/// of every row.
pub proof fn lemma_max_track_no_bounds(ms: Seq<MemberV>, pid: Seq<char>, bound: int)
    requires
        0 <= bound,
        forall|k: int| 0 <= k < ms.len() ==> #[trigger] ms[k].track_no <= bound,
    ensures
        0 <= max_track_no(ms, pid) <= bound,
    decreases ms.len(),
{
    if ms.len() > 0 {
        lemma_max_track_no_bounds(ms.drop_last(), pid, bound);
        assert(ms[ms.len() - 1].track_no <= bound);
    }
}

} // verus!
