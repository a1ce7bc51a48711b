//! The laws of the consistency core, proved from the step relations in
//! [`crate::model`] alone: what a run of the sequence allocator returns,
//! that every mutation preserves well-formedness, and that tag assignment,
//! playlist creation and playlist insertion are idempotent.

use vstd::prelude::*;

use crate::model::{
    add_step, assoc_named, can_add, create_step, exactly_one_assoc, exactly_one_member_at,
    exactly_one_playlist, has_assoc, has_playlist, has_tag, is_member, is_tagged,
    lemma_max_root_seq_bounds, lemma_max_track_no_bounds, max_track_no, member_row_shape,
    playlist_named, playlist_row_shape, tag_id_matches, tag_row_shape, tag_step, untag_step,
    usn_step, wf, with_assoc, with_member, with_playlist, AssocV, MemberV, PlaylistV, StoreV,
};
use crate::Error;

verus! {

/// Any two association rows joining `cid` to the tag named `name` use the
/// same tag identifier: tag names are unique in a well-formed store.
proof fn lemma_named_assocs_share_tid(s: StoreV, a: AssocV, b: AssocV, cid: Seq<char>, name: Seq<char>)
    requires
        wf(s),
        assoc_named(s, a, cid, name),
        assoc_named(s, b, cid, name),
    ensures
        a.tag_id == b.tag_id,
{
    let k1 = choose|k: int|
        0 <= k < s.tags.len() && #[trigger] s.tags[k].name == name && s.tags[k].id == a.tag_id;
    let k2 = choose|k: int|
        0 <= k < s.tags.len() && #[trigger] s.tags[k].name == name && s.tags[k].id == b.tag_id;
    if k1 != k2 {
        assert(s.tags[k1].name == s.tags[k2].name);
        assert(false);
    }
}

/// Any two playlists named `name` are the same playlist: names are unique
/// in a well-formed store.
proof fn lemma_named_playlist_unique(s: StoreV, p1: Seq<char>, p2: Seq<char>, name: Seq<char>)
    requires
        wf(s),
        playlist_named(s, p1, name),
        playlist_named(s, p2, name),
    ensures
        p1 == p2,
{
    let k1 = choose|k: int|
        0 <= k < s.playlists.len() && #[trigger] s.playlists[k].name == name && s.playlists[k].id
            == p1;
    let k2 = choose|k: int|
        0 <= k < s.playlists.len() && #[trigger] s.playlists[k].name == name && s.playlists[k].id
            == p2;
    if k1 != k2 {
        assert(s.playlists[k1].name == s.playlists[k2].name);
        assert(false);
    }
}

/// A tag assignment step keeps the store well-formed and moves nothing but
/// the counter and the association table.
pub proof fn lemma_tag_step_wf(
    s0: StoreV,
    s1: StoreV,
    cid: Seq<char>,
    name: Seq<char>,
    r: Option<i64>,
)
    requires
        wf(s0),
        tag_step(s0, s1, cid, name, r),
    ensures
        wf(s1),
        s0.counter <= s1.counter <= s0.counter + 1,
        s1.tags == s0.tags,
        s1.contents == s0.contents,
        s1.playlists == s0.playlists,
        s1.members == s0.members,
{
    if !(is_tagged(s0, cid, name) || !has_tag(s0, name)) {
        let row = choose|row: AssocV|
            #[trigger] tag_row_shape(s0, row, cid, name) && s1 == with_assoc(s0, row);
        assert(s1.assocs == s0.assocs.push(row));
        assert forall|i: int, j: int|
            0 <= i < j < s1.assocs.len() implies !(#[trigger] s1.assocs[i].content_id
            == #[trigger] s1.assocs[j].content_id && s1.assocs[i].tag_id
            == s1.assocs[j].tag_id) by {
            if j == s1.assocs.len() - 1 {
                assert(s1.assocs[i] == s0.assocs[i]);
                assert(s1.assocs[j] == row);
                if s0.assocs[i].content_id == cid && s0.assocs[i].tag_id == row.tag_id {
                    assert(has_assoc(s0, cid, row.tag_id));
                    assert(is_tagged(s0, cid, name));
                    assert(false);
                }
            } else {
                assert(s1.assocs[i] == s0.assocs[i]);
                assert(s1.assocs[j] == s0.assocs[j]);
            }
        }
    }
}

/// Idempotence of tag assignment: a second call with the same track and
/// tag name changes nothing and reports no change; across both calls the
/// counter advances at most once, and exactly one association row exists
/// afterwards whenever the tag name is in the vocabulary.
pub proof fn lemma_tag_idempotent(
    s0: StoreV,
    s1: StoreV,
    s2: StoreV,
    cid: Seq<char>,
    name: Seq<char>,
    r1: Option<i64>,
    r2: Option<i64>,
)
    requires
        wf(s0),
        tag_step(s0, s1, cid, name, r1),
        tag_step(s1, s2, cid, name, r2),
    ensures
        s2 == s1,
        r2 is None,
        s0.counter <= s2.counter <= s0.counter + 1,
        has_tag(s0, name) ==> exactly_one_assoc(s2, cid, name),
        !has_tag(s0, name) ==> s2 == s0,
{
    lemma_tag_step_wf(s0, s1, cid, name, r1);
    if is_tagged(s0, cid, name) || !has_tag(s0, name) {
        assert(s1 == s0);
        assert(s2 == s1 && r2 is None);
    } else {
        let row = choose|row: AssocV|
            #[trigger] tag_row_shape(s0, row, cid, name) && s1 == with_assoc(s0, row);
        let k = choose|k: int|
            0 <= k < s0.tags.len() && #[trigger] s0.tags[k].name == name && s0.tags[k].id
                == row.tag_id;
        assert(s1.tags[k].name == name && s1.tags[k].id == row.tag_id);
        assert(tag_id_matches(s1, row.tag_id, name));
        assert(s1.assocs[s0.assocs.len() as int] == row);
        assert(has_assoc(s1, cid, row.tag_id));
        assert(is_tagged(s1, cid, name));
        assert(s2 == s1 && r2 is None);
    }
    if has_tag(s0, name) {
        if is_tagged(s0, cid, name) {
            let tid = choose|tid: Seq<char>|
                #[trigger] tag_id_matches(s0, tid, name) && has_assoc(s0, cid, tid);
            let a = choose|a: int|
                0 <= a < s0.assocs.len() && #[trigger] s0.assocs[a].content_id == cid
                    && s0.assocs[a].tag_id == tid;
            assert(s2 == s0);
            assert(assoc_named(s2, s2.assocs[a], cid, name));
            assert forall|j: int|
                0 <= j < s2.assocs.len() && j != a implies !assoc_named(
                s2,
                #[trigger] s2.assocs[j],
                cid,
                name,
            ) by {
                if assoc_named(s2, s2.assocs[j], cid, name) {
                    lemma_named_assocs_share_tid(s2, s2.assocs[j], s2.assocs[a], cid, name);
                    if j < a {
                        assert(!(s2.assocs[j].content_id == s2.assocs[a].content_id
                            && s2.assocs[j].tag_id == s2.assocs[a].tag_id));
                    } else {
                        assert(!(s2.assocs[a].content_id == s2.assocs[j].content_id
                            && s2.assocs[a].tag_id == s2.assocs[j].tag_id));
                    }
                    assert(false);
                }
            }
            assert(exactly_one_assoc(s2, cid, name));
        } else {
            let row = choose|row: AssocV|
                #[trigger] tag_row_shape(s0, row, cid, name) && s1 == with_assoc(s0, row);
            let a = s0.assocs.len() as int;
            assert(s2.assocs[a] == row);
            assert(tag_id_matches(s2, row.tag_id, name)) by {
                let k = choose|k: int|
                    0 <= k < s0.tags.len() && #[trigger] s0.tags[k].name == name && s0.tags[k].id
                        == row.tag_id;
                assert(s2.tags[k].name == name && s2.tags[k].id == row.tag_id);
            }
            assert(assoc_named(s2, s2.assocs[a], cid, name));
            assert forall|j: int|
                0 <= j < s2.assocs.len() && j != a implies !assoc_named(
                s2,
                #[trigger] s2.assocs[j],
                cid,
                name,
            ) by {
                if assoc_named(s2, s2.assocs[j], cid, name) {
                    assert(j < a);
                    assert(s2.assocs[j] == s0.assocs[j]);
                    let kj = choose|kj: int|
                        0 <= kj < s2.tags.len() && #[trigger] s2.tags[kj].name == name
                            && s2.tags[kj].id == s2.assocs[j].tag_id;
                    assert(s0.tags[kj].name == name && s0.tags[kj].id == s0.assocs[j].tag_id);
                    assert(tag_id_matches(s0, s0.assocs[j].tag_id, name));
                    assert(has_assoc(s0, cid, s0.assocs[j].tag_id));
                    assert(is_tagged(s0, cid, name));
                    assert(false);
                }
            }
            assert(exactly_one_assoc(s2, cid, name));
        }
    }
}

/// Removing a tag that is not associated is a no-op: no error, no counter
/// change, and the association table is untouched.
pub proof fn lemma_untag_absent_noop(s0: StoreV, s1: StoreV, cid: Seq<char>, name: Seq<char>)
    requires
        wf(s0),
        untag_step(s0, s1, cid, name),
        !is_tagged(s0, cid, name),
    ensures
        s1 == s0,
{
    let keep = |a: AssocV| !assoc_named(s0, a, cid, name);
    assert forall|i: int| 0 <= i < s0.assocs.len() implies keep(#[trigger] s0.assocs[i]) by {
        if assoc_named(s0, s0.assocs[i], cid, name) {
            assert(has_assoc(s0, cid, s0.assocs[i].tag_id));
            assert(is_tagged(s0, cid, name));
        }
    }
    crate::model::lemma_filter_all(s0.assocs, keep);
    assert(s1 =~= s0);
}

/// A playlist insertion step keeps the store well-formed and moves nothing
/// but the counter and the membership table.
pub proof fn lemma_add_step_wf(
    s0: StoreV,
    s1: StoreV,
    name: Seq<char>,
    cid: Seq<char>,
    r: Option<i64>,
)
    requires
        wf(s0),
        add_step(s0, s1, name, cid, r),
    ensures
        wf(s1),
        s0.counter <= s1.counter <= s0.counter + 1,
        s1.tags == s0.tags,
        s1.contents == s0.contents,
        s1.playlists == s0.playlists,
        s1.assocs == s0.assocs,
{
    if can_add(s0, name, cid) {
        let row = choose|row: MemberV|
            #[trigger] member_row_shape(s0, row, name, cid) && s1 == with_member(s0, row);
        let pid = choose|pid: Seq<char>|
            #[trigger] playlist_named(s0, pid, name) && !is_member(s0, pid, cid);
        lemma_named_playlist_unique(s0, row.playlist_id, pid, name);
        assert(s1.members == s0.members.push(row));
        assert forall|i: int, j: int|
            0 <= i < j < s1.members.len() implies !(#[trigger] s1.members[i].playlist_id
            == #[trigger] s1.members[j].playlist_id && s1.members[i].content_id
            == s1.members[j].content_id) by {
            if j == s1.members.len() - 1 {
                assert(s1.members[i] == s0.members[i]);
                assert(s1.members[j] == row);
                if s0.members[i].playlist_id == row.playlist_id && s0.members[i].content_id
                    == cid {
                    assert(is_member(s0, pid, cid));
                    assert(false);
                }
            } else {
                assert(s1.members[i] == s0.members[i]);
                assert(s1.members[j] == s0.members[j]);
            }
        }
        lemma_max_track_no_bounds(s0.members, row.playlist_id, s0.members.len() as int);
        assert forall|k: int|
            0 <= k < s1.members.len() implies 1 <= #[trigger] s1.members[k].track_no
            <= s1.members.len() by {
            if k < s1.members.len() - 1 {
                assert(s1.members[k] == s0.members[k]);
            }
        }
    }
}

/// Idempotence of playlist insertion: a second call with the same playlist
/// name and track changes nothing and reports no change, and when the
/// first call could insert, exactly one membership row joins the pair
/// afterwards, still carrying the track number assigned at insertion:
/// one past the largest track number the playlist held before.
pub proof fn lemma_playlist_add_idempotent(
    s0: StoreV,
    s1: StoreV,
    s2: StoreV,
    name: Seq<char>,
    cid: Seq<char>,
    r1: Option<i64>,
    r2: Option<i64>,
)
    requires
        wf(s0),
        add_step(s0, s1, name, cid, r1),
        add_step(s1, s2, name, cid, r2),
    ensures
        s2 == s1,
        r2 is None,
        s0.counter <= s2.counter <= s0.counter + 1,
        can_add(s0, name, cid) ==> forall|pid: Seq<char>|
            #[trigger] playlist_named(s0, pid, name) ==> exactly_one_member_at(
                s2,
                pid,
                cid,
                max_track_no(s0.members, pid) + 1,
            ),
        !can_add(s0, name, cid) ==> s2 == s0,
{
    lemma_add_step_wf(s0, s1, name, cid, r1);
    if can_add(s0, name, cid) {
        let row = choose|row: MemberV|
            #[trigger] member_row_shape(s0, row, name, cid) && s1 == with_member(s0, row);
        let a = s0.members.len() as int;
        assert(s1.members[a] == row);
        assert(playlist_named(s1, row.playlist_id, name)) by {
            let k = choose|k: int|
                0 <= k < s0.playlists.len() && #[trigger] s0.playlists[k].name == name
                    && s0.playlists[k].id == row.playlist_id;
            assert(s1.playlists[k].name == name && s1.playlists[k].id == row.playlist_id);
        }
        assert(!can_add(s1, name, cid)) by {
            if can_add(s1, name, cid) {
                let pid2 = choose|pid2: Seq<char>|
                    #[trigger] playlist_named(s1, pid2, name) && !is_member(s1, pid2, cid);
                lemma_named_playlist_unique(s1, pid2, row.playlist_id, name);
                assert(is_member(s1, pid2, cid));
                assert(false);
            }
        }
        assert(s2 == s1 && r2 is None);
        assert forall|pid: Seq<char>| #[trigger] playlist_named(s0, pid, name) implies
            exactly_one_member_at(s2, pid, cid, max_track_no(s0.members, pid) + 1) by {
            let pid0 = choose|pid0: Seq<char>|
                #[trigger] playlist_named(s0, pid0, name) && !is_member(s0, pid0, cid);
            lemma_named_playlist_unique(s0, pid, pid0, name);
            lemma_named_playlist_unique(s0, pid, row.playlist_id, name);
            assert(s2.members[a].playlist_id == pid && s2.members[a].content_id == cid
                && s2.members[a].track_no == max_track_no(s0.members, pid) + 1);
            assert forall|j: int|
                0 <= j < s2.members.len() && j != a implies !((#[trigger] s2.members[j].playlist_id)
                == pid && s2.members[j].content_id == cid) by {
                if j < a && s2.members[j].playlist_id == pid && s2.members[j].content_id == cid {
                    assert(s2.members[j] == s0.members[j]);
                    assert(is_member(s0, pid, cid));
                    assert(false);
                }
            }
        }
    } else {
        assert(s1 == s0);
        assert(s2 == s1 && r2 is None);
    }
}

/// A playlist creation step keeps the store well-formed and moves nothing
/// but the counter and the playlist table.
pub proof fn lemma_create_step_wf(
    s0: StoreV,
    s1: StoreV,
    name: Seq<char>,
    r: Result<Option<i64>, Error>,
)
    requires
        wf(s0),
        create_step(s0, s1, name, r),
    ensures
        wf(s1),
        s0.counter <= s1.counter <= s0.counter + 1,
        s1.tags == s0.tags,
        s1.contents == s0.contents,
        s1.assocs == s0.assocs,
        s1.members == s0.members,
{
    if !has_playlist(s0, name) && r is Ok {
        let row = choose|row: PlaylistV|
            #[trigger] playlist_row_shape(s0, row, name) && s1 == with_playlist(s0, row);
        assert(s1.playlists == s0.playlists.push(row));
        assert forall|i: int, j: int|
            0 <= i < j < s1.playlists.len() implies #[trigger] s1.playlists[i].id
            != #[trigger] s1.playlists[j].id by {
            if j == s1.playlists.len() - 1 {
                assert(s1.playlists[i] == s0.playlists[i]);
                if s0.playlists[i].id == row.id {
                    assert(crate::model::playlist_id_taken(s0, row.id));
                }
            } else {
                assert(s1.playlists[i] == s0.playlists[i]);
                assert(s1.playlists[j] == s0.playlists[j]);
            }
        }
        assert forall|i: int, j: int|
            0 <= i < j < s1.playlists.len() implies s1.playlists[i].name
            != s1.playlists[j].name by {
            if j == s1.playlists.len() - 1 {
                assert(s1.playlists[i] == s0.playlists[i]);
                if s0.playlists[i].name == name {
                    assert(has_playlist(s0, name));
                }
            } else {
                assert(s1.playlists[i] == s0.playlists[i]);
                assert(s1.playlists[j] == s0.playlists[j]);
            }
        }
        lemma_max_root_seq_bounds(s0.playlists, s0.playlists.len() as int);
        assert forall|k: int|
            0 <= k < s1.playlists.len() implies 1 <= #[trigger] s1.playlists[k].seq_no
            <= s1.playlists.len() by {
            if k < s1.playlists.len() - 1 {
                assert(s1.playlists[k] == s0.playlists[k]);
            }
        }
    }
}

/// Idempotence of playlist creation: once a call has succeeded, a second
/// call with the same name changes nothing, reports the name as already
/// present, and exactly one playlist row carries the name.
pub proof fn lemma_playlist_create_idempotent(
    s0: StoreV,
    s1: StoreV,
    s2: StoreV,
    name: Seq<char>,
    r1: Result<Option<i64>, Error>,
    r2: Result<Option<i64>, Error>,
)
    requires
        wf(s0),
        create_step(s0, s1, name, r1),
        create_step(s1, s2, name, r2),
        r1 is Ok,
    ensures
        s2 == s1,
        r2 == Ok::<Option<i64>, Error>(None),
        s0.counter <= s2.counter <= s0.counter + 1,
        exactly_one_playlist(s2, name),
    {
    lemma_create_step_wf(s0, s1, name, r1);
    if has_playlist(s0, name) {
        assert(s1 == s0);
        let k = choose|k: int|
            0 <= k < s0.playlists.len() && #[trigger] s0.playlists[k].name == name;
        assert(has_playlist(s1, name));
        assert(s2 == s1);
        assert(s2.playlists[k].name == name);
        assert forall|j: int|
            0 <= j < s2.playlists.len() && j != k implies (#[trigger] s2.playlists[j].name)
            != name by {
            if s2.playlists[j].name == name {
                assert(s2.playlists[j].name == s2.playlists[k].name);
                assert(false);
            }
        }
        assert(exactly_one_playlist(s2, name));
    } else {
        let row = choose|row: PlaylistV|
            #[trigger] playlist_row_shape(s0, row, name) && s1 == with_playlist(s0, row);
        let k = s0.playlists.len() as int;
        assert(s1.playlists[k] == row);
        assert(has_playlist(s1, name));
        assert(s2 == s1);
        assert(s2.playlists[k].name == name);
        assert forall|j: int|
            0 <= j < s2.playlists.len() && j != k implies (#[trigger] s2.playlists[j].name)
            != name by {
            if j < k && s2.playlists[j].name == name {
                assert(s2.playlists[j] == s0.playlists[j]);
                assert(has_playlist(s0, name));
                assert(false);
            }
        }
        assert(exactly_one_playlist(s2, name));
    }
}

/// A run of the sequence allocator: starting from the counter value held
/// in the first state, a chain of allocation steps leaves the counter
/// advanced by exactly the number of steps, and the returned values are
/// the consecutive integers after the starting value — all distinct and
/// all strictly greater than it.
pub proof fn lemma_sequence_allocator(states: Seq<StoreV>, rs: Seq<i64>)
    requires
        states.len() == rs.len() + 1,
        forall|i: int| 0 <= i < rs.len() ==> usn_step(states[i], states[i + 1], #[trigger] rs[i]),
    ensures
        states[states.len() - 1].counter == states[0].counter + rs.len(),
        forall|i: int| 0 <= i < rs.len() ==> #[trigger] rs[i] == states[0].counter + i + 1,
        forall|i: int, j: int| 0 <= i < j < rs.len() ==> rs[i] != rs[j],
        forall|i: int| 0 <= i < rs.len() ==> #[trigger] rs[i] > states[0].counter,
    decreases rs.len(),
{
    if rs.len() > 0 {
        let n = rs.len() as int;
        let sd = states.drop_last();
        let rd = rs.drop_last();
        assert forall|i: int| 0 <= i < rd.len() implies usn_step(sd[i], sd[i + 1], #[trigger] rd[i]) by {
            assert(rd[i] == rs[i]);
            assert(sd[i] == states[i]);
            assert(sd[i + 1] == states[i + 1]);
            assert(usn_step(states[i], states[i + 1], rs[i]));
        }
        lemma_sequence_allocator(sd, rd);
        assert(sd[sd.len() - 1] == states[n - 1]);
        assert(usn_step(states[n - 1], states[n], rs[n - 1]));
        assert forall|i: int| 0 <= i < rs.len() implies #[trigger] rs[i] == states[0].counter + i
            + 1 by {
            if i < n - 1 {
                assert(rd[i] == rs[i]);
            }
        }
    }
}

} // verus!
