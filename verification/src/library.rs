//! The verified consistency core.  A [`Library`] value holds the modelled
//! slice of the store — the change counter and the five tables — and its
//! methods are the mutations and lookups of the public surface, each with
//! a contract over the model in [`crate::model`].

use vstd::prelude::*;

use crate::model::{
    add_step, assoc_named, bracketed, can_add, clear_step, content_info, create_step, empty_store,
    file_matches, first_file_match, first_path_match, has_assoc, has_content, has_playlist,
    has_tag, is_allocated_id, is_member, is_tagged, lemma_filter_all, lemma_filter_pairwise,
    lemma_max_root_seq_bounds, lemma_max_track_no_bounds, listed_tags, max_root_seq, max_track_no,
    member_row_shape, path_matches, playlist_id_taken, playlist_named, playlist_row_shape,
    rate_step, sorted_names, tag_id_matches, tag_id_taken, tag_names, tag_row_shape,
    tag_step, untag_step, usn_step, wf, with_assoc, with_counter, with_member, with_playlist,
    AssocV, ContentRowV, ContentV, MemberV, PlaylistV, StoreV, TagV,
};
use crate::strings::{lex_le, str_contains_ci, str_eq, str_le};
use vstd::string::StringExecFns;
use crate::Error;

verus! {

/// A track record as handed to callers and taken by the mutations.
#[derive(Debug)]
#[allow(non_snake_case)]
pub struct Content {
    pub ID: String,
    pub FileNameL: String,
    pub Rating: i64,
}

impl View for Content {
    type V = ContentV;

    open spec fn view(&self) -> ContentV {
        ContentV { id: self.ID@, file_name: self.FileNameL@, rating: self.Rating as int }
    }
}

/// A tag as listed for a track: the row identifier of the association and
/// the tag's name.
#[derive(Debug)]
#[allow(non_snake_case)]
pub struct Tag {
    ID: String,
    pub Name: String,
}

impl View for Tag {
    type V = TagV;

    closed spec fn view(&self) -> TagV {
        TagV { id: self.ID@, name: self.Name@ }
    }
}

/// The names carried by a listed tag sequence, in listing order.
pub open spec fn listed_names(ts: Seq<Tag>) -> Seq<Seq<char>> {
    Seq::new(ts.len(), |k: int| ts[k]@.name)
}

struct ContentRow {
    id: String,
    file_name_l: String,
    folder_path: String,
    rating: i64,
}

impl View for ContentRow {
    type V = ContentRowV;

    closed spec fn view(&self) -> ContentRowV {
        ContentRowV {
            id: self.id@,
            file_name: self.file_name_l@,
            folder_path: self.folder_path@,
            rating: self.rating as int,
        }
    }
}

struct TagRow {
    id: String,
    name: String,
}

impl View for TagRow {
    type V = TagV;

    closed spec fn view(&self) -> TagV {
        TagV { id: self.id@, name: self.name@ }
    }
}

struct AssocRow {
    id: String,
    tag_id: String,
    content_id: String,
    uuid: String,
    usn: i64,
    created_at: String,
    updated_at: String,
}

impl View for AssocRow {
    type V = AssocV;

    closed spec fn view(&self) -> AssocV {
        AssocV {
            id: self.id@,
            tag_id: self.tag_id@,
            content_id: self.content_id@,
            uuid: self.uuid@,
            usn: self.usn as int,
            created_at: self.created_at@,
            updated_at: self.updated_at@,
        }
    }
}

struct PlaylistRow {
    seq_no: i64,
    id: String,
    name: String,
    attribute: i64,
    parent_id: String,
    uuid: String,
    usn: i64,
    created_at: String,
    updated_at: String,
}

impl View for PlaylistRow {
    type V = PlaylistV;

    closed spec fn view(&self) -> PlaylistV {
        PlaylistV {
            seq_no: self.seq_no as int,
            id: self.id@,
            name: self.name@,
            attribute: self.attribute as int,
            parent_id: self.parent_id@,
            uuid: self.uuid@,
            usn: self.usn as int,
            created_at: self.created_at@,
            updated_at: self.updated_at@,
        }
    }
}

struct MemberRow {
    id: String,
    playlist_id: String,
    content_id: String,
    uuid: String,
    created_at: String,
    updated_at: String,
    usn: i64,
    track_no: i64,
}

impl View for MemberRow {
    type V = MemberV;

    closed spec fn view(&self) -> MemberV {
        MemberV {
            id: self.id@,
            playlist_id: self.playlist_id@,
            content_id: self.content_id@,
            uuid: self.uuid@,
            created_at: self.created_at@,
            updated_at: self.updated_at@,
            usn: self.usn as int,
            track_no: self.track_no as int,
        }
    }
}

/// The modelled library: the change counter and the five tables the
/// consistency core reads and writes.
pub struct Library {
    counter: i64,
    contents: Vec<ContentRow>,
    tags: Vec<TagRow>,
    assocs: Vec<AssocRow>,
    playlists: Vec<PlaylistRow>,
    members: Vec<MemberRow>,
}

impl View for Library {
    type V = StoreV;

    closed spec fn view(&self) -> StoreV {
        StoreV {
            counter: self.counter as int,
            contents: self.contents@.map_values(|r: ContentRow| r@),
            tags: self.tags@.map_values(|r: TagRow| r@),
            assocs: self.assocs@.map_values(|r: AssocRow| r@),
            playlists: self.playlists@.map_values(|r: PlaylistRow| r@),
            members: self.members@.map_values(|r: MemberRow| r@),
        }
    }
}

impl Library {
    /// The library's invariant: its model is a well-formed store.
    pub open spec fn inv(&self) -> bool {
        wf(self@)
    }

    /// An empty library whose change counter starts at `counter`.
    pub fn new(counter: i64) -> (r: Library)
        ensures
            r@ == empty_store(counter as int),
            r.inv(),
    {
        let r = Library {
            counter,
            contents: Vec::new(),
            tags: Vec::new(),
            assocs: Vec::new(),
            playlists: Vec::new(),
            members: Vec::new(),
        };
        proof {
            assert(r@ =~= empty_store(counter as int));
        }
        r
    }

    /// The current value of the change counter.
    pub fn current_usn(&self) -> (r: i64)
        ensures
            r == self@.counter,
    {
        self.counter
    }

    /// Install a track row of the host schema.  Content rows are owned by
    /// the host application; the core only reads them and updates ratings.
    pub fn add_content(
        &mut self,
        id: String,
        file_name_l: String,
        folder_path: String,
        rating: i64,
    )
        requires
            old(self).inv(),
            !has_content(old(self)@, id@),
        ensures
            final(self).inv(),
            final(self)@ == (StoreV {
                contents: old(self)@.contents.push(
                    ContentRowV {
                        id: id@,
                        file_name: file_name_l@,
                        folder_path: folder_path@,
                        rating: rating as int,
                    },
                ),
                ..old(self)@
            }),
    {
        let ghost pre = self@;
        let ghost rowv = ContentRowV {
            id: id@,
            file_name: file_name_l@,
            folder_path: folder_path@,
            rating: rating as int,
        };
        let row = ContentRow { id, file_name_l, folder_path, rating };
        self.contents.push(row);
        proof {
            assert(self@.contents =~= pre.contents.push(rowv));
            assert(self@ =~= (StoreV { contents: pre.contents.push(rowv), ..pre }));
            assert forall|i: int, j: int|
                0 <= i < j < self@.contents.len() implies #[trigger] self@.contents[i].id
                != #[trigger] self@.contents[j].id by {
                if j == self@.contents.len() - 1 {
                    if pre.contents[i].id == rowv.id {
                        assert(has_content(pre, id@));
                    }
                }
            }
        }
    }

    /// Install a vocabulary tag row of the host schema.  Tag rows are a
    /// read-only reference vocabulary; the core never creates them.
    pub fn add_tag(&mut self, id: String, name: String)
        requires
            old(self).inv(),
            !tag_id_taken(old(self)@, id@),
            !has_tag(old(self)@, name@),
        ensures
            final(self).inv(),
            final(self)@ == (StoreV {
                tags: old(self)@.tags.push(TagV { id: id@, name: name@ }),
                ..old(self)@
            }),
    {
        let ghost pre = self@;
        let ghost rowv = TagV { id: id@, name: name@ };
        let row = TagRow { id, name };
        self.tags.push(row);
        proof {
            assert(self@.tags =~= pre.tags.push(rowv));
            assert(self@ =~= (StoreV { tags: pre.tags.push(rowv), ..pre }));
            assert forall|i: int, j: int|
                0 <= i < j < self@.tags.len() implies #[trigger] self@.tags[i].id
                != #[trigger] self@.tags[j].id && self@.tags[i].name != self@.tags[j].name by {
                if j == self@.tags.len() - 1 {
                    if pre.tags[i].id == rowv.id {
                        assert(tag_id_taken(pre, id@));
                    }
                    if pre.tags[i].name == rowv.name {
                        assert(has_tag(pre, name@));
                    }
                }
            }
        }
    }

    /// Atomically advance the change counter and return its new value: the
    /// single indivisible step every synchronized mutation goes through.
    pub fn next_usn(&mut self) -> (r: i64)
        requires
            old(self).inv(),
            old(self)@.counter < i64::MAX,
        ensures
            final(self).inv(),
            usn_step(old(self)@, final(self)@, r),
    {
        let ghost pre = self@;
        self.counter = self.counter + 1;
        proof {
            assert(self@ =~= with_counter(pre));
        }
        self.counter
    }

    /// The first track whose folder path contains `path`, ignoring ASCII
    /// case; `NotFound` exactly when no row matches.
    pub fn filepath(&self, path: &str) -> (r: Result<Content, Error>)
        ensures
            (match r {
                Ok(c) => exists|k: int|
                    #[trigger] first_path_match(self@, path@, k) && c@ == content_info(
                        self@.contents[k],
                    ),
                Err(e) => {
                    &&& e == Error::NotFound
                    &&& forall|k: int| !path_matches(self@, path@, k)
                },
            }),
    {
        let n = self.contents.len();
        let mut i: usize = 0;
        while i < n
            invariant
                n == self@.contents.len(),
                i <= n,
                forall|k: int| 0 <= k < i ==> !path_matches(self@, path@, k),
            decreases n - i,
        {
            let row = &self.contents[i];
            if str_contains_ci(row.folder_path.as_str(), path) {
                let found = Content {
                    ID: row.id.clone(),
                    FileNameL: row.file_name_l.clone(),
                    Rating: row.rating,
                };
                proof {
                    assert(self@.contents[i as int] == self.contents@[i as int]@);
                    assert(first_path_match(self@, path@, i as int));
                    assert(found@ == content_info(self@.contents[i as int]));
                }
                return Ok(found);
            }
            i = i + 1;
        }
        Err(Error::NotFound)
    }

    /// The first track whose lowercased filename contains `id` in square
    /// brackets, ignoring ASCII case; `NotFound` exactly when no row
    /// matches.
    pub fn content(&self, id: &str) -> (r: Result<Content, Error>)
        ensures
            (match r {
                Ok(c) => exists|k: int|
                    #[trigger] first_file_match(self@, id@, k) && c@ == content_info(
                        self@.contents[k],
                    ),
                Err(e) => {
                    &&& e == Error::NotFound
                    &&& forall|k: int| !file_matches(self@, id@, k)
                },
            }),
    {
        let mut needle = String::new();
        needle.append("[");
        needle.append(id);
        needle.append("]");
        proof {
            reveal_strlit("[");
            reveal_strlit("]");
            assert(needle@ =~= bracketed(id@));
        }
        let n = self.contents.len();
        let mut i: usize = 0;
        while i < n
            invariant
                n == self@.contents.len(),
                i <= n,
                needle@ == bracketed(id@),
                forall|k: int| 0 <= k < i ==> !file_matches(self@, id@, k),
            decreases n - i,
        {
            let row = &self.contents[i];
            if str_contains_ci(row.file_name_l.as_str(), needle.as_str()) {
                let found = Content {
                    ID: row.id.clone(),
                    FileNameL: row.file_name_l.clone(),
                    Rating: row.rating,
                };
                proof {
                    assert(self@.contents[i as int] == self.contents@[i as int]@);
                    assert(first_file_match(self@, id@, i as int));
                    assert(found@ == content_info(self@.contents[i as int]));
                }
                return Ok(found);
            }
            i = i + 1;
        }
        Err(Error::NotFound)
    }

    /// The index of a vocabulary tag named `name`, if one exists.
    fn find_tag(&self, name: &str) -> (r: Option<usize>)
        ensures
            (match r {
                Some(i) => i < self@.tags.len() && self@.tags[i as int].name == name@,
                None => !has_tag(self@, name@),
            }),
    {
        let n = self.tags.len();
        let mut i: usize = 0;
        while i < n
            invariant
                n == self@.tags.len(),
                i <= n,
                forall|k: int| 0 <= k < i ==> #[trigger] self@.tags[k].name != name@,
            decreases n - i,
        {
            if str_eq(self.tags[i].name.as_str(), name) {
                return Some(i);
            }
            i = i + 1;
        }
        None
    }

    /// The index of an association row joining `cid` to `tid`, if any.
    fn find_assoc(&self, cid: &str, tid: &str) -> (r: Option<usize>)
        ensures
            (match r {
                Some(i) => i < self@.assocs.len() && self@.assocs[i as int].content_id == cid@
                    && self@.assocs[i as int].tag_id == tid@,
                None => !has_assoc(self@, cid@, tid@),
            }),
    {
        let n = self.assocs.len();
        let mut i: usize = 0;
        while i < n
            invariant
                n == self@.assocs.len(),
                i <= n,
                forall|k: int|
                    0 <= k < i ==> !(#[trigger] self@.assocs[k].content_id == cid@
                        && self@.assocs[k].tag_id == tid@),
            decreases n - i,
        {
            let row = &self.assocs[i];
            if str_eq(row.content_id.as_str(), cid) && str_eq(row.tag_id.as_str(), tid) {
                return Some(i);
            }
            i = i + 1;
        }
        None
    }

    /// The index of a playlist named `name`, if one exists.
    fn find_playlist(&self, name: &str) -> (r: Option<usize>)
        ensures
            (match r {
                Some(i) => i < self@.playlists.len() && self@.playlists[i as int].name == name@,
                None => !has_playlist(self@, name@),
            }),
    {
        let n = self.playlists.len();
        let mut i: usize = 0;
        while i < n
            invariant
                n == self@.playlists.len(),
                i <= n,
                forall|k: int| 0 <= k < i ==> #[trigger] self@.playlists[k].name != name@,
            decreases n - i,
        {
            if str_eq(self.playlists[i].name.as_str(), name) {
                return Some(i);
            }
            i = i + 1;
        }
        None
    }

    /// Whether a content row with identifier `cid` exists.
    fn content_exists(&self, cid: &str) -> (r: bool)
        ensures
            r == has_content(self@, cid@),
    {
        let n = self.contents.len();
        let mut i: usize = 0;
        while i < n
            invariant
                n == self@.contents.len(),
                i <= n,
                forall|k: int| 0 <= k < i ==> #[trigger] self@.contents[k].id != cid@,
            decreases n - i,
        {
            if str_eq(self.contents[i].id.as_str(), cid) {
                proof {
                    assert(self@.contents[i as int] == self.contents@[i as int]@);
                    assert(self@.contents[i as int].id == cid@);
                    assert(has_content(self@, cid@));
                }
                return true;
            }
            i = i + 1;
        }
        false
    }

    /// Whether `cid` is already a member of playlist `pid`.
    fn member_exists(&self, pid: &str, cid: &str) -> (r: bool)
        ensures
            r == is_member(self@, pid@, cid@),
    {
        let n = self.members.len();
        let mut i: usize = 0;
        while i < n
            invariant
                n == self@.members.len(),
                i <= n,
                forall|k: int|
                    0 <= k < i ==> !(#[trigger] self@.members[k].playlist_id == pid@
                        && self@.members[k].content_id == cid@),
            decreases n - i,
        {
            let row = &self.members[i];
            if str_eq(row.playlist_id.as_str(), pid) && str_eq(row.content_id.as_str(), cid) {
                proof {
                    assert(self@.members[i as int] == self.members@[i as int]@);
                    assert(self@.members[i as int].playlist_id == pid@);
                    assert(self@.members[i as int].content_id == cid@);
                    assert(is_member(self@, pid@, cid@));
                }
                return true;
            }
            i = i + 1;
        }
        false
    }

    /// Whether the track carries the tag named `tag`.
    pub fn tag_exists(&self, content: &Content, tag: &str) -> (r: bool)
        requires
            self.inv(),
        ensures
            r == is_tagged(self@, content@.id, tag@),
    {
        let ti = match self.find_tag(tag) {
            None => {
                proof {
                    assert(!is_tagged(self@, content@.id, tag@)) by {
                        if is_tagged(self@, content@.id, tag@) {
                            let tid = choose|tid: Seq<char>|
                                #[trigger] tag_id_matches(self@, tid, tag@) && has_assoc(
                                    self@,
                                    content@.id,
                                    tid,
                                );
                            assert(has_tag(self@, tag@));
                        }
                    }
                }
                return false;
            },
            Some(t) => t,
        };
        let tid = self.tags[ti].id.clone();
        match self.find_assoc(content.ID.as_str(), tid.as_str()) {
            Some(_) => {
                proof {
                    assert(tag_id_matches(self@, tid@, tag@));
                    assert(is_tagged(self@, content@.id, tag@));
                }
                true
            },
            None => {
                proof {
                    assert(!is_tagged(self@, content@.id, tag@)) by {
                        if is_tagged(self@, content@.id, tag@) {
                            let tid2 = choose|t2: Seq<char>|
                                #[trigger] tag_id_matches(self@, t2, tag@) && has_assoc(
                                    self@,
                                    content@.id,
                                    t2,
                                );
                            let k2 = choose|k2: int|
                                0 <= k2 < self@.tags.len() && #[trigger] self@.tags[k2].name
                                    == tag@ && self@.tags[k2].id == tid2;
                            if k2 != ti as int {
                                assert(self@.tags[k2].name == self@.tags[ti as int].name);
                                assert(false);
                            }
                            assert(tid2 == tid@);
                        }
                    }
                }
                false
            },
        }
    }

    /// Idempotent tag assignment: insert the association joining the track
    /// to the tag named `tag` unless it already exists, stamping it with a
    /// freshly allocated change sequence number, which is returned; `None`
    /// reports that nothing needed to change.
    pub fn tag_content(&mut self, content: &Content, tag: &str) -> (r: Option<i64>)
        requires
            old(self).inv(),
            old(self)@.counter < i64::MAX,
        ensures
            final(self).inv(),
            tag_step(old(self)@, final(self)@, content@.id, tag@, r),
    {
        let ghost pre = self@;
        let ti = match self.find_tag(tag) {
            None => {
                proof {
                    assert(!has_tag(pre, tag@));
                }
                return None;
            },
            Some(t) => t,
        };
        let tid = self.tags[ti].id.clone();
        proof {
            assert(self@.tags[ti as int] == self.tags@[ti as int]@);
            assert(tag_id_matches(pre, tid@, tag@));
        }
        if let Some(_) = self.find_assoc(content.ID.as_str(), tid.as_str()) {
            proof {
                assert(is_tagged(pre, content@.id, tag@));
            }
            return None;
        }
        proof {
            assert(!is_tagged(pre, content@.id, tag@)) by {
                if is_tagged(pre, content@.id, tag@) {
                    let tid2 = choose|t2: Seq<char>|
                        #[trigger] tag_id_matches(pre, t2, tag@) && has_assoc(pre, content@.id, t2);
                    let k2 = choose|k2: int|
                        0 <= k2 < pre.tags.len() && #[trigger] pre.tags[k2].name == tag@
                            && pre.tags[k2].id == tid2;
                    if k2 != ti as int {
                        assert(pre.tags[k2].name == pre.tags[ti as int].name);
                        assert(false);
                    }
                    assert(has_assoc(pre, content@.id, tid@));
                }
            }
        }
        let usn = self.counter + 1;
        self.counter = usn;
        let ts = crate::ext::now_timestamp();
        let ts2 = ts.clone();
        let row = AssocRow {
            id: crate::ext::new_uuid(),
            tag_id: tid,
            content_id: content.ID.clone(),
            uuid: crate::ext::new_uuid(),
            usn,
            created_at: ts,
            updated_at: ts2,
        };
        let ghost rowv = row@;
        self.assocs.push(row);
        proof {
            let post = self@;
            assert(post.assocs =~= pre.assocs.push(rowv));
            assert(post =~= with_assoc(pre, rowv));
            assert(tag_row_shape(pre, rowv, content@.id, tag@));
            assert(tag_step(pre, post, content@.id, tag@, Some(usn)));
            assert forall|i: int, j: int|
                0 <= i < j < post.assocs.len() implies !(#[trigger] post.assocs[i].content_id
                == #[trigger] post.assocs[j].content_id && post.assocs[i].tag_id
                == post.assocs[j].tag_id) by {
                if j == post.assocs.len() - 1 {
                    if pre.assocs[i].content_id == rowv.content_id && pre.assocs[i].tag_id
                        == rowv.tag_id {
                        assert(has_assoc(pre, content@.id, tid@));
                        assert(is_tagged(pre, content@.id, tag@));
                        assert(false);
                    }
                }
            }
        }
        Some(usn)
    }

    /// Remove the association rows joining the track to the tag named
    /// `tag`.  An absent association is a no-op, not an error, and no
    /// change sequence number is consumed either way.
    pub fn untag_content(&mut self, content: &Content, tag: &str)
        requires
            old(self).inv(),
        ensures
            final(self).inv(),
            untag_step(old(self)@, final(self)@, content@.id, tag@),
    {
        let ghost pre = self@;
        let ghost keep = |a: AssocV| !assoc_named(pre, a, content@.id, tag@);
        let ti = match self.find_tag(tag) {
            None => {
                proof {
                    assert forall|i: int| 0 <= i < pre.assocs.len() implies keep(
                        #[trigger] pre.assocs[i],
                    ) by {
                        if assoc_named(pre, pre.assocs[i], content@.id, tag@) {
                            let k = choose|k: int|
                                0 <= k < pre.tags.len() && #[trigger] pre.tags[k].name == tag@
                                    && pre.tags[k].id == pre.assocs[i].tag_id;
                            assert(has_tag(pre, tag@));
                        }
                    }
                    lemma_filter_all(pre.assocs, keep);
                    assert(self@ =~= (StoreV { assocs: pre.assocs.filter(keep), ..pre }));
                }
                return ;
            },
            Some(t) => t,
        };
        let tid = self.tags[ti].id.clone();
        proof {
            assert(self@.tags[ti as int] == self.tags@[ti as int]@);
            assert(tag_id_matches(pre, tid@, tag@));
        }
        let mut kept: Vec<AssocRow> = Vec::new();
        let n = self.assocs.len();
        let mut i: usize = 0;
        while i < n
            invariant
                self@ == pre,
                wf(pre),
                n == pre.assocs.len(),
                i <= n,
                tag_id_matches(pre, tid@, tag@),
                keep == (|a: AssocV| !assoc_named(pre, a, content@.id, tag@)),
                kept@.map_values(|r: AssocRow| r@) =~= pre.assocs.subrange(0, i as int).filter(
                    keep,
                ),
            decreases n - i,
        {
            let row = &self.assocs[i];
            let ghost rowv = pre.assocs[i as int];
            proof {
                assert(self@.assocs[i as int] == self.assocs@[i as int]@);
            }
            let drop_row = str_eq(row.content_id.as_str(), content.ID.as_str()) && str_eq(
                row.tag_id.as_str(),
                tid.as_str(),
            );
            proof {
                if drop_row {
                    assert(assoc_named(pre, rowv, content@.id, tag@));
                } else {
                    assert(!assoc_named(pre, rowv, content@.id, tag@)) by {
                        if assoc_named(pre, rowv, content@.id, tag@) {
                            assert(rowv.content_id == content@.id);
                            let k2 = choose|k2: int|
                                0 <= k2 < pre.tags.len() && #[trigger] pre.tags[k2].name == tag@
                                    && pre.tags[k2].id == rowv.tag_id;
                            if k2 != ti as int {
                                assert(pre.tags[k2].name == pre.tags[ti as int].name);
                                assert(false);
                            }
                            assert(rowv.tag_id == tid@);
                        }
                    }
                }
            }
            if !drop_row {
                kept.push(
                    AssocRow {
                        id: row.id.clone(),
                        tag_id: row.tag_id.clone(),
                        content_id: row.content_id.clone(),
                        uuid: row.uuid.clone(),
                        usn: row.usn,
                        created_at: row.created_at.clone(),
                        updated_at: row.updated_at.clone(),
                    },
                );
            }
            proof {
                reveal(Seq::filter);
                let sub = pre.assocs.subrange(0, i as int);
                let sub1 = pre.assocs.subrange(0, i + 1 as int);
                assert(sub1.drop_last() =~= sub);
                assert(sub1.last() == rowv);
                if drop_row {
                    assert(sub1.filter(keep) == sub.filter(keep));
                    assert(kept@.map_values(|r: AssocRow| r@) =~= sub1.filter(keep));
                } else {
                    assert(sub1.filter(keep) == sub.filter(keep).push(rowv));
                    assert(kept@.map_values(|r: AssocRow| r@) =~= sub1.filter(keep));
                }
            }
            i = i + 1;
        }
        self.assocs = kept;
        proof {
            assert(pre.assocs.subrange(0, n as int) =~= pre.assocs);
            assert(self@.assocs =~= pre.assocs.filter(keep));
            assert(self@ =~= (StoreV { assocs: pre.assocs.filter(keep), ..pre }));
            lemma_filter_pairwise(
                pre.assocs,
                keep,
                |a: AssocV, b: AssocV| !(a.content_id == b.content_id && a.tag_id == b.tag_id),
            );
            assert forall|i2: int, j2: int|
                0 <= i2 < j2 < self@.assocs.len() implies !(#[trigger] self@.assocs[i2].content_id
                == #[trigger] self@.assocs[j2].content_id && self@.assocs[i2].tag_id
                == self@.assocs[j2].tag_id) by {
                let q = |a: AssocV, b: AssocV| !(a.content_id == b.content_id && a.tag_id
                    == b.tag_id);
                assert(q(pre.assocs.filter(keep)[i2], pre.assocs.filter(keep)[j2]));
            }
        }
    }

    /// Remove every association row of the track: `clear_tags` empties its
    /// tag set without consuming a change sequence number.
    pub fn clear_tags(&mut self, content: &Content)
        requires
            old(self).inv(),
        ensures
            final(self).inv(),
            clear_step(old(self)@, final(self)@, content@.id),
    {
        let ghost pre = self@;
        let ghost keep = |a: AssocV| a.content_id != content@.id;
        let mut kept: Vec<AssocRow> = Vec::new();
        let n = self.assocs.len();
        let mut i: usize = 0;
        while i < n
            invariant
                self@ == pre,
                wf(pre),
                n == pre.assocs.len(),
                i <= n,
                keep == (|a: AssocV| a.content_id != content@.id),
                kept@.map_values(|r: AssocRow| r@) =~= pre.assocs.subrange(0, i as int).filter(
                    keep,
                ),
            decreases n - i,
        {
            let row = &self.assocs[i];
            let ghost rowv = pre.assocs[i as int];
            proof {
                assert(self@.assocs[i as int] == self.assocs@[i as int]@);
            }
            let drop_row = str_eq(row.content_id.as_str(), content.ID.as_str());
            if !drop_row {
                kept.push(
                    AssocRow {
                        id: row.id.clone(),
                        tag_id: row.tag_id.clone(),
                        content_id: row.content_id.clone(),
                        uuid: row.uuid.clone(),
                        usn: row.usn,
                        created_at: row.created_at.clone(),
                        updated_at: row.updated_at.clone(),
                    },
                );
            }
            proof {
                reveal(Seq::filter);
                let sub = pre.assocs.subrange(0, i as int);
                let sub1 = pre.assocs.subrange(0, i + 1 as int);
                assert(sub1.drop_last() =~= sub);
                assert(sub1.last() == rowv);
                if drop_row {
                    assert(sub1.filter(keep) == sub.filter(keep));
                } else {
                    assert(sub1.filter(keep) == sub.filter(keep).push(rowv));
                }
                assert(kept@.map_values(|r: AssocRow| r@) =~= sub1.filter(keep));
            }
            i = i + 1;
        }
        self.assocs = kept;
        proof {
            assert(pre.assocs.subrange(0, n as int) =~= pre.assocs);
            assert(self@.assocs =~= pre.assocs.filter(keep));
            assert(self@ =~= (StoreV { assocs: pre.assocs.filter(keep), ..pre }));
            lemma_filter_pairwise(
                pre.assocs,
                keep,
                |a: AssocV, b: AssocV| !(a.content_id == b.content_id && a.tag_id == b.tag_id),
            );
            assert forall|i2: int, j2: int|
                0 <= i2 < j2 < self@.assocs.len() implies !(#[trigger] self@.assocs[i2].content_id
                == #[trigger] self@.assocs[j2].content_id && self@.assocs[i2].tag_id
                == self@.assocs[j2].tag_id) by {
                let q = |a: AssocV, b: AssocV| !(a.content_id == b.content_id && a.tag_id
                    == b.tag_id);
                assert(q(pre.assocs.filter(keep)[i2], pre.assocs.filter(keep)[j2]));
            }
        }
    }

    /// Unconditionally set the rating of the track's row.  Rating is not
    /// synchronized state: no change sequence number is consumed.
    pub fn rate_content(&mut self, content: &Content, rating: u8)
        requires
            old(self).inv(),
            rating <= 5,
        ensures
            final(self).inv(),
            rate_step(old(self)@, final(self)@, content@.id, rating as int),
    {
        let ghost pre = self@;
        let n = self.contents.len();
        let mut i: usize = 0;
        while i < n
            invariant
                n == pre.contents.len(),
                n == self@.contents.len(),
                i <= n,
                self@.counter == pre.counter,
                self@.tags == pre.tags,
                self@.assocs == pre.assocs,
                self@.playlists == pre.playlists,
                self@.members == pre.members,
                forall|k: int|
                    0 <= k < i ==> #[trigger] self@.contents[k] == (if pre.contents[k].id
                        == content@.id {
                        ContentRowV { rating: rating as int, ..pre.contents[k] }
                    } else {
                        pre.contents[k]
                    }),
                forall|k: int| i <= k < n ==> #[trigger] self@.contents[k] == pre.contents[k],
            decreases n - i,
        {
            let hit = str_eq(self.contents[i].id.as_str(), content.ID.as_str());
            proof {
                assert(self@.contents[i as int] == self.contents@[i as int]@);
            }
            if hit {
                let row = &self.contents[i];
                let updated = ContentRow {
                    id: row.id.clone(),
                    file_name_l: row.file_name_l.clone(),
                    folder_path: row.folder_path.clone(),
                    rating: rating as i64,
                };
                proof {
                    assert(updated@ == (ContentRowV {
                        rating: rating as int,
                        ..pre.contents[i as int]
                    }));
                }
                let ghost prev = self@.contents;
                self.contents.set(i, updated);
                proof {
                    assert(self@.contents =~= prev.update(i as int, updated@));
                }
            }
            i = i + 1;
        }
        proof {
            assert(self@.contents =~= Seq::new(
                pre.contents.len(),
                |k: int|
                    if pre.contents[k].id == content@.id {
                        ContentRowV { rating: rating as int, ..pre.contents[k] }
                    } else {
                        pre.contents[k]
                    },
            ));
            assert(self@ =~= (StoreV {
                contents: Seq::new(
                    pre.contents.len(),
                    |k: int|
                        if pre.contents[k].id == content@.id {
                            ContentRowV { rating: rating as int, ..pre.contents[k] }
                        } else {
                            pre.contents[k]
                        },
                ),
                ..pre
            }));
            assert forall|i2: int, j2: int|
                0 <= i2 < j2 < self@.contents.len() implies #[trigger] self@.contents[i2].id
                != #[trigger] self@.contents[j2].id by {
                assert(self@.contents[i2].id == pre.contents[i2].id);
                assert(self@.contents[j2].id == pre.contents[j2].id);
            }
        }
    }

    /// The identifiers currently used in the playlist table.
    fn playlist_ids(&self) -> (r: Vec<String>)
        ensures
            crate::allocator::column(r@) == crate::model::playlist_ids_of(self@),
    {
        let n = self.playlists.len();
        let mut ids: Vec<String> = Vec::new();
        let mut i: usize = 0;
        while i < n
            invariant
                n == self@.playlists.len(),
                i <= n,
                ids@.len() == i,
                forall|k: int| 0 <= k < i ==> #[trigger] ids@[k]@ == self@.playlists[k].id,
            decreases n - i,
        {
            ids.push(self.playlists[i].id.clone());
            proof {
                assert(self@.playlists[i as int] == self.playlists@[i as int]@);
                assert(ids@[i as int]@ == self@.playlists[i as int].id);
            }
            i = i + 1;
        }
        proof {
            assert(crate::allocator::column(ids@) =~= crate::model::playlist_ids_of(self@));
        }
        ids
    }

    /// The largest sibling position among top-level playlists.
    fn max_root_seq_in(&self) -> (r: i64)
        ensures
            r == max_root_seq(self@.playlists),
    {
        let n = self.playlists.len();
        let mut r: i64 = 0;
        let mut i: usize = 0;
        while i < n
            invariant
                n == self@.playlists.len(),
                i <= n,
                r == max_root_seq(self@.playlists.subrange(0, i as int)),
            decreases n - i,
        {
            let row = &self.playlists[i];
            proof {
                assert(self@.playlists[i as int] == self.playlists@[i as int]@);
            }
            let at_root = str_eq(row.parent_id.as_str(), "root");
            if at_root && row.seq_no > r {
                r = row.seq_no;
            }
            proof {
                let sub = self@.playlists.subrange(0, i as int);
                let sub1 = self@.playlists.subrange(0, i + 1 as int);
                assert(sub1.drop_last() =~= sub);
                assert(sub1.last() == self@.playlists[i as int]);
                assert(r == max_root_seq(sub1));
            }
            i = i + 1;
        }
        proof {
            assert(self@.playlists.subrange(0, n as int) =~= self@.playlists);
        }
        r
    }

    /// The largest track number inside playlist `pid`.
    fn max_track_no_in(&self, pid: &str) -> (r: i64)
        ensures
            r == max_track_no(self@.members, pid@),
    {
        let n = self.members.len();
        let mut r: i64 = 0;
        let mut i: usize = 0;
        while i < n
            invariant
                n == self@.members.len(),
                i <= n,
                r == max_track_no(self@.members.subrange(0, i as int), pid@),
            decreases n - i,
        {
            let row = &self.members[i];
            proof {
                assert(self@.members[i as int] == self.members@[i as int]@);
            }
            let in_list = str_eq(row.playlist_id.as_str(), pid);
            if in_list && row.track_no > r {
                r = row.track_no;
            }
            proof {
                let sub = self@.members.subrange(0, i as int);
                let sub1 = self@.members.subrange(0, i + 1 as int);
                assert(sub1.drop_last() =~= sub);
                assert(sub1.last() == self@.members[i as int]);
                assert(r == max_track_no(sub1, pid@));
            }
            i = i + 1;
        }
        proof {
            assert(self@.members.subrange(0, n as int) =~= self@.members);
        }
        r
    }

    /// Idempotent playlist creation: unless a playlist named `name`
    /// exists, insert one as a top-level child placed after the last
    /// sibling, carrying a collision-free identifier and a freshly
    /// allocated change sequence number, which is returned.  An existing
    /// name is a no-op that consumes nothing; identifier exhaustion
    /// surfaces as an error and writes nothing.
    pub fn playlist_create(&mut self, name: &str) -> (r: Result<Option<i64>, Error>)
        requires
            old(self).inv(),
            old(self)@.counter < i64::MAX,
            old(self)@.playlists.len() < i64::MAX,
        ensures
            final(self).inv(),
            create_step(old(self)@, final(self)@, name@, r),
    {
        let ghost pre = self@;
        if let Some(_) = self.find_playlist(name) {
            return Ok(None);
        }
        let ids = self.playlist_ids();
        let id_num = match crate::allocator::next_id(&ids) {
            Err(e) => {
                proof {
                    assert(e == Error::AllocationExhausted);
                }
                return Err(e);
            },
            Ok(n) => n,
        };
        let id_rendered = crate::strings::dec_str(id_num);
        proof {
            assert(is_allocated_id(id_rendered@)) by {
                assert(100 <= (id_num as nat) && (id_num as nat) < 0x1_0000_0000);
                assert(id_rendered@ == crate::strings::dec_digits(id_num as nat));
            }
            assert(!playlist_id_taken(pre, id_rendered@)) by {
                if playlist_id_taken(pre, id_rendered@) {
                    let k = choose|k: int|
                        0 <= k < pre.playlists.len() && #[trigger] pre.playlists[k].id
                            == id_rendered@;
                    assert(crate::allocator::column(ids@)[k] == crate::model::playlist_ids_of(
                        pre,
                    )[k]);
                    assert(crate::model::playlist_ids_of(pre)[k] == pre.playlists[k].id);
                    assert(false);
                }
            }
        }
        let seq_base = self.max_root_seq_in();
        proof {
            lemma_max_root_seq_bounds(pre.playlists, pre.playlists.len() as int);
        }
        let seq_no = seq_base + 1;
        let usn = self.counter + 1;
        self.counter = usn;
        let ts = crate::ext::now_timestamp();
        let ts2 = ts.clone();
        let row = PlaylistRow {
            seq_no,
            id: id_rendered,
            name: name.to_owned(),
            attribute: 0,
            parent_id: "root".to_owned(),
            uuid: crate::ext::new_uuid(),
            usn,
            created_at: ts,
            updated_at: ts2,
        };
        let ghost rowv = row@;
        self.playlists.push(row);
        proof {
            let post = self@;
            assert(post.playlists =~= pre.playlists.push(rowv));
            assert(post =~= with_playlist(pre, rowv));
            assert(playlist_row_shape(pre, rowv, name@));
            assert(create_step(pre, post, name@, Ok(Some(usn))));
            assert forall|i: int, j: int|
                0 <= i < j < post.playlists.len() implies #[trigger] post.playlists[i].id
                != #[trigger] post.playlists[j].id by {
                if j == post.playlists.len() - 1 {
                    if pre.playlists[i].id == rowv.id {
                        assert(playlist_id_taken(pre, rowv.id));
                    }
                }
            }
            assert forall|i: int, j: int|
                0 <= i < j < post.playlists.len() implies post.playlists[i].name
                != post.playlists[j].name by {
                if j == post.playlists.len() - 1 {
                    assert(post.playlists[i] == pre.playlists[i]);
                    if pre.playlists[i].name == rowv.name {
                        assert(has_playlist(pre, name@));
                    }
                }
            }
            assert forall|k: int|
                0 <= k < post.playlists.len() implies 1 <= #[trigger] post.playlists[k].seq_no
                <= post.playlists.len() by {
                if k < post.playlists.len() - 1 {
                    assert(post.playlists[k] == pre.playlists[k]);
                }
            }
        }
        Ok(Some(usn))
    }

    /// Idempotent, order-preserving playlist insertion: unless the track
    /// is already a member of the playlist named `playlist`, insert a
    /// membership row taking the next track number, stamped with a freshly
    /// allocated change sequence number, which is returned.  A missing
    /// playlist or track, or an existing membership, is a no-op returning
    /// `None` and consuming nothing.
    pub fn playlist_add(&mut self, playlist: &str, content: &Content) -> (r: Option<i64>)
        requires
            old(self).inv(),
            old(self)@.counter < i64::MAX,
            old(self)@.members.len() < i64::MAX,
        ensures
            final(self).inv(),
            add_step(old(self)@, final(self)@, playlist@, content@.id, r),
    {
        let ghost pre = self@;
        let pi = match self.find_playlist(playlist) {
            None => {
                proof {
                    assert(!can_add(pre, playlist@, content@.id)) by {
                        if can_add(pre, playlist@, content@.id) {
                            let pid = choose|pid: Seq<char>|
                                #[trigger] playlist_named(pre, pid, playlist@) && !is_member(
                                    pre,
                                    pid,
                                    content@.id,
                                );
                            assert(has_playlist(pre, playlist@));
                        }
                    }
                }
                return None;
            },
            Some(p) => p,
        };
        if !self.content_exists(content.ID.as_str()) {
            proof {
                assert(!can_add(pre, playlist@, content@.id));
            }
            return None;
        }
        let pid = self.playlists[pi].id.clone();
        proof {
            assert(self@.playlists[pi as int] == self.playlists@[pi as int]@);
            assert(playlist_named(pre, pid@, playlist@));
        }
        if self.member_exists(pid.as_str(), content.ID.as_str()) {
            proof {
                assert(!can_add(pre, playlist@, content@.id)) by {
                    if can_add(pre, playlist@, content@.id) {
                        let pid2 = choose|p2: Seq<char>|
                            #[trigger] playlist_named(pre, p2, playlist@) && !is_member(
                                pre,
                                p2,
                                content@.id,
                            );
                        let k2 = choose|k2: int|
                            0 <= k2 < pre.playlists.len() && #[trigger] pre.playlists[k2].name
                                == playlist@ && pre.playlists[k2].id == pid2;
                        if k2 != pi as int {
                            assert(pre.playlists[k2].name == pre.playlists[pi as int].name);
                            assert(false);
                        }
                        assert(pid2 == pid@);
                    }
                }
            }
            return None;
        }
        proof {
            assert(can_add(pre, playlist@, content@.id)) by {
                assert(playlist_named(pre, pid@, playlist@) && !is_member(pre, pid@, content@.id));
            }
        }
        let track_base = self.max_track_no_in(pid.as_str());
        proof {
            lemma_max_track_no_bounds(pre.members, pid@, pre.members.len() as int);
        }
        let track_no = track_base + 1;
        let usn = self.counter + 1;
        self.counter = usn;
        let ts = crate::ext::now_timestamp();
        let ts2 = ts.clone();
        let row = MemberRow {
            id: crate::ext::new_uuid(),
            playlist_id: pid,
            content_id: content.ID.clone(),
            uuid: crate::ext::new_uuid(),
            created_at: ts,
            updated_at: ts2,
            usn,
            track_no,
        };
        let ghost rowv = row@;
        self.members.push(row);
        proof {
            let post = self@;
            assert(post.members =~= pre.members.push(rowv));
            assert(post =~= with_member(pre, rowv));
            assert(member_row_shape(pre, rowv, playlist@, content@.id));
            assert(add_step(pre, post, playlist@, content@.id, Some(usn)));
            assert forall|i: int, j: int|
                0 <= i < j < post.members.len() implies !(#[trigger] post.members[i].playlist_id
                == #[trigger] post.members[j].playlist_id && post.members[i].content_id
                == post.members[j].content_id) by {
                if j == post.members.len() - 1 {
                    if pre.members[i].playlist_id == rowv.playlist_id && pre.members[i].content_id
                        == rowv.content_id {
                        assert(is_member(pre, rowv.playlist_id, rowv.content_id));
                        assert(false);
                    }
                }
            }
            assert forall|k: int|
                0 <= k < post.members.len() implies 1 <= #[trigger] post.members[k].track_no
                <= post.members.len() by {
                if k < post.members.len() - 1 {
                    assert(post.members[k] == pre.members[k]);
                }
            }
        }
        Some(usn)
    }

    /// The tags currently associated with the track, sorted by name
    /// ascending; an empty sequence when it carries none.
    pub fn content_tags(&self, content: &Content) -> (r: Vec<Tag>)
        requires
            self.inv(),
        ensures
            sorted_names(listed_names(r@)),
            listed_names(r@).to_multiset() == tag_names(
                listed_tags(self@, content@.id),
            ).to_multiset(),
    {
        let ghost pre = self@;
        let ghost keep = |t: TagV| has_assoc(pre, content@.id, t.id);
        let mut out: Vec<Tag> = Vec::new();
        let n = self.tags.len();
        let mut i: usize = 0;
        while i < n
            invariant
                self@ == pre,
                n == pre.tags.len(),
                i <= n,
                keep == (|t: TagV| has_assoc(pre, content@.id, t.id)),
                listed_names(out@) =~= tag_names(pre.tags.subrange(0, i as int).filter(keep)),
            decreases n - i,
        {
            let ghost rowv = pre.tags[i as int];
            proof {
                assert(self@.tags[i as int] == self.tags@[i as int]@);
            }
            let hit = self.find_assoc(content.ID.as_str(), self.tags[i].id.as_str());
            let ghost prev_names = listed_names(out@);
            if let Some(ai) = hit {
                let listed = Tag { ID: self.assocs[ai].id.clone(), Name: self.tags[i].name.clone() };
                proof {
                    assert(self@.assocs[ai as int] == self.assocs@[ai as int]@);
                    assert(listed@.name == rowv.name);
                    assert(has_assoc(pre, content@.id, rowv.id));
                }
                out.push(listed);
                proof {
                    assert(listed_names(out@) =~= prev_names.push(rowv.name));
                }
            } else {
                proof {
                    assert(!keep(rowv));
                }
            }
            proof {
                reveal(Seq::filter);
                let sub = pre.tags.subrange(0, i as int);
                let sub1 = pre.tags.subrange(0, i + 1 as int);
                assert(sub1.drop_last() =~= sub);
                assert(sub1.last() == rowv);
                if keep(rowv) {
                    assert(sub1.filter(keep) == sub.filter(keep).push(rowv));
                    assert(tag_names(sub1.filter(keep)) =~= tag_names(sub.filter(keep)).push(
                        rowv.name,
                    ));
                } else {
                    assert(sub1.filter(keep) == sub.filter(keep));
                }
                assert(listed_names(out@) =~= tag_names(sub1.filter(keep)));
            }
            i = i + 1;
        }
        proof {
            assert(pre.tags.subrange(0, n as int) =~= pre.tags);
            assert(listed_names(out@) =~= tag_names(listed_tags(pre, content@.id)));
        }
        sort_tags(&mut out);
        out
    }
}

/// The position in the sorted prefix `0..i` before which the name of
/// element `i` belongs: the count of leading names ordered at or below it.
fn insertion_point(v: &Vec<Tag>, i: usize) -> (p: usize)
    requires
        i < v@.len(),
    ensures
        p <= i,
        forall|k: int| 0 <= k < p ==> lex_le(#[trigger] listed_names(v@)[k], listed_names(v@)[i as int]),
        p < i ==> !lex_le(listed_names(v@)[p as int], listed_names(v@)[i as int]),
{
    let mut p: usize = 0;
    while p < i
        invariant
            i < v@.len(),
            p <= i,
            forall|k: int|
                0 <= k < p ==> lex_le(#[trigger] listed_names(v@)[k], listed_names(v@)[i as int]),
        decreases i - p,
    {
        if !str_le(v[p].Name.as_str(), v[i].Name.as_str()) {
            proof {
                assert(listed_names(v@)[p as int] == v@[p as int]@.name);
                assert(listed_names(v@)[i as int] == v@[i as int]@.name);
            }
            return p;
        }
        proof {
            assert(listed_names(v@)[p as int] == v@[p as int]@.name);
        }
        p = p + 1;
    }
    p
}

/// Sort a tag listing by name ascending, keeping exactly the same names.
fn sort_tags(v: &mut Vec<Tag>)
    ensures
        sorted_names(listed_names(final(v)@)),
        listed_names(final(v)@).to_multiset() == listed_names(old(v)@).to_multiset(),
{
    broadcast use vstd::seq_lib::group_to_multiset_ensures;
    broadcast use vstd::multiset::group_multiset_axioms;
    broadcast use vstd::multiset::group_multiset_properties;

    let n = v.len();
    if n == 0 {
        return ;
    }
    let mut i: usize = 1;
    while i < n
        invariant
            n == v@.len(),
            1 <= i <= n,
            forall|k1: int, k2: int|
                0 <= k1 < k2 < i ==> lex_le(
                    #[trigger] listed_names(v@)[k1],
                    #[trigger] listed_names(v@)[k2],
                ),
            listed_names(v@).to_multiset() == listed_names(old(v)@).to_multiset(),
        decreases n - i,
    {
        let ghost cur = listed_names(v@);
        let p = insertion_point(v, i);
        let moved = v.remove(i);
        v.insert(p, moved);
        proof {
            broadcast use vstd::seq_lib::group_to_multiset_ensures;
            broadcast use vstd::multiset::group_multiset_axioms;
            broadcast use vstd::multiset::group_multiset_properties;

            let x = cur[i as int];
            assert(listed_names(v@) =~= cur.remove(i as int).insert(p as int, x));
            assert(cur.contains(x)) by {
                assert(cur[i as int] == x);
            }
            assert(cur.to_multiset().count(x) > 0);
            assert(cur.remove(i as int).insert(p as int, x).to_multiset() =~= cur.to_multiset());
            assert forall|k1: int, k2: int|
                0 <= k1 < k2 < i + 1 implies lex_le(
                #[trigger] listed_names(v@)[k1],
                #[trigger] listed_names(v@)[k2],
            ) by {
                let w = listed_names(v@);
                let pi = p as int;
                let ii = i as int;
                if p < i {
                    crate::strings::lemma_lex_le_total(cur[ii], cur[pi]);
                }
                if k1 < pi && k2 == pi {
                    assert(w[k1] == cur[k1] && w[k2] == x);
                } else if k1 < pi && k2 > pi {
                    assert(w[k1] == cur[k1] && w[k2] == cur[k2 - 1]);
                    if k1 == k2 - 1 {
                        assert(false);
                    }
                } else if k1 == pi && k2 > pi {
                    assert(w[k1] == x && w[k2] == cur[k2 - 1]);
                    if k2 - 1 > pi {
                        crate::strings::lemma_lex_le_trans(cur[ii], cur[pi], cur[k2 - 1]);
                    }
                } else if k1 > pi {
                    assert(w[k1] == cur[k1 - 1] && w[k2] == cur[k2 - 1]);
                }
            }
        }
        i = i + 1;
    }
}

} // verus!
