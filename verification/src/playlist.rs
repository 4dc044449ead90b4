//! The watch playlist: an ordered, append-only, de-duplicated sequence of
//! lifecycle-record snapshots, a playback cursor, and a high-water mark used
//! by the foreign boundary to emit only entries it has not yet sent.

use crate::ids::new_uuid_string;
use crate::models::VideoDownload;
use vstd::prelude::*;

verus! {

/// Whether some item of `s` carries the id `id`.
pub open spec fn spec_contains_id(s: Seq<VideoDownload>, id: Seq<char>) -> bool {
    exists|i: int| 0 <= i < s.len() && s[i].id@ == id
}

/// The position of an item of `s` carrying the id `id` (meaningful only when
/// one exists; unique whenever ids are distinct).
pub open spec fn spec_index_of_id(s: Seq<VideoDownload>, id: Seq<char>) -> int {
    choose|i: int| 0 <= i < s.len() && s[i].id@ == id
}

/// All ids in `s` are distinct.
pub open spec fn spec_ids_distinct(s: Seq<VideoDownload>) -> bool {
    forall|i: int, j: int| 0 <= i < j < s.len() ==> #[trigger] s[i].id@ != #[trigger] s[j].id@
}

/// Finds the position of the item with the given id, scanning from the
/// front.
pub fn find_index_by_id(items: &Vec<VideoDownload>, id: &String) -> (r: Option<usize>)
    ensures
        match r {
            Some(i) => i < items@.len() && items@[i as int].id@ == id@ && forall|j: int|
                0 <= j < i ==> #[trigger] items@[j].id@ != id@,
            None => !spec_contains_id(items@, id@),
        },
{
    let mut i: usize = 0;
    while i < items.len()
        invariant
            i <= items@.len(),
            forall|j: int| 0 <= j < i ==> items@[j].id@ != id@,
        decreases items@.len() - i,
    {
        if items[i].id.eq(id) {
            return Some(i);
        }
        i = i + 1;
    }
    None
}

/// The playlist as the rest of the system sees it: the item sequence, the
/// playback cursor, and the high-water mark of entries already handed to the
/// foreign boundary. The id-to-position index is not stored alongside: it is
/// recovered as [`spec_items_by_id`], pinned down by the distinct-ids
/// invariant.
pub struct Playlist {
    pub id: String,
    pub current_position: Option<usize>,
    pub last_sent_position: Option<usize>,
    pub items: Vec<VideoDownload>,
}

/// The id-to-position index derived from the item sequence.
pub open spec fn spec_items_by_id(s: Seq<VideoDownload>) -> Map<Seq<char>, int> {
    Map::new(|k: Seq<char>| spec_contains_id(s, k), |k: Seq<char>| spec_index_of_id(s, k))
}

/// Appending `v` to `s`, a no-op when its id is already present.
pub open spec fn spec_add(s: Seq<VideoDownload>, v: VideoDownload) -> Seq<VideoDownload> {
    if spec_contains_id(s, v.id@) {
        s
    } else {
        s.push(v)
    }
}

impl Playlist {
    /// The item sequence.
    pub open spec fn spec_items(self) -> Seq<VideoDownload> {
        self.items@
    }

    /// The playback cursor.
    pub open spec fn spec_current_position(self) -> Option<usize> {
        self.current_position
    }

    /// The high-water mark: position of the last item handed out.
    pub open spec fn spec_last_sent_position(self) -> Option<usize> {
        self.last_sent_position
    }

    /// Well-formedness: ids are distinct, and both cursors stay inside the
    /// item sequence.
    pub open spec fn wf(self) -> bool {
        &&& spec_ids_distinct(self.items@)
        &&& match self.current_position {
            Some(p) => p < self.items@.len(),
            None => true,
        }
        &&& match self.last_sent_position {
            Some(p) => p < self.items@.len(),
            None => true,
        }
    }

    /// An empty playlist with a fresh random id.
    pub fn new() -> (p: Playlist)
        ensures
            p.spec_items() == Seq::<VideoDownload>::empty(),
            p.spec_current_position() is None,
            p.spec_last_sent_position() is None,
            p.wf(),
    {
        Playlist {
            id: new_uuid_string(),
            current_position: None,
            last_sent_position: None,
            items: Vec::new(),
        }
    }

    /// Appends a snapshot, idempotently on its id: a second append of an id
    /// already present changes nothing.
    pub fn add(&mut self, video: VideoDownload)
        requires
            old(self).wf(),
        ensures
            final(self).wf(),
            final(self).spec_items() == spec_add(old(self).spec_items(), video),
            final(self).spec_current_position() == old(self).spec_current_position(),
            final(self).spec_last_sent_position() == old(self).spec_last_sent_position(),
    {
        match find_index_by_id(&self.items, &video.id) {
            Some(_) => {
                proof {
                    assert(spec_contains_id(self.items@, video.id@));
                }
            },
            None => {
                self.items.push(video);
            },
        }
    }

    /// The item under the playback cursor, if the cursor is set.
    pub fn current(&self) -> (r: Option<&VideoDownload>)
        requires
            self.wf(),
        ensures
            match self.spec_current_position() {
                Some(p) => r is Some && *r.unwrap() == self.spec_items()[p as int],
                None => r is None,
            },
    {
        match self.current_position {
            Some(pos) => Some(&self.items[pos]),
            None => None,
        }
    }

    /// Advances the cursor by one and returns the item there; a cursor that
    /// is unset or already on the last item stays put and nothing is
    /// returned.
    pub fn next(&mut self) -> (r: Option<&VideoDownload>)
        requires
            old(self).wf(),
        ensures
            final(self).wf(),
            final(self).spec_items() == old(self).spec_items(),
            final(self).spec_last_sent_position() == old(self).spec_last_sent_position(),
            match old(self).spec_current_position() {
                Some(p) => {
                    if p + 1 < old(self).spec_items().len() {
                        &&& final(self).spec_current_position() == Some((p + 1) as usize)
                        &&& r is Some
                        &&& *r.unwrap() == old(self).spec_items()[p + 1]
                    } else {
                        &&& final(self).spec_current_position() == old(
                            self,
                        ).spec_current_position()
                        &&& r is None
                    }
                },
                None => final(self).spec_current_position() is None && r is None,
            },
    {
        let len = self.items.len();
        if let Some(pos) = self.current_position {
            if pos + 1 < len {
                self.current_position = Some(pos + 1);
                return Some(&self.items[pos + 1]);
            }
        }
        None
    }

    /// Moves the cursor back by one and returns the item there; a cursor
    /// that is unset or at the front stays put and nothing is returned.
    pub fn prev(&mut self) -> (r: Option<&VideoDownload>)
        requires
            old(self).wf(),
        ensures
            final(self).wf(),
            final(self).spec_items() == old(self).spec_items(),
            final(self).spec_last_sent_position() == old(self).spec_last_sent_position(),
            match old(self).spec_current_position() {
                Some(p) => {
                    if p > 0 {
                        &&& final(self).spec_current_position() == Some((p - 1) as usize)
                        &&& r is Some
                        &&& *r.unwrap() == old(self).spec_items()[p - 1]
                    } else {
                        &&& final(self).spec_current_position() == old(
                            self,
                        ).spec_current_position()
                        &&& r is None
                    }
                },
                None => final(self).spec_current_position() is None && r is None,
            },
    {
        if let Some(pos) = self.current_position {
            if pos > 0 {
                self.current_position = Some(pos - 1);
                return Some(&self.items[pos - 1]);
            }
        }
        None
    }

    /// A copy of the whole item sequence.
    pub fn as_vec(&self) -> (r: Vec<VideoDownload>)
        ensures
            r@ == self.spec_items(),
    {
        let total = self.items.len();
        let r = crate::ranking::clone_range(&self.items, 0, total);
        proof {
            assert(self.items@.subrange(0, self.items@.len() as int) =~= self.items@);
        }
        r
    }

    /// The first position not yet handed to the foreign boundary.
    pub open spec fn spec_unsent_from(self) -> int {
        match self.last_sent_position {
            Some(p) => p + 1,
            None => 0,
        }
    }

    /// Returns the items appended since the previous call and advances the
    /// high-water mark past them, so each item is handed out exactly once.
    pub fn new_content(&mut self) -> (r: Vec<VideoDownload>)
        requires
            old(self).wf(),
        ensures
            final(self).wf(),
            final(self).spec_items() == old(self).spec_items(),
            final(self).spec_current_position() == old(self).spec_current_position(),
            r@ == old(self).spec_items().skip(old(self).spec_unsent_from()),
            final(self).spec_unsent_from() == old(self).spec_items().len(),
    {
        let total = self.items.len();
        let from: usize = match self.last_sent_position {
            Some(p) => p + 1,
            None => 0,
        };
        let r = crate::ranking::clone_range(&self.items, from, total);
        proof {
            assert(self.items@.subrange(from as int, self.items@.len() as int) =~= self.items@.skip(
                from as int,
            ));
        }
        if total > 0 {
            self.last_sent_position = Some(total - 1);
        } else {
            self.last_sent_position = None;
        }
        r
    }
}

/// With distinct ids, [`spec_index_of_id`] names exactly the position that
/// carries the id.
pub proof fn lemma_index_of_id_unique(s: Seq<VideoDownload>, id: Seq<char>, j: int)
    requires
        spec_ids_distinct(s),
        0 <= j < s.len(),
        s[j].id@ == id,
    ensures
        spec_index_of_id(s, id) == j,
{
    assert(spec_contains_id(s, id));
    let i = spec_index_of_id(s, id);
    assert(0 <= i < s.len() && s[i].id@ == id);
    if i < j {
        assert(s[i].id@ != s[j].id@);
    }
    if j < i {
        assert(s[j].id@ != s[i].id@);
    }
}

/// An id is in a sequence extended by one item exactly when it was already
/// there or the new item carries it.
pub proof fn lemma_contains_id_push(s: Seq<VideoDownload>, v: VideoDownload, id: Seq<char>)
    ensures
        spec_contains_id(s.push(v), id) <==> (spec_contains_id(s, id) || v.id@ == id),
{
    if spec_contains_id(s.push(v), id) {
        let i = choose|i: int| 0 <= i < s.push(v).len() && s.push(v)[i].id@ == id;
        if i < s.len() {
            assert(s[i].id@ == id);
        }
    }
    if spec_contains_id(s, id) {
        let i = choose|i: int| 0 <= i < s.len() && s[i].id@ == id;
        assert(s.push(v)[i].id@ == id);
    }
    if v.id@ == id {
        assert(s.push(v)[s.len() as int].id@ == id);
    }
}

/// Law: appending the same snapshot twice is a no-op — the second append
/// finds the id already present and leaves the sequence unchanged.
pub proof fn lemma_add_idempotent(s: Seq<VideoDownload>, v: VideoDownload)
    ensures
        spec_add(spec_add(s, v), v) == spec_add(s, v),
{
    if !spec_contains_id(s, v.id@) {
        assert(s.push(v)[s.len() as int].id@ == v.id@);
        assert(spec_contains_id(s.push(v), v.id@));
    }
}

/// Law: the derived id-to-position index agrees with the item sequence —
/// whenever ids are distinct, looking up the id of the item at position `i`
/// yields `i` back.
pub proof fn lemma_items_by_id_agrees(s: Seq<VideoDownload>)
    requires
        spec_ids_distinct(s),
    ensures
        forall|i: int|
            0 <= i < s.len() ==> spec_items_by_id(s).dom().contains(#[trigger] s[i].id@)
                && spec_items_by_id(s)[s[i].id@] == i,
{
    assert forall|i: int| 0 <= i < s.len() implies spec_items_by_id(s).dom().contains(
        #[trigger] s[i].id@,
    ) && spec_items_by_id(s)[s[i].id@] == i by {
        assert(spec_contains_id(s, s[i].id@));
        let j = spec_index_of_id(s, s[i].id@);
        assert(0 <= j < s.len() && s[j].id@ == s[i].id@);
        if i < j {
            assert(s[i].id@ != s[j].id@);
        }
        if j < i {
            assert(s[j].id@ != s[i].id@);
        }
    }
}

} // verus!
