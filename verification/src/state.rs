//! The shared engine state: the discovered-video table, the watch playlist,
//! the playback cursor, the configuration limits, and the storage
//! accountant, together with the invariants that every engine transition
//! preserves:
//!
//! * the accounted storage bytes equal the bytes on disk — the sum of
//!   `downloaded_bytes` over the items that have a local file;
//! * the accounted storage never exceeds the configured ceiling;
//! * at most `max_parallel_downloads` items are downloading;
//! * ids in the table are unique.

use crate::models::VideoDownload;
use crate::playlist::{spec_ids_distinct, Playlist};
use vstd::prelude::*;

verus! {

/// The bytes an item keeps on disk: its downloaded bytes while it has a
/// local file, nothing otherwise.
pub open spec fn item_stored(v: VideoDownload) -> int {
    if v.local_path is Some {
        v.downloaded_bytes as int
    } else {
        0
    }
}

/// The bytes on disk across a table: the sum of [`item_stored`].
pub open spec fn spec_stored_bytes(s: Seq<VideoDownload>) -> int
    decreases s.len(),
{
    if s.len() == 0 {
        0
    } else {
        spec_stored_bytes(s.drop_last()) + item_stored(s.last())
    }
}

/// One if the item is downloading, zero otherwise.
pub open spec fn item_downloading(v: VideoDownload) -> int {
    if v.downloading {
        1
    } else {
        0
    }
}

/// How many items of a table are downloading.
pub open spec fn spec_count_downloading(s: Seq<VideoDownload>) -> int
    decreases s.len(),
{
    if s.len() == 0 {
        0
    } else {
        spec_count_downloading(s.drop_last()) + item_downloading(s.last())
    }
}

/// The stored-bytes sum is non-negative.
pub proof fn lemma_stored_bytes_nonneg(s: Seq<VideoDownload>)
    ensures
        spec_stored_bytes(s) >= 0,
    decreases s.len(),
{
    if s.len() > 0 {
        lemma_stored_bytes_nonneg(s.drop_last());
    }
}

/// The downloading count is non-negative.
pub proof fn lemma_count_downloading_nonneg(s: Seq<VideoDownload>)
    ensures
        spec_count_downloading(s) >= 0,
    decreases s.len(),
{
    if s.len() > 0 {
        lemma_count_downloading_nonneg(s.drop_last());
    }
}

/// Appending an item adds its contribution to both sums.
pub proof fn lemma_sums_push(s: Seq<VideoDownload>, v: VideoDownload)
    ensures
        spec_stored_bytes(s.push(v)) == spec_stored_bytes(s) + item_stored(v),
        spec_count_downloading(s.push(v)) == spec_count_downloading(s) + item_downloading(v),
{
    assert(s.push(v).drop_last() =~= s);
}

/// Replacing the item at `i` shifts both sums by the difference of the old
/// and new contributions.
pub proof fn lemma_sums_update(s: Seq<VideoDownload>, i: int, v: VideoDownload)
    requires
        0 <= i < s.len(),
    ensures
        spec_stored_bytes(s.update(i, v)) == spec_stored_bytes(s) - item_stored(s[i])
            + item_stored(v),
        spec_count_downloading(s.update(i, v)) == spec_count_downloading(s) - item_downloading(
            s[i],
        ) + item_downloading(v),
    decreases s.len(),
{
    if i == s.len() - 1 {
        assert(s.update(i, v).drop_last() =~= s.drop_last());
        assert(s.update(i, v).last() == v);
    } else {
        assert(s.update(i, v).drop_last() =~= s.drop_last().update(i, v));
        assert(s.update(i, v).last() == s.last());
        lemma_sums_update(s.drop_last(), i, v);
        assert(s.drop_last()[i] == s[i]);
    }
}

/// Every single item's contribution is bounded by the whole sum.
pub proof fn lemma_stored_bytes_ge_item(s: Seq<VideoDownload>, i: int)
    requires
        0 <= i < s.len(),
    ensures
        item_stored(s[i]) <= spec_stored_bytes(s),
    decreases s.len(),
{
    if i == s.len() - 1 {
        lemma_stored_bytes_nonneg(s.drop_last());
    } else {
        lemma_stored_bytes_ge_item(s.drop_last(), i);
        assert(s.drop_last()[i] == s[i]);
    }
}

/// Per-item sanity carried by every table entry: the last speed sample can
/// never have seen more bytes than have been downloaded.
pub open spec fn item_wf(v: VideoDownload) -> bool {
    v.last_speed_sample_bytes <= v.downloaded_bytes
}

/// All items of a table satisfy [`item_wf`].
pub open spec fn spec_items_wf(s: Seq<VideoDownload>) -> bool {
    forall|i: int| 0 <= i < s.len() ==> item_wf(#[trigger] s[i])
}

/// A record whose download has not begun: no file, no progress, not
/// downloading. Freshly discovered descriptors enter the table like this.
pub open spec fn spec_fresh_progress(v: VideoDownload) -> bool {
    &&& !v.downloading
    &&& v.local_path is None
    &&& v.downloaded_bytes == 0
    &&& v.last_speed_sample_bytes == 0
}

/// The shared state both halves of the system synchronize on.
pub struct AppState {
    /// The discovered-video table, keyed by id (ids are unique).
    pub discovered_videos: Vec<VideoDownload>,
    /// The player's current watch index.
    pub current_index: usize,
    /// The watch playlist.
    pub playlist: Playlist,
    /// Concurrency limit for simultaneous downloads.
    pub max_parallel_downloads: usize,
    /// How many videos ahead of the cursor to keep warm.
    pub max_ahead: usize,
    /// How many seconds of already-watched content to retain.
    pub max_behind_seconds: u64,
    /// The minutes target of the near look-ahead window.
    pub target_minutes_ahead: u64,
    /// The count target of the near look-ahead window.
    pub target_videos_ahead: usize,
    /// The storage ceiling in bytes.
    pub max_storage_bytes: u64,
    /// The storage accountant: bytes currently on disk.
    pub current_storage_bytes: u64,
}

impl AppState {
    /// The invariants of the shared state; every engine transition preserves
    /// them.
    pub open spec fn wf(self) -> bool {
        &&& spec_ids_distinct(self.discovered_videos@)
        &&& self.playlist.wf()
        &&& spec_items_wf(self.discovered_videos@)
        &&& spec_stored_bytes(self.discovered_videos@) == self.current_storage_bytes as int
        &&& self.current_storage_bytes <= self.max_storage_bytes
        &&& spec_count_downloading(self.discovered_videos@) <= self.max_parallel_downloads as int
    }

    /// Fresh state: an empty table and playlist, the cursor at zero, no
    /// bytes accounted, and the default look-ahead targets.
    pub fn new(
        max_parallel_downloads: usize,
        max_ahead: usize,
        max_behind_seconds: u64,
        max_storage_bytes: u64,
    ) -> (s: AppState)
        ensures
            s.wf(),
            s.discovered_videos@ == Seq::<VideoDownload>::empty(),
            s.current_index == 0,
            s.playlist.spec_items() == Seq::<VideoDownload>::empty(),
            s.max_parallel_downloads == max_parallel_downloads,
            s.max_ahead == max_ahead,
            s.max_behind_seconds == max_behind_seconds,
            s.target_minutes_ahead == 60,
            s.target_videos_ahead == 15,
            s.max_storage_bytes == max_storage_bytes,
            s.current_storage_bytes == 0,
    {
        AppState {
            discovered_videos: Vec::new(),
            current_index: 0,
            playlist: Playlist::new(),
            max_parallel_downloads,
            max_ahead,
            max_behind_seconds,
            target_minutes_ahead: 60,
            target_videos_ahead: 15,
            max_storage_bytes,
            current_storage_bytes: 0,
        }
    }

    /// Moves the playback cursor; everything else is untouched.
    pub fn set_index(&mut self, index: usize)
        requires
            old(self).wf(),
        ensures
            final(self).wf(),
            final(self).current_index == index,
            *final(self) == (AppState { current_index: index, ..*old(self) }),
    {
        self.current_index = index;
    }
}

/// Law: in every well-formed state the storage accountant equals the bytes
/// on disk — the sum of `downloaded_bytes` over the items that have a
/// local file. Every engine transition preserves well-formedness, so this
/// holds at every tick boundary.
pub proof fn lemma_storage_accounting(st: AppState)
    requires
        st.wf(),
    ensures
        spec_stored_bytes(st.discovered_videos@) == st.current_storage_bytes as int,
        st.current_storage_bytes <= st.max_storage_bytes,
{
}

/// Law: in every well-formed state at most `max_parallel_downloads` items
/// are downloading. Every engine transition preserves well-formedness, so
/// this holds at every tick boundary.
pub proof fn lemma_concurrency_bound(st: AppState)
    requires
        st.wf(),
    ensures
        spec_count_downloading(st.discovered_videos@) <= st.max_parallel_downloads as int,
{
}

} // verus!
