//! Read models for the serving surface: the status summary, the playback
//! cursor mutation, and the per-index lookups the video and thumbnail
//! endpoints need. The HTTP layer around them only moves bytes.

use crate::models::{spec_to_ffi, FfiVideoDownload, VideoDownload};
use crate::playlist::spec_index_of_id;
use crate::ranking::sum_item_seconds;
use crate::state::AppState;
use vstd::prelude::*;

verus! {

/// Query parameters of the video endpoint.
#[derive(Debug, Clone, Copy, PartialEq, Eq, Structural)]
pub struct VideoQuery {
    pub index: usize,
}

/// Body of the cursor mutation endpoint.
#[derive(Debug, Clone, Copy, PartialEq, Eq, Structural)]
pub struct SetIndexRequest {
    pub index: usize,
}

/// Query parameters of the thumbnail endpoint.
#[derive(Debug, Clone, Copy, PartialEq, Eq, Structural)]
pub struct ThumbnailQuery {
    pub index: usize,
}

/// The JSON summary the status endpoint reports.
#[derive(Debug)]
pub struct StatusResponse {
    pub current_index: usize,
    pub videos: Vec<VideoDownload>,
    pub used_storage_bytes: u64,
    pub max_storage_bytes: u64,
    pub total_download_speed_bps: u64,
    pub total_downloaded_minutes: u64,
}

/// An unbounded total clipped from above into the `u64` range.
pub open spec fn clip_u64(x: int) -> int {
    if x > u64::MAX {
        u64::MAX as int
    } else {
        x
    }
}

/// The summed download speed of a table, in bytes per second.
pub open spec fn sum_speed(s: Seq<VideoDownload>) -> int
    decreases s.len(),
{
    if s.len() == 0 {
        0
    } else {
        sum_speed(s.drop_last()) + s.last().download_speed_bps
    }
}

proof fn lemma_sum_speed_bound(s: Seq<VideoDownload>)
    ensures
        0 <= sum_speed(s) <= s.len() * u64::MAX,
    decreases s.len(),
{
    if s.len() > 0 {
        lemma_sum_speed_bound(s.drop_last());
        assert(s.len() * u64::MAX == (s.len() - 1) * u64::MAX + u64::MAX) by (nonlinear_arith);
    }
}

/// The status summary: the cursor, a copy of the table, the storage
/// accountant, the aggregate download speed, and the whole minutes of
/// known content duration (totals clipped into `u64`).
pub fn get_status(state: &AppState) -> (r: StatusResponse)
    ensures
        r.current_index == state.current_index,
        r.videos@ == state.discovered_videos@,
        r.used_storage_bytes == state.current_storage_bytes,
        r.max_storage_bytes == state.max_storage_bytes,
        r.total_download_speed_bps as int == clip_u64(sum_speed(state.discovered_videos@)),
        r.total_downloaded_minutes as int == clip_u64(
            sum_item_seconds(state.discovered_videos@) / 60,
        ),
{
    let ghost table = state.discovered_videos@;
    let total = state.discovered_videos.len();
    let videos = crate::ranking::clone_range(&state.discovered_videos, 0, total);
    proof {
        assert(table.subrange(0, table.len() as int) =~= table);
    }

    let mut speed: u128 = 0;
    let mut secs: u128 = 0;
    let mut i: usize = 0;
    while i < total
        invariant
            i <= total,
            total == table.len(),
            state.discovered_videos@ == table,
            speed == sum_speed(table.take(i as int)),
            secs == sum_item_seconds(table.take(i as int)),
        decreases total - i,
    {
        proof {
            lemma_sum_speed_bound(table.take(i as int));
            crate::ranking::lemma_sum_item_seconds_bound(table.take(i as int));
            assert(table.take(i as int).len() * u64::MAX + u64::MAX <= u128::MAX) by (
            nonlinear_arith)
                requires
                    0 <= table.take(i as int).len() <= usize::MAX,
            ;
            assert(table.take(i + 1).drop_last() =~= table.take(i as int));
            assert(table.take(i + 1).last() == table[i as int]);
        }
        let v = &state.discovered_videos[i];
        speed = speed + v.download_speed_bps as u128;
        let add: u64 = match v.length_seconds {
            Some(x) => x,
            None => 0,
        };
        secs = secs + add as u128;
        i = i + 1;
    }
    proof {
        assert(table.take(total as int) =~= table);
    }
    let total_download_speed_bps: u64 = if speed > u64::MAX as u128 {
        u64::MAX
    } else {
        speed as u64
    };
    let minutes: u128 = secs / 60;
    let total_downloaded_minutes: u64 = if minutes > u64::MAX as u128 {
        u64::MAX
    } else {
        minutes as u64
    };
    StatusResponse {
        current_index: state.current_index,
        videos,
        used_storage_bytes: state.current_storage_bytes,
        max_storage_bytes: state.max_storage_bytes,
        total_download_speed_bps,
        total_downloaded_minutes,
    }
}

impl AppState {
    /// The on-disk path of the video at playlist position `index`, looked
    /// up in the table under the entry's id; nothing when the position is
    /// out of range, the id is unknown, or no file exists yet.
    pub fn local_path_at(&self, index: usize) -> (r: Option<String>)
        requires
            self.wf(),
        ensures
            ({
                let items = self.playlist.spec_items();
                if index < items.len() && crate::playlist::spec_contains_id(
                    self.discovered_videos@,
                    items[index as int].id@,
                ) {
                    r == self.discovered_videos@[spec_index_of_id(
                        self.discovered_videos@,
                        items[index as int].id@,
                    )].local_path
                } else {
                    r is None
                }
            }),
    {
        if index >= self.playlist.items.len() {
            return None;
        }
        let id = &self.playlist.items[index].id;
        match crate::playlist::find_index_by_id(&self.discovered_videos, id) {
            Some(j) => {
                proof {
                    crate::playlist::lemma_index_of_id_unique(self.discovered_videos@, id@,
                        j as int);
                }
                crate::models::clone_opt_string(&self.discovered_videos[j].local_path)
            },
            None => None,
        }
    }

    /// The thumbnail path of the video at playlist position `index`;
    /// nothing when the position is out of range, the id is unknown, or no
    /// thumbnail has been extracted yet.
    pub fn thumbnail_path_at(&self, index: usize) -> (r: Option<String>)
        requires
            self.wf(),
        ensures
            ({
                let items = self.playlist.spec_items();
                if index < items.len() && crate::playlist::spec_contains_id(
                    self.discovered_videos@,
                    items[index as int].id@,
                ) {
                    r == self.discovered_videos@[spec_index_of_id(
                        self.discovered_videos@,
                        items[index as int].id@,
                    )].thumbnail_path
                } else {
                    r is None
                }
            }),
    {
        if index >= self.playlist.items.len() {
            return None;
        }
        let id = &self.playlist.items[index].id;
        match crate::playlist::find_index_by_id(&self.discovered_videos, id) {
            Some(j) => {
                proof {
                    crate::playlist::lemma_index_of_id_unique(self.discovered_videos@, id@,
                        j as int);
                }
                crate::models::clone_opt_string(&self.discovered_videos[j].thumbnail_path)
            },
            None => None,
        }
    }

    /// Flattens the playlist entries appended since the previous call for
    /// the foreign boundary and advances the high-water mark past them.
    pub fn list_new_videos(&mut self) -> (r: Vec<FfiVideoDownload>)
        requires
            old(self).wf(),
        ensures
            final(self).wf(),
            final(self).discovered_videos == old(self).discovered_videos,
            final(self).current_index == old(self).current_index,
            final(self).playlist.spec_items() == old(self).playlist.spec_items(),
            final(self).playlist.spec_current_position() == old(
                self,
            ).playlist.spec_current_position(),
            ({
                let fresh = old(self).playlist.spec_items().skip(
                    old(self).playlist.spec_unsent_from(),
                );
                r@.len() == fresh.len() && forall|k: int|
                    0 <= k < fresh.len() ==> r@[k] == spec_to_ffi(#[trigger] fresh[k])
            }),
            final(self).playlist.spec_unsent_from() == old(self).playlist.spec_items().len(),
    {
        let fresh = self.playlist.new_content();
        let ghost fresh_seq = fresh@;
        let mut r: Vec<FfiVideoDownload> = Vec::new();
        let mut i: usize = 0;
        while i < fresh.len()
            invariant
                i <= fresh_seq.len(),
                fresh@ == fresh_seq,
                r@.len() == i,
                forall|k: int| 0 <= k < i ==> r@[k] == spec_to_ffi(#[trigger] fresh_seq[k]),
            decreases fresh_seq.len() - i,
        {
            r.push(FfiVideoDownload::from_video(&fresh[i]));
            i = i + 1;
        }
        r
    }
}

} // verus!
