//! The download manager: ingestion of newly discovered videos, the ranked
//! download queue, admission under the concurrency limit, the per-download
//! progress transitions, behind-limit eviction, and explicit stops.
//!
//! Every transition here is pure state logic. The surrounding binary
//! performs the HTTP requests, file writes and deletions the transitions
//! call for, and reports the outcomes back as plain values.

use crate::models::{VideoDownload, VideoMetadata};
use crate::playlist::{
    find_index_by_id, spec_add, spec_contains_id, spec_ids_distinct, spec_index_of_id,
};
use crate::ranking::{rank_spec, sort_videos_for_download};
use crate::state::{
    item_stored, item_wf, lemma_count_downloading_nonneg, lemma_stored_bytes_ge_item,
    lemma_stored_bytes_nonneg, lemma_sums_push, lemma_sums_update, spec_count_downloading,
    spec_fresh_progress, spec_items_wf, spec_stored_bytes, AppState,
};
use vstd::pervasive::VecAdditionalExecFns;
use vstd::prelude::*;

verus! {

/// Whether a record already has (or still has) a file on disk.
fn has_local_file(video: &VideoDownload) -> (r: bool)
    ensures
        r == (video.local_path is Some),
{
    video.local_path.is_some()
}

/// The download candidates of a table: the items that do not yet have a
/// local file, in table order.
pub open spec fn spec_candidates(s: Seq<VideoDownload>) -> Seq<VideoDownload>
    decreases s.len(),
{
    if s.len() == 0 {
        Seq::empty()
    } else {
        let rest = spec_candidates(s.drop_last());
        if s.last().local_path is None {
            rest.push(s.last())
        } else {
            rest
        }
    }
}

/// A batch merged into a table, keeping the first record for each id: a
/// later record whose id is already present is dropped.
pub open spec fn spec_ingest(s: Seq<VideoDownload>, batch: Seq<VideoDownload>) -> Seq<
    VideoDownload,
>
    decreases batch.len(),
{
    if batch.len() == 0 {
        s
    } else {
        spec_add(spec_ingest(s, batch.drop_last()), batch.last())
    }
}

/// Law: ingestion only ever grows the id set of the table — every id
/// present before a merge is still present after it.
pub proof fn lemma_ingest_monotone(s: Seq<VideoDownload>, batch: Seq<VideoDownload>, id: Seq<char>)
    requires
        spec_contains_id(s, id),
    ensures
        spec_contains_id(spec_ingest(s, batch), id),
    decreases batch.len(),
{
    if batch.len() > 0 {
        lemma_ingest_monotone(s, batch.drop_last(), id);
        let t = spec_ingest(s, batch.drop_last());
        let w = choose|i: int| 0 <= i < t.len() && t[i].id@ == id;
        if !spec_contains_id(t, batch.last().id@) {
            assert(t.push(batch.last())[w].id@ == id);
        }
    }
}

/// The download manager: the shared state plus the ranked queue of
/// downloads that are in progress or ready to start.
pub struct DownloadManager {
    pub state: AppState,
    pub download_queue: Vec<VideoDownload>,
}

impl DownloadManager {
    /// The manager is well-formed exactly when its shared state is.
    pub open spec fn wf(self) -> bool {
        self.state.wf()
    }

    /// A manager over the given state, with an empty queue.
    pub fn new(state: AppState) -> (dm: DownloadManager)
        ensures
            dm.state == state,
            dm.download_queue@ == Seq::<VideoDownload>::empty(),
    {
        DownloadManager { state, download_queue: Vec::new() }
    }

    /// Merges a batch of newly discovered records into the table, keyed by
    /// id; an id collision is a no-op, so the first record wins and
    /// progress fields are never overwritten by ingestion. Each new record
    /// must be fresh: no file, no progress, not downloading.
    pub fn ingest_videos(&mut self, new_batch: Vec<VideoDownload>)
        requires
            old(self).wf(),
            forall|i: int|
                0 <= i < new_batch@.len() ==> spec_fresh_progress(#[trigger] new_batch@[i]),
        ensures
            final(self).wf(),
            final(self).state.discovered_videos@ == spec_ingest(
                old(self).state.discovered_videos@,
                new_batch@,
            ),
            final(self).state.current_storage_bytes == old(self).state.current_storage_bytes,
            final(self).state.playlist == old(self).state.playlist,
            final(self).state.current_index == old(self).state.current_index,
            final(self).download_queue == old(self).download_queue,
            final(self).state.max_parallel_downloads == old(self).state.max_parallel_downloads,
            final(self).state.max_storage_bytes == old(self).state.max_storage_bytes,
    {
        let ghost s0 = self.state.discovered_videos@;
        let ghost batch = new_batch@;
        let mut i: usize = 0;
        while i < new_batch.len()
            invariant
                i <= batch.len(),
                new_batch@ == batch,
                forall|k: int| 0 <= k < batch.len() ==> spec_fresh_progress(#[trigger] batch[k]),
                self.state.discovered_videos@ == spec_ingest(s0, batch.take(i as int)),
                self.state.wf(),
                self.state.current_storage_bytes == old(self).state.current_storage_bytes,
                self.state.playlist == old(self).state.playlist,
                self.state.current_index == old(self).state.current_index,
                self.download_queue == old(self).download_queue,
                self.state.max_parallel_downloads == old(self).state.max_parallel_downloads,
                self.state.max_storage_bytes == old(self).state.max_storage_bytes,
                self.state.max_behind_seconds == old(self).state.max_behind_seconds,
                self.state.target_minutes_ahead == old(self).state.target_minutes_ahead,
                self.state.target_videos_ahead == old(self).state.target_videos_ahead,
                self.state.max_ahead == old(self).state.max_ahead,
            decreases batch.len() - i,
        {
            let v = new_batch[i].clone();
            let ghost table = self.state.discovered_videos@;
            match find_index_by_id(&self.state.discovered_videos, &v.id) {
                Some(_) => {
                    proof {
                        assert(spec_contains_id(table, v.id@));
                        assert(spec_add(table, batch[i as int]) == table);
                    }
                },
                None => {
                    self.state.discovered_videos.push(v);
                    proof {
                        lemma_sums_push(table, batch[i as int]);
                        assert(spec_ids_distinct(table.push(batch[i as int]))) by {
                            assert forall|a: int, b: int|
                                0 <= a < b < table.push(batch[i as int]).len() implies #[trigger] table.push(
                                batch[i as int],
                            )[a].id@ != #[trigger] table.push(batch[i as int])[b].id@ by {
                                if b < table.len() {
                                    assert(table[a].id@ != table[b].id@);
                                } else {
                                    assert(!spec_contains_id(table, batch[i as int].id@));
                                    assert(table.push(batch[i as int])[a] == table[a]);
                                }
                            }
                        }
                        assert(spec_items_wf(table.push(batch[i as int]))) by {
                            assert forall|k: int|
                                0 <= k < table.push(batch[i as int]).len() implies item_wf(
                                #[trigger] table.push(batch[i as int])[k],
                            ) by {
                                if k < table.len() {
                                    assert(table.push(batch[i as int])[k] == table[k]);
                                }
                            }
                        }
                    }
                },
            }
            proof {
                assert(batch.take(i + 1).drop_last() =~= batch.take(i as int));
                assert(batch.take(i + 1).last() == batch[i as int]);
            }
            i = i + 1;
        }
        proof {
            assert(batch.take(batch.len() as int) =~= batch);
        }
    }

    /// Recomputes the download queue: the items of the table that have no
    /// local file, ranked with the two-phase rule, replace the previous
    /// queue wholesale. The new queue is a permutation of those candidates.
    pub fn update_download_queue(&mut self)
        requires
            old(self).wf(),
        ensures
            final(self).wf(),
            final(self).state == old(self).state,
            final(self).download_queue@ == rank_spec(
                spec_candidates(old(self).state.discovered_videos@),
                old(self).state.target_videos_ahead as int,
                old(self).state.target_minutes_ahead as int * 60,
            ),
            final(self).download_queue@.to_multiset() == spec_candidates(
                old(self).state.discovered_videos@,
            ).to_multiset(),
    {
        let ghost table = self.state.discovered_videos@;
        let mut candidates: Vec<VideoDownload> = Vec::new();
        let mut i: usize = 0;
        while i < self.state.discovered_videos.len()
            invariant
                i <= table.len(),
                self.state.discovered_videos@ == table,
                candidates@ == spec_candidates(table.take(i as int)),
            decreases table.len() - i,
        {
            let v = &self.state.discovered_videos[i];
            proof {
                assert(table.take(i + 1).drop_last() =~= table.take(i as int));
                assert(table.take(i + 1).last() == table[i as int]);
            }
            if !has_local_file(v) {
                let c = v.clone();
                candidates.push(c);
            }
            i = i + 1;
        }
        proof {
            assert(table.take(table.len() as int) =~= table);
        }
        sort_videos_for_download(
            &mut candidates,
            self.state.target_videos_ahead,
            self.state.target_minutes_ahead,
        );
        self.download_queue = candidates;
        proof {
            crate::ranking::lemma_rank_permutation(
                spec_candidates(table),
                self.state.target_videos_ahead as int,
                self.state.target_minutes_ahead as int * 60,
            );
        }
    }
    /// Counts the items of the table that are currently downloading.
    fn count_active(&self) -> (r: usize)
        ensures
            r == spec_count_downloading(self.state.discovered_videos@),
    {
        let ghost table = self.state.discovered_videos@;
        let mut active: usize = 0;
        let mut i: usize = 0;
        while i < self.state.discovered_videos.len()
            invariant
                i <= table.len(),
                self.state.discovered_videos@ == table,
                active <= i,
                active == spec_count_downloading(table.take(i as int)),
            decreases table.len() - i,
        {
            proof {
                assert(table.take(i + 1).drop_last() =~= table.take(i as int));
                assert(table.take(i + 1).last() == table[i as int]);
            }
            if self.state.discovered_videos[i].downloading {
                active = active + 1;
            }
            i = i + 1;
        }
        proof {
            assert(table.take(table.len() as int) =~= table);
        }
        active
    }

    /// Admits queued downloads while the concurrency limit allows: takes
    /// from the head of the queue the next non-downloading items, marks
    /// them as downloading on both the queue entry and its table twin, and
    /// returns their pre-admission snapshots so the caller can start one
    /// download task per item. Afterwards at most `max_parallel_downloads`
    /// table items are downloading.
    pub fn admit_downloads(&mut self) -> (started: Vec<VideoDownload>)
        requires
            old(self).wf(),
        ensures
            final(self).wf(),
            spec_count_downloading(final(self).state.discovered_videos@)
                <= final(self).state.max_parallel_downloads as int,
            started@ == spec_pick(
                old(self).download_queue@,
                old(self).state.max_parallel_downloads as int - spec_count_downloading(
                    old(self).state.discovered_videos@,
                ),
            ),
            final(self).download_queue@ == spec_pick_flags(
                old(self).download_queue@,
                old(self).state.max_parallel_downloads as int - spec_count_downloading(
                    old(self).state.discovered_videos@,
                ),
            ),
            final(self).state.discovered_videos@.len()
                == old(self).state.discovered_videos@.len(),
            forall|j: int|
                0 <= j < old(self).state.discovered_videos@.len()
                    ==> #[trigger] final(self).state.discovered_videos@[j] == (if spec_contains_id(
                    started@,
                    old(self).state.discovered_videos@[j].id@,
                ) {
                    spec_mark_downloading(old(self).state.discovered_videos@[j])
                } else {
                    old(self).state.discovered_videos@[j]
                }),
            final(self).state.current_storage_bytes == old(self).state.current_storage_bytes,
            final(self).state.playlist == old(self).state.playlist,
            final(self).state.current_index == old(self).state.current_index,
            final(self).state.max_parallel_downloads == old(self).state.max_parallel_downloads,
            final(self).state.max_storage_bytes == old(self).state.max_storage_bytes,
    {
        let ghost table0 = self.state.discovered_videos@;
        let ghost q0 = self.download_queue@;
        let active = self.count_active();
        let ghost k = self.state.max_parallel_downloads as int - active as int;
        if active >= self.state.max_parallel_downloads {
            proof {
                lemma_count_downloading_nonneg(table0);
            }
            return Vec::new();
        }
        let limit: usize = self.state.max_parallel_downloads - active;
        proof {
            assert(limit as int == k);
        }
        let mut started: Vec<VideoDownload> = Vec::new();
        let mut c: usize = 0;
        let mut i: usize = 0;
        proof {
            assert(q0.skip(0) =~= q0);
            assert(Seq::<VideoDownload>::empty() + spec_pick(q0, k) =~= spec_pick(q0, k));
            assert(self.download_queue@.take(0) =~= Seq::<VideoDownload>::empty());
            assert(Seq::<VideoDownload>::empty() + spec_pick_flags(q0, k) =~= spec_pick_flags(
                q0,
                k,
            ));
        }
        while i < self.download_queue.len() && c < limit
            invariant
                old(self).wf(),
                table0 == old(self).state.discovered_videos@,
                q0 == old(self).download_queue@,
                i <= q0.len(),
                c <= limit,
                limit as int == k,
                active == spec_count_downloading(table0),
                active as int + k == old(self).state.max_parallel_downloads as int,
                self.download_queue@.len() == q0.len(),
                self.download_queue@.skip(i as int) == q0.skip(i as int),
                started@.len() == c,
                spec_pick(q0, k) == started@ + spec_pick(q0.skip(i as int), k - c),
                spec_pick_flags(q0, k) == self.download_queue@.take(i as int) + spec_pick_flags(
                    q0.skip(i as int),
                    k - c,
                ),
                self.state.discovered_videos@.len() == table0.len(),
                forall|j: int|
                    0 <= j < table0.len() ==> #[trigger] self.state.discovered_videos@[j] == (
                    if spec_contains_id(started@, table0[j].id@) {
                        spec_mark_downloading(table0[j])
                    } else {
                        table0[j]
                    }),
                spec_count_downloading(self.state.discovered_videos@) <= active as int + c,
                spec_ids_distinct(self.state.discovered_videos@),
                spec_items_wf(self.state.discovered_videos@),
                spec_stored_bytes(self.state.discovered_videos@) == spec_stored_bytes(table0),
                self.state.current_storage_bytes == old(self).state.current_storage_bytes,
                self.state.playlist == old(self).state.playlist,
                self.state.current_index == old(self).state.current_index,
                self.state.max_parallel_downloads == old(self).state.max_parallel_downloads,
                self.state.max_storage_bytes == old(self).state.max_storage_bytes,
                self.state.max_behind_seconds == old(self).state.max_behind_seconds,
                self.state.target_minutes_ahead == old(self).state.target_minutes_ahead,
                self.state.target_videos_ahead == old(self).state.target_videos_ahead,
                self.state.max_ahead == old(self).state.max_ahead,
            decreases q0.len() - i,
        {
            let ghost gi = i as int;
            let ghost gc = c as int;
            let ghost q_pre = self.download_queue@;
            let ghost s_pre = started@;
            proof {
                assert(q_pre[gi] == q0.skip(gi)[0]);
                assert(q0.skip(gi)[0] == q0[gi]);
                assert(q0.skip(gi).drop_first() =~= q0.skip(gi + 1));
            }
            let is_down = self.download_queue[i].downloading;
            if !is_down {
                let item = self.download_queue[i].clone();
                let mut flagged = item.clone();
                flagged.downloading = true;
                proof {
                    assert(flagged == spec_mark_downloading(q0[gi]));
                }
                self.download_queue.set(i, flagged);
                let ghost cur_table = self.state.discovered_videos@;
                match find_index_by_id(&self.state.discovered_videos, &item.id) {
                    Some(j) => {
                        let mut twin = self.state.discovered_videos[j].clone();
                        twin.downloading = true;
                        self.state.discovered_videos.set(j, twin);
                        proof {
                            lemma_sums_update(cur_table, j as int, twin);
                            assert(spec_ids_distinct(self.state.discovered_videos@)) by {
                                assert forall|a: int, b: int|
                                    0 <= a < b < table0.len() implies #[trigger] self.state.discovered_videos@[a].id@
                                    != #[trigger] self.state.discovered_videos@[b].id@ by {
                                    assert(self.state.discovered_videos@[a].id@
                                        == table0[a].id@);
                                    assert(self.state.discovered_videos@[b].id@
                                        == table0[b].id@);
                                }
                            }
                        }
                    },
                    None => {},
                }
                started.push(item);
                proof {
                    // The table mapping: the freshly started id is now
                    // flagged; everything else is as before.
                    assert forall|j: int|
                        0 <= j < table0.len() implies #[trigger] self.state.discovered_videos@[j]
                        == (if spec_contains_id(started@, table0[j].id@) {
                        spec_mark_downloading(table0[j])
                    } else {
                        table0[j]
                    }) by {
                        crate::playlist::lemma_contains_id_push(s_pre, q0[gi], table0[j].id@);
                        assert(s_pre.push(q0[gi]) =~= started@);
                        assert(cur_table[j] == (if spec_contains_id(s_pre, table0[j].id@) {
                            spec_mark_downloading(table0[j])
                        } else {
                            table0[j]
                        }));
                    }
                    assert(spec_items_wf(self.state.discovered_videos@)) by {
                        assert(spec_items_wf(table0));
                        assert forall|j: int|
                            0 <= j < table0.len() implies item_wf(
                            #[trigger] self.state.discovered_videos@[j],
                        ) by {
                            assert(item_wf(table0[j]));
                        }
                    }
                    // One step of the picked-items equation.
                    let rest = spec_pick(q0.skip(gi + 1), k - gc - 1);
                    assert(spec_pick(q0.skip(gi), k - gc) == seq![q0[gi]] + rest);
                    assert(started@ =~= s_pre + seq![q0[gi]]);
                    assert(s_pre + (seq![q0[gi]] + rest) =~= started@ + rest);
                    // One step of the queue-flags equation.
                    let frest = spec_pick_flags(q0.skip(gi + 1), k - gc - 1);
                    assert(spec_pick_flags(q0.skip(gi), k - gc) == seq![
                        spec_mark_downloading(q0[gi]),
                    ] + frest);
                    assert(self.download_queue@.take(gi) =~= q_pre.take(gi));
                    assert(self.download_queue@.take(gi + 1) =~= q_pre.take(gi) + seq![
                        spec_mark_downloading(q0[gi]),
                    ]);
                    assert(q_pre.take(gi) + (seq![spec_mark_downloading(q0[gi])] + frest)
                        =~= self.download_queue@.take(gi + 1) + frest);
                }
                c = c + 1;
            } else {
                proof {
                    // The item stays as it is; both equations pass over it.
                    let rest = spec_pick(q0.skip(gi + 1), k - gc);
                    assert(spec_pick(q0.skip(gi), k - gc) == rest);
                    let frest = spec_pick_flags(q0.skip(gi + 1), k - gc);
                    assert(spec_pick_flags(q0.skip(gi), k - gc) == seq![q0[gi]] + frest);
                    assert(self.download_queue@.take(gi + 1) =~= self.download_queue@.take(gi)
                        + seq![q0[gi]]);
                    assert(self.download_queue@.take(gi) + (seq![q0[gi]] + frest)
                        =~= self.download_queue@.take(gi + 1) + frest);
                }
            }
            proof {
                assert(self.download_queue@.skip(i + 1) =~= q0.skip(i + 1));
            }
            i = i + 1;
        }
        proof {
            if i == q0.len() {
                assert(q0.skip(i as int) =~= Seq::<VideoDownload>::empty());
                assert(spec_pick(q0.skip(i as int), k - c) =~= Seq::<VideoDownload>::empty());
            }
            assert(started@ + Seq::<VideoDownload>::empty() =~= started@);
            assert(spec_pick_flags(q0.skip(i as int), k - c) == q0.skip(i as int));
            assert(self.download_queue@.take(i as int) + q0.skip(i as int)
                =~= self.download_queue@);
        }
        started
    }

    /// Replaces table entry `j` by `v` (same id) and re-balances the
    /// storage accountant by the entry's stored-bytes delta, so the
    /// accountant keeps matching the bytes on disk.
    fn replace_entry_balanced(&mut self, j: usize, v: VideoDownload)
        requires
            old(self).wf(),
            j < old(self).state.discovered_videos@.len(),
            v.id@ == old(self).state.discovered_videos@[j as int].id@,
            item_wf(v),
            v.downloading ==> old(self).state.discovered_videos@[j as int].downloading,
            old(self).state.current_storage_bytes - item_stored(
                old(self).state.discovered_videos@[j as int],
            ) + item_stored(v) <= old(self).state.max_storage_bytes,
        ensures
            final(self).wf(),
            final(self).state.discovered_videos@ == old(self).state.discovered_videos@.update(
                j as int,
                v,
            ),
            final(self).state.current_storage_bytes as int == old(
                self,
            ).state.current_storage_bytes - item_stored(
                old(self).state.discovered_videos@[j as int],
            ) + item_stored(v),
            final(self).download_queue == old(self).download_queue,
            final(self).state.playlist == old(self).state.playlist,
            final(self).state.current_index == old(self).state.current_index,
            final(self).state.max_parallel_downloads == old(self).state.max_parallel_downloads,
            final(self).state.max_storage_bytes == old(self).state.max_storage_bytes,
            final(self).state.max_behind_seconds == old(self).state.max_behind_seconds,
            final(self).state.target_minutes_ahead == old(self).state.target_minutes_ahead,
            final(self).state.target_videos_ahead == old(self).state.target_videos_ahead,
            final(self).state.max_ahead == old(self).state.max_ahead,
    {
        let ghost table = self.state.discovered_videos@;
        proof {
            lemma_stored_bytes_ge_item(table, j as int);
            lemma_stored_bytes_nonneg(table);
        }
        let refund: u64 = {
            let cur = &self.state.discovered_videos[j];
            if cur.local_path.is_some() {
                cur.downloaded_bytes
            } else {
                0
            }
        };
        let add: u64 = if v.local_path.is_some() {
            v.downloaded_bytes
        } else {
            0
        };
        self.state.current_storage_bytes = self.state.current_storage_bytes - refund + add;
        self.state.discovered_videos.set(j, v);
        proof {
            lemma_sums_update(table, j as int, v);
            assert(spec_ids_distinct(self.state.discovered_videos@)) by {
                assert forall|a: int, b: int|
                    0 <= a < b < table.len() implies #[trigger] self.state.discovered_videos@[a].id@
                    != #[trigger] self.state.discovered_videos@[b].id@ by {
                    assert(self.state.discovered_videos@[a].id@ == table[a].id@);
                    assert(self.state.discovered_videos@[b].id@ == table[b].id@);
                }
            }
            assert(spec_items_wf(self.state.discovered_videos@)) by {
                assert forall|x: int|
                    0 <= x < table.len() implies item_wf(
                    #[trigger] self.state.discovered_videos@[x],
                ) by {
                    assert(item_wf(table[x]));
                }
            }
        }
    }

    /// Applies the response of the streaming GET for `id`: the announced
    /// content length (when the response carries one), the freshly created
    /// output file, and a progress counter starting at zero. Returns
    /// whether the id was found.
    pub fn on_download_response(
        &mut self,
        id: &String,
        response_length: Option<u64>,
        local_path: String,
    ) -> (r: bool)
        requires
            old(self).wf(),
        ensures
            final(self).wf(),
            final(self).download_queue == old(self).download_queue,
            final(self).state.playlist == old(self).state.playlist,
            final(self).state.current_index == old(self).state.current_index,
            final(self).state.max_parallel_downloads == old(self).state.max_parallel_downloads,
            final(self).state.max_storage_bytes == old(self).state.max_storage_bytes,
            r == spec_contains_id(old(self).state.discovered_videos@, id@),
            !r ==> *final(self) == *old(self),
            r ==> {
                let table = old(self).state.discovered_videos@;
                let j = spec_index_of_id(table, id@);
                &&& final(self).state.discovered_videos@ == table.update(
                    j,
                    spec_response_step(table[j], response_length, local_path),
                )
                &&& final(self).state.current_storage_bytes as int == old(
                    self,
                ).state.current_storage_bytes - item_stored(table[j])
            },
    {
        let ghost table = self.state.discovered_videos@;
        match find_index_by_id(&self.state.discovered_videos, id) {
            Some(j) => {
                let mut entry = self.state.discovered_videos[j].clone();
                match response_length {
                    Some(cl) => {
                        entry.content_length = Some(cl);
                    },
                    None => {},
                }
                entry.local_path = Some(local_path);
                entry.downloaded_bytes = 0;
                entry.last_speed_sample_bytes = 0;
                proof {
                    assert(entry == spec_response_step(table[j as int], response_length,
                        local_path));
                    lemma_stored_bytes_ge_item(table, j as int);
                    crate::playlist::lemma_index_of_id_unique(table, id@, j as int);
                }
                self.replace_entry_balanced(j, entry);
                true
            },
            None => false,
        }
    }

    /// Accounts one received chunk for `id` at time `now_ms` (a
    /// milliseconds clock): the storage check-and-increment, the progress
    /// counter, and the sliding download-speed sample, which is recomputed
    /// only when at least a second has passed. The caller writes the chunk
    /// to disk only on [`ChunkOutcome::Accepted`].
    pub fn record_chunk(&mut self, id: &String, chunk_len: u64, now_ms: u64) -> (r: ChunkOutcome)
        requires
            old(self).wf(),
        ensures
            final(self).wf(),
            final(self).download_queue == old(self).download_queue,
            final(self).state.playlist == old(self).state.playlist,
            final(self).state.current_index == old(self).state.current_index,
            final(self).state.max_parallel_downloads == old(self).state.max_parallel_downloads,
            final(self).state.max_storage_bytes == old(self).state.max_storage_bytes,
            ({
                let table = old(self).state.discovered_videos@;
                if !spec_contains_id(table, id@) {
                    r == ChunkOutcome::NotTracked && *final(self) == *old(self)
                } else {
                    let j = spec_index_of_id(table, id@);
                    if table[j].local_path is None {
                        r == ChunkOutcome::NotTracked && *final(self) == *old(self)
                    } else if old(self).state.current_storage_bytes + chunk_len > old(
                        self,
                    ).state.max_storage_bytes {
                        r == ChunkOutcome::StorageExceeded && *final(self) == *old(self)
                    } else {
                        &&& r == ChunkOutcome::Accepted
                        &&& final(self).state.discovered_videos@ == table.update(
                            j,
                            spec_chunk_step(table[j], chunk_len, now_ms),
                        )
                        &&& final(self).state.current_storage_bytes == old(
                            self,
                        ).state.current_storage_bytes + chunk_len
                    }
                }
            }),
    {
        let ghost table = self.state.discovered_videos@;
        match find_index_by_id(&self.state.discovered_videos, id) {
            Some(j) => {
                proof {
                    crate::playlist::lemma_index_of_id_unique(table, id@, j as int);
                }
                let has_file = self.state.discovered_videos[j].local_path.is_some();
                if !has_file {
                    return ChunkOutcome::NotTracked;
                }
                if chunk_len > self.state.max_storage_bytes - self.state.current_storage_bytes {
                    return ChunkOutcome::StorageExceeded;
                }
                let mut entry = self.state.discovered_videos[j].clone();
                proof {
                    lemma_stored_bytes_ge_item(table, j as int);
                    assert(item_stored(table[j as int]) == entry.downloaded_bytes as int);
                }
                let db: u64 = entry.downloaded_bytes + chunk_len;
                entry.downloaded_bytes = db;
                match entry.last_speed_sample_time_ms {
                    None => {
                        entry.last_speed_sample_time_ms = Some(now_ms);
                        entry.last_speed_sample_bytes = db;
                        entry.download_speed_bps = 0;
                    },
                    Some(prev) => {
                        if now_ms >= 1000 && now_ms - 1000 >= prev {
                            let dt: u64 = now_ms - prev;
                            let diff: u64 = db - entry.last_speed_sample_bytes;
                            let q: u128 = (diff as u128) * 1000 / (dt as u128);
                            proof {
                                lemma_speed_quotient_fits(diff as int, dt as int);
                            }
                            entry.download_speed_bps = q as u64;
                            entry.last_speed_sample_time_ms = Some(now_ms);
                            entry.last_speed_sample_bytes = db;
                        }
                    },
                }
                proof {
                    assert(entry == spec_chunk_step(table[j as int], chunk_len, now_ms));
                }
                self.replace_entry_balanced(j, entry);
                ChunkOutcome::Accepted
            },
            None => ChunkOutcome::NotTracked,
        }
    }

    /// Removes the first queue entry carrying `id`, if any.
    fn remove_queue_entry(&mut self, id: &String) -> (removed: bool)
        ensures
            final(self).download_queue@ == spec_remove_id(old(self).download_queue@, id@),
            removed == spec_contains_id(old(self).download_queue@, id@),
            final(self).state == old(self).state,
    {
        let ghost q = self.download_queue@;
        match find_index_by_id(&self.download_queue, id) {
            Some(p) => {
                self.download_queue.remove(p);
                proof {
                    lemma_remove_id_at(q, id@, p as int);
                }
                true
            },
            None => {
                proof {
                    lemma_remove_id_absent(q, id@);
                }
                false
            },
        }
    }

    /// Completes the download of `id`: the record is no longer downloading,
    /// its queue entry is dropped, and a snapshot of the finished record is
    /// appended to the playlist (idempotently on its id).
    pub fn finish_download(&mut self, id: &String) -> (found: bool)
        requires
            old(self).wf(),
        ensures
            final(self).wf(),
            final(self).download_queue@ == spec_remove_id(old(self).download_queue@, id@),
            final(self).state.current_index == old(self).state.current_index,
            final(self).state.current_storage_bytes == old(self).state.current_storage_bytes,
            final(self).state.max_parallel_downloads == old(self).state.max_parallel_downloads,
            final(self).state.max_storage_bytes == old(self).state.max_storage_bytes,
            found == spec_contains_id(old(self).state.discovered_videos@, id@),
            !found ==> final(self).state.discovered_videos@ == old(
                self,
            ).state.discovered_videos@ && final(self).state.playlist == old(self).state.playlist,
            found ==> {
                let table = old(self).state.discovered_videos@;
                let j = spec_index_of_id(table, id@);
                &&& final(self).state.discovered_videos@ == table.update(
                    j,
                    spec_mark_not_downloading(table[j]),
                )
                &&& final(self).state.playlist.spec_items() == spec_add(
                    old(self).state.playlist.spec_items(),
                    spec_mark_not_downloading(table[j]),
                )
                &&& final(self).state.playlist.spec_current_position() == old(
                    self,
                ).state.playlist.spec_current_position()
            },
    {
        let ghost table = self.state.discovered_videos@;
        self.remove_queue_entry(id);
        match find_index_by_id(&self.state.discovered_videos, id) {
            Some(j) => {
                let mut entry = self.state.discovered_videos[j].clone();
                entry.downloading = false;
                proof {
                    assert(entry == spec_mark_not_downloading(table[j as int]));
                    lemma_stored_bytes_ge_item(table, j as int);
                    crate::playlist::lemma_index_of_id_unique(table, id@, j as int);
                }
                let snapshot = entry.clone();
                self.replace_entry_balanced(j, entry);
                self.state.playlist.add(snapshot);
                true
            },
            None => false,
        }
    }

    /// Fails the download of `id`: the record is no longer downloading, its
    /// queue entry is dropped, the partial progress is discarded and its
    /// bytes are refunded to the accountant. Returns the path of the
    /// partial file for the caller to delete.
    pub fn fail_download(&mut self, id: &String) -> (stale: Option<String>)
        requires
            old(self).wf(),
        ensures
            final(self).wf(),
            final(self).download_queue@ == spec_remove_id(old(self).download_queue@, id@),
            final(self).state.playlist == old(self).state.playlist,
            final(self).state.current_index == old(self).state.current_index,
            final(self).state.max_parallel_downloads == old(self).state.max_parallel_downloads,
            final(self).state.max_storage_bytes == old(self).state.max_storage_bytes,
            ({
                let table = old(self).state.discovered_videos@;
                if !spec_contains_id(table, id@) {
                    &&& stale is None
                    &&& final(self).state.discovered_videos@ == table
                    &&& final(self).state.current_storage_bytes == old(
                        self,
                    ).state.current_storage_bytes
                } else {
                    let j = spec_index_of_id(table, id@);
                    &&& stale == table[j].local_path
                    &&& final(self).state.discovered_videos@ == table.update(
                        j,
                        spec_failed_step(table[j]),
                    )
                    &&& final(self).state.current_storage_bytes as int == old(
                        self,
                    ).state.current_storage_bytes - item_stored(table[j])
                }
            }),
    {
        let ghost table = self.state.discovered_videos@;
        self.remove_queue_entry(id);
        match find_index_by_id(&self.state.discovered_videos, id) {
            Some(j) => {
                let mut entry = self.state.discovered_videos[j].clone();
                let stale = entry.local_path;
                entry.local_path = None;
                entry.downloading = false;
                entry.downloaded_bytes = 0;
                entry.last_speed_sample_bytes = 0;
                proof {
                    assert(entry == spec_failed_step(table[j as int]));
                    lemma_stored_bytes_ge_item(table, j as int);
                    crate::playlist::lemma_index_of_id_unique(table, id@, j as int);
                }
                self.replace_entry_balanced(j, entry);
                stale
            },
            None => None,
        }
    }

    /// Stops a queued or in-progress download: drops the queue entry, marks
    /// the record as not downloading, discards its partial progress and
    /// refunds the accountant. Returns whether the id was queued, and the
    /// path of the partial file for the caller to delete.
    pub fn stop_download(&mut self, video_id: &String) -> (r: (bool, Option<String>))
        requires
            old(self).wf(),
        ensures
            final(self).wf(),
            r.0 == spec_contains_id(old(self).download_queue@, video_id@),
            !r.0 ==> final(self).download_queue@ == old(self).download_queue@
                && final(self).state == old(self).state && r.1 is None,
            r.0 ==> {
                let table = old(self).state.discovered_videos@;
                &&& final(self).download_queue@ == spec_remove_id(
                    old(self).download_queue@,
                    video_id@,
                )
                &&& final(self).state.playlist == old(self).state.playlist
                &&& final(self).state.current_index == old(self).state.current_index
                &&& final(self).state.max_parallel_downloads == old(
                    self,
                ).state.max_parallel_downloads
                &&& final(self).state.max_storage_bytes == old(self).state.max_storage_bytes
                &&& if !spec_contains_id(table, video_id@) {
                    final(self).state.discovered_videos@ == table && r.1 is None
                } else {
                    let j = spec_index_of_id(table, video_id@);
                    &&& r.1 == table[j].local_path
                    &&& final(self).state.discovered_videos@ == table.update(
                        j,
                        spec_failed_step(table[j]),
                    )
                }
            },
    {
        let ghost table = self.state.discovered_videos@;
        let queued = self.remove_queue_entry(video_id);
        if !queued {
            proof {
                lemma_remove_id_absent(old(self).download_queue@, video_id@);
            }
            return (false, None);
        }
        match find_index_by_id(&self.state.discovered_videos, video_id) {
            Some(j) => {
                let mut entry = self.state.discovered_videos[j].clone();
                let stale = entry.local_path;
                entry.local_path = None;
                entry.downloading = false;
                entry.downloaded_bytes = 0;
                entry.last_speed_sample_bytes = 0;
                proof {
                    assert(entry == spec_failed_step(table[j as int]));
                    lemma_stored_bytes_ge_item(table, j as int);
                    crate::playlist::lemma_index_of_id_unique(table, video_id@, j as int);
                }
                self.replace_entry_balanced(j, entry);
                (true, stale)
            },
            None => (true, None),
        }
    }

    /// Records parsed container metadata for `id`: the duration, the codec
    /// description, and the frame size where the header names one. Returns
    /// whether the id was found.
    pub fn apply_parse_result(&mut self, id: &String, metadata: VideoMetadata) -> (r: bool)
        requires
            old(self).wf(),
        ensures
            final(self).wf(),
            final(self).download_queue == old(self).download_queue,
            final(self).state.playlist == old(self).state.playlist,
            final(self).state.current_index == old(self).state.current_index,
            final(self).state.current_storage_bytes == old(self).state.current_storage_bytes,
            final(self).state.max_parallel_downloads == old(self).state.max_parallel_downloads,
            final(self).state.max_storage_bytes == old(self).state.max_storage_bytes,
            r == spec_contains_id(old(self).state.discovered_videos@, id@),
            !r ==> final(self).state.discovered_videos@ == old(self).state.discovered_videos@,
            r ==> {
                let table = old(self).state.discovered_videos@;
                let j = spec_index_of_id(table, id@);
                final(self).state.discovered_videos@ == table.update(
                    j,
                    spec_metadata_step(table[j], metadata),
                )
            },
    {
        let ghost table = self.state.discovered_videos@;
        match find_index_by_id(&self.state.discovered_videos, id) {
            Some(j) => {
                let mut entry = self.state.discovered_videos[j].clone();
                entry.length_seconds = Some(metadata.duration_seconds);
                if metadata.width > 0 {
                    entry.width = Some(metadata.width);
                }
                if metadata.height > 0 {
                    entry.height = Some(metadata.height);
                }
                entry.format = Some(metadata.codec);
                proof {
                    assert(entry == spec_metadata_step(table[j as int], metadata));
                    lemma_stored_bytes_ge_item(table, j as int);
                    crate::playlist::lemma_index_of_id_unique(table, id@, j as int);
                }
                self.replace_entry_balanced(j, entry);
                true
            },
            None => false,
        }
    }

    /// Records the freshly written thumbnail for `id`. Returns whether the
    /// id was found.
    pub fn set_thumbnail(&mut self, id: &String, thumbnail_path: String) -> (r: bool)
        requires
            old(self).wf(),
        ensures
            final(self).wf(),
            final(self).download_queue == old(self).download_queue,
            final(self).state.playlist == old(self).state.playlist,
            final(self).state.current_index == old(self).state.current_index,
            final(self).state.current_storage_bytes == old(self).state.current_storage_bytes,
            r == spec_contains_id(old(self).state.discovered_videos@, id@),
            !r ==> final(self).state.discovered_videos@ == old(self).state.discovered_videos@,
            r ==> {
                let table = old(self).state.discovered_videos@;
                let j = spec_index_of_id(table, id@);
                final(self).state.discovered_videos@ == table.update(
                    j,
                    spec_thumbnail_step(table[j], thumbnail_path),
                )
            },
    {
        let ghost table = self.state.discovered_videos@;
        match find_index_by_id(&self.state.discovered_videos, id) {
            Some(j) => {
                let mut entry = self.state.discovered_videos[j].clone();
                entry.thumbnail_path = Some(thumbnail_path);
                proof {
                    assert(entry == spec_thumbnail_step(table[j as int], thumbnail_path));
                    lemma_stored_bytes_ge_item(table, j as int);
                    crate::playlist::lemma_index_of_id_unique(table, id@, j as int);
                }
                self.replace_entry_balanced(j, entry);
                true
            },
            None => false,
        }
    }


    /// Deletes the files of items that have fallen behind the playback
    /// cursor by more than `max_behind_seconds` of cumulative playlist
    /// duration: their local paths are cleared, their bytes refunded to
    /// the accountant, and the paths returned — in table order — for the
    /// caller to delete from disk.
    pub fn enforce_behind_limit(&mut self) -> (stale: Vec<String>)
        requires
            old(self).wf(),
        ensures
            final(self).wf(),
            final(self).download_queue == old(self).download_queue,
            final(self).state.playlist == old(self).state.playlist,
            final(self).state.current_index == old(self).state.current_index,
            final(self).state.max_parallel_downloads == old(self).state.max_parallel_downloads,
            final(self).state.max_storage_bytes == old(self).state.max_storage_bytes,
            final(self).state.discovered_videos@.len()
                == old(self).state.discovered_videos@.len(),
            forall|j: int|
                0 <= j < old(self).state.discovered_videos@.len()
                    ==> #[trigger] final(self).state.discovered_videos@[j] == (
                if spec_should_evict(old(self).state, j) {
                    spec_evicted(old(self).state.discovered_videos@[j])
                } else {
                    old(self).state.discovered_videos@[j]
                }),
            stale@ == spec_evict_paths(
                old(self).state,
                old(self).state.discovered_videos@.len() as int,
            ),
    {
        let ghost st0 = self.state;
        let ghost table0 = self.state.discovered_videos@;
        let total = self.state.discovered_videos.len();
        let mut stale: Vec<String> = Vec::new();
        let mut j: usize = 0;
        while j < total
            invariant
                st0 == old(self).state,
                table0 == st0.discovered_videos@,
                st0.wf(),
                total == table0.len(),
                j <= total,
                self.state.wf(),
                self.download_queue == old(self).download_queue,
                self.state.playlist == st0.playlist,
                self.state.current_index == st0.current_index,
                self.state.max_parallel_downloads == st0.max_parallel_downloads,
                self.state.max_storage_bytes == st0.max_storage_bytes,
                self.state.max_behind_seconds == st0.max_behind_seconds,
                self.state.max_ahead == st0.max_ahead,
                self.state.target_minutes_ahead == st0.target_minutes_ahead,
                self.state.target_videos_ahead == st0.target_videos_ahead,
                self.state.discovered_videos@.len() == table0.len(),
                forall|j2: int|
                    0 <= j2 < j ==> #[trigger] self.state.discovered_videos@[j2] == (
                    if spec_should_evict(st0, j2) {
                        spec_evicted(table0[j2])
                    } else {
                        table0[j2]
                    }),
                forall|j2: int|
                    j <= j2 < total ==> #[trigger] self.state.discovered_videos@[j2]
                        == table0[j2],
                stale@ == spec_evict_paths(st0, j as int),
            decreases total - j,
        {
            proof {
                assert(self.state.discovered_videos@[j as int] == table0[j as int]);
                lemma_should_evict_same(self.state, st0, j as int);
            }
            if should_evict_now(&self.state, j) {
                let mut entry = self.state.discovered_videos[j].clone();
                let path = match &entry.local_path {
                    Some(q) => q.clone(),
                    None => String::new(),
                };
                entry.local_path = None;
                proof {
                    assert(entry == spec_evicted(table0[j as int]));
                    lemma_stored_bytes_ge_item(self.state.discovered_videos@, j as int);
                }
                self.replace_entry_balanced(j, entry);
                stale.push(path);
                proof {
                    assert(table0[j as int].local_path == Some(path));
                    assert(stale@ =~= spec_evict_paths(st0, j + 1));
                }
            }
            j = j + 1;
        }
        stale
    }

}

/// A record marked as no longer downloading; every other field is
/// untouched.
pub open spec fn spec_mark_not_downloading(v: VideoDownload) -> VideoDownload {
    VideoDownload { downloading: false, ..v }
}

/// A record as a failed or stopped download leaves it: no file, no
/// progress, not downloading. The descriptor and any parsed metadata stay,
/// so the item can be discovered and retried on a later tick.
pub open spec fn spec_failed_step(v: VideoDownload) -> VideoDownload {
    VideoDownload {
        local_path: None,
        downloading: false,
        downloaded_bytes: 0,
        last_speed_sample_bytes: 0,
        ..v
    }
}

/// A queue with the first entry carrying `id` removed (the queue unchanged
/// when no entry carries it).
pub open spec fn spec_remove_id(q: Seq<VideoDownload>, id: Seq<char>) -> Seq<VideoDownload>
    decreases q.len(),
{
    if q.len() == 0 {
        q
    } else if q[0].id@ == id {
        q.drop_first()
    } else {
        seq![q[0]] + spec_remove_id(q.drop_first(), id)
    }
}

/// Removing an absent id changes nothing.
proof fn lemma_remove_id_absent(q: Seq<VideoDownload>, id: Seq<char>)
    requires
        !spec_contains_id(q, id),
    ensures
        spec_remove_id(q, id) == q,
    decreases q.len(),
{
    if q.len() > 0 {
        assert(q[0].id@ != id);
        assert(!spec_contains_id(q.drop_first(), id)) by {
            if spec_contains_id(q.drop_first(), id) {
                let i = choose|i: int|
                    0 <= i < q.drop_first().len() && q.drop_first()[i].id@ == id;
                assert(q[i + 1].id@ == id);
            }
        }
        lemma_remove_id_absent(q.drop_first(), id);
        assert(seq![q[0]] + q.drop_first() =~= q);
    }
}

/// Removing an id whose first occurrence is at `p` removes exactly the
/// entry at `p`.
proof fn lemma_remove_id_at(q: Seq<VideoDownload>, id: Seq<char>, p: int)
    requires
        0 <= p < q.len(),
        q[p].id@ == id,
        forall|j: int| 0 <= j < p ==> #[trigger] q[j].id@ != id,
    ensures
        spec_remove_id(q, id) == q.remove(p),
    decreases q.len(),
{
    if p == 0 {
        assert(q.drop_first() =~= q.remove(0));
    } else {
        assert(q[0].id@ != id);
        assert(q.drop_first()[p - 1].id@ == id);
        assert forall|j: int| 0 <= j < p - 1 implies #[trigger] q.drop_first()[j].id@ != id by {
            assert(q.drop_first()[j] == q[j + 1]);
        }
        lemma_remove_id_at(q.drop_first(), id, p - 1);
        assert(seq![q[0]] + q.drop_first().remove(p - 1) =~= q.remove(p));
    }
}

/// A record whose on-disk file has been evicted: the local path is
/// cleared; progress and metadata stay.
pub open spec fn spec_evicted(v: VideoDownload) -> VideoDownload {
    VideoDownload { local_path: None, ..v }
}

/// `b` clamped from above by `m`.
pub open spec fn spec_clamp(b: int, m: int) -> int {
    if b < m {
        b
    } else {
        m
    }
}

/// Position `p` of the playlist has fallen behind the cursor by more than
/// `max_behind` seconds: the cumulative duration of the playlist entries
/// from `p` up to the cursor exceeds the retention window.
pub open spec fn spec_is_behind(
    items: Seq<VideoDownload>,
    cursor: int,
    p: int,
    max_behind: int,
) -> bool {
    let cc = spec_clamp(cursor, items.len() as int);
    0 <= p < cc && crate::ranking::sum_item_seconds(items.subrange(p, cc)) > max_behind
}

/// Table entry `j` is due for eviction: it has a file on disk and some
/// behind-limit playlist position names its id.
pub open spec fn spec_should_evict(st: crate::state::AppState, j: int) -> bool {
    &&& st.discovered_videos@[j].local_path is Some
    &&& exists|p: int|
        spec_is_behind(st.playlist.spec_items(), st.current_index as int, p,
            st.max_behind_seconds as int) && #[trigger] st.playlist.spec_items()[p].id@
            == st.discovered_videos@[j].id@
}


/// Whether the eviction pass should act on table entry `j` of `st`'s
/// table, decided against the playlist and cursor of `st` itself.
fn should_evict_now(st: &crate::state::AppState, j: usize) -> (r: bool)
    requires
        st.wf(),
        j < st.discovered_videos@.len(),
    ensures
        r == spec_should_evict(*st, j as int),
{
    let ghost items = st.playlist.spec_items();
    let len = st.playlist.items.len();
    let cursor = st.current_index;
    let cc: usize = if cursor < len {
        cursor
    } else {
        len
    };
    if st.discovered_videos[j].local_path.is_none() {
        return false;
    }
    let mut p: usize = 0;
    while p < cc
        invariant
            st.wf(),
            j < st.discovered_videos@.len(),
            items == st.playlist.spec_items(),
            cc as int == spec_clamp(st.current_index as int, items.len() as int),
            cc <= items.len(),
            p <= cc,
            st.discovered_videos@[j as int].local_path is Some,
            forall|q: int|
                0 <= q < p ==> !(spec_is_behind(items, st.current_index as int, q,
                    st.max_behind_seconds as int) && #[trigger] items[q].id@
                    == st.discovered_videos@[j as int].id@),
        decreases cc - p,
    {
        let span = sum_lengths_range(&st.playlist.items, p, cc);
        if span > st.max_behind_seconds as u128 {
            if st.playlist.items[p].id.eq(&st.discovered_videos[j].id) {
                proof {
                    assert(spec_is_behind(items, st.current_index as int, p as int,
                        st.max_behind_seconds as int));
                    assert(st.playlist.spec_items()[p as int].id@
                        == st.discovered_videos@[j as int].id@);
                }
                return true;
            }
        }
        p = p + 1;
    }
    proof {
        if spec_should_evict(*st, j as int) {
            let q = choose|q: int|
                spec_is_behind(items, st.current_index as int, q, st.max_behind_seconds as int)
                    && #[trigger] items[q].id@ == st.discovered_videos@[j as int].id@;
            assert(0 <= q < cc);
        }
    }
    false
}

/// The eviction verdict for entry `j` reads only that entry, the playlist
/// and the cursor, so two states that agree there agree on the verdict.
proof fn lemma_should_evict_same(a: crate::state::AppState, b: crate::state::AppState, j: int)
    requires
        0 <= j < a.discovered_videos@.len(),
        0 <= j < b.discovered_videos@.len(),
        a.discovered_videos@[j] == b.discovered_videos@[j],
        a.playlist == b.playlist,
        a.current_index == b.current_index,
        a.max_behind_seconds == b.max_behind_seconds,
    ensures
        spec_should_evict(a, j) == spec_should_evict(b, j),
{
    if spec_should_evict(a, j) {
        let q = choose|q: int|
            spec_is_behind(a.playlist.spec_items(), a.current_index as int, q,
                a.max_behind_seconds as int) && #[trigger] a.playlist.spec_items()[q].id@
                == a.discovered_videos@[j].id@;
        assert(b.playlist.spec_items()[q].id@ == b.discovered_videos@[j].id@);
    }
    if spec_should_evict(b, j) {
        let q = choose|q: int|
            spec_is_behind(b.playlist.spec_items(), b.current_index as int, q,
                b.max_behind_seconds as int) && #[trigger] b.playlist.spec_items()[q].id@
                == b.discovered_videos@[j].id@;
        assert(a.playlist.spec_items()[q].id@ == a.discovered_videos@[j].id@);
    }
}

/// The paths an eviction pass over `st` deletes, scanning the first `upto`
/// table entries in order.
pub open spec fn spec_evict_paths(st: crate::state::AppState, upto: int) -> Seq<String>
    decreases upto,
{
    if upto <= 0 {
        Seq::empty()
    } else if spec_should_evict(st, upto - 1) {
        spec_evict_paths(st, upto - 1).push(st.discovered_videos@[upto - 1].local_path.unwrap())
    } else {
        spec_evict_paths(st, upto - 1)
    }
}

/// The cumulative known seconds of the playlist entries in `[from, to)`.
fn sum_lengths_range(items: &Vec<VideoDownload>, from: usize, to: usize) -> (r: u128)
    requires
        from <= to <= items@.len(),
    ensures
        r == crate::ranking::sum_item_seconds(items@.subrange(from as int, to as int)),
{
    let mut acc: u128 = 0;
    let mut i: usize = from;
    while i < to
        invariant
            from <= i <= to <= items@.len(),
            acc == crate::ranking::sum_item_seconds(items@.subrange(from as int, i as int)),
        decreases to - i,
    {
        let add: u64 = match items[i].length_seconds {
            Some(x) => x,
            None => 0,
        };
        proof {
            crate::ranking::lemma_sum_item_seconds_bound(
                items@.subrange(from as int, i as int),
            );
            assert(items@.subrange(from as int, i as int).len() * u64::MAX + u64::MAX
                <= u128::MAX) by (nonlinear_arith)
                requires
                    0 <= items@.subrange(from as int, i as int).len() <= usize::MAX,
            ;
            assert(items@.subrange(from as int, i + 1).drop_last() =~= items@.subrange(
                from as int,
                i as int,
            ));
            assert(items@.subrange(from as int, i + 1).last() == items@[i as int]);
        }
        acc = acc + add as u128;
        i = i + 1;
    }
    acc
}

/// An item marked as downloading; every other field is untouched.
pub open spec fn spec_mark_downloading(v: VideoDownload) -> VideoDownload {
    VideoDownload { downloading: true, ..v }
}

/// The first `k` not-yet-downloading items of a queue, in order: the items
/// an admission pass starts.
pub open spec fn spec_pick(q: Seq<VideoDownload>, k: int) -> Seq<VideoDownload>
    decreases q.len(),
{
    if q.len() == 0 || k <= 0 {
        Seq::empty()
    } else if !q[0].downloading {
        seq![q[0]] + spec_pick(q.drop_first(), k - 1)
    } else {
        spec_pick(q.drop_first(), k)
    }
}

/// The queue after an admission pass: the first `k` not-yet-downloading
/// items marked as downloading, everything else untouched.
pub open spec fn spec_pick_flags(q: Seq<VideoDownload>, k: int) -> Seq<VideoDownload>
    decreases q.len(),
{
    if q.len() == 0 {
        q
    } else if k <= 0 {
        q
    } else if !q[0].downloading {
        seq![spec_mark_downloading(q[0])] + spec_pick_flags(q.drop_first(), k - 1)
    } else {
        seq![q[0]] + spec_pick_flags(q.drop_first(), k)
    }
}

/// The outcome of accounting one received chunk.
#[derive(Debug, Clone, Copy, PartialEq, Eq, Structural)]
pub enum ChunkOutcome {
    /// The chunk fits the budget and was accounted; write it to disk.
    Accepted,
    /// Writing the chunk would exceed the storage ceiling; abort this
    /// download and discard the partial file.
    StorageExceeded,
    /// The id is unknown or has no output file; nothing was accounted.
    NotTracked,
}

/// A record as the streaming GET response leaves it: the announced length
/// (when the response carries one), the fresh output file, and a progress
/// counter starting over at zero.
pub open spec fn spec_response_step(
    v: VideoDownload,
    response_length: Option<u64>,
    local_path: String,
) -> VideoDownload {
    VideoDownload {
        content_length: match response_length {
            Some(cl) => Some(cl),
            None => v.content_length,
        },
        local_path: Some(local_path),
        downloaded_bytes: 0,
        last_speed_sample_bytes: 0,
        ..v
    }
}

/// A record after one chunk of `len` bytes at time `now` (milliseconds):
/// the progress counter advances by the chunk, and the download speed is
/// recomputed — in bytes per second over the elapsed window — only when at
/// least a second has passed since the last sample.
pub open spec fn spec_chunk_step(v: VideoDownload, len: u64, now: u64) -> VideoDownload {
    let db = (v.downloaded_bytes + len) as u64;
    match v.last_speed_sample_time_ms {
        None => VideoDownload {
            downloaded_bytes: db,
            last_speed_sample_time_ms: Some(now),
            last_speed_sample_bytes: db,
            download_speed_bps: 0,
            ..v
        },
        Some(prev) => if now >= prev + 1000 {
            VideoDownload {
                downloaded_bytes: db,
                download_speed_bps: (((db - v.last_speed_sample_bytes) * 1000) / (now
                    - prev)) as u64,
                last_speed_sample_time_ms: Some(now),
                last_speed_sample_bytes: db,
                ..v
            }
        } else {
            VideoDownload { downloaded_bytes: db, ..v }
        },
    }
}

/// Law: the download speed is recomputed at most once per second — a chunk
/// arriving less than a second after the last sample advances the progress
/// counter but leaves the speed and the sample untouched. (The speed is
/// non-negative by its type alone.)
pub proof fn lemma_speed_sample_interval(v: VideoDownload, len: u64, now: u64)
    requires
        v.last_speed_sample_time_ms matches Some(prev) && now < prev + 1000,
    ensures
        spec_chunk_step(v, len, now).download_speed_bps == v.download_speed_bps,
        spec_chunk_step(v, len, now).last_speed_sample_time_ms == v.last_speed_sample_time_ms,
        spec_chunk_step(v, len, now).last_speed_sample_bytes == v.last_speed_sample_bytes,
{
}

/// A byte count divided by an elapsed time of at least a second cannot
/// exceed the byte count: the speed fits in a `u64`.
proof fn lemma_speed_quotient_fits(diff: int, dt: int)
    requires
        0 <= diff <= u64::MAX,
        dt >= 1000,
    ensures
        0 <= (diff * 1000) / dt <= u64::MAX,
{
    vstd::arithmetic::div_mod::lemma_div_is_ordered_by_denominator(diff * 1000, 1000, dt);
    vstd::arithmetic::div_mod::lemma_div_multiples_vanish(diff, 1000);
    assert(diff * 1000 == 1000 * diff) by (nonlinear_arith);
    vstd::arithmetic::div_mod::lemma_div_pos_is_pos(diff * 1000, dt);
    assert(diff * 1000 >= 0) by (nonlinear_arith)
        requires
            diff >= 0,
    ;
}

/// A record with freshly parsed container metadata: the duration and codec
/// always, the frame size only where the header names a positive one.
pub open spec fn spec_metadata_step(v: VideoDownload, m: VideoMetadata) -> VideoDownload {
    VideoDownload {
        length_seconds: Some(m.duration_seconds),
        format: Some(m.codec),
        width: if m.width > 0 {
            Some(m.width)
        } else {
            v.width
        },
        height: if m.height > 0 {
            Some(m.height)
        } else {
            v.height
        },
        ..v
    }
}

/// A record with its thumbnail path set; every other field is untouched.
pub open spec fn spec_thumbnail_step(v: VideoDownload, path: String) -> VideoDownload {
    VideoDownload { thumbnail_path: Some(path), ..v }
}


/// The HEAD probe applied to one fresh record: a record that already knows
/// its content length keeps it; otherwise a successful probe that names
/// one fills it in. A failed probe changes nothing — the length is then
/// recovered later from the GET response.
pub fn apply_head_result(video: VideoDownload, head_ok: bool, head_length: Option<u64>) -> (r:
    VideoDownload)
    ensures
        r == (VideoDownload {
            content_length: if video.content_length is Some {
                video.content_length
            } else if head_ok && head_length is Some {
                head_length
            } else {
                None
            },
            ..video
        }),
{
    let mut r = video;
    if r.content_length.is_none() && head_ok {
        match head_length {
            Some(l) => {
                r.content_length = Some(l);
            },
            None => {},
        }
    }
    r
}


/// Law (storage ceiling): failing a download returns the accountant
/// exactly to its pre-download value — the failed record keeps no file,
/// contributes nothing to the bytes on disk, and is no longer downloading.
/// (That an over-budget chunk changes nothing at all is stated directly by
/// the chunk transition.)
pub proof fn lemma_fail_download_refunds_storage(table: Seq<VideoDownload>, j: int)
    requires
        0 <= j < table.len(),
    ensures
        spec_stored_bytes(table.update(j, spec_failed_step(table[j]))) == spec_stored_bytes(
            table,
        ) - item_stored(table[j]),
        item_stored(spec_failed_step(table[j])) == 0,
        spec_failed_step(table[j]).local_path is None,
        !spec_failed_step(table[j]).downloading,
{
    lemma_sums_update(table, j, spec_failed_step(table[j]));
}

/// Law (eviction scope): only a playlist position strictly behind the
/// playback cursor can be behind the limit, so the entry at the cursor —
/// and every upcoming entry — is never evicted on its own account.
pub proof fn lemma_behind_is_strictly_behind(
    items: Seq<VideoDownload>,
    cursor: int,
    p: int,
    max_behind: int,
)
    ensures
        spec_is_behind(items, cursor, p, max_behind) ==> 0 <= p < cursor && p < items.len(),
{
}

/// Law (eviction refund): evicting an entry clears its file and removes
/// exactly its accounted bytes from the bytes on disk; nothing else about
/// the entry changes.
pub proof fn lemma_eviction_refunds_storage(table: Seq<VideoDownload>, j: int)
    requires
        0 <= j < table.len(),
    ensures
        spec_stored_bytes(table.update(j, spec_evicted(table[j]))) == spec_stored_bytes(table)
            - item_stored(table[j]),
        spec_evicted(table[j]).local_path is None,
        spec_evicted(table[j]).downloading == table[j].downloading,
        spec_evicted(table[j]).length_seconds == table[j].length_seconds,
{
    lemma_sums_update(table, j, spec_evicted(table[j]));
}

/// Law (recovery from a failed length probe): a record whose probe failed
/// keeps its unknown length, yet downloads normally — the streaming GET
/// response fills the announced length in, and once that many bytes are on
/// disk the finished record is complete, keeps its output file, and is no
/// longer downloading.
pub proof fn lemma_head_failure_then_get_recovery(
    v: VideoDownload,
    l: u64,
    path: String,
    now: u64,
)
    requires
        v.content_length is None,
    ensures
        (VideoDownload { content_length: None, ..v }) == v,
        ({
            let responded = spec_response_step(v, Some(l), path);
            let downloaded = spec_chunk_step(responded, l, now);
            let finished = spec_mark_not_downloading(downloaded);
            &&& responded.content_length == Some(l)
            &&& responded.local_path == Some(path)
            &&& finished.content_length == Some(l)
            &&& finished.downloaded_bytes == l
            &&& finished.spec_is_complete()
            &&& finished.local_path == Some(path)
            &&& !finished.downloading
        }),
{
}

} // verus!
