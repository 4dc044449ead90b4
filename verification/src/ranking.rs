//! The two-phase ranking of download candidates.
//!
//! The candidate list is split into a *near* prefix — just enough videos to
//! meet both look-ahead targets — and a *far* suffix. The near half is sorted
//! by byte length ascending (unknown lengths sink to the end), ties broken by
//! score descending; the far half by score descending, ties broken by byte
//! length ascending. Both sorts are stable, so equal-key items keep their
//! arrival order, and the concatenation replaces the queue wholesale.

use crate::models::VideoDownload;
use vstd::prelude::*;
use vstd::seq_lib::*;

verus! {

broadcast use vstd::seq_lib::group_to_multiset_ensures;

/// The byte-length sort key: an unknown content length compares as
/// `u64::MAX`, sinking the item to the end of a length-ascending order.
pub open spec fn spec_len_key(v: VideoDownload) -> u64 {
    match v.content_length {
        Some(l) => l,
        None => u64::MAX,
    }
}

/// Executable twin of [`spec_len_key`].
pub fn len_key(v: &VideoDownload) -> (r: u64)
    ensures
        r == spec_len_key(*v),
{
    match v.content_length {
        Some(l) => l,
        None => u64::MAX,
    }
}

/// Near-phase order: small files first, then high score.
pub open spec fn near_le(a: VideoDownload, b: VideoDownload) -> bool {
    spec_len_key(a) < spec_len_key(b) || (spec_len_key(a) == spec_len_key(b) && a.score
        >= b.score)
}

/// Far-phase order: high score first, then small files.
pub open spec fn far_le(a: VideoDownload, b: VideoDownload) -> bool {
    a.score > b.score || (a.score == b.score && spec_len_key(a) <= spec_len_key(b))
}

/// The near-phase order as a first-class spec function.
pub open spec fn near_le_fn() -> spec_fn(VideoDownload, VideoDownload) -> bool {
    |a: VideoDownload, b: VideoDownload| near_le(a, b)
}

/// The far-phase order as a first-class spec function.
pub open spec fn far_le_fn() -> spec_fn(VideoDownload, VideoDownload) -> bool {
    |a: VideoDownload, b: VideoDownload| far_le(a, b)
}

fn near_le_exec(a: &VideoDownload, b: &VideoDownload) -> (r: bool)
    ensures
        r == near_le(*a, *b),
{
    let ka = len_key(a);
    let kb = len_key(b);
    ka < kb || (ka == kb && a.score >= b.score)
}

fn far_le_exec(a: &VideoDownload, b: &VideoDownload) -> (r: bool)
    ensures
        r == far_le(*a, *b),
{
    let ka = len_key(a);
    let kb = len_key(b);
    a.score > b.score || (a.score == b.score && ka <= kb)
}

/// Inserts `v` into the sorted sequence `s`, after every element that
/// compares less-or-equal to it; a stable insertion step.
pub open spec fn insert_stable<T>(leq: spec_fn(T, T) -> bool, s: Seq<T>, v: T) -> Seq<T>
    decreases s.len(),
{
    if s.len() == 0 {
        seq![v]
    } else if leq(s.last(), v) {
        s.push(v)
    } else {
        insert_stable(leq, s.drop_last(), v).push(s.last())
    }
}

/// Stable insertion sort: elements ordered by `leq`, equal-key elements
/// keeping their relative input order.
pub open spec fn stable_sort_by<T>(leq: spec_fn(T, T) -> bool, s: Seq<T>) -> Seq<T>
    decreases s.len(),
{
    if s.len() == 0 {
        Seq::empty()
    } else {
        insert_stable(leq, stable_sort_by(leq, s.drop_last()), s.last())
    }
}

/// A stable insertion adds exactly the inserted element to the contents.
pub proof fn lemma_insert_stable_multiset<T>(leq: spec_fn(T, T) -> bool, s: Seq<T>, v: T)
    ensures
        insert_stable(leq, s, v).to_multiset() =~= s.to_multiset().insert(v),
    decreases s.len(),
{
    if s.len() == 0 {
        assert(seq![v] =~= Seq::empty().push(v));
    } else if leq(s.last(), v) {
    } else {
        lemma_insert_stable_multiset(leq, s.drop_last(), v);
        assert(s =~= s.drop_last().push(s.last()));
        assert(s.drop_last().push(s.last()).to_multiset() =~= s.drop_last().to_multiset().insert(
            s.last(),
        ));
    }
}

/// The stable sort is a permutation of its input: nothing is lost and
/// nothing is duplicated.
pub proof fn lemma_stable_sort_multiset<T>(leq: spec_fn(T, T) -> bool, s: Seq<T>)
    ensures
        stable_sort_by(leq, s).to_multiset() =~= s.to_multiset(),
    decreases s.len(),
{
    if s.len() == 0 {
    } else {
        lemma_stable_sort_multiset(leq, s.drop_last());
        lemma_insert_stable_multiset(leq, stable_sort_by(leq, s.drop_last()), s.last());
        assert(s =~= s.drop_last().push(s.last()));
        assert(s.drop_last().push(s.last()).to_multiset() =~= s.drop_last().to_multiset().insert(
            s.last(),
        ));
    }
}

/// Characterizes a stable insertion by its cut position: if everything at or
/// after `p` is strictly greater than `v` and the element before `p` (if any)
/// is not, the insertion lands exactly at `p`.
proof fn lemma_insert_stable_at<T>(leq: spec_fn(T, T) -> bool, s: Seq<T>, v: T, p: int)
    requires
        0 <= p <= s.len(),
        p > 0 ==> leq(s[p - 1], v),
        forall|k: int| p <= k < s.len() ==> !leq(#[trigger] s[k], v),
    ensures
        insert_stable(leq, s, v) =~= s.take(p) + seq![v] + s.skip(p),
    decreases s.len(),
{
    if p == s.len() {
        if s.len() > 0 {
            assert(insert_stable(leq, s, v) == s.push(v));
        }
    } else {
        assert(!leq(s[s.len() - 1], v));
        lemma_insert_stable_at(leq, s.drop_last(), v, p);
        assert(insert_stable(leq, s, v) == insert_stable(leq, s.drop_last(), v).push(s.last()));
        assert(s.drop_last().take(p) =~= s.take(p));
        assert((s.drop_last().take(p) + seq![v] + s.drop_last().skip(p)).push(s.last()) =~= s.take(
            p,
        ) + seq![v] + s.skip(p));
    }
}

/// Inserts one element into an already near-sorted vector at its stable
/// position.
fn insert_sorted_near(out: &mut Vec<VideoDownload>, x: VideoDownload)
    ensures
        final(out)@ == insert_stable(near_le_fn(), old(out)@, x),
{
    let ghost s = out@;
    let mut p: usize = out.len();
    while p > 0 && !near_le_exec(&out[p - 1], &x)
        invariant
            p <= out@.len(),
            out@ == s,
            forall|k: int| p <= k < out@.len() ==> !near_le(#[trigger] out@[k], x),
        decreases p,
    {
        p = p - 1;
    }
    out.insert(p, x);
    proof {
        lemma_insert_stable_at(near_le_fn(), s, x, p as int);
        assert(s.insert(p as int, x) =~= s.take(p as int) + seq![x] + s.skip(p as int));
    }
}

/// Inserts one element into an already far-sorted vector at its stable
/// position.
fn insert_sorted_far(out: &mut Vec<VideoDownload>, x: VideoDownload)
    ensures
        final(out)@ == insert_stable(far_le_fn(), old(out)@, x),
{
    let ghost s = out@;
    let mut p: usize = out.len();
    while p > 0 && !far_le_exec(&out[p - 1], &x)
        invariant
            p <= out@.len(),
            out@ == s,
            forall|k: int| p <= k < out@.len() ==> !far_le(#[trigger] out@[k], x),
        decreases p,
    {
        p = p - 1;
    }
    out.insert(p, x);
    proof {
        lemma_insert_stable_at(far_le_fn(), s, x, p as int);
        assert(s.insert(p as int, x) =~= s.take(p as int) + seq![x] + s.skip(p as int));
    }
}

/// Stable-sorts a copy of `input` in the near-phase order.
fn sort_near(input: &Vec<VideoDownload>) -> (out: Vec<VideoDownload>)
    ensures
        out@ == stable_sort_by(near_le_fn(), input@),
{
    let mut out: Vec<VideoDownload> = Vec::new();
    let mut i: usize = 0;
    while i < input.len()
        invariant
            i <= input@.len(),
            out@ == stable_sort_by(near_le_fn(), input@.take(i as int)),
        decreases input@.len() - i,
    {
        let x = input[i].clone();
        insert_sorted_near(&mut out, x);
        proof {
            assert(input@.take(i + 1).drop_last() =~= input@.take(i as int));
            assert(input@.take(i + 1).last() == input@[i as int]);
        }
        i = i + 1;
    }
    proof {
        assert(input@.take(i as int) =~= input@);
    }
    out
}

/// Stable-sorts a copy of `input` in the far-phase order.
fn sort_far(input: &Vec<VideoDownload>) -> (out: Vec<VideoDownload>)
    ensures
        out@ == stable_sort_by(far_le_fn(), input@),
{
    let mut out: Vec<VideoDownload> = Vec::new();
    let mut i: usize = 0;
    while i < input.len()
        invariant
            i <= input@.len(),
            out@ == stable_sort_by(far_le_fn(), input@.take(i as int)),
        decreases input@.len() - i,
    {
        let x = input[i].clone();
        insert_sorted_far(&mut out, x);
        proof {
            assert(input@.take(i + 1).drop_last() =~= input@.take(i as int));
            assert(input@.take(i + 1).last() == input@[i as int]);
        }
        i = i + 1;
    }
    proof {
        assert(input@.take(i as int) =~= input@);
    }
    out
}

/// Clones the elements of `v` at positions `from..to`.
pub fn clone_range(v: &Vec<VideoDownload>, from: usize, to: usize) -> (out: Vec<VideoDownload>)
    requires
        from <= to <= v@.len(),
    ensures
        out@ == v@.subrange(from as int, to as int),
{
    let mut out: Vec<VideoDownload> = Vec::new();
    let mut i: usize = from;
    while i < to
        invariant
            from <= i <= to <= v@.len(),
            out@ == v@.subrange(from as int, i as int),
        decreases to - i,
    {
        out.push(v[i].clone());
        proof {
            assert(v@.subrange(from as int, i + 1) =~= v@.subrange(from as int, i as int).push(
                v@[i as int],
            ));
        }
        i = i + 1;
    }
    out
}

/// The seconds an item contributes to the look-ahead window: its known
/// length, or nothing while the length is unknown.
pub open spec fn spec_item_seconds(v: VideoDownload) -> int {
    match v.length_seconds {
        Some(s) => s as int,
        None => 0,
    }
}

/// The seconds known to be covered by a list of items.
pub open spec fn sum_item_seconds(s: Seq<VideoDownload>) -> int
    decreases s.len(),
{
    if s.len() == 0 {
        0
    } else {
        sum_item_seconds(s.drop_last()) + spec_item_seconds(s.last())
    }
}

/// The covered seconds are non-negative and at most `len * u64::MAX`.
pub proof fn lemma_sum_item_seconds_bound(s: Seq<VideoDownload>)
    ensures
        0 <= sum_item_seconds(s) <= s.len() * u64::MAX,
    decreases s.len(),
{
    if s.len() == 0 {
    } else {
        lemma_sum_item_seconds_bound(s.drop_last());
        assert(s.len() * u64::MAX == (s.len() - 1) * u64::MAX + u64::MAX) by (nonlinear_arith);
    }
}

/// The position where the near prefix ends, walking from position `i` with
/// `secs` look-ahead seconds already accumulated: items are taken until both
/// the count target and the seconds target have been met, or the list is
/// exhausted. Each position taken counts one video towards the count target.
pub open spec fn near_cut(
    s: Seq<VideoDownload>,
    i: int,
    secs: int,
    target_count: int,
    target_secs: int,
) -> int
    decreases s.len() - i,
{
    if i < 0 || i >= s.len() {
        s.len() as int
    } else if i >= target_count && secs >= target_secs {
        i
    } else {
        near_cut(s, i + 1, secs + spec_item_seconds(s[i]), target_count, target_secs)
    }
}

/// The ranked queue: the near prefix sorted by (length asc, score desc)
/// followed by the far suffix sorted by (score desc, length asc).
pub open spec fn rank_spec(s: Seq<VideoDownload>, target_count: int, target_secs: int) -> Seq<
    VideoDownload,
> {
    let cut = near_cut(s, 0, 0, target_count, target_secs);
    stable_sort_by(near_le_fn(), s.take(cut)) + stable_sort_by(far_le_fn(), s.skip(cut))
}

/// The cut position stays within the list.
pub proof fn lemma_near_cut_in_range(
    s: Seq<VideoDownload>,
    i: int,
    secs: int,
    target_count: int,
    target_secs: int,
)
    requires
        0 <= i <= s.len(),
    ensures
        i <= near_cut(s, i, secs, target_count, target_secs) <= s.len(),
    decreases s.len() - i,
{
    if i < s.len() && !(i >= target_count && secs >= target_secs) {
        lemma_near_cut_in_range(s, i + 1, secs + spec_item_seconds(s[i]), target_count,
            target_secs);
    }
}

/// Sorts videos for download with the two-phase stable rule, replacing the
/// vector with the ranked queue. `target_minutes_ahead` is the minutes
/// target of the look-ahead window.
pub fn sort_videos_for_download(
    videos: &mut Vec<VideoDownload>,
    target_videos_ahead: usize,
    target_minutes_ahead: u64,
)
    ensures
        final(videos)@ == rank_spec(
            old(videos)@,
            target_videos_ahead as int,
            target_minutes_ahead as int * 60,
        ),
{
    let ghost whole = videos@;
    let ghost target_secs: int = target_minutes_ahead as int * 60;

    // Walk off the near prefix, accumulating a count and a seconds total
    // until both targets are met. The accumulator is wide enough that even
    // `usize::MAX` items of `u64::MAX` seconds each cannot overflow it.
    let target_secs_exec: u128 = target_minutes_ahead as u128 * 60;
    let mut secs_total: u128 = 0;
    let mut i: usize = 0;
    while i < videos.len() && !(i >= target_videos_ahead && secs_total >= target_secs_exec)
        invariant
            i <= whole.len(),
            videos@ == whole,
            target_secs_exec == target_secs,
            secs_total == sum_item_seconds(whole.take(i as int)),
            near_cut(whole, 0, 0, target_videos_ahead as int, target_secs) == near_cut(
                whole,
                i as int,
                secs_total as int,
                target_videos_ahead as int,
                target_secs,
            ),
        decreases whole.len() - i,
    {
        let add_secs: u64 = match videos[i].length_seconds {
            Some(s) => s,
            None => 0,
        };
        proof {
            lemma_sum_item_seconds_bound(whole.take(i as int));
            assert(whole.take(i as int).len() * u64::MAX + u64::MAX <= u128::MAX) by (
            nonlinear_arith)
                requires
                    0 <= whole.take(i as int).len() <= usize::MAX,
            ;
            assert(whole.take(i + 1).drop_last() =~= whole.take(i as int));
            assert(whole.take(i + 1).last() == whole[i as int]);
        }
        secs_total = secs_total + add_secs as u128;
        i = i + 1;
    }
    let ghost cut = near_cut(whole, 0, 0, target_videos_ahead as int, target_secs);
    proof {
        assert(cut == i as int);
    }

    let near = clone_range(videos, 0, i);
    let total = videos.len();
    let far = clone_range(videos, i, total);
    let mut result = sort_near(&near);
    let mut far_sorted = sort_far(&far);
    result.append(&mut far_sorted);
    proof {
        assert(near@ =~= whole.take(cut));
        assert(far@ =~= whole.skip(cut));
    }
    *videos = result;
}

/// The ranked queue is a permutation of the candidate list: no candidate is
/// lost and none is duplicated.
pub proof fn lemma_rank_permutation(s: Seq<VideoDownload>, target_count: int, target_secs: int)
    ensures
        rank_spec(s, target_count, target_secs).to_multiset() =~= s.to_multiset(),
{
    let cut = near_cut(s, 0, 0, target_count, target_secs);
    lemma_near_cut_in_range(s, 0, 0, target_count, target_secs);
    let near_sorted = stable_sort_by(near_le_fn(), s.take(cut));
    let far_sorted = stable_sort_by(far_le_fn(), s.skip(cut));
    lemma_stable_sort_multiset(near_le_fn(), s.take(cut));
    lemma_stable_sort_multiset(far_le_fn(), s.skip(cut));
    lemma_multiset_commutative(near_sorted, far_sorted);
    lemma_multiset_commutative(s.take(cut), s.skip(cut));
    assert(s.take(cut) + s.skip(cut) =~= s);
}

/// Ranking is deterministic: ranking the same candidates with the same
/// targets a second time yields the same queue, because the queue is a
/// function of the candidate list and the targets alone.
pub proof fn lemma_rank_deterministic(
    s1: Seq<VideoDownload>,
    s2: Seq<VideoDownload>,
    target_count: int,
    target_secs: int,
)
    requires
        s1 == s2,
    ensures
        rank_spec(s1, target_count, target_secs) == rank_spec(s2, target_count, target_secs),
{
}


/// `leq` is total: any two items compare one way or the other.
pub open spec fn total_order<T>(leq: spec_fn(T, T) -> bool) -> bool {
    forall|a: T, b: T| #[trigger] leq(a, b) || #[trigger] leq(b, a)
}

/// Adjacent elements are ordered by `leq`.
pub open spec fn sorted_by<T>(leq: spec_fn(T, T) -> bool, s: Seq<T>) -> bool {
    forall|i: int| 0 <= i < s.len() - 1 ==> leq(#[trigger] s[i], s[i + 1])
}

/// A stable insertion grows the sequence by one.
pub proof fn lemma_insert_stable_len<T>(leq: spec_fn(T, T) -> bool, s: Seq<T>, v: T)
    ensures
        insert_stable(leq, s, v).len() == s.len() + 1,
    decreases s.len(),
{
    if s.len() > 0 && !leq(s.last(), v) {
        lemma_insert_stable_len(leq, s.drop_last(), v);
    }
}

/// The stable sort keeps the length.
pub proof fn lemma_stable_sort_len<T>(leq: spec_fn(T, T) -> bool, s: Seq<T>)
    ensures
        stable_sort_by(leq, s).len() == s.len(),
    decreases s.len(),
{
    if s.len() > 0 {
        lemma_stable_sort_len(leq, s.drop_last());
        lemma_insert_stable_len(leq, stable_sort_by(leq, s.drop_last()), s.last());
    }
}

/// A stable insertion ends in the inserted element or in the old last one.
proof fn lemma_insert_stable_last<T>(leq: spec_fn(T, T) -> bool, s: Seq<T>, v: T)
    ensures
        insert_stable(leq, s, v).last() == v || (s.len() > 0 && insert_stable(leq, s, v).last()
            == s.last()),
    decreases s.len(),
{
}

/// Inserting into a sorted sequence keeps it sorted, for a total order.
proof fn lemma_insert_stable_sorted<T>(leq: spec_fn(T, T) -> bool, s: Seq<T>, v: T)
    requires
        total_order(leq),
        sorted_by(leq, s),
    ensures
        sorted_by(leq, insert_stable(leq, s, v)),
    decreases s.len(),
{
    let out = insert_stable(leq, s, v);
    if s.len() == 0 {
    } else if leq(s.last(), v) {
        assert forall|i: int| 0 <= i < out.len() - 1 implies leq(#[trigger] out[i], out[i
            + 1]) by {
            if i < s.len() - 1 {
                assert(out[i] == s[i] && out[i + 1] == s[i + 1]);
            } else {
                assert(out[i] == s.last() && out[i + 1] == v);
            }
        }
    } else {
        assert(sorted_by(leq, s.drop_last())) by {
            assert forall|i: int| 0 <= i < s.drop_last().len() - 1 implies leq(
                #[trigger] s.drop_last()[i],
                s.drop_last()[i + 1],
            ) by {
                assert(s.drop_last()[i] == s[i] && s.drop_last()[i + 1] == s[i + 1]);
            }
        }
        lemma_insert_stable_sorted(leq, s.drop_last(), v);
        lemma_insert_stable_last(leq, s.drop_last(), v);
        lemma_insert_stable_len(leq, s.drop_last(), v);
        let inner = insert_stable(leq, s.drop_last(), v);
        assert forall|i: int| 0 <= i < out.len() - 1 implies leq(#[trigger] out[i], out[i
            + 1]) by {
            if i < inner.len() - 1 {
                assert(out[i] == inner[i] && out[i + 1] == inner[i + 1]);
            } else {
                assert(out[i] == inner.last() && out[i + 1] == s.last());
                if inner.last() == v {
                    assert(leq(v, s.last()));
                } else {
                    assert(inner.last() == s.drop_last().last());
                    assert(s.drop_last().last() == s[s.len() - 2]);
                    assert(leq(s[s.len() - 2], s[s.len() - 1]));
                }
            }
        }
    }
}

/// The stable sort produces a sorted sequence, for a total order.
pub proof fn lemma_stable_sort_sorted<T>(leq: spec_fn(T, T) -> bool, s: Seq<T>)
    requires
        total_order(leq),
    ensures
        sorted_by(leq, stable_sort_by(leq, s)),
    decreases s.len(),
{
    if s.len() > 0 {
        lemma_stable_sort_sorted(leq, s.drop_last());
        lemma_insert_stable_sorted(leq, stable_sort_by(leq, s.drop_last()), s.last());
    }
}

/// Sorting an already-sorted sequence changes nothing.
proof fn lemma_stable_sort_of_sorted<T>(leq: spec_fn(T, T) -> bool, s: Seq<T>)
    requires
        sorted_by(leq, s),
    ensures
        stable_sort_by(leq, s) == s,
    decreases s.len(),
{
    if s.len() > 0 {
        assert(sorted_by(leq, s.drop_last())) by {
            assert forall|i: int| 0 <= i < s.drop_last().len() - 1 implies leq(
                #[trigger] s.drop_last()[i],
                s.drop_last()[i + 1],
            ) by {
                assert(s.drop_last()[i] == s[i] && s.drop_last()[i + 1] == s[i + 1]);
            }
        }
        lemma_stable_sort_of_sorted(leq, s.drop_last());
        if s.len() == 1 {
            assert(insert_stable(leq, s.drop_last(), s.last()) =~= s);
        } else {
            assert(leq(s.drop_last().last(), s.last())) by {
                assert(s.drop_last().last() == s[s.len() - 2]);
            }
            assert(s.drop_last().push(s.last()) =~= s);
        }
    }
}

/// The near-phase order is total.
proof fn lemma_near_le_total()
    ensures
        total_order(near_le_fn()),
{
    assert forall|a: VideoDownload, b: VideoDownload| #[trigger]
        near_le_fn()(a, b) || #[trigger] near_le_fn()(b, a) by {
        assert(near_le(a, b) || near_le(b, a));
    }
}

/// The far-phase order is total.
proof fn lemma_far_le_total()
    ensures
        total_order(far_le_fn()),
{
    assert forall|a: VideoDownload, b: VideoDownload| #[trigger]
        far_le_fn()(a, b) || #[trigger] far_le_fn()(b, a) by {
        assert(far_le(a, b) || far_le(b, a));
    }
}

/// Law: ranking the ranked queue again yields the same queue, whenever the
/// near cut lands at the same position on the ranked queue as on the
/// candidate list itself. (Re-ranking can move the cut when the minutes
/// target is met earlier by the re-ordered near prefix; on such inputs the
/// law does not hold and is not claimed.)
pub proof fn lemma_rank_idempotent(s: Seq<VideoDownload>, target_count: int, target_secs: int)
    requires
        near_cut(rank_spec(s, target_count, target_secs), 0, 0, target_count, target_secs)
            == near_cut(s, 0, 0, target_count, target_secs),
    ensures
        rank_spec(rank_spec(s, target_count, target_secs), target_count, target_secs)
            == rank_spec(s, target_count, target_secs),
{
    let cut = near_cut(s, 0, 0, target_count, target_secs);
    lemma_near_cut_in_range(s, 0, 0, target_count, target_secs);
    let near = s.take(cut);
    let far = s.skip(cut);
    let sn = stable_sort_by(near_le_fn(), near);
    let sf = stable_sort_by(far_le_fn(), far);
    let out = rank_spec(s, target_count, target_secs);
    lemma_stable_sort_len(near_le_fn(), near);
    lemma_stable_sort_len(far_le_fn(), far);
    assert(out.take(cut) =~= sn);
    assert(out.skip(cut) =~= sf);
    lemma_near_le_total();
    lemma_far_le_total();
    lemma_stable_sort_sorted(near_le_fn(), near);
    lemma_stable_sort_sorted(far_le_fn(), far);
    lemma_stable_sort_of_sorted(near_le_fn(), sn);
    lemma_stable_sort_of_sorted(far_le_fn(), sf);
}

/// With no minutes target, the near cut depends only on the count target
/// and the length, so re-ranking never moves it: the ranker is idempotent
/// outright.
pub proof fn lemma_rank_idempotent_no_minutes(
    s: Seq<VideoDownload>,
    target_count: int,
    target_secs: int,
)
    requires
        target_secs <= 0,
    ensures
        rank_spec(rank_spec(s, target_count, target_secs), target_count, target_secs)
            == rank_spec(s, target_count, target_secs),
{
    let out = rank_spec(s, target_count, target_secs);
    let cut = near_cut(s, 0, 0, target_count, target_secs);
    lemma_near_cut_in_range(s, 0, 0, target_count, target_secs);
    lemma_stable_sort_len(near_le_fn(), s.take(cut));
    lemma_stable_sort_len(far_le_fn(), s.skip(cut));
    assert(out.len() == s.len());
    lemma_near_cut_count_only(s, 0, 0, target_count, target_secs);
    lemma_near_cut_count_only(out, 0, 0, target_count, target_secs);
    lemma_rank_idempotent(s, target_count, target_secs);
}

/// With the seconds target already met, the walk stops as soon as the
/// count target is, so the cut is the count target clamped to the list.
proof fn lemma_near_cut_count_only(
    s: Seq<VideoDownload>,
    i: int,
    secs: int,
    target_count: int,
    target_secs: int,
)
    requires
        0 <= i <= s.len(),
        secs >= target_secs,
    ensures
        near_cut(s, i, secs, target_count, target_secs) == (if i >= target_count {
            i
        } else if target_count <= s.len() {
            target_count
        } else {
            s.len() as int
        }),
    decreases s.len() - i,
{
    if i < s.len() && !(i >= target_count && secs >= target_secs) {
        lemma_near_cut_count_only(s, i + 1, secs + spec_item_seconds(s[i]), target_count,
            target_secs);
    }
}

} // verus!
