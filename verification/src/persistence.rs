//! The persistence dispatcher: plans one upload pass over everything the
//! registry currently holds, and applies the outcomes afterwards.
//!
//! A pass sweeps every registered frame, not a tracked subset: stragglers
//! from earlier cycles are swept in too. The caller performs the uploads
//! through its storage sink between planning and applying; a frame leaves
//! the registry exactly when its upload succeeded, so a failed upload is
//! retried by the next pass under a fresh key.

use vstd::prelude::*;
use crate::timestamp::Timestamp;
use crate::frame_store::FrameStore;
use crate::frame_store::frames_ordered;
use crate::names::dest_key;
use crate::names::dest_key_spec;
use crate::names::frame_name;
use crate::names::frame_name_spec;

verus! {

/// One upload of a persistence pass: which local frame to send, and under
/// which destination key.
pub struct PlanEntry {
    pub local_name: Vec<u8>,
    pub dest: Vec<u8>,
}

/// A plan covers the given registry contents in capture order, under one
/// shared time base: the `i`-th frame goes to the key with sequence number
/// `i + 1`.
pub open spec fn plan_matches(frames: Seq<Timestamp>, now: Timestamp, plan: Seq<PlanEntry>) -> bool {
    &&& plan.len() == frames.len()
    &&& forall|i: int|
        0 <= i < plan.len() ==> (#[trigger] plan[i]).local_name@ == frame_name_spec(frames[i])
    &&& forall|i: int| 0 <= i < plan.len() ==> (#[trigger] plan[i]).dest@ == dest_key_spec(now, i + 1)
}

/// Plans one persistence pass over everything the registry currently
/// holds: every frame, in capture order, with its destination key under
/// the shared time base `now`.
pub fn build_persistence_plan(store: &FrameStore, now: &Timestamp) -> (plan: Vec<PlanEntry>)
    requires
        store.wf(),
        now.wf(),
        store.frames().len() <= u64::MAX,
    ensures
        plan_matches(store.frames(), *now, plan@),
{
    let mut plan: Vec<PlanEntry> = Vec::new();
    let n = store.len();
    let mut i: usize = 0;
    while i < n
        invariant
            store.wf(),
            now.wf(),
            n == store.frames().len(),
            n <= u64::MAX,
            i <= n,
            plan@.len() == i,
            forall|k: int|
                0 <= k < i ==> (#[trigger] plan@[k]).local_name@ == frame_name_spec(
                    store.frames()[k],
                ),
            forall|k: int| 0 <= k < i ==> (#[trigger] plan@[k]).dest@ == dest_key_spec(*now, k + 1),
        decreases n - i,
    {
        let f = store.frame_at(i);
        let local_name = frame_name(&f);
        let dest = dest_key(now, (i as u64) + 1);
        plan.push(PlanEntry { local_name, dest });
        i = i + 1;
    }
    plan
}

/// The registry contents after a pass: exactly the frames whose upload
/// failed remain, in capture order.
pub open spec fn keep_failed(frames: Seq<Timestamp>, results: Seq<bool>) -> Seq<Timestamp>
    recommends
        frames.len() == results.len(),
    decreases frames.len(),
{
    if frames.len() == 0 {
        Seq::empty()
    } else if results.len() == frames.len() && results[frames.len() - 1] {
        keep_failed(frames.drop_last(), results.drop_last())
    } else {
        keep_failed(frames.drop_last(), results.drop_last()).push(frames.last())
    }
}

/// What a pass keeps comes from what it started with.
proof fn lemma_keep_failed_subset(frames: Seq<Timestamp>, results: Seq<bool>)
    ensures
        forall|x: Timestamp| #[trigger]
            keep_failed(frames, results).contains(x) ==> frames.contains(x),
    decreases frames.len(),
{
    if frames.len() > 0 {
        lemma_keep_failed_subset(frames.drop_last(), results.drop_last());
        let out = keep_failed(frames, results);
        let sub = keep_failed(frames.drop_last(), results.drop_last());
        assert forall|x: Timestamp| #[trigger] out.contains(x) implies frames.contains(x) by {
            let k = choose|k: int| 0 <= k < out.len() && out[k] == x;
            if results.len() == frames.len() && results[frames.len() - 1] {
                assert(sub.contains(x));
            } else {
                if k < out.len() - 1 {
                    assert(sub[k] == x);
                    assert(sub.contains(x));
                } else {
                    assert(x == frames.last());
                    assert(frames[frames.len() - 1] == x);
                }
            }
            if sub.contains(x) {
                let j = choose|j: int|
                    0 <= j < frames.drop_last().len() && frames.drop_last()[j] == x;
                assert(frames[j] == x);
            }
        }
    }
}

/// What a pass keeps stays in capture order.
proof fn lemma_keep_failed_ordered(frames: Seq<Timestamp>, results: Seq<bool>)
    requires
        frames_ordered(frames),
    ensures
        frames_ordered(keep_failed(frames, results)),
    decreases frames.len(),
{
    if frames.len() > 0 {
        assert(frames_ordered(frames.drop_last()));
        lemma_keep_failed_ordered(frames.drop_last(), results.drop_last());
        lemma_keep_failed_subset(frames.drop_last(), results.drop_last());
        let out = keep_failed(frames, results);
        let sub = keep_failed(frames.drop_last(), results.drop_last());
        if !(results.len() == frames.len() && results[frames.len() - 1]) {
            assert forall|i: int| 0 <= i < sub.len() implies sub[i].epoch_seconds()
                < frames.last().epoch_seconds() by {
                assert(sub.contains(sub[i]));
                let k = choose|k: int|
                    0 <= k < frames.drop_last().len() && frames.drop_last()[k] == sub[i];
                assert(frames[k] == sub[i]);
            }
        }
    }
}

/// Persistence atomicity: over distinct frames, a frame of the pass stays
/// registered exactly when its upload failed, and is deleted exactly when
/// its upload succeeded.
pub proof fn lemma_persistence_atomicity(frames: Seq<Timestamp>, results: Seq<bool>, i: int)
    requires
        frames_ordered(frames),
        results.len() == frames.len(),
        0 <= i < frames.len(),
    ensures
        keep_failed(frames, results).contains(frames[i]) <==> !results[i],
    decreases frames.len(),
{
    let out = keep_failed(frames, results);
    let sub = keep_failed(frames.drop_last(), results.drop_last());
    let last = frames.len() - 1;
    if i == last {
        if results[i] {
            assert(out == sub);
            if out.contains(frames[i]) {
                lemma_keep_failed_subset(frames.drop_last(), results.drop_last());
                let k = choose|k: int|
                    0 <= k < frames.drop_last().len() && frames.drop_last()[k] == frames[i];
                assert(frames[k] == frames[i]);
                assert(frames[k].epoch_seconds() < frames[last].epoch_seconds());
            }
        } else {
            assert(out == sub.push(frames.last()));
            assert(out[out.len() - 1] == frames[i]);
            assert(out.contains(frames[i]));
        }
    } else {
        assert(frames_ordered(frames.drop_last()));
        lemma_persistence_atomicity(frames.drop_last(), results.drop_last(), i);
        assert(frames.drop_last()[i] == frames[i]);
        if results.len() == frames.len() && results[last] {
            assert(out == sub);
        } else {
            assert(out == sub.push(frames.last()));
            assert forall|x: Timestamp| sub.contains(x) implies out.contains(x) by {
                let k = choose|k: int| 0 <= k < sub.len() && sub[k] == x;
                assert(out[k] == x);
            }
            assert forall|x: Timestamp|
                out.contains(x) implies sub.contains(x) || x == frames.last() by {
                let k = choose|k: int| 0 <= k < out.len() && out[k] == x;
                if k < out.len() - 1 {
                    assert(sub[k] == x);
                }
            }
            assert(frames[i].epoch_seconds() < frames[last].epoch_seconds());
        }
    }
}

/// Applies the outcomes of one persistence pass, `results[i]` being the
/// success of the `i`-th upload of the plan: deletes exactly the frames
/// whose upload succeeded. A failed upload leaves its frame registered,
/// still under its convention-matching name, for the next pass.
pub fn apply_store_results(store: &mut FrameStore, results: &Vec<bool>)
    requires
        old(store).wf(),
        results@.len() == old(store).frames().len(),
    ensures
        final(store).wf(),
        final(store).frames() == keep_failed(old(store).frames(), results@),
        forall|i: int|
            0 <= i < results@.len() ==> (final(store).contains(old(store).frames()[i])
                <==> !results@[i]),
{
    let ghost frames0 = store.frames();
    let mut kept: Vec<Timestamp> = Vec::new();
    let n = store.len();
    let mut i: usize = 0;
    while i < n
        invariant
            store.wf(),
            store.frames() == frames0,
            n == frames0.len(),
            results@.len() == n,
            i <= n,
            kept@ == keep_failed(frames0.take(i as int), results@.take(i as int)),
        decreases n - i,
    {
        proof {
            let fp = frames0.take(i as int + 1);
            let rp = results@.take(i as int + 1);
            assert(fp.drop_last() =~= frames0.take(i as int));
            assert(rp.drop_last() =~= results@.take(i as int));
            assert(fp.last() == frames0[i as int]);
            assert(rp[rp.len() - 1] == results@[i as int]);
        }
        if !results[i] {
            kept.push(store.frame_at(i));
        }
        i = i + 1;
    }
    proof {
        assert(frames0.take(n as int) =~= frames0);
        assert(results@.take(n as int) =~= results@);
        lemma_keep_failed_ordered(frames0, results@);
    }
    *store = FrameStore::from_ordered(kept);
    proof {
        assert forall|i: int|
            0 <= i < results@.len() implies (store.contains(frames0[i]) <==> !results@[i]) by {
            lemma_persistence_atomicity(frames0, results@, i);
        }
    }
}

} // verus!
