//! The local frame registry: which captured frames currently exist on
//! local media, ordered by capture instant.
//!
//! The registry is the appliance's only bookkeeping for frames. Writing
//! and deleting the actual files is a side effect the caller performs with
//! the names this module hands out: a frame enters the registry when its
//! capture is recorded and leaves it only through retention or after a
//! confirmed store.

use vstd::prelude::*;
use vstd::pervasive::VecAdditionalExecFns;
use crate::timestamp::Timestamp;
use crate::timestamp::lemma_epoch_seconds_injective;
use crate::names::frame_name;
use crate::names::frame_name_spec;
use crate::names::lemma_frame_name_injective;
use crate::names::parse_frame_name;
use crate::names::parses_to;

verus! {

/// Entries are real instants, strictly ordered by their seconds count:
/// the registry holds at most one frame per second, as the naming
/// convention cannot tell two apart.
pub open spec fn frames_ordered(s: Seq<Timestamp>) -> bool {
    &&& forall|i: int| 0 <= i < s.len() ==> (#[trigger] s[i]).wf()
    &&& forall|i: int, j: int|
        0 <= i < j < s.len() ==> s[i].epoch_seconds() < s[j].epoch_seconds()
}

/// A frame is stale at `now` when its age exceeds the retention horizon
/// (in seconds); frames exactly at the horizon are not yet stale.
pub open spec fn stale(f: Timestamp, now: Timestamp, horizon: u64) -> bool {
    now.epoch_seconds() - f.epoch_seconds() > horizon
}

/// Membership in a filtered sequence is exactly membership plus the
/// predicate.
proof fn lemma_filter_membership<A>(s: Seq<A>, pred: spec_fn(A) -> bool)
    ensures
        forall|x: A| #[trigger] s.filter(pred).contains(x) <==> s.contains(x) && pred(x),
    decreases s.len(),
{
    reveal(Seq::filter);
    if s.len() > 0 {
        lemma_filter_membership(s.drop_last(), pred);
        let out = s.filter(pred);
        let sub = s.drop_last().filter(pred);
        assert forall|x: A| s.contains(x) implies s.drop_last().contains(x) || x == s.last() by {
            let k = choose|k: int| 0 <= k < s.len() && s[k] == x;
            if k < s.len() - 1 {
                assert(s.drop_last()[k] == x);
            }
        }
        assert forall|x: A| s.drop_last().contains(x) implies s.contains(x) by {
            let k = choose|k: int| 0 <= k < s.drop_last().len() && s.drop_last()[k] == x;
            assert(s[k] == x);
        }
        assert(s.contains(s.last()));
        if pred(s.last()) {
            assert(out == sub.push(s.last()));
            assert forall|x: A| out.contains(x) implies sub.contains(x) || x == s.last() by {
                let k = choose|k: int| 0 <= k < out.len() && out[k] == x;
                if k < out.len() - 1 {
                    assert(sub[k] == x);
                }
            }
            assert forall|x: A| sub.contains(x) implies out.contains(x) by {
                let k = choose|k: int| 0 <= k < sub.len() && sub[k] == x;
                assert(out[k] == x);
            }
            assert(out[out.len() - 1] == s.last());
            assert(out.contains(s.last()));
        } else {
            assert(out == sub);
        }
    }
}

/// Filtering keeps the strict ordering of the registry.
proof fn lemma_filter_ordered(s: Seq<Timestamp>, pred: spec_fn(Timestamp) -> bool)
    requires
        frames_ordered(s),
    ensures
        frames_ordered(s.filter(pred)),
    decreases s.len(),
{
    reveal(Seq::filter);
    if s.len() > 0 {
        assert(frames_ordered(s.drop_last()));
        lemma_filter_ordered(s.drop_last(), pred);
        lemma_filter_membership(s.drop_last(), pred);
        if pred(s.last()) {
            let sub = s.drop_last().filter(pred);
            assert forall|i: int| 0 <= i < sub.len() implies sub[i].epoch_seconds()
                < s.last().epoch_seconds() by {
                assert(sub.contains(sub[i]));
                let k = choose|k: int| 0 <= k < s.drop_last().len() && s.drop_last()[k] == sub[i];
                assert(s[k] == sub[i]);
            }
        }
    }
}

/// No two frames of an ordered registry share a local name: the name is
/// an injective image of the instant, and the registry holds at most one
/// frame per second.
pub proof fn lemma_registry_names_distinct(s: Seq<Timestamp>, i: int, j: int)
    requires
        frames_ordered(s),
        0 <= i < j < s.len(),
    ensures
        frame_name_spec(s[i]) != frame_name_spec(s[j]),
{
    if frame_name_spec(s[i]) == frame_name_spec(s[j]) {
        lemma_frame_name_injective(s[i], s[j]);
    }
}

/// The local registry of captured frames.
pub struct FrameStore {
    frames: Vec<Timestamp>,
}

impl FrameStore {
    /// The registered capture instants, oldest first.
    pub closed spec fn frames(self) -> Seq<Timestamp> {
        self.frames@
    }

    pub open spec fn wf(self) -> bool {
        frames_ordered(self.frames())
    }

    pub open spec fn contains(self, ts: Timestamp) -> bool {
        self.frames().contains(ts)
    }

    /// Wraps registry contents that are already in capture order. Only the
    /// crate's own code may bypass the insertion path like this.
    pub(crate) fn from_ordered(v: Vec<Timestamp>) -> (s: FrameStore)
        requires
            frames_ordered(v@),
        ensures
            s.wf(),
            s.frames() == v@,
    {
        FrameStore { frames: v }
    }

    /// An empty registry.
    pub fn new() -> (s: FrameStore)
        ensures
            s.wf(),
            s.frames() == Seq::<Timestamp>::empty(),
    {
        FrameStore { frames: Vec::new() }
    }

    pub fn len(&self) -> (n: usize)
        ensures
            n == self.frames().len(),
    {
        self.frames.len()
    }

    pub fn frame_at(&self, i: usize) -> (ts: Timestamp)
        requires
            i < self.frames().len(),
        ensures
            ts == self.frames()[i as int],
    {
        self.frames[i]
    }

    /// Registers the frame captured at `ts`. A frame of the same second is
    /// replaced: the naming convention cannot tell the two apart, so the
    /// newer capture wins.
    fn insert_frame(&mut self, ts: Timestamp)
        requires
            old(self).wf(),
            ts.wf(),
        ensures
            final(self).wf(),
            final(self).contains(ts),
            forall|f: Timestamp|
                old(self).contains(f) && f.epoch_seconds() != ts.epoch_seconds() ==> final(self).contains(f),
            forall|f: Timestamp|
                final(self).contains(f) ==> f == ts || (old(self).contains(f)
                    && f.epoch_seconds() != ts.epoch_seconds()),
    {
        let ts_secs = ts.to_seconds();
        let n = self.frames.len();
        let mut i: usize = 0;
        while i < n && self.frames[i].to_seconds() < ts_secs
            invariant
                *self == *old(self),
                old(self).wf(),
                ts.wf(),
                n == self.frames@.len(),
                i <= n,
                ts_secs == ts.epoch_seconds(),
                forall|j: int| 0 <= j < i ==> self.frames@[j].epoch_seconds() < ts_secs,
            decreases n - i,
        {
            i = i + 1;
        }
        let ghost a = self.frames@;
        if i < n && self.frames[i].to_seconds() == ts_secs {
            self.frames.set(i, ts);
            proof {
                let fin = self.frames@;
                assert(fin == a.update(i as int, ts));
                assert(fin[i as int] == ts);
                assert(fin.contains(ts));
                assert forall|f: Timestamp|
                    a.contains(f) && f.epoch_seconds() != ts.epoch_seconds() implies fin.contains(
                    f,
                ) by {
                    let k = choose|k: int| 0 <= k < a.len() && a[k] == f;
                    assert(k != i);
                    assert(fin[k] == f);
                }
                assert forall|f: Timestamp|
                    fin.contains(f) implies f == ts || (a.contains(f) && f.epoch_seconds()
                    != ts.epoch_seconds()) by {
                    let k = choose|k: int| 0 <= k < fin.len() && fin[k] == f;
                    if k != i {
                        assert(a[k] == f);
                        if k < i {
                            assert(a[k].epoch_seconds() < ts_secs);
                        } else {
                            assert(a[i as int].epoch_seconds() < a[k].epoch_seconds());
                        }
                    }
                }
            }
        } else {
            proof {
                if i < n {
                    assert(a[i as int].epoch_seconds() > ts_secs);
                }
            }
            self.frames.insert(i, ts);
            proof {
                let fin = self.frames@;
                assert(fin == a.insert(i as int, ts));
                assert(fin[i as int] == ts);
                assert(fin.contains(ts));
                assert forall|k: int| 0 <= k < fin.len() implies (if k < i {
                    fin[k] == a[k]
                } else if k == i {
                    fin[k] == ts
                } else {
                    fin[k] == a[k - 1]
                }) by {}
                assert(frames_ordered(fin)) by {
                    assert forall|p: int, q: int|
                        0 <= p < q < fin.len() implies fin[p].epoch_seconds()
                        < fin[q].epoch_seconds() by {
                        if p < i && q > i {
                            if i < n {
                                assert(a[p].epoch_seconds() < ts_secs);
                            }
                        }
                    }
                }
                assert forall|f: Timestamp|
                    a.contains(f) && f.epoch_seconds() != ts.epoch_seconds() implies fin.contains(
                    f,
                ) by {
                    let k = choose|k: int| 0 <= k < a.len() && a[k] == f;
                    if k < i {
                        assert(fin[k] == f);
                    } else {
                        assert(fin[k + 1] == f);
                    }
                }
                assert forall|f: Timestamp|
                    fin.contains(f) implies f == ts || (a.contains(f) && f.epoch_seconds()
                    != ts.epoch_seconds()) by {
                    let k = choose|k: int| 0 <= k < fin.len() && fin[k] == f;
                    if k < i {
                        assert(a[k] == f);
                        assert(a[k].epoch_seconds() < ts_secs);
                    } else if k > i {
                        assert(a[k - 1] == f);
                        assert(a[k - 1].epoch_seconds() > ts_secs);
                    }
                }
            }
        }
    }

    /// Records one capture: registers the frame and returns the local name
    /// under which the caller must write its bytes.
    pub fn record_capture(&mut self, ts: Timestamp) -> (name: Vec<u8>)
        requires
            old(self).wf(),
            ts.wf(),
        ensures
            final(self).wf(),
            final(self).contains(ts),
            forall|f: Timestamp|
                old(self).contains(f) && f.epoch_seconds() != ts.epoch_seconds() ==> final(self).contains(f),
            forall|f: Timestamp|
                final(self).contains(f) ==> f == ts || (old(self).contains(f)
                    && f.epoch_seconds() != ts.epoch_seconds()),
            name@ == frame_name_spec(ts),
    {
        self.insert_frame(ts);
        frame_name(&ts)
    }

    /// Rebuilds a registry from a local directory listing: names that match
    /// the frame naming convention are registered, all others are ignored.
    pub fn from_names(names: &Vec<Vec<u8>>) -> (s: FrameStore)
        ensures
            s.wf(),
            forall|f: Timestamp|
                s.contains(f) ==> exists|i: int|
                    0 <= i < names@.len() && parses_to(names@[i]@, f),
            forall|i: int, ts: Timestamp|
                0 <= i < names@.len() && parses_to(names@[i]@, ts) ==> s.contains(ts),
    {
        let mut s = FrameStore::new();
        let n = names.len();
        let mut i: usize = 0;
        while i < n
            invariant
                s.wf(),
                n == names@.len(),
                i <= n,
                forall|f: Timestamp|
                    s.contains(f) ==> exists|k: int| 0 <= k < i && parses_to(names@[k]@, f),
                forall|k: int, ts: Timestamp|
                    0 <= k < i && parses_to(names@[k]@, ts) ==> s.contains(ts),
            decreases n - i,
        {
            let parsed = parse_frame_name(names[i].as_slice());
            if let Some(ts) = parsed {
                let ghost pre = s;
                s.insert_frame(ts);
                proof {
                    assert forall|k: int, t: Timestamp|
                        0 <= k < i + 1 && parses_to(names@[k]@, t) implies s.contains(t) by {
                        if k < i {
                            if t.epoch_seconds() == ts.epoch_seconds() {
                                lemma_epoch_seconds_injective(t, ts);
                            }
                        } else {
                            assert(t == ts);
                        }
                        assert(s.contains(ts));
                    }
                    assert forall|f: Timestamp| s.contains(f) implies exists|k: int|
                        0 <= k < i + 1 && parses_to(names@[k]@, f) by {
                        if f == ts {
                            assert(parses_to(names@[i as int]@, ts));
                        }
                    }
                }
            }
            i = i + 1;
        }
        s
    }

    /// Retention: deletes every stale frame and keeps every other, and
    /// returns the local names of the deleted frames, oldest first, for the
    /// caller to remove from local media.
    pub fn clean_old_photos(&mut self, horizon: u64, now: Timestamp) -> (removed: Vec<Vec<u8>>)
        requires
            old(self).wf(),
            now.wf(),
        ensures
            final(self).wf(),
            final(self).frames() == old(self).frames().filter(
                |f: Timestamp| !stale(f, now, horizon),
            ),
            removed@.len() == old(self).frames().filter(
                |f: Timestamp| stale(f, now, horizon),
            ).len(),
            forall|k: int|
                0 <= k < removed@.len() ==> removed@[k]@ == frame_name_spec(
                    old(self).frames().filter(|f: Timestamp| stale(f, now, horizon))[k],
                ),
            forall|f: Timestamp|
                old(self).contains(f) ==> (final(self).contains(f) <==> !stale(f, now, horizon)),
            forall|f: Timestamp| final(self).contains(f) ==> old(self).contains(f),
    {
        let ghost keep_pred = |f: Timestamp| !stale(f, now, horizon);
        let ghost stale_pred = |f: Timestamp| stale(f, now, horizon);
        let now_secs = now.to_seconds();
        let mut kept: Vec<Timestamp> = Vec::new();
        let mut removed: Vec<Vec<u8>> = Vec::new();
        let n = self.frames.len();
        let mut i: usize = 0;
        while i < n
            invariant
                *self == *old(self),
                old(self).wf(),
                now.wf(),
                n == self.frames@.len(),
                i <= n,
                now_secs == now.epoch_seconds(),
                kept@ == self.frames@.take(i as int).filter(keep_pred),
                removed@.len() == self.frames@.take(i as int).filter(stale_pred).len(),
                forall|k: int|
                    0 <= k < removed@.len() ==> removed@[k]@ == frame_name_spec(
                        self.frames@.take(i as int).filter(stale_pred)[k],
                    ),
                keep_pred == (|f: Timestamp| !stale(f, now, horizon)),
                stale_pred == (|f: Timestamp| stale(f, now, horizon)),
            decreases n - i,
        {
            let f = self.frames[i];
            let f_secs = f.to_seconds();
            let is_stale = now_secs > horizon && f_secs < now_secs - horizon;
            proof {
                assert(is_stale == stale(f, now, horizon));
                let pre = self.frames@.take(i as int);
                let cur = self.frames@.take(i as int + 1);
                assert(cur.drop_last() =~= pre);
                assert(cur.last() == f);
                reveal(Seq::filter);
            }
            if is_stale {
                removed.push(frame_name(&f));
            } else {
                kept.push(f);
            }
            i = i + 1;
        }
        proof {
            assert(self.frames@.take(n as int) =~= self.frames@);
        }
        self.frames = kept;
        proof {
            let a = old(self).frames();
            lemma_filter_ordered(a, keep_pred);
            lemma_filter_membership(a, keep_pred);
        }
        removed
    }
}

} // verus!
