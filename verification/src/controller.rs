//! The controller: the state machine that merges the sensor's event stream
//! with the capture cadence and decides, once per tick, between retention,
//! recording and persistence.
//!
//! One capture is one decision. While monitoring, the tick polls the event
//! queue without blocking; an observed detection starts a recording burst
//! and nothing else does. The burst runs a fixed number of ticks whatever
//! further events arrive, and the tick after it ends persists everything
//! registered and drains the queue, so detections that piled up during the
//! burst cannot re-trigger it.

use vstd::prelude::*;
use crate::timestamp::Timestamp;
use crate::frame_store::FrameStore;
use crate::frame_store::stale;
use crate::names::frame_name_spec;
use crate::sensor::SensorEvent;

verus! {

/// The controller's states. Exactly one is active; only the tick handler
/// moves between them.
#[derive(Clone, Copy, PartialEq, Eq, Structural, Debug)]
pub enum States {
    MONITORING,
    RECORDING,
    STORING,
}

impl States {
    /// The state's display name.
    pub fn label(&self) -> (s: &'static str)
        ensures
            self is MONITORING ==> s@ == "Monitoring"@,
            self is RECORDING ==> s@ == "Recording"@,
            self is STORING ==> s@ == "Storing"@,
    {
        match self {
            States::MONITORING => "Monitoring",
            States::RECORDING => "Recording",
            States::STORING => "Storing",
        }
    }
}

/// What one tick decided, and what the caller must now do on local media.
pub enum TickAction {
    /// Retention ran: the named files are no longer registered and must be
    /// deleted locally.
    Cleaned(Vec<Vec<u8>>),
    /// A detection was observed and a recording burst has begun.
    MotionObserved,
    /// One tick of the running burst passed.
    BurstTick,
    /// The burst is over: run one persistence pass now (plan, upload,
    /// apply), in this same tick.
    PersistBurst,
}

/// The controller: its state, the burst tick counter, and its two
/// configured durations.
pub struct Controller {
    pub state: States,
    /// Ticks spent in the running burst; reset on entering monitoring.
    pub tick_counter: u64,
    /// Burst length in ticks.
    pub burst_len: u64,
    /// Retention horizon in seconds.
    pub horizon: u64,
}

/// The controller state after one tick, given whether the tick observed a
/// motion event. Only a monitoring tick looks at events at all.
pub open spec fn spec_next(c: Controller, observed: bool) -> Controller {
    match c.state {
        States::MONITORING => if observed {
            Controller { state: States::RECORDING, tick_counter: 1, ..c }
        } else {
            Controller { state: States::MONITORING, tick_counter: 0, ..c }
        },
        States::RECORDING => if c.tick_counter + 1 >= c.burst_len {
            Controller { state: States::STORING, tick_counter: (c.tick_counter + 1) as u64, ..c }
        } else {
            Controller { state: States::RECORDING, tick_counter: (c.tick_counter + 1) as u64, ..c }
        },
        States::STORING => Controller { state: States::MONITORING, tick_counter: 0, ..c },
    }
}

impl Controller {
    /// The counter never outruns the burst: it is zero while monitoring
    /// and counts from one while recording. A burst spans at least two
    /// ticks — the observing tick and one more — so the recording state is
    /// always entered and never skipped over.
    pub open spec fn wf(self) -> bool {
        &&& self.burst_len >= 2
        &&& self.state is MONITORING ==> self.tick_counter == 0
        &&& self.state is RECORDING ==> 1 <= self.tick_counter < self.burst_len
        &&& self.state is STORING ==> self.tick_counter <= self.burst_len
    }

    /// A fresh controller: monitoring, with the given burst length (in
    /// ticks, at least two) and retention horizon (in seconds).
    pub fn new(burst_len: u64, horizon: u64) -> (c: Controller)
        requires
            burst_len >= 2,
        ensures
            c.wf(),
            c.state is MONITORING,
            c.tick_counter == 0,
            c.burst_len == burst_len,
            c.horizon == horizon,
    {
        Controller { state: States::MONITORING, tick_counter: 0, burst_len, horizon }
    }

    /// One tick, evaluated after the tick's frame was captured.
    ///
    /// Monitoring polls the queue without blocking: an observed detection
    /// starts the burst and skips retention; otherwise retention runs over
    /// the registry. Recording only counts the tick. The tick after the
    /// burst ends drains the queue, returns to monitoring and tells the
    /// caller to run one persistence pass.
    pub fn tick(
        &mut self,
        queue: &mut Vec<SensorEvent>,
        store: &mut FrameStore,
        now: Timestamp,
    ) -> (action: TickAction)
        requires
            old(self).wf(),
            old(store).wf(),
            now.wf(),
        ensures
            final(self).wf(),
            final(store).wf(),
            *final(self) == spec_next(*old(self), old(queue)@.len() > 0),
            final(self).burst_len == old(self).burst_len,
            final(self).horizon == old(self).horizon,
            // the queue: one event consumed while monitoring, untouched
            // while recording, fully drained by the storing tick
            old(self).state is MONITORING && old(queue)@.len() > 0 ==> final(queue)@ == old(
                queue,
            )@.drop_first(),
            old(self).state is MONITORING && old(queue)@.len() == 0 ==> final(queue)@ == old(
                queue,
            )@,
            old(self).state is RECORDING ==> final(queue)@ == old(queue)@,
            old(self).state is STORING ==> final(queue)@ =~= Seq::<SensorEvent>::empty(),
            // the registry: retention runs exactly on an event-free
            // monitoring tick and deletes exactly the stale frames
            old(self).state is MONITORING && old(queue)@.len() == 0 ==> final(store).frames()
                == old(store).frames().filter(
                |f: Timestamp| !stale(f, now, old(self).horizon),
            ),
            old(self).state is MONITORING && old(queue)@.len() == 0 ==> forall|f: Timestamp|
                old(store).contains(f) ==> (final(store).contains(f) <==> !stale(
                    f,
                    now,
                    old(self).horizon,
                )),
            !(old(self).state is MONITORING && old(queue)@.len() == 0) ==> *final(store) == *old(
                store,
            ),
            // the action names what happened and carries what the caller
            // must do
            match action {
                TickAction::Cleaned(removed) => old(self).state is MONITORING && old(
                    queue,
                )@.len() == 0 && removed@.len() == old(store).frames().filter(
                    |f: Timestamp| stale(f, now, old(self).horizon),
                ).len() && (forall|k: int|
                    0 <= k < removed@.len() ==> removed@[k]@ == frame_name_spec(
                        old(store).frames().filter(
                            |f: Timestamp| stale(f, now, old(self).horizon),
                        )[k],
                    )),
                TickAction::MotionObserved => old(self).state is MONITORING && old(
                    queue,
                )@.len() > 0,
                TickAction::BurstTick => old(self).state is RECORDING,
                TickAction::PersistBurst => old(self).state is STORING,
            },
    {
        match self.state {
            States::MONITORING => {
                if queue.len() > 0 {
                    let _observed = queue.remove(0);
                    proof {
                        assert(queue@ =~= old(queue)@.drop_first());
                    }
                    self.tick_counter = 1;
                    self.state = States::RECORDING;
                    TickAction::MotionObserved
                } else {
                    let removed = store.clean_old_photos(self.horizon, now);
                    TickAction::Cleaned(removed)
                }
            },
            States::RECORDING => {
                self.tick_counter = self.tick_counter + 1;
                if self.tick_counter >= self.burst_len {
                    self.state = States::STORING;
                }
                TickAction::BurstTick
            },
            States::STORING => {
                queue.clear();
                self.state = States::MONITORING;
                self.tick_counter = 0;
                TickAction::PersistBurst
            },
        }
    }
}

/// Debounce: a recording burst begins on a monitoring tick exactly when
/// that tick observed a detection, and never begins out of recording or
/// storing — a running burst only counts on, and a storing tick always
/// returns to monitoring.
pub proof fn lemma_debounce(c: Controller, observed: bool)
    requires
        c.wf(),
    ensures
        c.state is MONITORING ==> (spec_next(c, observed).state is RECORDING <==> observed),
        c.state is MONITORING ==> (!(spec_next(c, observed).state is MONITORING) <==> observed),
        c.state is STORING ==> !(spec_next(c, observed).state is RECORDING),
        c.state is RECORDING ==> spec_next(c, observed).tick_counter == c.tick_counter + 1,
{
}

/// Bounded burst: a recording tick is blind to events, and the burst ends
/// exactly when the counter reaches the burst length — never earlier.
pub proof fn lemma_bounded_burst(c: Controller, e1: bool, e2: bool)
    requires
        c.wf(),
        c.state is RECORDING,
    ensures
        spec_next(c, e1) == spec_next(c, e2),
        spec_next(c, e1).state is STORING <==> c.tick_counter + 1 == c.burst_len,
{
}

/// Drain on exit: the storing tick is blind to the backlog, hands control
/// back to monitoring with a reset counter, and (with the queue emptied by
/// `tick`) the very next tick starts from the same footing as a controller
/// that never saw a backlog.
pub proof fn lemma_drain_on_exit(c: Controller, backlog: bool, fresh: bool)
    requires
        c.wf(),
        c.state is STORING,
    ensures
        spec_next(c, backlog) == spec_next(c, fresh),
        spec_next(c, backlog).state is MONITORING,
        spec_next(c, backlog).tick_counter == 0,
        spec_next(c, backlog).wf(),
        spec_next(spec_next(c, backlog), fresh) == spec_next(
            Controller { state: States::MONITORING, tick_counter: 0, ..c },
            fresh,
        ),
{
}

/// A tick preserves the controller's well-formedness.
pub proof fn lemma_next_wf(c: Controller, observed: bool)
    requires
        c.wf(),
    ensures
        spec_next(c, observed).wf(),
{
}

/// The controller after a run of ticks, `events[k]` being whether the
/// `k`-th tick observed a motion event.
pub open spec fn run_ticks(c: Controller, events: Seq<bool>) -> Controller
    decreases events.len(),
{
    if events.len() == 0 {
        c
    } else {
        run_ticks(spec_next(c, events[0]), events.drop_first())
    }
}

/// How many ticks of a run begin a recording burst: the monitoring ticks
/// that observe an event.
pub open spec fn bursts_started(c: Controller, events: Seq<bool>) -> int
    decreases events.len(),
{
    if events.len() == 0 {
        0
    } else {
        (if c.state is MONITORING && events[0] {
            1int
        } else {
            0int
        }) + bursts_started(spec_next(c, events[0]), events.drop_first())
    }
}

/// A running burst plays out blind to events: none of its remaining ticks,
/// nor the storing tick after it, begins another burst, and the run ends
/// back in monitoring with the counter reset.
proof fn lemma_burst_runs_blind(c: Controller, events: Seq<bool>)
    requires
        c.wf(),
        c.state is RECORDING,
        events.len() == c.burst_len - c.tick_counter + 1,
    ensures
        bursts_started(c, events) == 0,
        run_ticks(c, events).state is MONITORING,
        run_ticks(c, events).tick_counter == 0,
    decreases events.len(),
{
    let c1 = spec_next(c, events[0]);
    if c.tick_counter + 1 == c.burst_len {
        let rest = events.drop_first();
        let c2 = spec_next(c1, rest[0]);
        assert(run_ticks(c1, rest) == run_ticks(c2, rest.drop_first()));
        assert(bursts_started(c1, rest) == bursts_started(c2, rest.drop_first()));
    } else {
        lemma_burst_runs_blind(c1, events.drop_first());
    }
}

/// However many duplicate detections pile up, one observed monitoring tick
/// starts exactly one burst: over the whole window — the observing tick,
/// the rest of the burst, and the storing tick — recording begins once,
/// whatever events arrive meanwhile, and the window ends back in
/// monitoring.
pub proof fn lemma_single_burst(c: Controller, events: Seq<bool>)
    requires
        c.wf(),
        c.state is MONITORING,
        events.len() == c.burst_len + 1,
        events[0],
    ensures
        bursts_started(c, events) == 1,
        run_ticks(c, events).state is MONITORING,
        run_ticks(c, events).tick_counter == 0,
{
    let c1 = spec_next(c, events[0]);
    lemma_burst_runs_blind(c1, events.drop_first());
}

} // verus!
