//! The balancing worker of one machine, as a state machine: the caller
//! performs each action and hands back what came of it as the next event.
use vstd::prelude::*;
use crate::allocation::COOLDOWN_MS;
use crate::protocol::{
    mb_to_bytes, response_well_formed, summary_lookup, usage_from_response, usage_of, well_formed,
    ResponseError,
};
use crate::registry::{
    allocation_in_range, cycle_decision, lemma_totals_fit, observed, total_actual, total_declared,
    Allocation, Registry, MAX_MB, MAX_WORKLOADS, MIB,
};

verus! {

/// Where a worker stands in its cycle.
#[derive(Clone, Copy, Debug, PartialEq, Eq, Structural)]
pub enum Phase {
    /// Between cycles.
    Idle,
    /// Waiting for the control channel to open.
    Connecting,
    /// Waiting for the reply to the capability handshake.
    Handshaking,
    /// Waiting for the reply to the memory-summary query.
    Querying,
    /// Waiting for the reply to an adjustment command.
    Adjusting,
    /// Stopped for good.
    Stopped,
}

/// What the caller reports to the worker.
#[derive(Debug)]
pub enum Event {
    /// The interval has passed; `stop_requested` is the shutdown flag.
    Tick { stop_requested: bool },
    /// The control channel is open.
    Connected,
    /// Connecting, writing or reading failed.
    ChannelFailed,
    /// The full reply to the last request.
    Response(String),
}

/// What the worker asks the caller to do next.
#[derive(Clone, Copy, Debug, PartialEq, Eq, Structural)]
pub enum Action {
    /// Leave the loop.
    Exit,
    /// Open the control channel.
    Connect,
    /// Send the capability handshake.
    SendHandshake,
    /// Send the memory-summary query.
    SendQuery,
    /// Send an adjustment to this many bytes.
    SendBalloon { bytes: u64 },
    /// Close the channel and wait for the next tick.
    Sleep,
}

/// The worker of machine `index`.
#[derive(Clone, Copy, Debug)]
pub struct Worker {
    pub index: usize,
    pub phase: Phase,
}

/// The registry after an adjustment of machine `i` was confirmed at `now_ms`.
pub open spec fn adjusted(s: Seq<Allocation>, i: int, now_ms: u64) -> Seq<Allocation> {
    s.update(i, Allocation { last_adjusted_at_ms: now_ms, ..s[i] })
}

/// One step of the worker of machine `i`: its next phase, the action asked
/// for, and the registry after the step.
pub open spec fn step_of(phase: Phase, s: Seq<Allocation>, i: int, event: Event, now_ms: u64) -> (
    Phase,
    Action,
    Seq<Allocation>,
) {
    match phase {
        Phase::Stopped => (Phase::Stopped, Action::Exit, s),
        Phase::Idle => match event {
            Event::Tick { stop_requested } => if stop_requested {
                (Phase::Stopped, Action::Exit, s)
            } else {
                (Phase::Connecting, Action::Connect, s)
            },
            _ => (Phase::Idle, Action::Sleep, s),
        },
        Phase::Connecting => match event {
            Event::Connected => (Phase::Handshaking, Action::SendHandshake, s),
            _ => (Phase::Idle, Action::Sleep, s),
        },
        Phase::Handshaking => match event {
            Event::Response(text) => if well_formed(text@) {
                (Phase::Querying, Action::SendQuery, s)
            } else {
                (Phase::Idle, Action::Sleep, s)
            },
            _ => (Phase::Idle, Action::Sleep, s),
        },
        Phase::Querying => match event {
            Event::Response(text) => match usage_of(summary_lookup(text@)) {
                Ok(mb) => {
                    let d = cycle_decision(s, i, mb, now_ms);
                    if d.adjust {
                        (
                            Phase::Adjusting,
                            Action::SendBalloon { bytes: (d.new_target_mb * MIB) as u64 },
                            observed(s, i, mb),
                        )
                    } else {
                        (Phase::Idle, Action::Sleep, observed(s, i, mb))
                    }
                },
                Err(_) => (Phase::Idle, Action::Sleep, s),
            },
            _ => (Phase::Idle, Action::Sleep, s),
        },
        Phase::Adjusting => match event {
            Event::Response(text) => if well_formed(text@) {
                (Phase::Idle, Action::Sleep, adjusted(s, i, now_ms))
            } else {
                (Phase::Idle, Action::Sleep, s)
            },
            _ => (Phase::Idle, Action::Sleep, s),
        },
    }
}

impl Worker {
    /// A worker for machine `index`, between cycles.
    pub fn new(index: usize) -> (w: Worker)
        ensures
            w.index == index,
            w.phase == Phase::Idle,
    {
        Worker { index, phase: Phase::Idle }
    }

    /// Takes one event, updates the registry entry of this worker's machine
    /// and no other, and returns the next action.
    pub fn step(&mut self, registry: &mut Registry, event: Event, now_ms: u64) -> (a: Action)
        requires
            old(registry).wf(),
            old(self).index < old(registry)@.len(),
        ensures
            final(registry).wf(),
            final(registry).ids() == old(registry).ids(),
            final(registry).addresses() == old(registry).addresses(),
            final(self).index == old(self).index,
            (final(self).phase, a, final(registry)@) == step_of(
                old(self).phase,
                old(registry)@,
                old(self).index as int,
                event,
                now_ms,
            ),
    {
        let i = self.index;
        let (phase, action) = match self.phase {
            Phase::Stopped => (Phase::Stopped, Action::Exit),
            Phase::Idle => match event {
                Event::Tick { stop_requested } => if stop_requested {
                    (Phase::Stopped, Action::Exit)
                } else {
                    (Phase::Connecting, Action::Connect)
                },
                _ => (Phase::Idle, Action::Sleep),
            },
            Phase::Connecting => match event {
                Event::Connected => (Phase::Handshaking, Action::SendHandshake),
                _ => (Phase::Idle, Action::Sleep),
            },
            Phase::Handshaking => match event {
                Event::Response(text) => if response_well_formed(text.as_str()) {
                    (Phase::Querying, Action::SendQuery)
                } else {
                    (Phase::Idle, Action::Sleep)
                },
                _ => (Phase::Idle, Action::Sleep),
            },
            Phase::Querying => match event {
                Event::Response(text) => match usage_from_response(text.as_str()) {
                    Ok(mb) => {
                        let d = registry.observe_and_decide(i, mb, now_ms);
                        if d.adjust {
                            (Phase::Adjusting, Action::SendBalloon { bytes: mb_to_bytes(d.new_target_mb) })
                        } else {
                            (Phase::Idle, Action::Sleep)
                        }
                    },
                    Err(_) => (Phase::Idle, Action::Sleep),
                },
                _ => (Phase::Idle, Action::Sleep),
            },
            Phase::Adjusting => match event {
                Event::Response(text) => if response_well_formed(text.as_str()) {
                    registry.mark_adjusted(i, now_ms);
                    (Phase::Idle, Action::Sleep)
                } else {
                    (Phase::Idle, Action::Sleep)
                },
                _ => (Phase::Idle, Action::Sleep),
            },
        };
        self.phase = phase;
        action
    }
}

/// A registry state that the registry's invariant admits.
pub open spec fn valid_state(s: Seq<Allocation>) -> bool {
    &&& s.len() <= MAX_WORKLOADS
    &&& forall|k: int| 0 <= k < s.len() ==> allocation_in_range(#[trigger] s[k])
}

proof fn lemma_observed_valid(s: Seq<Allocation>, i: int, mb: u64)
    requires
        valid_state(s),
        0 <= i < s.len(),
        mb <= MAX_MB,
    ensures
        valid_state(observed(s, i, mb)),
        0 <= total_actual(observed(s, i, mb)) <= u64::MAX,
        0 <= total_declared(observed(s, i, mb)) <= u64::MAX,
{
    let t = observed(s, i, mb);
    assert forall|k: int| 0 <= k < t.len() implies allocation_in_range(#[trigger] t[k]) by {
        assert(allocation_in_range(s[k]));
    }
    lemma_totals_fit(t);
}

/// Soft failures stay with their machine: a memory-summary reply that
/// yields no usage leaves the whole registry as it was and sends the worker
/// back to wait for its next cycle; no step of machine `i`'s worker changes
/// the entry of another machine `j`; and machine `j`'s next cycle starts
/// whatever the registry holds.
pub proof fn law_failure_isolated(
    phase: Phase,
    s: Seq<Allocation>,
    i: int,
    j: int,
    event: Event,
    now_ms: u64,
)
    requires
        0 <= i < s.len(),
        0 <= j < s.len(),
        i != j,
    ensures
        step_of(phase, s, i, event, now_ms).2.len() == s.len(),
        step_of(phase, s, i, event, now_ms).2[j] == s[j],
        phase == Phase::Querying && event is Response && usage_of(
            summary_lookup(event->Response_0@),
        ) is Err ==> step_of(phase, s, i, event, now_ms) == (Phase::Idle, Action::Sleep, s),
        forall|s2: Seq<Allocation>, t: u64| #[trigger]
            step_of(Phase::Idle, s2, j, Event::Tick { stop_requested: false }, t) == (
                Phase::Connecting,
                Action::Connect,
                s2,
            ),
{
}

/// Steady state: when, with the new usage recorded, the global usage is
/// within the global target and the machine uses at least its declared
/// target, its memory-summary reply sends no command and changes only the
/// usage recorded for it.
pub proof fn law_steady_state_cycle(s: Seq<Allocation>, i: int, text: String, mb: u64, now_ms: u64)
    requires
        valid_state(s),
        0 <= i < s.len(),
        usage_of(summary_lookup(text@)) == Ok::<u64, ResponseError>(mb),
        total_actual(observed(s, i, mb)) <= total_declared(observed(s, i, mb)),
        mb >= s[i].declared_target_mb,
    ensures
        step_of(Phase::Querying, s, i, Event::Response(text), now_ms) == (
            Phase::Idle,
            Action::Sleep,
            s.update(i, Allocation { observed_actual_mb: mb, ..s[i] }),
        ),
{
    lemma_observed_valid(s, i, mb);
}

/// The action that a memory-summary reply `text` leads machine `i` to.
pub open spec fn query_action(s: Seq<Allocation>, i: int, text: String, now_ms: u64) -> Action {
    step_of(Phase::Querying, s, i, Event::Response(text), now_ms).1
}

/// Whether, with usage `mb` recorded for machine `i`, the budget is kept.
pub open spec fn within_budget(s: Seq<Allocation>, i: int, mb: u64) -> bool {
    total_actual(observed(s, i, mb)) <= total_declared(observed(s, i, mb))
}

/// Cooldown: within budget and below its declared target, a machine's
/// memory-summary reply grows it back to its declared target exactly when
/// more than `COOLDOWN_MS` have passed since its last adjustment, and
/// otherwise sends nothing.
pub proof fn law_grow_back_after_cooldown(
    s: Seq<Allocation>,
    i: int,
    text: String,
    mb: u64,
    now_ms: u64,
)
    requires
        valid_state(s),
        0 <= i < s.len(),
        usage_of(summary_lookup(text@)) == Ok::<u64, ResponseError>(mb),
        within_budget(s, i, mb),
        mb < s[i].declared_target_mb,
        now_ms >= s[i].last_adjusted_at_ms,
    ensures
        now_ms - s[i].last_adjusted_at_ms > COOLDOWN_MS ==> query_action(s, i, text, now_ms)
            == (Action::SendBalloon { bytes: (s[i].declared_target_mb * MIB) as u64 }),
        now_ms - s[i].last_adjusted_at_ms <= COOLDOWN_MS ==> query_action(s, i, text, now_ms)
            == Action::Sleep,
{
    lemma_observed_valid(s, i, mb);
}

/// One grow-back per window: once an adjustment of machine `i` is
/// confirmed at `t`, no reply within `COOLDOWN_MS` of `t` grows it back
/// while the budget is kept.
pub proof fn law_no_grow_back_within_window(
    s: Seq<Allocation>,
    i: int,
    t: u64,
    text: String,
    mb: u64,
    now_ms: u64,
)
    requires
        valid_state(s),
        0 <= i < s.len(),
        usage_of(summary_lookup(text@)) == Ok::<u64, ResponseError>(mb),
        within_budget(adjusted(s, i, t), i, mb),
        t <= now_ms <= t + COOLDOWN_MS,
    ensures
        query_action(adjusted(s, i, t), i, text, now_ms) == Action::Sleep,
{
    let a = adjusted(s, i, t);
    assert forall|k: int| 0 <= k < a.len() implies allocation_in_range(#[trigger] a[k]) by {
        assert(allocation_in_range(s[k]));
    }
    lemma_observed_valid(a, i, mb);
}

} // verus!
