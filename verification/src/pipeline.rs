//! Pipeline glue: the three-stage sequential step — decode, schedule,
//! transition — with at most one in-flight transition. A schedule produced
//! for one event is drained in order, one action per transition, before
//! the next event's schedule begins.

use vstd::prelude::*;

use crate::codec::{spec_decode_event, Command, DecodeError, Event};
use crate::context::{CtxView, ElevatorContext};
use crate::scan::{spec_scan, ScanStrategy, Strategy};
use crate::sched_events::ScheduleEvent;
use crate::transition::{spec_apply, State};

verus! {

/// Wraps a dispatch strategy for installation into the event pipeline.
pub struct SchedulerEventLayer<ST> {
    pub strategy: ST,
}

impl<ST> SchedulerEventLayer<ST> {
    pub fn new(strategy: ST) -> (r: SchedulerEventLayer<ST>)
        ensures
            r.strategy == strategy,
    {
        SchedulerEventLayer { strategy }
    }
}

/// The commands a single optional command contributes to the output.
pub open spec fn opt_cmd_seq(c: Option<Command>) -> Seq<Command> {
    match c {
        Some(cmd) => seq![cmd],
        None => Seq::<Command>::empty(),
    }
}

/// Draining a schedule: each action is fed to the state machine in
/// emission order, and the legal transitions' commands come out in that
/// same order.
pub open spec fn spec_run_schedule(s: State, evs: Seq<ScheduleEvent>) -> (State, Seq<Command>)
    decreases evs.len(),
{
    if evs.len() == 0 {
        (s, Seq::<Command>::empty())
    } else {
        let step = spec_apply(s, evs[0].action());
        let rest = spec_run_schedule(step.0, evs.drop_first());
        (rest.0, opt_cmd_seq(step.1) + rest.1)
    }
}

/// Feeds a whole schedule through the state machine, in order, collecting
/// the emitted commands. The delay of a `WaitTime` entry is honored by the
/// caller that owns the clock; it does not change which transitions occur.
pub fn run_schedule(state: State, sched: &Vec<ScheduleEvent>) -> (r: (State, Vec<Command>))
    ensures
        r.0 == spec_run_schedule(state, sched@).0,
        r.1@ == spec_run_schedule(state, sched@).1,
{
    let mut s = state;
    let mut cmds: Vec<Command> = Vec::new();
    let mut i: usize = 0;
    proof {
        assert(sched@.skip(0) =~= sched@);
        assert(cmds@ + spec_run_schedule(s, sched@).1 =~= spec_run_schedule(s, sched@).1);
    }
    while i < sched.len()
        invariant
            0 <= i <= sched@.len(),
            spec_run_schedule(state, sched@).0 == spec_run_schedule(s, sched@.skip(i as int)).0,
            spec_run_schedule(state, sched@).1 == cmds@ + spec_run_schedule(
                s,
                sched@.skip(i as int),
            ).1,
        decreases sched@.len() - i,
    {
        let ev = sched[i];
        let action = match ev {
            ScheduleEvent::Instant(a) => a,
            ScheduleEvent::WaitTime(_d, a) => a,
        };
        proof {
            assert(sched@.skip(i as int)[0] == sched@[i as int]);
            assert(sched@.skip(i as int).drop_first() =~= sched@.skip(i as int + 1));
        }
        let stepped = s.apply(action);
        s = stepped.0;
        match stepped.1 {
            Some(cmd) => {
                cmds.push(cmd);
            },
            None => {},
        }
        proof {
            assert(spec_run_schedule(state, sched@).1 =~= cmds@ + spec_run_schedule(
                s,
                sched@.skip(i as int + 1),
            ).1);
        }
        i = i + 1;
    }
    proof {
        assert(sched@.skip(sched@.len() as int) =~= Seq::<ScheduleEvent>::empty());
        assert(spec_run_schedule(state, sched@).1 =~= cmds@);
    }
    (s, cmds)
}

/// One full pipeline step on the models: decode the packet; on failure
/// report the error and change nothing; on success let the SCAN strategy
/// schedule, then drain the schedule through the state machine.
pub open spec fn spec_step(c: CtxView, s: State, raw: Seq<u8>) -> (
    CtxView,
    State,
    Seq<Command>,
    Option<DecodeError>,
) {
    match spec_decode_event(raw) {
        Err(e) => (c, s, Seq::<Command>::empty(), Some(e)),
        Ok(ev) => {
            let scanned = spec_scan(c, ev, s);
            let run = spec_run_schedule(s, scanned.1);
            (scanned.0, run.0, run.1, None)
        },
    }
}

/// One full pipeline step: decode, schedule, transition. A packet that
/// fails to decode is dropped — the error is reported, the context, the
/// state and the output are untouched, and the pipeline may continue.
pub fn pipeline_step(strategy: &ScanStrategy, ctx: &mut ElevatorContext, state: State, raw: &[u8])
    -> (r: (State, Vec<Command>, Option<DecodeError>))
    requires
        old(ctx)@.wf(),
    ensures
        final(ctx)@ == spec_step(old(ctx)@, state, raw@).0,
        r.0 == spec_step(old(ctx)@, state, raw@).1,
        r.1@ == spec_step(old(ctx)@, state, raw@).2,
        r.2 == spec_step(old(ctx)@, state, raw@).3,
        final(ctx)@.wf(),
{
    let ev = match Event::decode(raw) {
        Ok(ev) => ev,
        Err(e) => {
            let none: Vec<Command> = Vec::new();
            proof {
                assert(none@ =~= Seq::<Command>::empty());
            }
            return (state, none, Some(e));
        },
    };
    let sched = strategy.handle(ctx, ev, state);
    match sched {
        Some(v) => {
            let run = run_schedule(state, &v);
            (run.0, run.1, None)
        },
        None => {
            proof {
                assert(spec_scan(old(ctx)@, ev, state).1 =~= Seq::<ScheduleEvent>::empty());
            }
            (state, Vec::new(), None)
        },
    }
}

/// Law: a buffer that fails to decode is reported and nothing else
/// happens; delivering the same failing buffer twice yields the same
/// error twice, independently, with the context and the state untouched
/// both times and no command emitted either time.
pub proof fn lemma_decode_failure_idempotent(c: CtxView, s: State, raw: Seq<u8>)
    requires
        spec_decode_event(raw) is Err,
    ensures
        ({
            let once = spec_step(c, s, raw);
            let twice = spec_step(once.0, once.1, raw);
            match spec_decode_event(raw) {
                Err(e) => once == (c, s, Seq::<Command>::empty(), Some(e)) && twice == once,
                Ok(_) => false,
            }
        }),
{
}

} // verus!
