//! The dispatcher's per-tick decisions.
//!
//! The surrounding process owns the loop: each tick it drains the shared
//! queue under its lock, asks `Dispatcher::tick` what to write and what
//! to echo, performs the writes in order, reports any failure through
//! `on_write_result`, and sleeps one tick quantum. Only a write failure
//! ends the session: the state machine is `Running` until one, `Fatal`
//! after it, and the process exits non-zero from `Fatal`.

use vstd::prelude::*;
use crate::frame::{echo_line, spec_echo_line, FrameData, FrameKind, FrameOrigin};
use crate::ping::PingScheduler;

verus! {

/// The dispatcher's lifecycle: `Running` until an unrecoverable write
/// or connect error, `Fatal` from then on.
#[derive(Clone, Copy, Debug, PartialEq, Eq, Structural)]
pub enum DispatchState {
    Running,
    Fatal,
}

/// What one tick asks the caller to do: write these frames to the
/// connection, in order, and print these echo lines.
pub struct TickPlan {
    pub writes: Vec<FrameData>,
    pub echoes: Vec<Vec<u8>>,
}

/// The per-tick coordinator: consumes each drained batch in order,
/// appends a keep-alive frame when one is due, and turns a failed write
/// into the terminal state.
pub struct Dispatcher {
    pub sched: PingScheduler,
    pub echo: bool,
    pub ping_msg: Vec<u8>,
    pub state: DispatchState,
}

impl Dispatcher {
    pub fn new(interval: Option<u64>, start: u64, echo: bool, ping_msg: Vec<u8>) -> (d: Dispatcher)
        ensures
            d.sched.interval == interval,
            d.sched.last_sent == start,
            d.echo == echo,
            d.ping_msg == ping_msg,
            d.state == DispatchState::Running,
    {
        Dispatcher {
            sched: PingScheduler::new(interval, start),
            echo,
            ping_msg,
            state: DispatchState::Running,
        }
    }

    /// One tick: the drained batch is written first, in queue order;
    /// then, if a ping is due at `now`, one text frame carrying the ping
    /// message, tagged as a ping, is appended (it bypasses the queue)
    /// and echoed under the same rule as other sent frames. Frames from
    /// the batch were already echoed when they were produced, so the
    /// tick echoes the ping alone.
    pub fn tick(&mut self, batch: Vec<FrameData>, now: u64) -> (plan: TickPlan)
        requires
            old(self).state == DispatchState::Running,
            now >= old(self).sched.last_sent,
        ensures
            final(self).echo == old(self).echo,
            final(self).ping_msg == old(self).ping_msg,
            final(self).state == DispatchState::Running,
            final(self).sched.interval == old(self).sched.interval,
            final(self).sched.last_sent == if old(self).sched.due(now) {
                now
            } else {
                old(self).sched.last_sent
            },
            ({
                let fired = old(self).sched.due(now);
                let n = batch@.len() as int;
                &&& plan.writes@.len() == n + if fired {
                    1int
                } else {
                    0int
                }
                &&& plan.writes@.take(n) == batch@
                &&& (fired ==> plan.writes@.last().kind == FrameKind::Text
                    && plan.writes@.last().payload@ == old(self).ping_msg@
                    && plan.writes@.last().origin == Some(FrameOrigin::PingFrame))
                &&& plan.echoes@.len() == if fired && old(self).echo {
                    1int
                } else {
                    0int
                }
                &&& (fired && old(self).echo ==> plan.echoes@[0]@ == spec_echo_line(
                    old(self).ping_msg@,
                ))
            }),
    {
        let fired = self.sched.check(now);
        let mut writes = batch;
        let mut echoes: Vec<Vec<u8>> = Vec::new();
        let ghost n = writes@.len() as int;
        if fired {
            if self.echo {
                echoes.push(echo_line(&self.ping_msg));
            }
            let mut payload: Vec<u8> = Vec::new();
            let mut j: usize = 0;
            while j < self.ping_msg.len()
                invariant
                    j <= self.ping_msg.len(),
                    payload@ == self.ping_msg@.take(j as int),
                    self.ping_msg == old(self).ping_msg,
                decreases self.ping_msg.len() - j,
            {
                proof {
                    assert(self.ping_msg@.take(j + 1) =~= self.ping_msg@.take(j as int).push(
                        self.ping_msg@[j as int],
                    ));
                }
                payload.push(self.ping_msg[j]);
                j += 1;
            }
            proof {
                assert(self.ping_msg@.take(self.ping_msg@.len() as int) =~= self.ping_msg@);
            }
            let ping = FrameData { payload, kind: FrameKind::Text, origin: Some(
                FrameOrigin::PingFrame,
            ) };
            writes.push(ping);
        }
        proof {
            assert(writes@.take(n) =~= batch@);
        }
        TickPlan { writes, echoes }
    }

    /// Record the outcome of one connection write: a failure is
    /// unrecoverable and moves the dispatcher to its terminal state;
    /// nothing is retried or rolled back.
    pub fn on_write_result(&mut self, ok: bool)
        ensures
            final(self).state == if ok {
                old(self).state
            } else {
                DispatchState::Fatal
            },
            final(self).sched == old(self).sched,
            final(self).echo == old(self).echo,
            final(self).ping_msg == old(self).ping_msg,
    {
        if !ok {
            self.state = DispatchState::Fatal;
        }
    }
}

/// The pre-supplied startup messages, as frames to write once, in
/// order, before the main loop's first tick — they bypass the queue —
/// together with the one echo line each frame owes when echo is on,
/// emitted immediately before its write is attempted.
pub fn startup_frames(messages: &Vec<Vec<u8>>, echo: bool) -> (r: (Vec<FrameData>, Vec<Vec<u8>>))
    ensures
        r.0@.len() == messages@.len(),
        forall|i: int|
            0 <= i < messages@.len() ==> {
                &&& (#[trigger] r.0@[i]).kind == FrameKind::Text
                &&& r.0@[i].payload@ == messages@[i]@
                &&& r.0@[i].origin == Some(FrameOrigin::PreSuppliedMessage)
                &&& r.0@[i].wf()
            },
        echo ==> r.1@.len() == messages@.len(),
        echo ==> forall|i: int|
            0 <= i < messages@.len() ==> (#[trigger] r.1@[i])@ == spec_echo_line(messages@[i]@),
        !echo ==> r.1@.len() == 0,
{
    let mut frames: Vec<FrameData> = Vec::new();
    let mut echoes: Vec<Vec<u8>> = Vec::new();
    let mut i: usize = 0;
    while i < messages.len()
        invariant
            i <= messages.len(),
            frames@.len() == i,
            forall|k: int|
                0 <= k < i ==> {
                    &&& (#[trigger] frames@[k]).kind == FrameKind::Text
                    &&& frames@[k].payload@ == messages@[k]@
                    &&& frames@[k].origin == Some(FrameOrigin::PreSuppliedMessage)
                    &&& frames@[k].wf()
                },
            echo ==> echoes@.len() == i,
            echo ==> forall|k: int|
                0 <= k < i ==> (#[trigger] echoes@[k])@ == spec_echo_line(messages@[k]@),
            !echo ==> echoes@.len() == 0,
        decreases messages.len() - i,
    {
        let mut payload: Vec<u8> = Vec::new();
        let mut j: usize = 0;
        while j < messages[i].len()
            invariant
                i < messages.len(),
                j <= messages@[i as int]@.len(),
                payload@ == messages@[i as int]@.take(j as int),
            decreases messages@[i as int]@.len() - j,
        {
            proof {
                assert(messages@[i as int]@.take(j + 1) =~= messages@[i as int]@.take(
                    j as int,
                ).push(messages@[i as int]@[j as int]));
            }
            payload.push(messages[i][j]);
            j += 1;
        }
        proof {
            assert(messages@[i as int]@.take(messages@[i as int]@.len() as int)
                =~= messages@[i as int]@);
        }
        if echo {
            echoes.push(echo_line(&payload));
        }
        frames.push(FrameData::text(payload, FrameOrigin::PreSuppliedMessage));
        i += 1;
    }
    (frames, echoes)
}

} // verus!
