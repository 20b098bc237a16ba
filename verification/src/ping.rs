//! The keep-alive schedule: when a ping frame is due.
//!
//! Time is an abstract non-decreasing counter (the caller's clock,
//! sampled once per dispatch tick); the interval is in the same unit.

use vstd::prelude::*;

verus! {

/// Decides, once per dispatch tick, whether a keep-alive frame is due.
/// An absent interval disables pinging. `last_sent` starts at process
/// start and is reset to the current time on each send, so drift
/// accumulates by at most one tick quantum per interval.
pub struct PingScheduler {
    pub interval: Option<u64>,
    pub last_sent: u64,
}

impl PingScheduler {
    /// A ping is due iff an interval is configured and at least that
    /// much time has passed since the last send.
    pub open spec fn due(self, now: u64) -> bool {
        &&& self.interval is Some
        &&& now >= self.last_sent
        &&& now - self.last_sent >= self.interval.unwrap()
    }

    pub fn new(interval: Option<u64>, start: u64) -> (s: PingScheduler)
        ensures
            s.interval == interval,
            s.last_sent == start,
    {
        PingScheduler { interval, last_sent: start }
    }

    /// One tick's decision: report whether a ping is due now and, if so,
    /// reset the last-sent time to now (not to the theoretical boundary).
    pub fn check(&mut self, now: u64) -> (fire: bool)
        requires
            now >= old(self).last_sent,
        ensures
            fire == old(self).due(now),
            final(self).interval == old(self).interval,
            final(self).last_sent == if fire {
                now
            } else {
                old(self).last_sent
            },
    {
        match self.interval {
            Some(interval) => {
                if now - self.last_sent >= interval {
                    self.last_sent = now;
                    true
                } else {
                    false
                }
            },
            None => false,
        }
    }
}

/// The times at which pings fire when the scheduler is consulted at the
/// given tick times in order, starting from last-sent time `last`: a
/// tick fires iff at least `interval` has passed since the last fire
/// (initially since `last`), and a fire resets that reference point —
/// exactly the step `PingScheduler::check` takes.
pub open spec fn spec_fires(interval: u64, last: u64, ticks: Seq<u64>) -> Seq<u64>
    decreases ticks.len(),
{
    if ticks.len() == 0 {
        Seq::empty()
    } else if ticks[0] >= last && ticks[0] - last >= interval {
        seq![ticks[0]] + spec_fires(interval, ticks[0], ticks.skip(1))
    } else {
        spec_fires(interval, last, ticks.skip(1))
    }
}

/// Consult the scheduler once per tick, at the given non-decreasing tick
/// times, collecting the times at which a ping fired: exactly the fires
/// of the model above for an enabled scheduler, and none at all for a
/// disabled one.
pub fn run_schedule(sched: &mut PingScheduler, ticks: &Vec<u64>) -> (fired: Vec<u64>)
    requires
        ticks@.len() > 0 ==> old(sched).last_sent <= ticks@[0],
        forall|k: int| 0 <= k < ticks@.len() - 1 ==> #[trigger] ticks@[k] <= ticks@[k + 1],
    ensures
        final(sched).interval == old(sched).interval,
        old(sched).interval is Some ==> fired@ == spec_fires(
            old(sched).interval.unwrap(),
            old(sched).last_sent,
            ticks@,
        ),
        old(sched).interval is None ==> fired@.len() == 0 && *final(sched) == *old(sched),
{
    let mut fired: Vec<u64> = Vec::new();
    let mut i: usize = 0;
    proof {
        assert(ticks@.skip(0) =~= ticks@);
        assert(fired@ + spec_fires(
            old(sched).interval.unwrap(),
            old(sched).last_sent,
            ticks@,
        ) =~= spec_fires(old(sched).interval.unwrap(), old(sched).last_sent, ticks@));
    }
    while i < ticks.len()
        invariant
            i <= ticks.len(),
            sched.interval == old(sched).interval,
            i < ticks@.len() ==> sched.last_sent <= ticks@[i as int],
            forall|k: int| 0 <= k < ticks@.len() - 1 ==> #[trigger] ticks@[k] <= ticks@[k + 1],
            sched.interval is Some ==> spec_fires(
                old(sched).interval.unwrap(),
                old(sched).last_sent,
                ticks@,
            ) == fired@ + spec_fires(
                sched.interval.unwrap(),
                sched.last_sent,
                ticks@.skip(i as int),
            ),
            sched.interval is None ==> fired@.len() == 0 && *sched == *old(sched),
        decreases ticks.len() - i,
    {
        let ghost pre = *sched;
        let t = ticks[i];
        let f = sched.check(t);
        proof {
            assert(ticks@.skip(i as int)[0] == ticks@[i as int]);
            assert(ticks@.skip(i as int).skip(1) =~= ticks@.skip(i + 1));
        }
        if f {
            fired.push(t);
        }
        proof {
            if pre.interval is Some {
                let iv = pre.interval.unwrap();
                let rest = spec_fires(iv, sched.last_sent, ticks@.skip(i + 1));
                if f {
                    assert(spec_fires(iv, pre.last_sent, ticks@.skip(i as int)) == seq![t] + rest);
                    assert(fired@.drop_last() + (seq![t] + rest) =~= fired@ + rest);
                } else {
                    assert(spec_fires(iv, pre.last_sent, ticks@.skip(i as int)) == rest);
                }
            }
        }
        i += 1;
    }
    proof {
        assert(ticks@.skip(ticks.len() as int) =~= Seq::<u64>::empty());
        if sched.interval is Some {
            assert(fired@ + Seq::<u64>::empty() =~= fired@);
        }
    }
    fired
}

/// Never-too-close half of the ping cadence law: however the ticks
/// fall, consecutive fires are at least one interval apart, and the
/// first fire comes no earlier than one interval after the start.
pub proof fn lemma_ping_separation(interval: u64, last: u64, ticks: Seq<u64>)
    ensures
        ({
            let fires = spec_fires(interval, last, ticks);
            &&& (fires.len() > 0 ==> fires[0] >= last && fires[0] - last >= interval)
            &&& forall|i: int|
                0 <= i < fires.len() - 1 ==> #[trigger] fires[i + 1] >= fires[i] && fires[i + 1]
                    - fires[i] >= interval
        }),
    decreases ticks.len(),
{
    let fires = spec_fires(interval, last, ticks);
    if ticks.len() == 0 {
    } else if ticks[0] >= last && ticks[0] - last >= interval {
        lemma_ping_separation(interval, ticks[0], ticks.skip(1));
        let sub = spec_fires(interval, ticks[0], ticks.skip(1));
        assert(fires == seq![ticks[0]] + sub);
        assert(fires[0] == ticks[0]);
        assert forall|i: int|
            0 <= i < fires.len() - 1 implies #[trigger] fires[i + 1] >= fires[i] && fires[i + 1]
            - fires[i] >= interval by {
            if i == 0 {
                assert(sub.len() > 0);
                assert(fires[1] == sub[0]);
            } else {
                assert(fires[i] == sub[i - 1]);
                assert(fires[i + 1] == sub[i]);
                assert(sub[i - 1 + 1] >= sub[i - 1] && sub[i - 1 + 1] - sub[i - 1] >= interval);
            }
        }
    } else {
        lemma_ping_separation(interval, last, ticks.skip(1));
    }
}

/// Never-too-late half of the ping cadence law: if consecutive ticks
/// are never more than `quantum` apart and the first tick of each
/// stretch comes soon enough (within `interval + quantum` of the
/// reference point, as it does when ticking starts at once), then each
/// fire lands within `quantum` of the moment it became due: the first
/// before `last + interval + quantum`, and each next one within
/// `interval + quantum` of the previous.
pub proof fn lemma_ping_drift(interval: u64, last: u64, ticks: Seq<u64>, quantum: u64)
    requires
        interval >= 1,
        forall|k: int|
            0 <= k < ticks.len() - 1 ==> #[trigger] ticks[k + 1] >= ticks[k] && ticks[k + 1]
                - ticks[k] <= quantum,
        ticks.len() > 0 ==> ticks[0] - last < interval + quantum,
    ensures
        ({
            let fires = spec_fires(interval, last, ticks);
            &&& (fires.len() > 0 ==> fires[0] - last < interval + quantum)
            &&& forall|i: int|
                0 <= i < fires.len() - 1 ==> #[trigger] fires[i + 1] - fires[i] < interval
                    + quantum
        }),
    decreases ticks.len(),
{
    let fires = spec_fires(interval, last, ticks);
    if ticks.len() == 0 {
    } else {
        let rest = ticks.skip(1);
        assert(forall|k: int| 0 <= k < rest.len() ==> rest[k] == ticks[k + 1]);
        assert(forall|k: int|
            0 <= k < rest.len() - 1 ==> #[trigger] rest[k + 1] >= rest[k] && rest[k + 1] - rest[k]
                <= quantum) by {
            assert(forall|k: int|
                0 <= k < ticks.len() - 1 ==> #[trigger] ticks[k + 1] >= ticks[k] && ticks[k + 1]
                    - ticks[k] <= quantum);
        }
        if ticks[0] >= last && ticks[0] - last >= interval {
            assert(rest.len() > 0 ==> rest[0] - ticks[0] < interval + quantum);
            lemma_ping_drift(interval, ticks[0], rest, quantum);
            let sub = spec_fires(interval, ticks[0], rest);
            assert(fires == seq![ticks[0]] + sub);
            assert forall|i: int|
                0 <= i < fires.len() - 1 implies #[trigger] fires[i + 1] - fires[i] < interval
                + quantum by {
                if i == 0 {
                    assert(sub.len() > 0);
                    assert(fires[1] == sub[0]);
                    assert(sub[0] - ticks[0] < interval + quantum);
                } else {
                    assert(fires[i] == sub[i - 1]);
                    assert(fires[i + 1] == sub[i]);
                    assert(sub[i - 1 + 1] - sub[i - 1] < interval + quantum);
                }
            }
        } else {
            assert(rest.len() > 0 ==> rest[0] - last < interval + quantum);
            lemma_ping_drift(interval, last, rest, quantum);
        }
    }
}

/// Disabled half of the ping cadence law: with no interval configured,
/// no tick ever fires a ping.
pub proof fn lemma_ping_disabled(s: PingScheduler, now: u64)
    requires
        s.interval is None,
    ensures
        !s.due(now),
{
}

} // verus!
