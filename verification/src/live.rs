//! Small live panels: the counter of runs and unique seeds, and the real
//! timer of a level.
use vstd::prelude::*;
use std::collections::HashSet;

use crate::exported::RunGeneratorResult;

verus! {

broadcast use {
    vstd::std_specs::hash::group_hash_axioms,
};

/// Counts the sessions started and the unique seeds among them.
#[derive(Debug)]
pub struct RunCounter {
    pub run_counter: usize,
    pub seed_counter: usize,
    pub seeds: HashSet<u64>,
}

impl RunCounter {
    /// The seed count is the number of seeds seen, which is at most the
    /// number of sessions.
    pub open spec fn wf(&self) -> bool {
        &&& self.seeds@.finite()
        &&& self.seed_counter == self.seeds@.len()
        &&& self.seed_counter <= self.run_counter
    }

    /// Nothing counted yet.
    pub fn new() -> (c: RunCounter)
        ensures
            c.wf(),
            c.run_counter == 0,
            c.seed_counter == 0,
            c.seeds@ == Set::<u64>::empty(),
    {
        RunCounter { run_counter: 0, seed_counter: 0, seeds: HashSet::new() }
    }

    /// A session started with seed `seed`: one more run, and one more
    /// unique seed if it was not seen before.
    pub fn on_session_seed(&mut self, seed: u64)
        requires
            old(self).wf(),
            old(self).run_counter < usize::MAX,
        ensures
            final(self).wf(),
            final(self).run_counter == old(self).run_counter + 1,
            final(self).seeds@ == old(self).seeds@.insert(seed),
            final(self).seed_counter == old(self).seed_counter + if old(self).seeds@.contains(seed) {
                0int
            } else {
                1int
            },
            session_counted(*old(self), *final(self), seed),
    {
        self.seeds.insert(seed);
        self.run_counter = self.run_counter + 1;
        self.seed_counter = self.seeds.len();
    }
}

/// Whether `new` is `old` after a session started with seed `seed`: one
/// more run, the seed among the seeds seen, and the seed count their number.
pub open spec fn session_counted(old: RunCounter, new: RunCounter, seed: u64) -> bool {
    &&& new.run_counter == old.run_counter + 1
    &&& new.seeds@ == old.seeds@.insert(seed)
    &&& new.seed_counter == new.seeds@.len()
}

/// Over the sessions started with the seeds `seeds` (repeats allowed), from
/// a counter with nothing counted, the run count is the number of sessions
/// and the seed count the number of distinct seeds: `counters[i]` is the
/// counter after the first `i` sessions.
pub proof fn lemma_counts_over_sessions(counters: Seq<RunCounter>, seeds: Seq<u64>)
    requires
        counters.len() == seeds.len() + 1,
        counters[0].run_counter == 0,
        counters[0].seed_counter == 0,
        counters[0].seeds@ == Set::<u64>::empty(),
        forall|i: int| 0 <= i < seeds.len() ==> session_counted(#[trigger] counters[i], counters[i + 1], seeds[i]),
    ensures
        counters.last().run_counter == seeds.len(),
        counters.last().seeds@ == seeds.to_set(),
        counters.last().seed_counter == seeds.to_set().len(),
    decreases seeds.len(),
{
    if seeds.len() == 0 {
        assert(seeds.to_set() =~= Set::<u64>::empty());
    } else {
        let c0 = counters.drop_last();
        let s0 = seeds.drop_last();
        assert forall|i: int| 0 <= i < s0.len() implies session_counted(#[trigger] c0[i], c0[i + 1], s0[i]) by {
            assert(c0[i] == counters[i] && c0[i + 1] == counters[i + 1] && s0[i] == seeds[i]);
        }
        lemma_counts_over_sessions(c0, s0);
        let n = seeds.len() - 1;
        assert(session_counted(counters[n], counters[n + 1], seeds[n]));
        assert(c0.last() == counters[n]);
        assert(seeds.to_set() =~= s0.to_set().insert(seeds[n])) by {
            assert forall|x: u64| seeds.contains(x) <==> (s0.contains(x) || x == seeds[n]) by {
                if seeds.contains(x) {
                    let j = choose|j: int| 0 <= j < seeds.len() && seeds[j] == x;
                    if j < n {
                        assert(s0[j] == x);
                    }
                }
                if s0.contains(x) {
                    let j = choose|j: int| 0 <= j < s0.len() && s0[j] == x;
                    assert(seeds[j] == x);
                }
            }
        }
    }
}

/// The real timer of a level: running from the start of a game to the end
/// of the level run.
#[derive(Debug)]
pub struct Timer {
    pub active: bool,
}

impl Timer {
    /// A timer that is not running.
    pub fn new() -> (t: Timer)
        ensures
            !t.active,
    {
        Timer { active: false }
    }

    /// Takes a run event: a game start switches the timer on and restarts
    /// its clock (the answer is `true`), a finished level run switches it
    /// off; other events change nothing.
    pub fn on_event(&mut self, ev: &RunGeneratorResult) -> (restart: bool)
        ensures
            restart == (*ev is GameStarted),
            final(self).active == match *ev {
                RunGeneratorResult::GameStarted(_, _) => true,
                RunGeneratorResult::LevelRun(_) => false,
                _ => old(self).active,
            },
    {
        match ev {
            RunGeneratorResult::GameStarted(_, _) => {
                self.active = true;
                true
            },
            RunGeneratorResult::LevelRun(_) => {
                self.active = false;
                false
            },
            _ => false,
        }
    }

    /// The height the timer takes: none while it is off.
    pub fn height(&self) -> (h: usize)
        ensures
            h == if self.active {
                54usize
            } else {
                0usize
            },
    {
        if self.active {
            54
        } else {
            0
        }
    }
}

/// The hours, minutes and seconds of a time of `total_secs` seconds.
pub fn clock_parts(total_secs: u64) -> (r: (u64, u64, u64))
    ensures
        r.0 == total_secs / 3600,
        r.1 == (total_secs % 3600) / 60,
        r.2 == total_secs % 60,
        r.0 * 3600 + r.1 * 60 + r.2 == total_secs,
        r.1 < 60,
        r.2 < 60,
{
    let h = total_secs / 3600;
    let m = (total_secs % 3600) / 60;
    let s = total_secs % 60;
    proof {
        assert(h * 3600 + m * 60 + s == total_secs) by (nonlinear_arith)
            requires
                h == total_secs / 3600,
                m == (total_secs % 3600) / 60,
                s == total_secs % 60,
        ;
    }
    (h, m, s)
}

} // verus!
