//! Statistics over many level runs: counts, win rates and times per level.
use vstd::prelude::*;
use vstd::string::StringExecFns;

use crate::run::LevelRun;
use crate::text::{
    lemma_seq_less_irreflexive, lemma_seq_less_total, prefix_before,
    prefix_before_char, seq_less, str_less,
};
use crate::time::Time;
use itertools::Itertools;

verus! {

/// The number of won runs in `s`.
pub open spec fn wins(s: Seq<LevelRun>) -> nat
    decreases s.len(),
{
    if s.len() == 0 {
        0
    } else {
        wins(s.drop_last()) + if s.last().spec_win() { 1nat } else { 0nat }
    }
}

/// The total time of the runs in `s`.
pub open spec fn time_of(s: Seq<LevelRun>) -> nat
    decreases s.len(),
{
    if s.len() == 0 {
        0
    } else {
        time_of(s.drop_last()) + s.last().spec_time()
    }
}

/// The time of the fastest won run in `s`, if one was won.
pub open spec fn fastest_win(s: Seq<LevelRun>) -> Option<nat>
    decreases s.len(),
{
    if s.len() == 0 {
        None
    } else {
        let f = fastest_win(s.drop_last());
        let t = s.last().spec_time();
        if !s.last().spec_win() {
            f
        } else {
            match f {
                None => Some(t),
                Some(x) => Some(if x <= t { x } else { t }),
            }
        }
    }
}

/// The time of the slowest won run in `s`, if one was won.
pub open spec fn slowest_win(s: Seq<LevelRun>) -> Option<nat>
    decreases s.len(),
{
    if s.len() == 0 {
        None
    } else {
        let f = slowest_win(s.drop_last());
        let t = s.last().spec_time();
        if !s.last().spec_win() {
            f
        } else {
            match f {
                None => Some(t),
                Some(x) => Some(if x >= t { x } else { t }),
            }
        }
    }
}

/// Whether an optional time holds the given optional number of milliseconds.
pub open spec fn time_is(o: Option<Time>, n: Option<nat>) -> bool {
    match (o, n) {
        (None, None) => true,
        (Some(t), Some(x)) => t.stamp == x,
        _ => false,
    }
}

/// The key under which a run is counted: its name up to the first `_`.
pub open spec fn level_key(r: LevelRun) -> Seq<char> {
    prefix_before(r.spec_name(), '_')
}

/// The runs of `s` whose key is `k`, in order.
pub open spec fn runs_with_key(s: Seq<LevelRun>, k: Seq<char>) -> Seq<LevelRun>
    decreases s.len(),
{
    if s.len() == 0 {
        s
    } else if level_key(s.last()) == k {
        runs_with_key(s.drop_last(), k).push(s.last())
    } else {
        runs_with_key(s.drop_last(), k)
    }
}

/// Statistics of the runs of one level.
#[derive(Clone, Copy, Debug)]
pub struct LevelStat {
    pub run_count: usize,
    pub win_count: usize,
    pub fastest_time: Option<Time>,
    pub slowest_time: Option<Time>,
    pub total_time: Time,
}

impl Default for LevelStat {
    fn default() -> (r: Self)
        ensures
            r.describes(Seq::<LevelRun>::empty()),
    {
        LevelStat {
            run_count: 0,
            win_count: 0,
            fastest_time: None,
            slowest_time: None,
            total_time: Time::new(),
        }
    }
}

impl LevelStat {
    /// Whether these are the statistics of exactly the runs `s`.
    pub open spec fn describes(self, s: Seq<LevelRun>) -> bool {
        &&& self.run_count == s.len()
        &&& self.win_count == wins(s)
        &&& self.total_time.stamp == time_of(s)
        &&& time_is(self.fastest_time, fastest_win(s))
        &&& time_is(self.slowest_time, slowest_win(s))
    }

    /// Counts one more run: a win updates the win count and the fastest and
    /// slowest times; every run adds its time to the total.
    pub fn add_run(&mut self, run: &LevelRun)
        requires
            old(self).run_count < usize::MAX,
            old(self).win_count <= old(self).run_count,
            old(self).total_time.stamp + run.spec_time() <= u64::MAX,
        ensures
            final(self).run_count == old(self).run_count + 1,
            final(self).win_count == old(self).win_count + if run.spec_win() { 1int } else { 0int },
            final(self).total_time.stamp == old(self).total_time.stamp + run.spec_time(),
            final(self).fastest_time == if !run.spec_win() {
                old(self).fastest_time
            } else {
                match old(self).fastest_time {
                    None => Some(Time { stamp: run.spec_time() as u64 }),
                    Some(f) => Some(
                        if f.stamp <= run.spec_time() { f } else { Time { stamp: run.spec_time() as u64 } },
                    ),
                }
            },
            final(self).slowest_time == if !run.spec_win() {
                old(self).slowest_time
            } else {
                match old(self).slowest_time {
                    None => Some(Time { stamp: run.spec_time() as u64 }),
                    Some(f) => Some(
                        if f.stamp >= run.spec_time() { f } else { Time { stamp: run.spec_time() as u64 } },
                    ),
                }
            },
    {
        self.run_count += 1;
        let t = run.get_time();
        if run.is_win() {
            proof {
                assert(self.win_count <= self.run_count);
            }
            self.win_count += 1;
            self.slowest_time = match self.slowest_time {
                Some(st) => Some(st.max(t)),
                None => Some(t),
            };
            self.fastest_time = match self.fastest_time {
                Some(st) => Some(st.min(t)),
                None => Some(t),
            };
        }
        self.total_time = self.total_time.add(t);
    }

    /// The statistics of the single run `run`.
    pub fn from_run(run: &LevelRun) -> (s: LevelStat)
        ensures
            s.describes(seq![*run]),
    {
        let t = run.get_time();
        let w = run.is_win();
        let ghost one = seq![*run];
        assert(one.drop_last() =~= Seq::<LevelRun>::empty());
        assert(one.last() == *run);
        assert(wins(one.drop_last()) == 0);
        assert(time_of(one.drop_last()) == 0);
        assert(fastest_win(one.drop_last()) is None);
        assert(slowest_win(one.drop_last()) is None);
        assert(wins(one) == if w { 1nat } else { 0nat });
        assert(time_of(one) == t.stamp);
        LevelStat {
            run_count: 1,
            win_count: if w { 1 } else { 0 },
            fastest_time: if w { Some(t) } else { None },
            slowest_time: if w { Some(t) } else { None },
            total_time: t,
        }
    }
}

/// Counting a run with `add_run` turns the statistics of `s` into those of
/// `s` followed by that run.
pub proof fn lemma_describes_push(st: LevelStat, s: Seq<LevelRun>, r: LevelRun)
    requires
        st.describes(s),
    ensures
        ({
            let t = r.spec_time();
            let next = LevelStat {
                run_count: (st.run_count + 1) as usize,
                win_count: (st.win_count + if r.spec_win() { 1int } else { 0int }) as usize,
                total_time: Time { stamp: (st.total_time.stamp + t) as u64 },
                fastest_time: if !r.spec_win() {
                    st.fastest_time
                } else {
                    match st.fastest_time {
                        None => Some(Time { stamp: t as u64 }),
                        Some(f) => Some(if f.stamp <= t { f } else { Time { stamp: t as u64 } }),
                    }
                },
                slowest_time: if !r.spec_win() {
                    st.slowest_time
                } else {
                    match st.slowest_time {
                        None => Some(Time { stamp: t as u64 }),
                        Some(f) => Some(if f.stamp >= t { f } else { Time { stamp: t as u64 } }),
                    }
                },
            };
            st.run_count < usize::MAX && st.total_time.stamp + t <= u64::MAX
                && r.spec_time() <= u64::MAX ==> next.describes(s.push(r))
        }),
{
    assert(s.push(r).drop_last() =~= s);
    lemma_wins_le_len(s);
}

/// No more runs are won than were played.
pub proof fn lemma_wins_le_len(s: Seq<LevelRun>)
    ensures
        wins(s) <= s.len(),
    decreases s.len(),
{
    if s.len() > 0 {
        lemma_wins_le_len(s.drop_last());
    }
}

} // verus!

verus! {

/// The runs a sequence of references points to.
pub open spec fn runs_of(v: Seq<&LevelRun>) -> Seq<LevelRun> {
    v.map_values(|r: &LevelRun| *r)
}

/// Whether the names of `names` are in strictly increasing dictionary order.
pub open spec fn names_sorted(names: Seq<Seq<char>>) -> bool {
    forall|i: int, j: int| 0 <= i < j < names.len() ==> seq_less(names[i], names[j])
}

/// Statistics over a collection of runs: how many were played and won, their
/// total time, and per level (the part of a run's name before the first `_`)
/// the statistics of that level's runs, ordered by level name.
#[derive(Debug)]
pub struct Stats {
    pub number_of_runs: usize,
    pub win_counter: usize,
    pub time_total: Time,
    pub levels: Vec<(String, LevelStat)>,
}

impl Stats {
    /// The level names, in the order they are listed.
    pub open spec fn level_names(self) -> Seq<Seq<char>> {
        self.levels@.map_values(|e: (String, LevelStat)| e.0@)
    }

    /// Whether these are the statistics of exactly the runs `runs`.
    pub open spec fn describes(self, runs: Seq<LevelRun>) -> bool {
        &&& self.number_of_runs == runs.len()
        &&& self.win_counter == wins(runs)
        &&& self.time_total.stamp == time_of(runs)
        &&& names_sorted(self.level_names())
        &&& forall|i: int|
            0 <= i < self.levels@.len() ==> #[trigger] self.levels@[i].1.describes(
                runs_with_key(runs, self.levels@[i].0@),
            ) && self.levels@[i].1.run_count > 0
        &&& forall|j: int|
            0 <= j < runs.len() ==> exists|i: int|
                0 <= i < self.levels@.len() && #[trigger] self.levels@[i].0@ == level_key(
                    #[trigger] runs[j],
                )
    }

    /// The statistics of the runs `runs`. They do not depend on the order of
    /// the runs: see `lemma_stats_order_free`, which applies to any two
    /// results of `build` on the same runs in two orders.
    pub fn build(runs: &Vec<&LevelRun>) -> (st: Stats)
        requires
            time_of(runs_of(runs@)) <= u64::MAX,
        ensures
            st.describes(runs_of(runs@)),
    {
        let ghost all = runs_of(runs@);
        let mut names: Vec<String> = Vec::new();
        let mut stats: Vec<LevelStat> = Vec::new();
        let mut number_of_runs: usize = 0;
        let mut win_counter: usize = 0;
        let mut time_total = Time::new();
        let mut i: usize = 0;
        while i < runs.len()
            invariant
                all == runs_of(runs@),
                time_of(all) <= u64::MAX,
                i <= runs@.len(),
                number_of_runs == i,
                win_counter == wins(all.take(i as int)),
                time_total.stamp == time_of(all.take(i as int)),
                names@.len() == stats@.len(),
                forall|a: int, b: int| 0 <= a < b < names@.len() ==> #[trigger] names@[a]@ != #[trigger] names@[b]@,
                forall|p: int|
                    0 <= p < stats@.len() ==> #[trigger] stats@[p].describes(
                        runs_with_key(all.take(i as int), names@[p]@),
                    ) && stats@[p].run_count > 0,
                forall|j: int|
                    0 <= j < i ==> exists|p: int|
                        0 <= p < names@.len() && #[trigger] names@[p]@ == level_key(
                            #[trigger] all[j],
                        ),
            decreases runs@.len() - i,
        {
            let run: &LevelRun = runs[i];
            let ghost s = all.take(i as int);
            let ghost s1 = all.take(i + 1);
            proof {
                assert(s1.drop_last() =~= s);
                assert(s1.last() == *run);
                lemma_time_of_prefix(all, i + 1);
                lemma_wins_le_len(s);
            }
            let t = run.get_time();
            let key = prefix_before_char(run.get_name().as_str(), '_');
            let mut p: usize = 0;
            while p < names.len() && names[p] != key
                invariant
                    p <= names@.len(),
                    forall|q: int| 0 <= q < p ==> #[trigger] names@[q]@ != key@,
                decreases names@.len() - p,
            {
                p += 1;
            }
            let found = p < names.len();
            proof {
                lemma_key_push(s, *run, key@);
                assert forall|q: int| 0 <= q < names@.len() && names@[q]@ != key@ implies
                    runs_with_key(s1, names@[q]@) == runs_with_key(s, names@[q]@) by {
                    lemma_key_push(s, *run, names@[q]@);
                };
            }
            if found {
                let mut st = stats[p];
                proof {
                    assert(names@[p as int]@ == key@);
                    assert forall|q: int| 0 <= q < names@.len() && q != p implies names@[q]@ != key@ by {
                        if q < p {
                        } else {
                            assert(names@[p as int]@ != names@[q]@);
                        }
                    };
                    assert(st.describes(runs_with_key(s, key@)));
                    assert(s.len() == i);
                    lemma_key_len(s, key@);
                    lemma_wins_le_len(runs_with_key(s, key@));
                    lemma_time_of_key(s, key@);
                    lemma_describes_push(st, runs_with_key(s, key@), *run);
                }
                st.add_run(run);
                stats.set(p, st);
                proof {
                    assert forall|j: int| 0 <= j < i + 1 implies exists|q: int|
                        0 <= q < names@.len() && #[trigger] names@[q]@ == level_key(#[trigger] all[j]) by {
                        if j == i {
                            assert(names@[p as int]@ == level_key(all[j]));
                        }
                    };
                }
            } else {
                proof {
                    assert forall|j: int| 0 <= j < s.len() implies level_key(s[j]) != key@ by {
                        assert(s[j] == all[j]);
                        let q = choose|q: int| 0 <= q < names@.len() && #[trigger] names@[q]@ == level_key(all[j]);
                    };
                    lemma_key_absent(s, key@);
                    assert(runs_with_key(s1, key@) =~= seq![*run]);
                }
                let ghost old_names = names@;
                let ghost old_stats = stats@;
                let st = LevelStat::from_run(run);
                names.push(key);
                stats.push(st);
                proof {
                    assert forall|a: int, b: int| 0 <= a < b < names@.len() implies #[trigger] names@[a]@
                        != #[trigger] names@[b]@ by {
                        if b < old_names.len() {
                            assert(names@[a] == old_names[a] && names@[b] == old_names[b]);
                        } else {
                            assert(names@[a] == old_names[a]);
                        }
                    };
                    assert forall|q: int| 0 <= q < stats@.len() implies #[trigger] stats@[q].describes(
                        runs_with_key(s1, names@[q]@),
                    ) && stats@[q].run_count > 0 by {
                        lemma_key_push(s, *run, names@[q]@);
                        if q < old_stats.len() {
                            assert(stats@[q] == old_stats[q]);
                            assert(names@[q] == old_names[q]);
                            assert(old_names[q]@ != key@);
                            assert(old_stats[q].describes(runs_with_key(s, old_names[q]@)));
                        } else {
                            assert(stats@[q] == st);
                            assert(names@[q]@ == key@);
                        }
                    };
                    assert forall|j: int| 0 <= j < i + 1 implies exists|q: int|
                        0 <= q < names@.len() && #[trigger] names@[q]@ == level_key(#[trigger] all[j]) by {
                        if j == i {
                            assert(names@[old_names.len() as int]@ == level_key(all[j]));
                        } else {
                            let q = choose|q: int| 0 <= q < old_names.len() && #[trigger] old_names[q]@ == level_key(all[j]);
                            assert(names@[q]@ == level_key(all[j]));
                        }
                    };
                }
            }
            number_of_runs += 1;
            if run.is_win() {
                win_counter += 1;
            }
            time_total = time_total.add(t);
            i += 1;
        }
        proof {
            assert(all.take(i as int) =~= all);
        }
        let mut found: Vec<(String, LevelStat)> = Vec::new();
        let mut k: usize = 0;
        while k < names.len()
            invariant
                names@.len() == stats@.len(),
                k <= names@.len(),
                found@.len() == k,
                forall|q: int| 0 <= q < k ==> #[trigger] found@[q] == (names@[q], stats@[q]),
            decreases names@.len() - k,
        {
            found.push((names[k].clone(), stats[k]));
            k += 1;
        }
        let ghost fs = found@;
        proof {
            assert forall|a: int, b: int| 0 <= a < fs.len() && 0 <= b < fs.len() && a != b implies fs[a] != fs[b] by {
                if a < b {
                    assert(names@[a]@ != names@[b]@);
                } else {
                    assert(names@[b]@ != names@[a]@);
                }
            };
            assert(fs.no_duplicates());
            fs.lemma_multiset_has_no_duplicates();
        }
        let levels = sorted_levels(found);
        let st = Stats { number_of_runs, win_counter, time_total, levels };
        proof {
            let ls = levels@;
            broadcast use vstd::seq_lib::group_to_multiset_ensures;
            assert forall|x: (String, LevelStat)| ls.to_multiset().contains(x) implies ls.to_multiset().count(x) == 1 by {
                assert(fs.to_multiset().contains(x));
            };
            ls.lemma_multiset_has_no_duplicates_conv();
            assert forall|q: int| 0 <= q < ls.len() implies exists|r: int| 0 <= r < fs.len() && fs[r] == #[trigger] ls[q] by {
                assert(ls.contains(ls[q]));
                assert(ls.to_multiset().count(ls[q]) > 0);
                assert(fs.to_multiset().count(ls[q]) > 0);
                assert(fs.contains(ls[q]));
            };
            assert forall|a: int, b: int| 0 <= a < b < st.level_names().len() implies seq_less(
                st.level_names()[a],
                st.level_names()[b],
            ) by {
                let ra = choose|r: int| 0 <= r < fs.len() && fs[r] == ls[a];
                let rb = choose|r: int| 0 <= r < fs.len() && fs[r] == ls[b];
                assert(ls[a] != ls[b]);
                assert(ra != rb);
                if ra < rb {
                    assert(names@[ra]@ != names@[rb]@);
                } else {
                    assert(names@[rb]@ != names@[ra]@);
                }
                assert(st.level_names()[a] == ls[a].0@);
                assert(st.level_names()[b] == ls[b].0@);
                assert(!seq_less(ls[b].0@, ls[a].0@));
                lemma_seq_less_total(ls[a].0@, ls[b].0@);
            };
            assert forall|q: int| 0 <= q < ls.len() implies #[trigger] ls[q].1.describes(
                runs_with_key(all, ls[q].0@),
            ) && ls[q].1.run_count > 0 by {
                let r = choose|r: int| 0 <= r < fs.len() && fs[r] == ls[q];
                assert(fs[r] == (names@[r], stats@[r]));
            };
            assert forall|j: int| 0 <= j < all.len() implies exists|q: int|
                0 <= q < st.levels@.len() && #[trigger] st.levels@[q].0@ == level_key(#[trigger] all[j]) by {
                let q = choose|q: int| 0 <= q < names@.len() && #[trigger] names@[q]@ == level_key(all[j]);
                assert(fs[q] == (names@[q], stats@[q]));
                assert(fs.contains(fs[q]));
                assert(fs.to_multiset().count(fs[q]) > 0);
                assert(ls.to_multiset().count(fs[q]) > 0);
                assert(ls.contains(fs[q]));
                let w = choose|w: int| 0 <= w < ls.len() && ls[w] == fs[q];
                assert(st.levels@[w].0@ == level_key(all[j]));
            };
        }
        st
    }
}

/// How the levels `a` and `b` compare by name, in dictionary order.
fn compare_names(a: &(String, LevelStat), b: &(String, LevelStat)) -> (o: std::cmp::Ordering)
    ensures
        o == (if seq_less(a.0@, b.0@) {
            std::cmp::Ordering::Less
        } else if a.0@ == b.0@ {
            std::cmp::Ordering::Equal
        } else {
            std::cmp::Ordering::Greater
        }),
{
    if str_less(a.0.as_str(), b.0.as_str()) {
        std::cmp::Ordering::Less
    } else if a.0 == b.0 {
        std::cmp::Ordering::Equal
    } else {
        std::cmp::Ordering::Greater
    }
}

/// `Itertools::sorted_by` on the levels, comparing them with
/// `compare_names`, collected: the same levels, as many of each, where no
/// name comes after a name that it precedes in dictionary order.
#[verifier::external_body]
fn sorted_levels(v: Vec<(String, LevelStat)>) -> (r: Vec<(String, LevelStat)>)
    ensures
        r@.to_multiset() == v@.to_multiset(),
        forall|i: int, j: int| 0 <= i < j < r@.len() ==> !seq_less(#[trigger] r@[j].0@, #[trigger] r@[i].0@),
{
    v.into_iter().sorted_by(|a, b| compare_names(a, b)).collect()
}

/// Adding a run to a sequence adds it to the runs of its own level only.
pub proof fn lemma_key_push(s: Seq<LevelRun>, r: LevelRun, k: Seq<char>)
    ensures
        runs_with_key(s.push(r), k) == if level_key(r) == k {
            runs_with_key(s, k).push(r)
        } else {
            runs_with_key(s, k)
        },
{
    assert(s.push(r).drop_last() =~= s);
}

/// A level has no more runs than there are runs.
pub proof fn lemma_key_len(s: Seq<LevelRun>, k: Seq<char>)
    ensures
        runs_with_key(s, k).len() <= s.len(),
    decreases s.len(),
{
    if s.len() > 0 {
        lemma_key_len(s.drop_last(), k);
    }
}

/// A level that no run belongs to has no runs.
pub proof fn lemma_key_absent(s: Seq<LevelRun>, k: Seq<char>)
    requires
        forall|j: int| 0 <= j < s.len() ==> level_key(#[trigger] s[j]) != k,
    ensures
        runs_with_key(s, k) == Seq::<LevelRun>::empty(),
    decreases s.len(),
{
    if s.len() > 0 {
        assert(s.last() == s[s.len() - 1]);
        assert forall|j: int| 0 <= j < s.drop_last().len() implies level_key(#[trigger] s.drop_last()[j]) != k by {
            assert(s.drop_last()[j] == s[j]);
        };
        lemma_key_absent(s.drop_last(), k);
    }
}
/// The total time of a prefix of runs is at most the total of all.
pub proof fn lemma_time_of_prefix(s: Seq<LevelRun>, i: int)
    requires
        0 <= i <= s.len(),
    ensures
        time_of(s.take(i)) <= time_of(s),
    decreases s.len() - i,
{
    if i < s.len() {
        lemma_time_of_prefix(s, i + 1);
        assert(s.take(i + 1).drop_last() =~= s.take(i));
    } else {
        assert(s.take(i) =~= s);
    }
}

/// The total time of the runs of one level is at most the total of all runs.
pub proof fn lemma_time_of_key(s: Seq<LevelRun>, k: Seq<char>)
    ensures
        time_of(runs_with_key(s, k)) <= time_of(s),
    decreases s.len(),
{
    if s.len() > 0 {
        lemma_time_of_key(s.drop_last(), k);
        if level_key(s.last()) == k {
            assert(runs_with_key(s, k).drop_last() =~= runs_with_key(s.drop_last(), k));
        }
    }
}

} // verus!

verus! {

/// The runs of `s` that pass the filters of window `w`, in order.
pub open spec fn selected_runs(s: Seq<LevelRun>, w: StatsWindow) -> Seq<LevelRun>
    decreases s.len(),
{
    if s.len() == 0 {
        s
    } else if w.keeps(s.last()) {
        selected_runs(s.drop_last(), w).push(s.last())
    } else {
        selected_runs(s.drop_last(), w)
    }
}

/// A window of statistics over a collection of runs, narrowed down by a name
/// filter, a time range, a range of split counts, and win or loss filters.
#[derive(Debug)]
pub struct StatsWindow {
    pub stats_shown: Stats,
    pub run_vec: Vec<LevelRun>,
    pub name_filter: String,
    pub min_time_filter: Time,
    pub max_time_filter: Time,
    pub min_stamp_filter: usize,
    pub max_stamp_filter: usize,
    pub win_filter: bool,
    pub loss_filter: bool,
    pub string_inputs: [String; 4],
}

impl StatsWindow {
    /// Whether the filters let run `r` through: its name contains the name
    /// filter, its time and split count lie in their ranges (bounds
    /// included), it is won if the win filter is on and lost if the loss
    /// filter is on.
    pub open spec fn keeps(self, r: LevelRun) -> bool {
        &&& crate::text::contains_seq(r.spec_name(), self.name_filter@)
        &&& self.min_time_filter.stamp <= r.spec_time() <= self.max_time_filter.stamp
        &&& self.min_stamp_filter <= r.spec_splits().len() <= self.max_stamp_filter
        &&& (!self.win_filter || r.spec_win())
        &&& (!self.loss_filter || !r.spec_win())
    }

    /// A window over `run_vec` with every filter open: the empty name, times
    /// from zero to 99:59:59.999, any number of splits, wins and losses
    /// alike; its statistics are those of all the runs.
    pub fn new(run_vec: Vec<LevelRun>) -> (w: StatsWindow)
        requires
            time_of(run_vec@) <= u64::MAX,
        ensures
            w.run_vec@ == run_vec@,
            w.name_filter@ == Seq::<char>::empty(),
            w.min_time_filter.stamp == 0,
            w.max_time_filter.stamp == 359_999_999,
            w.min_stamp_filter == 0,
            w.max_stamp_filter == usize::MAX,
            !w.win_filter,
            !w.loss_filter,
            w.stats_shown.describes(selected_runs(w.run_vec@, w)),
    {
        let mut w = StatsWindow {
            stats_shown: Stats {
                number_of_runs: 0,
                win_counter: 0,
                time_total: Time::new(),
                levels: Vec::new(),
            },
            run_vec,
            name_filter: String::new(),
            min_time_filter: Time::new(),
            max_time_filter: Time::from_stamp(359_999_999),
            min_stamp_filter: 0,
            max_stamp_filter: usize::MAX,
            win_filter: false,
            loss_filter: false,
            string_inputs: [
                String::from_str("00:00:00.000"),
                String::from_str("99:59:59.999"),
                String::from_str("0"),
                String::from_str("999999"),
            ],
        };
        w.update();
        w
    }

    /// Recomputes the statistics from the runs that pass the filters.
    pub fn update(&mut self)
        requires
            time_of(old(self).run_vec@) <= u64::MAX,
        ensures
            final(self).run_vec@ == old(self).run_vec@,
            final(self).name_filter == old(self).name_filter,
            final(self).min_time_filter == old(self).min_time_filter,
            final(self).max_time_filter == old(self).max_time_filter,
            final(self).min_stamp_filter == old(self).min_stamp_filter,
            final(self).max_stamp_filter == old(self).max_stamp_filter,
            final(self).win_filter == old(self).win_filter,
            final(self).loss_filter == old(self).loss_filter,
            final(self).string_inputs == old(self).string_inputs,
            final(self).stats_shown.describes(selected_runs(final(self).run_vec@, *final(self))),
    {
        let mut sel: Vec<&LevelRun> = Vec::new();
        let ghost me = *self;
        let mut i: usize = 0;
        while i < self.run_vec.len()
            invariant
                me == *self,
                i <= self.run_vec@.len(),
                runs_of(sel@) == selected_runs(self.run_vec@.take(i as int), me),
            decreases self.run_vec@.len() - i,
        {
            let r = &self.run_vec[i];
            let keep = crate::text::contains_str(r.get_name().as_str(), self.name_filter.as_str())
                && self.min_time_filter.stamp <= r.get_time().stamp
                && r.get_time().stamp <= self.max_time_filter.stamp
                && self.min_stamp_filter <= r.len()
                && r.len() <= self.max_stamp_filter
                && (!self.win_filter || r.is_win())
                && (!self.loss_filter || !r.is_win());
            proof {
                assert(self.run_vec@.take(i + 1).drop_last() =~= self.run_vec@.take(i as int));
                assert(self.run_vec@.take(i + 1).last() == *r);
            }
            if keep {
                sel.push(r);
            }
            i += 1;
            proof {
                assert(runs_of(sel@) =~= selected_runs(self.run_vec@.take(i as int), me));
            }
        }
        proof {
            assert(self.run_vec@.take(i as int) =~= self.run_vec@);
            lemma_selected_time(self.run_vec@, me);
        }
        self.stats_shown = Stats::build(&sel);
        proof {
            lemma_selected_same_filters(self.run_vec@, me, *self);
        }
    }
}

impl StatsWindow {
    /// Takes the name filter typed, in upper case.
    pub fn set_name_filter(&mut self, typed: &str)
        ensures
            final(self).name_filter@ == crate::text::uppercase_of(typed@),
            *final(self) == (StatsWindow { name_filter: final(self).name_filter, ..*old(self) }),
    {
        self.name_filter = crate::text::to_uppercase(typed);
    }

    /// Takes the minimum time typed; the filter becomes `parsed`, the time
    /// read from it, if it reads as one.
    pub fn set_min_time_input(&mut self, typed: String, parsed: Option<Time>)
        ensures
            final(self).string_inputs@ == old(self).string_inputs@.update(0, typed),
            final(self).min_time_filter == match parsed {
                Some(t) => t,
                None => old(self).min_time_filter,
            },
            *final(self) == (StatsWindow {
                string_inputs: final(self).string_inputs,
                min_time_filter: final(self).min_time_filter,
                ..*old(self)
            }),
    {
        self.string_inputs[0] = typed;
        match parsed {
            Some(t) => self.min_time_filter = t,
            None => {},
        }
    }

    /// Takes the maximum time typed; the filter becomes `parsed`, the time
    /// read from it, if it reads as one.
    pub fn set_max_time_input(&mut self, typed: String, parsed: Option<Time>)
        ensures
            final(self).string_inputs@ == old(self).string_inputs@.update(1, typed),
            final(self).max_time_filter == match parsed {
                Some(t) => t,
                None => old(self).max_time_filter,
            },
            *final(self) == (StatsWindow {
                string_inputs: final(self).string_inputs,
                max_time_filter: final(self).max_time_filter,
                ..*old(self)
            }),
    {
        self.string_inputs[1] = typed;
        match parsed {
            Some(t) => self.max_time_filter = t,
            None => {},
        }
    }

    /// Takes the minimum number of splits typed; the filter takes the number
    /// it writes, if it writes one.
    pub fn set_min_stamp_input(&mut self, typed: String)
        ensures
            final(self).string_inputs@ == old(self).string_inputs@.update(2, typed),
            final(self).min_stamp_filter == match crate::text::parse_usize_spec(typed@) {
                Some(n) => n,
                None => old(self).min_stamp_filter,
            },
            *final(self) == (StatsWindow {
                string_inputs: final(self).string_inputs,
                min_stamp_filter: final(self).min_stamp_filter,
                ..*old(self)
            }),
    {
        match crate::text::parse_usize(typed.as_str()) {
            Some(n) => self.min_stamp_filter = n,
            None => {},
        }
        self.string_inputs[2] = typed;
    }

    /// Takes the maximum number of splits typed; the filter takes the number
    /// it writes, if it writes one.
    pub fn set_max_stamp_input(&mut self, typed: String)
        ensures
            final(self).string_inputs@ == old(self).string_inputs@.update(3, typed),
            final(self).max_stamp_filter == match crate::text::parse_usize_spec(typed@) {
                Some(n) => n,
                None => old(self).max_stamp_filter,
            },
            *final(self) == (StatsWindow {
                string_inputs: final(self).string_inputs,
                max_stamp_filter: final(self).max_stamp_filter,
                ..*old(self)
            }),
    {
        match crate::text::parse_usize(typed.as_str()) {
            Some(n) => self.max_stamp_filter = n,
            None => {},
        }
        self.string_inputs[3] = typed;
    }
}

/// With the loss filter on, the window counts exactly the lost runs among
/// those it counts with the loss filter off: no won run is counted, and
/// the runs counted are as many as those counted without it, less the
/// wins among them. With the win filter on, likewise only won runs are
/// counted.
pub proof fn lemma_loss_filter(s: Seq<LevelRun>, w: StatsWindow)
    ensures
        w.loss_filter ==> forall|k: int|
            0 <= k < selected_runs(s, w).len() ==> !(#[trigger] selected_runs(s, w)[k]).spec_win(),
        w.loss_filter ==> wins(selected_runs(s, w)) == 0,
        w.loss_filter ==> selected_runs(s, w).len() + wins(selected_runs(s, StatsWindow { loss_filter: false, ..w }))
            == selected_runs(s, StatsWindow { loss_filter: false, ..w }).len(),
        w.win_filter ==> forall|k: int|
            0 <= k < selected_runs(s, w).len() ==> (#[trigger] selected_runs(s, w)[k]).spec_win(),
        w.win_filter ==> wins(selected_runs(s, w)) == selected_runs(s, w).len(),
    decreases s.len(),
{
    let w0 = StatsWindow { loss_filter: false, ..w };
    if s.len() > 0 {
        lemma_loss_filter(s.drop_last(), w);
        let p = selected_runs(s.drop_last(), w);
        if w.keeps(s.last()) {
            assert(selected_runs(s, w) == p.push(s.last()));
            assert(selected_runs(s, w).drop_last() =~= p);
            assert forall|k: int| 0 <= k < selected_runs(s, w).len() implies (w.loss_filter ==> !(#[trigger] selected_runs(s, w)[k]).spec_win())
                && (w.win_filter ==> selected_runs(s, w)[k].spec_win()) by {
                if k < p.len() {
                    assert(selected_runs(s, w)[k] == p[k]);
                }
            }
        }
        if w0.keeps(s.last()) {
            assert(selected_runs(s, w0).drop_last() =~= selected_runs(s.drop_last(), w0));
        }
    }
}

/// With the loss filter on, the statistics a window shows count no win:
/// every run counted is a lost one.
pub proof fn lemma_loss_filter_shows_no_win(w: StatsWindow)
    requires
        w.loss_filter,
        w.stats_shown.describes(selected_runs(w.run_vec@, w)),
    ensures
        w.stats_shown.win_counter == 0,
        w.stats_shown.number_of_runs + wins(selected_runs(w.run_vec@, StatsWindow { loss_filter: false, ..w }))
            == selected_runs(w.run_vec@, StatsWindow { loss_filter: false, ..w }).len(),
{
    lemma_loss_filter(w.run_vec@, w);
}

/// Two windows with the same filters select the same runs.
pub proof fn lemma_selected_same_filters(s: Seq<LevelRun>, a: StatsWindow, b: StatsWindow)
    requires
        a.name_filter == b.name_filter,
        a.min_time_filter == b.min_time_filter,
        a.max_time_filter == b.max_time_filter,
        a.min_stamp_filter == b.min_stamp_filter,
        a.max_stamp_filter == b.max_stamp_filter,
        a.win_filter == b.win_filter,
        a.loss_filter == b.loss_filter,
    ensures
        selected_runs(s, a) == selected_runs(s, b),
    decreases s.len(),
{
    if s.len() > 0 {
        lemma_selected_same_filters(s.drop_last(), a, b);
    }
}

/// The selected runs take no more time than all the runs.
pub proof fn lemma_selected_time(s: Seq<LevelRun>, w: StatsWindow)
    ensures
        time_of(selected_runs(s, w)) <= time_of(s),
    decreases s.len(),
{
    if s.len() > 0 {
        lemma_selected_time(s.drop_last(), w);
        if w.keeps(s.last()) {
            assert(selected_runs(s, w).drop_last() =~= selected_runs(s.drop_last(), w));
        }
    }
}

/// The number of places of `keys` holding `k`.
pub open spec fn key_count(keys: Seq<Seq<char>>, k: Seq<char>) -> nat
    decreases keys.len(),
{
    if keys.len() == 0 {
        0
    } else {
        key_count(keys.drop_last(), k) + if keys.last() == k {
            1nat
        } else {
            0nat
        }
    }
}

/// The number of runs of `s` under each key of `keys`, added up.
pub open spec fn keyed_runs(s: Seq<LevelRun>, keys: Seq<Seq<char>>) -> nat
    decreases keys.len(),
{
    if keys.len() == 0 {
        0
    } else {
        keyed_runs(s, keys.drop_last()) + runs_with_key(s, keys.last()).len()
    }
}

/// The number of won runs of `s` under each key of `keys`, added up.
pub open spec fn keyed_wins(s: Seq<LevelRun>, keys: Seq<Seq<char>>) -> nat
    decreases keys.len(),
{
    if keys.len() == 0 {
        0
    } else {
        keyed_wins(s, keys.drop_last()) + wins(runs_with_key(s, keys.last()))
    }
}

/// The time of the runs of `s` under each key of `keys`, added up.
pub open spec fn keyed_time(s: Seq<LevelRun>, keys: Seq<Seq<char>>) -> nat
    decreases keys.len(),
{
    if keys.len() == 0 {
        0
    } else {
        keyed_time(s, keys.drop_last()) + time_of(runs_with_key(s, keys.last()))
    }
}

proof fn lemma_keyed_push(s: Seq<LevelRun>, r: LevelRun, keys: Seq<Seq<char>>)
    ensures
        keyed_runs(s.push(r), keys) == keyed_runs(s, keys) + key_count(keys, level_key(r)),
        keyed_wins(s.push(r), keys) == keyed_wins(s, keys) + if r.spec_win() {
            key_count(keys, level_key(r))
        } else {
            0
        },
        keyed_time(s.push(r), keys) == keyed_time(s, keys) + key_count(keys, level_key(r)) * r.spec_time(),
    decreases keys.len(),
{
    if keys.len() > 0 {
        lemma_keyed_push(s, r, keys.drop_last());
        assert(s.push(r).drop_last() =~= s);
        assert(s.push(r).last() == r);
        let k = keys.last();
        let x = runs_with_key(s, k);
        let c = key_count(keys.drop_last(), level_key(r));
        if k == level_key(r) {
            assert(runs_with_key(s.push(r), k) == x.push(r));
            assert(x.push(r).drop_last() =~= x);
            assert(x.push(r).last() == r);
            assert((c + 1) * r.spec_time() == c * r.spec_time() + r.spec_time()) by (nonlinear_arith);
        } else {
            assert(runs_with_key(s.push(r), k) == x);
        }
    }
}

proof fn lemma_keyed_empty(keys: Seq<Seq<char>>)
    ensures
        keyed_runs(Seq::<LevelRun>::empty(), keys) == 0,
        keyed_wins(Seq::<LevelRun>::empty(), keys) == 0,
        keyed_time(Seq::<LevelRun>::empty(), keys) == 0,
    decreases keys.len(),
{
    if keys.len() > 0 {
        lemma_keyed_empty(keys.drop_last());
    }
}

proof fn lemma_key_count_one(keys: Seq<Seq<char>>, k: Seq<char>)
    requires
        keys.contains(k),
        forall|i: int, j: int| 0 <= i < j < keys.len() ==> keys[i] != keys[j],
    ensures
        key_count(keys, k) == 1,
    decreases keys.len(),
{
    let init = keys.drop_last();
    if keys.last() == k {
        assert forall|i: int| 0 <= i < init.len() implies init[i] != k by {
            assert(keys[i] != keys[keys.len() - 1]);
        }
        lemma_key_count_zero(init, k);
    } else {
        let j = choose|j: int| 0 <= j < keys.len() && keys[j] == k;
        assert(init[j] == k);
        lemma_key_count_one(init, k);
    }
}

proof fn lemma_key_count_zero(keys: Seq<Seq<char>>, k: Seq<char>)
    requires
        forall|i: int| 0 <= i < keys.len() ==> keys[i] != k,
    ensures
        key_count(keys, k) == 0,
    decreases keys.len(),
{
    if keys.len() > 0 {
        lemma_key_count_zero(keys.drop_last(), k);
    }
}

/// When `keys` holds every key of `s` once, the counts, wins and times under
/// the keys add up to those of `s`.
pub proof fn lemma_keyed_partition(s: Seq<LevelRun>, keys: Seq<Seq<char>>)
    requires
        forall|i: int, j: int| 0 <= i < j < keys.len() ==> keys[i] != keys[j],
        forall|j: int| 0 <= j < s.len() ==> keys.contains(level_key(#[trigger] s[j])),
    ensures
        keyed_runs(s, keys) == s.len(),
        keyed_wins(s, keys) == wins(s),
        keyed_time(s, keys) == time_of(s),
    decreases s.len(),
{
    if s.len() == 0 {
        lemma_keyed_empty(keys);
        assert(s =~= Seq::<LevelRun>::empty());
    } else {
        let init = s.drop_last();
        let r = s.last();
        assert forall|j: int| 0 <= j < init.len() implies keys.contains(level_key(#[trigger] init[j])) by {
            assert(init[j] == s[j]);
        }
        lemma_keyed_partition(init, keys);
        assert(s[s.len() - 1] == r);
        lemma_key_count_one(keys, level_key(r));
        assert(init.push(r) =~= s);
        lemma_keyed_push(init, r, keys);
    }
}

/// The run counts of the levels listed, added up.
pub open spec fn level_runs_sum(levels: Seq<(String, LevelStat)>) -> nat
    decreases levels.len(),
{
    if levels.len() == 0 {
        0
    } else {
        level_runs_sum(levels.drop_last()) + levels.last().1.run_count as nat
    }
}

/// The win counts of the levels listed, added up.
pub open spec fn level_wins_sum(levels: Seq<(String, LevelStat)>) -> nat
    decreases levels.len(),
{
    if levels.len() == 0 {
        0
    } else {
        level_wins_sum(levels.drop_last()) + levels.last().1.win_count as nat
    }
}

/// The total times of the levels listed, added up.
pub open spec fn level_time_sum(levels: Seq<(String, LevelStat)>) -> nat
    decreases levels.len(),
{
    if levels.len() == 0 {
        0
    } else {
        level_time_sum(levels.drop_last()) + levels.last().1.total_time.stamp as nat
    }
}

proof fn lemma_level_sums(levels: Seq<(String, LevelStat)>, runs: Seq<LevelRun>)
    requires
        forall|i: int| 0 <= i < levels.len() ==> #[trigger] levels[i].1.describes(runs_with_key(runs, levels[i].0@)),
    ensures
        level_runs_sum(levels) == keyed_runs(runs, levels.map_values(|e: (String, LevelStat)| e.0@)),
        level_wins_sum(levels) == keyed_wins(runs, levels.map_values(|e: (String, LevelStat)| e.0@)),
        level_time_sum(levels) == keyed_time(runs, levels.map_values(|e: (String, LevelStat)| e.0@)),
    decreases levels.len(),
{
    if levels.len() > 0 {
        let init = levels.drop_last();
        assert forall|i: int| 0 <= i < init.len() implies #[trigger] init[i].1.describes(
            runs_with_key(runs, init[i].0@),
        ) by {
            assert(init[i] == levels[i]);
        }
        lemma_level_sums(init, runs);
        let names = levels.map_values(|e: (String, LevelStat)| e.0@);
        assert(names.drop_last() =~= init.map_values(|e: (String, LevelStat)| e.0@));
        assert(levels[levels.len() - 1].1.describes(runs_with_key(runs, levels[levels.len() - 1].0@)));
    }
}

/// The statistics per level add up to the totals: the run counts to the
/// number of runs, the win counts to the number of wins, the times to the
/// total time.
pub proof fn lemma_levels_add_up(st: Stats, runs: Seq<LevelRun>)
    requires
        st.describes(runs),
    ensures
        level_runs_sum(st.levels@) == st.number_of_runs,
        level_wins_sum(st.levels@) == st.win_counter,
        level_time_sum(st.levels@) == st.time_total.stamp,
{
    let names = st.level_names();
    assert forall|i: int, j: int| 0 <= i < j < names.len() implies names[i] != names[j] by {
        if names[i] == names[j] {
            lemma_seq_less_irreflexive(names[i]);
        }
    }
    assert forall|j: int| 0 <= j < runs.len() implies names.contains(level_key(#[trigger] runs[j])) by {
        let i = choose|i: int| 0 <= i < st.levels@.len() && #[trigger] st.levels@[i].0@ == level_key(runs[j]);
        assert(names[i] == level_key(runs[j]));
    }
    lemma_keyed_partition(runs, names);
    lemma_level_sums(st.levels@, runs);
}

/// Within the statistics of a level no more runs are won than played, and
/// the fastest win is no slower than the slowest.
pub proof fn lemma_level_stat_bounds(st: LevelStat, s: Seq<LevelRun>)
    requires
        st.describes(s),
    ensures
        st.win_count <= st.run_count,
        (st.fastest_time is Some) == (st.slowest_time is Some),
        st.fastest_time matches Some(f) ==> st.slowest_time matches Some(g) && f.stamp <= g.stamp,
{
    lemma_wins_le_len(s);
    lemma_fastest_le_slowest(s);
}

proof fn lemma_fastest_le_slowest(s: Seq<LevelRun>)
    ensures
        (fastest_win(s) is Some) == (slowest_win(s) is Some),
        fastest_win(s) matches Some(f) ==> slowest_win(s) matches Some(g) && f <= g,
    decreases s.len(),
{
    if s.len() > 0 {
        lemma_fastest_le_slowest(s.drop_last());
    }
}

/// Putting a run into a list adds its time and win to those of the list.
pub proof fn lemma_totals_insert(s: Seq<LevelRun>, p: int, x: LevelRun)
    requires
        0 <= p <= s.len(),
    ensures
        time_of(s.insert(p, x)) == time_of(s) + x.spec_time(),
        wins(s.insert(p, x)) == wins(s) + if x.spec_win() { 1nat } else { 0nat },
    decreases s.len(),
{
    let t = s.insert(p, x);
    if p == s.len() {
        assert(t.drop_last() =~= s);
        assert(t.last() == x);
    } else {
        lemma_totals_insert(s.drop_last(), p, x);
        assert(t.drop_last() =~= s.drop_last().insert(p, x));
        assert(t.last() == s.last());
    }
}

/// Taking a run out of a list takes its time and win from those of the
/// list.
pub proof fn lemma_totals_remove(s: Seq<LevelRun>, i: int)
    requires
        0 <= i < s.len(),
    ensures
        time_of(s.remove(i)) + s[i].spec_time() == time_of(s),
        wins(s.remove(i)) + (if s[i].spec_win() { 1nat } else { 0nat }) == wins(s),
{
    assert(s.remove(i).insert(i, s[i]) =~= s);
    lemma_totals_insert(s.remove(i), i, s[i]);
}

/// Whether the total time of the runs fits in 64 bits, as the statistics
/// ask.
pub fn times_fit(runs: &Vec<LevelRun>) -> (b: bool)
    ensures
        b == (time_of(runs@) <= u64::MAX),
{
    let mut acc: u64 = 0;
    let mut i: usize = 0;
    while i < runs.len()
        invariant
            i <= runs@.len(),
            acc == time_of(runs@.take(i as int)),
        decreases runs.len() - i,
    {
        proof {
            assert(runs@.take(i + 1).drop_last() =~= runs@.take(i as int));
            assert(runs@.take(i + 1).last() == runs@[i as int]);
        }
        match acc.checked_add(runs[i].get_time().stamp) {
            Some(x) => {
                acc = x;
            },
            None => {
                proof {
                    lemma_time_of_prefix(runs@, i + 1);
                }
                return false;
            },
        }
        i += 1;
    }
    assert(runs@.take(i as int) =~= runs@);
    true
}

/// `f`, the fastest won time so far, after the run `r`.
pub open spec fn fold_fastest(f: Option<nat>, r: LevelRun) -> Option<nat> {
    if !r.spec_win() {
        f
    } else {
        match f {
            None => Some(r.spec_time()),
            Some(x) => Some(if x <= r.spec_time() { x } else { r.spec_time() }),
        }
    }
}

/// `f`, the slowest won time so far, after the run `r`.
pub open spec fn fold_slowest(f: Option<nat>, r: LevelRun) -> Option<nat> {
    if !r.spec_win() {
        f
    } else {
        match f {
            None => Some(r.spec_time()),
            Some(x) => Some(if x >= r.spec_time() { x } else { r.spec_time() }),
        }
    }
}

proof fn lemma_remove_parts(s: Seq<LevelRun>, i: int)
    requires
        0 <= i < s.len(),
    ensures
        wins(s) == wins(s.remove(i)) + if s[i].spec_win() { 1nat } else { 0nat },
        time_of(s) == time_of(s.remove(i)) + s[i].spec_time(),
        fastest_win(s) == fold_fastest(fastest_win(s.remove(i)), s[i]),
        slowest_win(s) == fold_slowest(slowest_win(s.remove(i)), s[i]),
    decreases s.len(),
{
    if i == s.len() - 1 {
        assert(s.remove(i) =~= s.drop_last());
    } else {
        let d = s.drop_last();
        lemma_remove_parts(d, i);
        assert(s.remove(i).drop_last() =~= d.remove(i));
        assert(s.remove(i).last() == s.last());
        assert(d[i] == s[i]);
    }
}

proof fn lemma_key_remove(s: Seq<LevelRun>, i: int, k: Seq<char>)
    requires
        0 <= i < s.len(),
    ensures
        runs_with_key(s, k).to_multiset() == if level_key(s[i]) == k {
            runs_with_key(s.remove(i), k).to_multiset().insert(s[i])
        } else {
            runs_with_key(s.remove(i), k).to_multiset()
        },
    decreases s.len(),
{
    broadcast use vstd::seq_lib::group_to_multiset_ensures;
    if i == s.len() - 1 {
        assert(s.remove(i) =~= s.drop_last());
    } else {
        let d = s.drop_last();
        lemma_key_remove(d, i, k);
        assert(s.remove(i).drop_last() =~= d.remove(i));
        assert(s.remove(i).last() == s.last());
        assert(d[i] == s[i]);
        if level_key(s.last()) == k && level_key(s[i]) == k {
            assert(runs_with_key(d.remove(i), k).to_multiset().insert(s[i]).insert(s.last()) =~= runs_with_key(
                d.remove(i),
                k,
            ).to_multiset().insert(s.last()).insert(s[i]));
        }
    }
}

/// The statistics parts of runs that are the same multiset agree.
proof fn lemma_parts_perm(s: Seq<LevelRun>, t: Seq<LevelRun>)
    requires
        s.to_multiset() == t.to_multiset(),
    ensures
        s.len() == t.len(),
        wins(s) == wins(t),
        time_of(s) == time_of(t),
        fastest_win(s) == fastest_win(t),
        slowest_win(s) == slowest_win(t),
        forall|k: Seq<char>| #[trigger] runs_with_key(s, k).to_multiset() == runs_with_key(t, k).to_multiset(),
    decreases t.len(),
{
    broadcast use vstd::seq_lib::group_to_multiset_ensures;
    if t.len() == 0 {
        assert(s.len() == s.to_multiset().len());
        assert(s =~= t);
    } else {
        let x = t.last();
        let t0 = t.drop_last();
        assert(t0.push(x) =~= t);
        assert(t.to_multiset().count(x) > 0);
        assert(s.contains(x));
        let i = choose|i: int| 0 <= i < s.len() && s[i] == x;
        let s0 = s.remove(i);
        assert(s0.to_multiset() =~= s.to_multiset().remove(x));
        assert(t.to_multiset() =~= t0.to_multiset().insert(x));
        assert(t0.to_multiset() =~= t.to_multiset().remove(x));
        lemma_parts_perm(s0, t0);
        lemma_remove_parts(s, i);
        assert forall|k: Seq<char>| #[trigger] runs_with_key(s, k).to_multiset() == runs_with_key(t, k).to_multiset() by {
            lemma_key_remove(s, i, k);
            assert(runs_with_key(s0, k).to_multiset() == runs_with_key(t0, k).to_multiset());
            if level_key(x) == k {
                assert(runs_with_key(t, k) == runs_with_key(t0, k).push(x));
            } else {
                assert(runs_with_key(t, k) == runs_with_key(t0, k));
            }
        }
    }
}

proof fn lemma_key_present(s: Seq<LevelRun>, k: Seq<char>)
    requires
        runs_with_key(s, k).len() > 0,
    ensures
        exists|j: int| 0 <= j < s.len() && level_key(#[trigger] s[j]) == k,
    decreases s.len(),
{
    if level_key(s.last()) == k {
        assert(level_key(s[s.len() - 1]) == k);
    } else {
        lemma_key_present(s.drop_last(), k);
        let j = choose|j: int| 0 <= j < s.drop_last().len() && level_key(#[trigger] s.drop_last()[j]) == k;
        assert(s[j] == s.drop_last()[j]);
    }
}

proof fn lemma_sorted_names_unique(a: Seq<Seq<char>>, b: Seq<Seq<char>>)
    requires
        names_sorted(a),
        names_sorted(b),
        forall|n: Seq<char>| a.contains(n) <==> b.contains(n),
    ensures
        a == b,
    decreases a.len() + b.len(),
{
    if a.len() == 0 {
        if b.len() > 0 {
            assert(b.contains(b[0]));
        }
        assert(a =~= b);
    } else if b.len() == 0 {
        assert(a.contains(a[0]));
    } else {
        assert(a.contains(a[0]));
        assert(b.contains(b[0]));
        let j = choose|j: int| 0 <= j < b.len() && b[j] == a[0];
        let i = choose|i: int| 0 <= i < a.len() && a[i] == b[0];
        if a[0] != b[0] {
            assert(j > 0 && i > 0);
            assert(seq_less(b[0], b[j]));
            assert(seq_less(a[0], a[i]));
            crate::text::lemma_seq_less_transitive(a[0], b[0], a[0]);
            lemma_seq_less_irreflexive(a[0]);
        }
        let a1 = a.drop_first();
        let b1 = b.drop_first();
        assert forall|n: Seq<char>| a1.contains(n) <==> b1.contains(n) by {
            if a1.contains(n) {
                let p = choose|p: int| 0 <= p < a1.len() && a1[p] == n;
                assert(a[p + 1] == n && seq_less(a[0], a[p + 1]));
                lemma_seq_less_irreflexive(n);
                assert(a.contains(n) && b.contains(n));
                let q = choose|q: int| 0 <= q < b.len() && b[q] == n;
                assert(q != 0);
                assert(b1[q - 1] == n);
            }
            if b1.contains(n) {
                let p = choose|p: int| 0 <= p < b1.len() && b1[p] == n;
                assert(b[p + 1] == n && seq_less(b[0], b[p + 1]));
                lemma_seq_less_irreflexive(n);
                assert(b.contains(n) && a.contains(n));
                let q = choose|q: int| 0 <= q < a.len() && a[q] == n;
                assert(q != 0);
                assert(a1[q - 1] == n);
            }
        }
        assert forall|x: int, y: int| 0 <= x < y < a1.len() implies seq_less(a1[x], a1[y]) by {
            assert(a1[x] == a[x + 1] && a1[y] == a[y + 1]);
        }
        assert forall|x: int, y: int| 0 <= x < y < b1.len() implies seq_less(b1[x], b1[y]) by {
            assert(b1[x] == b[x + 1] && b1[y] == b[y + 1]);
        }
        lemma_sorted_names_unique(a1, b1);
        assert forall|p: int| 0 <= p < a.len() implies a[p] == b[p] by {
            if p > 0 {
                assert(a[p] == a1[p - 1] && b[p] == b1[p - 1]);
            }
        }
        assert(a =~= b);
    }
}

/// The statistics do not depend on the order of the runs: statistics of
/// the same runs in another order have the same counts and total time, the
/// same levels in the same order, and the same statistics for each level.
pub proof fn lemma_stats_order_free(st1: Stats, st2: Stats, xs: Seq<LevelRun>, ys: Seq<LevelRun>)
    requires
        st1.describes(xs),
        st2.describes(ys),
        xs.to_multiset() == ys.to_multiset(),
    ensures
        st1.number_of_runs == st2.number_of_runs,
        st1.win_counter == st2.win_counter,
        st1.time_total == st2.time_total,
        st1.levels@.len() == st2.levels@.len(),
        st1.level_names() == st2.level_names(),
        forall|i: int| 0 <= i < st1.levels@.len() ==> (#[trigger] st1.levels@[i]).1 == st2.levels@[i].1,
{
    broadcast use vstd::seq_lib::group_to_multiset_ensures;
    lemma_parts_perm(xs, ys);
    let a = st1.level_names();
    let b = st2.level_names();
    assert forall|n: Seq<char>| a.contains(n) <==> b.contains(n) by {
        if a.contains(n) {
            let i = choose|i: int| 0 <= i < a.len() && a[i] == n;
            assert(st1.levels@[i].1.describes(runs_with_key(xs, st1.levels@[i].0@)));
            lemma_key_present(xs, n);
            let j = choose|j: int| 0 <= j < xs.len() && level_key(#[trigger] xs[j]) == n;
            assert(xs.contains(xs[j]));
            assert(xs.to_multiset().count(xs[j]) > 0);
            assert(ys.contains(xs[j]));
            let q = choose|q: int| 0 <= q < ys.len() && ys[q] == xs[j];
            let p = choose|p: int| 0 <= p < st2.levels@.len() && #[trigger] st2.levels@[p].0@ == level_key(ys[q]);
            assert(b[p] == n);
        }
        if b.contains(n) {
            let i = choose|i: int| 0 <= i < b.len() && b[i] == n;
            assert(st2.levels@[i].1.describes(runs_with_key(ys, st2.levels@[i].0@)));
            lemma_key_present(ys, n);
            let j = choose|j: int| 0 <= j < ys.len() && level_key(#[trigger] ys[j]) == n;
            assert(ys.contains(ys[j]));
            assert(ys.to_multiset().count(ys[j]) > 0);
            assert(xs.contains(ys[j]));
            let q = choose|q: int| 0 <= q < xs.len() && xs[q] == ys[j];
            let p = choose|p: int| 0 <= p < st1.levels@.len() && #[trigger] st1.levels@[p].0@ == level_key(xs[q]);
            assert(a[p] == n);
        }
    }
    lemma_sorted_names_unique(a, b);
    assert forall|i: int| 0 <= i < st1.levels@.len() implies (#[trigger] st1.levels@[i]).1 == st2.levels@[i].1 by {
        let n = a[i];
        assert(a[i] == st1.levels@[i].0@ && b[i] == st2.levels@[i].0@);
        let r1 = runs_with_key(xs, n);
        let r2 = runs_with_key(ys, n);
        assert(st1.levels@[i].1.describes(r1));
        assert(st2.levels@[i].1.describes(r2));
        assert(r1.to_multiset() == r2.to_multiset());
        lemma_parts_perm(r1, r2);
    }
}

} // verus!
