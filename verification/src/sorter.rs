//! Sorting lists of runs the ways the run lists offer: by win, by objective,
//! by time and by number of stamps. Every sort is stable.
use vstd::prelude::*;

use crate::run::{LevelRun, RunObjective};
use crate::stats::{lemma_totals_insert, lemma_totals_remove, time_of, wins};
use crate::text::{
    lemma_seq_less_irreflexive, lemma_seq_less_total, lemma_seq_less_transitive, seq_less,
    str_less,
};
use crate::time::Time;

verus! {

/// What a list of runs can be sorted by.
#[derive(Clone, Copy, Debug, PartialEq, Eq, Structural)]
pub enum SortKey {
    /// Won runs first.
    Win,
    /// By objective: level name in dictionary order, then player count, then
    /// the secondary, overload, glitched and early-drop flags (unset first).
    Objective,
    /// Fastest first.
    Time,
    /// Most stamps first.
    Stamps,
}

/// `false` comes before `true`.
pub open spec fn flag_less(a: bool, b: bool) -> bool {
    !a && b
}

/// Whether objective `a` comes strictly before objective `b`.
pub open spec fn objective_less(a: RunObjective, b: RunObjective) -> bool {
    if a.level_name@ != b.level_name@ {
        seq_less(a.level_name@, b.level_name@)
    } else if a.player_count != b.player_count {
        a.player_count < b.player_count
    } else if a.secondary != b.secondary {
        flag_less(a.secondary, b.secondary)
    } else if a.overload != b.overload {
        flag_less(a.overload, b.overload)
    } else if a.glitched != b.glitched {
        flag_less(a.glitched, b.glitched)
    } else {
        flag_less(a.early_drop, b.early_drop)
    }
}

/// Whether run `a` goes strictly before run `b` when sorting by `key`.
pub open spec fn run_before(key: SortKey, a: LevelRun, b: LevelRun) -> bool {
    match key {
        SortKey::Win => a.spec_win() && !b.spec_win(),
        SortKey::Objective => objective_less(a.spec_objective(), b.spec_objective()),
        SortKey::Time => a.spec_time() < b.spec_time(),
        SortKey::Stamps => a.spec_splits().len() > b.spec_splits().len(),
    }
}

/// No run of `s` goes strictly before a run that precedes it.
pub open spec fn sorted_by(key: SortKey, s: Seq<LevelRun>) -> bool {
    forall|i: int, j: int| 0 <= i < j < s.len() ==> !run_before(key, #[trigger] s[j], #[trigger] s[i])
}

/// `after` holds the runs of `before` rearranged by `perm` (position `k` of
/// `after` holds run `perm[k]` of `before`), and runs that `key` ranks alike
/// keep their relative order.
pub open spec fn stable_rearrangement(
    key: SortKey,
    before: Seq<LevelRun>,
    after: Seq<LevelRun>,
    perm: Seq<int>,
) -> bool {
    &&& perm.len() == before.len()
    &&& after.len() == before.len()
    &&& forall|k: int| 0 <= k < perm.len() ==> 0 <= #[trigger] perm[k] < before.len()
    &&& forall|k: int| 0 <= k < perm.len() ==> #[trigger] after[k] == before[perm[k]]
    &&& forall|k: int, l: int| 0 <= k < l < perm.len() ==> #[trigger] perm[k] != #[trigger] perm[l]
    &&& forall|k: int, l: int|
        0 <= k < l < perm.len() && !run_before(key, #[trigger] after[k], #[trigger] after[l])
            ==> perm[k] < perm[l]
}

/// `after` is `before` sorted stably by `key`.
pub open spec fn stably_sorted(key: SortKey, before: Seq<LevelRun>, after: Seq<LevelRun>) -> bool {
    &&& sorted_by(key, after)
    &&& exists|perm: Seq<int>| stable_rearrangement(key, before, after, perm)
}

proof fn lemma_objective_less_irreflexive(a: RunObjective)
    ensures
        !objective_less(a, a),
{
}

proof fn lemma_objective_less_transitive(a: RunObjective, b: RunObjective, c: RunObjective)
    requires
        objective_less(a, b),
        objective_less(b, c),
    ensures
        objective_less(a, c),
{
    let (x, y, z) = (a.level_name@, b.level_name@, c.level_name@);
    if x != y && y != z {
        lemma_seq_less_transitive(x, y, z);
        if x == z {
            lemma_seq_less_transitive(x, y, x);
            lemma_seq_less_irreflexive(x);
        }
    }
}

proof fn lemma_objective_less_trichotomy(a: RunObjective, b: RunObjective)
    ensures
        objective_less(a, b) || objective_less(b, a) || (a.level_name@ == b.level_name@
            && a.player_count == b.player_count && a.secondary == b.secondary && a.overload
            == b.overload && a.glitched == b.glitched && a.early_drop == b.early_drop),
{
    if a.level_name@ != b.level_name@ {
        lemma_seq_less_total(a.level_name@, b.level_name@);
    }
}

/// No run goes strictly before itself.
pub proof fn lemma_run_before_irreflexive(key: SortKey, a: LevelRun)
    ensures
        !run_before(key, a, a),
{
    lemma_objective_less_irreflexive(a.spec_objective());
}

/// Going strictly before is transitive.
pub proof fn lemma_run_before_transitive(key: SortKey, a: LevelRun, b: LevelRun, c: LevelRun)
    requires
        run_before(key, a, b),
        run_before(key, b, c),
    ensures
        run_before(key, a, c),
{
    if key == SortKey::Objective {
        lemma_objective_less_transitive(a.spec_objective(), b.spec_objective(), c.spec_objective());
    }
}

/// Not going strictly after is transitive too: the runs are ranked.
pub proof fn lemma_run_not_before_transitive(key: SortKey, a: LevelRun, b: LevelRun, c: LevelRun)
    requires
        !run_before(key, a, b),
        !run_before(key, b, c),
    ensures
        !run_before(key, a, c),
{
    if key == SortKey::Objective {
        let (x, y, z) = (a.spec_objective(), b.spec_objective(), c.spec_objective());
        lemma_objective_less_trichotomy(x, y);
        lemma_objective_less_trichotomy(y, z);
        lemma_objective_less_irreflexive(x);
        if objective_less(x, z) {
            if objective_less(y, x) {
                lemma_objective_less_transitive(y, x, z);
            }
            if objective_less(z, y) {
                lemma_objective_less_transitive(x, z, y);
            }
        }
    }
}

proof fn lemma_run_before_asymmetric(key: SortKey, a: LevelRun, b: LevelRun)
    requires
        run_before(key, a, b),
    ensures
        !run_before(key, b, a),
{
    if run_before(key, b, a) {
        lemma_run_before_transitive(key, a, b, a);
        lemma_run_before_irreflexive(key, a);
    }
}

/// Whether run `a` goes strictly before run `b` when sorting by `key`.
pub fn goes_before(key: SortKey, a: &LevelRun, b: &LevelRun) -> (r: bool)
    ensures
        r == run_before(key, *a, *b),
{
    match key {
        SortKey::Win => a.is_win() && !b.is_win(),
        SortKey::Objective => objective_goes_before(a.get_objective(), b.get_objective()),
        SortKey::Time => a.get_time().get_stamp() < b.get_time().get_stamp(),
        SortKey::Stamps => a.len() > b.len(),
    }
}

fn objective_goes_before(a: &RunObjective, b: &RunObjective) -> (r: bool)
    ensures
        r == objective_less(*a, *b),
{
    if a.level_name != b.level_name {
        str_less(a.level_name.as_str(), b.level_name.as_str())
    } else if a.player_count != b.player_count {
        a.player_count < b.player_count
    } else if a.secondary != b.secondary {
        !a.secondary
    } else if a.overload != b.overload {
        !a.overload
    } else if a.glitched != b.glitched {
        !a.glitched
    } else {
        !a.early_drop && b.early_drop
    }
}

/// The state of the insertion sort after its first `i` runs are placed.
spec fn sort_state(
    key: SortKey,
    orig: Seq<LevelRun>,
    r: Seq<LevelRun>,
    perm: Seq<int>,
    i: int,
) -> bool {
    &&& 0 <= i <= orig.len()
    &&& r.len() == orig.len()
    &&& perm.len() == orig.len()
    &&& forall|k: int| 0 <= k < perm.len() ==> 0 <= #[trigger] perm[k] < orig.len()
    &&& forall|k: int| i <= k < perm.len() ==> #[trigger] perm[k] == k
    &&& forall|k: int| 0 <= k < i ==> #[trigger] perm[k] < i
    &&& forall|k: int, l: int| 0 <= k < l < perm.len() ==> #[trigger] perm[k] != #[trigger] perm[l]
    &&& forall|k: int| 0 <= k < r.len() ==> #[trigger] r[k] == orig[perm[k]]
    &&& forall|k: int, l: int| 0 <= k < l < i ==> !run_before(key, #[trigger] r[l], #[trigger] r[k])
    &&& forall|k: int, l: int|
        0 <= k < l < i && !run_before(key, #[trigger] r[k], #[trigger] r[l]) ==> perm[k] < perm[l]
}

/// Moving run `i` to position `p`, the first of the sorted prefix that it
/// goes strictly before, extends the sorted prefix by one.
proof fn lemma_sort_step(
    key: SortKey,
    orig: Seq<LevelRun>,
    r: Seq<LevelRun>,
    perm: Seq<int>,
    i: int,
    p: int,
)
    requires
        sort_state(key, orig, r, perm, i),
        i < orig.len(),
        0 <= p <= i,
        forall|q: int| 0 <= q < p ==> !run_before(key, r[i], #[trigger] r[q]),
        p < i ==> run_before(key, r[i], r[p]),
    ensures
        sort_state(
            key,
            orig,
            r.remove(i).insert(p, r[i]),
            perm.remove(i).insert(p, perm[i]),
            i + 1,
        ),
{
    let x = r[i];
    let r2 = r.remove(i).insert(p, x);
    let perm2 = perm.remove(i).insert(p, perm[i]);
    assert forall|k: int| 0 <= k < r2.len() implies (k < p ==> #[trigger] r2[k] == r[k]) && (k
        == p ==> r2[k] == x) && (p < k <= i ==> r2[k] == r[k - 1]) && (i < k ==> r2[k] == r[k])
        && (k < p ==> perm2[k] == perm[k]) && (k == p ==> perm2[k] == perm[i]) && (p < k <= i
        ==> perm2[k] == perm[k - 1]) && (i < k ==> perm2[k] == perm[k]) by {}
    // Every run of the sorted prefix from `p` on ranks strictly after `x`.
    assert forall|q: int| p <= q < i implies run_before(key, x, #[trigger] r[q]) by {
        if q > p {
            assert(!run_before(key, r[q], r[p]));
            if !run_before(key, x, r[q]) {
                lemma_run_not_before_transitive(key, x, r[q], r[p]);
            }
        }
    }
    assert forall|k: int, l: int| 0 <= k < l < i + 1 implies !run_before(
        key,
        #[trigger] r2[l],
        #[trigger] r2[k],
    ) by {
        if k == p {
            lemma_run_before_asymmetric(key, x, r[l - 1]);
        } else if l == p {
        } else if k < p && l > p {
            assert(r2[l] == r[l - 1]);
        } else if k > p {
            assert(r2[l] == r[l - 1] && r2[k] == r[k - 1]);
        }
    }
    assert forall|k: int, l: int|
        0 <= k < l < i + 1 && !run_before(key, #[trigger] r2[k], #[trigger] r2[l]) implies perm2[k]
        < perm2[l] by {
        if k == p {
            assert(r2[l] == r[l - 1]);
        } else if l == p {
        } else if k < p && l > p {
            assert(r2[l] == r[l - 1]);
        } else if k > p {
            assert(r2[l] == r[l - 1] && r2[k] == r[k - 1]);
        }
    }
    assert forall|k: int, l: int| 0 <= k < l < perm2.len() implies #[trigger] perm2[k]
        != #[trigger] perm2[l] by {
        if k == p || l == p {
        } else {
        }
    }
}

/// Sorts `runs` stably by `key`: runs that `key` ranks alike keep their
/// order. A list that is already sorted is left as it is.
pub fn sort_runs(runs: &mut Vec<LevelRun>, key: SortKey)
    ensures
        stably_sorted(key, old(runs)@, final(runs)@),
        sorted_by(key, old(runs)@) ==> final(runs)@ == old(runs)@,
        time_of(final(runs)@) == time_of(old(runs)@),
        wins(final(runs)@) == wins(old(runs)@),
{
    let ghost orig = runs@;
    let ghost mut perm: Seq<int> = Seq::new(orig.len(), |k: int| k);
    let n = runs.len();
    let mut i: usize = 0;
    while i < n
        invariant
            n == orig.len(),
            i <= n,
            sort_state(key, orig, runs@, perm, i as int),
            sorted_by(key, orig) ==> runs@ == orig,
            time_of(runs@) == time_of(orig),
            wins(runs@) == wins(orig),
        decreases n - i,
    {
        let mut p: usize = 0;
        let mut found = false;
        while p < i && !found
            invariant
                p <= i < n == runs@.len(),
                found ==> p < i && run_before(key, runs@[i as int], runs@[p as int]),
                forall|q: int| 0 <= q < p ==> !run_before(key, runs@[i as int], #[trigger] runs@[q]),
            decreases i - p + if found { 0int } else { 1int },
        {
            if goes_before(key, &runs[i], &runs[p]) {
                found = true;
            } else {
                p += 1;
            }
        }
        proof {
            if sorted_by(key, orig) {
                assert(!found);
            }
            lemma_sort_step(key, orig, runs@, perm, i as int, p as int);
            if p == i {
                assert(runs@.remove(i as int).insert(p as int, runs@[i as int]) =~= runs@);
            }
            perm = perm.remove(i as int).insert(p as int, perm[i as int]);
            lemma_totals_remove(runs@, i as int);
            lemma_totals_insert(runs@.remove(i as int), p as int, runs@[i as int]);
        }
        let x = runs.remove(i);
        runs.insert(p, x);
        i += 1;
    }
    proof {
        assert(stable_rearrangement(key, orig, runs@, perm));
    }
}

/// The total time of all the runs of the list.
pub fn get_total_times(runs: &Vec<LevelRun>) -> (t: Time)
    requires
        time_of(runs@) <= u64::MAX,
    ensures
        t.stamp == time_of(runs@),
{
    let mut total = Time::new();
    let mut i: usize = 0;
    while i < runs.len()
        invariant
            i <= runs@.len(),
            time_of(runs@) <= u64::MAX,
            total.stamp == time_of(runs@.take(i as int)),
        decreases runs.len() - i,
    {
        proof {
            assert(runs@.take(i + 1).drop_last() =~= runs@.take(i as int));
            crate::stats::lemma_time_of_prefix(runs@, i + 1);
        }
        total = total.add(runs[i].get_time());
        i += 1;
    }
    assert(runs@.take(i as int) =~= runs@);
    total
}

/// Sorting by objective puts, of two objectives that differ in one flag
/// only, the one without the flag strictly first, for each of the
/// secondary, overload, glitched and early-drop flags; a level name that
/// comes first in dictionary order, or fewer players on the same level,
/// goes first too.
pub proof fn lemma_unset_flag_first(o: RunObjective)
    ensures
        objective_less(RunObjective { secondary: false, ..o }, RunObjective { secondary: true, ..o }),
        !objective_less(RunObjective { secondary: true, ..o }, RunObjective { secondary: false, ..o }),
        objective_less(RunObjective { overload: false, ..o }, RunObjective { overload: true, ..o }),
        !objective_less(RunObjective { overload: true, ..o }, RunObjective { overload: false, ..o }),
        objective_less(RunObjective { glitched: false, ..o }, RunObjective { glitched: true, ..o }),
        !objective_less(RunObjective { glitched: true, ..o }, RunObjective { glitched: false, ..o }),
        objective_less(RunObjective { early_drop: false, ..o }, RunObjective { early_drop: true, ..o }),
        !objective_less(RunObjective { early_drop: true, ..o }, RunObjective { early_drop: false, ..o }),
        !objective_less(o, o),
{
}

/// Of two objectives that differ only in the level name, the one whose
/// name comes first in dictionary order goes first; of two that differ
/// only in the player count, the one with fewer players.
pub proof fn lemma_name_and_players_first(o: RunObjective, p: RunObjective)
    ensures
        o.level_name@ != p.level_name@ ==> (objective_less(o, p) <==> seq_less(o.level_name@, p.level_name@)),
        o.level_name@ == p.level_name@ && o.player_count != p.player_count ==> (objective_less(o, p)
            <==> o.player_count < p.player_count),
{
}

} // verus!
