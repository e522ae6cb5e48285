//! Lists of runs: one row per run with its split times, the run manager's
//! paging and comparison state, and the log parser's list of freshly parsed
//! runs.
use vstd::prelude::*;

use crate::run::{LevelRun, RunObjective};
use crate::run_render::{lemma_req_total_le_bound, req_bound, req_total, required_time};
use crate::sorter::{sort_runs, stably_sorted, SortKey};
use crate::time::{lemma_sum_times_prefix, lemma_sum_times_take, sum_times, Time};

verus! {

/// What the user asked of one row of a run list.
#[derive(Clone, Copy, Debug, PartialEq, Eq, Structural)]
pub struct RenderResult {
    pub delete: bool,
    pub save: bool,
}

impl Default for RenderResult {
    fn default() -> (r: Self)
        ensures
            !r.delete,
            !r.save,
    {
        RenderResult { delete: false, save: false }
    }
}

/// A list of names behind an optional reference, as plain values.
pub open spec fn names_of(r: Option<&Vec<String>>) -> Option<Seq<String>> {
    match r {
        Some(v) => Some(v@),
        None => None,
    }
}

/// An optional list of names, as plain values.
pub open spec fn opt_names(r: Option<Vec<String>>) -> Option<Seq<String>> {
    match r {
        Some(v) => Some(v@),
        None => None,
    }
}

/// The splits whose times make up the split `name`: the merged ones if the
/// split stands for several, else the split itself.
pub open spec fn merged_names(name: String, required: Option<Seq<String>>) -> Seq<String> {
    match required {
        Some(v) => v,
        None => seq![name],
    }
}

/// The time `run` took for the split `split_name`: the sum of the splits it
/// stands for (nothing if the run misses one of them), or else the time of
/// the run's own split of that name (nothing if it has none).
pub fn grab_time(run: &LevelRun, split_name: &String, required: Option<&Vec<String>>) -> (r: Option<Time>)
    requires
        req_bound(run.spec_splits(), merged_names(*split_name, names_of(required))) <= u64::MAX,
    ensures
        match req_total(run.spec_splits(), merged_names(*split_name, names_of(required))) {
            Some(t) => r matches Some(x) && x.stamp == t,
            None => r is None,
        },
{
    match required {
        Some(names) => required_time(run.get_splits(), names),
        None => {
            let r = run.get_time_for_split(split_name);
            proof {
                reveal_with_fuel(req_total, 2);
                let s = seq![*split_name];
                assert(s.drop_last() =~= Seq::<String>::empty());
                assert(s.last() == *split_name);
            }
            r
        },
    }
}

/// The time of the `j`-th split of the list `names` in `run`; `reqs[j]`
/// lists the splits it stands for, if it stands for several.
pub open spec fn split_time_in(
    run: LevelRun,
    names: Seq<String>,
    reqs: Seq<Option<Vec<String>>>,
    j: int,
) -> Option<nat> {
    req_total(run.spec_splits(), merged_names(names[j], opt_names(reqs[j])))
}

/// The sum of the times of those splits that the `j`-th split of the list
/// stands for that `run` has.
pub open spec fn split_bound_in(run: LevelRun, names: Seq<String>, reqs: Seq<Option<Vec<String>>>, j: int) -> nat {
    req_bound(run.spec_splits(), merged_names(names[j], opt_names(reqs[j])))
}

/// The running total of `run` over the first `k` splits of the list, a
/// missing split counting as nothing.
pub open spec fn running_total(run: LevelRun, names: Seq<String>, reqs: Seq<Option<Vec<String>>>, k: int) -> nat
    decreases k,
{
    if k <= 0 {
        0
    } else {
        running_total(run, names, reqs, k - 1) + match split_time_in(run, names, reqs, k - 1) {
            Some(t) => t,
            None => 0,
        }
    }
}

/// The sum of the bounds of the first `k` splits of the list.
pub open spec fn running_bound(run: LevelRun, names: Seq<String>, reqs: Seq<Option<Vec<String>>>, k: int) -> nat
    decreases k,
{
    if k <= 0 {
        0
    } else {
        running_bound(run, names, reqs, k - 1) + split_bound_in(run, names, reqs, k - 1)
    }
}

/// What the row of `run` shows for the `j`-th split of the list: the split's
/// time, or the running total up to it; nothing if the run misses it.
pub open spec fn row_cell(
    run: LevelRun,
    names: Seq<String>,
    reqs: Seq<Option<Vec<String>>>,
    j: int,
    show_split_times: bool,
) -> Option<nat> {
    match split_time_in(run, names, reqs, j) {
        Some(t) => Some(if show_split_times { t } else { running_total(run, names, reqs, j + 1) }),
        None => None,
    }
}

proof fn lemma_running_total_le_bound(run: LevelRun, names: Seq<String>, reqs: Seq<Option<Vec<String>>>, k: int)
    ensures
        running_total(run, names, reqs, k) <= running_bound(run, names, reqs, k),
    decreases k,
{
    if k > 0 {
        lemma_running_total_le_bound(run, names, reqs, k - 1);
        lemma_req_total_le_bound(run.spec_splits(), merged_names(names[k - 1], opt_names(reqs[k - 1])));
    }
}

proof fn lemma_running_bound_mono(run: LevelRun, names: Seq<String>, reqs: Seq<Option<Vec<String>>>, k: int, n: int)
    requires
        k <= n,
    ensures
        running_bound(run, names, reqs, k) <= running_bound(run, names, reqs, n),
    decreases n - k,
{
    if k < n {
        lemma_running_bound_mono(run, names, reqs, k, n - 1);
    }
}

/// Whether the row of `run` can be computed within 64-bit times, as
/// `row_cells` asks.
pub fn row_fits(run: &LevelRun, names: &Vec<String>, reqs: &Vec<Option<Vec<String>>>) -> (b: bool)
    ensures
        b == (names@.len() == reqs@.len() && running_bound(*run, names@, reqs@, names@.len() as int) <= u64::MAX),
{
    if names.len() != reqs.len() {
        return false;
    }
    let n = names.len();
    let mut acc: u64 = 0;
    let mut j: usize = 0;
    while j < n
        invariant
            n == names@.len(),
            n == reqs@.len(),
            j <= n,
            acc == running_bound(*run, names@, reqs@, j as int),
        decreases n - j,
    {
        let names_j = match &reqs[j] {
            Some(v) => crate::run_render::req_bound_checked(run.get_splits(), v),
            None => {
                let mut v: Vec<String> = Vec::new();
                v.push(names[j].clone());
                assert(v@ =~= seq![names@[j as int]]);
                crate::run_render::req_bound_checked(run.get_splits(), &v)
            },
        };
        match names_j {
            Some(x) => match acc.checked_add(x) {
                Some(y) => {
                    acc = y;
                },
                None => {
                    proof {
                        lemma_running_bound_mono(*run, names@, reqs@, j + 1, n as int);
                    }
                    return false;
                },
            },
            None => {
                proof {
                    lemma_running_bound_mono(*run, names@, reqs@, j + 1, n as int);
                }
                return false;
            },
        }
        j += 1;
    }
    true
}

/// The cells of the row of `run` for the splits of the list from place
/// `start` on: each split's time if `show_split_times`, else the running
/// total up to it; nothing where the run misses the split.
pub fn row_cells(
    run: &LevelRun,
    names: &Vec<String>,
    reqs: &Vec<Option<Vec<String>>>,
    start: usize,
    show_split_times: bool,
) -> (cells: Vec<Option<Time>>)
    requires
        names@.len() == reqs@.len(),
        running_bound(*run, names@, reqs@, names@.len() as int) <= u64::MAX,
    ensures
        cells@.len() == if start <= names@.len() { names@.len() - start } else { 0 },
        forall|i: int|
            0 <= i < cells@.len() ==> match row_cell(*run, names@, reqs@, start + i, show_split_times) {
                Some(t) => (#[trigger] cells@[i]) matches Some(x) && x.stamp == t,
                None => cells@[i] is None,
            },
{
    let n = names.len();
    let first = if start < n { start } else { n };
    let mut total = Time::new();
    let mut j: usize = 0;
    while j < first
        invariant
            n == names@.len(),
            n == reqs@.len(),
            first <= n,
            j <= first,
            running_bound(*run, names@, reqs@, n as int) <= u64::MAX,
            total.stamp == running_total(*run, names@, reqs@, j as int),
        decreases first - j,
    {
        proof {
            lemma_running_total_le_bound(*run, names@, reqs@, j + 1);
            lemma_running_bound_mono(*run, names@, reqs@, j + 1, n as int);
        }
        let req = match &reqs[j] {
            Some(v) => Some(v),
            None => None,
        };
        match grab_time(run, &names[j], req) {
            Some(t) => {
                total = total.add(t);
            },
            None => {},
        }
        j += 1;
    }
    let mut cells: Vec<Option<Time>> = Vec::new();
    while j < n
        invariant
            n == names@.len(),
            n == reqs@.len(),
            first <= j <= n,
            first == if start < n { start } else { n },
            running_bound(*run, names@, reqs@, n as int) <= u64::MAX,
            total.stamp == running_total(*run, names@, reqs@, j as int),
            cells@.len() == j - first,
            forall|i: int|
                0 <= i < cells@.len() ==> match row_cell(*run, names@, reqs@, first + i, show_split_times) {
                    Some(t) => (#[trigger] cells@[i]) matches Some(x) && x.stamp == t,
                    None => cells@[i] is None,
                },
        decreases n - j,
    {
        proof {
            lemma_running_total_le_bound(*run, names@, reqs@, j + 1);
            lemma_running_bound_mono(*run, names@, reqs@, j + 1, n as int);
        }
        let req = match &reqs[j] {
            Some(v) => Some(v),
            None => None,
        };
        let cell = match grab_time(run, &names[j], req) {
            Some(t) => {
                total = total.add(t);
                if show_split_times {
                    Some(t)
                } else {
                    Some(total)
                }
            },
            None => None,
        };
        cells.push(cell);
        j += 1;
    }
    cells
}

/// The sum of the times.
pub fn sum_run_splits(times: &Vec<Time>) -> (t: Time)
    requires
        sum_times(times@) <= u64::MAX,
    ensures
        t.stamp == sum_times(times@),
{
    let mut total = Time::new();
    let mut i: usize = 0;
    while i < times.len()
        invariant
            i <= times@.len(),
            sum_times(times@) <= u64::MAX,
            total.stamp == sum_times(times@.take(i as int)),
        decreases times.len() - i,
    {
        proof {
            lemma_sum_times_take(times@, i as int);
            lemma_sum_times_prefix(times@, i + 1);
        }
        total = total.add(times[i]);
        i += 1;
    }
    assert(times@.take(i as int) =~= times@);
    total
}

/// The best time of the split `name` in `best`: that of the first entry of
/// that name, or zero if there is none.
pub open spec fn best_of(best: Seq<(String, Time)>, name: Seq<char>) -> nat
    decreases best.len(),
{
    if best.len() == 0 {
        0
    } else if best[0].0@ == name {
        best[0].1.stamp as nat
    } else {
        best_of(best.drop_first(), name)
    }
}

/// The best times of the splits `names`, added up.
pub open spec fn best_sum(best: Seq<(String, Time)>, names: Seq<String>) -> nat
    decreases names.len(),
{
    if names.len() == 0 {
        0
    } else {
        best_sum(best, names.drop_last()) + best_of(best, names.last()@)
    }
}

fn best_time(best: &Vec<(String, Time)>, name: &String) -> (t: Time)
    ensures
        t.stamp == best_of(best@, name@),
{
    let mut k: usize = 0;
    assert(best@.skip(0) =~= best@);
    while k < best.len()
        invariant
            k <= best@.len(),
            best_of(best@, name@) == best_of(best@.skip(k as int), name@),
        decreases best.len() - k,
    {
        let ghost rest = best@.skip(k as int);
        assert(rest[0] == best@[k as int]);
        if best[k].0 == *name {
            return best[k].1;
        }
        assert(rest.drop_first() =~= best@.skip(k + 1));
        k += 1;
    }
    Time::new()
}

/// The theoretical best of a list of splits: the best time of each split
/// (zero where none is saved), added up; nothing if the sum does not fit in
/// 64 bits.
pub fn theoretical_best(names: &Vec<String>, best: &Vec<(String, Time)>) -> (r: Option<Time>)
    ensures
        match r {
            Some(t) => t.stamp == best_sum(best@, names@),
            None => best_sum(best@, names@) > u64::MAX,
        },
{
    let mut acc: u64 = 0;
    let mut i: usize = 0;
    while i < names.len()
        invariant
            i <= names@.len(),
            acc == best_sum(best@, names@.take(i as int)),
        decreases names.len() - i,
    {
        proof {
            assert(names@.take(i + 1).drop_last() =~= names@.take(i as int));
            assert(names@.take(i + 1).last() == names@[i as int]);
        }
        let t = best_time(best, &names[i]);
        match acc.checked_add(t.stamp) {
            Some(x) => {
                acc = x;
            },
            None => {
                proof {
                    lemma_best_sum_prefix(best@, names@, i + 1);
                }
                return None;
            },
        }
        i += 1;
    }
    assert(names@.take(i as int) =~= names@);
    Some(Time::from_stamp(acc))
}

proof fn lemma_best_sum_prefix(best: Seq<(String, Time)>, names: Seq<String>, i: int)
    requires
        0 <= i <= names.len(),
    ensures
        best_sum(best, names.take(i)) <= best_sum(best, names),
    decreases names.len() - i,
{
    if i < names.len() {
        lemma_best_sum_prefix(best, names, i + 1);
        assert(names.take(i + 1).drop_last() =~= names.take(i));
    } else {
        assert(names.take(i) =~= names);
    }
}

/// Whether removing the places `rows`, the last first, never reaches past
/// the end of a list of `len` items.
pub open spec fn removal_fits(len: int, rows: Seq<usize>) -> bool
    decreases rows.len(),
{
    if rows.len() == 0 {
        true
    } else {
        rows.last() < len && removal_fits(len - 1, rows.drop_last())
    }
}

/// `s` after removing the item at each place of `rows`, the last first.
pub open spec fn removed_in_reverse<T>(s: Seq<T>, rows: Seq<usize>) -> Seq<T>
    decreases rows.len(),
{
    if rows.len() == 0 {
        s
    } else {
        removed_in_reverse(s.remove(rows.last() as int), rows.drop_last())
    }
}

/// The items removed at the places of `rows`, the last place first, in the
/// order they are removed.
pub open spec fn taken_in_reverse<T>(s: Seq<T>, rows: Seq<usize>) -> Seq<T>
    decreases rows.len(),
{
    if rows.len() == 0 {
        Seq::empty()
    } else {
        seq![s[rows.last() as int]] + taken_in_reverse(s.remove(rows.last() as int), rows.drop_last())
    }
}

/// Removes the item at each place of `rows`, the last first, and returns the
/// removed items in that order.
pub fn take_rows<T>(v: &mut Vec<T>, rows: &Vec<usize>) -> (taken: Vec<T>)
    requires
        removal_fits(old(v)@.len() as int, rows@),
    ensures
        final(v)@ == removed_in_reverse(old(v)@, rows@),
        taken@ == taken_in_reverse(old(v)@, rows@),
{
    let mut taken: Vec<T> = Vec::new();
    let mut k: usize = rows.len();
    assert(rows@.take(k as int) =~= rows@);
    while k > 0
        invariant
            k <= rows@.len(),
            removal_fits(v@.len() as int, rows@.take(k as int)),
            removed_in_reverse(old(v)@, rows@) == removed_in_reverse(v@, rows@.take(k as int)),
            taken_in_reverse(old(v)@, rows@) == taken@ + taken_in_reverse(v@, rows@.take(k as int)),
        decreases k,
    {
        let ghost pre = rows@.take(k as int);
        assert(pre.last() == rows@[k - 1]);
        assert(pre.drop_last() =~= rows@.take(k - 1));
        let ghost before = v@;
        let ghost taken_before = taken@;
        let x = v.remove(rows[k - 1]);
        taken.push(x);
        proof {
            assert(taken_before + taken_in_reverse(before, pre) =~= taken@ + taken_in_reverse(
                v@,
                rows@.take(k - 1),
            ));
        }
        k -= 1;
    }
    assert(rows@.take(0) =~= Seq::<usize>::empty());
    assert(taken@ + Seq::<T>::empty() =~= taken@);
    taken
}

/// Removes the item at each place of `rows`, the last first.
pub fn remove_rows<T>(v: &mut Vec<T>, rows: &Vec<usize>)
    requires
        removal_fits(old(v)@.len() as int, rows@),
    ensures
        final(v)@ == removed_in_reverse(old(v)@, rows@),
{
    let _ = take_rows(v, rows);
}

/// The run manager's state: the objective shown, how its runs are shown,
/// the first split shown, and which runs are compared with which.
#[derive(Debug)]
pub struct RunManagerWindow {
    pub objective: String,
    pub show_split_times: bool,
    pub compare_all: bool,
    pub bottom_range: usize,
    pub merge_splits_string: String,
    pub compare_first: Option<usize>,
    pub compare_second: Vec<bool>,
}

fn all_false(n: usize) -> (v: Vec<bool>)
    ensures
        v@.len() == n,
        forall|i: int| 0 <= i < n ==> !v@[i],
{
    let mut v: Vec<bool> = Vec::new();
    let mut i: usize = 0;
    while i < n
        invariant
            i <= n,
            v@.len() == i,
            forall|j: int| 0 <= j < i ==> !v@[j],
        decreases n - i,
    {
        v.push(false);
        i += 1;
    }
    v
}

impl RunManagerWindow {
    /// No objective chosen, nothing compared, the first split first.
    pub fn new() -> (w: RunManagerWindow)
        ensures
            w.objective@ == Seq::<char>::empty(),
            !w.show_split_times,
            !w.compare_all,
            w.bottom_range == 0,
            w.merge_splits_string@ == Seq::<char>::empty(),
            w.compare_first is None,
            w.compare_second@.len() == 0,
    {
        RunManagerWindow {
            objective: String::new(),
            show_split_times: false,
            compare_all: false,
            bottom_range: 0,
            merge_splits_string: String::new(),
            compare_first: None,
            compare_second: Vec::new(),
        }
    }

    /// Chooses the objective `key`, which has `run_count` runs and the merge
    /// text `merge_splits` (none if absent): back to the first split, and
    /// nothing compared.
    pub fn select_objective(&mut self, key: String, run_count: usize, merge_splits: Option<String>)
        ensures
            final(self).objective == key,
            final(self).bottom_range == 0,
            final(self).compare_first is None,
            final(self).compare_second@.len() == run_count,
            forall|i: int| 0 <= i < run_count ==> !final(self).compare_second@[i],
            final(self).merge_splits_string@ == match merge_splits {
                Some(s) => s@,
                None => Seq::<char>::empty(),
            },
            final(self).show_split_times == old(self).show_split_times,
            final(self).compare_all == old(self).compare_all,
    {
        self.objective = key;
        self.bottom_range = 0;
        self.compare_first = None;
        self.compare_second = all_false(run_count);
        self.merge_splits_string = match merge_splits {
            Some(s) => s,
            None => String::new(),
        };
    }

    /// Clears every comparison flag, for an objective with `run_count` runs.
    pub fn reset_compare_second(&mut self, run_count: usize)
        ensures
            final(self).compare_second@.len() == run_count,
            forall|i: int| 0 <= i < run_count ==> !final(self).compare_second@[i],
            final(self).objective == old(self).objective,
            final(self).bottom_range == old(self).bottom_range,
            final(self).compare_first == old(self).compare_first,
            final(self).show_split_times == old(self).show_split_times,
            final(self).compare_all == old(self).compare_all,
            final(self).merge_splits_string == old(self).merge_splits_string,
    {
        self.compare_second = all_false(run_count);
    }

    /// Turns comparing all runs on or off, for an objective with
    /// `run_count` runs. On: every run but the first is compared with the
    /// first (if there is a run). Off: nothing is compared.
    pub fn set_compare_all(&mut self, compare_all: bool, run_count: usize)
        ensures
            final(self).compare_all == compare_all,
            final(self).compare_second@.len() == old(self).compare_second@.len(),
            forall|i: int|
                0 <= i < final(self).compare_second@.len() ==> #[trigger] final(self).compare_second@[i] == (
                compare_all && i != 0),
            final(self).compare_first == if compare_all && run_count > 0 {
                Some(0usize)
            } else {
                None
            },
            final(self).objective == old(self).objective,
            final(self).bottom_range == old(self).bottom_range,
            final(self).show_split_times == old(self).show_split_times,
            final(self).merge_splits_string == old(self).merge_splits_string,
    {
        self.compare_all = compare_all;
        let n = self.compare_second.len();
        let mut i: usize = 0;
        while i < n
            invariant
                n == self.compare_second@.len(),
                n == old(self).compare_second@.len(),
                i <= n,
                self.compare_all == compare_all,
                self.objective == old(self).objective,
                self.bottom_range == old(self).bottom_range,
                self.show_split_times == old(self).show_split_times,
                self.merge_splits_string == old(self).merge_splits_string,
                forall|j: int| 0 <= j < i ==> #[trigger] self.compare_second@[j] == (compare_all && j != 0),
            decreases n - i,
        {
            self.compare_second.set(i, compare_all && i != 0);
            i += 1;
        }
        self.compare_first = if compare_all && run_count > 0 {
            Some(0)
        } else {
            None
        };
    }

    /// Shows the splits from one place earlier, if not at the first.
    pub fn page_back(&mut self)
        ensures
            final(self).bottom_range == if old(self).bottom_range > 0 {
                old(self).bottom_range - 1
            } else {
                0
            },
            final(self).objective == old(self).objective,
            final(self).compare_first == old(self).compare_first,
            final(self).compare_second == old(self).compare_second,
            final(self).show_split_times == old(self).show_split_times,
            final(self).compare_all == old(self).compare_all,
            final(self).merge_splits_string == old(self).merge_splits_string,
    {
        if self.bottom_range > 0 {
            self.bottom_range = self.bottom_range - 1;
        }
    }

    /// Shows the splits from one place later, up to the last of the
    /// `split_count` splits.
    pub fn page_forward(&mut self, split_count: usize)
        requires
            split_count >= 1,
            old(self).bottom_range < usize::MAX,
        ensures
            final(self).bottom_range == if old(self).bottom_range + 1 <= split_count - 1 {
                old(self).bottom_range + 1
            } else {
                split_count - 1
            },
            final(self).objective == old(self).objective,
            final(self).compare_first == old(self).compare_first,
            final(self).compare_second == old(self).compare_second,
            final(self).show_split_times == old(self).show_split_times,
            final(self).compare_all == old(self).compare_all,
            final(self).merge_splits_string == old(self).merge_splits_string,
    {
        let next = self.bottom_range + 1;
        self.bottom_range = if next <= split_count - 1 {
            next
        } else {
            split_count - 1
        };
    }

    /// Takes what the user asked of the row `row`: whether it becomes the
    /// run the others are compared with (or stops being it), and whether it
    /// is compared. A row chosen as the one compared with stops being
    /// compared; if it was compared, the run it replaces becomes compared.
    pub fn apply_compare(&mut self, row: usize, first: Option<bool>, second: Option<bool>)
        requires
            row < old(self).compare_second@.len(),
            first is Some && old(self).compare_second@[row as int] ==> (old(self).compare_first matches Some(v)
                ==> v < old(self).compare_second@.len()),
        ensures
            final(self).compare_first == match first {
                Some(true) => Some(row),
                Some(false) => None,
                None => old(self).compare_first,
            },
            final(self).compare_second@ == ({
                let s1 = match first {
                    Some(_) => {
                        let s0 = if old(self).compare_second@[row as int] {
                            match old(self).compare_first {
                                Some(v) => old(self).compare_second@.update(v as int, true),
                                None => old(self).compare_second@,
                            }
                        } else {
                            old(self).compare_second@
                        };
                        s0.update(row as int, false)
                    },
                    None => old(self).compare_second@,
                };
                match second {
                    Some(b) => s1.update(row as int, b),
                    None => s1,
                }
            }),
            final(self).objective == old(self).objective,
            final(self).bottom_range == old(self).bottom_range,
            final(self).show_split_times == old(self).show_split_times,
            final(self).compare_all == old(self).compare_all,
            final(self).merge_splits_string == old(self).merge_splits_string,
    {
        match first {
            Some(val) => {
                let copy = self.compare_first;
                self.compare_first = if val {
                    Some(row)
                } else {
                    None
                };
                if self.compare_second[row] {
                    match copy {
                        Some(v) => self.compare_second.set(v, true),
                        None => {},
                    }
                }
                self.compare_second.set(row, false);
            },
            None => {},
        }
        match second {
            Some(b) => self.compare_second.set(row, b),
            None => {},
        }
    }
}

/// Which optional part of an objective a flag sets.
#[derive(Clone, Copy, Debug, PartialEq, Eq, Structural)]
pub enum ObjectiveFlag {
    Secondary,
    Overload,
    Glitched,
    EarlyDrop,
}

/// `o` with the optional part `flag` set to `value`.
pub open spec fn with_flag(o: RunObjective, flag: ObjectiveFlag, value: bool) -> RunObjective {
    match flag {
        ObjectiveFlag::Secondary => RunObjective { secondary: value, ..o },
        ObjectiveFlag::Overload => RunObjective { overload: value, ..o },
        ObjectiveFlag::Glitched => RunObjective { glitched: value, ..o },
        ObjectiveFlag::EarlyDrop => RunObjective { early_drop: value, ..o },
    }
}

/// Setting a flag on an objective sets that flag to the value given and
/// leaves the level, the player count and every other flag as they were.
pub proof fn lemma_with_flag_sets_only_it(o: RunObjective, flag: ObjectiveFlag, value: bool)
    ensures
        with_flag(o, flag, value).level_name == o.level_name,
        with_flag(o, flag, value).player_count == o.player_count,
        with_flag(o, flag, value).secondary == if flag == ObjectiveFlag::Secondary { value } else { o.secondary },
        with_flag(o, flag, value).overload == if flag == ObjectiveFlag::Overload { value } else { o.overload },
        with_flag(o, flag, value).glitched == if flag == ObjectiveFlag::Glitched { value } else { o.glitched },
        with_flag(o, flag, value).early_drop == if flag == ObjectiveFlag::EarlyDrop { value } else { o.early_drop },
{
}

/// The log parser's list of freshly parsed runs and its "set all" flags.
#[derive(Debug)]
pub struct LogParserWindow {
    pub timed_runs: Vec<LevelRun>,
    pub set_all_secondary: bool,
    pub set_all_overload: bool,
    pub set_all_glitched: bool,
    pub set_all_early_drop: bool,
    pub player_count_input: String,
}

impl LogParserWindow {
    /// A window listing `runs`, with every "set all" flag off and the
    /// player count typed as "0".
    pub fn new(runs: Vec<LevelRun>) -> (w: LogParserWindow)
        ensures
            w.timed_runs@ == runs@,
            !w.set_all_secondary,
            !w.set_all_overload,
            !w.set_all_glitched,
            !w.set_all_early_drop,
            w.player_count_input@ == "0"@,
    {
        LogParserWindow {
            timed_runs: runs,
            set_all_secondary: false,
            set_all_overload: false,
            set_all_glitched: false,
            set_all_early_drop: false,
            player_count_input: String::from_str("0"),
        }
    }

    /// Lists `times` in place of the runs listed.
    pub fn set_times(&mut self, times: Vec<LevelRun>)
        ensures
            final(self).timed_runs@ == times@,
            final(self).set_all_secondary == old(self).set_all_secondary,
            final(self).set_all_overload == old(self).set_all_overload,
            final(self).set_all_glitched == old(self).set_all_glitched,
            final(self).set_all_early_drop == old(self).set_all_early_drop,
            final(self).player_count_input == old(self).player_count_input,
    {
        self.timed_runs = times;
    }

    /// Sets the "set all" flag `flag` to `value` and that part of the
    /// objective of every listed run with it.
    pub fn set_all(&mut self, flag: ObjectiveFlag, value: bool)
        ensures
            final(self).timed_runs@.len() == old(self).timed_runs@.len(),
            forall|k: int|
                0 <= k < final(self).timed_runs@.len() ==> {
                    &&& (#[trigger] final(self).timed_runs@[k]).spec_objective() == with_flag(
                        old(self).timed_runs@[k].spec_objective(),
                        flag,
                        value,
                    )
                    &&& final(self).timed_runs@[k].spec_win() == old(self).timed_runs@[k].spec_win()
                    &&& final(self).timed_runs@[k].spec_splits() == old(self).timed_runs@[k].spec_splits()
                    &&& final(self).timed_runs@[k].spec_time() == old(self).timed_runs@[k].spec_time()
                },
            forall|k: int|
                0 <= k < final(self).timed_runs@.len() ==> {
                    let n = (#[trigger] final(self).timed_runs@[k]).spec_objective();
                    let o = old(self).timed_runs@[k].spec_objective();
                    &&& n.level_name == o.level_name
                    &&& n.player_count == o.player_count
                    &&& n.secondary == if flag == ObjectiveFlag::Secondary { value } else { o.secondary }
                    &&& n.overload == if flag == ObjectiveFlag::Overload { value } else { o.overload }
                    &&& n.glitched == if flag == ObjectiveFlag::Glitched { value } else { o.glitched }
                    &&& n.early_drop == if flag == ObjectiveFlag::EarlyDrop { value } else { o.early_drop }
                },
            final(self).set_all_secondary == if flag == ObjectiveFlag::Secondary {
                value
            } else {
                old(self).set_all_secondary
            },
            final(self).set_all_overload == if flag == ObjectiveFlag::Overload {
                value
            } else {
                old(self).set_all_overload
            },
            final(self).set_all_glitched == if flag == ObjectiveFlag::Glitched {
                value
            } else {
                old(self).set_all_glitched
            },
            final(self).set_all_early_drop == if flag == ObjectiveFlag::EarlyDrop {
                value
            } else {
                old(self).set_all_early_drop
            },
            final(self).player_count_input == old(self).player_count_input,
    {
        match flag {
            ObjectiveFlag::Secondary => self.set_all_secondary = value,
            ObjectiveFlag::Overload => self.set_all_overload = value,
            ObjectiveFlag::Glitched => self.set_all_glitched = value,
            ObjectiveFlag::EarlyDrop => self.set_all_early_drop = value,
        }
        let n = self.timed_runs.len();
        let mut i: usize = 0;
        while i < n
            invariant
                n == self.timed_runs@.len(),
                n == old(self).timed_runs@.len(),
                i <= n,
                self.set_all_secondary == if flag == ObjectiveFlag::Secondary {
                    value
                } else {
                    old(self).set_all_secondary
                },
                self.set_all_overload == if flag == ObjectiveFlag::Overload {
                    value
                } else {
                    old(self).set_all_overload
                },
                self.set_all_glitched == if flag == ObjectiveFlag::Glitched {
                    value
                } else {
                    old(self).set_all_glitched
                },
                self.set_all_early_drop == if flag == ObjectiveFlag::EarlyDrop {
                    value
                } else {
                    old(self).set_all_early_drop
                },
                self.player_count_input == old(self).player_count_input,
                forall|k: int|
                    0 <= k < n ==> {
                        &&& (#[trigger] self.timed_runs@[k]).spec_objective() == if k < i {
                            with_flag(old(self).timed_runs@[k].spec_objective(), flag, value)
                        } else {
                            old(self).timed_runs@[k].spec_objective()
                        }
                        &&& self.timed_runs@[k].spec_win() == old(self).timed_runs@[k].spec_win()
                        &&& self.timed_runs@[k].spec_splits() == old(self).timed_runs@[k].spec_splits()
                        &&& self.timed_runs@[k].spec_time() == old(self).timed_runs@[k].spec_time()
                    },
            decreases n - i,
        {
            let ghost before = self.timed_runs@;
            let mut run = self.timed_runs.remove(i);
            let o = run.get_objective().clone();
            let o2 = match flag {
                ObjectiveFlag::Secondary => o.with_secondary(value),
                ObjectiveFlag::Overload => o.with_overload(value),
                ObjectiveFlag::Glitched => o.with_glitched(value),
                ObjectiveFlag::EarlyDrop => o.with_early_drop(value),
            };
            run.set_objective(o2);
            self.timed_runs.insert(i, run);
            proof {
                assert forall|k: int| 0 <= k < n && k != i implies #[trigger] self.timed_runs@[k] == before[k] by {}
            }
            i += 1;
        }
    }

    /// Takes the player count typed for a full game; gives the count it
    /// writes, if it writes one that fits in a byte.
    pub fn set_player_count_input(&mut self, typed: String) -> (r: Option<u8>)
        ensures
            final(self).player_count_input == typed,
            r == match crate::text::parse_usize_spec(typed@) {
                Some(n) => if n <= 255 {
                    Some(n as u8)
                } else {
                    None::<u8>
                },
                None => None::<u8>,
            },
            final(self).timed_runs == old(self).timed_runs,
            final(self).set_all_secondary == old(self).set_all_secondary,
            final(self).set_all_overload == old(self).set_all_overload,
            final(self).set_all_glitched == old(self).set_all_glitched,
            final(self).set_all_early_drop == old(self).set_all_early_drop,
    {
        let r = match crate::text::parse_usize(typed.as_str()) {
            Some(n) => if n <= 255 {
                Some(n as u8)
            } else {
                None
            },
            None => None,
        };
        self.player_count_input = typed;
        r
    }

    /// Sorts the listed runs stably by `key`.
    pub fn sort(&mut self, key: SortKey)
        ensures
            stably_sorted(key, old(self).timed_runs@, final(self).timed_runs@),
            final(self).set_all_secondary == old(self).set_all_secondary,
            final(self).set_all_overload == old(self).set_all_overload,
            final(self).set_all_glitched == old(self).set_all_glitched,
            final(self).set_all_early_drop == old(self).set_all_early_drop,
            final(self).player_count_input == old(self).player_count_input,
    {
        sort_runs(&mut self.timed_runs, key);
    }
}

/// A window whose list of runs the sorting buttons sort.
pub trait VisualSorterButtons {
    /// The list of runs to sort.
    fn get_vec(&mut self) -> &mut Vec<LevelRun>;
}

impl VisualSorterButtons for LogParserWindow {
    fn get_vec(&mut self) -> (r: &mut Vec<LevelRun>)
        ensures
            *r == old(self).timed_runs,
            final(self).timed_runs == *final(r),
            final(self).set_all_secondary == old(self).set_all_secondary,
            final(self).set_all_overload == old(self).set_all_overload,
            final(self).set_all_glitched == old(self).set_all_glitched,
            final(self).set_all_early_drop == old(self).set_all_early_drop,
            final(self).player_count_input == old(self).player_count_input,
    {
        &mut self.timed_runs
    }
}

} // verus!
