//! Runs of a level: objectives, named splits and their times.
use vstd::prelude::*;

use crate::time::{sum_times, Time};

verus! {

/// A split of a run: a name and the time taken since the previous split.
#[derive(Debug)]
pub struct NamedSplit {
    pub name: String,
    pub time: Time,
}

impl Clone for NamedSplit {
    fn clone(&self) -> (r: Self)
        ensures
            r == *self,
    {
        NamedSplit { name: self.name.clone(), time: self.time }
    }
}

impl NamedSplit {
    /// A split named `name` that took `time`.
    pub fn new(time: Time, name: String) -> (r: NamedSplit)
        ensures
            r.time == time,
            r.name == name,
    {
        NamedSplit { name, time }
    }
}

/// The times of a sequence of splits.
pub open spec fn split_times(s: Seq<NamedSplit>) -> Seq<Time> {
    s.map_values(|ns: NamedSplit| ns.time)
}

/// The sum of the times of a sequence of splits.
pub open spec fn splits_total(s: Seq<NamedSplit>) -> nat {
    sum_times(split_times(s))
}

/// The objective of a level run: which level, with how many players, and
/// which optional parts were attempted.
#[derive(Debug)]
pub struct RunObjective {
    pub level_name: String,
    pub player_count: u8,
    pub secondary: bool,
    pub overload: bool,
    pub glitched: bool,
    pub early_drop: bool,
}

impl Clone for RunObjective {
    fn clone(&self) -> (r: Self)
        ensures
            r == *self,
    {
        RunObjective {
            level_name: self.level_name.clone(),
            player_count: self.player_count,
            secondary: self.secondary,
            overload: self.overload,
            glitched: self.glitched,
            early_drop: self.early_drop,
        }
    }
}

impl RunObjective {
    /// The plain objective of the level `name`: no player count and no
    /// optional part.
    pub fn from_name(name: String) -> (r: RunObjective)
        ensures
            r.level_name == name,
            r.player_count == 0,
            !r.secondary,
            !r.overload,
            !r.glitched,
            !r.early_drop,
    {
        RunObjective {
            level_name: name,
            player_count: 0,
            secondary: false,
            overload: false,
            glitched: false,
            early_drop: false,
        }
    }

    /// The same objective with the secondary flag set to `b`.
    pub fn with_secondary(self, b: bool) -> (r: RunObjective)
        ensures
            r == (RunObjective { secondary: b, ..self }),
    {
        RunObjective { secondary: b, ..self }
    }

    /// The same objective with the overload flag set to `b`.
    pub fn with_overload(self, b: bool) -> (r: RunObjective)
        ensures
            r == (RunObjective { overload: b, ..self }),
    {
        RunObjective { overload: b, ..self }
    }

    /// The same objective with the glitched flag set to `b`.
    pub fn with_glitched(self, b: bool) -> (r: RunObjective)
        ensures
            r == (RunObjective { glitched: b, ..self }),
    {
        RunObjective { glitched: b, ..self }
    }

    /// The same objective with the early-drop flag set to `b`.
    pub fn with_early_drop(self, b: bool) -> (r: RunObjective)
        ensures
            r == (RunObjective { early_drop: b, ..self }),
    {
        RunObjective { early_drop: b, ..self }
    }

    /// The same objective for `count` players.
    pub fn with_player_count(self, count: u8) -> (r: RunObjective)
        ensures
            r == (RunObjective { player_count: count, ..self }),
    {
        RunObjective { player_count: count, ..self }
    }

    /// The number of players.
    pub fn get_player_count(&self) -> (c: u8)
        ensures
            c == self.player_count,
    {
        self.player_count
    }
}

/// One run of a level: its objective, whether it was won, and its splits in
/// the order they were reached. Its time is the sum of its split times.
#[derive(Debug)]
pub struct LevelRun {
    objective: RunObjective,
    win: bool,
    splits: Vec<NamedSplit>,
    total: Time,
}

impl LevelRun {
    #[verifier::type_invariant]
    spec fn total_is_sum(self) -> bool {
        self.total.stamp == splits_total(self.splits@)
    }

    /// The run's objective.
    pub closed spec fn spec_objective(&self) -> RunObjective {
        self.objective
    }

    /// Whether the run was won.
    pub closed spec fn spec_win(&self) -> bool {
        self.win
    }

    /// The run's splits, in order.
    pub closed spec fn spec_splits(&self) -> Seq<NamedSplit> {
        self.splits@
    }

    /// The run's total time in milliseconds.
    pub closed spec fn spec_time(&self) -> nat {
        self.total.stamp as nat
    }

    /// The run's name: the name of its level.
    pub open spec fn spec_name(&self) -> Seq<char> {
        self.spec_objective().level_name@
    }

    /// A lost run of `objective` with no split yet.
    pub fn new(objective: RunObjective) -> (r: LevelRun)
        ensures
            r.spec_objective() == objective,
            !r.spec_win(),
            r.spec_splits() == Seq::<NamedSplit>::empty(),
            r.spec_time() == 0,
    {
        let r = LevelRun { objective, win: false, splits: Vec::new(), total: Time::new() };
        assert(split_times(r.splits@) =~= Seq::<Time>::empty());
        r
    }

    /// The run's objective.
    pub fn get_objective(&self) -> (o: &RunObjective)
        ensures
            *o == self.spec_objective(),
    {
        &self.objective
    }

    /// The run's name: the name of its level.
    pub fn get_name(&self) -> (n: &String)
        ensures
            n@ == self.spec_name(),
            *n == self.spec_objective().level_name,
    {
        &self.objective.level_name
    }

    /// Whether the run was won.
    pub fn is_win(&self) -> (b: bool)
        ensures
            b == self.spec_win(),
    {
        self.win
    }

    /// The run's total time.
    pub fn get_time(&self) -> (t: Time)
        ensures
            t.stamp == self.spec_time(),
            self.spec_time() == splits_total(self.spec_splits()),
            self.spec_time() <= u64::MAX,
    {
        proof {
            use_type_invariant(self);
        }
        self.total
    }

    /// The number of splits (stamps) of the run.
    pub fn len(&self) -> (n: usize)
        ensures
            n == self.spec_splits().len(),
    {
        self.splits.len()
    }

    /// The run's splits, in order.
    pub fn get_splits(&self) -> (s: &Vec<NamedSplit>)
        ensures
            s@ == self.spec_splits(),
    {
        &self.splits
    }

    /// Replaces the run's objective.
    pub fn set_objective(&mut self, objective: RunObjective)
        ensures
            final(self).spec_objective() == objective,
            final(self).spec_win() == old(self).spec_win(),
            final(self).spec_splits() == old(self).spec_splits(),
            final(self).spec_time() == old(self).spec_time(),
    {
        proof {
            use_type_invariant(&*self);
        }
        self.objective = objective;
    }

    /// Marks the run as won or lost.
    pub fn set_win(&mut self, win: bool)
        ensures
            final(self).spec_objective() == old(self).spec_objective(),
            final(self).spec_win() == win,
            final(self).spec_splits() == old(self).spec_splits(),
            final(self).spec_time() == old(self).spec_time(),
    {
        proof {
            use_type_invariant(&*self);
        }
        self.win = win;
    }

    /// Appends a split; the run's time grows by the split's time.
    pub fn add_split(&mut self, split: NamedSplit)
        requires
            old(self).spec_time() + split.time.stamp <= u64::MAX,
        ensures
            final(self).spec_objective() == old(self).spec_objective(),
            final(self).spec_win() == old(self).spec_win(),
            final(self).spec_splits() == old(self).spec_splits().push(split),
            final(self).spec_time() == old(self).spec_time() + split.time.stamp,
    {
        proof {
            use_type_invariant(&*self);
        }
        let new_total = self.total.add(split.time);
        let mut taken = LevelRun::new(RunObjective::from_name(String::new()));
        std::mem::swap(self, &mut taken);
        let LevelRun { objective, win, mut splits, total } = taken;
        let ghost old_splits = splits@;
        splits.push(split);
        proof {
            assert(split_times(splits@).drop_last() =~= split_times(old_splits));
        }
        *self = LevelRun { objective, win, splits, total: new_total };
    }

    /// The time of the first split named `name`, if the run has one.
    pub fn get_time_for_split(&self, name: &String) -> (t: Option<Time>)
        ensures
            t == (match first_split_named(self.spec_splits(), name@) {
                Some(i) => Some(self.spec_splits()[i].time),
                None => None,
            }),
    {
        match self.find_split(name) {
            Some(i) => Some(self.splits[i].time),
            None => None,
        }
    }

    /// The first split named `name`, if the run has one.
    pub fn get_split_by_name(&self, name: &String) -> (s: Option<&NamedSplit>)
        ensures
            s == (match first_split_named(self.spec_splits(), name@) {
                Some(i) => Some(&self.spec_splits()[i]),
                None => None,
            }),
    {
        match self.find_split(name) {
            Some(i) => Some(&self.splits[i]),
            None => None,
        }
    }

    fn find_split(&self, name: &String) -> (r: Option<usize>)
        ensures
            r matches Some(i) ==> first_split_named(self.spec_splits(), name@) == Some(i as int),
            r is None ==> first_split_named(self.spec_splits(), name@) is None,
            r matches Some(i) ==> i < self.spec_splits().len(),
    {
        find_split_named(&self.splits, name)
    }
}

/// The index of the first split of `s` named `name`, if any.
pub fn find_split_named(s: &Vec<NamedSplit>, name: &String) -> (r: Option<usize>)
    ensures
        r matches Some(i) ==> first_split_named(s@, name@) == Some(i as int) && i < s@.len(),
        r is None ==> first_split_named(s@, name@) is None,
{
    let mut i: usize = 0;
    while i < s.len()
        invariant
            i <= s@.len(),
            forall|j: int| 0 <= j < i ==> s@[j].name@ != name@,
        decreases s.len() - i,
    {
        if s[i].name == *name {
            proof {
                lemma_first_split_named(s@, name@, i as int);
            }
            return Some(i);
        }
        i += 1;
    }
    proof {
        lemma_first_split_named_none(s@, name@);
    }
    None
}

impl Clone for LevelRun {
    fn clone(&self) -> (r: Self)
        ensures
            r.spec_objective() == self.spec_objective(),
            r.spec_win() == self.spec_win(),
            r.spec_splits() == self.spec_splits(),
            r.spec_time() == self.spec_time(),
    {
        proof {
            use_type_invariant(self);
        }
        let mut splits: Vec<NamedSplit> = Vec::new();
        let mut i: usize = 0;
        while i < self.splits.len()
            invariant
                i <= self.splits@.len(),
                splits@ == self.splits@.take(i as int),
            decreases self.splits.len() - i,
        {
            splits.push(self.splits[i].clone());
            i += 1;
            assert(splits@ =~= self.splits@.take(i as int));
        }
        assert(self.splits@.take(i as int) =~= self.splits@);
        LevelRun {
            objective: self.objective.clone(),
            win: self.win,
            splits,
            total: self.total,
        }
    }
}

/// The index of the first split of `s` named `name`, if any.
pub open spec fn first_split_named(s: Seq<NamedSplit>, name: Seq<char>) -> Option<int> {
    if exists|i: int| 0 <= i < s.len() && s[i].name@ == name {
        Some(
            choose|i: int|
                0 <= i < s.len() && s[i].name@ == name && forall|j: int|
                    0 <= j < i ==> s[j].name@ != name,
        )
    } else {
        None
    }
}

proof fn lemma_first_split_named(s: Seq<NamedSplit>, name: Seq<char>, i: int)
    requires
        0 <= i < s.len(),
        s[i].name@ == name,
        forall|j: int| 0 <= j < i ==> s[j].name@ != name,
    ensures
        first_split_named(s, name) == Some(i),
{
    let k = choose|k: int|
        0 <= k < s.len() && s[k].name@ == name && forall|j: int| 0 <= j < k ==> s[j].name@ != name;
    assert(0 <= k < s.len() && s[k].name@ == name && forall|j: int| 0 <= j < k ==> s[j].name@ != name);
    if k < i {
        assert(s[k].name@ != name);
    }
    if i < k {
        assert(s[i].name@ != name);
    }
}

proof fn lemma_first_split_named_none(s: Seq<NamedSplit>, name: Seq<char>)
    requires
        forall|j: int| 0 <= j < s.len() ==> s[j].name@ != name,
    ensures
        first_split_named(s, name) is None,
{
}

} // verus!

verus! {

/// The total of a prefix one longer adds the next split's time.
pub proof fn lemma_splits_total_take(s: Seq<NamedSplit>, i: int)
    requires
        0 <= i < s.len(),
    ensures
        splits_total(s.take(i + 1)) == splits_total(s.take(i)) + s[i].time.stamp,
{
    assert(split_times(s.take(i + 1)).drop_last() =~= split_times(s.take(i)));
}

/// The total of a prefix is at most the total of the whole.
pub proof fn lemma_splits_total_prefix(s: Seq<NamedSplit>, i: int)
    requires
        0 <= i <= s.len(),
    ensures
        splits_total(s.take(i)) <= splits_total(s),
{
    assert(split_times(s.take(i)) =~= split_times(s).take(i));
    crate::time::lemma_sum_times_prefix(split_times(s), i);
}

} // verus!

verus! {

/// A copy of a sequence of splits.
pub fn clone_splits(v: &Vec<NamedSplit>) -> (r: Vec<NamedSplit>)
    ensures
        r@ == v@,
{
    let mut r: Vec<NamedSplit> = Vec::new();
    let mut i: usize = 0;
    while i < v.len()
        invariant
            i <= v@.len(),
            r@ == v@.take(i as int),
        decreases v@.len() - i,
    {
        r.push(v[i].clone());
        i += 1;
        assert(r@ =~= v@.take(i as int));
    }
    assert(v@.take(i as int) =~= v@);
    r
}

} // verus!
