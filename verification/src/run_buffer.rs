//! The splitter that follows the run being read: each time it is shown the
//! splits the run gained since are added, a new run starts it over, and
//! only the last splits are kept.
use vstd::prelude::*;
use std::collections::VecDeque;

use crate::objective::{LevelObjectiveReader, ObjectiveReader};
use crate::run::{first_split_named, LevelRun, NamedSplit, RunObjective};
use crate::run_render::{
    compare_spec, compare_times, drop_front, drop_front_opt, overflow, req_bound, req_total, required_time, Comparison,
};
use crate::settings::{bool_or, length_or, SettingsWindow};
use crate::time::Time;

verus! {

/// What the saved runs say about the splits of one name: the best time of
/// the split it merges into (or of itself), and the splits that the merged
/// split stands for, if it is merged.
#[derive(Debug)]
pub struct SplitInfo {
    pub name: String,
    pub best_split: Option<Time>,
    pub required: Option<Vec<String>>,
}

/// The first place from `k` on in `infos` of the split name `name`.
pub open spec fn info_index(infos: Seq<SplitInfo>, name: Seq<char>, k: int) -> Option<int>
    decreases infos.len() - k,
{
    if k >= infos.len() {
        None
    } else if infos[k].name@ == name {
        Some(k)
    } else {
        info_index(infos, name, k + 1)
    }
}

/// The best time known for splits named `name`.
pub open spec fn info_best(infos: Seq<SplitInfo>, name: Seq<char>) -> Option<Time> {
    match info_index(infos, name, 0) {
        Some(i) => infos[i].best_split,
        None => None,
    }
}

/// The splits that a split named `name` stands for, if it is merged.
pub open spec fn info_required(infos: Seq<SplitInfo>, name: Seq<char>) -> Option<Seq<String>> {
    match info_index(infos, name, 0) {
        Some(i) => match infos[i].required {
            Some(v) => Some(v@),
            None => None,
        },
        None => None,
    }
}

/// The time of the first split named `name` of `run`; zero if it has none.
pub open spec fn time_for(run: LevelRun, name: Seq<char>) -> int {
    match first_split_named(run.spec_splits(), name) {
        Some(i) => run.spec_splits()[i].time.stamp as int,
        None => 0,
    }
}

/// The time to compare with the best time of split `s` of `run`: the sum of
/// the splits of `run` it stands for (nothing if one is missing), or its own.
pub open spec fn split_total(run: LevelRun, s: NamedSplit, infos: Seq<SplitInfo>) -> Option<nat> {
    match info_required(infos, s.name@) {
        Some(v) => req_total(run.spec_splits(), v),
        None => Some(s.time.stamp as nat),
    }
}

/// The splitter's shown state as plain values: the running totals listed,
/// the comparisons with the record run and with the best splits (if shown),
/// the running total and the record run's running total.
pub type BufferModel = (Seq<Time>, Option<Seq<Comparison>>, Option<Seq<Comparison>>, int, int);

/// The state after split `s` of `run` was taken from `p`: a `LOSS` split
/// is passed over; any other adds its time to the running total, which is
/// listed; with a record run, the record's running total grows by its time
/// for the split's name and the two are compared; the split's time is
/// compared with the best time of its name.
pub open spec fn step(
    p: BufferModel,
    s: NamedSplit,
    run: LevelRun,
    wr_run: Option<LevelRun>,
    infos: Seq<SplitInfo>,
) -> BufferModel {
    if s.name@ == "LOSS"@ {
        p
    } else {
        let t = p.3 + s.time.stamp;
        let wt = match (wr_run, p.1) {
            (Some(r), Some(_)) => p.4 + time_for(r, s.name@),
            _ => p.4,
        };
        let wr = match p.1 {
            Some(v) => Some(
                v.push(
                    match wr_run {
                        Some(_) => compare_spec(t as u64, wt as u64),
                        None => Comparison::Blank,
                    },
                ),
            ),
            None => None,
        };
        let best = match p.2 {
            Some(v) => Some(
                v.push(
                    match (info_best(infos, s.name@), split_total(run, s, infos)) {
                        (Some(b), Some(x)) => compare_spec(x as u64, b.stamp),
                        _ => Comparison::Blank,
                    },
                ),
            ),
            None => None,
        };
        (p.0.push(Time { stamp: t as u64 }), wr, best, t, wt)
    }
}

/// Whether taking split `s` of `run` from `p` keeps every time within 64
/// bits.
pub open spec fn step_fits(
    p: BufferModel,
    s: NamedSplit,
    run: LevelRun,
    wr_run: Option<LevelRun>,
    infos: Seq<SplitInfo>,
) -> bool {
    s.name@ != "LOSS"@ ==> {
        &&& p.3 + s.time.stamp <= u64::MAX
        &&& wr_run matches Some(r) ==> (p.1 is Some ==> p.4 + time_for(r, s.name@) <= u64::MAX)
        &&& info_required(infos, s.name@) matches Some(v) ==> req_bound(run.spec_splits(), v) <= u64::MAX
    }
}

/// The state after the splits `news` of `run` were taken in order from `m`.
pub open spec fn advance(
    m: BufferModel,
    news: Seq<NamedSplit>,
    run: LevelRun,
    wr_run: Option<LevelRun>,
    infos: Seq<SplitInfo>,
) -> BufferModel
    decreases news.len(),
{
    if news.len() == 0 {
        m
    } else {
        step(advance(m, news.drop_last(), run, wr_run, infos), news.last(), run, wr_run, infos)
    }
}

/// Whether taking the splits `news` from `m` keeps every time within 64
/// bits.
pub open spec fn advance_fits(
    m: BufferModel,
    news: Seq<NamedSplit>,
    run: LevelRun,
    wr_run: Option<LevelRun>,
    infos: Seq<SplitInfo>,
) -> bool
    decreases news.len(),
{
    if news.len() == 0 {
        0 <= m.3 <= u64::MAX && 0 <= m.4 <= u64::MAX
    } else {
        &&& advance_fits(m, news.drop_last(), run, wr_run, infos)
        &&& step_fits(advance(m, news.drop_last(), run, wr_run, infos), news.last(), run, wr_run, infos)
    }
}

/// The following splitter.
#[derive(Debug)]
pub struct RunRendererBuffer {
    pub split_labels: VecDeque<Time>,
    pub compared_wr: Option<VecDeque<Comparison>>,
    pub compared_best: Option<VecDeque<Comparison>>,
    pub objective: RunObjective,
    pub current_run_total: Time,
    pub wr_total: Time,
    /// How many splits are kept.
    pub max_length: usize,
    /// The number of the run followed, once one is.
    pub current_run_counter: Option<u64>,
    /// How many splits of the run followed were taken.
    pub splits_added_count: usize,
}

/// Whether `o` is the objective of no level: no name, no player count, no
/// optional part.
pub open spec fn blank_objective(o: RunObjective) -> bool {
    &&& o.level_name@ == Seq::<char>::empty()
    &&& o.player_count == 0
    &&& !o.secondary
    &&& !o.overload
    &&& !o.glitched
    &&& !o.early_drop
}

impl RunRendererBuffer {
    /// At most `max_length` splits are kept, and each comparison column
    /// shown has one entry per split kept.
    pub open spec fn wf(&self) -> bool {
        &&& aligned(self.model())
        &&& self.split_labels@.len() <= self.max_length
    }

    /// The shown state as plain values.
    pub open spec fn model(&self) -> BufferModel {
        (
            self.split_labels@,
            match self.compared_wr {
                Some(v) => Some(v@),
                None => None,
            },
            match self.compared_best {
                Some(v) => Some(v@),
                None => None,
            },
            self.current_run_total.stamp as int,
            self.wr_total.stamp as int,
        )
    }

    /// The shown state once started over: nothing listed, the comparisons
    /// kept on or off, both totals zero.
    pub open spec fn cleared(&self) -> BufferModel {
        (
            Seq::empty(),
            match self.compared_wr {
                Some(_) => Some(Seq::empty()),
                None => None,
            },
            match self.compared_best {
                Some(_) => Some(Seq::empty()),
                None => None,
            },
            0,
            0,
        )
    }

    /// The state that an update for run number `run_counter` starts from:
    /// the current one for the run followed, else a cleared one.
    pub open spec fn base(&self, run_counter: u64) -> BufferModel {
        if self.current_run_counter == Some(run_counter) {
            self.model()
        } else {
            self.cleared()
        }
    }

    /// The number of splits taken that an update for run number
    /// `run_counter` starts from.
    pub open spec fn base_count(&self, run_counter: u64) -> int {
        if self.current_run_counter == Some(run_counter) {
            self.splits_added_count as int
        } else {
            0
        }
    }

    /// The splits of `run` not taken yet.
    pub open spec fn news(&self, run_counter: u64, run: LevelRun) -> Seq<NamedSplit> {
        drop_front(run.spec_splits(), self.base_count(run_counter))
    }

    /// A splitter following no run, comparing with the record run and with
    /// the best splits as asked, keeping `max_length` splits.
    pub fn new(compare_record: bool, compare_best_splits: bool, max_length: usize) -> (r: RunRendererBuffer)
        ensures
            r.model() == r.cleared(),
            r.compared_wr is Some <==> compare_record,
            r.compared_best is Some <==> compare_best_splits,
            blank_objective(r.objective),
            r.max_length == max_length,
            r.current_run_counter is None,
            r.splits_added_count == 0,
            r.wf(),
    {
        let r = RunRendererBuffer {
            split_labels: VecDeque::new(),
            compared_wr: if compare_record {
                Some(VecDeque::new())
            } else {
                None
            },
            compared_best: if compare_best_splits {
                Some(VecDeque::new())
            } else {
                None
            },
            objective: RunObjective::from_name(String::new()),
            current_run_total: Time::new(),
            wr_total: Time::new(),
            max_length,
            current_run_counter: None,
            splits_added_count: 0,
        };
        r
    }

    /// A splitter following no run, set up as the settings say: whether to
    /// compare with the record run (`compare_record`) and with the best
    /// splits (`compare_best_splits`), off where missing, and how many
    /// splits to keep (`run_splitter_length`, zero where missing or
    /// negative).
    pub fn from_settings(settings: &SettingsWindow) -> (r: RunRendererBuffer)
        ensures
            r.model() == r.cleared(),
            r.compared_wr is Some <==> bool_or(*settings, "compare_record"@, false),
            r.compared_best is Some <==> bool_or(*settings, "compare_best_splits"@, false),
            r.max_length == length_or(*settings, "run_splitter_length"@),
            blank_objective(r.objective),
            r.current_run_counter is None,
            r.splits_added_count == 0,
            r.wf(),
    {
        let record = settings.get_def::<bool>("compare_record");
        let best = settings.get_def::<bool>("compare_best_splits");
        let length = settings.get_length("run_splitter_length");
        RunRendererBuffer::new(record, best, length)
    }

    /// Starts over: nothing listed, no objective, both totals zero, no split
    /// taken.
    pub fn reset(&mut self)
        ensures
            final(self).model() == old(self).cleared(),
            blank_objective(final(self).objective),
            final(self).splits_added_count == 0,
            final(self).wf(),
            final(self).max_length == old(self).max_length,
            final(self).current_run_counter == old(self).current_run_counter,
    {
        self.objective = RunObjective::from_name(String::new());
        self.split_labels = VecDeque::new();
        match &mut self.compared_wr {
            Some(v) => v.clear(),
            None => {},
        }
        match &mut self.compared_best {
            Some(v) => v.clear(),
            None => {},
        }
        self.current_run_total = Time::new();
        self.wr_total = Time::new();
        self.splits_added_count = 0;
    }
}

fn find_info(infos: &Vec<SplitInfo>, name: &String) -> (r: Option<usize>)
    ensures
        match r {
            Some(i) => info_index(infos@, name@, 0) == Some(i as int) && i < infos@.len(),
            None => info_index(infos@, name@, 0) is None,
        },
{
    let mut k: usize = 0;
    while k < infos.len()
        invariant
            k <= infos@.len(),
            info_index(infos@, name@, 0) == info_index(infos@, name@, k as int),
        decreases infos.len() - k,
    {
        if infos[k].name == *name {
            return Some(k);
        }
        k += 1;
    }
    None
}

fn wr_time_for(r: &LevelRun, name: &String) -> (t: Time)
    ensures
        t.stamp == time_for(*r, name@),
{
    match r.get_time_for_split(name) {
        Some(t) => t,
        None => Time::new(),
    }
}

fn is_loss(s: &NamedSplit) -> (b: bool)
    ensures
        b == (s.name@ == "LOSS"@),
{
    crate::text::same_text(s.name.as_str(), "LOSS")
}

impl RunRendererBuffer {
    fn take_split(
        &mut self,
        s: &NamedSplit,
        run: &LevelRun,
        wr_run: Option<&LevelRun>,
        infos: &Vec<SplitInfo>,
    )
        requires
            !(s.name@ == "LOSS"@),
            step_fits(old(self).model(), *s, *run, run_of(wr_run), infos@),
        ensures
            final(self).model() == step(old(self).model(), *s, *run, run_of(wr_run), infos@),
            final(self).objective == old(self).objective,
            final(self).max_length == old(self).max_length,
            final(self).current_run_counter == old(self).current_run_counter,
            final(self).splits_added_count == old(self).splits_added_count,
    {
        self.current_run_total = self.current_run_total.add(s.time);
        let total = self.current_run_total;
        self.split_labels.push_back(total);
        let info = find_info(infos, &s.name);
        match &mut self.compared_wr {
            Some(v) => {
                match wr_run {
                    Some(r) => {
                        let wt = wr_time_for(r, &s.name);
                        self.wr_total = self.wr_total.add(wt);
                        v.push_back(compare_times(total, self.wr_total));
                    },
                    None => v.push_back(Comparison::Blank),
                }
            },
            None => {},
        }
        let best = match info {
            Some(i) => infos[i].best_split,
            None => None,
        };
        let split_time = match info {
            Some(i) => match &infos[i].required {
                Some(names) => required_time(run.get_splits(), names),
                None => Some(s.time),
            },
            None => Some(s.time),
        };
        match &mut self.compared_best {
            Some(v) => {
                let c = match (best, split_time) {
                    (Some(b), Some(x)) => compare_times(x, b),
                    _ => Comparison::Blank,
                };
                v.push_back(c);
            },
            None => {},
        }
    }
}

/// An optional run behind a reference, as a value.
pub open spec fn run_of(r: Option<&LevelRun>) -> Option<LevelRun> {
    match r {
        Some(x) => Some(*x),
        None => None,
    }
}

/// Whether `new` is `old` after an update for run number `run_counter`,
/// read so far as `run`.
pub open spec fn updated(
    old: RunRendererBuffer,
    new: RunRendererBuffer,
    run_counter: u64,
    run: LevelRun,
    reader: Option<LevelObjectiveReader>,
    wr_run: Option<LevelRun>,
    infos: Seq<SplitInfo>,
) -> bool {
    let a = advance(old.base(run_counter), old.news(run_counter, run), run, wr_run, infos);
    let d = overflow(a.0.len() as int, old.max_length as int);
    &&& new.model() == (drop_front(a.0, d), drop_front_opt(a.1, d), drop_front_opt(a.2, d), a.3, a.4)
    &&& new.objective == match reader {
        Some(r) => r.override_spec(run.spec_objective()),
        None => run.spec_objective(),
    }
    &&& new.current_run_counter == Some(run_counter)
    &&& new.splits_added_count == old.base_count(run_counter) + old.news(run_counter, run).len()
    &&& new.max_length == old.max_length
}

proof fn lemma_step(
    m: BufferModel,
    news: Seq<NamedSplit>,
    k: int,
    run: LevelRun,
    wr_run: Option<LevelRun>,
    infos: Seq<SplitInfo>,
)
    requires
        0 <= k < news.len(),
    ensures
        advance(m, news.take(k + 1), run, wr_run, infos) == step(
            advance(m, news.take(k), run, wr_run, infos),
            news[k],
            run,
            wr_run,
            infos,
        ),
        advance_fits(m, news.take(k + 1), run, wr_run, infos) == (advance_fits(m, news.take(k), run, wr_run, infos)
            && step_fits(advance(m, news.take(k), run, wr_run, infos), news[k], run, wr_run, infos)),
{
    assert(news.take(k + 1).drop_last() =~= news.take(k));
}

proof fn lemma_fits_prefix(
    m: BufferModel,
    news: Seq<NamedSplit>,
    k: int,
    run: LevelRun,
    wr_run: Option<LevelRun>,
    infos: Seq<SplitInfo>,
)
    requires
        0 <= k <= news.len(),
        advance_fits(m, news, run, wr_run, infos),
    ensures
        advance_fits(m, news.take(k), run, wr_run, infos),
    decreases news.len() - k,
{
    if k < news.len() {
        assert(news.drop_last().take(k) =~= news.take(k));
        if k == news.len() - 1 {
            assert(news.take(k) =~= news.drop_last());
        } else {
            lemma_fits_prefix(m, news.drop_last(), k, run, wr_run, infos);
        }
    } else {
        assert(news.take(k) =~= news);
    }
}

proof fn lemma_fits_prefix_fails(
    m: BufferModel,
    news: Seq<NamedSplit>,
    k: int,
    run: LevelRun,
    wr_run: Option<LevelRun>,
    infos: Seq<SplitInfo>,
)
    requires
        0 <= k <= news.len(),
        !advance_fits(m, news.take(k), run, wr_run, infos),
    ensures
        !advance_fits(m, news, run, wr_run, infos),
{
    if advance_fits(m, news, run, wr_run, infos) {
        lemma_fits_prefix(m, news, k, run, wr_run, infos);
    }
}

/// The running totals after split `s` of `run` is taken from `p`, whose
/// totals are `total` and `wt`; `None` where one would pass 64 bits.
fn next_totals(
    total: u64,
    wt: u64,
    comparing: bool,
    s: &NamedSplit,
    run: &LevelRun,
    wr_run: Option<&LevelRun>,
    infos: &Vec<SplitInfo>,
    Ghost(p): Ghost<BufferModel>,
) -> (r: Option<(u64, u64)>)
    requires
        p.3 == total,
        p.4 == wt,
        (p.1 is Some) == comparing,
    ensures
        r is Some <==> step_fits(p, *s, *run, run_of(wr_run), infos@),
        r matches Some(x) ==> x.0 == step(p, *s, *run, run_of(wr_run), infos@).3 && x.1 == step(
            p,
            *s,
            *run,
            run_of(wr_run),
            infos@,
        ).4,
{
    if is_loss(s) {
        return Some((total, wt));
    }
    let t2 = match total.checked_add(s.time.stamp) {
        Some(x) => x,
        None => {
            return None;
        },
    };
    let mut w2 = wt;
    if comparing {
        match wr_run {
            Some(r) => {
                let t = wr_time_for(r, &s.name);
                match wt.checked_add(t.stamp) {
                    Some(x) => {
                        w2 = x;
                    },
                    None => {
                        return None;
                    },
                }
            },
            None => {},
        }
    }
    match find_info(infos, &s.name) {
        Some(j) => match &infos[j].required {
            Some(names) => {
                if crate::run_render::req_bound_checked(run.get_splits(), names).is_none() {
                    return None;
                }
            },
            None => {},
        },
        None => {},
    }
    Some((t2, w2))
}

impl RunRendererBuffer {
    /// Whether an update for run number `run_counter`, read so far as `run`,
    /// keeps every time within 64 bits, as `update` asks.
    pub fn update_fits(&self, run_counter: u64, run: &LevelRun, wr_run: Option<&LevelRun>, infos: &Vec<SplitInfo>) -> (b: bool)
        ensures
            b == advance_fits(self.base(run_counter), self.news(run_counter, *run), *run, run_of(wr_run), infos@),
    {
        let ghost base = self.base(run_counter);
        let ghost news = self.news(run_counter, *run);
        let ghost wr = run_of(wr_run);
        let same = match self.current_run_counter {
            Some(c) => c == run_counter,
            None => false,
        };
        let start: usize = if same {
            self.splits_added_count
        } else {
            0
        };
        let mut total: u64 = if same {
            self.current_run_total.stamp
        } else {
            0
        };
        let mut wt: u64 = if same {
            self.wr_total.stamp
        } else {
            0
        };
        let comparing = self.compared_wr.is_some();
        let splits = run.get_splits();
        let n = splits.len();
        proof {
            assert(news.take(0) =~= Seq::<NamedSplit>::empty());
        }
        if start >= n {
            proof {
                assert(news =~= Seq::<NamedSplit>::empty());
            }
            return true;
        }
        assert(news =~= splits@.skip(start as int));
        let mut i: usize = start;
        while i < n
            invariant
                start <= i <= n,
                n == splits@.len(),
                splits@ == run.spec_splits(),
                news == splits@.skip(start as int),
                comparing == base.1 is Some,
                base == self.base(run_counter),
                news == self.news(run_counter, *run),
                wr == run_of(wr_run),
                advance_fits(base, news.take(i - start), *run, wr, infos@),
                advance(base, news.take(i - start), *run, wr, infos@).3 == total,
                advance(base, news.take(i - start), *run, wr, infos@).4 == wt,
                (advance(base, news.take(i - start), *run, wr, infos@).1 is Some) == comparing,
            decreases n - i,
        {
            let s = &splits[i];
            let ghost k = i - start;
            let ghost p = advance(base, news.take(k), *run, wr, infos@);
            proof {
                assert(news[k] == *s);
                lemma_step(base, news, k, *run, wr, infos@);
            }
            match next_totals(total, wt, comparing, s, run, wr_run, infos, Ghost(p)) {
                Some((t2, w2)) => {
                    total = t2;
                    wt = w2;
                },
                None => {
                    proof {
                        lemma_fits_prefix_fails(base, news, k + 1, *run, wr, infos@);
                    }
                    return false;
                },
            }
            i += 1;
        }
        proof {
            assert(news.take(n - start) =~= news);
        }
        true
    }

    /// Follows run number `run_counter`, read so far as `run`: a run with
    /// another number starts the splitter over; the objective shown is the
    /// run's, as `reader` (if any) overrides it; the splits the run gained
    /// since the last update are taken (see [`advance`]) with `wr_run`, the
    /// record run of the objective, and `infos`; then only the last
    /// `max_length` splits are kept.
    pub fn update(
        &mut self,
        run_counter: u64,
        run: &LevelRun,
        reader: Option<&LevelObjectiveReader>,
        wr_run: Option<&LevelRun>,
        infos: &Vec<SplitInfo>,
    )
        requires
            advance_fits(old(self).base(run_counter), old(self).news(run_counter, *run), *run, run_of(wr_run), infos@),
        ensures
            updated(
                *old(self),
                *final(self),
                run_counter,
                *run,
                match reader {
                    Some(r) => Some(*r),
                    None => None,
                },
                run_of(wr_run),
                infos@,
            ),
            old(self).wf() ==> final(self).wf(),
    {
        let ghost base = old(self).base(run_counter);
        let ghost news = old(self).news(run_counter, *run);
        let ghost wr = run_of(wr_run);
        let same = match self.current_run_counter {
            Some(c) => c == run_counter,
            None => false,
        };
        if !same {
            self.reset();
            self.current_run_counter = Some(run_counter);
        }
        assert(self.model() == base);
        let obj = run.get_objective().clone();
        self.objective = match reader {
            Some(r) => r.override_obj(obj),
            None => obj,
        };
        let splits = run.get_splits();
        let n = splits.len();
        let start = self.splits_added_count;
        assert(start == old(self).base_count(run_counter));
        let begin: usize = if start < n {
            start
        } else {
            n
        };
        proof {
            assert(news.take(0) =~= Seq::<NamedSplit>::empty());
            assert(news =~= splits@.skip(begin as int));
        }
        let mut i: usize = begin;
        while i < n
            invariant
                begin <= i <= n,
                i < n ==> begin == start,
                n == splits@.len(),
                splits@ == run.spec_splits(),
                news == splits@.skip(begin as int),
                wr == run_of(wr_run),
                advance_fits(base, news, *run, wr, infos@),
                self.model() == advance(base, news.take(i - begin), *run, wr, infos@),
                self.splits_added_count == start + (i - begin),
                self.max_length == old(self).max_length,
                self.current_run_counter == Some(run_counter),
                self.objective == match reader {
                    Some(r) => r.override_spec(run.spec_objective()),
                    None => run.spec_objective(),
                },
            decreases n - i,
        {
            let s = &splits[i];
            let ghost k = i - begin;
            proof {
                assert(news[k] == *s);
                lemma_fits_prefix(base, news, k + 1, *run, wr, infos@);
                lemma_step(base, news, k, *run, wr, infos@);
            }
            if !is_loss(s) {
                self.take_split(s, run, wr_run, infos);
            }
            self.splits_added_count = self.splits_added_count + 1;
            i += 1;
        }
        proof {
            assert(news.take(n - begin) =~= news);
        }
        let ghost a = self.model();
        let ghost d0 = overflow(a.0.len() as int, self.max_length as int);
        let len0 = self.split_labels.len();
        let mut dropped: usize = 0;
        assert(drop_front(a.0, 0) =~= a.0);
        assert(a.1 matches Some(v) ==> drop_front(v, 0) =~= v);
        assert(a.2 matches Some(v) ==> drop_front(v, 0) =~= v);
        while self.split_labels.len() > self.max_length
            invariant
                0 <= dropped <= d0,
                d0 == overflow(a.0.len() as int, self.max_length as int),
                d0 <= len0,
                len0 == a.0.len(),
                self.model() == (
                    drop_front(a.0, dropped as int),
                    drop_front_opt(a.1, dropped as int),
                    drop_front_opt(a.2, dropped as int),
                    a.3,
                    a.4,
                ),
                self.splits_added_count == old(self).base_count(run_counter) + news.len(),
                self.max_length == old(self).max_length,
                self.current_run_counter == Some(run_counter),
                self.objective == match reader {
                    Some(r) => r.override_spec(run.spec_objective()),
                    None => run.spec_objective(),
                },
            decreases self.split_labels@.len(),
        {
            let _ = self.split_labels.pop_front();
            match &mut self.compared_wr {
                Some(v) => {
                    let _ = v.pop_front();
                },
                None => {},
            }
            match &mut self.compared_best {
                Some(v) => {
                    let _ = v.pop_front();
                },
                None => {},
            }
            proof {
                assert(drop_front(a.0, dropped as int).subrange(1, drop_front(a.0, dropped as int).len() as int)
                    =~= drop_front(a.0, dropped + 1));
                if let Some(v) = a.1 {
                    if dropped < v.len() {
                        assert(drop_front(v, dropped as int).subrange(1, drop_front(v, dropped as int).len() as int)
                            =~= drop_front(v, dropped + 1));
                    } else {
                        assert(drop_front(v, dropped + 1) =~= Seq::<Comparison>::empty());
                    }
                }
                if let Some(v) = a.2 {
                    if dropped < v.len() {
                        assert(drop_front(v, dropped as int).subrange(1, drop_front(v, dropped as int).len() as int)
                            =~= drop_front(v, dropped + 1));
                    } else {
                        assert(drop_front(v, dropped + 1) =~= Seq::<Comparison>::empty());
                    }
                }
            }
            dropped = dropped + 1;
        }
        proof {
            if old(self).wf() {
                lemma_update_bounded(
                    *old(self),
                    *self,
                    run_counter,
                    *run,
                    match reader {
                        Some(r) => Some(*r),
                        None => None,
                    },
                    run_of(wr_run),
                    infos@,
                );
            }
        }
    }
}

/// Whether the comparison columns, where shown, have one entry per split
/// listed.
pub open spec fn aligned(m: BufferModel) -> bool {
    &&& m.1 matches Some(v) ==> v.len() == m.0.len()
    &&& m.2 matches Some(v) ==> v.len() == m.0.len()
}

proof fn lemma_advance_aligned(
    m: BufferModel,
    news: Seq<NamedSplit>,
    run: LevelRun,
    wr_run: Option<LevelRun>,
    infos: Seq<SplitInfo>,
)
    requires
        aligned(m),
    ensures
        aligned(advance(m, news, run, wr_run, infos)),
    decreases news.len(),
{
    if news.len() > 0 {
        lemma_advance_aligned(m, news.drop_last(), run, wr_run, infos);
    }
}

/// An update keeps at most `max_length` splits listed, and keeps the
/// comparison columns in line with them.
pub proof fn lemma_update_bounded(
    old: RunRendererBuffer,
    new: RunRendererBuffer,
    run_counter: u64,
    run: LevelRun,
    reader: Option<LevelObjectiveReader>,
    wr_run: Option<LevelRun>,
    infos: Seq<SplitInfo>,
)
    requires
        aligned(old.model()),
        updated(old, new, run_counter, run, reader, wr_run, infos),
    ensures
        new.model().0.len() <= old.max_length,
        new.max_length == old.max_length,
        aligned(new.model()),
{
    let base = old.base(run_counter);
    lemma_advance_aligned(base, old.news(run_counter, run), run, wr_run, infos);
}

/// A second update for the same run, read the same, changes nothing: the
/// splits it would take were all taken by the first.
pub proof fn lemma_update_twice(
    old: RunRendererBuffer,
    mid: RunRendererBuffer,
    new: RunRendererBuffer,
    run_counter: u64,
    run: LevelRun,
    reader: Option<LevelObjectiveReader>,
    wr_run: Option<LevelRun>,
    infos: Seq<SplitInfo>,
)
    requires
        updated(old, mid, run_counter, run, reader, wr_run, infos),
        updated(mid, new, run_counter, run, reader, wr_run, infos),
    ensures
        new.model() == mid.model(),
        new.objective == mid.objective,
        new.current_run_counter == mid.current_run_counter,
        new.splits_added_count == mid.splits_added_count,
        new.max_length == mid.max_length,
{
    let news = mid.news(run_counter, run);
    assert(news =~= Seq::<NamedSplit>::empty());
    let m = mid.model();
    assert(drop_front(m.0, 0) =~= m.0);
    assert(m.1 matches Some(v) ==> drop_front(v, 0) =~= v);
    assert(m.2 matches Some(v) ==> drop_front(v, 0) =~= v);
}

} // verus!
