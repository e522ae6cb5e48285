//! The live splitter: the running total after each split, compared with the
//! saved record run and with the best time of each split.
use vstd::prelude::*;
use vstd::string::StringExecFns;
use std::collections::VecDeque;

use crate::objective::{ObjectiveReader, UpdateObjective};
use crate::run::{find_split_named, first_split_named, NamedSplit, RunObjective};
use crate::settings::{bool_or, length_or, SettingsWindow};
use crate::time::Time;

verus! {

/// How a time compares with the time it is measured against.
#[derive(Clone, Copy, Debug, PartialEq, Eq, Structural)]
pub enum Comparison {
    /// Faster, by the given margin.
    Ahead(Time),
    /// Exactly as fast.
    Even,
    /// Slower, by the given margin.
    Behind(Time),
    /// Nothing to compare with.
    Blank,
}

/// How `t` compares with `c`.
pub open spec fn compare_spec(t: u64, c: u64) -> Comparison {
    if t < c {
        Comparison::Ahead(Time { stamp: (c - t) as u64 })
    } else if t == c {
        Comparison::Even
    } else {
        Comparison::Behind(Time { stamp: (t - c) as u64 })
    }
}

/// Comparing the other way round swaps ahead and behind by the same
/// margin; even stays even.
pub proof fn lemma_compare_mirror(t: u64, c: u64)
    ensures
        compare_spec(t, c) matches Comparison::Ahead(d) ==> compare_spec(c, t) == Comparison::Behind(d),
        compare_spec(t, c) matches Comparison::Behind(d) ==> compare_spec(c, t) == Comparison::Ahead(d),
        compare_spec(t, c) == Comparison::Even <==> t == c,
        compare_spec(t, c) != Comparison::Blank,
{
}

/// How `t` compares with `c`.
pub fn compare_times(t: Time, c: Time) -> (r: Comparison)
    ensures
        r == compare_spec(t.stamp, c.stamp),
{
    if t.stamp < c.stamp {
        Comparison::Ahead(c.sub(t))
    } else if t.stamp == c.stamp {
        Comparison::Even
    } else {
        Comparison::Behind(t.sub(c))
    }
}

/// The sum of the times of the splits named `names` in `buf` (the first
/// split of each name), or nothing if one of them is missing.
pub open spec fn req_total(buf: Seq<NamedSplit>, names: Seq<String>) -> Option<nat>
    decreases names.len(),
{
    if names.len() == 0 {
        Some(0)
    } else {
        match (req_total(buf, names.drop_last()), first_split_named(buf, names.last()@)) {
            (Some(a), Some(i)) => Some(a + buf[i].time.stamp as nat),
            _ => None,
        }
    }
}

/// The sum of the times of those splits named `names` that `buf` has.
pub open spec fn req_bound(buf: Seq<NamedSplit>, names: Seq<String>) -> nat
    decreases names.len(),
{
    if names.len() == 0 {
        0
    } else {
        req_bound(buf, names.drop_last()) + match first_split_named(buf, names.last()@) {
            Some(i) => buf[i].time.stamp as nat,
            None => 0nat,
        }
    }
}

/// `v` without its first `d` items (all of them if it has fewer).
pub open spec fn drop_front<T>(v: Seq<T>, d: int) -> Seq<T> {
    if d <= v.len() {
        v.skip(d)
    } else {
        Seq::empty()
    }
}

/// How many splits are dropped from the front to keep `max` of `len`.
pub open spec fn overflow(len: int, max: int) -> int {
    if len > max {
        len - max
    } else {
        0
    }
}

/// An optional list without its first `d` items.
pub open spec fn drop_front_opt<T>(v: Option<Seq<T>>, d: int) -> Option<Seq<T>> {
    match v {
        Some(s) => Some(drop_front(s, d)),
        None => None,
    }
}

/// What the saved runs say about one split of an objective.
#[derive(Debug)]
pub struct SplitRecord {
    /// The record run's time for this split, if there is a record run that
    /// has this split.
    pub best_run_split: Option<Time>,
    /// The splits this split stands for when splits are merged, if any.
    pub required_splits: Option<Vec<String>>,
    /// The best time ever done for this split (merged splits included).
    pub best_split: Option<Time>,
}

impl SplitRecord {
    /// The names of the splits whose times make up the split `split`.
    pub open spec fn names_for(self, split: NamedSplit) -> Seq<String> {
        match self.required_splits {
            Some(v) => v@,
            None => seq![split.name],
        }
    }
}

/// The live splitter of one run.
#[derive(Debug)]
pub struct RunRender {
    /// The running total after each split.
    pub split_labels: VecDeque<Time>,
    /// The running total against the record run's, if compared.
    pub compared_wr: Option<VecDeque<Comparison>>,
    /// Each split's time against its best time, if compared.
    pub compared_best: Option<VecDeque<Comparison>>,
    pub objective: RunObjective,
    pub total_time: Time,
    pub wr_compared_time: Time,
    pub run_buffer: Vec<NamedSplit>,
    /// How many splits are shown at most; the oldest go first.
    pub max_length: usize,
}

/// A comparison column as plain values.
pub open spec fn column(c: Option<VecDeque<Comparison>>) -> Option<Seq<Comparison>> {
    match c {
        Some(v) => Some(v@),
        None => None,
    }
}

impl RunRender {
    /// At most `max_length` splits are shown, and each comparison column
    /// shown has one entry per split shown.
    pub open spec fn shown_ok(&self) -> bool {
        &&& self.split_labels@.len() <= self.max_length
        &&& self.compared_wr matches Some(v) ==> v@.len() == self.split_labels@.len()
        &&& self.compared_best matches Some(v) ==> v@.len() == self.split_labels@.len()
    }

    /// An empty splitter for `objective`, comparing with the record run
    /// and with the best splits as asked, showing at most `max_length`
    /// splits.
    pub fn new(objective: RunObjective, compare_record: bool, compare_best_splits: bool, max_length: usize) -> (r: RunRender)
        ensures
            r.split_labels@.len() == 0,
            r.max_length == max_length,
            r.shown_ok(),
            compare_record <==> r.compared_wr is Some,
            compare_best_splits <==> r.compared_best is Some,
            r.compared_wr matches Some(v) ==> v@.len() == 0,
            r.compared_best matches Some(v) ==> v@.len() == 0,
            r.objective == objective,
            r.total_time.stamp == 0,
            r.wr_compared_time.stamp == 0,
            r.run_buffer@.len() == 0,
    {
        RunRender {
            split_labels: VecDeque::new(),
            compared_wr: if compare_record { Some(VecDeque::new()) } else { None },
            compared_best: if compare_best_splits { Some(VecDeque::new()) } else { None },
            objective,
            total_time: Time::new(),
            wr_compared_time: Time::new(),
            run_buffer: Vec::new(),
            max_length,
        }
    }

    /// Drops the oldest splits shown, with their comparisons, until at
    /// most `max_length` are shown.
    fn trim(&mut self)
        ensures
            final(self).split_labels@ == drop_front(
                old(self).split_labels@,
                overflow(old(self).split_labels@.len() as int, old(self).max_length as int),
            ),
            column(final(self).compared_wr) == drop_front_opt(
                column(old(self).compared_wr),
                overflow(old(self).split_labels@.len() as int, old(self).max_length as int),
            ),
            column(final(self).compared_best) == drop_front_opt(
                column(old(self).compared_best),
                overflow(old(self).split_labels@.len() as int, old(self).max_length as int),
            ),
            final(self).objective == old(self).objective,
            final(self).total_time == old(self).total_time,
            final(self).wr_compared_time == old(self).wr_compared_time,
            final(self).run_buffer == old(self).run_buffer,
            final(self).max_length == old(self).max_length,
    {
        let ghost l0 = self.split_labels@;
        let ghost w0 = column(self.compared_wr);
        let ghost b0 = column(self.compared_best);
        let ghost d0 = overflow(l0.len() as int, self.max_length as int);
        let len0 = self.split_labels.len();
        let mut dropped: usize = 0;
        assert(drop_front(l0, 0) =~= l0);
        assert(w0 matches Some(v) ==> drop_front(v, 0) =~= v);
        assert(b0 matches Some(v) ==> drop_front(v, 0) =~= v);
        while self.split_labels.len() > self.max_length
            invariant
                0 <= dropped <= d0,
                d0 == overflow(l0.len() as int, self.max_length as int),
                d0 <= len0,
                len0 == l0.len(),
                self.split_labels@ == drop_front(l0, dropped as int),
                column(self.compared_wr) == drop_front_opt(w0, dropped as int),
                column(self.compared_best) == drop_front_opt(b0, dropped as int),
                self.objective == old(self).objective,
                self.total_time == old(self).total_time,
                self.wr_compared_time == old(self).wr_compared_time,
                self.run_buffer == old(self).run_buffer,
                self.max_length == old(self).max_length,
            decreases self.split_labels@.len(),
        {
            let _ = self.split_labels.pop_front();
            match &mut self.compared_wr {
                Some(v) => {
                    let _ = v.pop_front();
                },
                None => {},
            }
            match &mut self.compared_best {
                Some(v) => {
                    let _ = v.pop_front();
                },
                None => {},
            }
            proof {
                assert(drop_front(l0, dropped as int).subrange(1, drop_front(l0, dropped as int).len() as int)
                    =~= drop_front(l0, dropped + 1));
                if let Some(v) = w0 {
                    if dropped < v.len() {
                        assert(drop_front(v, dropped as int).subrange(1, drop_front(v, dropped as int).len() as int)
                            =~= drop_front(v, dropped + 1));
                    } else {
                        assert(drop_front(v, dropped + 1) =~= Seq::<Comparison>::empty());
                    }
                }
                if let Some(v) = b0 {
                    if dropped < v.len() {
                        assert(drop_front(v, dropped as int).subrange(1, drop_front(v, dropped as int).len() as int)
                            =~= drop_front(v, dropped + 1));
                    } else {
                        assert(drop_front(v, dropped + 1) =~= Seq::<Comparison>::empty());
                    }
                }
            }
            dropped = dropped + 1;
        }
    }
}


/// The sum of the times of the splits named `names` in `buf`, or nothing if
/// one of them is missing.
pub(crate) fn required_time(buf: &Vec<NamedSplit>, names: &Vec<String>) -> (r: Option<Time>)
    requires
        req_bound(buf@, names@) <= u64::MAX,
    ensures
        match req_total(buf@, names@) {
            Some(t) => r matches Some(x) && x.stamp == t,
            None => r is None,
        },
{
    let mut acc = Time::new();
    let mut i: usize = 0;
    while i < names.len()
        invariant
            i <= names@.len(),
            req_bound(buf@, names@) <= u64::MAX,
            req_total(buf@, names@.take(i as int)) == Some(acc.stamp as nat),
            acc.stamp <= req_bound(buf@, names@.take(i as int)),
        decreases names@.len() - i,
    {
        let ghost pre = names@.take(i + 1);
        proof {
            assert(pre.drop_last() =~= names@.take(i as int));
            assert(pre.last() == names@[i as int]);
            lemma_req_bound_prefix(buf@, names@, i + 1);
        }
        match find_split_named(buf, &names[i]) {
            Some(k) => {
                assert(req_bound(buf@, pre) == req_bound(buf@, names@.take(i as int)) + buf@[k as int].time.stamp);
                assert(req_total(buf@, pre) == Some((acc.stamp + buf@[k as int].time.stamp) as nat));
                acc = acc.add(buf[k].time);
            },
            None => {
                proof {
                    lemma_req_total_none(buf@, names@, i + 1);
                }
                return None;
            },
        }
        i += 1;
    }
    assert(names@.take(i as int) =~= names@);
    Some(acc)
}

/// The sum of the times of those splits named `names` that `buf` has, if
/// it fits in 64 bits.
pub fn req_bound_checked(buf: &Vec<NamedSplit>, names: &Vec<String>) -> (r: Option<u64>)
    ensures
        match r {
            Some(x) => x == req_bound(buf@, names@),
            None => req_bound(buf@, names@) > u64::MAX,
        },
{
    let mut acc: u64 = 0;
    let mut i: usize = 0;
    while i < names.len()
        invariant
            i <= names@.len(),
            acc == req_bound(buf@, names@.take(i as int)),
        decreases names@.len() - i,
    {
        let ghost pre = names@.take(i + 1);
        proof {
            assert(pre.drop_last() =~= names@.take(i as int));
            assert(pre.last() == names@[i as int]);
        }
        match find_split_named(buf, &names[i]) {
            Some(k) => {
                match acc.checked_add(buf[k].time.stamp) {
                    Some(x) => {
                        acc = x;
                    },
                    None => {
                        proof {
                            lemma_req_bound_prefix(buf@, names@, i + 1);
                        }
                        return None;
                    },
                }
            },
            None => {},
        }
        i += 1;
    }
    assert(names@.take(i as int) =~= names@);
    Some(acc)
}

/// The bound over a prefix of the names is at most the bound over all.
pub proof fn lemma_req_bound_prefix(buf: Seq<NamedSplit>, names: Seq<String>, i: int)
    requires
        0 <= i <= names.len(),
    ensures
        req_bound(buf, names.take(i)) <= req_bound(buf, names),
    decreases names.len() - i,
{
    if i < names.len() {
        lemma_req_bound_prefix(buf, names, i + 1);
        assert(names.take(i + 1).drop_last() =~= names.take(i));
    } else {
        assert(names.take(i) =~= names);
    }
}

/// The sum of the named splits, where every one is there, is at most the
/// bound.
pub proof fn lemma_req_total_le_bound(buf: Seq<NamedSplit>, names: Seq<String>)
    ensures
        req_total(buf, names) matches Some(t) ==> t <= req_bound(buf, names),
    decreases names.len(),
{
    if names.len() > 0 {
        lemma_req_total_le_bound(buf, names.drop_last());
    }
}

/// Once a split is missing, the total stays missing.
pub proof fn lemma_req_total_none(buf: Seq<NamedSplit>, names: Seq<String>, i: int)
    requires
        0 <= i <= names.len(),
        req_total(buf, names.take(i)) is None,
    ensures
        req_total(buf, names) is None,
    decreases names.len() - i,
{
    if i < names.len() {
        assert(names.take(i + 1).drop_last() =~= names.take(i));
        lemma_req_total_none(buf, names, i + 1);
    } else {
        assert(names.take(i) =~= names);
    }
}

/// Whether `new` is `old` with the split `split` added, with `record`, what
/// the saved runs say about it: the running total grows by the split's time
/// and is listed; the record run's running total grows by its time for this
/// split, if it has one, and the two totals are compared; the split's time
/// (the sum of the splits it stands for) is compared with its best time;
/// then the oldest splits shown, with their comparisons, are dropped until at
/// most `max_length` are shown.
pub open spec fn split_added(old: RunRender, new: RunRender, split: NamedSplit, record: SplitRecord) -> bool {
    let d = overflow(old.split_labels@.len() + 1int, old.max_length as int);
    &&& new.objective == old.objective
    &&& new.max_length == old.max_length
    &&& new.total_time.stamp == old.total_time.stamp + split.time.stamp
    &&& new.run_buffer@ == old.run_buffer@.push(split)
    &&& new.split_labels@ == drop_front(old.split_labels@.push(new.total_time), d)
    &&& new.wr_compared_time.stamp == match record.best_run_split {
        Some(t) => old.wr_compared_time.stamp + t.stamp,
        None => old.wr_compared_time.stamp as int,
    }
    &&& old.compared_wr is None ==> new.compared_wr is None
    &&& old.compared_wr matches Some(v) ==> new.compared_wr matches Some(w) && w@ == drop_front(
        v@.push(
            match record.best_run_split {
                Some(_) => compare_spec(new.total_time.stamp, new.wr_compared_time.stamp),
                None => Comparison::Blank,
            },
        ),
        d,
    )
    &&& old.compared_best is None ==> new.compared_best is None
    &&& old.compared_best matches Some(v) ==> new.compared_best matches Some(w) && w@ == drop_front(
        v@.push(
            match (req_total(new.run_buffer@, record.names_for(split)), record.best_split) {
                (Some(t), Some(c)) => compare_spec(t as u64, c.stamp),
                _ => Comparison::Blank,
            },
        ),
        d,
    )
}

impl RunRender {
    /// Whether adding `split` with `record` stays within 64-bit times, as
    /// `add_split` asks.
    pub fn split_fits(&self, split: &NamedSplit, record: &SplitRecord) -> (b: bool)
        ensures
            b == (self.total_time.stamp + split.time.stamp <= u64::MAX && (record.best_run_split matches Some(t)
                ==> self.wr_compared_time.stamp + t.stamp <= u64::MAX) && req_bound(
                self.run_buffer@.push(*split),
                record.names_for(*split),
            ) <= u64::MAX),
    {
        let a = self.total_time.stamp.checked_add(split.time.stamp).is_some();
        let w = match record.best_run_split {
            Some(t) => self.wr_compared_time.stamp.checked_add(t.stamp).is_some(),
            None => true,
        };
        let mut buf = crate::run::clone_splits(&self.run_buffer);
        buf.push(split.clone());
        let names = match &record.required_splits {
            Some(v) => clone_names(v),
            None => {
                let mut v: Vec<String> = Vec::new();
                v.push(split.name.clone());
                assert(v@ =~= seq![split.name]);
                v
            },
        };
        let c = req_bound_checked(&buf, &names).is_some();
        a && w && c
    }

    /// Adds a split: the running total grows by its time and is listed; the
    /// record run's running total grows by its time for this split, if it
    /// has one, and the two totals are compared; the split's time (the sum
    /// of the splits it stands for) is compared with its best time. Then
    /// only the newest `max_length` splits stay shown.
    pub fn add_split(&mut self, split: &NamedSplit, record: &SplitRecord)
        requires
            old(self).total_time.stamp + split.time.stamp <= u64::MAX,
            record.best_run_split matches Some(t) ==> old(self).wr_compared_time.stamp + t.stamp <= u64::MAX,
            req_bound(old(self).run_buffer@.push(*split), record.names_for(*split)) <= u64::MAX,
        ensures
            split_added(*old(self), *final(self), *split, *record),
            final(self).split_labels@.len() <= final(self).max_length,
            old(self).shown_ok() ==> final(self).shown_ok(),
            old(self).total_time.stamp == crate::run::splits_total(old(self).run_buffer@)
                ==> final(self).total_time.stamp == crate::run::splits_total(final(self).run_buffer@),
    {
        self.total_time = self.total_time.add(split.time);
        let ghost buf_before = self.run_buffer@;
        self.run_buffer.push(split.clone());
        proof {
            assert(crate::run::split_times(self.run_buffer@).drop_last() =~= crate::run::split_times(buf_before));
        }
        let total = self.total_time;
        let wr_time = match record.best_run_split {
            Some(t) => {
                self.wr_compared_time = self.wr_compared_time.add(t);
                Some(self.wr_compared_time)
            },
            None => None,
        };
        let split_time = match &record.required_splits {
            Some(names) => required_time(&self.run_buffer, names),
            None => {
                let mut names: Vec<String> = Vec::new();
                names.push(split.name.clone());
                proof {
                    assert(names@ =~= seq![split.name]);
                }
                required_time(&self.run_buffer, &names)
            },
        };
        self.split_labels.push_back(total);
        match &mut self.compared_wr {
            Some(vd) => {
                let c = match wr_time {
                    Some(c_time) => compare_times(total, c_time),
                    None => Comparison::Blank,
                };
                vd.push_back(c);
            },
            None => {},
        }
        match &mut self.compared_best {
            Some(vd) => {
                let c = match (split_time, record.best_split) {
                    (Some(time), Some(c_time)) => compare_times(time, c_time),
                    _ => Comparison::Blank,
                };
                vd.push_back(c);
            },
            None => {},
        }
        self.trim();
    }

    /// The height the splitter takes on screen: one line per split and one
    /// for the objective, 22 each, and 6 for the separator.
    pub fn height(&self) -> (h: usize)
        requires
            (self.split_labels@.len() + 1) * 22 + 6 <= usize::MAX,
        ensures
            h == (self.split_labels@.len() + 1) * 22 + 6,
    {
        (self.split_labels.len() + 1) * 22 + 6
    }
}

} // verus!

verus! {

/// The live splitter of level runs, driven by what the log reader reports.
#[derive(Debug)]
pub struct LevelRunRenderer {
    pub run_render: RunRender,
    /// Splits to be shown again after the objective changed.
    pub run_buffer: Option<Vec<NamedSplit>>,
    /// Frames to wait before finished runs are saved.
    pub no_save_for_frames: usize,
    pub compare_record: bool,
    pub compare_best_splits: bool,
}

impl LevelRunRenderer {
    /// An empty splitter with no level yet, showing at most `max_length`
    /// splits, waiting five frames before it saves runs.
    pub fn new(compare_record: bool, compare_best_splits: bool, max_length: usize) -> (r: LevelRunRenderer)
        ensures
            r.run_render.split_labels@.len() == 0,
            r.run_render.max_length == max_length,
            r.run_render.shown_ok(),
            r.run_render.objective.level_name@ == Seq::<char>::empty(),
            r.run_render.compared_wr is Some <==> compare_record,
            r.run_render.compared_best is Some <==> compare_best_splits,
            r.run_buffer is None,
            r.no_save_for_frames == 5,
            r.compare_record == compare_record,
            r.compare_best_splits == compare_best_splits,
    {
        LevelRunRenderer {
            run_render: RunRender::new(
                RunObjective::from_name(String::new()),
                compare_record,
                compare_best_splits,
                max_length,
            ),
            run_buffer: None,
            no_save_for_frames: 5,
            compare_record,
            compare_best_splits,
        }
    }

    /// An empty splitter set up as the settings say: whether to compare
    /// with the record run (`compare_record`) and with the best splits
    /// (`compare_best_splits`), off where missing, and how many splits to
    /// show (`run_splitter_length`, zero where missing or negative).
    pub fn from_settings(settings: &SettingsWindow) -> (r: LevelRunRenderer)
        ensures
            r.compare_record == bool_or(*settings, "compare_record"@, false),
            r.compare_best_splits == bool_or(*settings, "compare_best_splits"@, false),
            r.run_render.max_length == length_or(*settings, "run_splitter_length"@),
            r.run_render.split_labels@.len() == 0,
            r.run_render.objective.level_name@ == Seq::<char>::empty(),
            r.run_render.compared_wr is Some <==> r.compare_record,
            r.run_render.compared_best is Some <==> r.compare_best_splits,
            r.run_render.shown_ok(),
            r.run_buffer is None,
            r.no_save_for_frames == 5,
    {
        let record = settings.get_def::<bool>("compare_record");
        let best = settings.get_def::<bool>("compare_best_splits");
        let length = settings.get_length("run_splitter_length");
        LevelRunRenderer::new(record, best, length)
    }

    /// Starts a frame: one frame less to wait before saving; splits waiting
    /// to be shown again are handed back, and the splitter starts over with
    /// the same objective so that they can be added anew.
    pub fn begin_frame(&mut self) -> (r: Option<Vec<NamedSplit>>)
        ensures
            final(self).no_save_for_frames == if old(self).no_save_for_frames == 0 { 0 } else {
                (old(self).no_save_for_frames - 1) as usize
            },
            final(self).run_buffer is None,
            final(self).compare_record == old(self).compare_record,
            final(self).compare_best_splits == old(self).compare_best_splits,
            final(self).run_render.max_length == old(self).run_render.max_length,
            old(self).run_render.shown_ok() ==> final(self).run_render.shown_ok(),
            match old(self).run_buffer {
                None => r is None && final(self).run_render == old(self).run_render,
                Some(b) => {
                    &&& r matches Some(v) && v@ == b@
                    &&& final(self).run_render.objective == old(self).run_render.objective
                    &&& final(self).run_render.split_labels@.len() == 0
                    &&& final(self).run_render.run_buffer@.len() == 0
                    &&& final(self).run_render.total_time.stamp == 0
                    &&& final(self).run_render.wr_compared_time.stamp == 0
                    &&& (final(self).run_render.compared_wr is Some <==> old(self).compare_record)
                    &&& (final(self).run_render.compared_best is Some <==> old(self).compare_best_splits)
                    &&& final(self).run_render.compared_wr matches Some(w) ==> w@.len() == 0
                    &&& final(self).run_render.compared_best matches Some(w) ==> w@.len() == 0
                },
            },
    {
        self.no_save_for_frames = self.no_save_for_frames.saturating_sub(1);
        match self.run_buffer.take() {
            Some(buffer) => {
                self.run_render = RunRender::new(
                    self.run_render.objective.clone(),
                    self.compare_record,
                    self.compare_best_splits,
                    self.run_render.max_length,
                );
                Some(buffer)
            },
            None => None,
        }
    }

    /// A level started: the splitter starts over for the level's objective
    /// with `player_count` players, as `reader` rewrites it.
    pub fn on_game_started<R: ObjectiveReader>(&mut self, level: String, player_count: u8, reader: &R)
        ensures
            final(self).run_render.objective == reader.override_spec(
                RunObjective {
                    level_name: level,
                    player_count,
                    secondary: false,
                    overload: false,
                    glitched: false,
                    early_drop: false,
                },
            ),
            final(self).run_render.split_labels@.len() == 0,
            final(self).run_render.max_length == old(self).run_render.max_length,
            final(self).run_render.shown_ok(),
            final(self).run_render.run_buffer@.len() == 0,
            final(self).run_render.total_time.stamp == 0,
            final(self).run_render.wr_compared_time.stamp == 0,
            final(self).run_render.compared_wr is Some <==> old(self).compare_record,
            final(self).run_render.compared_best is Some <==> old(self).compare_best_splits,
            final(self).run_buffer == old(self).run_buffer,
            final(self).no_save_for_frames == old(self).no_save_for_frames,
            final(self).compare_record == old(self).compare_record,
            final(self).compare_best_splits == old(self).compare_best_splits,
    {
        let obj = RunObjective::from_name(level).with_player_count(player_count);
        self.run_render = RunRender::new(
            reader.override_obj(obj),
            self.compare_record,
            self.compare_best_splits,
            self.run_render.max_length,
        );
    }

    /// A level run finished: its `WIN` split, if it has one, is added (with
    /// `win_record`, what the saved runs say about it) and the splitter takes
    /// the run's objective. Returns whether the run is to be saved: only once
    /// the first frames have passed.
    pub fn on_level_run(&mut self, level_run: &crate::run::LevelRun, win_record: &SplitRecord) -> (save: bool)
        requires
            ({
                let win = first_split_named(level_run.spec_splits(), "WIN"@);
                win matches Some(i) ==> {
                    let s = level_run.spec_splits()[i];
                    &&& old(self).run_render.total_time.stamp + s.time.stamp <= u64::MAX
                    &&& win_record.best_run_split matches Some(t) ==> old(self).run_render.wr_compared_time.stamp
                        + t.stamp <= u64::MAX
                    &&& req_bound(old(self).run_render.run_buffer@.push(s), win_record.names_for(s)) <= u64::MAX
                }
            }),
        ensures
            save == (old(self).no_save_for_frames == 0),
            old(self).run_render.shown_ok() ==> final(self).run_render.shown_ok(),
            final(self).run_buffer == old(self).run_buffer,
            final(self).no_save_for_frames == old(self).no_save_for_frames,
            final(self).compare_record == old(self).compare_record,
            final(self).compare_best_splits == old(self).compare_best_splits,
            match first_split_named(level_run.spec_splits(), "WIN"@) {
                None => final(self).run_render == old(self).run_render,
                Some(i) => split_added(
                    old(self).run_render,
                    RunRender { objective: old(self).run_render.objective, ..final(self).run_render },
                    level_run.spec_splits()[i],
                    *win_record,
                ) && final(self).run_render.objective == level_run.spec_objective(),
            },
    {
        let win = String::from_str("WIN");
        proof {
            reveal_strlit("WIN");
        }
        match level_run.get_split_by_name(&win) {
            Some(split) => {
                let split = NamedSplit::new(split.time, split.name.clone());
                self.run_render.add_split(&split, win_record);
                self.run_render.objective = level_run.get_objective().clone();
            },
            None => {},
        }
        self.no_save_for_frames == 0
    }
}

/// Whether `new` frames to wait are `old` one frame later: one fewer, but
/// never below zero.
pub open spec fn frame_passed(old: usize, new: usize) -> bool {
    new == if old == 0 {
        0
    } else {
        old - 1
    }
}

/// From the five frames a new splitter waits, after `waits.len() - 1`
/// frames (`waits[i]` being the frames left after `i` of them) the frames
/// left are five less that many, or zero: so no run is saved (see
/// `on_level_run`) during the first four frames.
pub proof fn lemma_no_save_in_first_frames(waits: Seq<usize>)
    requires
        waits.len() > 0,
        waits[0] == 5,
        forall|i: int| 0 <= i < waits.len() - 1 ==> frame_passed(#[trigger] waits[i], waits[i + 1]),
    ensures
        waits.last() == if waits.len() - 1 >= 5 {
            0
        } else {
            5 - (waits.len() - 1)
        },
        waits.len() - 1 < 5 ==> waits.last() > 0,
    decreases waits.len(),
{
    if waits.len() > 1 {
        let w0 = waits.drop_last();
        assert forall|i: int| 0 <= i < w0.len() - 1 implies frame_passed(#[trigger] w0[i], w0[i + 1]) by {
            assert(w0[i] == waits[i] && w0[i + 1] == waits[i + 1]);
        }
        lemma_no_save_in_first_frames(w0);
        assert(frame_passed(waits[waits.len() - 2], waits[waits.len() - 1]));
    }
}

impl UpdateObjective for LevelRunRenderer {
    /// Rewrites the objective with `reader` and keeps the splits so far, to
    /// be shown again at the next frame.
    fn update<R: ObjectiveReader>(&mut self, reader: &R)
        ensures
            final(self).run_render.objective == reader.override_spec(old(self).run_render.objective),
            final(self).run_render == (RunRender { objective: final(self).run_render.objective, ..old(self).run_render }),
            final(self).run_buffer matches Some(b) && b@ == old(self).run_render.run_buffer@,
            final(self).no_save_for_frames == old(self).no_save_for_frames,
            final(self).compare_record == old(self).compare_record,
            final(self).compare_best_splits == old(self).compare_best_splits,
    {
        self.run_buffer = Some(crate::run::clone_splits(&self.run_render.run_buffer));
        let objective = reader.override_obj(self.run_render.objective.clone());
        self.run_render.objective = objective;
    }
}

/// The split a whole level run stands for in the splitter of a full game:
/// named after the level, taking the run's time.
pub open spec fn run_as_split(run: crate::run::LevelRun) -> NamedSplit {
    NamedSplit { name: run.spec_objective().level_name, time: Time { stamp: run.spec_time() as u64 } }
}

/// The splitter of a full game: each level run finished is one split.
#[derive(Debug)]
pub struct GameRunRenderer {
    pub render: RunRender,
    /// The level runs of the game so far, in order.
    pub run_buffer: Vec<crate::run::LevelRun>,
    /// Frames to wait before the game is saved.
    pub no_save_for_frames: usize,
}

impl GameRunRenderer {
    /// An empty splitter for the game `objective`, showing at most
    /// `max_length` splits, waiting five frames before it saves.
    pub fn new(objective: RunObjective, compare_record: bool, compare_best_splits: bool, max_length: usize) -> (r:
        GameRunRenderer)
        ensures
            r.render.objective == objective,
            r.render.max_length == max_length,
            r.render.shown_ok(),
            r.render.split_labels@.len() == 0,
            r.render.run_buffer@.len() == 0,
            r.render.total_time.stamp == 0,
            r.render.compared_wr is Some <==> compare_record,
            r.render.compared_best is Some <==> compare_best_splits,
            r.run_buffer@.len() == 0,
            r.no_save_for_frames == 5,
    {
        GameRunRenderer {
            render: RunRender::new(objective, compare_record, compare_best_splits, max_length),
            run_buffer: Vec::new(),
            no_save_for_frames: 5,
        }
    }

    /// An empty splitter for the game `objective`, set up as the settings
    /// say: whether to compare with the record (`compare_record`) and with
    /// the best splits (`compare_best_splits`), off where missing, and how
    /// many splits to show (`game_splitter_length`, zero where missing or
    /// negative).
    pub fn from_settings(objective: RunObjective, settings: &SettingsWindow) -> (r: GameRunRenderer)
        ensures
            r.render.objective == objective,
            r.render.compared_wr is Some <==> bool_or(*settings, "compare_record"@, false),
            r.render.compared_best is Some <==> bool_or(*settings, "compare_best_splits"@, false),
            r.render.max_length == length_or(*settings, "game_splitter_length"@),
            r.render.split_labels@.len() == 0,
            r.render.run_buffer@.len() == 0,
            r.render.total_time.stamp == 0,
            r.render.shown_ok(),
            r.run_buffer@.len() == 0,
            r.no_save_for_frames == 5,
    {
        let record = settings.get_def::<bool>("compare_record");
        let best = settings.get_def::<bool>("compare_best_splits");
        let length = settings.get_length("game_splitter_length");
        GameRunRenderer::new(objective, record, best, length)
    }

    /// Starts a frame: one frame less to wait before saving.
    pub fn begin_frame(&mut self)
        ensures
            final(self).no_save_for_frames == if old(self).no_save_for_frames == 0 { 0 } else {
                (old(self).no_save_for_frames - 1) as usize
            },
            final(self).render == old(self).render,
            final(self).run_buffer == old(self).run_buffer,
    {
        self.no_save_for_frames = self.no_save_for_frames.saturating_sub(1);
    }

    /// A level run of the game finished: it is added as one split (with
    /// `record`, what the saved games say about it) and kept.
    pub fn on_level_run(&mut self, run: crate::run::LevelRun, record: &SplitRecord)
        requires
            old(self).render.total_time.stamp + run.spec_time() <= u64::MAX,
            record.best_run_split matches Some(t) ==> old(self).render.wr_compared_time.stamp + t.stamp <= u64::MAX,
            req_bound(old(self).render.run_buffer@.push(run_as_split(run)), record.names_for(run_as_split(run)))
                <= u64::MAX,
        ensures
            final(self).run_buffer@ == old(self).run_buffer@.push(run),
            final(self).no_save_for_frames == old(self).no_save_for_frames,
            split_added(old(self).render, final(self).render, run_as_split(run), *record),
            old(self).render.shown_ok() ==> final(self).render.shown_ok(),
    {
        let split = NamedSplit::new(run.get_time(), run.get_name().clone());
        assert(split == run_as_split(run));
        self.render.add_split(&split, record);
        self.run_buffer.push(run);
    }
}

fn clone_names(v: &Vec<String>) -> (r: Vec<String>)
    ensures
        r@ == v@,
{
    let mut r: Vec<String> = Vec::new();
    let mut i: usize = 0;
    while i < v.len()
        invariant
            i <= v@.len(),
            r@ == v@.take(i as int),
        decreases v@.len() - i,
    {
        r.push(v[i].clone());
        i += 1;
        assert(r@ =~= v@.take(i as int));
    }
    assert(v@.take(i as int) =~= v@);
    r
}

impl LevelRunRenderer {
    /// Whether the level run's `WIN` split, if it has one, can be added with
    /// `win_record` within 64-bit times, as `on_level_run` asks.
    pub fn win_fits(&self, level_run: &crate::run::LevelRun, win_record: &SplitRecord) -> (b: bool)
        ensures
            b == ({
                let win = first_split_named(level_run.spec_splits(), "WIN"@);
                win matches Some(i) ==> {
                    let s = level_run.spec_splits()[i];
                    &&& self.run_render.total_time.stamp + s.time.stamp <= u64::MAX
                    &&& win_record.best_run_split matches Some(t) ==> self.run_render.wr_compared_time.stamp
                        + t.stamp <= u64::MAX
                    &&& req_bound(self.run_render.run_buffer@.push(s), win_record.names_for(s)) <= u64::MAX
                }
            }),
    {
        let win = String::from_str("WIN");
        proof {
            reveal_strlit("WIN");
        }
        match level_run.get_split_by_name(&win) {
            Some(split) => self.run_render.split_fits(split, win_record),
            None => true,
        }
    }
}

impl GameRunRenderer {
    /// Whether `run` can be added with `record` within 64-bit times, as
    /// `on_level_run` asks.
    pub fn run_fits(&self, run: &crate::run::LevelRun, record: &SplitRecord) -> (b: bool)
        ensures
            b == (self.render.total_time.stamp + run.spec_time() <= u64::MAX && (record.best_run_split matches Some(
                t,
            ) ==> self.render.wr_compared_time.stamp + t.stamp <= u64::MAX) && req_bound(
                self.render.run_buffer@.push(run_as_split(*run)),
                record.names_for(run_as_split(*run)),
            ) <= u64::MAX),
    {
        let split = NamedSplit::new(run.get_time(), run.get_name().clone());
        assert(split == run_as_split(*run));
        self.render.split_fits(&split, record)
    }
}

} // verus!
