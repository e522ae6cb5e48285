//! Data handed over by the log reader: subscription codes, resource kinds,
//! and the results of the run generator.
use vstd::prelude::*;

use crate::run::{splits_total, LevelRun, NamedSplit, RunObjective};
use crate::time::Time;

verus! {

/// The channels one can subscribe to on the log reader.
#[derive(Clone, Copy, Debug, PartialEq, Eq, Structural)]
pub enum Code {
    Tokenizer,
    RunInfo,
    Mapper,
    SeedIndexer,
}

impl Code {
    /// The wire number of the channel.
    pub fn number(&self) -> (n: u8)
        ensures
            n == match *self {
                Code::Tokenizer => 1u8,
                Code::RunInfo => 2u8,
                Code::Mapper => 3u8,
                Code::SeedIndexer => 4u8,
            },
    {
        match self {
            Code::Tokenizer => 1,
            Code::RunInfo => 2,
            Code::Mapper => 3,
            Code::SeedIndexer => 4,
        }
    }

    /// The channel with wire number `n`, if there is one.
    pub fn from_number(n: u8) -> (c: Option<Code>)
        ensures
            c matches Some(code) ==> code.number_spec() == n,
            c is None <==> !(1 <= n <= 4),
    {
        match n {
            1 => Some(Code::Tokenizer),
            2 => Some(Code::RunInfo),
            3 => Some(Code::Mapper),
            4 => Some(Code::SeedIndexer),
            _ => None,
        }
    }

    /// The wire number of the channel, in specifications.
    pub open spec fn number_spec(self) -> u8 {
        match self {
            Code::Tokenizer => 1u8,
            Code::RunInfo => 2u8,
            Code::Mapper => 3u8,
            Code::SeedIndexer => 4u8,
        }
    }
}

/// The kinds of resource packs a level can hold.
#[derive(Clone, Copy, Debug, PartialEq, Eq, Structural)]
pub enum ResourceType {
    Healthpack,
    DisinfectPack,
    Ammopack,
    ToolRefillpack,
}

impl Default for ResourceType {
    fn default() -> (r: Self)
        ensures
            r == ResourceType::Healthpack,
    {
        ResourceType::Healthpack
    }
}

impl ResourceType {
    /// The name under which the kind is shown and looked up in views.
    pub fn name(&self) -> (s: &'static str)
        ensures
            s@ == self.name_spec(),
    {
        match self {
            ResourceType::Healthpack => "Healthpack",
            ResourceType::DisinfectPack => "DisinfectPack",
            ResourceType::Ammopack => "Ammopack",
            ResourceType::ToolRefillpack => "ToolRefillpack",
        }
    }

    /// The name under which the kind is shown, in specifications.
    pub open spec fn name_spec(self) -> Seq<char> {
        match self {
            ResourceType::Healthpack => "Healthpack"@,
            ResourceType::DisinfectPack => "DisinfectPack"@,
            ResourceType::Ammopack => "Ammopack"@,
            ResourceType::ToolRefillpack => "ToolRefillpack"@,
        }
    }
}

/// A finished run as the log reader reports it.
#[derive(Debug)]
pub struct TimedRun {
    /// The level, as its descriptor is written.
    pub name: String,
    pub total_time: Time,
    pub player_count: u8,
    pub used_checkpoint: bool,
    pub is_win: bool,
    pub did_secondary: bool,
    pub did_overload: bool,
    pub splits: Vec<NamedSplit>,
}

impl TimedRun {
    /// Whether the times of its splits add up within 64 bits, as
    /// `into_level_run` asks.
    pub fn splits_fit(&self) -> (b: bool)
        ensures
            b == (splits_total(self.splits@) <= u64::MAX),
    {
        let mut acc: u64 = 0;
        let mut i: usize = 0;
        while i < self.splits.len()
            invariant
                i <= self.splits@.len(),
                acc == splits_total(self.splits@.take(i as int)),
            decreases self.splits.len() - i,
        {
            proof {
                crate::run::lemma_splits_total_take(self.splits@, i as int);
            }
            match acc.checked_add(self.splits[i].time.stamp) {
                Some(x) => {
                    acc = x;
                },
                None => {
                    proof {
                        crate::run::lemma_splits_total_prefix(self.splits@, i + 1);
                    }
                    return false;
                },
            }
            i += 1;
        }
        assert(self.splits@.take(i as int) =~= self.splits@);
        true
    }

    /// The level run it describes: the objective of the named level with the
    /// secondary, overload and player count of the report, its win flag, and
    /// its splits in order.
    pub fn into_level_run(self) -> (lr: LevelRun)
        requires
            splits_total(self.splits@) <= u64::MAX,
        ensures
            lr.spec_objective() == (RunObjective {
                level_name: self.name,
                player_count: self.player_count,
                secondary: self.did_secondary,
                overload: self.did_overload,
                glitched: false,
                early_drop: false,
            }),
            lr.spec_win() == self.is_win,
            lr.spec_splits() == self.splits@,
            lr.spec_time() == splits_total(self.splits@),
    {
        let objective = RunObjective::from_name(self.name)
            .with_secondary(self.did_secondary)
            .with_overload(self.did_overload)
            .with_player_count(self.player_count);
        let mut lr = LevelRun::new(objective);
        lr.set_win(self.is_win);
        let splits = self.splits;
        let ghost all = splits@;
        let mut i: usize = 0;
        while i < splits.len()
            invariant
                all == splits@,
                i <= all.len(),
                splits_total(all) <= u64::MAX,
                lr.spec_objective() == objective,
                lr.spec_win() == self.is_win,
                lr.spec_splits() == all.take(i as int),
                lr.spec_time() == splits_total(all.take(i as int)),
            decreases all.len() - i,
        {
            proof {
                crate::run::lemma_splits_total_take(all, i as int);
                crate::run::lemma_splits_total_prefix(all, i as int + 1);
            }
            lr.add_split(splits[i].clone());
            i += 1;
            assert(lr.spec_splits() =~= all.take(i as int));
        }
        assert(all.take(i as int) =~= all);
        lr
    }
}

/// What the run generator reports while a level is played.
#[derive(Debug)]
pub enum RunGeneratorResult {
    GameStarted(String, u8),
    SplitAdded(NamedSplit),
    SecondaryDone,
    OverloadDone,
    CheckpointUsed,
    LevelRun(TimedRun),
}

} // verus!
