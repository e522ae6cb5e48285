//! Readers that impose the optional parts of an objective (secondary,
//! overload, glitched, early drop) chosen by the runner.
use vstd::prelude::*;

use crate::run::{LevelRun, RunObjective};

verus! {

/// Something that rewrites an objective to the runner's choices.
pub trait ObjectiveReader {
    /// The objective after rewriting.
    spec fn override_spec(&self, objective: RunObjective) -> RunObjective;

    /// Rewrites `objective` to the runner's choices.
    fn override_obj(&self, objective: RunObjective) -> (r: RunObjective)
        ensures
            r == self.override_spec(objective),
    ;
}

/// Something whose state follows the objective a reader imposes.
pub trait UpdateObjective {
    /// Brings the state in line with the objective `reader` imposes.
    fn update<R: ObjectiveReader>(&mut self, reader: &R);
}

/// The runner's choice of optional parts for the level being played.
#[derive(Debug)]
pub struct LevelObjectiveReader {
    pub objective: RunObjective,
}

impl Default for LevelObjectiveReader {
    fn default() -> (r: Self)
        ensures
            !r.objective.secondary,
            !r.objective.overload,
            !r.objective.glitched,
            !r.objective.early_drop,
            r.objective.player_count == 0,
            r.objective.level_name@ == Seq::<char>::empty(),
    {
        LevelObjectiveReader { objective: RunObjective::from_name(String::new()) }
    }
}

impl Clone for LevelObjectiveReader {
    fn clone(&self) -> (r: Self)
        ensures
            r == *self,
    {
        LevelObjectiveReader { objective: self.objective.clone() }
    }
}

impl ObjectiveReader for LevelObjectiveReader {
    /// The objective with the reader's secondary, overload, glitched and
    /// early-drop flags; level and player count are kept.
    open spec fn override_spec(&self, objective: RunObjective) -> RunObjective {
        RunObjective {
            secondary: self.objective.secondary,
            overload: self.objective.overload,
            glitched: self.objective.glitched,
            early_drop: self.objective.early_drop,
            ..objective
        }
    }

    fn override_obj(&self, objective: RunObjective) -> (r: RunObjective) {
        let mut objective = objective;
        objective.secondary = self.objective.secondary;
        objective.overload = self.objective.overload;
        objective.glitched = self.objective.glitched;
        objective.early_drop = self.objective.early_drop;
        objective
    }
}

impl<T: ObjectiveReader> ObjectiveReader for Option<T> {
    /// With no reader the objective stays as it is.
    open spec fn override_spec(&self, objective: RunObjective) -> RunObjective {
        match self {
            Some(s) => s.override_spec(objective),
            None => objective,
        }
    }

    fn override_obj(&self, objective: RunObjective) -> (r: RunObjective) {
        match self {
            Some(s) => s.override_obj(objective),
            None => objective,
        }
    }
}

/// Something that carries an objective which the runner's choices
/// override.
pub trait ObjectiveUpdate {
    /// Overrides the objective carried with the choices of `reader`.
    fn override_obj(&mut self, reader: &LevelObjectiveReader);
}

impl ObjectiveUpdate for LevelRun {
    /// The run's objective takes the reader's optional parts; everything
    /// else about the run stays.
    fn override_obj(&mut self, reader: &LevelObjectiveReader)
        ensures
            final(self).spec_objective() == reader.override_spec(old(self).spec_objective()),
            final(self).spec_win() == old(self).spec_win(),
            final(self).spec_splits() == old(self).spec_splits(),
            final(self).spec_time() == old(self).spec_time(),
    {
        let o = self.get_objective().clone();
        let o2 = reader.override_obj(o);
        self.set_objective(o2);
    }
}

/// Rewriting twice with the same reader is rewriting once, and rewriting
/// keeps the level and the player count.
pub proof fn lemma_override_idempotent(reader: LevelObjectiveReader, o: RunObjective)
    ensures
        reader.override_spec(reader.override_spec(o)) == reader.override_spec(o),
        reader.override_spec(o).level_name == o.level_name,
        reader.override_spec(o).player_count == o.player_count,
{
}

/// The objective a reader yields depends only on the reader's flags, not on
/// the flags the objective had before.
pub proof fn lemma_override_forgets_flags(reader: LevelObjectiveReader, a: RunObjective, b: RunObjective)
    requires
        a.level_name == b.level_name,
        a.player_count == b.player_count,
    ensures
        reader.override_spec(a) == reader.override_spec(b),
{
}

} // verus!
