//! Foresight views: how the items a seed will generate are coloured, renamed,
//! ordered, grouped and left out, including conditions that switch extra
//! rules on once a matching item was found.
use vstd::prelude::*;
use std::collections::HashSet;

use crate::mapper_view::{color_of, Color, KeyID, MapperColor};

verus! {

broadcast use {
    vstd::std_specs::hash::group_hash_axioms,
};

/// A condition on a found item: its name, and optionally its zone and id.
#[derive(Debug)]
pub struct ViewCondition {
    pub name: String,
    pub zone: Option<i32>,
    pub id: Option<KeyID>,
}

impl ViewCondition {
    /// Whether an item named `name` in zone `zone` with id `id` fulfils the
    /// condition: same name, and same zone and an id among the condition's
    /// ids where those are given.
    pub open spec fn matches_spec(self, name: Seq<char>, zone: i32, id: i32) -> bool {
        &&& self.name@ == name
        &&& match self.zone {
            None => true,
            Some(z) => z == zone,
        }
        &&& match self.id {
            None => true,
            Some(k) => id >= 0 && k.ids().contains(id as u64),
        }
    }

    /// Whether an item named `name` in zone `zone` with id `id` fulfils the
    /// condition.
    pub fn matches(&self, name: &String, zone: &i32, id: &i32) -> (b: bool)
        ensures
            b == self.matches_spec(name@, *zone, *id),
    {
        self.name == *name && match self.zone {
            None => true,
            Some(z) => z == *zone,
        } && match &self.id {
            None => true,
            Some(k) => k.contains_i32(*id),
        }
    }
}

/// The ids of one item name in one zone shown in one colour, as written.
#[derive(Debug)]
pub struct ForesightEntry {
    pub name: String,
    pub zone: i32,
    pub color: MapperColor,
    pub ids: Vec<KeyID>,
}

/// The ids of one item name in one zone shown in one colour, ready for
/// look-up.
#[derive(Debug)]
pub struct ForesightColorSet {
    pub name: String,
    pub zone: i32,
    pub color: Color,
    pub ids: HashSet<i32>,
}

/// The zones in which items of one name are left out, as written.
#[derive(Debug)]
pub struct NamedZones {
    pub name: String,
    pub zones: Vec<i32>,
}

/// The zones in which items of one name are left out, ready for look-up.
#[derive(Debug)]
pub struct NamedZoneSet {
    pub name: String,
    pub zones: HashSet<i32>,
}

/// Extra rules that hold once an item fulfilling `condition` was found.
#[derive(Debug)]
pub struct ConditionalIgnore {
    pub condition: ViewCondition,
    pub ignore_zones: Vec<i32>,
    pub ignore_pairs: Vec<NamedZones>,
    pub color_data: Vec<ForesightEntry>,
}

/// Extra rules that hold once an item fulfilling `condition` was found,
/// ready for look-up.
#[derive(Debug)]
pub struct OptimizedConditionalIgnore {
    pub condition: ViewCondition,
    pub ignore_zones: HashSet<i32>,
    pub ignore_pairs: Vec<NamedZoneSet>,
    pub color_data: Vec<ForesightColorSet>,
}

/// A foresight view as written by hand.
#[derive(Debug)]
pub struct ForesightView {
    pub data: Vec<ForesightEntry>,
    pub default_color: Option<MapperColor>,
    pub ignore_zones: Vec<i32>,
    pub ignore_pairs: Vec<NamedZones>,
    pub conditional_ignores: Vec<ConditionalIgnore>,
    pub rename: Vec<(String, String)>,
    pub group_zones: Vec<i32>,
    pub order: Vec<(i32, String)>,
}

/// A foresight view ready for look-up, with the conditions found so far.
#[derive(Debug)]
pub struct OptimizedForesightView {
    pub data: Vec<ForesightColorSet>,
    pub default_color: Option<Color>,
    pub ignore_zones: HashSet<i32>,
    pub ignore_pairs: Vec<NamedZoneSet>,
    pub conditional_ignores: Vec<OptimizedConditionalIgnore>,
    pub conditions_triggered: Vec<bool>,
    pub rename: Vec<(String, String)>,
    pub group_zones: HashSet<i32>,
    pub order: Vec<(i32, String)>,
}

/// The 32-bit ids a sequence of key ids names.
pub open spec fn union_ids_i32(s: Seq<KeyID>) -> Set<i32>
    decreases s.len(),
{
    if s.len() == 0 {
        Set::empty()
    } else {
        union_ids_i32(s.drop_last()).union(
            Set::new(|x: i32| x >= 0 && s.last().ids().contains(x as u64)),
        )
    }
}

/// Whether an entry ready for look-up is the written entry `w`.
pub open spec fn entry_optimized(o: ForesightColorSet, w: ForesightEntry) -> bool {
    o.name == w.name && o.zone == w.zone && o.color == color_of(w.color) && o.ids@ == union_ids_i32(w.ids@)
}

/// Whether a zone set ready for look-up is the written one.
pub open spec fn zones_optimized(o: NamedZoneSet, w: NamedZones) -> bool {
    o.name == w.name && o.zones@ == w.zones@.to_set()
}

/// Whether the entries ready for look-up are the written ones, in order.
pub open spec fn entries_optimized(o: Seq<ForesightColorSet>, w: Seq<ForesightEntry>) -> bool {
    o.len() == w.len() && forall|k: int| 0 <= k < o.len() ==> #[trigger] entry_optimized(o[k], w[k])
}

/// Whether the zone sets ready for look-up are the written ones, in order.
pub open spec fn pairs_optimized(o: Seq<NamedZoneSet>, w: Seq<NamedZones>) -> bool {
    o.len() == w.len() && forall|k: int| 0 <= k < o.len() ==> #[trigger] zones_optimized(o[k], w[k])
}

/// Whether some entry shows item `id` named `name` in zone `zone` in colour `c`.
pub open spec fn entries_color_is(e: Seq<ForesightColorSet>, name: Seq<char>, zone: i32, id: i32, c: Color) -> bool {
    exists|k: int|
        0 <= k < e.len() && (#[trigger] e[k]).name@ == name && e[k].zone == zone && e[k].ids@.contains(id)
            && e[k].color == c
}

/// The colour of the first entry from place `k` on that gives item `id`
/// named `name` in zone `zone` a colour, if any.
pub open spec fn entries_color_from(e: Seq<ForesightColorSet>, name: Seq<char>, zone: i32, id: i32, k: int) -> Option<Color>
    decreases e.len() - k,
{
    if k >= e.len() || k < 0 {
        None
    } else if e[k].name@ == name && e[k].zone == zone && e[k].ids@.contains(id) {
        Some(e[k].color)
    } else {
        entries_color_from(e, name, zone, id, k + 1)
    }
}

proof fn lemma_entries_color_from(e: Seq<ForesightColorSet>, name: Seq<char>, zone: i32, id: i32, k: int)
    requires
        0 <= k,
    ensures
        entries_color_from(e, name, zone, id, k) matches Some(c) ==> entries_color_is(e, name, zone, id, c),
        entries_color_from(e, name, zone, id, k) is None ==> forall|j: int|
            k <= j < e.len() ==> !((#[trigger] e[j]).name@ == name && e[j].zone == zone && e[j].ids@.contains(id)),
    decreases e.len() - k,
{
    if k < e.len() && !(e[k].name@ == name && e[k].zone == zone && e[k].ids@.contains(id)) {
        lemma_entries_color_from(e, name, zone, id, k + 1);
    }
}

/// Whether some entry gives item `id` named `name` in zone `zone` a colour.
pub open spec fn entries_have_color(e: Seq<ForesightColorSet>, name: Seq<char>, zone: i32, id: i32) -> bool {
    exists|c: Color| entries_color_is(e, name, zone, id, c)
}

/// Whether some zone set of name `name` holds `zone`.
pub open spec fn pairs_hold(p: Seq<NamedZoneSet>, name: Seq<char>, zone: i32) -> bool {
    exists|k: int| 0 <= k < p.len() && (#[trigger] p[k]).name@ == name && p[k].zones@.contains(zone)
}

/// The new name that the first renaming rule for `name` in `s` gives, if any.
pub open spec fn rename_of(s: Seq<(String, String)>, name: Seq<char>) -> Option<String>
    decreases s.len(),
{
    if s.len() == 0 {
        None
    } else if s[0].0@ == name {
        Some(s[0].1)
    } else {
        rename_of(s.drop_first(), name)
    }
}

/// The last place in `s` of the zone `zone` and name `name`, if any.
pub open spec fn order_index(s: Seq<(i32, String)>, zone: i32, name: Seq<char>) -> Option<int>
    decreases s.len(),
{
    if s.len() == 0 {
        None
    } else if s.last().0 == zone && s.last().1@ == name {
        Some(s.len() - 1)
    } else {
        order_index(s.drop_last(), zone, name)
    }
}

fn to_set_i32(v: &Vec<i32>) -> (s: HashSet<i32>)
    ensures
        s@ == v@.to_set(),
{
    let mut s: HashSet<i32> = HashSet::new();
    let mut z: usize = 0;
    while z < v.len()
        invariant
            z <= v@.len(),
            forall|a: i32| #[trigger] s@.contains(a) <==> v@.take(z as int).contains(a),
        decreases v@.len() - z,
    {
        s.insert(v[z]);
        proof {
            let t0 = v@.take(z as int);
            let t1 = v@.take(z + 1);
            assert forall|a: i32| #[trigger] s@.contains(a) <==> t1.contains(a) by {
                if t1.contains(a) {
                    let j = choose|j: int| 0 <= j < t1.len() && t1[j] == a;
                    if j < z {
                        assert(t0[j] == a);
                    }
                }
                if t0.contains(a) {
                    let j = choose|j: int| 0 <= j < t0.len() && t0[j] == a;
                    assert(t1[j] == a);
                }
                assert(t1[z as int] == v@[z as int]);
            };
        }
        z += 1;
    }
    assert(v@.take(z as int) =~= v@);
    assert(s@ =~= v@.to_set());
    s
}

fn id_set_i32(ids: &Vec<KeyID>) -> (s: HashSet<i32>)
    ensures
        s@ == union_ids_i32(ids@),
{
    let mut s: HashSet<i32> = HashSet::new();
    let mut i: usize = 0;
    while i < ids.len()
        invariant
            i <= ids@.len(),
            s@ == union_ids_i32(ids@.take(i as int)),
        decreases ids@.len() - i,
    {
        ids[i].add_to_set_i32(&mut s);
        i += 1;
        assert(ids@.take(i as int).drop_last() =~= ids@.take(i - 1));
    }
    assert(ids@.take(i as int) =~= ids@);
    s
}

fn optimize_entries(w: &Vec<ForesightEntry>) -> (o: Vec<ForesightColorSet>)
    ensures
        entries_optimized(o@, w@),
{
    let mut o: Vec<ForesightColorSet> = Vec::new();
    let mut k: usize = 0;
    while k < w.len()
        invariant
            k <= w@.len(),
            o@.len() == k,
            forall|j: int| 0 <= j < k ==> #[trigger] entry_optimized(o@[j], w@[j]),
        decreases w@.len() - k,
    {
        let e = &w[k];
        o.push(
            ForesightColorSet {
                name: e.name.clone(),
                zone: e.zone,
                color: e.color.to_color(),
                ids: id_set_i32(&e.ids),
            },
        );
        proof {
            assert(entry_optimized(o@[k as int], w@[k as int]));
        }
        k += 1;
    }
    o
}

fn optimize_pairs(w: &Vec<NamedZones>) -> (o: Vec<NamedZoneSet>)
    ensures
        pairs_optimized(o@, w@),
{
    let mut o: Vec<NamedZoneSet> = Vec::new();
    let mut k: usize = 0;
    while k < w.len()
        invariant
            k <= w@.len(),
            o@.len() == k,
            forall|j: int| 0 <= j < k ==> #[trigger] zones_optimized(o@[j], w@[j]),
        decreases w@.len() - k,
    {
        let e = &w[k];
        o.push(NamedZoneSet { name: e.name.clone(), zones: to_set_i32(&e.zones) });
        proof {
            assert(zones_optimized(o@[k as int], w@[k as int]));
        }
        k += 1;
    }
    o
}

impl Clone for ViewCondition {
    fn clone(&self) -> (r: Self)
        ensures
            r == *self,
    {
        ViewCondition { name: self.name.clone(), zone: self.zone, id: self.id }
    }
}

impl ForesightView {
    /// The same view ready for look-up, with no condition found yet.
    pub fn optimize(&self) -> (o: OptimizedForesightView)
        ensures
            o.wf(),
            entries_optimized(o.data@, self.data@),
            o.default_color == match self.default_color {
                None => None,
                Some(m) => Some(color_of(m)),
            },
            o.ignore_zones@ == self.ignore_zones@.to_set(),
            pairs_optimized(o.ignore_pairs@, self.ignore_pairs@),
            o.conditional_ignores@.len() == self.conditional_ignores@.len(),
            forall|j: int|
                0 <= j < o.conditional_ignores@.len() ==> {
                    let a = #[trigger] o.conditional_ignores@[j];
                    let b = self.conditional_ignores@[j];
                    &&& a.condition == b.condition
                    &&& a.ignore_zones@ == b.ignore_zones@.to_set()
                    &&& pairs_optimized(a.ignore_pairs@, b.ignore_pairs@)
                    &&& entries_optimized(a.color_data@, b.color_data@)
                },
            forall|j: int| 0 <= j < o.conditions_triggered@.len() ==> !o.conditions_triggered@[j],
            o.rename@ == self.rename@,
            o.group_zones@ == self.group_zones@.to_set(),
            o.order@ == self.order@,
    {
        let mut conds: Vec<OptimizedConditionalIgnore> = Vec::new();
        let mut triggered: Vec<bool> = Vec::new();
        let mut j: usize = 0;
        while j < self.conditional_ignores.len()
            invariant
                j <= self.conditional_ignores@.len(),
                conds@.len() == j,
                triggered@.len() == j,
                forall|q: int| 0 <= q < j ==> !triggered@[q],
                forall|q: int|
                    0 <= q < j ==> {
                        let a = #[trigger] conds@[q];
                        let b = self.conditional_ignores@[q];
                        &&& a.condition == b.condition
                        &&& a.ignore_zones@ == b.ignore_zones@.to_set()
                        &&& pairs_optimized(a.ignore_pairs@, b.ignore_pairs@)
                        &&& entries_optimized(a.color_data@, b.color_data@)
                    },
            decreases self.conditional_ignores@.len() - j,
        {
            let c = &self.conditional_ignores[j];
            conds.push(
                OptimizedConditionalIgnore {
                    condition: c.condition.clone(),
                    ignore_zones: to_set_i32(&c.ignore_zones),
                    ignore_pairs: optimize_pairs(&c.ignore_pairs),
                    color_data: optimize_entries(&c.color_data),
                },
            );
            triggered.push(false);
            j += 1;
        }
        let mut rename: Vec<(String, String)> = Vec::new();
        let mut k: usize = 0;
        while k < self.rename.len()
            invariant
                k <= self.rename@.len(),
                rename@ == self.rename@.take(k as int),
            decreases self.rename@.len() - k,
        {
            rename.push((self.rename[k].0.clone(), self.rename[k].1.clone()));
            k += 1;
            assert(rename@ =~= self.rename@.take(k as int));
        }
        assert(self.rename@.take(k as int) =~= self.rename@);
        let mut order: Vec<(i32, String)> = Vec::new();
        let mut k: usize = 0;
        while k < self.order.len()
            invariant
                k <= self.order@.len(),
                order@ == self.order@.take(k as int),
            decreases self.order@.len() - k,
        {
            order.push((self.order[k].0, self.order[k].1.clone()));
            k += 1;
            assert(order@ =~= self.order@.take(k as int));
        }
        assert(self.order@.take(k as int) =~= self.order@);
        OptimizedForesightView {
            data: optimize_entries(&self.data),
            default_color: match &self.default_color {
                None => None,
                Some(m) => Some(m.to_color()),
            },
            ignore_zones: to_set_i32(&self.ignore_zones),
            ignore_pairs: optimize_pairs(&self.ignore_pairs),
            conditional_ignores: conds,
            conditions_triggered: triggered,
            rename,
            group_zones: to_set_i32(&self.group_zones),
            order,
        }
    }
}

} // verus!

verus! {

fn entries_lookup(e: &Vec<ForesightColorSet>, name: &String, zone: i32, id: i32) -> (r: Option<Color>)
    ensures
        r == entries_color_from(e@, name@, zone, id, 0),
        r matches Some(c) ==> entries_color_is(e@, name@, zone, id, c),
        r is None ==> !entries_have_color(e@, name@, zone, id),
{
    proof {
        lemma_entries_color_from(e@, name@, zone, id, 0);
    }
    let mut k: usize = 0;
    while k < e.len()
        invariant
            k <= e@.len(),
            entries_color_from(e@, name@, zone, id, 0) == entries_color_from(e@, name@, zone, id, k as int),
            forall|j: int|
                0 <= j < k ==> !((#[trigger] e@[j]).name@ == name@ && e@[j].zone == zone && e@[j].ids@.contains(id)),
        decreases e@.len() - k,
    {
        let x = &e[k];
        if x.name == *name && x.zone == zone && x.ids.contains(&id) {
            proof {
                assert(e@[k as int].name@ == name@ && e@[k as int].zone == zone && e@[k as int].ids@.contains(id)
                    && e@[k as int].color == x.color);
            }
            return Some(x.color);
        }
        k += 1;
    }
    proof {
        assert forall|c: Color| !entries_color_is(e@, name@, zone, id, c) by {
            if entries_color_is(e@, name@, zone, id, c) {
                let j = choose|j: int|
                    0 <= j < e@.len() && (#[trigger] e@[j]).name@ == name@ && e@[j].zone == zone
                        && e@[j].ids@.contains(id) && e@[j].color == c;
                assert(e@[j].name@ == name@);
            }
        };
    }
    None
}

fn pairs_lookup(p: &Vec<NamedZoneSet>, name: &String, zone: i32) -> (b: bool)
    ensures
        b == pairs_hold(p@, name@, zone),
{
    let mut k: usize = 0;
    while k < p.len()
        invariant
            k <= p@.len(),
            forall|j: int| 0 <= j < k ==> !((#[trigger] p@[j]).name@ == name@ && p@[j].zones@.contains(zone)),
        decreases p@.len() - k,
    {
        if p[k].name == *name && p[k].zones.contains(&zone) {
            proof {
                assert(p@[k as int].name@ == name@ && p@[k as int].zones@.contains(zone));
            }
            return true;
        }
        k += 1;
    }
    false
}

impl OptimizedForesightView {
    /// Every conditional rule has its found-flag.
    pub open spec fn wf(&self) -> bool {
        self.conditions_triggered@.len() == self.conditional_ignores@.len()
    }

    /// Whether `self` has the same rules as `other` (the conditions found
    /// aside).
    pub open spec fn same_rules(&self, other: &Self) -> bool {
        &&& self.data == other.data
        &&& self.default_color == other.default_color
        &&& self.ignore_zones == other.ignore_zones
        &&& self.ignore_pairs == other.ignore_pairs
        &&& self.conditional_ignores == other.conditional_ignores
        &&& self.rename == other.rename
        &&& self.group_zones == other.group_zones
        &&& self.order == other.order
    }

    /// Whether `self` is `before` with every conditional rule whose condition
    /// the item named `name` in zone `zone` with id `id` fulfils switched on.
    pub open spec fn found_from(&self, before: Self, name: Seq<char>, zone: i32, id: i32) -> bool {
        &&& self.wf()
        &&& self.same_rules(&before)
        &&& self.conditions_triggered@.len() == before.conditions_triggered@.len()
        &&& forall|j: int|
            0 <= j < self.conditions_triggered@.len() ==> #[trigger] self.conditions_triggered@[j]
                == (before.conditions_triggered@[j]
                || before.conditional_ignores@[j].condition.matches_spec(name, zone, id))
    }

    /// Whether `self` is `before` with every conditional rule switched off.
    pub open spec fn reset_from(&self, before: Self) -> bool {
        &&& self.wf()
        &&& self.same_rules(&before)
        &&& self.conditions_triggered@.len() == before.conditions_triggered@.len()
        &&& forall|j: int| 0 <= j < self.conditions_triggered@.len() ==> !self.conditions_triggered@[j]
    }

    /// Whether conditional rule `j` is switched on and gives the item a
    /// colour.
    pub open spec fn cond_colors(&self, j: int, name: Seq<char>, zone: i32, id: i32) -> bool {
        &&& 0 <= j < self.conditional_ignores@.len()
        &&& self.conditions_triggered@[j]
        &&& entries_have_color(self.conditional_ignores@[j].color_data@, name, zone, id)
    }

    /// The first conditional rule that is switched on and gives the item a
    /// colour, if any.
    pub open spec fn first_cond_color(&self, name: Seq<char>, zone: i32, id: i32) -> Option<int> {
        if exists|j: int| self.cond_colors(j, name, zone, id) {
            Some(
                choose|j: int|
                    self.cond_colors(j, name, zone, id) && forall|q: int|
                        0 <= q < j ==> !self.cond_colors(q, name, zone, id),
            )
        } else {
            None
        }
    }

    /// Whether `r` is what a look-up of the item answers: the colour of the
    /// first entry of the view's own data that colours it; failing that,
    /// that of the first entry of the first switched-on conditional rule
    /// that colours it; failing that, the default colour.
    pub open spec fn lookup_answers(&self, name: Seq<char>, zone: i32, id: i32, r: Option<Color>) -> bool {
        r == match entries_color_from(self.data@, name, zone, id, 0) {
            Some(c) => Some(c),
            None => match self.first_cond_color(name, zone, id) {
                Some(j) => entries_color_from(self.conditional_ignores@[j].color_data@, name, zone, id, 0),
                None => self.default_color,
            },
        }
    }

    /// The colour to show item `id` named `name` in zone `zone` in.
    pub fn lookup(&self, name: &String, zone: &i32, id: &i32) -> (r: Option<Color>)
        requires
            self.wf(),
        ensures
            self.lookup_answers(name@, *zone, *id, r),
    {
        match entries_lookup(&self.data, name, *zone, *id) {
            Some(c) => Some(c),
            None => {
                let mut j: usize = 0;
                while j < self.conditional_ignores.len()
                    invariant
                        self.wf(),
                        !entries_have_color(self.data@, name@, *zone, *id),
                        entries_color_from(self.data@, name@, *zone, *id, 0) is None,
                        j <= self.conditional_ignores@.len(),
                        forall|q: int| 0 <= q < j ==> !self.cond_colors(q, name@, *zone, *id),
                    decreases self.conditional_ignores@.len() - j,
                {
                    if self.conditions_triggered[j] {
                        match entries_lookup(&self.conditional_ignores[j].color_data, name, *zone, *id) {
                            Some(c) => {
                                proof {
                                    assert(self.cond_colors(j as int, name@, *zone, *id));
                                    lemma_first_cond(self, name@, *zone, *id, j as int);
                                }
                                return Some(c);
                            },
                            None => {},
                        }
                    }
                    j += 1;
                }
                self.default_color
            },
        }
    }

    /// Whether items named `name` in zone `zone` are left out: the zone is
    /// left out, or left out for that name, or so by a switched-on
    /// conditional rule.
    pub open spec fn ignored_spec(&self, name: Seq<char>, zone: i32) -> bool {
        ||| self.ignore_zones@.contains(zone)
        ||| pairs_hold(self.ignore_pairs@, name, zone)
        ||| exists|j: int|
            0 <= j < self.conditional_ignores@.len() && #[trigger] self.conditions_triggered@[j] && (
            self.conditional_ignores@[j].ignore_zones@.contains(zone) || pairs_hold(
                self.conditional_ignores@[j].ignore_pairs@,
                name,
                zone,
            ))
    }

    /// Whether item `_id` named `name` in zone `zone` is left out.
    pub fn is_ignored(&self, name: &String, zone: &i32, _id: &i32) -> (b: bool)
        requires
            self.wf(),
        ensures
            b == self.ignored_spec(name@, *zone),
    {
        if self.ignore_zones.contains(zone) || pairs_lookup(&self.ignore_pairs, name, *zone) {
            return true;
        }
        let mut j: usize = 0;
        while j < self.conditional_ignores.len()
            invariant
                self.wf(),
                j <= self.conditional_ignores@.len(),
                forall|q: int|
                    0 <= q < j ==> !(#[trigger] self.conditions_triggered@[q] && (
                    self.conditional_ignores@[q].ignore_zones@.contains(*zone) || pairs_hold(
                        self.conditional_ignores@[q].ignore_pairs@,
                        name@,
                        *zone,
                    ))),
            decreases self.conditional_ignores@.len() - j,
        {
            let c = &self.conditional_ignores[j];
            if self.conditions_triggered[j] && (c.ignore_zones.contains(zone) || pairs_lookup(
                &c.ignore_pairs,
                name,
                *zone,
            )) {
                return true;
            }
            j += 1;
        }
        false
    }

    /// The name to show items named `name` under, if the view renames them:
    /// the new name of the first renaming rule for `name`.
    pub fn rename(&self, name: &String) -> (r: Option<String>)
        ensures
            r == rename_of(self.rename@, name@),
    {
        let mut k: usize = 0;
        assert(self.rename@.skip(0) =~= self.rename@);
        while k < self.rename.len()
            invariant
                k <= self.rename@.len(),
                rename_of(self.rename@, name@) == rename_of(self.rename@.skip(k as int), name@),
            decreases self.rename@.len() - k,
        {
            let ghost rest = self.rename@.skip(k as int);
            assert(rest[0] == self.rename@[k as int]);
            if self.rename[k].0 == *name {
                return Some(self.rename[k].1.clone());
            }
            assert(rest.drop_first() =~= self.rename@.skip(k + 1));
            k += 1;
        }
        None
    }

    /// Whether the items of `zone` are shown together under a zone heading.
    pub fn is_grouped(&self, zone: &i32) -> (b: bool)
        ensures
            b == self.group_zones@.contains(*zone),
    {
        self.group_zones.contains(zone)
    }

    /// The place in the listing of items named `name` in zone `zone`: the
    /// last place the view's order gives that pair, if any.
    pub fn get_order(&self, name: &String, zone: &i32) -> (r: Option<usize>)
        ensures
            match r {
                Some(k) => order_index(self.order@, *zone, name@) == Some(k as int),
                None => order_index(self.order@, *zone, name@) is None,
            },
    {
        let mut k: usize = self.order.len();
        assert(self.order@.take(k as int) =~= self.order@);
        while k > 0
            invariant
                k <= self.order@.len(),
                order_index(self.order@, *zone, name@) == order_index(self.order@.take(k as int), *zone, name@),
            decreases k,
        {
            let ghost pre = self.order@.take(k as int);
            assert(pre.last() == self.order@[k - 1]);
            if self.order[k - 1].0 == *zone && self.order[k - 1].1 == *name {
                return Some(k - 1);
            }
            assert(pre.drop_last() =~= self.order@.take(k - 1));
            k -= 1;
        }
        None
    }

}

/// Something whose conditional rules switch on as items are found.
pub trait AddToConditions {
    /// Whether the rules and their found-flags agree.
    spec fn conditions_ready(&self) -> bool;

    /// Switches on the rules that the item named `name` in zone `zone` with
    /// id `id` fulfils.
    fn add_found(&mut self, name: &String, zone: &i32, id: &i32)
        requires
            old(self).conditions_ready(),
        ensures
            final(self).conditions_ready(),
    ;

    /// Switches every rule off.
    fn reset(&mut self)
        requires
            old(self).conditions_ready(),
        ensures
            final(self).conditions_ready(),
    ;
}

impl AddToConditions for OptimizedForesightView {
    open spec fn conditions_ready(&self) -> bool {
        self.wf()
    }

    /// Switches on every conditional rule whose condition the found item
    /// fulfils; the others keep their state.
    fn add_found(&mut self, name: &String, zone: &i32, id: &i32)
        ensures
            final(self).found_from(*old(self), name@, *zone, *id),
    {
        let mut j: usize = 0;
        while j < self.conditional_ignores.len()
            invariant
                j <= self.conditional_ignores@.len(),
                self.wf(),
                self.conditional_ignores == old(self).conditional_ignores,
                self.data == old(self).data,
                self.default_color == old(self).default_color,
                self.ignore_zones == old(self).ignore_zones,
                self.ignore_pairs == old(self).ignore_pairs,
                self.rename == old(self).rename,
                self.group_zones == old(self).group_zones,
                self.order == old(self).order,
                self.conditions_triggered@.len() == old(self).conditions_triggered@.len(),
                forall|q: int|
                    0 <= q < self.conditions_triggered@.len() ==> #[trigger] self.conditions_triggered@[q] == if q
                        < j {
                        old(self).conditions_triggered@[q] || old(self).conditional_ignores@[q].condition.matches_spec(
                            name@,
                            *zone,
                            *id,
                        )
                    } else {
                        old(self).conditions_triggered@[q]
                    },
            decreases self.conditional_ignores@.len() - j,
        {
            if self.conditional_ignores[j].condition.matches(name, zone, id) {
                self.conditions_triggered.set(j, true);
            }
            j += 1;
        }
    }

    /// Switches every conditional rule off.
    fn reset(&mut self)
        ensures
            final(self).reset_from(*old(self)),
    {
        let mut j: usize = 0;
        while j < self.conditions_triggered.len()
            invariant
                j <= self.conditions_triggered@.len(),
                self.wf(),
                self.conditional_ignores == old(self).conditional_ignores,
                self.data == old(self).data,
                self.default_color == old(self).default_color,
                self.ignore_zones == old(self).ignore_zones,
                self.ignore_pairs == old(self).ignore_pairs,
                self.rename == old(self).rename,
                self.group_zones == old(self).group_zones,
                self.order == old(self).order,
                self.conditions_triggered@.len() == old(self).conditions_triggered@.len(),
                forall|q: int| 0 <= q < j ==> !self.conditions_triggered@[q],
            decreases self.conditions_triggered@.len() - j,
        {
            self.conditions_triggered.set(j, false);
            j += 1;
        }
    }
}

proof fn lemma_first_cond(v: &OptimizedForesightView, name: Seq<char>, zone: i32, id: i32, j: int)
    requires
        v.cond_colors(j, name, zone, id),
        forall|q: int| 0 <= q < j ==> !v.cond_colors(q, name, zone, id),
    ensures
        v.first_cond_color(name, zone, id) == Some(j),
{
    let k = choose|k: int|
        v.cond_colors(k, name, zone, id) && forall|q: int| 0 <= q < k ==> !v.cond_colors(q, name, zone, id);
    assert(v.cond_colors(k, name, zone, id) && forall|q: int| 0 <= q < k ==> !v.cond_colors(q, name, zone, id));
    if k < j {
        assert(!v.cond_colors(k, name, zone, id));
    }
    if j < k {
        assert(!v.cond_colors(j, name, zone, id));
    }
}

/// Once every conditional rule is switched off, no conditional rule gives a
/// colour and only the view's own rules leave items out.
pub proof fn lemma_reset_view(v: OptimizedForesightView, before: OptimizedForesightView, name: Seq<char>, zone: i32, id: i32)
    requires
        v.reset_from(before),
    ensures
        v.first_cond_color(name, zone, id) is None,
        v.ignored_spec(name, zone) == (v.ignore_zones@.contains(zone) || pairs_hold(v.ignore_pairs@, name, zone)),
{
    assert(!exists|j: int| v.cond_colors(j, name, zone, id));
}

/// Finding the same item twice switches on no more rules than finding it
/// once, and a rule once switched on stays on.
pub proof fn lemma_found_twice(
    v0: OptimizedForesightView,
    v1: OptimizedForesightView,
    v2: OptimizedForesightView,
    name: Seq<char>,
    zone: i32,
    id: i32,
)
    requires
        v1.found_from(v0, name, zone, id),
        v2.found_from(v1, name, zone, id),
    ensures
        v2.conditions_triggered@ == v1.conditions_triggered@,
        forall|j: int|
            0 <= j < v0.conditions_triggered@.len() && #[trigger] v0.conditions_triggered@[j]
                ==> v1.conditions_triggered@[j],
{
    assert(v2.conditions_triggered@ =~= v1.conditions_triggered@);
}

} // verus!
