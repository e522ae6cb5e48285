//! The live mapper: the keys, objectives and collectables found in the level
//! being generated, each with the colour its level view gives it, kept in the
//! order keys, then collectables, then objectives.
use vstd::prelude::*;

use crate::mapper_view::{color_answer, lookup_color, zone_is_valid, Color, Location, OptimizedLevelView};
use crate::objective::{ObjectiveReader, UpdateObjective};
use crate::run::RunObjective;

verus! {

/// Why no level view could be used.
#[derive(Debug)]
pub enum MapperColorError {
    /// The view's file could not be read as a level view; the reader's
    /// message.
    SpannedError(String),
    /// There is no view for the level.
    FileNotFound,
}

impl Clone for MapperColorError {
    fn clone(&self) -> (r: Self)
        ensures
            r == *self,
    {
        match self {
            MapperColorError::SpannedError(s) => MapperColorError::SpannedError(s.clone()),
            MapperColorError::FileNotFound => MapperColorError::FileNotFound,
        }
    }
}

/// A key or objective, shown with its colour.
#[derive(Debug)]
pub struct KeyLocationRender {
    pub location: Location,
    pub color: Option<Color>,
}

/// The ids of the small items of one kind in one zone, each with its colour,
/// in increasing order of id.
#[derive(Debug)]
pub struct ObjectiveLocationRender {
    pub name_color: Option<Color>,
    pub name: String,
    pub zone: u64,
    pub ids: Vec<(u64, Option<Color>)>,
}

/// One line of the mapper.
#[derive(Debug)]
pub enum LocationRender {
    Key(KeyLocationRender),
    Collectable(ObjectiveLocationRender),
    Objective(KeyLocationRender),
}

/// The rank of a line: keys come first, then collectables, then objectives.
pub open spec fn rank_of(r: LocationRender) -> int {
    match r {
        LocationRender::Key(_) => 2,
        LocationRender::Collectable(_) => 1,
        LocationRender::Objective(_) => 0,
    }
}

/// Whether line `a` comes before line `b` in the mapper: keys before
/// collectables before objectives.
pub open spec fn line_before(a: LocationRender, b: LocationRender) -> bool {
    rank_of(a) > rank_of(b)
}

/// The order of mapper lines is a strict weak order: no line comes before
/// itself or before a line that comes before it, it is transitive, and of
/// two lines of different kinds one comes before the other; a key comes
/// before a collectable, which comes before an objective.
pub proof fn lemma_line_order(a: LocationRender, b: LocationRender, c: LocationRender)
    ensures
        !line_before(a, a),
        line_before(a, b) ==> !line_before(b, a),
        line_before(a, b) && line_before(b, c) ==> line_before(a, c),
        !line_before(a, b) && !line_before(b, a) <==> rank_of(a) == rank_of(b),
        line_before(a, b) <==> (a is Key && !(b is Key)) || (a is Collectable && b is Objective),
{
}

/// Whether the lines are in order of rank, highest first.
pub open spec fn ranks_descending(s: Seq<LocationRender>) -> bool {
    forall|i: int, j: int| 0 <= i < j < s.len() ==> rank_of(#[trigger] s[i]) >= rank_of(#[trigger] s[j])
}

/// Where a line of rank `r` goes: after every line of rank `r` or higher.
#[verifier::opaque]
pub open spec fn place_of(s: Seq<LocationRender>, r: int) -> int {
    if exists|i: int| 0 <= i < s.len() && rank_of(s[i]) < r {
        choose|i: int| 0 <= i < s.len() && rank_of(s[i]) < r && forall|j: int| 0 <= j < i ==> rank_of(s[j]) >= r
    } else {
        s.len() as int
    }
}

/// Whether the ids are in increasing order.
pub open spec fn ids_ascending(s: Seq<(u64, Option<Color>)>) -> bool {
    forall|i: int, j: int| 0 <= i < j < s.len() ==> (#[trigger] s[i]).0 <= (#[trigger] s[j]).0
}

/// Where id `id` goes: after every id not above it.
#[verifier::opaque]
pub open spec fn id_place(s: Seq<(u64, Option<Color>)>, id: u64) -> int {
    if exists|i: int| 0 <= i < s.len() && s[i].0 > id {
        choose|i: int| 0 <= i < s.len() && s[i].0 > id && forall|j: int| 0 <= j < i ==> s[j].0 <= id
    } else {
        s.len() as int
    }
}

impl LocationRender {
    /// The rank of the line.
    pub fn rank(&self) -> (r: u8)
        ensures
            r == rank_of(*self),
    {
        match self {
            LocationRender::Key(_) => 2,
            LocationRender::Collectable(_) => 1,
            LocationRender::Objective(_) => 0,
        }
    }
}

/// Whether a collectable line lists its ids in increasing order.
pub open spec fn line_ok(r: LocationRender) -> bool {
    r matches LocationRender::Collectable(c) ==> ids_ascending(c.ids@)
}

/// Whether the lines are in order of rank and every collectable line lists
/// its ids in increasing order.
pub open spec fn lines_ok(s: Seq<LocationRender>) -> bool {
    &&& ranks_descending(s)
    &&& forall|i: int| 0 <= i < s.len() ==> line_ok(#[trigger] s[i])
}

proof fn lemma_place_of(s: Seq<LocationRender>, r: int, p: int)
    requires
        0 <= p <= s.len(),
        forall|j: int| 0 <= j < p ==> rank_of(#[trigger] s[j]) >= r,
        p < s.len() ==> rank_of(s[p]) < r,
    ensures
        place_of(s, r) == p,
{
    reveal(place_of);
    if p < s.len() {
        let k = choose|i: int| 0 <= i < s.len() && rank_of(s[i]) < r && forall|j: int| 0 <= j < i ==> rank_of(s[j]) >= r;
        assert(0 <= k < s.len() && rank_of(s[k]) < r && forall|j: int| 0 <= j < k ==> rank_of(s[j]) >= r);
        if k < p {
            assert(rank_of(s[k]) >= r);
        }
        if p < k {
            assert(rank_of(s[p]) < r);
        }
    } else {
        assert(!exists|i: int| 0 <= i < s.len() && rank_of(s[i]) < r);
    }
}

proof fn lemma_insert_lines_ok(s: Seq<LocationRender>, p: int, item: LocationRender)
    requires
        lines_ok(s),
        line_ok(item),
        0 <= p <= s.len(),
        forall|j: int| 0 <= j < p ==> rank_of(#[trigger] s[j]) >= rank_of(item),
        p < s.len() ==> rank_of(s[p]) < rank_of(item),
    ensures
        lines_ok(s.insert(p, item)),
        s.insert(p, item)[p] == item,
{
    s.insert_ensures(p, item);
    let t = s.insert(p, item);
    assert forall|i: int, j: int| 0 <= i < j < t.len() implies rank_of(#[trigger] t[i]) >= rank_of(#[trigger] t[j]) by {
        if i < p && j == p {
        } else if i == p && j > p {
            assert(t[j] == s[j - 1]);
            if j - 1 > p {
                assert(rank_of(s[p]) >= rank_of(s[j - 1]));
            }
        } else if i < p && j > p {
            assert(t[j] == s[j - 1]);
            assert(rank_of(s[i]) >= rank_of(s[j - 1]));
        } else if i > p {
            assert(t[i] == s[i - 1]);
            assert(t[j] == s[j - 1]);
            assert(rank_of(s[i - 1]) >= rank_of(s[j - 1]));
        } else {
            assert(rank_of(s[i]) >= rank_of(s[j]));
        }
    };
    assert forall|i: int| 0 <= i < t.len() implies line_ok(#[trigger] t[i]) by {
        if i > p {
            assert(t[i] == s[i - 1]);
        }
    };
}

/// Inserts `item` after every line of its rank or higher; the lines stay in
/// order of rank.
pub fn place(v: &mut Vec<LocationRender>, item: LocationRender)
    requires
        lines_ok(old(v)@),
        line_ok(item),
    ensures
        final(v)@ == old(v)@.insert(place_of(old(v)@, rank_of(item)), item),
        final(v)@[place_of(old(v)@, rank_of(item))] == item,
        0 <= place_of(old(v)@, rank_of(item)) <= old(v)@.len(),
        lines_ok(final(v)@),
{
    let r = item.rank();
    let mut p: usize = 0;
    while p < v.len() && v[p].rank() >= r
        invariant
            p <= v@.len(),
            forall|j: int| 0 <= j < p ==> rank_of(#[trigger] v@[j]) >= r,
        decreases v@.len() - p,
    {
        p += 1;
    }
    proof {
        lemma_place_of(v@, r as int, p as int);
        lemma_insert_lines_ok(v@, p as int, item);
    }
    v.insert(p, item);
}

proof fn lemma_id_place(s: Seq<(u64, Option<Color>)>, id: u64, p: int)
    requires
        0 <= p <= s.len(),
        forall|j: int| 0 <= j < p ==> (#[trigger] s[j]).0 <= id,
        p < s.len() ==> s[p].0 > id,
    ensures
        id_place(s, id) == p,
{
    reveal(id_place);
    if p < s.len() {
        let k = choose|i: int| 0 <= i < s.len() && s[i].0 > id && forall|j: int| 0 <= j < i ==> s[j].0 <= id;
        assert(0 <= k < s.len() && s[k].0 > id && forall|j: int| 0 <= j < k ==> s[j].0 <= id);
        if k < p {
            assert(s[k].0 <= id);
        }
        if p < k {
            assert(s[p].0 > id);
        }
    } else {
        assert(!exists|i: int| 0 <= i < s.len() && s[i].0 > id);
    }
}

proof fn lemma_id_place_bounds(s: Seq<(u64, Option<Color>)>, id: u64)
    ensures
        0 <= id_place(s, id) <= s.len(),
{
    reveal(id_place);
    if exists|i: int| 0 <= i < s.len() && s[i].0 > id {
        let k = choose|i: int| 0 <= i < s.len() && s[i].0 > id && forall|j: int| 0 <= j < i ==> s[j].0 <= id;
        let w = choose|i: int| 0 <= i < s.len() && s[i].0 > id;
        if !(forall|j: int| 0 <= j < w ==> s[j].0 <= id) {
            lemma_first_above(s, id, w);
        }
    }
}

proof fn lemma_first_above(s: Seq<(u64, Option<Color>)>, id: u64, w: int)
    requires
        0 <= w < s.len(),
        s[w].0 > id,
    ensures
        exists|i: int| 0 <= i < s.len() && s[i].0 > id && forall|j: int| 0 <= j < i ==> s[j].0 <= id,
    decreases w,
{
    if exists|j: int| 0 <= j < w && s[j].0 > id {
        let j = choose|j: int| 0 <= j < w && s[j].0 > id;
        lemma_first_above(s, id, j);
    }
}

proof fn lemma_insert_ids(s: Seq<(u64, Option<Color>)>, p: int, e: (u64, Option<Color>))
    requires
        ids_ascending(s),
        0 <= p <= s.len(),
        forall|j: int| 0 <= j < p ==> (#[trigger] s[j]).0 <= e.0,
        p < s.len() ==> s[p].0 > e.0,
    ensures
        ids_ascending(s.insert(p, e)),
{
    s.insert_ensures(p, e);
    let t = s.insert(p, e);
    assert forall|i: int, j: int| 0 <= i < j < t.len() implies (#[trigger] t[i]).0 <= (#[trigger] t[j]).0 by {
        if i < p && j == p {
        } else if i == p && j > p {
            assert(t[j] == s[j - 1]);
            assert(s[j - 1].0 >= s[p].0);
        } else if i < p && j > p {
            assert(t[j] == s[j - 1]);
            assert(s[i].0 <= s[j - 1].0);
        } else if i > p {
            assert(t[i] == s[i - 1]);
            assert(t[j] == s[j - 1]);
            assert(s[i - 1].0 <= s[j - 1].0);
        } else {
            assert(s[i].0 <= s[j].0);
        }
    };
}

/// Inserts `(id, color)` after every id not above `id`; the ids stay in
/// increasing order.
pub fn place_id(v: &mut Vec<(u64, Option<Color>)>, id: u64, color: Option<Color>)
    requires
        ids_ascending(old(v)@),
    ensures
        final(v)@ == old(v)@.insert(id_place(old(v)@, id), (id, color)),
        0 <= id_place(old(v)@, id) <= old(v)@.len(),
        ids_ascending(final(v)@),
{
    let mut p: usize = 0;
    while p < v.len() && v[p].0 <= id
        invariant
            p <= v@.len(),
            forall|j: int| 0 <= j < p ==> (#[trigger] v@[j]).0 <= id,
        decreases v@.len() - p,
    {
        p += 1;
    }
    proof {
        lemma_id_place(v@, id, p as int);
        lemma_insert_ids(v@, p as int, (id, color));
    }
    v.insert(p, (id, color));
}

} // verus!

verus! {

/// The lines of the mapper and the error of its level view, if any.
#[derive(Debug)]
pub struct LocationRenderVec {
    pub vec: Vec<LocationRender>,
    pub error_found: Option<MapperColorError>,
}

impl LocationRenderVec {
    /// No line and no error.
    pub fn new() -> (r: LocationRenderVec)
        ensures
            r.vec@ == Seq::<LocationRender>::empty(),
            r.error_found is None,
    {
        LocationRenderVec { vec: Vec::new(), error_found: None }
    }

    /// The height the lines take on screen: a view that could not be read
    /// takes the whole window; otherwise each line takes 22 and the
    /// separator 6.
    pub fn height(&self) -> (h: usize)
        requires
            self.vec@.len() * 22 + 6 <= usize::MAX,
        ensures
            h == if self.error_found matches Some(MapperColorError::SpannedError(_)) {
                1000
            } else {
                self.vec@.len() * 22 + 6
            },
    {
        match &self.error_found {
            Some(MapperColorError::SpannedError(_)) => 1000,
            _ => self.vec.len() * 22 + 6,
        }
    }
}

/// Whether two objectives are the same objective.
pub open spec fn same_objective(a: RunObjective, b: RunObjective) -> bool {
    &&& a.level_name@ == b.level_name@
    &&& a.player_count == b.player_count
    &&& a.secondary == b.secondary
    &&& a.overload == b.overload
    &&& a.glitched == b.glitched
    &&& a.early_drop == b.early_drop
}

/// Whether two objectives are the same objective.
pub fn objective_equal(a: &RunObjective, b: &RunObjective) -> (r: bool)
    ensures
        r == same_objective(*a, *b),
{
    a.level_name == b.level_name && a.player_count == b.player_count && a.secondary == b.secondary
        && a.overload == b.overload && a.glitched == b.glitched && a.early_drop == b.early_drop
}

/// Whether line `r` is the collectable line of item kind `name` in `zone`.
pub open spec fn is_group(r: LocationRender, name: Seq<char>, zone: u64) -> bool {
    match r {
        LocationRender::Collectable(c) => c.name@ == name && c.zone == zone,
        _ => false,
    }
}

/// The first collectable line of item kind `name` in `zone`, if any.
#[verifier::opaque]
pub open spec fn first_group(s: Seq<LocationRender>, name: Seq<char>, zone: u64) -> Option<int> {
    if exists|i: int| 0 <= i < s.len() && is_group(s[i], name, zone) {
        Some(choose|i: int| 0 <= i < s.len() && is_group(s[i], name, zone) && forall|j: int| 0 <= j < i ==> !is_group(s[j], name, zone))
    } else {
        None
    }
}

/// The first cached view entry of objective `o`, if any.
#[verifier::opaque]
pub open spec fn first_view(s: Seq<(RunObjective, Result<OptimizedLevelView, MapperColorError>)>, o: RunObjective) -> Option<int> {
    if exists|i: int| 0 <= i < s.len() && same_objective(s[i].0, o) {
        Some(choose|i: int| 0 <= i < s.len() && same_objective(s[i].0, o) && forall|j: int| 0 <= j < i ==> !same_objective(s[j].0, o))
    } else {
        None
    }
}

/// The live mapper of the level being generated.
#[derive(Debug)]
pub struct Mapper {
    /// The level views read so far, or why they could not be read.
    pub location_colors: Vec<(RunObjective, Result<OptimizedLevelView, MapperColorError>)>,
    pub level_objective: RunObjective,
    /// How many keys were found so far in this generation.
    pub key_len: usize,
    pub show_objectives: bool,
    /// Everything found so far in this generation, in order.
    pub locations_copy: Vec<Location>,
    pub locations: LocationRenderVec,
}

impl Mapper {
    /// The lines are in order of rank and every collectable line lists its
    /// ids in increasing order.
    pub open spec fn wf(&self) -> bool {
        lines_ok(self.locations.vec@)
    }

    /// The level view of the current objective, if it was read.
    pub open spec fn cur_view(&self) -> Option<OptimizedLevelView> {
        match first_view(self.location_colors@, self.level_objective) {
            Some(i) => match self.location_colors@[i].1 {
                Ok(v) => Some(v),
                Err(_) => None,
            },
            None => None,
        }
    }

    /// Why the level view of the current objective could not be read, if so.
    pub open spec fn cur_error(&self) -> Option<MapperColorError> {
        match first_view(self.location_colors@, self.level_objective) {
            Some(i) => match self.location_colors@[i].1 {
                Ok(_) => None,
                Err(e) => Some(e),
            },
            None => None,
        }
    }

    /// Whether the lines are in order of rank and every collectable line
    /// lists its ids in increasing order.
    pub fn lines_in_order(&self) -> (b: bool)
        ensures
            b == self.wf(),
    {
        let v = &self.locations.vec;
        let n = v.len();
        let mut i: usize = 0;
        while i < n
            invariant
                n == v@.len(),
                v@ == self.locations.vec@,
                i <= n,
                forall|a: int, b: int| 0 <= a < b < n && a < i ==> rank_of(#[trigger] v@[a]) >= rank_of(#[trigger] v@[b]),
                forall|a: int| 0 <= a < i ==> line_ok(#[trigger] v@[a]),
            decreases n - i,
        {
            let mut j: usize = i + 1;
            while j < n
                invariant
                    n == v@.len(),
                    v@ == self.locations.vec@,
                    i < j <= n,
                    forall|b: int| i < b < j ==> rank_of(v@[i as int]) >= rank_of(#[trigger] v@[b]),
                decreases n - j,
            {
                if v[i].rank() < v[j].rank() {
                    proof {
                        assert(!(rank_of(v@[i as int]) >= rank_of(v@[j as int])));
                        assert(!ranks_descending(v@));
                    }
                    return false;
                }
                j += 1;
            }
            match &v[i] {
                LocationRender::Collectable(c) => {
                    if !ids_in_order(&c.ids) {
                        proof {
                            assert(!line_ok(v@[i as int]));
                        }
                        return false;
                    }
                },
                _ => {},
            }
            i += 1;
        }
        true
    }

    /// An empty mapper for `objective`, showing objective items or not.
    pub fn new(show_objectives: bool, objective: RunObjective) -> (m: Mapper)
        ensures
            m.wf(),
            m.show_objectives == show_objectives,
            m.level_objective == objective,
            m.key_len == 0,
            m.location_colors@.len() == 0,
            m.locations_copy@.len() == 0,
            m.locations.vec@.len() == 0,
            m.locations.error_found is None,
    {
        Mapper {
            location_colors: Vec::new(),
            level_objective: objective,
            key_len: 0,
            show_objectives,
            locations_copy: Vec::new(),
            locations: LocationRenderVec::new(),
        }
    }

    fn view_index(&self) -> (r: Option<usize>)
        ensures
            r matches Some(i) ==> first_view(self.location_colors@, self.level_objective) == Some(i as int)
                && i < self.location_colors@.len(),
            r is None ==> first_view(self.location_colors@, self.level_objective) is None,
    {
        let mut i: usize = 0;
        while i < self.location_colors.len()
            invariant
                i <= self.location_colors@.len(),
                forall|j: int| 0 <= j < i ==> !same_objective(#[trigger] self.location_colors@[j].0, self.level_objective),
            decreases self.location_colors@.len() - i,
        {
            if objective_equal(&self.location_colors[i].0, &self.level_objective) {
                proof {
                    reveal(first_view);
                    let s = self.location_colors@;
                    let o = self.level_objective;
                    let k = choose|k: int| 0 <= k < s.len() && same_objective(s[k].0, o) && forall|j: int| 0 <= j < k ==> !same_objective(s[j].0, o);
                    assert(same_objective(s[i as int].0, o));
                    assert(0 <= k < s.len() && same_objective(s[k].0, o) && forall|j: int| 0 <= j < k ==> !same_objective(s[j].0, o));
                    if k < i {
                        assert(!same_objective(s[k].0, o));
                    }
                    if i < k {
                        assert(!same_objective(s[i as int].0, o));
                    }
                }
                return Some(i);
            }
            i += 1;
        }
        proof {
            reveal(first_view);
        }
        None
    }

    /// Whether no view was read yet for the current objective.
    pub fn needs_view(&self) -> (b: bool)
        ensures
            b == first_view(self.location_colors@, self.level_objective) is None,
    {
        self.view_index().is_none()
    }

    /// Records the view read for `objective`, or why it could not be read.
    pub fn insert_view(&mut self, objective: RunObjective, view: Result<OptimizedLevelView, MapperColorError>)
        ensures
            final(self).location_colors@ == old(self).location_colors@.push((objective, view)),
            final(self).level_objective == old(self).level_objective,
            final(self).key_len == old(self).key_len,
            final(self).show_objectives == old(self).show_objectives,
            final(self).locations_copy == old(self).locations_copy,
            final(self).locations == old(self).locations,
    {
        self.location_colors.push((objective, view));
    }
}

} // verus!

verus! {

/// Whether things found in `zone` are shown under an optional view.
pub open spec fn zone_shown(view: Option<OptimizedLevelView>, zone: u64) -> bool {
    match view {
        None => true,
        Some(v) => !v.ignore_zones@.contains(zone),
    }
}

/// Whether `new` is `old` with one line of rank `r` put in its place, and
/// returns that place.
pub open spec fn placed_line(old: Seq<LocationRender>, new: Seq<LocationRender>, r: int) -> bool {
    let p = place_of(old, r);
    &&& 0 <= p <= old.len()
    &&& new == old.insert(p, new[p])
    &&& rank_of(new[p]) == r
}

/// Whether `line` shows `loc` as a key or an objective in the colour the
/// view gives it as key number `vec_id`.
pub open spec fn shows(line: KeyLocationRender, loc: Location, view: Option<OptimizedLevelView>, vec_id: int) -> bool {
    line.location == loc && color_answer(view, vec_id, loc, line.color)
}

/// What adding the found `loc` to the mapper `old` gives `new`: when the
/// zone is shown, a key gets a new key line coloured as key number
/// `key_len`, and counts as one more key; with objective items shown, a big
/// objective or collectable gets a new objective line, and a small item joins
/// the collectable line of its kind and zone (its id in increasing order), or
/// starts that line. Everything else leaves the lines as they are.
pub open spec fn added(old: Mapper, new: Mapper, loc: Location) -> bool {
    let ov = old.locations.vec@;
    let nv = new.locations.vec@;
    let view = old.cur_view();
    let shown = zone_shown(view, loc.zone_spec());
    match loc {
        Location::ColoredKey(_, _, _) | Location::BulkheadKey(_, _, _) => if shown {
            &&& new.key_len == old.key_len + 1
            &&& placed_line(ov, nv, 2)
            &&& nv[place_of(ov, 2)] matches LocationRender::Key(k)
            &&& shows(k, loc, view, old.key_len as int)
        } else {
            new.key_len == old.key_len && nv == ov
        },
        Location::BigObjective(_, _, _) | Location::BigCollectable(_, _) => {
            &&& new.key_len == old.key_len
            &&& if shown && old.show_objectives {
                &&& placed_line(ov, nv, 0)
                &&& nv[place_of(ov, 0)] matches LocationRender::Objective(k)
                &&& shows(k, loc, view, 0)
            } else {
                nv == ov
            }
        },
        Location::Gatherable(item, zone, id) => {
            &&& new.key_len == old.key_len
            &&& if shown && old.show_objectives {
                match first_group(ov, item@, zone) {
                    Some(q) => {
                        &&& ov[q] matches LocationRender::Collectable(c)
                        &&& nv.len() == ov.len()
                        &&& forall|j: int| 0 <= j < ov.len() && j != q ==> nv[j] == ov[j]
                        &&& nv[q] matches LocationRender::Collectable(d)
                        &&& d.name == c.name && d.zone == c.zone && d.name_color == c.name_color
                        &&& d.ids@ == c.ids@.insert(id_place(c.ids@, id), d.ids@[id_place(c.ids@, id)])
                        &&& d.ids@[id_place(c.ids@, id)].0 == id
                        &&& color_answer(view, 0, loc, d.ids@[id_place(c.ids@, id)].1)
                    },
                    None => {
                        &&& placed_line(ov, nv, 1)
                        &&& nv[place_of(ov, 1)] matches LocationRender::Collectable(d)
                        &&& d.name@ == item@ && d.zone == zone && d.name_color is None
                        &&& d.ids@.len() == 1 && d.ids@[0].0 == id
                        &&& color_answer(view, 0, loc, d.ids@[0].1)
                    },
                }
            } else {
                nv == ov
            }
        },
        Location::GenerationStarted(_) => new.key_len == old.key_len && nv == ov,
    }
}

/// The collectable line of item kind `name` in `zone`, if there is one.
fn group_index(v: &Vec<LocationRender>, name: &String, zone: u64) -> (r: Option<usize>)
    ensures
        r matches Some(i) ==> first_group(v@, name@, zone) == Some(i as int) && i < v@.len() && is_group(v@[i as int], name@, zone),
        r is None ==> first_group(v@, name@, zone) is None,
{
    let mut i: usize = 0;
    while i < v.len()
        invariant
            i <= v@.len(),
            forall|j: int| 0 <= j < i ==> !is_group(#[trigger] v@[j], name@, zone),
        decreases v@.len() - i,
    {
        let hit = match &v[i] {
            LocationRender::Collectable(c) => c.name == *name && c.zone == zone,
            _ => false,
        };
        if hit {
            proof {
                lemma_first_group(v@, name@, zone, i as int);
            }
            return Some(i);
        }
        i += 1;
    }
    proof {
        reveal(first_group);
    }
    None
}

proof fn lemma_first_group(s: Seq<LocationRender>, name: Seq<char>, zone: u64, i: int)
    requires
        0 <= i < s.len(),
        is_group(s[i], name, zone),
        forall|j: int| 0 <= j < i ==> !is_group(#[trigger] s[j], name, zone),
    ensures
        first_group(s, name, zone) == Some(i),
{
    reveal(first_group);
    let k = choose|k: int| 0 <= k < s.len() && is_group(s[k], name, zone) && forall|j: int| 0 <= j < k ==> !is_group(s[j], name, zone);
    assert(0 <= k < s.len() && is_group(s[k], name, zone) && forall|j: int| 0 <= j < k ==> !is_group(s[j], name, zone));
    if k < i {
        assert(!is_group(s[k], name, zone));
    }
    if i < k {
        assert(!is_group(s[i], name, zone));
    }
}

proof fn lemma_update_lines_ok(s: Seq<LocationRender>, q: int, line: LocationRender)
    requires
        lines_ok(s),
        0 <= q < s.len(),
        rank_of(line) == rank_of(s[q]),
        line_ok(line),
    ensures
        lines_ok(s.update(q, line)),
{
    let t = s.update(q, line);
    assert forall|i: int, j: int| 0 <= i < j < t.len() implies rank_of(#[trigger] t[i]) >= rank_of(#[trigger] t[j]) by {
        assert(rank_of(s[i]) >= rank_of(s[j]));
    };
    assert forall|i: int| 0 <= i < t.len() implies line_ok(#[trigger] t[i]) by {
        if i != q {
            assert(t[i] == s[i]);
        }
    };
}

/// Adds id `id`, shown in `color`, to the collectable line at `q`.
fn merge_into_group(v: &mut Vec<LocationRender>, q: usize, id: u64, color: Option<Color>)
    requires
        lines_ok(old(v)@),
        q < old(v)@.len(),
        old(v)@[q as int] is Collectable,
    ensures
        lines_ok(final(v)@),
        old(v)@[q as int] matches LocationRender::Collectable(c) && final(v)@[q as int] matches LocationRender::Collectable(d)
            && d.name == c.name && d.zone == c.zone && d.name_color == c.name_color
            && d.ids@ == c.ids@.insert(id_place(c.ids@, id), (id, color)),
        final(v)@ == old(v)@.update(q as int, final(v)@[q as int]),
{
    let ghost ov = v@;
    let line = v.remove(q);
    proof {
        ov.remove_ensures(q as int);
        assert(line == ov[q as int]);
        assert(line_ok(ov[q as int]));
    }
    match line {
        LocationRender::Collectable(mut c) => {
            place_id(&mut c.ids, id, color);
            let newline = LocationRender::Collectable(c);
            proof {
                lemma_update_lines_ok(ov, q as int, newline);
            }
            v.insert(q, newline);
            proof {
                assert(v@ =~= ov.update(q as int, newline));
            }
        },
        other => {
            v.insert(q, other);
        },
    }
}

/// Adds id `id` of item kind `item` in `zone`, shown in `color`, to the
/// collectable line of that kind and zone, or starts that line.
fn add_gatherable(v: &mut Vec<LocationRender>, item: String, zone: u64, id: u64, color: Option<Color>)
    requires
        lines_ok(old(v)@),
    ensures
        lines_ok(final(v)@),
        ({
            let ov = old(v)@;
            let nv = final(v)@;
            match first_group(ov, item@, zone) {
                Some(q) => {
                    &&& ov[q] matches LocationRender::Collectable(c)
                    &&& nv.len() == ov.len()
                    &&& forall|j: int| 0 <= j < ov.len() && j != q ==> nv[j] == ov[j]
                    &&& nv[q] matches LocationRender::Collectable(d)
                    &&& d.name == c.name && d.zone == c.zone && d.name_color == c.name_color
                    &&& d.ids@ == c.ids@.insert(id_place(c.ids@, id), (id, color))
                },
                None => {
                    &&& placed_line(ov, nv, 1)
                    &&& nv[place_of(ov, 1)] matches LocationRender::Collectable(d)
                    &&& d.name@ == item@ && d.zone == zone && d.name_color is None
                    &&& d.ids@ == seq![(id, color)]
                },
            }
        }),
{
    match group_index(v, &item, zone) {
        Some(q) => {
            merge_into_group(v, q, id, color);
        },
        None => {
            let mut ids: Vec<(u64, Option<Color>)> = Vec::new();
            ids.push((id, color));
            let line = LocationRender::Collectable(ObjectiveLocationRender { name_color: None, name: item, zone, ids });
            proof {
                assert(ids_ascending(seq![(id, color)]));
                assert(ids@ =~= seq![(id, color)]);
            }
            place(v, line);
        },
    }
}

/// Adds a key or objective line for `location`, coloured as key number
/// `vec_id` under `view`.
fn add_key_line(v: &mut Vec<LocationRender>, view: Option<&OptimizedLevelView>, vec_id: usize, location: Location, as_key: bool)
    requires
        lines_ok(old(v)@),
    ensures
        lines_ok(final(v)@),
        placed_line(old(v)@, final(v)@, if as_key { 2 } else { 0 }),
        ({
            let line = final(v)@[place_of(old(v)@, if as_key { 2 } else { 0 })];
            let gview = match view {
                None => None,
                Some(w) => Some(*w),
            };
            if as_key {
                line matches LocationRender::Key(k) && shows(k, location, gview, vec_id as int)
            } else {
                line matches LocationRender::Objective(k) && shows(k, location, gview, vec_id as int)
            }
        }),
{
    let color = lookup_color(view, vec_id, &location);
    let line = if as_key {
        LocationRender::Key(KeyLocationRender { location, color })
    } else {
        LocationRender::Objective(KeyLocationRender { location, color })
    };
    place(v, line);
}

impl Mapper {
    /// Adds the found `location` to the mapper (see [`added`]), keeps it in
    /// the list of everything found, and notes the error of the level view
    /// if it could not be read.
    pub fn add_location(&mut self, location: Location)
        requires
            old(self).wf(),
            old(self).key_len < usize::MAX,
        ensures
            final(self).wf(),
            added(*old(self), *final(self), location),
            final(self).locations_copy@ == old(self).locations_copy@.push(location),
            final(self).location_colors == old(self).location_colors,
            final(self).level_objective == old(self).level_objective,
            final(self).show_objectives == old(self).show_objectives,
            final(self).locations.error_found == match old(self).cur_error() {
                Some(e) => Some(e),
                None => old(self).locations.error_found,
            },
    {
        self.locations_copy.push(location.clone());
        let vi = self.view_index();
        let view: Option<&OptimizedLevelView> = match vi {
            Some(i) => match &self.location_colors[i].1 {
                Ok(v) => Some(v),
                Err(e) => {
                    self.locations.error_found = Some(e.clone());
                    None
                },
            },
            None => None,
        };
        let ghost gview = match view {
            None => None,
            Some(v) => Some(*v),
        };
        assert(gview == old(self).cur_view());
        if !zone_is_valid(view, location.get_zone()) {
            return;
        }
        let kind: u8 = match &location {
            Location::ColoredKey(_, _, _) | Location::BulkheadKey(_, _, _) => 0,
            Location::BigObjective(_, _, _) | Location::BigCollectable(_, _) => 1,
            Location::Gatherable(_, _, _) => 2,
            Location::GenerationStarted(_) => 3,
        };
        if kind == 0 {
            add_key_line(&mut self.locations.vec, view, self.key_len, location, true);
            self.key_len += 1;
        } else if kind == 1 {
            if self.show_objectives {
                add_key_line(&mut self.locations.vec, view, 0, location, false);
            }
        } else if kind == 2 {
            if self.show_objectives {
                let (item, zone, id) = match &location {
                    Location::Gatherable(item, zone, id) => (item.clone(), *zone, *id),
                    _ => (String::new(), 0, 0),
                };
                let color = lookup_color(view, 0, &location);
                let ghost ov = self.locations.vec@;
                add_gatherable(&mut self.locations.vec, item, zone, id, color);
                proof {
                    match first_group(ov, item@, zone) {
                        Some(q) => {
                            if let LocationRender::Collectable(c) = ov[q] {
                                let p = id_place(c.ids@, id);
                                lemma_id_place_bounds(c.ids@, id);
                                c.ids@.insert_ensures(p, (id, color));
                            }
                        },
                        None => {},
                    }
                }
            }
        }
    }
}

} // verus!

verus! {

impl Mapper {
    /// Starts a new generation for `objective`: no key found yet, no line,
    /// nothing found.
    pub fn start_generation(&mut self, objective: RunObjective)
        ensures
            final(self).wf(),
            final(self).level_objective == objective,
            final(self).key_len == 0,
            final(self).locations.vec@.len() == 0,
            final(self).locations_copy@.len() == 0,
            final(self).locations.error_found == old(self).locations.error_found,
            final(self).location_colors == old(self).location_colors,
            final(self).show_objectives == old(self).show_objectives,
    {
        self.key_len = 0;
        self.locations.vec.clear();
        self.locations_copy.clear();
        self.level_objective = objective;
    }

    /// Handles what the log reader reports: the start of a level's
    /// generation starts a new generation for that level's objective as
    /// `reader` rewrites it; anything else is added to the mapper.
    pub fn receive<R: ObjectiveReader>(&mut self, reader: &R, location: Location)
        requires
            old(self).wf(),
            old(self).key_len < usize::MAX,
        ensures
            final(self).wf(),
            final(self).location_colors == old(self).location_colors,
            final(self).show_objectives == old(self).show_objectives,
            match location {
                Location::GenerationStarted(level) => {
                    &&& final(self).level_objective == reader.override_spec(
                        RunObjective {
                            level_name: level,
                            player_count: 0,
                            secondary: false,
                            overload: false,
                            glitched: false,
                            early_drop: false,
                        },
                    )
                    &&& final(self).key_len == 0
                    &&& final(self).locations.vec@.len() == 0
                    &&& final(self).locations_copy@.len() == 0
                },
                _ => {
                    &&& added(*old(self), *final(self), location)
                    &&& final(self).locations_copy@ == old(self).locations_copy@.push(location)
                    &&& final(self).level_objective == old(self).level_objective
                },
            },
    {
        match location {
            Location::GenerationStarted(level) => {
                let objective = reader.override_obj(RunObjective::from_name(level));
                self.start_generation(objective);
            },
            other => {
                self.add_location(other);
            },
        }
    }
}

impl UpdateObjective for Mapper {
    /// Rewrites the objective with `reader` and rebuilds the lines from
    /// everything found so far, in the order it was found: from no line and
    /// no key, each found thing is added in turn as `add_location` adds it.
    fn update<R: ObjectiveReader>(&mut self, reader: &R)
        ensures
            final(self).wf(),
            final(self).level_objective == reader.override_spec(old(self).level_objective),
            final(self).locations_copy@ == old(self).locations_copy@,
            final(self).location_colors == old(self).location_colors,
            final(self).show_objectives == old(self).show_objectives,
            exists|trace: Seq<Mapper>|
                {
                    &&& trace.len() == old(self).locations_copy@.len() + 1
                    &&& trace[0].locations.vec@.len() == 0
                    &&& trace[0].key_len == 0
                    &&& trace[0].level_objective == final(self).level_objective
                    &&& trace[0].location_colors == old(self).location_colors
                    &&& trace[0].show_objectives == old(self).show_objectives
                    &&& trace[0].locations.error_found == old(self).locations.error_found
                    &&& forall|k: int|
                        0 <= k < old(self).locations_copy@.len() ==> #[trigger] added(
                            trace[k],
                            trace[k + 1],
                            old(self).locations_copy@[k],
                        )
                    &&& trace.last().locations == final(self).locations
                    &&& trace.last().key_len == final(self).key_len
                },
    {
        let objective = reader.override_obj(self.level_objective.clone());
        self.level_objective = objective;
        self.key_len = 0;
        self.locations.vec.clear();
        let mut found: Vec<Location> = Vec::new();
        std::mem::swap(&mut found, &mut self.locations_copy);
        let ghost start = *self;
        let ghost mut trace: Seq<Mapper> = seq![start];
        let mut i: usize = 0;
        while i < found.len()
            invariant
                i <= found@.len(),
                found@ == old(self).locations_copy@,
                self.wf(),
                self.key_len <= i,
                self.locations_copy@ == found@.take(i as int),
                self.level_objective == reader.override_spec(old(self).level_objective),
                self.location_colors == old(self).location_colors,
                self.show_objectives == old(self).show_objectives,
                trace.len() == i + 1,
                trace[0] == start,
                start.locations.vec@.len() == 0,
                start.key_len == 0,
                start.level_objective == self.level_objective,
                start.location_colors == old(self).location_colors,
                start.show_objectives == old(self).show_objectives,
                start.locations.error_found == old(self).locations.error_found,
                trace.last() == *self,
                forall|k: int| 0 <= k < i ==> #[trigger] added(trace[k], trace[k + 1], found@[k]),
            decreases found@.len() - i,
        {
            let ghost before = *self;
            self.add_location(found[i].clone());
            proof {
                assert(trace.push(*self)[i as int] == before);
                trace = trace.push(*self);
                assert forall|k: int| 0 <= k < i + 1 implies #[trigger] added(trace[k], trace[k + 1], found@[k]) by {
                    if k < i {
                        assert(trace[k] == trace.drop_last()[k]);
                        assert(trace[k + 1] == trace.drop_last()[k + 1]);
                    }
                }
            }
            i += 1;
            assert(self.locations_copy@ =~= found@.take(i as int));
        }
        assert(found@.take(i as int) =~= found@);
    }
}

fn ids_in_order(ids: &Vec<(u64, Option<Color>)>) -> (b: bool)
    ensures
        b == ids_ascending(ids@),
{
    let n = ids.len();
    let mut i: usize = 0;
    while i < n
        invariant
            n == ids@.len(),
            i <= n,
            forall|a: int, b: int| 0 <= a < b < n && a < i ==> (#[trigger] ids@[a]).0 <= (#[trigger] ids@[b]).0,
        decreases n - i,
    {
        let mut j: usize = i + 1;
        while j < n
            invariant
                n == ids@.len(),
                i < j <= n,
                forall|b: int| i < b < j ==> ids@[i as int].0 <= (#[trigger] ids@[b]).0,
            decreases n - j,
        {
            if ids[i].0 > ids[j].0 {
                return false;
            }
            j += 1;
        }
        i += 1;
    }
    true
}

} // verus!
