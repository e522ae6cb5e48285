//! Level views: which colour each key, objective item and zone of a level is
//! shown in, and which zones are left out.
use vstd::prelude::*;
use std::collections::{HashMap, HashSet};

verus! {

broadcast use {
    vstd::std_specs::hash::group_hash_axioms,
};

/// An opaque RGBA colour, one byte per channel.
#[derive(Clone, Copy, Debug, PartialEq, Eq, Structural)]
pub struct Color {
    pub r: u8,
    pub g: u8,
    pub b: u8,
    pub a: u8,
}

impl Color {
    /// The opaque colour with the given red, green and blue.
    pub fn from_rgb(r: u8, g: u8, b: u8) -> (c: Color)
        ensures
            c == (Color { r, g, b, a: 255 }),
    {
        Color { r, g, b, a: 255 }
    }
}

/// The colours a level view may name.
#[derive(Clone, Copy, Debug, PartialEq, Eq, Structural)]
pub enum MapperColor {
    White,
    Blue,
    Green,
    Yellow,
    Orange,
    Red,
    Purple,
    Grey,
    RGB(u8, u8, u8),
}

/// The colour that a named colour stands for.
pub open spec fn color_of(m: MapperColor) -> Color {
    match m {
        MapperColor::White => Color { r: 255, g: 255, b: 255, a: 255 },
        MapperColor::Blue => Color { r: 30, g: 155, b: 255, a: 255 },
        MapperColor::Green => Color { r: 45, g: 255, b: 30, a: 255 },
        MapperColor::Yellow => Color { r: 255, g: 255, b: 30, a: 255 },
        MapperColor::Orange => Color { r: 255, g: 69, b: 0, a: 255 },
        MapperColor::Red => Color { r: 255, g: 15, b: 15, a: 255 },
        MapperColor::Purple => Color { r: 160, g: 32, b: 240, a: 255 },
        MapperColor::Grey => Color { r: 100, g: 100, b: 100, a: 255 },
        MapperColor::RGB(r, g, b) => Color { r, g, b, a: 255 },
    }
}

impl MapperColor {
    /// The colour that this named colour stands for.
    pub fn to_color(&self) -> (c: Color)
        ensures
            c == color_of(*self),
    {
        match self {
            MapperColor::White => Color::from_rgb(255, 255, 255),
            MapperColor::Blue => Color::from_rgb(30, 155, 255),
            MapperColor::Green => Color::from_rgb(45, 255, 30),
            MapperColor::Yellow => Color::from_rgb(255, 255, 30),
            MapperColor::Orange => Color::from_rgb(255, 69, 0),
            MapperColor::Red => Color::from_rgb(255, 15, 15),
            MapperColor::Purple => Color::from_rgb(160, 32, 240),
            MapperColor::Grey => Color::from_rgb(100, 100, 100),
            MapperColor::RGB(r, g, b) => Color::from_rgb(*r, *g, *b),
        }
    }
}

/// A set of ids: one id, or every id of an inclusive range.
#[derive(Clone, Copy, Debug, PartialEq, Eq, Structural)]
pub enum KeyID {
    VecID(u64),
    RangeID(u64, u64),
}

impl KeyID {
    /// The ids this key id stands for.
    pub open spec fn ids(self) -> Set<u64> {
        match self {
            KeyID::VecID(id) => set![id],
            KeyID::RangeID(start, end) => Set::new(|x: u64| start <= x <= end),
        }
    }

    /// Whether `id` is one of the ids.
    pub fn contains(&self, id: u64) -> (b: bool)
        ensures
            b == self.ids().contains(id),
    {
        match self {
            KeyID::VecID(v) => *v == id,
            KeyID::RangeID(start, end) => *start <= id && id <= *end,
        }
    }

    /// Whether the 32-bit id `id` is one of the ids: it must not be
    /// negative, and its value must be among them.
    pub fn contains_i32(&self, id: i32) -> (b: bool)
        ensures
            b == (id >= 0 && self.ids().contains(id as u64)),
    {
        if id < 0 {
            false
        } else {
            self.contains(id as u64)
        }
    }

    /// Adds every id to `set`.
    pub fn add_to_set(self, set: &mut HashSet<u64>)
        ensures
            final(set)@ == old(set)@.union(self.ids()),
    {
        match self {
            KeyID::VecID(id) => {
                set.insert(id);
                assert(set@ =~= old(set)@.union(self.ids()));
            },
            KeyID::RangeID(start, end) => {
                if start <= end {
                    let mut id = start;
                    loop
                        invariant_except_break
                            self == KeyID::RangeID(start, end),
                            start <= id <= end,
                            set@ == old(set)@.union(Set::new(|x: u64| start <= x < id)),
                        ensures
                            set@ == old(set)@.union(self.ids()),
                        decreases end - id,
                    {
                        set.insert(id);
                        if id == end {
                            assert(set@ =~= old(set)@.union(self.ids()));
                            break;
                        }
                        id += 1;
                        assert(set@ =~= old(set)@.union(Set::new(|x: u64| start <= x < id)));
                    }
                } else {
                    assert(self.ids() =~= Set::<u64>::empty());
                    assert(set@ =~= old(set)@.union(self.ids()));
                }
            },
        }
    }

    /// Adds to `set` every id that is also a 32-bit id.
    pub fn add_to_set_i32(self, set: &mut HashSet<i32>)
        ensures
            final(set)@ == old(set)@.union(
                Set::new(|x: i32| x >= 0 && self.ids().contains(x as u64)),
            ),
    {
        let ghost added = Set::new(|x: i32| x >= 0 && self.ids().contains(x as u64));
        match self {
            KeyID::VecID(id) => {
                if id <= 0x7fff_ffff {
                    set.insert(id as i32);
                    assert(set@ =~= old(set)@.union(added));
                } else {
                    assert(added =~= Set::<i32>::empty());
                    assert(set@ =~= old(set)@.union(added));
                }
            },
            KeyID::RangeID(start, end0) => {
                let end = if end0 > 0x7fff_ffff { 0x7fff_ffff } else { end0 };
                if start <= end {
                    let mut id = start;
                    loop
                        invariant_except_break
                            self == KeyID::RangeID(start, end0),
                            added == Set::new(|x: i32| x >= 0 && self.ids().contains(x as u64)),
                            start <= id <= end,
                            end <= 0x7fff_ffff,
                            end == if end0 > 0x7fff_ffff { 0x7fff_ffffu64 } else { end0 },
                            set@ == old(set)@.union(Set::new(|x: i32| start <= x && x < id)),
                        ensures
                            set@ == old(set)@.union(added),
                        decreases end - id,
                    {
                        set.insert(id as i32);
                        if id == end {
                            assert(set@ =~= old(set)@.union(added));
                            break;
                        }
                        id += 1;
                        assert(set@ =~= old(set)@.union(Set::new(|x: i32| start <= x && x < id)));
                    }
                } else {
                    assert(added =~= Set::<i32>::empty());
                    assert(set@ =~= old(set)@.union(added));
                }
            },
        }
    }
}

} // verus!

verus! {

/// Where something was found in a level.
#[derive(Debug)]
pub enum Location {
    /// A coloured key: its name, zone and id.
    ColoredKey(String, u64, u64),
    /// A bulkhead key: its name, zone and id.
    BulkheadKey(String, u64, u64),
    /// A small objective item: its kind, zone and id.
    Gatherable(String, u64, u64),
    /// A big objective: its name, zone and area.
    BigObjective(String, u64, u64),
    /// A big collectable: its name and zone.
    BigCollectable(String, u64),
    /// The generation of the named level started.
    GenerationStarted(String),
}

impl Location {
    /// The zone of the location; zero when the generation starts.
    pub open spec fn zone_spec(&self) -> u64 {
        match self {
            Location::ColoredKey(_, z, _) => *z,
            Location::BulkheadKey(_, z, _) => *z,
            Location::Gatherable(_, z, _) => *z,
            Location::BigObjective(_, z, _) => *z,
            Location::BigCollectable(_, z) => *z,
            Location::GenerationStarted(_) => 0,
        }
    }

    /// The zone of the location; zero when the generation starts.
    pub fn get_zone(&self) -> (z: u64)
        ensures
            z == self.zone_spec(),
    {
        match self {
            Location::ColoredKey(_, z, _) => *z,
            Location::BulkheadKey(_, z, _) => *z,
            Location::Gatherable(_, z, _) => *z,
            Location::BigObjective(_, z, _) => *z,
            Location::BigCollectable(_, z) => *z,
            Location::GenerationStarted(_) => 0,
        }
    }
}

impl Clone for Location {
    fn clone(&self) -> (r: Self)
        ensures
            r == *self,
    {
        match self {
            Location::ColoredKey(n, z, i) => Location::ColoredKey(n.clone(), *z, *i),
            Location::BulkheadKey(n, z, i) => Location::BulkheadKey(n.clone(), *z, *i),
            Location::Gatherable(n, z, i) => Location::Gatherable(n.clone(), *z, *i),
            Location::BigObjective(n, z, i) => Location::BigObjective(n.clone(), *z, *i),
            Location::BigCollectable(n, z) => Location::BigCollectable(n.clone(), *z),
            Location::GenerationStarted(n) => Location::GenerationStarted(n.clone()),
        }
    }
}

/// The ids of a sequence of key ids, together.
pub open spec fn union_ids(s: Seq<KeyID>) -> Set<u64>
    decreases s.len(),
{
    if s.len() == 0 {
        Set::empty()
    } else {
        union_ids(s.drop_last()).union(s.last().ids())
    }
}

/// The ids of one zone shown in one colour, as a level view names them.
#[derive(Debug)]
pub struct ColorIds {
    pub zone: u64,
    pub color: MapperColor,
    pub ids: Vec<KeyID>,
}

/// The ids of one item kind in one zone shown in one colour, as a level view
/// names them.
#[derive(Debug)]
pub struct NamedColorIds {
    pub name: String,
    pub zone: u64,
    pub color: MapperColor,
    pub ids: Vec<KeyID>,
}

/// A level view as written by hand: for the n-th key found, the colour of
/// each zone and id; for each objective item kind, the colour of each zone
/// and id; the zones to leave out; and the colour of everything else.
#[derive(Debug)]
pub struct LevelView {
    pub key_colors: Vec<Vec<ColorIds>>,
    pub objective_colors: Vec<NamedColorIds>,
    pub ignore_zones: Vec<u64>,
    pub default_color: MapperColor,
}

/// The ids of a zone shown in one colour, ready for look-up.
#[derive(Debug)]
pub struct ColorSet {
    pub color: Color,
    pub ids: HashSet<u64>,
}

/// The colours of the zone `z` in `row`, in order, each with its ids.
pub open spec fn zone_view(row: Seq<ColorIds>, z: u64) -> Seq<(Color, Set<u64>)>
    decreases row.len(),
{
    if row.len() == 0 {
        Seq::empty()
    } else {
        zone_view(row.drop_last(), z) + if row.last().zone == z {
            seq![(color_of(row.last().color), union_ids(row.last().ids@))]
        } else {
            Seq::empty()
        }
    }
}

/// A zone's colours as plain values.
pub open spec fn sets_model(v: Seq<ColorSet>) -> Seq<(Color, Set<u64>)> {
    v.map_values(|e: ColorSet| (e.color, e.ids@))
}

/// The ids of one item kind in one zone shown in one colour, ready for
/// look-up.
#[derive(Debug)]
pub struct NamedColorSet {
    pub name: String,
    pub zone: u64,
    pub color: Color,
    pub ids: HashSet<u64>,
}

/// A level view ready for look-up.
#[derive(Debug)]
pub struct OptimizedLevelView {
    pub key_colors: Vec<HashMap<u64, Vec<ColorSet>>>,
    pub objective_colors: Vec<NamedColorSet>,
    pub ignore_zones: HashSet<u64>,
    pub default_color: Color,
}

/// The set of ids named by a sequence of key ids.
fn id_set(ids: &Vec<KeyID>) -> (s: HashSet<u64>)
    ensures
        s@ == union_ids(ids@),
{
    let mut s: HashSet<u64> = HashSet::new();
    let mut i: usize = 0;
    while i < ids.len()
        invariant
            i <= ids@.len(),
            s@ == union_ids(ids@.take(i as int)),
        decreases ids@.len() - i,
    {
        ids[i].add_to_set(&mut s);
        i += 1;
        assert(ids@.take(i as int).drop_last() =~= ids@.take(i - 1));
    }
    assert(ids@.take(i as int) =~= ids@);
    s
}

/// The colours of each zone of `row`, in order, each with the set of its
/// ids.
fn zone_map(row: &Vec<ColorIds>) -> (m: HashMap<u64, Vec<ColorSet>>)
    ensures
        forall|z: u64| #[trigger] m@.contains_key(z) <==> zone_view(row@, z).len() > 0,
        forall|z: u64| #[trigger] m@.contains_key(z) ==> sets_model(m@[z]@) == zone_view(row@, z),
{
    let mut m: HashMap<u64, Vec<ColorSet>> = HashMap::new();
    let mut k: usize = 0;
    assert(row@.take(0) =~= Seq::<ColorIds>::empty());
    while k < row.len()
        invariant
            k <= row@.len(),
            forall|z: u64| #[trigger] m@.contains_key(z) <==> zone_view(row@.take(k as int), z).len() > 0,
            forall|z: u64| #[trigger] m@.contains_key(z) ==> sets_model(m@[z]@) == zone_view(row@.take(k as int), z),
        decreases row@.len() - k,
    {
        let e = &row[k];
        let set = ColorSet { color: e.color.to_color(), ids: id_set(&e.ids) };
        let ghost before = m@;
        let mut v = match m.remove(&e.zone) {
            Some(v) => v,
            None => Vec::new(),
        };
        let ghost v0 = v@;
        v.push(set);
        m.insert(e.zone, v);
        proof {
            let t0 = row@.take(k as int);
            let t1 = row@.take(k + 1);
            assert(t1.drop_last() =~= t0);
            assert(t1.last() == *e);
            assert(sets_model(v0.push(set)) =~= sets_model(v0).push((set.color, set.ids@)));
            assert forall|z: u64| #[trigger] m@.contains_key(z) <==> zone_view(t1, z).len() > 0 by {}
            assert forall|z: u64| #[trigger] m@.contains_key(z) implies sets_model(m@[z]@) == zone_view(t1, z) by {
                if z == e.zone {
                    if before.contains_key(z) {
                        assert(v0 == before[z]@);
                    } else {
                        assert(zone_view(t0, z).len() == 0);
                        assert(sets_model(v0) =~= Seq::<(Color, Set<u64>)>::empty());
                    }
                    assert(zone_view(t1, z) =~= zone_view(t0, z) + seq![(color_of(e.color), union_ids(e.ids@))]);
                } else {
                    assert(zone_view(t1, z) =~= zone_view(t0, z) + Seq::<(Color, Set<u64>)>::empty());
                }
            }
        }
        k += 1;
    }
    assert(row@.take(k as int) =~= row@);
    m
}

impl LevelView {
    /// The same view ready for look-up: every colour name turned into its
    /// colour, every list of key ids into the set of their ids, and the
    /// zones to leave out into a set.
    pub fn optimize(&self) -> (o: OptimizedLevelView)
        ensures
            o.key_colors@.len() == self.key_colors@.len(),
            forall|i: int, z: u64|
                0 <= i < self.key_colors@.len() ==> (#[trigger] o.key_colors@[i]@.contains_key(z) <==> zone_view(
                    self.key_colors@[i]@,
                    z,
                ).len() > 0),
            forall|i: int, z: u64|
                0 <= i < self.key_colors@.len() && #[trigger] o.key_colors@[i]@.contains_key(z) ==> sets_model(
                    o.key_colors@[i]@[z]@,
                ) == zone_view(self.key_colors@[i]@, z),
            o.objective_colors@.len() == self.objective_colors@.len(),
            forall|k: int|
                0 <= k < self.objective_colors@.len() ==> {
                    let a = #[trigger] o.objective_colors@[k];
                    let b = self.objective_colors@[k];
                    a.name == b.name && a.zone == b.zone && a.color == color_of(b.color) && a.ids@
                        == union_ids(b.ids@)
                },
            o.ignore_zones@ == self.ignore_zones@.to_set(),
            o.default_color == color_of(self.default_color),
    {
        let mut key_colors: Vec<HashMap<u64, Vec<ColorSet>>> = Vec::new();
        let mut i: usize = 0;
        while i < self.key_colors.len()
            invariant
                i <= self.key_colors@.len(),
                key_colors@.len() == i,
                forall|a: int, z: u64|
                    0 <= a < i ==> (#[trigger] key_colors@[a]@.contains_key(z) <==> zone_view(
                        self.key_colors@[a]@,
                        z,
                    ).len() > 0),
                forall|a: int, z: u64|
                    0 <= a < i && #[trigger] key_colors@[a]@.contains_key(z) ==> sets_model(key_colors@[a]@[z]@)
                        == zone_view(self.key_colors@[a]@, z),
            decreases self.key_colors@.len() - i,
        {
            let m = zone_map(&self.key_colors[i]);
            key_colors.push(m);
            proof {
                assert forall|a: int, z: u64| 0 <= a < i + 1 implies (#[trigger] key_colors@[a]@.contains_key(z)
                    <==> zone_view(self.key_colors@[a]@, z).len() > 0) by {
                    if a == i {
                        assert(key_colors@[a] == m);
                    }
                }
                assert forall|a: int, z: u64| 0 <= a < i + 1 && #[trigger] key_colors@[a]@.contains_key(z) implies sets_model(
                    key_colors@[a]@[z]@,
                ) == zone_view(self.key_colors@[a]@, z) by {
                    if a == i {
                        assert(key_colors@[a] == m);
                    }
                }
            }
            i += 1;
        }
        let mut objective_colors: Vec<NamedColorSet> = Vec::new();
        let mut k: usize = 0;
        while k < self.objective_colors.len()
            invariant
                k <= self.objective_colors@.len(),
                objective_colors@.len() == k,
                forall|j: int| 0 <= j < k ==> {
                    let x = #[trigger] objective_colors@[j];
                    let y = self.objective_colors@[j];
                    x.name == y.name && x.zone == y.zone && x.color == color_of(y.color) && x.ids@
                        == union_ids(y.ids@)
                },
            decreases self.objective_colors@.len() - k,
        {
            let e = &self.objective_colors[k];
            objective_colors.push(
                NamedColorSet {
                    name: e.name.clone(),
                    zone: e.zone,
                    color: e.color.to_color(),
                    ids: id_set(&e.ids),
                },
            );
            k += 1;
        }
        let mut ignore_zones: HashSet<u64> = HashSet::new();
        let mut z: usize = 0;
        while z < self.ignore_zones.len()
            invariant
                z <= self.ignore_zones@.len(),
                forall|a: u64| #[trigger] ignore_zones@.contains(a) <==> self.ignore_zones@.take(z as int).contains(a),
            decreases self.ignore_zones@.len() - z,
        {
            let ghost before = ignore_zones@;
            ignore_zones.insert(self.ignore_zones[z]);
            proof {
                let t0 = self.ignore_zones@.take(z as int);
                let t1 = self.ignore_zones@.take(z + 1);
                assert forall|a: u64| #[trigger] ignore_zones@.contains(a) <==> t1.contains(a) by {
                    if t1.contains(a) {
                        let j = choose|j: int| 0 <= j < t1.len() && t1[j] == a;
                        if j < z {
                            assert(t0[j] == a);
                        }
                    }
                    if t0.contains(a) {
                        let j = choose|j: int| 0 <= j < t0.len() && t0[j] == a;
                        assert(t1[j] == a);
                    }
                    assert(t1[z as int] == self.ignore_zones@[z as int]);
                };
            }
            z += 1;
        }
        assert(self.ignore_zones@.take(z as int) =~= self.ignore_zones@);
        assert(ignore_zones@ =~= self.ignore_zones@.to_set());
        OptimizedLevelView {
            key_colors,
            objective_colors,
            ignore_zones,
            default_color: self.default_color.to_color(),
        }
    }
}

} // verus!

verus! {

/// The first place from `k` on in `v` of a colour whose ids hold `id`.
pub open spec fn first_set_at(v: Seq<ColorSet>, id: u64, k: int) -> Option<int>
    decreases v.len() - k,
{
    if k >= v.len() {
        None
    } else if v[k].ids@.contains(id) {
        Some(k)
    } else {
        first_set_at(v, id, k + 1)
    }
}

/// The first place from `k` on in `s` of an entry for the item kind `name`
/// in zone `zone` whose ids hold `id`.
pub open spec fn first_named_at(s: Seq<NamedColorSet>, name: Seq<char>, zone: u64, id: u64, k: int) -> Option<int>
    decreases s.len() - k,
{
    if k >= s.len() {
        None
    } else if s[k].name@ == name && s[k].zone == zone && s[k].ids@.contains(id) {
        Some(k)
    } else {
        first_named_at(s, name, zone, id, k + 1)
    }
}

impl OptimizedLevelView {
    /// The colour of the first entry of the zone `zone` of the key found as
    /// number `vec_id` whose ids hold `id`, if there is one.
    pub open spec fn key_color(self, vec_id: int, zone: u64, id: u64) -> Option<Color> {
        if 0 <= vec_id < self.key_colors@.len() && self.key_colors@[vec_id]@.contains_key(zone) {
            let v = self.key_colors@[vec_id]@[zone]@;
            match first_set_at(v, id, 0) {
                Some(k) => Some(v[k].color),
                None => None,
            }
        } else {
            None
        }
    }

    /// The colour of the first entry of the item kind `name` in zone `zone`
    /// whose ids hold `id`, if there is one.
    pub open spec fn objective_color(self, name: Seq<char>, zone: u64, id: u64) -> Option<Color> {
        match first_named_at(self.objective_colors@, name, zone, id, 0) {
            Some(k) => Some(self.objective_colors@[k].color),
            None => None,
        }
    }

    /// The colour the view gives `location`, found as key number `vec_id`:
    /// that of the first entry that fits; big collectables and the start of
    /// a generation have none.
    pub open spec fn location_color(self, vec_id: int, location: Location) -> Option<Color> {
        match location {
            Location::ColoredKey(_, zone, id) => self.key_color(vec_id, zone, id),
            Location::BulkheadKey(_, zone, id) => self.key_color(vec_id, zone, id),
            Location::Gatherable(name, zone, id) => self.objective_color(name@, zone, id),
            Location::BigObjective(name, zone, area) => self.objective_color(name@, zone, area),
            _ => None,
        }
    }

    fn key_lookup(&self, vec_id: usize, zone: u64, id: u64) -> (r: Option<Color>)
        ensures
            r == self.key_color(vec_id as int, zone, id),
    {
        if vec_id >= self.key_colors.len() {
            return None;
        }
        let v = match self.key_colors[vec_id].get(&zone) {
            Some(v) => v,
            None => {
                return None;
            },
        };
        let mut k: usize = 0;
        while k < v.len()
            invariant
                k <= v@.len(),
                vec_id < self.key_colors@.len(),
                self.key_colors@[vec_id as int]@.contains_key(zone),
                *v == self.key_colors@[vec_id as int]@[zone],
                first_set_at(v@, id, 0) == first_set_at(v@, id, k as int),
            decreases v@.len() - k,
        {
            if v[k].ids.contains(&id) {
                return Some(v[k].color);
            }
            k += 1;
        }
        None
    }

    fn objective_lookup(&self, name: &String, zone: u64, id: u64) -> (r: Option<Color>)
        ensures
            r == self.objective_color(name@, zone, id),
    {
        let mut k: usize = 0;
        while k < self.objective_colors.len()
            invariant
                k <= self.objective_colors@.len(),
                first_named_at(self.objective_colors@, name@, zone, id, 0) == first_named_at(
                    self.objective_colors@,
                    name@,
                    zone,
                    id,
                    k as int,
                ),
            decreases self.objective_colors@.len() - k,
        {
            let e = &self.objective_colors[k];
            if e.name == *name && e.zone == zone && e.ids.contains(&id) {
                return Some(e.color);
            }
            k += 1;
        }
        None
    }

    /// The colour the view gives `location`, found as key number
    /// `location_vec_id`, if it names one: that of the first entry that
    /// fits.
    pub fn lookup(&self, location_vec_id: usize, location: &Location) -> (r: Option<Color>)
        ensures
            r == self.location_color(location_vec_id as int, *location),
    {
        match location {
            Location::ColoredKey(_, zone, id) => self.key_lookup(location_vec_id, *zone, *id),
            Location::BulkheadKey(_, zone, id) => self.key_lookup(location_vec_id, *zone, *id),
            Location::Gatherable(name, zone, id) => self.objective_lookup(name, *zone, *id),
            Location::BigObjective(name, zone, area) => self.objective_lookup(name, *zone, *area),
            _ => None,
        }
    }

    /// Whether things found in `zone` are shown: the zone is not left out.
    pub fn is_valid_zone(&self, zone: u64) -> (b: bool)
        ensures
            b == !self.ignore_zones@.contains(zone),
    {
        !self.ignore_zones.contains(&zone)
    }
}

proof fn lemma_first_named_at(s: Seq<NamedColorSet>, name: Seq<char>, zone: u64, id: u64, k: int)
    requires
        0 <= k,
    ensures
        first_named_at(s, name, zone, id, k) matches Some(i) ==> k <= i < s.len() && s[i].name@ == name
            && s[i].zone == zone && s[i].ids@.contains(id) && forall|j: int|
            k <= j < i ==> !((#[trigger] s[j]).name@ == name && s[j].zone == zone && s[j].ids@.contains(id)),
        first_named_at(s, name, zone, id, k) is None ==> forall|j: int|
            k <= j < s.len() ==> !((#[trigger] s[j]).name@ == name && s[j].zone == zone && s[j].ids@.contains(id)),
    decreases s.len() - k,
{
    if k < s.len() && !(s[k].name@ == name && s[k].zone == zone && s[k].ids@.contains(id)) {
        lemma_first_named_at(s, name, zone, id, k + 1);
    }
}

/// A big objective takes its colour from the view's objective entries as
/// a small objective item of the same name, zone and id (its area) does:
/// it has a colour exactly when some entry of that name and zone holds its
/// area, and then the colour of the first such entry.
pub proof fn lemma_objective_colour(v: OptimizedLevelView, vec_id: int, key: String, name: String, zone: u64, id: u64)
    ensures
        v.location_color(vec_id, Location::BigObjective(name, zone, id)) == v.location_color(
            vec_id,
            Location::Gatherable(name, zone, id),
        ),
        v.location_color(vec_id, Location::BigObjective(name, zone, id)) is Some <==> exists|k: int|
            0 <= k < v.objective_colors@.len() && (#[trigger] v.objective_colors@[k]).name@ == name@
                && v.objective_colors@[k].zone == zone && v.objective_colors@[k].ids@.contains(id),
        v.location_color(vec_id, Location::BigObjective(name, zone, id)) matches Some(c) ==> exists|k: int|
            0 <= k < v.objective_colors@.len() && (#[trigger] v.objective_colors@[k]).name@ == name@
                && v.objective_colors@[k].zone == zone && v.objective_colors@[k].ids@.contains(id)
                && v.objective_colors@[k].color == c && forall|j: int|
                0 <= j < k ==> !((#[trigger] v.objective_colors@[j]).name@ == name@ && v.objective_colors@[j].zone
                    == zone && v.objective_colors@[j].ids@.contains(id)),
        v.location_color(vec_id, Location::ColoredKey(key, zone, id)) is Some ==> 0 <= vec_id
            < v.key_colors@.len() && v.key_colors@[vec_id]@.contains_key(zone),
        v.location_color(vec_id, Location::BigCollectable(name, zone)) is None,
{
    lemma_first_named_at(v.objective_colors@, name@, zone, id, 0);
    let s = v.objective_colors@;
    match first_named_at(s, name@, zone, id, 0) {
        Some(i) => {
            assert(s[i].name@ == name@ && s[i].zone == zone && s[i].ids@.contains(id));
        },
        None => {},
    }
}

/// Whether `r` is the colour an optional view gives `location`, found as
/// key number `vec_id`: with no view, none; with a view, the colour of the
/// first entry that fits, or else its default colour.
pub open spec fn color_answer(view: Option<OptimizedLevelView>, vec_id: int, location: Location, r: Option<
    Color,
>) -> bool {
    r == match view {
        None => None,
        Some(v) => match v.location_color(vec_id, location) {
            Some(c) => Some(c),
            None => Some(v.default_color),
        },
    }
}

/// The colour to show `location` in under an optional view: with no view,
/// none; with a view, the colour it names, or else its default colour.
pub fn lookup_color(view: Option<&OptimizedLevelView>, location_vec_id: usize, location: &Location) -> (r:
    Option<Color>)
    ensures
        color_answer(
            match view {
                None => None,
                Some(v) => Some(*v),
            },
            location_vec_id as int,
            *location,
            r,
        ),
{
    match view {
        None => None,
        Some(v) => match v.lookup(location_vec_id, location) {
            Some(c) => Some(c),
            None => Some(v.default_color),
        },
    }
}

/// Whether things found in `zone` are shown under an optional view: always
/// with no view.
pub fn zone_is_valid(view: Option<&OptimizedLevelView>, zone: u64) -> (b: bool)
    ensures
        b == match view {
            None => true,
            Some(v) => !v.ignore_zones@.contains(zone),
        },
{
    match view {
        None => true,
        Some(v) => v.is_valid_zone(zone),
    }
}

} // verus!
