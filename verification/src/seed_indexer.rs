//! The seed indexer: what the generation of a level reveals, filtered and
//! coloured through the level's foresight view and listed by zone and name.
use vstd::prelude::*;
use vstd::string::StringExecFns;

use crate::exported::ResourceType;
use crate::foresight::{order_index, rename_of, AddToConditions, OptimizedForesightView};
use crate::mapper_view::Color;
use crate::settings::{bool_or, int_or, SettingsWindow};
use crate::text::{contains_seq, contains_str, same_text, starts_with_text};
use indexmap::IndexMap;

verus! {

/// What the generation of a level reports, one event at a time.
#[derive(Debug)]
pub enum SeedEvent {
    /// The generation of the named level starts.
    GenerationStart(String),
    /// The generation is over: the listing is built.
    GenerationEnd,
    /// The seed of the level.
    Seed,
    /// A zone is generated.
    ZoneGenEnded,
    /// An item (key, objective item, artifact, ...) named, in a zone, with an id.
    Key(String, i32, i32),
    /// A resource pack of a kind, in a zone, with an id.
    ResourcePack(ResourceType, i32, i32),
    /// Anything else the generation reports.
    Other,
}

/// Which kinds of items the listing shows.
#[derive(Clone, Copy, Debug)]
pub struct SeedFilter {
    pub show_gather_small_items: bool,
    pub show_fog_turbine: bool,
    pub show_cell: bool,
    pub show_colored_key: bool,
    pub show_bulkhead_key: bool,
    pub show_terminal_uplink: bool,
    pub show_special_terminal_command: bool,
    pub show_retrieve_big_items: bool,
    pub show_hsu: bool,
    pub show_power_cell_distribution: bool,
    pub show_resources: bool,
    pub show_consumables: bool,
    pub show_artifacts: bool,
}

/// An item to list: its zone, the name it is listed under, its id and
/// colour, and whether the listing is then put in the view's order (items)
/// or in zone order (resource packs).
#[derive(Debug)]
pub struct ShownItem {
    pub zone: i32,
    pub name: String,
    pub id: i32,
    pub color: Option<Color>,
    pub by_view_order: bool,
}

/// The ids (with their colours) of the items of one name in one zone, in
/// the order found.
#[derive(Debug)]
pub struct ShownEntry {
    pub zone: i32,
    pub name: String,
    pub ids: Vec<(i32, Option<Color>)>,
}

impl ShownEntry {
    /// The entry as plain values.
    pub open spec fn model(&self) -> (i32, Seq<char>, Seq<(i32, Option<Color>)>) {
        (self.zone, self.name@, self.ids@)
    }
}

/// A listing as plain values.
pub open spec fn entries_model(s: Seq<ShownEntry>) -> Seq<(i32, Seq<char>, Seq<(i32, Option<Color>)>)> {
    s.map_values(|e: ShownEntry| e.model())
}

/// The view behind an optional reference.
pub open spec fn view_of(view: Option<&OptimizedForesightView>) -> Option<OptimizedForesightView> {
    match view {
        Some(v) => Some(*v),
        None => None,
    }
}

/// Whether items named `name` pass the filter.
pub open spec fn key_shown(f: SeedFilter, name: Seq<char>) -> bool {
    &&& !(!f.show_artifacts && contains_seq(name, "rtifact"@))
    &&& !(!f.show_consumables && contains_seq(name, "onsumable"@))
    &&& !(!f.show_gather_small_items && name == "GatherSmallItems"@)
    &&& !(!f.show_fog_turbine && name == "FOG_TURBINE"@)
    &&& !(!f.show_cell && name == "Cell"@)
    &&& !(!f.show_bulkhead_key && name == "BulkKey"@)
    &&& !(!f.show_colored_key && 3 <= name.len() && name.take(3) == "Key"@)
    &&& !(!f.show_terminal_uplink && name == "TerminalUplink"@)
    &&& !(!f.show_retrieve_big_items && name == "RetrieveBigItems"@)
    &&& !(!f.show_special_terminal_command && name == "SpecialTerminalCommand"@)
    &&& !(!f.show_hsu && name == "HSU_FindTakeSample"@)
    &&& !(!f.show_power_cell_distribution && name == "PowerCellDistribution"@)
}

/// Each switch of the filter that is off hides the items it names:
/// artifacts and consumables by a part of their name, coloured keys by the
/// start of theirs, and each other kind by its exact name; with every
/// switch on, every item passes.
pub proof fn lemma_switches_hide(f: SeedFilter, name: Seq<char>)
    ensures
        !f.show_artifacts && contains_seq(name, "rtifact"@) ==> !key_shown(f, name),
        !f.show_consumables && contains_seq(name, "onsumable"@) ==> !key_shown(f, name),
        !f.show_gather_small_items ==> !key_shown(f, "GatherSmallItems"@),
        !f.show_fog_turbine ==> !key_shown(f, "FOG_TURBINE"@),
        !f.show_cell ==> !key_shown(f, "Cell"@),
        !f.show_bulkhead_key ==> !key_shown(f, "BulkKey"@),
        !f.show_colored_key && 3 <= name.len() && name.take(3) == "Key"@ ==> !key_shown(f, name),
        !f.show_terminal_uplink ==> !key_shown(f, "TerminalUplink"@),
        !f.show_retrieve_big_items ==> !key_shown(f, "RetrieveBigItems"@),
        !f.show_special_terminal_command ==> !key_shown(f, "SpecialTerminalCommand"@),
        !f.show_hsu ==> !key_shown(f, "HSU_FindTakeSample"@),
        !f.show_power_cell_distribution ==> !key_shown(f, "PowerCellDistribution"@),
        f.show_artifacts && f.show_consumables && f.show_gather_small_items && f.show_fog_turbine && f.show_cell
            && f.show_bulkhead_key && f.show_colored_key && f.show_terminal_uplink && f.show_retrieve_big_items
            && f.show_special_terminal_command && f.show_hsu && f.show_power_cell_distribution ==> key_shown(f, name),
{
}

/// The items planned from the events are those the filter lets through:
/// every item found is one whose kind's switch is on, and resource packs
/// are planned only with the resources switch on.
pub proof fn lemma_planned_pass_filter(view: Option<OptimizedForesightView>, f: SeedFilter, data: Seq<SeedEvent>)
    ensures
        forall|k: int|
            0 <= k < planned_items(view, f, data).len() ==> {
                let it = #[trigger] planned_items(view, f, data)[k];
                &&& it.4 ==> key_shown(f, it.3)
                &&& !it.4 ==> f.show_resources
            },
    decreases data.len(),
{
    if data.len() > 0 {
        lemma_planned_pass_filter(view, f, data.drop_last());
        let rest = planned_items(view, f, data.drop_last());
        let p = planned_items(view, f, data);
        assert forall|k: int| 0 <= k < p.len() implies {
            let it = #[trigger] p[k];
            &&& it.4 ==> key_shown(f, it.3)
            &&& !it.4 ==> f.show_resources
        } by {
            if k < rest.len() {
                assert(p[k] == rest[k]);
            }
        }
    }
}

/// Whether the view (if any) leaves items named `name` in zone `zone` out.
pub open spec fn view_ignores(view: Option<OptimizedForesightView>, name: Seq<char>, zone: i32) -> bool {
    match view {
        Some(v) => v.ignored_spec(name, zone),
        None => false,
    }
}

/// The name items named `name` are listed under.
pub open spec fn view_renamed(view: Option<OptimizedForesightView>, name: Seq<char>) -> Seq<char> {
    match view {
        Some(v) => match rename_of(v.rename@, name) {
            Some(n) => n@,
            None => name,
        },
        None => name,
    }
}

/// Whether `c` is the colour the view (if any) gives the item.
pub open spec fn view_colors(
    view: Option<OptimizedForesightView>,
    name: Seq<char>,
    zone: i32,
    id: i32,
    c: Option<Color>,
) -> bool {
    match view {
        Some(v) => v.lookup_answers(name, zone, id, c),
        None => c is None,
    }
}

/// The items the events `data` list, in order, as (zone, listed name, id,
/// own name, listed in the view's order).
pub open spec fn planned_items(
    view: Option<OptimizedForesightView>,
    f: SeedFilter,
    data: Seq<SeedEvent>,
) -> Seq<(i32, Seq<char>, i32, Seq<char>, bool)>
    decreases data.len(),
{
    if data.len() == 0 {
        Seq::empty()
    } else {
        let rest = planned_items(view, f, data.drop_last());
        match data.last() {
            SeedEvent::Key(name, zone, id) => {
                if view_ignores(view, name@, zone) || !key_shown(f, name@) {
                    rest
                } else {
                    rest.push((zone, view_renamed(view, name@), id, name@, true))
                }
            },
            SeedEvent::ResourcePack(t, zone, id) => {
                if !f.show_resources || view_ignores(view, t.name_spec(), zone) {
                    rest
                } else {
                    rest.push((zone, view_renamed(view, t.name_spec()), id, t.name_spec(), false))
                }
            },
            _ => rest,
        }
    }
}

/// Whether `items` are the planned items, each in the colour the view
/// gives it.
pub open spec fn items_fit_plan(
    view: Option<OptimizedForesightView>,
    plan: Seq<(i32, Seq<char>, i32, Seq<char>, bool)>,
    items: Seq<ShownItem>,
) -> bool {
    &&& items.len() == plan.len()
    &&& forall|k: int|
        0 <= k < items.len() ==> {
            &&& (#[trigger] items[k]).zone == plan[k].0
            &&& items[k].name@ == plan[k].1
            &&& items[k].id == plan[k].2
            &&& items[k].by_view_order == plan[k].4
            &&& view_colors(view, plan[k].3, plan[k].0, plan[k].2, items[k].color)
        }
}

/// The rank of the entry of name `name` in zone `zone`: its place in the
/// view's order (the zone, read as an unsigned number, where the view gives
/// none), or its zone.
pub open spec fn rank(view: Option<OptimizedForesightView>, by_view_order: bool, zone: i32, name: Seq<char>) -> int {
    if by_view_order {
        match view {
            Some(v) => match order_index(v.order@, zone, name) {
                Some(k) => k,
                None => (zone as usize) as int,
            },
            None => (zone as usize) as int,
        }
    } else {
        zone as int
    }
}

/// The first place from `k` on whose entry ranks above `r`; the end if none.
pub open spec fn first_ranked_above(
    view: Option<OptimizedForesightView>,
    by: bool,
    s: Seq<(i32, Seq<char>, Seq<(i32, Option<Color>)>)>,
    r: int,
    k: int,
) -> int
    decreases s.len() - k,
{
    if k >= s.len() {
        s.len() as int
    } else if rank(view, by, s[k].0, s[k].1) > r {
        k
    } else {
        first_ranked_above(view, by, s, r, k + 1)
    }
}

/// `s` with `e` put after every entry that does not rank above it.
pub open spec fn insert_ranked(
    view: Option<OptimizedForesightView>,
    by: bool,
    s: Seq<(i32, Seq<char>, Seq<(i32, Option<Color>)>)>,
    e: (i32, Seq<char>, Seq<(i32, Option<Color>)>),
) -> Seq<(i32, Seq<char>, Seq<(i32, Option<Color>)>)> {
    s.insert(first_ranked_above(view, by, s, rank(view, by, e.0, e.1), 0), e)
}

/// `s` sorted stably by rank.
pub open spec fn sort_ranked(
    view: Option<OptimizedForesightView>,
    by: bool,
    s: Seq<(i32, Seq<char>, Seq<(i32, Option<Color>)>)>,
) -> Seq<(i32, Seq<char>, Seq<(i32, Option<Color>)>)>
    decreases s.len(),
{
    if s.len() == 0 {
        s
    } else {
        insert_ranked(view, by, sort_ranked(view, by, s.drop_last()), s.last())
    }
}

/// The first place from `k` on of the entry of name `name` in zone `zone`.
pub open spec fn find_entry(
    s: Seq<(i32, Seq<char>, Seq<(i32, Option<Color>)>)>,
    zone: i32,
    name: Seq<char>,
    k: int,
) -> Option<int>
    decreases s.len() - k,
{
    if k >= s.len() {
        None
    } else if s[k].0 == zone && s[k].1 == name {
        Some(k)
    } else {
        find_entry(s, zone, name, k + 1)
    }
}

/// `s` with `it` added to the entry of name `name` in zone `zone`, which is
/// added at the end if there is none.
pub open spec fn add_item(
    s: Seq<(i32, Seq<char>, Seq<(i32, Option<Color>)>)>,
    zone: i32,
    name: Seq<char>,
    it: (i32, Option<Color>),
) -> Seq<(i32, Seq<char>, Seq<(i32, Option<Color>)>)> {
    match find_entry(s, zone, name, 0) {
        Some(i) => s.update(i, (zone, name, s[i].2.push(it))),
        None => s.push((zone, name, seq![it])),
    }
}

/// The listing of `items`: each is added to its entry, and the listing is
/// sorted again after each.
pub open spec fn group_items(view: Option<OptimizedForesightView>, items: Seq<ShownItem>) -> Seq<
    (i32, Seq<char>, Seq<(i32, Option<Color>)>),
>
    decreases items.len(),
{
    if items.len() == 0 {
        Seq::empty()
    } else {
        let it = items.last();
        sort_ranked(
            view,
            it.by_view_order,
            add_item(group_items(view, items.drop_last()), it.zone, it.name@, (it.id, it.color)),
        )
    }
}

fn entry_rank(view: Option<&OptimizedForesightView>, by: bool, zone: i32, name: &String) -> (r: i128)
    ensures
        r == rank(view_of(view), by, zone, name@),
{
    if by {
        match view {
            Some(v) => match v.get_order(name, &zone) {
                Some(k) => k as i128,
                None => zone as usize as i128,
            },
            None => zone as usize as i128,
        }
    } else {
        zone as i128
    }
}

proof fn lemma_find_entry(s: Seq<EntryModel>, zone: i32, name: Seq<char>, k: int)
    requires
        0 <= k,
    ensures
        find_entry(s, zone, name, k) matches Some(i) ==> k <= i < s.len() && s[i].0 == zone && s[i].1 == name,
        find_entry(s, zone, name, k) is None ==> forall|j: int| k <= j < s.len() ==> !((#[trigger] s[j]).0 == zone && s[j].1 == name),
    decreases s.len() - k,
{
    if k < s.len() && !(s[k].0 == zone && s[k].1 == name) {
        lemma_find_entry(s, zone, name, k + 1);
    }
}

proof fn lemma_add_item_unique(s: Seq<EntryModel>, zone: i32, name: Seq<char>, it: (i32, Option<Color>))
    requires
        keys_unique(s),
    ensures
        keys_unique(add_item(s, zone, name, it)),
{
    lemma_find_entry(s, zone, name, 0);
    let u = add_item(s, zone, name, it);
    match find_entry(s, zone, name, 0) {
        Some(i) => {
            assert forall|a: int, b: int| 0 <= a < b < u.len() implies !((#[trigger] u[a]).0 == (#[trigger] u[b]).0
                && u[a].1 == u[b].1) by {
                assert(u[a].0 == s[a].0 && u[a].1 == s[a].1);
                assert(u[b].0 == s[b].0 && u[b].1 == s[b].1);
            }
        },
        None => {
            assert forall|a: int, b: int| 0 <= a < b < u.len() implies !((#[trigger] u[a]).0 == (#[trigger] u[b]).0
                && u[a].1 == u[b].1) by {
                assert(u[a] == s[a]);
                if b < s.len() {
                    assert(u[b] == s[b]);
                }
            }
        },
    }
}

/// How the entries `a` and `b` compare by rank in the view's order.
fn compare_ranks(view: Option<&OptimizedForesightView>, a: &(i32, String), b: &(i32, String)) -> (o: std::cmp::Ordering)
    ensures
        o == (if rank(view_of(view), true, a.0, a.1@) < rank(view_of(view), true, b.0, b.1@) {
            std::cmp::Ordering::Less
        } else if rank(view_of(view), true, a.0, a.1@) == rank(view_of(view), true, b.0, b.1@) {
            std::cmp::Ordering::Equal
        } else {
            std::cmp::Ordering::Greater
        }),
{
    let ra = entry_rank(view, true, a.0, &a.1);
    let rb = entry_rank(view, true, b.0, &b.1);
    if ra < rb {
        std::cmp::Ordering::Less
    } else if ra == rb {
        std::cmp::Ordering::Equal
    } else {
        std::cmp::Ordering::Greater
    }
}

/// The listing the seed indexer shows, in the order shown.
#[verifier::external_type_specification]
#[verifier::external_body]
#[verifier::reject_recursive_types(K)]
#[verifier::reject_recursive_types(V)]
#[verifier::reject_recursive_types(S)]
pub struct ExIndexMap<K, V, S>(IndexMap<K, V, S>);

/// The entries of a listing, in its order, as plain values: zone and name
/// (the key), then the ids with their colours.
pub uninterp spec fn listing_of(m: IndexMap<(i32, String), Vec<(i32, Option<Color>)>>) -> Seq<EntryModel>;

/// `IndexMap::new`: a listing with no entry.
#[verifier::external_body]
fn listing_new() -> (m: IndexMap<(i32, String), Vec<(i32, Option<Color>)>>)
    ensures
        listing_of(m) == Seq::<EntryModel>::empty(),
{
    IndexMap::new()
}

/// `IndexMap::clear`: the listing keeps no entry.
#[verifier::external_body]
fn listing_clear(m: &mut IndexMap<(i32, String), Vec<(i32, Option<Color>)>>)
    ensures
        listing_of(*final(m)) == Seq::<EntryModel>::empty(),
{
    m.clear()
}

/// `IndexMap::entry` on the key `(zone, name)`, `Entry::or_default`, then
/// `Vec::push`: `it` is appended to the ids of the entry with that key; with
/// no such entry, one with no ids is first appended at the end of the
/// listing. The map holds each key once.
#[verifier::external_body]
fn listing_add(m: &mut IndexMap<(i32, String), Vec<(i32, Option<Color>)>>, zone: i32, name: String, it: (
    i32,
    Option<Color>,
))
    ensures
        listing_of(*final(m)) == add_item(listing_of(*old(m)), zone, name@, it),
{
    m.entry((zone, name)).or_default().push(it);
}

/// `IndexMap::sort_by`, comparing the entries' ranks in the view's order
/// (see `compare_ranks`): a stable sort, which keeps the entries and the
/// uniqueness of their keys.
#[verifier::external_body]
fn listing_sort_by_order(m: &mut IndexMap<(i32, String), Vec<(i32, Option<Color>)>>, view: Option<&OptimizedForesightView>)
    ensures
        stable_ranked(view_of(view), true, listing_of(*old(m)), listing_of(*final(m))),
        keys_unique(listing_of(*final(m))),
{
    m.sort_by(|a, _, b, _| compare_ranks(view, a, b));
}

/// `IndexMap::sort_by_key` with the zone as key: a stable sort by zone
/// (the rank when not in the view's order), which keeps the entries and
/// the uniqueness of their keys.
#[verifier::external_body]
fn listing_sort_by_zone(m: &mut IndexMap<(i32, String), Vec<(i32, Option<Color>)>>)
    ensures
        stable_ranked(None, false, listing_of(*old(m)), listing_of(*final(m))),
        keys_unique(listing_of(*final(m))),
{
    m.sort_by_key(|k, _| k.0);
}

/// `IndexMap::iter`, each entry taken as a `ShownEntry`.
#[verifier::external_body]
fn listing_rows(m: &IndexMap<(i32, String), Vec<(i32, Option<Color>)>>) -> (r: Vec<ShownEntry>)
    ensures
        entries_model(r@) == listing_of(*m),
{
    m.iter().map(|(k, ids)| ShownEntry { zone: k.0, name: k.1.clone(), ids: ids.clone() }).collect()
}

/// The entries of the listing `m`, in its order.
pub fn rows(m: &IndexMap<(i32, String), Vec<(i32, Option<Color>)>>) -> (r: Vec<ShownEntry>)
    ensures
        entries_model(r@) == listing_of(*m),
{
    listing_rows(m)
}

proof fn lemma_zone_rank_any_view(view: Option<OptimizedForesightView>, s: Seq<EntryModel>, t: Seq<EntryModel>)
    requires
        stable_ranked(None, false, s, t),
    ensures
        stable_ranked(view, false, s, t),
{
    assert forall|z: i32, n: Seq<char>| rank(view, false, z, n) == rank(None, false, z, n) by {}
}

/// The listing of `items`: each item is added to the entry of its zone and
/// name, and the listing is sorted stably again after each, by the view's
/// order after an item and by zone after a resource pack.
pub fn group(view: Option<&OptimizedForesightView>, items: &Vec<ShownItem>) -> (r: IndexMap<
    (i32, String),
    Vec<(i32, Option<Color>)>,
>)
    ensures
        listing_of(r) == group_items(view_of(view), items@),
        keys_unique(listing_of(r)),
{
    let mut m = listing_new();
    let mut k: usize = 0;
    assert(items@.take(0) =~= Seq::<ShownItem>::empty());
    while k < items.len()
        invariant
            k <= items@.len(),
            listing_of(m) == group_items(view_of(view), items@.take(k as int)),
            keys_unique(listing_of(m)),
        decreases items.len() - k,
    {
        let it = &items[k];
        let ghost before = listing_of(m);
        listing_add(&mut m, it.zone, it.name.clone(), (it.id, it.color));
        proof {
            lemma_add_item_unique(before, it.zone, it.name@, (it.id, it.color));
        }
        let ghost added = listing_of(m);
        if it.by_view_order {
            listing_sort_by_order(&mut m, view);
            proof {
                lemma_stable_is_sort_ranked(view_of(view), true, added, listing_of(m));
            }
        } else {
            listing_sort_by_zone(&mut m);
            proof {
                lemma_zone_rank_any_view(view_of(view), added, listing_of(m));
                lemma_stable_is_sort_ranked(view_of(view), false, added, listing_of(m));
            }
        }
        proof {
            assert(items@.take(k + 1).drop_last() =~= items@.take(k as int));
            assert(items@.take(k + 1).last() == items@[k as int]);
        }
        k += 1;
    }
    assert(items@.take(k as int) =~= items@);
    m
}

fn key_is_shown(f: &SeedFilter, name: &String) -> (b: bool)
    ensures
        b == key_shown(*f, name@),
{
    let s = name.as_str();
    proof {
        reveal_strlit("Key");
    }
    !(!f.show_artifacts && contains_str(s, "rtifact"))
        && !(!f.show_consumables && contains_str(s, "onsumable"))
        && !(!f.show_gather_small_items && same_text(s, "GatherSmallItems"))
        && !(!f.show_fog_turbine && same_text(s, "FOG_TURBINE"))
        && !(!f.show_cell && same_text(s, "Cell"))
        && !(!f.show_bulkhead_key && same_text(s, "BulkKey"))
        && !(!f.show_colored_key && starts_with_text(s, "Key"))
        && !(!f.show_terminal_uplink && same_text(s, "TerminalUplink"))
        && !(!f.show_retrieve_big_items && same_text(s, "RetrieveBigItems"))
        && !(!f.show_special_terminal_command && same_text(s, "SpecialTerminalCommand"))
        && !(!f.show_hsu && same_text(s, "HSU_FindTakeSample"))
        && !(!f.show_power_cell_distribution && same_text(s, "PowerCellDistribution"))
}

fn view_is_ignored(view: Option<&OptimizedForesightView>, name: &String, zone: i32, id: i32) -> (b: bool)
    requires
        view matches Some(v) ==> v.wf(),
    ensures
        b == view_ignores(view_of(view), name@, zone),
{
    match view {
        Some(v) => v.is_ignored(name, &zone, &id),
        None => false,
    }
}

fn view_rename(view: Option<&OptimizedForesightView>, name: &String) -> (r: String)
    ensures
        r@ == view_renamed(view_of(view), name@),
{
    match view {
        Some(v) => match v.rename(name) {
            Some(n) => n,
            None => name.clone(),
        },
        None => name.clone(),
    }
}

fn view_lookup(view: Option<&OptimizedForesightView>, name: &String, zone: i32, id: i32) -> (c: Option<Color>)
    requires
        view matches Some(v) ==> v.wf(),
    ensures
        view_colors(view_of(view), name@, zone, id, c),
{
    match view {
        Some(v) => v.lookup(name, &zone, &id),
        None => None,
    }
}

/// The items that the events `data` list, in order, filtered by `f` and
/// the view, each in the colour the view gives it.
pub fn plan_items(view: Option<&OptimizedForesightView>, f: &SeedFilter, data: &Vec<SeedEvent>) -> (items: Vec<
    ShownItem,
>)
    requires
        view matches Some(v) ==> v.wf(),
    ensures
        items_fit_plan(view_of(view), planned_items(view_of(view), *f, data@), items@),
{
    let ghost v = view_of(view);
    let mut items: Vec<ShownItem> = Vec::new();
    let mut k: usize = 0;
    assert(data@.take(0) =~= Seq::<SeedEvent>::empty());
    while k < data.len()
        invariant
            view matches Some(x) ==> x.wf(),
            v == view_of(view),
            k <= data@.len(),
            items_fit_plan(v, planned_items(v, *f, data@.take(k as int)), items@),
        decreases data.len() - k,
    {
        proof {
            assert(data@.take(k + 1).drop_last() =~= data@.take(k as int));
            assert(data@.take(k + 1).last() == data@[k as int]);
        }
        let ghost plan = planned_items(v, *f, data@.take(k as int));
        let ghost items_before = items@;
        match &data[k] {
            SeedEvent::Key(name, zone, id) => {
                if !view_is_ignored(view, name, *zone, *id) && key_is_shown(f, name) {
                    let it = ShownItem {
                        zone: *zone,
                        name: view_rename(view, name),
                        id: *id,
                        color: view_lookup(view, name, *zone, *id),
                        by_view_order: true,
                    };
                    items.push(it);
                    proof {
                        assert forall|q: int| 0 <= q < items@.len() implies (#[trigger] items@[q]) == if q
                            < items_before.len() {
                            items_before[q]
                        } else {
                            it
                        } by {}
                    }
                }
            },
            SeedEvent::ResourcePack(t, zone, id) => {
                if f.show_resources {
                    let name = String::from_str(t.name());
                    if !view_is_ignored(view, &name, *zone, *id) {
                        let it = ShownItem {
                            zone: *zone,
                            name: view_rename(view, &name),
                            id: *id,
                            color: view_lookup(view, &name, *zone, *id),
                            by_view_order: false,
                        };
                        items.push(it);
                        proof {
                            assert forall|q: int| 0 <= q < items@.len() implies (#[trigger] items@[q])
                                == if q < items_before.len() {
                                items_before[q]
                            } else {
                                it
                            } by {}
                        }
                    }
                }
            },
            _ => {},
        }
        k += 1;
    }
    assert(data@.take(k as int) =~= data@);
    items
}

/// The place of the view named `name` in `views`, from `k` on.
pub open spec fn view_index(views: Seq<(String, OptimizedForesightView)>, name: Seq<char>, k: int) -> Option<
    int,
>
    decreases views.len() - k,
{
    if k >= views.len() {
        None
    } else if views[k].0@ == name {
        Some(k)
    } else {
        view_index(views, name, k + 1)
    }
}

proof fn lemma_view_index(views: Seq<(String, OptimizedForesightView)>, name: Seq<char>, k: int)
    requires
        0 <= k,
    ensures
        view_index(views, name, k) matches Some(i) ==> k <= i < views.len() && views[i].0@ == name,
    decreases views.len() - k,
{
    if k < views.len() && views[k].0@ != name {
        lemma_view_index(views, name, k + 1);
    }
}

/// `b` is `a` with at most the view at place `i` changed.
pub open spec fn views_same_except(
    a: Seq<(String, OptimizedForesightView)>,
    b: Seq<(String, OptimizedForesightView)>,
    i: int,
) -> bool {
    &&& a.len() == b.len()
    &&& forall|k: int| 0 <= k < a.len() ==> (#[trigger] b[k]).0 == a[k].0
    &&& forall|k: int| 0 <= k < a.len() && k != i ==> (#[trigger] b[k]).1 == a[k].1
}

fn find_view(views: &Vec<(String, OptimizedForesightView)>, name: &String) -> (r: Option<usize>)
    ensures
        match r {
            Some(i) => view_index(views@, name@, 0) == Some(i as int) && i < views@.len(),
            None => view_index(views@, name@, 0) is None,
        },
{
    let mut k: usize = 0;
    while k < views.len()
        invariant
            k <= views@.len(),
            view_index(views@, name@, 0) == view_index(views@, name@, k as int),
        decreases views.len() - k,
    {
        if views[k].0 == *name {
            return Some(k);
        }
        k += 1;
    }
    None
}

/// The seed indexer: the events of the current generation, the listing
/// built from them, and the foresight view of each level loaded so far.
#[derive(Debug)]
pub struct SeedIndexer {
    pub data_found: Vec<SeedEvent>,
    pub end_shown: IndexMap<(i32, String), Vec<(i32, Option<Color>)>>,
    pub views: Vec<(String, OptimizedForesightView)>,
    pub objective: String,
    pub filter: SeedFilter,
    pub number_of_items: usize,
}

impl SeedIndexer {
    /// Every loaded view is well formed.
    pub open spec fn wf(&self) -> bool {
        forall|k: int| 0 <= k < self.views@.len() ==> (#[trigger] self.views@[k]).1.wf()
    }

    /// The view of the current level, if one is loaded.
    pub open spec fn view_spec(&self) -> Option<OptimizedForesightView> {
        match view_index(self.views@, self.objective@, 0) {
            Some(i) => Some(self.views@[i].1),
            None => None,
        }
    }

    /// An empty indexer that shows what `filter` lets through, listing
    /// `number_of_items` rows at a time.
    pub fn new(filter: SeedFilter, number_of_items: usize) -> (r: SeedIndexer)
        ensures
            r.wf(),
            r.data_found@.len() == 0,
            listing_of(r.end_shown).len() == 0,
            r.views@.len() == 0,
            r.objective@ == Seq::<char>::empty(),
            r.filter == filter,
            r.number_of_items == number_of_items,
    {
        SeedIndexer {
            data_found: Vec::new(),
            end_shown: listing_new(),
            views: Vec::new(),
            objective: String::new(),
            filter,
            number_of_items,
        }
    }

    /// An empty indexer set up from the settings: each kind of item is shown
    /// unless its switch is off (artifacts only if their switch is on), and
    /// the listing shows the number of rows the size setting gives (ten if
    /// it is missing).
    pub fn from_settings(settings: &SettingsWindow) -> (r: SeedIndexer)
        ensures
            r.wf(),
            r.data_found@.len() == 0,
            listing_of(r.end_shown).len() == 0,
            r.views@.len() == 0,
            r.objective@ == Seq::<char>::empty(),
            r.filter.show_gather_small_items == bool_or(*settings, "seed_indexer_show_gather_small_items"@, true),
            r.filter.show_fog_turbine == bool_or(*settings, "seed_indexer_show_fog_turbine"@, true),
            r.filter.show_cell == bool_or(*settings, "seed_indexer_show_cell"@, true),
            r.filter.show_colored_key == bool_or(*settings, "seed_indexer_show_colored_key"@, true),
            r.filter.show_bulkhead_key == bool_or(*settings, "seed_indexer_show_bulkhead_key"@, true),
            r.filter.show_terminal_uplink == bool_or(*settings, "seed_indexer_show_terminal_uplink"@, true),
            r.filter.show_retrieve_big_items == bool_or(*settings, "seed_indexer_show_retrieve_big_items"@, true),
            r.filter.show_special_terminal_command == bool_or(
                *settings,
                "seed_indexer_show_special_terminal_command"@,
                true,
            ),
            r.filter.show_hsu == bool_or(*settings, "seed_indexer_show_hsu"@, true),
            r.filter.show_power_cell_distribution == bool_or(
                *settings,
                "seed_indexer_show_power_cell_distribution"@,
                true,
            ),
            r.filter.show_resources == bool_or(*settings, "seed_indexer_show_resources"@, true),
            r.filter.show_consumables == bool_or(*settings, "seed_indexer_show_consumables"@, true),
            r.filter.show_artifacts == bool_or(*settings, "seed_indexer_show_artifacts"@, false),
            r.number_of_items == int_or(*settings, "seed_indexer_length"@, 10) as usize,
    {
        let filter = SeedFilter {
            show_gather_small_items: unwrap_or(settings.get::<bool>("seed_indexer_show_gather_small_items"), true),
            show_fog_turbine: unwrap_or(settings.get::<bool>("seed_indexer_show_fog_turbine"), true),
            show_cell: unwrap_or(settings.get::<bool>("seed_indexer_show_cell"), true),
            show_colored_key: unwrap_or(settings.get::<bool>("seed_indexer_show_colored_key"), true),
            show_bulkhead_key: unwrap_or(settings.get::<bool>("seed_indexer_show_bulkhead_key"), true),
            show_terminal_uplink: unwrap_or(settings.get::<bool>("seed_indexer_show_terminal_uplink"), true),
            show_special_terminal_command: unwrap_or(
                settings.get::<bool>("seed_indexer_show_special_terminal_command"),
                true,
            ),
            show_retrieve_big_items: unwrap_or(settings.get::<bool>("seed_indexer_show_retrieve_big_items"), true),
            show_hsu: unwrap_or(settings.get::<bool>("seed_indexer_show_hsu"), true),
            show_power_cell_distribution: unwrap_or(
                settings.get::<bool>("seed_indexer_show_power_cell_distribution"),
                true,
            ),
            show_resources: unwrap_or(settings.get::<bool>("seed_indexer_show_resources"), true),
            show_consumables: unwrap_or(settings.get::<bool>("seed_indexer_show_consumables"), true),
            show_artifacts: settings.get_def::<bool>("seed_indexer_show_artifacts"),
        };
        let length = match settings.get::<i32>("seed_indexer_length") {
            Some(n) => n,
            None => 10,
        };
        SeedIndexer::new(filter, length as usize)
    }

    /// Whether every loaded view is well formed.
    pub fn views_ready(&self) -> (b: bool)
        ensures
            b == self.wf(),
    {
        let mut k: usize = 0;
        while k < self.views.len()
            invariant
                k <= self.views@.len(),
                forall|j: int| 0 <= j < k ==> (#[trigger] self.views@[j]).1.wf(),
            decreases self.views.len() - k,
        {
            let v = &self.views[k].1;
            if v.conditions_triggered.len() != v.conditional_ignores.len() {
                return false;
            }
            k += 1;
        }
        true
    }

    /// The view of the current level, if one is loaded.
    pub fn current_view(&self) -> (v: Option<&OptimizedForesightView>)
        requires
            self.wf(),
        ensures
            view_of(v) == self.view_spec(),
            v matches Some(x) ==> x.wf(),
    {
        match find_view(&self.views, &self.objective) {
            Some(i) => {
                proof {
                    lemma_view_index(self.views@, self.objective@, 0);
                }
                Some(&self.views[i].1)
            },
            None => None,
        }
    }

    /// Stores the view of the level `name`, in place of the one it had.
    pub fn set_view(&mut self, name: String, view: OptimizedForesightView)
        requires
            old(self).wf(),
            view.wf(),
        ensures
            final(self).wf(),
            match view_index(old(self).views@, name@, 0) {
                Some(i) => final(self).views@ == old(self).views@.update(i, (name, view)),
                None => final(self).views@ == old(self).views@.push((name, view)),
            },
            final(self).data_found == old(self).data_found,
            final(self).end_shown == old(self).end_shown,
            final(self).objective == old(self).objective,
            final(self).filter == old(self).filter,
            final(self).number_of_items == old(self).number_of_items,
    {
        match find_view(&self.views, &name) {
            Some(i) => {
                let ghost before = self.views@;
                self.views.set(i, (name, view));
                proof {
                    assert forall|k: int| 0 <= k < self.views@.len() implies (#[trigger] self.views@[k]).1.wf() by {
                        if k != i as int {
                            assert(self.views@[k] == before[k]);
                        }
                    }
                }
            },
            None => {
                self.views.push((name, view));
                proof {
                    assert forall|k: int| 0 <= k < self.views@.len() implies (#[trigger] self.views@[k]).1.wf() by {
                        if k < old(self).views@.len() {
                            assert(self.views@[k] == old(self).views@[k]);
                        }
                    }
                }
            },
        }
    }

    fn reset_view_at(&mut self, i: usize)
        requires
            old(self).wf(),
            i < old(self).views@.len(),
        ensures
            final(self).wf(),
            views_same_except(old(self).views@, final(self).views@, i as int),
            final(self).views@[i as int].1.reset_from(old(self).views@[i as int].1),
            final(self).data_found == old(self).data_found,
            final(self).end_shown == old(self).end_shown,
            final(self).objective == old(self).objective,
            final(self).filter == old(self).filter,
            final(self).number_of_items == old(self).number_of_items,
    {
        let ghost before = self.views@;
        let (n, mut v) = self.views.remove(i);
        assert(v == before[i as int].1);
        v.reset();
        self.views.insert(i, (n, v));
        proof {
            assert forall|k: int| 0 <= k < self.views@.len() implies (#[trigger] self.views@[k]).0 == before[k].0
                && (k != i ==> self.views@[k].1 == before[k].1) by {
                if k < i {
                    assert(self.views@[k] == before[k]);
                } else if k > i {
                    assert(self.views@[k] == before[k]);
                }
            }
            assert forall|k: int| 0 <= k < self.views@.len() implies (#[trigger] self.views@[k]).1.wf() by {
                if k != i as int {
                    assert(self.views@[k].1 == before[k].1);
                }
            }
        }
    }

    fn found_at(&mut self, i: usize, name: &String, zone: i32, id: i32)
        requires
            old(self).wf(),
            i < old(self).views@.len(),
        ensures
            final(self).wf(),
            views_same_except(old(self).views@, final(self).views@, i as int),
            final(self).views@[i as int].1.found_from(old(self).views@[i as int].1, name@, zone, id),
            final(self).data_found == old(self).data_found,
            final(self).end_shown == old(self).end_shown,
            final(self).objective == old(self).objective,
            final(self).filter == old(self).filter,
            final(self).number_of_items == old(self).number_of_items,
    {
        let ghost before = self.views@;
        let (n, mut v) = self.views.remove(i);
        assert(v == before[i as int].1);
        v.add_found(name, &zone, &id);
        self.views.insert(i, (n, v));
        proof {
            assert forall|k: int| 0 <= k < self.views@.len() implies (#[trigger] self.views@[k]).0 == before[k].0
                && (k != i ==> self.views@[k].1 == before[k].1) by {
                if k < i {
                    assert(self.views@[k] == before[k]);
                } else if k > i {
                    assert(self.views@[k] == before[k]);
                }
            }
            assert forall|k: int| 0 <= k < self.views@.len() implies (#[trigger] self.views@[k]).1.wf() by {
                if k != i as int {
                    assert(self.views@[k].1 == before[k].1);
                }
            }
        }
    }

    /// Notes that an item named `name` in zone `zone` with id `id` was found:
    /// the current view switches on the rules it fulfils.
    fn note_found(&mut self, name: &String, zone: i32, id: i32)
        requires
            old(self).wf(),
        ensures
            final(self).wf(),
            match view_index(old(self).views@, old(self).objective@, 0) {
                Some(i) => views_same_except(old(self).views@, final(self).views@, i)
                    && final(self).views@[i].1.found_from(old(self).views@[i].1, name@, zone, id),
                None => final(self).views == old(self).views,
            },
            final(self).data_found == old(self).data_found,
            final(self).end_shown == old(self).end_shown,
            final(self).objective == old(self).objective,
            final(self).filter == old(self).filter,
            final(self).number_of_items == old(self).number_of_items,
    {
        match find_view(&self.views, &self.objective) {
            Some(i) => self.found_at(i, name, zone, id),
            None => {},
        }
    }

    /// Takes one event of the generation. A start forgets the last
    /// generation, switches the new level's view (if loaded) back to its
    /// first state and asks for the level's view to be loaded (the answer
    /// is `true`); an end builds the listing from the events gathered;
    /// seeds and zone ends change nothing; any other event is gathered, and
    /// a found item or resource pack switches on the rules of the current
    /// view that it fulfils.
    pub fn handle(&mut self, ev: SeedEvent) -> (load_view: bool)
        requires
            old(self).wf(),
        ensures
            final(self).wf(),
            load_view == (ev is GenerationStart),
            final(self).filter == old(self).filter,
            final(self).number_of_items == old(self).number_of_items,
            match ev {
                SeedEvent::GenerationStart(name) => {
                    &&& final(self).data_found@.len() == 0
                    &&& listing_of(final(self).end_shown).len() == 0
                    &&& final(self).objective == name
                    &&& match view_index(old(self).views@, name@, 0) {
                        Some(i) => views_same_except(old(self).views@, final(self).views@, i)
                            && final(self).views@[i].1.reset_from(old(self).views@[i].1),
                        None => final(self).views == old(self).views,
                    }
                },
                SeedEvent::GenerationEnd => {
                    &&& final(self).data_found == old(self).data_found
                    &&& final(self).views == old(self).views
                    &&& final(self).objective == old(self).objective
                    &&& exists|items: Seq<ShownItem>|
                        items_fit_plan(
                            old(self).view_spec(),
                            planned_items(old(self).view_spec(), old(self).filter, old(self).data_found@),
                            items,
                        ) && listing_of(final(self).end_shown) == group_items(old(self).view_spec(), items)
                },
                SeedEvent::Seed | SeedEvent::ZoneGenEnded => {
                    &&& final(self).data_found == old(self).data_found
                    &&& final(self).end_shown == old(self).end_shown
                    &&& final(self).views == old(self).views
                    &&& final(self).objective == old(self).objective
                },
                _ => {
                    &&& final(self).data_found@ == old(self).data_found@.push(ev)
                    &&& final(self).end_shown == old(self).end_shown
                    &&& final(self).objective == old(self).objective
                    &&& match ev {
                        SeedEvent::Key(name, zone, id) => match view_index(
                            old(self).views@,
                            old(self).objective@,
                            0,
                        ) {
                            Some(i) => views_same_except(old(self).views@, final(self).views@, i)
                                && final(self).views@[i].1.found_from(old(self).views@[i].1, name@, zone, id),
                            None => final(self).views == old(self).views,
                        },
                        SeedEvent::ResourcePack(t, zone, id) => match view_index(
                            old(self).views@,
                            old(self).objective@,
                            0,
                        ) {
                            Some(i) => views_same_except(old(self).views@, final(self).views@, i)
                                && final(self).views@[i].1.found_from(
                                old(self).views@[i].1,
                                t.name_spec(),
                                zone,
                                id,
                            ),
                            None => final(self).views == old(self).views,
                        },
                        _ => final(self).views == old(self).views,
                    }
                },
            },
    {
        match ev {
            SeedEvent::GenerationStart(name) => {
                self.data_found = Vec::new();
                listing_clear(&mut self.end_shown);
                self.objective = name;
                match find_view(&self.views, &self.objective) {
                    Some(i) => self.reset_view_at(i),
                    None => {},
                }
                true
            },
            SeedEvent::GenerationEnd => {
                let items = plan_items(self.current_view(), &self.filter, &self.data_found);
                let shown = group(self.current_view(), &items);
                self.end_shown = shown;
                false
            },
            SeedEvent::Seed => false,
            SeedEvent::ZoneGenEnded => false,
            SeedEvent::Key(name, zone, id) => {
                self.note_found(&name, zone, id);
                self.data_found.push(SeedEvent::Key(name, zone, id));
                false
            },
            SeedEvent::ResourcePack(t, zone, id) => {
                let name = String::from_str(t.name());
                self.note_found(&name, zone, id);
                self.data_found.push(SeedEvent::ResourcePack(t, zone, id));
                false
            },
            SeedEvent::Other => {
                self.data_found.push(SeedEvent::Other);
                false
            },
        }
    }
}

fn unwrap_or(b: Option<bool>, d: bool) -> (r: bool)
    ensures
        r == match b {
            Some(x) => x,
            None => d,
        },
{
    match b {
        Some(x) => x,
        None => d,
    }
}

/// Whether the entries of `s` are in order of rank.
pub open spec fn ranked_in_order(
    view: Option<OptimizedForesightView>,
    by: bool,
    s: Seq<(i32, Seq<char>, Seq<(i32, Option<Color>)>)>,
) -> bool {
    forall|i: int, j: int|
        0 <= i < j < s.len() ==> rank(view, by, (#[trigger] s[i]).0, s[i].1) <= rank(
            view,
            by,
            (#[trigger] s[j]).0,
            s[j].1,
        )
}

proof fn lemma_first_ranked_above(
    view: Option<OptimizedForesightView>,
    by: bool,
    s: Seq<(i32, Seq<char>, Seq<(i32, Option<Color>)>)>,
    r: int,
    k: int,
)
    requires
        0 <= k <= s.len(),
        forall|i: int| 0 <= i < k ==> rank(view, by, (#[trigger] s[i]).0, s[i].1) <= r,
    ensures
        k <= first_ranked_above(view, by, s, r, k) <= s.len(),
        forall|i: int|
            0 <= i < first_ranked_above(view, by, s, r, k) ==> rank(view, by, (#[trigger] s[i]).0, s[i].1) <= r,
        first_ranked_above(view, by, s, r, k) < s.len() ==> rank(
            view,
            by,
            s[first_ranked_above(view, by, s, r, k)].0,
            s[first_ranked_above(view, by, s, r, k)].1,
        ) > r,
    decreases s.len() - k,
{
    if k < s.len() && rank(view, by, s[k].0, s[k].1) <= r {
        lemma_first_ranked_above(view, by, s, r, k + 1);
    }
}

/// Sorting by rank gives the entries in order of rank, as many as there
/// were.
pub proof fn lemma_sort_ranked_in_order(
    view: Option<OptimizedForesightView>,
    by: bool,
    s: Seq<(i32, Seq<char>, Seq<(i32, Option<Color>)>)>,
)
    ensures
        ranked_in_order(view, by, sort_ranked(view, by, s)),
        sort_ranked(view, by, s).len() == s.len(),
    decreases s.len(),
{
    if s.len() > 0 {
        let t = sort_ranked(view, by, s.drop_last());
        lemma_sort_ranked_in_order(view, by, s.drop_last());
        let e = s.last();
        let r = rank(view, by, e.0, e.1);
        lemma_first_ranked_above(view, by, t, r, 0);
        let p = first_ranked_above(view, by, t, r, 0);
        let u = t.insert(p, e);
        assert forall|i: int, j: int| 0 <= i < j < u.len() implies rank(view, by, (#[trigger] u[i]).0, u[i].1)
            <= rank(view, by, (#[trigger] u[j]).0, u[j].1) by {
            if i < p && j < p {
                assert(u[i] == t[i] && u[j] == t[j]);
            } else if i < p && j == p {
                assert(u[i] == t[i]);
            } else if i < p && j > p {
                assert(u[i] == t[i] && u[j] == t[j - 1]);
            } else if i == p {
                assert(u[j] == t[j - 1]);
                assert(rank(view, by, t[p].0, t[p].1) > r);
                if j - 1 > p {
                    assert(rank(view, by, t[p].0, t[p].1) <= rank(view, by, t[j - 1].0, t[j - 1].1));
                }
            } else {
                assert(u[i] == t[i - 1] && u[j] == t[j - 1]);
            }
        }
    }
}

/// An entry of a listing as plain values: zone, name, ids with colours.
pub type EntryModel = (i32, Seq<char>, Seq<(i32, Option<Color>)>);

/// Whether no two entries of `s` share zone and name.
pub open spec fn keys_unique(s: Seq<EntryModel>) -> bool {
    forall|i: int, j: int|
        0 <= i < j < s.len() ==> !((#[trigger] s[i]).0 == (#[trigger] s[j]).0 && s[i].1 == s[j].1)
}

/// Whether `a` and `b` hold the same entries, as many of them.
pub open spec fn same_entries(a: Seq<EntryModel>, b: Seq<EntryModel>) -> bool {
    &&& a.len() == b.len()
    &&& forall|e: EntryModel| a.contains(e) <==> b.contains(e)
}

/// Whether entries of `t` of equal rank come in the order they have in
/// `s`.
pub open spec fn keeps_ties(view: Option<OptimizedForesightView>, by: bool, s: Seq<EntryModel>, t: Seq<EntryModel>) -> bool {
    forall|i: int, j: int, p: int, q: int|
        #![trigger t[i], t[j], s[p], s[q]]
        0 <= i < j < t.len() && 0 <= p < s.len() && 0 <= q < s.len() && s[p] == t[i] && s[q] == t[j] && rank(
            view,
            by,
            t[i].0,
            t[i].1,
        ) == rank(view, by, t[j].0, t[j].1) ==> p < q
}

/// Whether `t` is `s` sorted stably by rank: the same entries, in order of
/// rank, ties in the order of `s`.
pub open spec fn stable_ranked(view: Option<OptimizedForesightView>, by: bool, s: Seq<EntryModel>, t: Seq<EntryModel>) -> bool {
    &&& same_entries(s, t)
    &&& ranked_in_order(view, by, t)
    &&& keeps_ties(view, by, s, t)
}

proof fn lemma_drop_first_contains(t: Seq<EntryModel>, e: EntryModel)
    requires
        keys_unique(t),
        t.len() > 0,
    ensures
        t.drop_first().contains(e) <==> (t.contains(e) && e != t[0]),
{
    if t.drop_first().contains(e) {
        let k = choose|k: int| 0 <= k < t.drop_first().len() && t.drop_first()[k] == e;
        assert(t[k + 1] == e);
        assert(t[0] != t[k + 1]);
    }
    if t.contains(e) && e != t[0] {
        let k = choose|k: int| 0 <= k < t.len() && t[k] == e;
        assert(k != 0);
        assert(t.drop_first()[k - 1] == e);
    }
}

/// Two stable sorts by rank of entries of `s` with unique keys agree.
proof fn lemma_ranked_unique(
    view: Option<OptimizedForesightView>,
    by: bool,
    s: Seq<EntryModel>,
    t1: Seq<EntryModel>,
    t2: Seq<EntryModel>,
)
    requires
        keys_unique(t1),
        keys_unique(t2),
        same_entries(t1, t2),
        forall|e: EntryModel| t1.contains(e) ==> s.contains(e),
        ranked_in_order(view, by, t1),
        ranked_in_order(view, by, t2),
        keeps_ties(view, by, s, t1),
        keeps_ties(view, by, s, t2),
    ensures
        t1 == t2,
    decreases t1.len(),
{
    if t1.len() == 0 {
        assert(t1 =~= t2);
    } else {
        let x = t1[0];
        assert(t1.contains(x));
        assert(t2.contains(x));
        let p2 = choose|k: int| 0 <= k < t2.len() && t2[k] == x;
        if p2 != 0 {
            let y = t2[0];
            assert(t2.contains(y));
            assert(t1.contains(y));
            let q1 = choose|k: int| 0 <= k < t1.len() && t1[k] == y;
            assert(y != x);
            assert(q1 != 0);
            assert(s.contains(x));
            assert(s.contains(y));
            let px = choose|k: int| 0 <= k < s.len() && s[k] == x;
            let py = choose|k: int| 0 <= k < s.len() && s[k] == y;
            assert(rank(view, by, t1[0].0, t1[0].1) <= rank(view, by, t1[q1].0, t1[q1].1));
            assert(rank(view, by, t2[0].0, t2[0].1) <= rank(view, by, t2[p2].0, t2[p2].1));
            assert(t1[0] == s[px] && t1[q1] == s[py]);
            assert(t2[0] == s[py] && t2[p2] == s[px]);
            assert(px < py);
            assert(py < px);
        }
        let u1 = t1.drop_first();
        let u2 = t2.drop_first();
        assert forall|e: EntryModel| u1.contains(e) <==> u2.contains(e) by {
            lemma_drop_first_contains(t1, e);
            lemma_drop_first_contains(t2, e);
        }
        assert forall|e: EntryModel| u1.contains(e) implies s.contains(e) by {
            lemma_drop_first_contains(t1, e);
        }
        assert forall|i: int, j: int| 0 <= i < j < u1.len() implies !((#[trigger] u1[i]).0 == (#[trigger] u1[j]).0
            && u1[i].1 == u1[j].1) by {
            assert(u1[i] == t1[i + 1] && u1[j] == t1[j + 1]);
        }
        assert forall|i: int, j: int| 0 <= i < j < u2.len() implies !((#[trigger] u2[i]).0 == (#[trigger] u2[j]).0
            && u2[i].1 == u2[j].1) by {
            assert(u2[i] == t2[i + 1] && u2[j] == t2[j + 1]);
        }
        assert forall|i: int, j: int| 0 <= i < j < u1.len() implies rank(view, by, (#[trigger] u1[i]).0, u1[i].1)
            <= rank(view, by, (#[trigger] u1[j]).0, u1[j].1) by {
            assert(u1[i] == t1[i + 1] && u1[j] == t1[j + 1]);
        }
        assert forall|i: int, j: int| 0 <= i < j < u2.len() implies rank(view, by, (#[trigger] u2[i]).0, u2[i].1)
            <= rank(view, by, (#[trigger] u2[j]).0, u2[j].1) by {
            assert(u2[i] == t2[i + 1] && u2[j] == t2[j + 1]);
        }
        assert forall|i: int, j: int, p: int, q: int|
            #![trigger u1[i], u1[j], s[p], s[q]]
            0 <= i < j < u1.len() && 0 <= p < s.len() && 0 <= q < s.len() && s[p] == u1[i] && s[q] == u1[j]
                && rank(view, by, u1[i].0, u1[i].1) == rank(view, by, u1[j].0, u1[j].1) implies p < q by {
            assert(u1[i] == t1[i + 1] && u1[j] == t1[j + 1]);
        }
        assert forall|i: int, j: int, p: int, q: int|
            #![trigger u2[i], u2[j], s[p], s[q]]
            0 <= i < j < u2.len() && 0 <= p < s.len() && 0 <= q < s.len() && s[p] == u2[i] && s[q] == u2[j]
                && rank(view, by, u2[i].0, u2[i].1) == rank(view, by, u2[j].0, u2[j].1) implies p < q by {
            assert(u2[i] == t2[i + 1] && u2[j] == t2[j + 1]);
        }
        lemma_ranked_unique(view, by, s, u1, u2);
        assert(t1 =~= t2) by {
            assert forall|k: int| 0 <= k < t1.len() implies t1[k] == t2[k] by {
                if k > 0 {
                    assert(t1[k] == u1[k - 1] && t2[k] == u2[k - 1]);
                }
            }
        }
    }
}

proof fn lemma_insert_same_entries(s: Seq<EntryModel>, t: Seq<EntryModel>, f: int)
    requires
        s.len() > 0,
        same_entries(s.drop_last(), t),
        0 <= f <= t.len(),
    ensures
        same_entries(s, t.insert(f, s.last())),
{
    let s0 = s.drop_last();
    let e = s.last();
    let u = t.insert(f, e);
    assert forall|z: EntryModel| u.contains(z) <==> s.contains(z) by {
        if u.contains(z) {
            let k = choose|k: int| 0 <= k < u.len() && u[k] == z;
            if k != f {
                let k2 = if k < f { k } else { k - 1 };
                assert(u[k] == t[k2]);
                assert(t.contains(z));
                assert(s0.contains(z));
                let m = choose|m: int| 0 <= m < s0.len() && s0[m] == z;
                assert(s[m] == z);
            } else {
                assert(s[s.len() - 1] == z);
            }
        }
        if s.contains(z) {
            let k = choose|k: int| 0 <= k < s.len() && s[k] == z;
            if k == s.len() - 1 {
                assert(u[f] == z);
            } else {
                assert(s0[k] == z);
                assert(s0.contains(z));
                assert(t.contains(z));
                let m = choose|m: int| 0 <= m < t.len() && t[m] == z;
                if m < f {
                    assert(u[m] == z);
                } else {
                    assert(u[m + 1] == z);
                }
            }
        }
    }
}

proof fn lemma_insert_keys_unique(t: Seq<EntryModel>, f: int, e: EntryModel)
    requires
        keys_unique(t),
        0 <= f <= t.len(),
        forall|z: EntryModel| t.contains(z) ==> !(z.0 == e.0 && z.1 == e.1),
    ensures
        keys_unique(t.insert(f, e)),
{
    let u = t.insert(f, e);
    assert forall|i: int, j: int| 0 <= i < j < u.len() implies !((#[trigger] u[i]).0 == (#[trigger] u[j]).0
        && u[i].1 == u[j].1) by {
        if i == f {
            assert(u[j] == t[j - 1] && t.contains(t[j - 1]));
        } else if j == f {
            assert(u[i] == t[i] && t.contains(t[i]));
        } else {
            let i2 = if i < f { i } else { i - 1 };
            let j2 = if j < f { j } else { j - 1 };
            assert(u[i] == t[i2] && u[j] == t[j2]);
        }
    }
}

proof fn lemma_insert_keeps_ties(
    view: Option<OptimizedForesightView>,
    by: bool,
    s: Seq<EntryModel>,
    t: Seq<EntryModel>,
    f: int,
)
    requires
        s.len() > 0,
        keys_unique(s),
        same_entries(s.drop_last(), t),
        ranked_in_order(view, by, t),
        keeps_ties(view, by, s.drop_last(), t),
        0 <= f <= t.len(),
        forall|i: int| 0 <= i < f ==> rank(view, by, (#[trigger] t[i]).0, t[i].1) <= rank(view, by, s.last().0, s.last().1),
        f < t.len() ==> rank(view, by, t[f].0, t[f].1) > rank(view, by, s.last().0, s.last().1),
    ensures
        keeps_ties(view, by, s, t.insert(f, s.last())),
{
    let s0 = s.drop_last();
    let e = s.last();
    let n = s.len() - 1;
    let u = t.insert(f, e);
    assert forall|z: EntryModel| t.contains(z) implies z != e by {
        assert(s0.contains(z));
        let k = choose|k: int| 0 <= k < s0.len() && s0[k] == z;
        assert(s[k] == z && s[n] == e);
    }
    assert forall|i: int, j: int, p: int, q: int|
        #![trigger u[i], u[j], s[p], s[q]]
        0 <= i < j < u.len() && 0 <= p < s.len() && 0 <= q < s.len() && s[p] == u[i] && s[q] == u[j] && rank(
            view,
            by,
            u[i].0,
            u[i].1,
        ) == rank(view, by, u[j].0, u[j].1) implies p < q by {
        if i == f {
            assert(u[j] == t[j - 1]);
            if j - 1 > f {
                assert(rank(view, by, t[f].0, t[f].1) <= rank(view, by, t[j - 1].0, t[j - 1].1));
            }
        } else if j == f {
            assert(u[i] == t[i] && t.contains(t[i]));
            if q != n {
                assert(s[q] == s[n]);
            }
        } else {
            let i2 = if i < f { i } else { i - 1 };
            let j2 = if j < f { j } else { j - 1 };
            assert(u[i] == t[i2] && u[j] == t[j2]);
            assert(t.contains(t[i2]) && t.contains(t[j2]));
            assert(s0[p] == s[p] && s0[q] == s[q]);
        }
    }
}

/// Sorting a listing whose keys are unique by rank keeps its entries and
/// the uniqueness of their keys, puts them in order of rank, and leaves
/// entries of equal rank in the order they had.
pub proof fn lemma_sort_ranked_stable(view: Option<OptimizedForesightView>, by: bool, s: Seq<EntryModel>)
    requires
        keys_unique(s),
    ensures
        stable_ranked(view, by, s, sort_ranked(view, by, s)),
        keys_unique(sort_ranked(view, by, s)),
    decreases s.len(),
{
    lemma_sort_ranked_in_order(view, by, s);
    if s.len() == 0 {
        assert(sort_ranked(view, by, s) =~= s);
    } else {
        let s0 = s.drop_last();
        let e = s.last();
        let n = s.len() - 1;
        assert forall|i: int, j: int| 0 <= i < j < s0.len() implies !((#[trigger] s0[i]).0 == (#[trigger] s0[j]).0
            && s0[i].1 == s0[j].1) by {
            assert(s0[i] == s[i] && s0[j] == s[j]);
        }
        lemma_sort_ranked_stable(view, by, s0);
        let t = sort_ranked(view, by, s0);
        let r = rank(view, by, e.0, e.1);
        lemma_first_ranked_above(view, by, t, r, 0);
        let f = first_ranked_above(view, by, t, r, 0);
        assert forall|z: EntryModel| t.contains(z) implies !(z.0 == e.0 && z.1 == e.1) by {
            assert(s0.contains(z));
            let k = choose|k: int| 0 <= k < s0.len() && s0[k] == z;
            assert(s[k] == z && s[n] == e);
        }
        lemma_insert_same_entries(s, t, f);
        lemma_insert_keys_unique(t, f, e);
        lemma_insert_keeps_ties(view, by, s, t, f);
    }
}

/// A stable sort by rank of entries with unique keys is `sort_ranked`.
proof fn lemma_stable_is_sort_ranked(view: Option<OptimizedForesightView>, by: bool, s: Seq<EntryModel>, t: Seq<EntryModel>)
    requires
        keys_unique(s),
        keys_unique(t),
        stable_ranked(view, by, s, t),
    ensures
        t == sort_ranked(view, by, s),
{
    lemma_sort_ranked_stable(view, by, s);
    let u = sort_ranked(view, by, s);
    assert forall|e: EntryModel| t.contains(e) <==> u.contains(e) by {}
    lemma_ranked_unique(view, by, s, t, u);
}

/// One line of the seed indexer as shown.
#[derive(Clone, Copy, Debug, PartialEq, Eq, Structural)]
pub enum DisplayRow {
    /// A line across, between zones.
    Separator,
    /// The heading of a zone whose items are shown together.
    Heading(i32),
    /// The entry at this place of the listing; `true` if its line names
    /// its zone (it is not under that zone's heading).
    Entry(usize, bool),
}

/// Whether the view (if any) shows the items of `zone` together under a
/// heading.
pub open spec fn zone_grouped(view: Option<OptimizedForesightView>, zone: i32) -> bool {
    match view {
        Some(v) => v.group_zones@.contains(zone),
        None => false,
    }
}

/// The lines shown for entries of the zones `zones`, in order, with the
/// zone of the last heading (`-1` before any) and whether a separator is
/// due before the next zone: a zone change after a heading puts a line
/// across (unless the new zone has its own heading); a grouped zone gets a
/// line across and its heading; each entry names its zone unless it is
/// under that zone's heading.
pub open spec fn display_state(view: Option<OptimizedForesightView>, zones: Seq<i32>) -> (i32, bool, Seq<DisplayRow>)
    decreases zones.len(),
{
    if zones.len() == 0 {
        (-1i32, false, Seq::empty())
    } else {
        let (last, spit, rows) = display_state(view, zones.drop_last());
        let z = zones.last();
        let (spit1, rows1) = if last != z && spit {
            (false, if !zone_grouped(view, z) { rows.push(DisplayRow::Separator) } else { rows })
        } else {
            (spit, rows)
        };
        let (last2, spit2, rows2) = if last != z && zone_grouped(view, z) {
            (z, true, rows1.push(DisplayRow::Separator).push(DisplayRow::Heading(z)))
        } else {
            (last, spit1, rows1)
        };
        (last2, spit2, rows2.push(DisplayRow::Entry((zones.len() - 1) as usize, last2 != z)))
    }
}

/// The zones of a listing's entries, in order.
pub open spec fn entry_zones(s: Seq<ShownEntry>) -> Seq<i32> {
    s.map_values(|e: ShownEntry| e.zone)
}

/// The number of separator lines among `rows`.
pub open spec fn separator_count(rows: Seq<DisplayRow>) -> nat
    decreases rows.len(),
{
    if rows.len() == 0 {
        0
    } else {
        separator_count(rows.drop_last()) + if rows.last() == DisplayRow::Separator { 1nat } else { 0nat }
    }
}

/// The lines the seed indexer shows for the listing `entries` under the
/// view, in order, and how many of them are lines across.
pub fn display_rows(view: Option<&OptimizedForesightView>, entries: &Vec<ShownEntry>) -> (r: (Vec<DisplayRow>, usize))
    requires
        3 * entries@.len() <= usize::MAX,
    ensures
        r.0@ == display_state(view_of(view), entry_zones(entries@)).2,
        r.1 == separator_count(r.0@),
{
    let ghost zones = entry_zones(entries@);
    let mut rows: Vec<DisplayRow> = Vec::new();
    let mut last: i32 = -1;
    let mut spit: bool = false;
    let mut count: usize = 0;
    let mut i: usize = 0;
    assert(zones.take(0) =~= Seq::<i32>::empty());
    while i < entries.len()
        invariant
            i <= entries@.len(),
            zones == entry_zones(entries@),
            zones.len() == entries@.len(),
            display_state(view_of(view), zones.take(i as int)) == (last, spit, rows@),
            count == separator_count(rows@),
            count <= rows@.len(),
            rows@.len() <= 3 * i,
            3 * entries@.len() <= usize::MAX,
        decreases entries@.len() - i,
    {
        let z = entries[i].zone;
        let grouped = match view {
            Some(v) => v.is_grouped(&z),
            None => false,
        };
        let ghost r0 = rows@;
        proof {
            let t = zones.take(i + 1);
            assert(t.drop_last() =~= zones.take(i as int));
            assert(t.last() == z);
        }
        if last != z && spit {
            if !grouped {
                rows.push(DisplayRow::Separator);
                count = count + 1;
                proof {
                    assert(rows@.drop_last() =~= r0);
                    assert(separator_count(rows@) == separator_count(r0) + 1);
                }
            }
            spit = false;
        }
        let ghost r1 = rows@;
        if last != z && grouped {
            last = z;
            rows.push(DisplayRow::Separator);
            count = count + 1;
            proof {
                assert(rows@.drop_last() =~= r1);
                assert(separator_count(rows@) == separator_count(r1) + 1);
            }
            let ghost r2 = rows@;
            rows.push(DisplayRow::Heading(z));
            proof {
                assert(rows@.drop_last() =~= r2);
                assert(separator_count(rows@) == separator_count(r2));
            }
            spit = true;
        }
        let ghost r3 = rows@;
        rows.push(DisplayRow::Entry(i, last != z));
        proof {
            assert(rows@.drop_last() =~= r3);
            assert(separator_count(rows@) == separator_count(r3));
        }
        i += 1;
    }
    assert(zones.take(i as int) =~= zones);
    (rows, count)
}

} // verus!
