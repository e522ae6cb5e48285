use std::collections::HashSet;

use gtfo_logger::exported::ResourceType;
use gtfo_logger::foresight::{
    AddToConditions, ConditionalIgnore, ForesightEntry, ForesightView, NamedZones, ViewCondition,
};
use gtfo_logger::mapper::{LocationRender, Mapper, MapperColorError};
use gtfo_logger::mapper_view::{
    lookup_color, zone_is_valid, Color, ColorIds, KeyID, LevelView, Location, MapperColor, NamedColorIds,
};
use gtfo_logger::objective::{LevelObjectiveReader, UpdateObjective};
use gtfo_logger::run::RunObjective;
use gtfo_logger::seed_indexer::{display_rows, group, rows, DisplayRow, SeedEvent, SeedFilter, SeedIndexer, ShownEntry, ShownItem};

fn all_shown() -> SeedFilter {
    SeedFilter {
        show_gather_small_items: true,
        show_fog_turbine: true,
        show_cell: true,
        show_colored_key: true,
        show_bulkhead_key: true,
        show_terminal_uplink: true,
        show_special_terminal_command: true,
        show_retrieve_big_items: true,
        show_hsu: true,
        show_power_cell_distribution: true,
        show_resources: true,
        show_consumables: true,
        show_artifacts: true,
    }
}

#[test]
fn key_ids() {
    let mut set: HashSet<u64> = HashSet::new();
    KeyID::RangeID(3, 5).add_to_set(&mut set);
    KeyID::VecID(9).add_to_set(&mut set);
    KeyID::VecID(4).add_to_set(&mut set);
    let mut v: Vec<u64> = set.into_iter().collect();
    v.sort();
    assert_eq!(v, vec![3, 4, 5, 9]);
    assert!(KeyID::RangeID(3, 5).contains(5));
    assert!(!KeyID::RangeID(3, 5).contains(6));
    assert!(!KeyID::VecID(1).contains_i32(-1));
    assert!(KeyID::VecID(1).contains_i32(1));
    let mut s32: HashSet<i32> = HashSet::new();
    KeyID::RangeID(0, 2).add_to_set_i32(&mut s32);
    assert_eq!(s32.len(), 3);
}

#[test]
fn named_colors() {
    assert_eq!(MapperColor::Blue.to_color(), Color::from_rgb(30, 155, 255));
    assert_eq!(MapperColor::RGB(1, 2, 3).to_color(), Color { r: 1, g: 2, b: 3, a: 255 });
    assert_eq!(MapperColor::Grey.to_color(), Color::from_rgb(100, 100, 100));
}

fn level_view() -> LevelView {
    LevelView {
        key_colors: vec![vec![ColorIds { zone: 2, color: MapperColor::Red, ids: vec![KeyID::VecID(7)] }]],
        objective_colors: vec![NamedColorIds {
            name: "Cell".to_string(),
            zone: 3,
            color: MapperColor::Blue,
            ids: vec![KeyID::RangeID(0, 3)],
        }],
        ignore_zones: vec![9],
        default_color: MapperColor::Grey,
    }
}

#[test]
fn level_view_lookup() {
    let v = level_view().optimize();
    let red = MapperColor::Red.to_color();
    let key = Location::ColoredKey("KEY_RED".to_string(), 2, 7);
    assert_eq!(v.lookup(0, &key), Some(red));
    assert_eq!(v.lookup(1, &key), None);
    assert_eq!(lookup_color(Some(&v), 1, &key), Some(MapperColor::Grey.to_color()));
    assert_eq!(lookup_color(None, 0, &key), None);
    let cell = Location::Gatherable("Cell".to_string(), 3, 2);
    assert_eq!(v.lookup(0, &cell), Some(MapperColor::Blue.to_color()));
    assert!(!v.is_valid_zone(9));
    assert!(v.is_valid_zone(2));
    assert!(zone_is_valid(None, 9));
    assert_eq!(key.get_zone(), 2);
}

fn objective() -> RunObjective {
    RunObjective::from_name("R1A1".to_string())
}

#[test]
fn mapper_lines_in_order() {
    let mut m = Mapper::new(true, objective());
    m.add_location(Location::Gatherable("Cell".to_string(), 3, 5));
    m.add_location(Location::ColoredKey("KEY_RED".to_string(), 2, 7));
    m.add_location(Location::Gatherable("Cell".to_string(), 3, 1));
    m.add_location(Location::BigObjective("HSU".to_string(), 4, 0));
    m.add_location(Location::BulkheadKey("BULK".to_string(), 1, 2));
    assert_eq!(m.key_len, 2);
    let kinds: Vec<u8> = m.locations.vec.iter().map(|l| l.rank()).collect();
    assert_eq!(kinds, vec![2, 2, 1, 0]);
    match &m.locations.vec[2] {
        LocationRender::Collectable(c) => {
            let ids: Vec<u64> = c.ids.iter().map(|(i, _)| *i).collect();
            assert_eq!(ids, vec![1, 5]);
        },
        _ => panic!("expected the collectable line"),
    }
    match &m.locations.vec[0] {
        LocationRender::Key(k) => assert_eq!(k.location.get_zone(), 2),
        _ => panic!("expected a key line"),
    }
    assert_eq!(m.locations_copy.len(), 5);
    assert_eq!(m.locations.height(), 4 * 22 + 6);
}

#[test]
fn mapper_with_view_and_hidden_objectives() {
    let mut m = Mapper::new(false, objective());
    assert!(m.needs_view());
    m.insert_view(objective(), Ok(level_view().optimize()));
    assert!(!m.needs_view());
    m.add_location(Location::ColoredKey("KEY_RED".to_string(), 2, 7));
    m.add_location(Location::ColoredKey("KEY_BLUE".to_string(), 9, 1));
    m.add_location(Location::Gatherable("Cell".to_string(), 3, 1));
    assert_eq!(m.locations.vec.len(), 1);
    match &m.locations.vec[0] {
        LocationRender::Key(k) => assert_eq!(k.color, Some(MapperColor::Red.to_color())),
        _ => panic!("expected a key line"),
    }
    m.start_generation(RunObjective::from_name("R2A1".to_string()));
    assert!(m.locations.vec.is_empty());
    assert_eq!(m.key_len, 0);
}

#[test]
fn mapper_view_error_and_replay() {
    let mut m = Mapper::new(true, objective());
    m.insert_view(objective(), Err(MapperColorError::SpannedError("bad".to_string())));
    m.add_location(Location::BigCollectable("Disk".to_string(), 1));
    assert!(matches!(m.locations.error_found, Some(MapperColorError::SpannedError(_))));
    assert_eq!(m.locations.height(), 1000);
    let reader = LevelObjectiveReader { objective: RunObjective::from_name(String::new()).with_secondary(true) };
    m.update(&reader);
    assert!(m.level_objective.secondary);
    assert_eq!(m.locations_copy.len(), 1);
    assert_eq!(m.locations.vec.len(), 1);
    m.receive(&reader, Location::GenerationStarted("R3C1".to_string()));
    assert_eq!(m.level_objective.level_name, "R3C1");
    assert!(m.level_objective.secondary);
    assert!(m.locations_copy.is_empty());
}

fn foresight() -> ForesightView {
    ForesightView {
        data: vec![ForesightEntry {
            name: "Key".to_string(),
            zone: 1,
            color: MapperColor::Yellow,
            ids: vec![KeyID::VecID(4)],
        }],
        default_color: Some(MapperColor::White),
        ignore_zones: vec![50],
        ignore_pairs: vec![NamedZones { name: "Cell".to_string(), zones: vec![2] }],
        conditional_ignores: vec![ConditionalIgnore {
            condition: ViewCondition { name: "HSU".to_string(), zone: Some(3), id: None },
            ignore_zones: vec![7],
            ignore_pairs: Vec::new(),
            color_data: vec![ForesightEntry {
                name: "Key".to_string(),
                zone: 8,
                color: MapperColor::Green,
                ids: vec![KeyID::RangeID(0, 10)],
            }],
        }],
        rename: vec![("Key".to_string(), "Keycard".to_string())],
        group_zones: vec![3],
        order: vec![(1, "Keycard".to_string()), (5, "X".to_string()), (1, "Keycard".to_string())],
    }
}

#[test]
fn foresight_rules() {
    let mut v = foresight().optimize();
    let key = "Key".to_string();
    assert_eq!(v.lookup(&key, &1, &4), Some(MapperColor::Yellow.to_color()));
    assert_eq!(v.lookup(&key, &8, &4), Some(MapperColor::White.to_color()));
    assert!(v.is_ignored(&key, &50, &0));
    assert!(v.is_ignored(&"Cell".to_string(), &2, &0));
    assert!(!v.is_ignored(&"Cell".to_string(), &3, &0));
    assert!(!v.is_ignored(&key, &7, &0));
    assert_eq!(v.rename(&key), Some("Keycard".to_string()));
    assert_eq!(v.rename(&"Cell".to_string()), None);
    assert!(v.is_grouped(&3));
    assert_eq!(v.get_order(&"Keycard".to_string(), &1), Some(2));
    assert_eq!(v.get_order(&"Keycard".to_string(), &2), None);
    // finding the condition's item switches its rules on
    v.add_found(&"HSU".to_string(), &4, &0);
    assert!(!v.is_ignored(&key, &7, &0));
    v.add_found(&"HSU".to_string(), &3, &0);
    assert!(v.is_ignored(&key, &7, &0));
    assert_eq!(v.lookup(&key, &8, &4), Some(MapperColor::Green.to_color()));
    v.add_found(&"HSU".to_string(), &3, &0);
    assert_eq!(v.conditions_triggered, vec![true]);
    v.reset();
    assert!(!v.is_ignored(&key, &7, &0));
    assert_eq!(v.conditions_triggered, vec![false]);
}

#[test]
fn view_condition_matching() {
    let c = ViewCondition { name: "HSU".to_string(), zone: Some(3), id: Some(KeyID::RangeID(1, 2)) };
    assert!(c.matches(&"HSU".to_string(), &3, &2));
    assert!(!c.matches(&"HSU".to_string(), &3, &0));
    assert!(!c.matches(&"HSU".to_string(), &4, &1));
    assert!(!c.matches(&"Cell".to_string(), &3, &1));
    let any = ViewCondition { name: "HSU".to_string(), zone: None, id: None };
    assert!(any.matches(&"HSU".to_string(), &99, &-5));
}

#[test]
fn seed_indexer_listing() {
    let mut s = SeedIndexer::new(all_shown(), 10);
    assert!(s.handle(SeedEvent::GenerationStart("R1A1".to_string())));
    s.set_view("R1A1".to_string(), foresight().optimize());
    assert!(!s.handle(SeedEvent::Seed));
    s.handle(SeedEvent::Key("Key".to_string(), 1, 4));
    s.handle(SeedEvent::ResourcePack(ResourceType::Ammopack, 2, 11));
    s.handle(SeedEvent::Key("Cell".to_string(), 2, 9));
    s.handle(SeedEvent::Key("Key".to_string(), 1, 5));
    s.handle(SeedEvent::ResourcePack(ResourceType::Healthpack, -1, 3));
    s.handle(SeedEvent::Other);
    assert_eq!(s.data_found.len(), 6);
    assert!(!s.handle(SeedEvent::GenerationEnd));
    let shown = rows(&s.end_shown);
    let listing: Vec<(i32, String, Vec<i32>)> = shown
        .iter()
        .map(|e| (e.zone, e.name.clone(), e.ids.iter().map(|(i, _)| *i).collect()))
        .collect();
    assert_eq!(
        listing,
        vec![
            (-1, "Healthpack".to_string(), vec![3]),
            (1, "Keycard".to_string(), vec![4, 5]),
            (2, "Ammopack".to_string(), vec![11]),
        ]
    );
    assert_eq!(shown[1].ids[0].1, Some(MapperColor::Yellow.to_color()));
    assert_eq!(shown[1].ids[1].1, Some(MapperColor::White.to_color()));
    // a new generation forgets the last one
    assert!(s.handle(SeedEvent::GenerationStart("R1B1".to_string())));
    assert!(s.data_found.is_empty() && rows(&s.end_shown).is_empty());
    assert!(s.current_view().is_none());
}

#[test]
fn seed_indexer_filters() {
    let mut f = all_shown();
    f.show_colored_key = false;
    f.show_resources = false;
    f.show_artifacts = false;
    let mut s = SeedIndexer::new(f, 10);
    s.handle(SeedEvent::GenerationStart("R2".to_string()));
    s.handle(SeedEvent::Key("KeyBlue".to_string(), 1, 1));
    s.handle(SeedEvent::Key("BulkKey".to_string(), 1, 2));
    s.handle(SeedEvent::Key("ArtifactMuted".to_string(), 1, 3));
    s.handle(SeedEvent::ResourcePack(ResourceType::Ammopack, 1, 4));
    s.handle(SeedEvent::GenerationEnd);
    let names: Vec<String> = rows(&s.end_shown).iter().map(|e| e.name.clone()).collect();
    assert_eq!(names, vec!["BulkKey".to_string()]);
}

#[test]
fn grouping_orders_by_view_place() {
    let v = foresight().optimize();
    let items = vec![
        ShownItem { zone: 5, name: "X".to_string(), id: 1, color: None, by_view_order: true },
        ShownItem { zone: 1, name: "Keycard".to_string(), id: 2, color: None, by_view_order: true },
        ShownItem { zone: 0, name: "Y".to_string(), id: 3, color: None, by_view_order: true },
    ];
    let listing = rows(&group(Some(&v), &items));
    let order: Vec<&str> = listing.iter().map(|e| e.name.as_str()).collect();
    // Y has no place in the view: ranked by its zone, 0
    assert_eq!(order, vec!["Y", "X", "Keycard"]);
    let plain = rows(&group(None, &items));
    let order: Vec<i32> = plain.iter().map(|e| e.zone).collect();
    assert_eq!(order, vec![0, 1, 5]);
}

#[test]
fn grouping_keeps_ties_in_order() {
    let items = vec![
        ShownItem { zone: 2, name: "B".to_string(), id: 1, color: None, by_view_order: false },
        ShownItem { zone: 1, name: "C".to_string(), id: 2, color: None, by_view_order: false },
        ShownItem { zone: 2, name: "A".to_string(), id: 3, color: None, by_view_order: false },
        ShownItem { zone: 2, name: "B".to_string(), id: 4, color: None, by_view_order: false },
    ];
    let listing: Vec<(i32, String, Vec<i32>)> = rows(&group(None, &items))
        .iter()
        .map(|e| (e.zone, e.name.clone(), e.ids.iter().map(|(i, _)| *i).collect()))
        .collect();
    assert_eq!(
        listing,
        vec![
            (1, "C".to_string(), vec![2]),
            (2, "B".to_string(), vec![1, 4]),
            (2, "A".to_string(), vec![3]),
        ]
    );
}

#[test]
fn level_view_lookup_takes_first_fit() {
    let v = LevelView {
        key_colors: vec![vec![
            ColorIds { zone: 1, color: MapperColor::Green, ids: vec![KeyID::VecID(5)] },
            ColorIds { zone: 2, color: MapperColor::Red, ids: vec![KeyID::RangeID(0, 9)] },
            ColorIds { zone: 2, color: MapperColor::Blue, ids: vec![KeyID::VecID(7)] },
        ]],
        objective_colors: vec![
            NamedColorIds { name: "Cell".to_string(), zone: 3, color: MapperColor::White, ids: vec![KeyID::VecID(1)] },
            NamedColorIds { name: "Cell".to_string(), zone: 3, color: MapperColor::Yellow, ids: vec![KeyID::VecID(1)] },
        ],
        ignore_zones: vec![],
        default_color: MapperColor::Grey,
    }
    .optimize();
    let key = Location::ColoredKey("KEY".to_string(), 2, 7);
    assert_eq!(v.lookup(0, &key), Some(MapperColor::Red.to_color()));
    let cell = Location::Gatherable("Cell".to_string(), 3, 1);
    assert_eq!(v.lookup(0, &cell), Some(MapperColor::White.to_color()));
    let none = Location::ColoredKey("KEY".to_string(), 1, 7);
    assert_eq!(lookup_color(Some(&v), 0, &none), Some(MapperColor::Grey.to_color()));
}

fn entry(zone: i32) -> ShownEntry {
    ShownEntry { zone, name: "X".to_string(), ids: vec![(1, None)] }
}

#[test]
fn seed_listing_lines() {
    let v = foresight().optimize();
    let entries = vec![entry(1), entry(3), entry(3), entry(4)];
    let (lines, separators) = display_rows(Some(&v), &entries);
    assert_eq!(
        lines,
        vec![
            DisplayRow::Entry(0, true),
            DisplayRow::Separator,
            DisplayRow::Heading(3),
            DisplayRow::Entry(1, false),
            DisplayRow::Entry(2, false),
            DisplayRow::Separator,
            DisplayRow::Entry(3, true),
        ]
    );
    assert_eq!(separators, 2);
    let (plain, n) = display_rows(None, &entries);
    assert_eq!(plain.len(), 4);
    assert_eq!(n, 0);
}
