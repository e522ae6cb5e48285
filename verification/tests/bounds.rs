use gtfo_logger::exported::TimedRun;
use gtfo_logger::mapper::Mapper;
use gtfo_logger::mapper_view::Location;
use gtfo_logger::run::{LevelRun, NamedSplit, RunObjective};
use gtfo_logger::run_list::{row_fits, theoretical_best, LogParserWindow};
use gtfo_logger::run_render::{req_bound_checked, GameRunRenderer, LevelRunRenderer, RunRender, SplitRecord};
use gtfo_logger::seed_indexer::{SeedFilter, SeedIndexer};
use gtfo_logger::settings::{Field, FieldValue, SettingsWindow};
use gtfo_logger::stats::times_fit;
use gtfo_logger::time::Time;

fn split(name: &str, ms: u64) -> NamedSplit {
    NamedSplit::new(Time::from_stamp(ms), name.to_string())
}

fn no_record() -> SplitRecord {
    SplitRecord { best_run_split: None, required_splits: None, best_split: None }
}

#[test]
fn sums_that_fit_and_that_do_not() {
    let mut big = LevelRun::new(RunObjective::from_name("R1".to_string()));
    big.add_split(split("a", u64::MAX - 5));
    let mut small = LevelRun::new(RunObjective::from_name("R1".to_string()));
    small.add_split(split("a", 5));
    assert!(times_fit(&vec![small.clone()]));
    assert!(times_fit(&vec![big.clone(), small.clone()]));
    let mut more = LevelRun::new(RunObjective::from_name("R1".to_string()));
    more.add_split(split("a", 6));
    assert!(!times_fit(&vec![big.clone(), more]));
    let t = TimedRun {
        name: "R1".to_string(),
        total_time: Time::from_stamp(0),
        player_count: 1,
        used_checkpoint: false,
        is_win: false,
        did_secondary: false,
        did_overload: false,
        splits: vec![split("a", u64::MAX), split("b", 1)],
    };
    assert!(!t.splits_fit());
    let names = vec!["a".to_string(), "a".to_string()];
    assert_eq!(req_bound_checked(big.get_splits(), &names), None);
    assert_eq!(req_bound_checked(small.get_splits(), &names), Some(10));
    let reqs: Vec<Option<Vec<String>>> = vec![None, None];
    assert!(row_fits(&small, &names, &reqs));
    assert!(!row_fits(&big, &names, &reqs));
    assert!(!row_fits(&small, &names, &vec![None]));
}

#[test]
fn splitter_checks() {
    let mut r = RunRender::new(RunObjective::from_name("R1".to_string()), true, true, 100);
    assert!(r.split_fits(&split("a", 10), &no_record()));
    r.add_split(&split("a", u64::MAX - 1), &no_record());
    assert!(!r.split_fits(&split("b", 2), &no_record()));
    let rec = SplitRecord { best_run_split: None, required_splits: Some(vec!["a".to_string(), "c".to_string()]), best_split: None };
    assert!(r.split_fits(&split("c", 1), &rec));
    let twice = SplitRecord { best_run_split: None, required_splits: Some(vec!["a".to_string(), "a".to_string()]), best_split: None };
    assert!(!r.split_fits(&split("c", 0), &twice));
    let wr = SplitRecord { best_run_split: Some(Time::from_stamp(u64::MAX)), required_splits: None, best_split: None };
    assert!(r.split_fits(&split("d", 0), &wr));
    let l = LevelRunRenderer::new(false, false, 100);
    let mut won = LevelRun::new(RunObjective::from_name("R1".to_string()));
    won.add_split(split("WIN", 3));
    assert!(l.win_fits(&won, &no_record()));
    let g = GameRunRenderer::new(RunObjective::from_name("G".to_string()), false, false, 5);
    assert!(g.run_fits(&won, &no_record()));
}

#[test]
fn well_formed_states() {
    let w = SettingsWindow::with_defaults(String::new());
    assert!(w.ids_unique());
    let mut twice = SettingsWindow::empty();
    twice.setting_hash.push(("a".to_string(), Field::new("x".to_string(), FieldValue::Boolean(true))));
    twice.setting_hash.push(("a".to_string(), Field::new("y".to_string(), FieldValue::Boolean(false))));
    assert!(!twice.ids_unique());
    let s = SeedIndexer::new(
        SeedFilter {
            show_gather_small_items: true,
            show_fog_turbine: true,
            show_cell: true,
            show_colored_key: true,
            show_bulkhead_key: true,
            show_terminal_uplink: true,
            show_special_terminal_command: true,
            show_retrieve_big_items: true,
            show_hsu: true,
            show_power_cell_distribution: true,
            show_resources: true,
            show_consumables: true,
            show_artifacts: true,
        },
        5,
    );
    assert!(s.views_ready());
    let mut m = Mapper::new(true, RunObjective::from_name("R1".to_string()));
    m.add_location(Location::Gatherable("Cell".to_string(), 1, 4));
    m.add_location(Location::Gatherable("Cell".to_string(), 1, 2));
    m.add_location(Location::BulkheadKey("B".to_string(), 1, 2));
    assert!(m.lines_in_order());
    m.locations.vec.swap(0, 1);
    assert!(!m.lines_in_order());
}

#[test]
fn theoretical_and_player_count() {
    let names = vec!["a".to_string(), "b".to_string(), "c".to_string()];
    let best = vec![("b".to_string(), Time::from_stamp(20)), ("a".to_string(), Time::from_stamp(5)), ("b".to_string(), Time::from_stamp(1))];
    assert_eq!(theoretical_best(&names, &best).map(|t| t.get_stamp()), Some(25));
    let huge = vec![("a".to_string(), Time::from_stamp(u64::MAX)), ("b".to_string(), Time::from_stamp(1))];
    assert_eq!(theoretical_best(&names, &huge), None);
    let mut w = LogParserWindow::new(Vec::new());
    assert_eq!(w.set_player_count_input("4".to_string()), Some(4));
    assert_eq!(w.player_count_input, "4");
    assert_eq!(w.set_player_count_input("256".to_string()), None);
    assert_eq!(w.set_player_count_input("x".to_string()), None);
    assert_eq!(w.player_count_input, "x");
}
