use gtfo_logger::run::{LevelRun, NamedSplit, RunObjective};
use gtfo_logger::run_list::{
    grab_time, remove_rows, row_cells, sum_run_splits, take_rows, LogParserWindow, ObjectiveFlag,
    RenderResult, RunManagerWindow, VisualSorterButtons,
};
use gtfo_logger::sorter::{get_total_times, goes_before, sort_runs, SortKey};
use gtfo_logger::stats::{LevelStat, Stats, StatsWindow};
use gtfo_logger::time::Time;

fn split(name: &str, ms: u64) -> NamedSplit {
    NamedSplit::new(Time::from_stamp(ms), name.to_string())
}

fn run(level: &str, win: bool, splits: &[(&str, u64)]) -> LevelRun {
    let mut r = LevelRun::new(RunObjective::from_name(level.to_string()));
    for (n, t) in splits {
        r.add_split(split(n, *t));
    }
    r.set_win(win);
    r
}

fn names(v: &[LevelRun]) -> Vec<String> {
    v.iter().map(|r| r.get_name().clone()).collect()
}

fn sample() -> Vec<LevelRun> {
    vec![
        run("R1B1", false, &[("a", 500)]),
        run("R1A1", true, &[("a", 300), ("WIN", 400)]),
        run("R1A1_sec", true, &[("WIN", 900)]),
        run("R2A1", false, &[("a", 100), ("b", 100), ("c", 100)]),
        run("R1A1", false, &[("a", 200)]),
    ]
}

#[test]
fn stats_per_level() {
    let runs = sample();
    let refs: Vec<&LevelRun> = runs.iter().collect();
    let st = Stats::build(&refs);
    assert_eq!(st.number_of_runs, 5);
    assert_eq!(st.win_counter, 2);
    assert_eq!(st.time_total.get_stamp(), 700 + 900 + 300 + 200 + 500);
    let level_names: Vec<&str> = st.levels.iter().map(|(n, _)| n.as_str()).collect();
    assert_eq!(level_names, vec!["R1A1", "R1B1", "R2A1"]);
    let r1a1 = &st.levels[0].1;
    assert_eq!(r1a1.run_count, 3);
    assert_eq!(r1a1.win_count, 2);
    assert_eq!(r1a1.total_time.get_stamp(), 1800);
    assert_eq!(r1a1.fastest_time.map(|t| t.get_stamp()), Some(700));
    assert_eq!(r1a1.slowest_time.map(|t| t.get_stamp()), Some(900));
    let r1b1 = &st.levels[1].1;
    assert_eq!(r1b1.win_count, 0);
    assert_eq!(r1b1.fastest_time, None);
    // the levels add up to the totals
    let count: usize = st.levels.iter().map(|(_, s)| s.run_count).sum();
    let wins: usize = st.levels.iter().map(|(_, s)| s.win_count).sum();
    let time: u64 = st.levels.iter().map(|(_, s)| s.total_time.get_stamp()).sum();
    assert_eq!((count, wins, time), (st.number_of_runs, st.win_counter, st.time_total.get_stamp()));
}

#[test]
fn stats_of_nothing() {
    let refs: Vec<&LevelRun> = Vec::new();
    let st = Stats::build(&refs);
    assert_eq!(st.number_of_runs, 0);
    assert!(st.levels.is_empty());
    let d = LevelStat::default();
    assert_eq!((d.run_count, d.win_count), (0, 0));
}

#[test]
fn level_stat_add_run() {
    let mut s = LevelStat::from_run(&run("R1A1", true, &[("WIN", 40)]));
    s.add_run(&run("R1A1", true, &[("WIN", 10)]));
    s.add_run(&run("R1A1", false, &[("x", 5)]));
    assert_eq!(s.run_count, 3);
    assert_eq!(s.win_count, 2);
    assert_eq!(s.total_time.get_stamp(), 55);
    assert_eq!(s.fastest_time.map(|t| t.get_stamp()), Some(10));
    assert_eq!(s.slowest_time.map(|t| t.get_stamp()), Some(40));
}

#[test]
fn stats_window_filters() {
    let mut w = StatsWindow::new(sample());
    assert_eq!(w.max_time_filter.get_stamp(), 359_999_999);
    assert_eq!(w.stats_shown.number_of_runs, 5);
    w.win_filter = true;
    w.update();
    assert_eq!(w.stats_shown.number_of_runs, 2);
    w.win_filter = false;
    w.set_name_filter("r1a1");
    assert_eq!(w.name_filter, "R1A1");
    w.update();
    assert_eq!(w.stats_shown.number_of_runs, 3);
    w.set_min_stamp_input("2".to_string());
    assert_eq!(w.min_stamp_filter, 2);
    w.update();
    assert_eq!(w.stats_shown.number_of_runs, 1);
    w.set_min_stamp_input("x".to_string());
    assert_eq!(w.min_stamp_filter, 2);
    assert_eq!(w.string_inputs[2], "x");
    w.set_max_time_input("00:00:00.500".to_string(), Some(Time::from_stamp(500)));
    assert_eq!(w.max_time_filter.get_stamp(), 500);
    w.set_min_time_input("bad".to_string(), None);
    assert_eq!(w.min_time_filter.get_stamp(), 0);
    assert_eq!(w.string_inputs[0], "bad");
    w.set_max_stamp_input("+7".to_string());
    assert_eq!(w.max_stamp_filter, 7);
}

#[test]
fn sort_by_each_key() {
    let mut v = sample();
    sort_runs(&mut v, SortKey::Time);
    let times: Vec<u64> = v.iter().map(|r| r.get_time().get_stamp()).collect();
    assert_eq!(times, vec![200, 300, 500, 700, 900]);

    let mut v = sample();
    sort_runs(&mut v, SortKey::Win);
    assert_eq!(names(&v), vec!["R1A1", "R1A1_sec", "R1B1", "R2A1", "R1A1"]);
    assert!(v[0].is_win() && v[1].is_win() && !v[2].is_win());

    let mut v = sample();
    sort_runs(&mut v, SortKey::Objective);
    assert_eq!(names(&v), vec!["R1A1", "R1A1", "R1A1_sec", "R1B1", "R2A1"]);
    // stable: the won R1A1 came first
    assert!(v[0].is_win() && !v[1].is_win());

    let mut v = sample();
    sort_runs(&mut v, SortKey::Stamps);
    let lens: Vec<usize> = v.iter().map(|r| r.len()).collect();
    assert_eq!(lens, vec![3, 2, 1, 1, 1]);
    assert_eq!(names(&v)[2..].to_vec(), vec!["R1B1", "R1A1_sec", "R1A1"]);
}

#[test]
fn sorting_keeps_total_and_sorted_stays() {
    let mut v = sample();
    let before = get_total_times(&v).get_stamp();
    assert_eq!(before, 2600);
    sort_runs(&mut v, SortKey::Time);
    assert_eq!(get_total_times(&v).get_stamp(), before);
    let order = names(&v);
    sort_runs(&mut v, SortKey::Time);
    assert_eq!(names(&v), order);
    assert!(goes_before(SortKey::Time, &v[0], &v[1]));
    assert!(!goes_before(SortKey::Time, &v[1], &v[0]));
    assert_eq!(get_total_times(&Vec::new()).get_stamp(), 0);
}

#[test]
fn objective_order_uses_all_fields() {
    let a = LevelRun::new(RunObjective::from_name("R1A1".to_string()));
    let b = LevelRun::new(RunObjective::from_name("R1A1".to_string()).with_player_count(2));
    let c = LevelRun::new(RunObjective::from_name("R1A1".to_string()).with_secondary(true));
    assert!(goes_before(SortKey::Objective, &a, &b));
    assert!(goes_before(SortKey::Objective, &c, &b));
    assert!(goes_before(SortKey::Objective, &a, &c));
    assert!(!goes_before(SortKey::Objective, &a, &a));
}

#[test]
fn grab_time_with_and_without_merge() {
    let r = run("R1A1", true, &[("a", 100), ("b", 250), ("WIN", 50)]);
    assert_eq!(grab_time(&r, &"b".to_string(), None).map(|t| t.get_stamp()), Some(250));
    assert_eq!(grab_time(&r, &"z".to_string(), None), None);
    let merged = vec!["a".to_string(), "b".to_string()];
    assert_eq!(grab_time(&r, &"ab".to_string(), Some(&merged)).map(|t| t.get_stamp()), Some(350));
    let missing = vec!["a".to_string(), "q".to_string()];
    assert_eq!(grab_time(&r, &"ab".to_string(), Some(&missing)), None);
    assert_eq!(grab_time(&r, &"x".to_string(), Some(&Vec::new())).map(|t| t.get_stamp()), Some(0));
}

#[test]
fn row_cells_running_totals() {
    let r = run("R1A1", true, &[("a", 100), ("b", 250), ("WIN", 50)]);
    let names = vec!["a".to_string(), "missing".to_string(), "b".to_string(), "WIN".to_string()];
    let reqs: Vec<Option<Vec<String>>> = vec![None, None, None, None];
    let totals = row_cells(&r, &names, &reqs, 1, false);
    let t: Vec<Option<u64>> = totals.iter().map(|c| c.map(|t| t.get_stamp())).collect();
    assert_eq!(t, vec![None, Some(350), Some(400)]);
    let splits = row_cells(&r, &names, &reqs, 0, true);
    let s: Vec<Option<u64>> = splits.iter().map(|c| c.map(|t| t.get_stamp())).collect();
    assert_eq!(s, vec![Some(100), None, Some(250), Some(50)]);
    assert!(row_cells(&r, &names, &reqs, 9, false).is_empty());
}

#[test]
fn theoretical_sum() {
    let v = vec![Time::from_stamp(1), Time::from_stamp(20), Time::from_stamp(300)];
    assert_eq!(sum_run_splits(&v).get_stamp(), 321);
    assert_eq!(sum_run_splits(&Vec::new()).get_stamp(), 0);
}

#[test]
fn rows_removed_last_first() {
    let mut v = vec![10, 11, 12, 13, 14];
    let taken = take_rows(&mut v, &vec![1, 3]);
    assert_eq!(taken, vec![13, 11]);
    assert_eq!(v, vec![10, 12, 14]);
    let mut w = vec!['a', 'b', 'c'];
    remove_rows(&mut w, &vec![0, 2]);
    assert_eq!(w, vec!['b']);
    let r = RenderResult::default();
    assert!(!r.delete && !r.save);
}

#[test]
fn run_manager_state() {
    let mut m = RunManagerWindow::new();
    m.select_objective("R1A1".to_string(), 3, Some("a+b".to_string()));
    assert_eq!(m.compare_second, vec![false, false, false]);
    assert_eq!(m.merge_splits_string, "a+b");
    m.set_compare_all(true, 3);
    assert_eq!(m.compare_first, Some(0));
    assert_eq!(m.compare_second, vec![false, true, true]);
    m.apply_compare(2, Some(true), None);
    assert_eq!(m.compare_first, Some(2));
    assert_eq!(m.compare_second, vec![true, true, false]);
    m.apply_compare(1, None, Some(false));
    assert_eq!(m.compare_second, vec![true, false, false]);
    m.set_compare_all(false, 3);
    assert_eq!(m.compare_first, None);
    assert_eq!(m.compare_second, vec![false, false, false]);
    m.page_back();
    assert_eq!(m.bottom_range, 0);
    m.page_forward(3);
    m.page_forward(3);
    m.page_forward(3);
    assert_eq!(m.bottom_range, 2);
    m.page_back();
    assert_eq!(m.bottom_range, 1);
    m.set_compare_all(true, 0);
    assert_eq!(m.compare_first, None);
    m.select_objective("R2".to_string(), 1, None);
    assert_eq!(m.merge_splits_string, "");
    m.reset_compare_second(2);
    assert_eq!(m.compare_second, vec![false, false]);
}

#[test]
fn log_parser_set_all_and_sort() {
    let mut w = LogParserWindow::new(sample());
    assert_eq!(w.player_count_input, "0");
    w.set_all(ObjectiveFlag::Secondary, true);
    assert!(w.set_all_secondary);
    assert!(w.timed_runs.iter().all(|r| r.get_objective().secondary));
    w.set_all(ObjectiveFlag::Secondary, false);
    assert!(w.timed_runs.iter().all(|r| !r.get_objective().secondary));
    w.set_all(ObjectiveFlag::EarlyDrop, true);
    assert!(w.timed_runs.iter().all(|r| r.get_objective().early_drop));
    w.sort(SortKey::Time);
    assert_eq!(w.timed_runs[0].get_time().get_stamp(), 200);
    sort_runs(w.get_vec(), SortKey::Stamps);
    assert_eq!(w.timed_runs[0].len(), 3);
    w.set_times(Vec::new());
    assert!(w.timed_runs.is_empty());
}

fn level_fields(st: &Stats) -> Vec<(String, usize, usize, u64, Option<u64>, Option<u64>)> {
    st.levels
        .iter()
        .map(|(n, s)| {
            (
                n.clone(),
                s.run_count,
                s.win_count,
                s.total_time.get_stamp(),
                s.fastest_time.map(|t| t.get_stamp()),
                s.slowest_time.map(|t| t.get_stamp()),
            )
        })
        .collect()
}

#[test]
fn stats_ignore_run_order() {
    let runs = sample();
    let refs: Vec<&LevelRun> = runs.iter().collect();
    let mut reversed = refs.clone();
    reversed.reverse();
    let a = Stats::build(&refs);
    let b = Stats::build(&reversed);
    assert_eq!(a.number_of_runs, b.number_of_runs);
    assert_eq!(a.win_counter, b.win_counter);
    assert_eq!(a.time_total.get_stamp(), b.time_total.get_stamp());
    assert_eq!(level_fields(&a), level_fields(&b));
}
