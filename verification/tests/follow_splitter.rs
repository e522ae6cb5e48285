use gtfo_logger::objective::LevelObjectiveReader;
use gtfo_logger::run::{LevelRun, NamedSplit, RunObjective};
use gtfo_logger::run_buffer::{RunRendererBuffer, SplitInfo};
use gtfo_logger::run_render::Comparison;
use gtfo_logger::settings::SettingsWindow;
use gtfo_logger::time::Time;

fn split(name: &str, ms: u64) -> NamedSplit {
    NamedSplit::new(Time::from_stamp(ms), name.to_string())
}

fn run(level: &str, splits: &[(&str, u64)]) -> LevelRun {
    let mut r = LevelRun::new(RunObjective::from_name(level.to_string()));
    for (n, t) in splits {
        r.add_split(split(n, *t));
    }
    r
}

fn info(name: &str, best: Option<u64>, required: Option<&[&str]>) -> SplitInfo {
    SplitInfo {
        name: name.to_string(),
        best_split: best.map(Time::from_stamp),
        required: required.map(|v| v.iter().map(|s| s.to_string()).collect()),
    }
}

fn stamps(b: &RunRendererBuffer) -> Vec<u64> {
    b.split_labels.iter().map(|t| t.stamp).collect()
}

fn ahead(ms: u64) -> Comparison {
    Comparison::Ahead(Time::from_stamp(ms))
}

fn behind(ms: u64) -> Comparison {
    Comparison::Behind(Time::from_stamp(ms))
}

#[test]
fn follows_running_totals_and_compares() {
    let mut b = RunRendererBuffer::new(true, true, 10);
    let r = run("R1A1", &[("A", 1000), ("B", 2000)]);
    let wr = run("R1A1", &[("A", 1500), ("B", 1000)]);
    let infos = vec![info("A", Some(900), None), info("B", Some(2500), None)];
    assert!(b.update_fits(1, &r, Some(&wr), &infos));
    b.update(1, &r, None, Some(&wr), &infos);
    assert_eq!(stamps(&b), vec![1000, 3000]);
    let cw: Vec<Comparison> = b.compared_wr.as_ref().unwrap().iter().cloned().collect();
    assert_eq!(cw, vec![ahead(500), behind(500)]);
    let cb: Vec<Comparison> = b.compared_best.as_ref().unwrap().iter().cloned().collect();
    assert_eq!(cb, vec![behind(100), ahead(500)]);
    assert_eq!(b.current_run_total.stamp, 3000);
    assert_eq!(b.wr_total.stamp, 2500);
    assert_eq!(b.splits_added_count, 2);
    assert_eq!(b.current_run_counter, Some(1));
    assert_eq!(b.objective.level_name, "R1A1".to_string());
}

#[test]
fn loss_split_is_counted_not_listed() {
    let mut b = RunRendererBuffer::new(false, false, 10);
    let r = run("R1A1", &[("A", 100), ("LOSS", 50), ("B", 200)]);
    b.update(4, &r, None, None, &vec![]);
    assert_eq!(stamps(&b), vec![100, 300]);
    assert_eq!(b.splits_added_count, 3);
    assert!(b.compared_wr.is_none());
    assert!(b.compared_best.is_none());
}

#[test]
fn takes_only_new_splits() {
    let mut b = RunRendererBuffer::new(true, false, 10);
    let mut r = run("R2B1", &[("A", 100)]);
    b.update(7, &r, None, None, &vec![]);
    assert_eq!(stamps(&b), vec![100]);
    r.add_split(split("B", 40));
    b.update(7, &r, None, None, &vec![]);
    assert_eq!(stamps(&b), vec![100, 140]);
    let cw: Vec<Comparison> = b.compared_wr.as_ref().unwrap().iter().cloned().collect();
    assert_eq!(cw, vec![Comparison::Blank, Comparison::Blank]);
    // Nothing new: nothing changes.
    b.update(7, &r, None, None, &vec![]);
    assert_eq!(stamps(&b), vec![100, 140]);
    assert_eq!(b.splits_added_count, 2);
}

#[test]
fn another_run_starts_over() {
    let mut b = RunRendererBuffer::new(false, true, 10);
    let r = run("R1A1", &[("A", 100), ("B", 200)]);
    b.update(1, &r, None, None, &vec![]);
    let r2 = run("R1A1", &[("A", 70)]);
    b.update(2, &r2, None, None, &vec![]);
    assert_eq!(stamps(&b), vec![70]);
    assert_eq!(b.current_run_total.stamp, 70);
    assert_eq!(b.current_run_counter, Some(2));
    let cb: Vec<Comparison> = b.compared_best.as_ref().unwrap().iter().cloned().collect();
    assert_eq!(cb, vec![Comparison::Blank]);
}

#[test]
fn keeps_only_the_last_splits() {
    let mut b = RunRendererBuffer::new(true, true, 2);
    let r = run("R1A1", &[("A", 1), ("B", 2), ("C", 3)]);
    let wr = run("R1A1", &[("A", 1), ("B", 2), ("C", 3)]);
    b.update(1, &r, None, Some(&wr), &vec![]);
    assert_eq!(stamps(&b), vec![3, 6]);
    let cw: Vec<Comparison> = b.compared_wr.as_ref().unwrap().iter().cloned().collect();
    assert_eq!(cw, vec![Comparison::Even, Comparison::Even]);
    assert_eq!(b.compared_best.as_ref().unwrap().len(), 2);
    assert_eq!(b.splits_added_count, 3);
    assert_eq!(b.current_run_total.stamp, 6);
}

#[test]
fn zero_length_keeps_nothing() {
    let mut b = RunRendererBuffer::new(true, true, 0);
    let r = run("R1A1", &[("A", 1), ("B", 2)]);
    b.update(1, &r, None, None, &vec![]);
    assert!(b.split_labels.is_empty());
    assert!(b.compared_wr.as_ref().unwrap().is_empty());
    assert_eq!(b.current_run_total.stamp, 3);
}

#[test]
fn merged_split_compares_its_sum() {
    let mut b = RunRendererBuffer::new(false, true, 10);
    let r = run("R1A1", &[("A", 1000), ("B", 2000), ("C", 500)]);
    let infos = vec![info("C", Some(3000), Some(&["A", "B", "C"])), info("B", Some(1000), Some(&["A", "X"]))];
    b.update(1, &r, None, None, &infos);
    let cb: Vec<Comparison> = b.compared_best.as_ref().unwrap().iter().cloned().collect();
    // A: no record; B: a required split is missing; C: 3500 against 3000.
    assert_eq!(cb, vec![Comparison::Blank, Comparison::Blank, behind(500)]);
}

#[test]
fn reader_overrides_objective() {
    let mut b = RunRendererBuffer::new(false, false, 10);
    let r = run("R1A1", &[("A", 1)]);
    let reader = LevelObjectiveReader { objective: RunObjective::from_name(String::new()).with_secondary(true) };
    b.update(1, &r, Some(&reader), None, &vec![]);
    assert_eq!(b.objective.level_name, "R1A1".to_string());
    assert!(b.objective.secondary);
}

#[test]
fn reset_clears_but_keeps_columns() {
    let mut b = RunRendererBuffer::new(true, false, 10);
    let r = run("R1A1", &[("A", 1)]);
    b.update(1, &r, None, None, &vec![]);
    b.reset();
    assert!(b.split_labels.is_empty());
    assert!(b.compared_wr.as_ref().unwrap().is_empty());
    assert!(b.compared_best.is_none());
    assert_eq!(b.current_run_total.stamp, 0);
    assert_eq!(b.splits_added_count, 0);
    assert_eq!(b.objective.level_name, String::new());
    assert_eq!(b.objective.player_count, 0);
}

#[test]
fn update_fits_detects_overflow() {
    let b = RunRendererBuffer::new(false, false, 10);
    let r = run("R1A1", &[("A", u64::MAX)]);
    assert!(b.update_fits(1, &r, None, &vec![]));
    let mut b2 = RunRendererBuffer::new(false, false, 10);
    b2.update(1, &r, None, None, &vec![]);
    let r2 = run("R1A1", &[("A", u64::MAX - 5), ("LOSS", 3)]);
    // Another run starts from zero, and a LOSS split adds nothing.
    assert!(b2.update_fits(2, &r2, None, &vec![]));
    let r3 = run("R1A1", &[("A", u64::MAX)]);
    let mut b3 = RunRendererBuffer::new(false, false, 10);
    b3.update(1, &run("R1A1", &[("A", 10)]), None, None, &vec![]);
    let mut longer = run("R1A1", &[("A", 10)]);
    longer.add_split(split("B", u64::MAX - 20));
    assert!(b3.update_fits(1, &longer, None, &vec![]));
    let mut too_long = run("R1A1", &[("Z", 0)]);
    too_long.add_split(split("B", u64::MAX));
    let mut b4 = RunRendererBuffer::new(false, false, 10);
    b4.update(1, &run("R1A1", &[("A", 10)]), None, None, &vec![]);
    assert!(!b4.update_fits(1, &too_long, None, &vec![]));
    assert!(b4.update_fits(5, &r3, None, &vec![]));
}

#[test]
fn settings_shape_the_splitter() {
    let mut s = SettingsWindow::with_defaults("logs".to_string());
    let b = RunRendererBuffer::from_settings(&s);
    assert!(b.compared_wr.is_some());
    assert!(b.compared_best.is_some());
    assert_eq!(b.max_length, 100);
    s.set_input("run_splitter_length", "3".to_string());
    let b = RunRendererBuffer::from_settings(&s);
    assert_eq!(b.max_length, 3);
    s.set_input("run_splitter_length", "-4".to_string());
    assert_eq!(RunRendererBuffer::from_settings(&s).max_length, 0);
    let empty = SettingsWindow::empty();
    let b = RunRendererBuffer::from_settings(&empty);
    assert!(b.compared_wr.is_none());
    assert!(b.compared_best.is_none());
    assert_eq!(b.max_length, 0);
}
