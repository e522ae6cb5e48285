use gtfo_logger::code_guess::CodeGuess;
use gtfo_logger::exported::{RunGeneratorResult, TimedRun};
use gtfo_logger::key_guess::KeyGuesserVisual;
use gtfo_logger::live::{clock_parts, RunCounter, Timer};
use gtfo_logger::objective::{LevelObjectiveReader, UpdateObjective};
use gtfo_logger::run::{LevelRun, NamedSplit, RunObjective};
use gtfo_logger::run_render::{
    compare_times, Comparison, GameRunRenderer, LevelRunRenderer, RunRender, SplitRecord,
};
use gtfo_logger::screens::{after_frame, after_parse, live_panels, needs_resize, next_screen, Screen, TopButton};
use gtfo_logger::seed_indexer::SeedIndexer;
use gtfo_logger::settings::{default_settings, Field, FieldValue, Section, SettingsWindow};
use gtfo_logger::time::Time;

fn split(name: &str, ms: u64) -> NamedSplit {
    NamedSplit::new(Time::from_stamp(ms), name.to_string())
}

fn no_record() -> SplitRecord {
    SplitRecord { best_run_split: None, required_splits: None, best_split: None }
}

#[test]
fn comparisons() {
    assert_eq!(compare_times(Time::from_stamp(100), Time::from_stamp(150)), Comparison::Ahead(Time::from_stamp(50)));
    assert_eq!(compare_times(Time::from_stamp(150), Time::from_stamp(100)), Comparison::Behind(Time::from_stamp(50)));
    assert_eq!(compare_times(Time::from_stamp(7), Time::from_stamp(7)), Comparison::Even);
}

#[test]
fn splitter_running_totals() {
    let mut r = RunRender::new(RunObjective::from_name("R1A1".to_string()), true, true, 100);
    let rec = SplitRecord {
        best_run_split: Some(Time::from_stamp(90)),
        required_splits: None,
        best_split: Some(Time::from_stamp(120)),
    };
    r.add_split(&split("a", 100), &rec);
    r.add_split(&split("b", 50), &no_record());
    let merged = SplitRecord {
        best_run_split: Some(Time::from_stamp(200)),
        required_splits: Some(vec!["a".to_string(), "b".to_string()]),
        best_split: Some(Time::from_stamp(140)),
    };
    r.add_split(&split("ab", 0), &merged);
    let labels: Vec<u64> = r.split_labels.iter().map(|t| t.get_stamp()).collect();
    assert_eq!(labels, vec![100, 150, 150]);
    let wr: Vec<Comparison> = r.compared_wr.as_ref().unwrap().iter().cloned().collect();
    assert_eq!(wr, vec![Comparison::Behind(Time::from_stamp(10)), Comparison::Blank, Comparison::Ahead(Time::from_stamp(140))]);
    let best: Vec<Comparison> = r.compared_best.as_ref().unwrap().iter().cloned().collect();
    assert_eq!(best, vec![Comparison::Ahead(Time::from_stamp(20)), Comparison::Blank, Comparison::Behind(Time::from_stamp(10))]);
    assert_eq!(r.height(), 4 * 22 + 6);
    let plain = RunRender::new(RunObjective::from_name("x".to_string()), false, false, 100);
    assert!(plain.compared_wr.is_none() && plain.compared_best.is_none());
}

#[test]
fn level_splitter_win_split() {
    let mut l = LevelRunRenderer::new(false, false, 100);
    assert_eq!(l.begin_frame().map(|v| v.len()), None);
    let reader = LevelObjectiveReader { objective: RunObjective::from_name(String::new()).with_overload(true) };
    l.on_game_started("R2C1".to_string(), 3, &reader);
    assert_eq!(l.run_render.objective.player_count, 3);
    assert!(l.run_render.objective.overload);
    l.run_render.add_split(&split("door", 40), &no_record());
    let t = TimedRun {
        name: "R2C1".to_string(),
        total_time: Time::from_stamp(0),
        player_count: 3,
        used_checkpoint: false,
        is_win: true,
        did_secondary: false,
        did_overload: true,
        splits: vec![split("door", 40), split("WIN", 60)],
    };
    let lr: LevelRun = t.into_level_run();
    // four frames still to wait: not saved
    assert!(!l.on_level_run(&lr, &no_record()));
    assert_eq!(l.run_render.total_time.get_stamp(), 100);
    l.update(&reader);
    let again = l.begin_frame().unwrap();
    assert_eq!(again.len(), 2);
    assert!(l.run_render.split_labels.is_empty());
    for _ in 0..5 {
        l.begin_frame();
    }
    assert_eq!(l.no_save_for_frames, 0);
    let lost = LevelRun::new(RunObjective::from_name("R2C1".to_string()));
    assert!(l.on_level_run(&lost, &no_record()));
}

#[test]
fn game_splitter() {
    let mut g = GameRunRenderer::new(RunObjective::from_name("R1".to_string()), false, false, 5);
    let mut a = LevelRun::new(RunObjective::from_name("R1A1".to_string()));
    a.add_split(split("WIN", 300));
    let mut b = LevelRun::new(RunObjective::from_name("R1B1".to_string()));
    b.add_split(split("WIN", 200));
    g.on_level_run(a, &no_record());
    g.on_level_run(b, &no_record());
    assert_eq!(g.render.total_time.get_stamp(), 500);
    assert_eq!(g.run_buffer.len(), 2);
    assert_eq!(g.render.run_buffer[1].name, "R1B1");
    g.begin_frame();
    assert_eq!(g.no_save_for_frames, 4);
}

#[test]
fn run_counter_counts_unique_seeds() {
    let mut c = RunCounter::new();
    c.on_session_seed(11);
    c.on_session_seed(12);
    c.on_session_seed(11);
    assert_eq!(c.run_counter, 3);
    assert_eq!(c.seed_counter, 2);
}

#[test]
fn real_timer() {
    let mut t = Timer::new();
    assert_eq!(t.height(), 0);
    assert!(t.on_event(&RunGeneratorResult::GameStarted("R1A1".to_string(), 1)));
    assert!(t.active);
    assert_eq!(t.height(), 54);
    assert!(!t.on_event(&RunGeneratorResult::SecondaryDone));
    assert!(t.active);
    let run = TimedRun {
        name: "R1A1".to_string(),
        total_time: Time::from_stamp(0),
        player_count: 1,
        used_checkpoint: false,
        is_win: false,
        did_secondary: false,
        did_overload: false,
        splits: Vec::new(),
    };
    assert!(!t.on_event(&RunGeneratorResult::LevelRun(run)));
    assert!(!t.active);
    assert_eq!(clock_parts(3725), (1, 2, 5));
    assert_eq!(clock_parts(59), (0, 0, 59));
}

#[test]
fn code_guess_narrows() {
    let codes = b"ABCDABCEXYZWABZZ".to_vec();
    let mut g = CodeGuess::new(codes, 2, 1);
    assert_eq!(g.valid, vec![true, true, true, true]);
    g.selected = "ab-d".to_string();
    g.check();
    assert_eq!(g.valid, vec![true, false, false, false]);
    g.selected = "AB".to_string();
    g.check();
    assert_eq!(g.valid, vec![true, true, false, true]);
    assert_eq!(g.visible_codes(), vec![0, 1]);
    assert_eq!(g.height(0), 27);
    assert_eq!(g.height(3), 27 + 2 * 22);
}

#[test]
fn key_guesser_letters() {
    let mut k = KeyGuesserVisual::new(3, 2);
    assert_eq!(k.key_guess_input_string, "----");
    k.set_input("a-Z9".to_string());
    assert_eq!(k.keys, vec![(0, b'a'), (2, b'z')]);
    assert_eq!(k.list_height(0), 27);
    assert_eq!(k.list_height(3), 27 + 22);
    assert_eq!(k.list_height(4), 27 + 2 * 22);
    assert_eq!(k.list_height(100), 27 + 2 * 22);
}

#[test]
fn settings_defaults() {
    let w = SettingsWindow::with_defaults("/logs".to_string());
    assert_eq!(w.get::<bool>("automatic_loading"), Some(true));
    assert_eq!(w.get::<bool>("automatic_saving"), Some(false));
    assert_eq!(w.get::<i32>("run_splitter_length"), Some(100));
    assert_eq!(w.get::<i32>("code_guess_word_count"), Some(7));
    assert_eq!(w.get::<bool>("run_splitter_length"), None);
    assert_eq!(w.get::<bool>("missing"), None);
    assert_eq!(w.get_def::<bool>("missing"), false);
    assert_eq!(w.get_def::<i32>("seed_indexer_length"), 10);
    assert_eq!(w.get_path("logs_path").map(|s| s.as_str()), Some("/logs"));
    assert_eq!(w.get_float_bits("window_transparency"), Some(0.6f32.to_bits()));
    assert_eq!(w.get_float_bits("y_position"), Some(250f32.to_bits()));
    assert_eq!(w.general.len(), 6);
    assert_eq!(w.splitter.len(), 9);
    assert_eq!(w.mapper.len(), 5);
    assert_eq!(w.foresight.len(), 15);
    assert_eq!(w.setting_hash.len(), 35);
    assert_eq!(default_settings("p".to_string()).len(), 35);
}

#[test]
fn settings_keep_values_and_add_missing() {
    let mut w = SettingsWindow::empty();
    w.add_to_general("automatic_loading".to_string(), Field::new("mine".to_string(), FieldValue::Boolean(false)));
    w.add_to_general("automatic_loading".to_string(), Field::new("again".to_string(), FieldValue::Boolean(true)));
    assert_eq!(w.setting_hash.len(), 1);
    assert_eq!(w.get::<bool>("automatic_loading"), Some(false));
    w.add_all("/l".to_string());
    assert_eq!(w.get::<bool>("automatic_loading"), Some(false));
    assert_eq!(w.setting_hash.len(), 35);
    assert_eq!(w.general[0], "automatic_loading");
    let before = w.setting_hash.len();
    let ids_before = (w.general.clone(), w.splitter.clone(), w.mapper.clone(), w.foresight.clone());
    w.add_all("/l".to_string());
    assert_eq!(w.setting_hash.len(), before);
    assert_eq!((w.general.clone(), w.splitter.clone(), w.mapper.clone(), w.foresight.clone()), ids_before);
    w.add_all("/other".to_string());
    assert_eq!(w.setting_hash.len(), before);
    assert_eq!(w.get_path("logs_path").map(|s| s.as_str()), Some("/l"));
    w.add_to(Section::Mapper, "extra".to_string(), Field::new("x".to_string(), FieldValue::String("t".to_string())));
    assert_eq!(w.get_text("extra").map(|s| s.as_str()), Some("t"));
    assert_eq!(w.mapper.last().map(|s| s.as_str()), Some("extra"));
}

#[test]
fn settings_typing() {
    let mut w = SettingsWindow::with_defaults(String::new());
    w.set_input("run_splitter_length", "42".to_string());
    assert_eq!(w.get::<i32>("run_splitter_length"), Some(42));
    w.set_input("run_splitter_length", "4x".to_string());
    assert_eq!(w.get::<i32>("run_splitter_length"), Some(42));
    w.set_input("logs_path", "/new".to_string());
    assert_eq!(w.get_path("logs_path").map(|s| s.as_str()), Some("/new"));
    w.set_input("window_transparency", "0.5".to_string());
    assert_eq!(w.get_float_bits("window_transparency"), Some(0.6f32.to_bits()));
    w.set_input("automatic_loading", "no".to_string());
    assert_eq!(w.get::<bool>("automatic_loading"), Some(true));
    let mut f = Field::new("d".to_string(), FieldValue::Boolean(false));
    f.set_bool(true);
    assert_eq!(f.as_bool(), Some(true));
    let mut g = Field::new("d".to_string(), FieldValue::Float(0, "0".to_string()));
    g.set_float_bits(1.5f32.to_bits());
    assert_eq!(g.as_float_bits(), Some(1.5f32.to_bits()));
    assert_eq!(g.as_int(), None);
}

#[test]
fn indexer_and_guess_from_settings() {
    let mut w = SettingsWindow::with_defaults(String::new());
    let s = SeedIndexer::from_settings(&w);
    assert_eq!(s.number_of_items, 10);
    assert!(!s.filter.show_artifacts);
    assert!(s.filter.show_cell);
    w.set_input("seed_indexer_length", "4".to_string());
    assert_eq!(SeedIndexer::from_settings(&w).number_of_items, 4);
    let g = CodeGuess::from_settings(b"ABCD".to_vec(), &w);
    assert_eq!((g.max_lines, g.codes_per_line), (3, 7));
    let empty = SettingsWindow::empty();
    let g = CodeGuess::from_settings(Vec::new(), &empty);
    assert_eq!((g.max_lines, g.codes_per_line), (3, 3));
    assert!(SeedIndexer::from_settings(&empty).filter.show_hsu);
}

#[test]
fn screens_and_panels() {
    assert_eq!(next_screen(Screen::Home, TopButton::LiveSplitter), Some(Screen::Live));
    assert_eq!(next_screen(Screen::Live, TopButton::OpenSettings), None);
    assert_eq!(next_screen(Screen::Live, TopButton::StopSplitter), Some(Screen::Home));
    assert_eq!(next_screen(Screen::Settings, TopButton::SaveSettings), Some(Screen::Home));
    assert_eq!(next_screen(Screen::Stats, TopButton::InputLogs(false)), None);
    assert_eq!(next_screen(Screen::Stats, TopButton::InputLogs(true)), Some(Screen::AwaitParseLog));
    assert_eq!(after_parse(Screen::AwaitParseStat), Some(Screen::Stats));
    assert_eq!(after_parse(Screen::Home), None);
    assert!(needs_resize(None, 80));
    assert!(!needs_resize(Some(80), 80));
    assert!(needs_resize(Some(80), 100));
    let p = live_panels(&SettingsWindow::with_defaults(String::new()));
    assert!(!p.real_timer && p.run_counter && p.mapper && p.seed_indexer && !p.code_guess && p.run_splitter);
    assert!(p.objective_reader);
    let none = live_panels(&SettingsWindow::empty());
    assert!(!none.objective_reader && !none.mapper);
}

#[test]
fn splitter_keeps_only_newest_splits() {
    let mut r = RunRender::new(RunObjective::from_name("R1A1".to_string()), true, true, 2);
    r.add_split(&split("a", 1), &no_record());
    r.add_split(&split("b", 2), &no_record());
    r.add_split(&split("c", 3), &no_record());
    let labels: Vec<u64> = r.split_labels.iter().map(|t| t.get_stamp()).collect();
    assert_eq!(labels, vec![3, 6]);
    assert_eq!(r.compared_wr.as_ref().unwrap().len(), 2);
    assert_eq!(r.compared_best.as_ref().unwrap().len(), 2);
    // all splits stay known for merged-split sums and the running total
    assert_eq!(r.run_buffer.len(), 3);
    assert_eq!(r.total_time.get_stamp(), 6);
    let mut none = RunRender::new(RunObjective::from_name("R1A1".to_string()), true, false, 0);
    none.add_split(&split("a", 1), &no_record());
    assert!(none.split_labels.is_empty());
    assert!(none.compared_wr.as_ref().unwrap().is_empty());
    assert_eq!(none.height(), 22 + 6);
}

#[test]
fn splitters_from_settings() {
    let mut w = SettingsWindow::with_defaults("logs".to_string());
    let l = LevelRunRenderer::from_settings(&w);
    assert_eq!(l.run_render.max_length, 100);
    assert!(l.compare_record && l.compare_best_splits);
    let g = GameRunRenderer::from_settings(RunObjective::from_name("R1".to_string()), &w);
    assert_eq!(g.render.max_length, 5);
    w.set_input("run_splitter_length", "-4".to_string());
    assert_eq!(LevelRunRenderer::from_settings(&w).run_render.max_length, 0);
    let empty = SettingsWindow::empty();
    let l = LevelRunRenderer::from_settings(&empty);
    assert_eq!(l.run_render.max_length, 0);
    assert!(!l.compare_record && l.run_render.compared_wr.is_none());
}

#[test]
fn awaiting_screens_move_when_done() {
    assert_eq!(after_frame(Screen::AwaitParseLog, false), Screen::AwaitParseLog);
    assert_eq!(after_frame(Screen::AwaitParseLog, true), Screen::LogParser);
    assert_eq!(after_frame(Screen::AwaitParseStat, true), Screen::Stats);
    assert_eq!(after_frame(Screen::Home, true), Screen::Home);
}

#[test]
fn run_counter_over_sessions() {
    let mut c = RunCounter::new();
    for s in [7u64, 3, 7, 9, 3] {
        c.on_session_seed(s);
    }
    assert_eq!(c.run_counter, 5);
    assert_eq!(c.seed_counter, 3);
}
