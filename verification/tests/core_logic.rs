use gtfo_logger::exported::{Code, ResourceType, TimedRun};
use gtfo_logger::objective::{LevelObjectiveReader, ObjectiveReader, ObjectiveUpdate};
use gtfo_logger::run::{find_split_named, LevelRun, NamedSplit, RunObjective};
use gtfo_logger::text::{
    contains_str, parse_i32, parse_usize, prefix_before_char, same_text, starts_with_text, str_less,
};
use gtfo_logger::time::Time;

fn split(name: &str, ms: u64) -> NamedSplit {
    NamedSplit::new(Time::from_stamp(ms), name.to_string())
}

fn run(level: &str, win: bool, splits: &[(&str, u64)]) -> LevelRun {
    let mut r = LevelRun::new(RunObjective::from_name(level.to_string()));
    for (n, t) in splits {
        r.add_split(split(n, *t));
    }
    r.set_win(win);
    r
}

#[test]
fn time_arithmetic() {
    let a = Time::from_stamp(1500);
    let b = Time::from_stamp(700);
    assert_eq!(a.add(b).get_stamp(), 2200);
    assert_eq!(a.sub(b).get_stamp(), 800);
    assert_eq!(a.max(b).get_stamp(), 1500);
    assert_eq!(a.min(b).get_stamp(), 700);
    assert_eq!(Time::new().get_stamp(), 0);
}

#[test]
fn text_prefix_and_search() {
    assert_eq!(prefix_before_char("R1A1_secondary", '_'), "R1A1");
    assert_eq!(prefix_before_char("R1A1", '_'), "R1A1");
    assert_eq!(prefix_before_char("_x", '_'), "");
    assert!(contains_str("R2B3_overload", "B3"));
    assert!(contains_str("abc", ""));
    assert!(!contains_str("ab", "abc"));
    assert!(!contains_str("abc", "ca"));
}

#[test]
fn text_order_and_equality() {
    assert!(str_less("R1A1", "R1B1"));
    assert!(str_less("R1", "R1A1"));
    assert!(!str_less("R1A1", "R1A1"));
    assert!(!str_less("b", "a"));
    assert!(same_text("Cell", "Cell"));
    assert!(!same_text("Cell", "Cells"));
    assert!(starts_with_text("KeyRed", "Key"));
    assert!(!starts_with_text("Ke", "Key"));
    assert!(!starts_with_text("BulkKey", "Key"));
}

#[test]
fn parse_signed_numbers() {
    assert_eq!(parse_i32("42"), Some(42));
    assert_eq!(parse_i32("-7"), Some(-7));
    assert_eq!(parse_i32("+5"), Some(5));
    assert_eq!(parse_i32("007"), Some(7));
    assert_eq!(parse_i32("2147483647"), Some(i32::MAX));
    assert_eq!(parse_i32("-2147483648"), Some(i32::MIN));
    assert_eq!(parse_i32("2147483648"), None);
    assert_eq!(parse_i32("99999999999999999999"), None);
    assert_eq!(parse_i32(""), None);
    assert_eq!(parse_i32("-"), None);
    assert_eq!(parse_i32("+"), None);
    assert_eq!(parse_i32("12a"), None);
    assert_eq!(parse_i32(" 1"), None);
    assert_eq!(parse_i32("+-1"), None);
    for s in ["0", "-0", "123", "-2147483647", "x", "1.5"] {
        assert_eq!(parse_i32(s), s.parse::<i32>().ok());
    }
}

#[test]
fn parse_unsigned_numbers() {
    assert_eq!(parse_usize("0"), Some(0));
    assert_eq!(parse_usize("+5"), Some(5));
    assert_eq!(parse_usize("999999"), Some(999999));
    assert_eq!(parse_usize("-5"), None);
    assert_eq!(parse_usize(""), None);
    assert_eq!(parse_usize("+"), None);
    assert_eq!(parse_usize("18446744073709551615"), Some(usize::MAX));
    assert_eq!(parse_usize("18446744073709551616"), None);
    for s in ["12", "00", "4x", "-0"] {
        assert_eq!(parse_usize(s), s.parse::<usize>().ok());
    }
}

#[test]
fn level_run_time_is_sum_of_splits() {
    let r = run("R1A1", true, &[("door", 1000), ("WIN", 2500), ("door", 300)]);
    assert_eq!(r.get_time().get_stamp(), 3800);
    assert_eq!(r.len(), 3);
    assert!(r.is_win());
    assert_eq!(r.get_name(), "R1A1");
    // the first split of a name counts
    assert_eq!(r.get_time_for_split(&"door".to_string()).map(|t| t.get_stamp()), Some(1000));
    assert_eq!(r.get_time_for_split(&"none".to_string()).map(|t| t.get_stamp()), None);
    assert_eq!(r.get_split_by_name(&"WIN".to_string()).map(|s| s.time.get_stamp()), Some(2500));
    assert_eq!(find_split_named(r.get_splits(), &"door".to_string()), Some(0));
}

#[test]
fn level_run_setters_and_clone() {
    let mut r = run("R2B1", false, &[("a", 10)]);
    let o = RunObjective::from_name("R2B1".to_string()).with_secondary(true).with_player_count(3);
    r.set_objective(o);
    assert!(r.get_objective().secondary);
    assert_eq!(r.get_objective().get_player_count(), 3);
    assert_eq!(r.get_time().get_stamp(), 10);
    let c = r.clone();
    assert_eq!(c.get_time().get_stamp(), 10);
    assert_eq!(c.get_objective().level_name, "R2B1");
    assert_eq!(c.len(), 1);
}

#[test]
fn objective_builders() {
    let o = RunObjective::from_name("R1C1".to_string());
    assert_eq!(o.player_count, 0);
    assert!(!o.secondary && !o.overload && !o.glitched && !o.early_drop);
    let o = o.with_overload(true).with_glitched(true).with_early_drop(true);
    assert!(o.overload && o.glitched && o.early_drop && !o.secondary);
}

#[test]
fn channel_numbers() {
    assert_eq!(Code::Tokenizer.number(), 1);
    assert_eq!(Code::SeedIndexer.number(), 4);
    assert_eq!(Code::from_number(2), Some(Code::RunInfo));
    assert_eq!(Code::from_number(3), Some(Code::Mapper));
    assert_eq!(Code::from_number(0), None);
    assert_eq!(Code::from_number(5), None);
    for n in 1..=4u8 {
        assert_eq!(Code::from_number(n).unwrap().number(), n);
    }
}

#[test]
fn resource_names() {
    assert_eq!(ResourceType::Healthpack.name(), "Healthpack");
    assert_eq!(ResourceType::ToolRefillpack.name(), "ToolRefillpack");
    assert_eq!(ResourceType::default(), ResourceType::Healthpack);
}

#[test]
fn timed_run_becomes_level_run() {
    let t = TimedRun {
        name: "R3A1".to_string(),
        total_time: Time::from_stamp(0),
        player_count: 4,
        used_checkpoint: false,
        is_win: true,
        did_secondary: true,
        did_overload: false,
        splits: vec![split("a", 100), split("WIN", 200)],
    };
    let r = t.into_level_run();
    assert_eq!(r.get_time().get_stamp(), 300);
    assert!(r.is_win());
    assert_eq!(r.get_objective().player_count, 4);
    assert!(r.get_objective().secondary);
    assert!(!r.get_objective().overload);
    assert_eq!(r.len(), 2);
}

#[test]
fn reader_overrides_flags_only() {
    let reader = LevelObjectiveReader {
        objective: RunObjective::from_name(String::new()).with_secondary(true).with_early_drop(true),
    };
    let o = RunObjective::from_name("R4A2".to_string()).with_overload(true).with_player_count(2);
    let r = reader.override_obj(o);
    assert_eq!(r.level_name, "R4A2");
    assert_eq!(r.player_count, 2);
    assert!(r.secondary && r.early_drop && !r.overload && !r.glitched);
    // rewriting twice is rewriting once
    let r2 = reader.override_obj(r.clone());
    assert_eq!(r2.level_name, r.level_name);
    assert_eq!((r2.secondary, r2.overload, r2.glitched, r2.early_drop), (r.secondary, r.overload, r.glitched, r.early_drop));
    let none: Option<LevelObjectiveReader> = None;
    assert!(none.override_obj(RunObjective::from_name("x".to_string()).with_overload(true)).overload);
}

#[test]
fn level_run_takes_reader_choices() {
    let mut r = run("R5A1", true, &[("WIN", 50)]);
    let reader = LevelObjectiveReader { objective: RunObjective::from_name(String::new()).with_glitched(true) };
    r.override_obj(&reader);
    assert!(r.get_objective().glitched);
    assert_eq!(r.get_objective().level_name, "R5A1");
    assert_eq!(r.get_time().get_stamp(), 50);
    assert!(r.is_win());
}
