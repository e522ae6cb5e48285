//! Which screen the application shows, and how the buttons of its top bar
//! move between screens.
use vstd::prelude::*;

use crate::settings::{bool_or, SettingsWindow};

verus! {

/// The screens of the application.
#[derive(Clone, Copy, Debug, PartialEq, Eq, Structural)]
pub enum Screen {
    /// The start screen.
    Home,
    Settings,
    /// Waiting for log files to be read, for the log parser.
    AwaitParseLog,
    /// Waiting for log files to be read, for the statistics.
    AwaitParseStat,
    LogParser,
    ManagingRuns,
    Stats,
    /// The live splitter.
    Live,
}

/// The buttons of the top bar.
#[derive(Clone, Copy, Debug, PartialEq, Eq, Structural)]
pub enum TopButton {
    StopSplitter,
    SaveSettings,
    LiveSplitter,
    /// Reading speedrun logs; `true` if files were picked.
    InputLogs(bool),
    /// Reading logs for statistics; `true` if files were picked.
    GrabStats(bool),
    CheckSavedRuns,
    OpenSettings,
}

/// The screen after `button` was pressed on `screen`, or nothing if the
/// button is not on that screen's top bar or changes nothing. The live
/// splitter's bar has only its stop button, the settings' bar only its save
/// button; every other screen has the other buttons.
pub open spec fn next_screen_spec(screen: Screen, button: TopButton) -> Option<Screen> {
    match screen {
        Screen::Live => match button {
            TopButton::StopSplitter => Some(Screen::Home),
            _ => None,
        },
        Screen::Settings => match button {
            TopButton::SaveSettings => Some(Screen::Home),
            _ => None,
        },
        _ => match button {
            TopButton::LiveSplitter => Some(Screen::Live),
            TopButton::InputLogs(picked) => if picked {
                Some(Screen::AwaitParseLog)
            } else {
                None
            },
            TopButton::GrabStats(picked) => if picked {
                Some(Screen::AwaitParseStat)
            } else {
                None
            },
            TopButton::CheckSavedRuns => Some(Screen::ManagingRuns),
            TopButton::OpenSettings => Some(Screen::Settings),
            _ => None,
        },
    }
}

/// The screen after `button` was pressed on `screen`, if it changes.
pub fn next_screen(screen: Screen, button: TopButton) -> (r: Option<Screen>)
    ensures
        r == next_screen_spec(screen, button),
{
    match screen {
        Screen::Live => match button {
            TopButton::StopSplitter => Some(Screen::Home),
            _ => None,
        },
        Screen::Settings => match button {
            TopButton::SaveSettings => Some(Screen::Home),
            _ => None,
        },
        _ => match button {
            TopButton::LiveSplitter => Some(Screen::Live),
            TopButton::InputLogs(picked) => if picked {
                Some(Screen::AwaitParseLog)
            } else {
                None
            },
            TopButton::GrabStats(picked) => if picked {
                Some(Screen::AwaitParseStat)
            } else {
                None
            },
            TopButton::CheckSavedRuns => Some(Screen::ManagingRuns),
            TopButton::OpenSettings => Some(Screen::Settings),
            _ => None,
        },
    }
}

/// The screen that follows a finished reading of logs.
pub fn after_parse(screen: Screen) -> (r: Option<Screen>)
    ensures
        r == match screen {
            Screen::AwaitParseLog => Some(Screen::LogParser),
            Screen::AwaitParseStat => Some(Screen::Stats),
            _ => None::<Screen>,
        },
{
    match screen {
        Screen::AwaitParseLog => Some(Screen::LogParser),
        Screen::AwaitParseStat => Some(Screen::Stats),
        _ => None,
    }
}

/// The screen after one frame on `screen`, where `parse_done` says whether
/// the reading of logs it waits for (if any) has finished this frame: a
/// screen waiting for logs moves to the window that shows them once the
/// reading is done; any other screen, or a reading not yet done, stays.
pub fn after_frame(screen: Screen, parse_done: bool) -> (r: Screen)
    ensures
        r == if parse_done {
            match screen {
                Screen::AwaitParseLog => Screen::LogParser,
                Screen::AwaitParseStat => Screen::Stats,
                _ => screen,
            }
        } else {
            screen
        },
{
    if parse_done {
        match after_parse(screen) {
            Some(s) => s,
            None => screen,
        }
    } else {
        screen
    }
}

/// A screen waiting for logs stays as it is over any number of frames in
/// which the reading is not done, and moves to its window in the frame
/// the reading is done: `screens[i]` is the screen after `i` frames and
/// `done[i]` whether the reading was done in frame `i`.
pub proof fn lemma_await_until_done(screens: Seq<Screen>, done: Seq<bool>)
    requires
        screens.len() == done.len() + 1,
        screens[0] == Screen::AwaitParseLog || screens[0] == Screen::AwaitParseStat,
        forall|i: int| 0 <= i < done.len() ==> !#[trigger] done[i],
        forall|i: int|
            0 <= i < done.len() ==> #[trigger] screens[i + 1] == if done[i] {
                match screens[i] {
                    Screen::AwaitParseLog => Screen::LogParser,
                    Screen::AwaitParseStat => Screen::Stats,
                    _ => screens[i],
                }
            } else {
                screens[i]
            },
    ensures
        forall|i: int| 0 <= i < screens.len() ==> #[trigger] screens[i] == screens[0],
    decreases done.len(),
{
    if done.len() > 0 {
        let s0 = screens.drop_last();
        let d0 = done.drop_last();
        assert forall|i: int| 0 <= i < d0.len() implies !#[trigger] d0[i] by {
            assert(d0[i] == done[i]);
        }
        assert forall|i: int| 0 <= i < d0.len() implies #[trigger] s0[i + 1] == if d0[i] {
            match s0[i] {
                Screen::AwaitParseLog => Screen::LogParser,
                Screen::AwaitParseStat => Screen::Stats,
                _ => s0[i],
            }
        } else {
            s0[i]
        } by {
            assert(d0[i] == done[i] && s0[i] == screens[i] && s0[i + 1] == screens[i + 1]);
        }
        lemma_await_until_done(s0, d0);
        assert forall|i: int| 0 <= i < screens.len() implies #[trigger] screens[i] == screens[0] by {
            if i < s0.len() {
                assert(screens[i] == s0[i]);
            } else {
                assert(!done[i - 1]);
                assert(screens[i - 1] == s0[i - 1]);
            }
        }
    }
}

/// Whether the live window must be resized to `size`: when no size was set
/// or another one was.
pub fn needs_resize(current: Option<usize>, size: usize) -> (b: bool)
    ensures
        b == match current {
            Some(v) => v != size,
            None => true,
        },
{
    match current {
        Some(v) => v != size,
        None => true,
    }
}

/// From the live splitter and from the settings there is one way out, and
/// it leads to the start screen.
pub proof fn lemma_single_exit(screen: Screen, button: TopButton)
    requires
        screen == Screen::Live || screen == Screen::Settings,
    ensures
        next_screen_spec(screen, button) matches Some(s) ==> s == Screen::Home,
{
}

/// Which panels the live splitter shows.
#[derive(Clone, Copy, Debug, PartialEq, Eq, Structural)]
pub struct LivePanels {
    pub real_timer: bool,
    pub run_counter: bool,
    pub mapper: bool,
    pub seed_indexer: bool,
    pub code_guess: bool,
    pub run_splitter: bool,
    /// The choice of optional parts, which the mapper and the run splitter
    /// follow.
    pub objective_reader: bool,
}

/// The panels of the live splitter: each one whose setting is on (a
/// missing setting counts as off), and the choice of optional parts where
/// the mapper or the run splitter is shown.
pub fn live_panels(settings: &SettingsWindow) -> (p: LivePanels)
    ensures
        p.real_timer == bool_or(*settings, "show_real_timer"@, false),
        p.run_counter == bool_or(*settings, "show_run_counter"@, false),
        p.mapper == bool_or(*settings, "show_mapper"@, false),
        p.seed_indexer == bool_or(*settings, "show_foresight"@, false),
        p.code_guess == bool_or(*settings, "show_code_guess"@, false),
        p.run_splitter == bool_or(*settings, "show_run_splitter"@, false),
        p.objective_reader == (p.mapper || p.run_splitter),
{
    let mapper = settings.get_def::<bool>("show_mapper");
    let run_splitter = settings.get_def::<bool>("show_run_splitter");
    LivePanels {
        real_timer: settings.get_def::<bool>("show_real_timer"),
        run_counter: settings.get_def::<bool>("show_run_counter"),
        mapper,
        seed_indexer: settings.get_def::<bool>("show_foresight"),
        code_guess: settings.get_def::<bool>("show_code_guess"),
        run_splitter,
        objective_reader: mapper || run_splitter,
    }
}

} // verus!
