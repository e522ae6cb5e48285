//! Run bookkeeping for GTFO speedruns: run and split times, statistics over
//! many runs, sorting of run lists, the live splitter and its comparisons,
//! the key and objective mapper, the seed indexer with its foresight views,
//! code and key guessing, the settings store and the screens of the
//! application.
use vstd::prelude::*;

pub mod text;
pub mod time;
pub mod run;
pub mod exported;
pub mod stats;
pub mod code_guess;
pub mod mapper_view;
pub mod foresight;
pub mod objective;
pub mod mapper;
pub mod run_render;
pub mod sorter;
pub mod seed_indexer;
pub mod run_list;
pub mod settings;
pub mod key_guess;
pub mod live;
pub mod screens;
pub mod run_buffer;

verus! {

} // verus!
