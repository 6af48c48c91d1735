//! Verified building blocks for small systems programs: the core of a
//! breakpoint debugger for a traced child process, together with a few
//! self-contained data structures and algorithms.

pub mod backtrace;
pub mod balancer;
pub mod breakpoints;
mod chance;
pub mod command;
pub mod control;
pub mod debugger;
pub mod farm;
pub mod hangman;
pub mod inferior;
pub mod linked_list;
pub mod parallel_map;
pub mod process;
pub mod scripted;
pub mod status;
pub mod symbols;
pub mod text;
pub mod warmup;
pub mod word;
