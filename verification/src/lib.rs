//! Core of a file-watcher task runner: a dispatch engine that debounces
//! change events per task and preempts runs that have gone stale, a task
//! runtime that walks a pipeline of shell commands, and the rules by which
//! a script's task table is read.

pub mod clock;
pub mod dispatch;
pub mod history;
pub mod lockfile;
pub mod lua_task;
pub mod output;
pub mod progress;
pub mod supervisor;
pub mod task;
pub mod text;

pub use crate::dispatch::ShellGrunt2;
pub use crate::task::Task;
