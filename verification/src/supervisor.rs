//! The supervisor's decisions: what the process does when it starts, the
//! task that reloads the script, the task list of a generation, and what
//! each tick of a generation does.

use std::sync::atomic::{AtomicBool, Ordering};
use std::sync::Arc;
use vstd::prelude::*;
use vstd::string::StringExecFns;

use crate::lua_task::ScriptError;
use crate::task::{Runnable, RunningTask, Task};

verus! {

/// The script that is watched where none is named.
pub const DEFAULT_WATCHER_FILE: &'static str = "watcher.lua";

/// The time between two ticks of a generation, in milliseconds.
pub const TICK_MS: u64 = 50;

/// The time over which the watcher gathers the changes to one path, in milliseconds.
pub const WATCHER_DEBOUNCE_MS: u64 = 50;

/// What the process was started to do.
#[derive(Clone, Debug, PartialEq, Eq)]
pub enum Startup {
    /// Replace the program by its latest release, and exit.
    Update,
    /// Watch the working directory with the tasks of this script.
    Watch(String),
}

/// The script that a command line names, or the default.
pub open spec fn script_of(file: Option<String>) -> Seq<char> {
    match file {
        Some(f) => f@,
        None => DEFAULT_WATCHER_FILE@,
    }
}

/// Reads the command line: whether an update was asked for, and the script
/// that was named. The update comes first; without a named script the
/// default is watched.
pub fn startup(update: bool, file: Option<String>) -> (r: Startup)
    ensures
        update ==> r is Update,
        !update ==> (r matches Startup::Watch(script) && script@ == script_of(file)),
{
    if update {
        Startup::Update
    } else {
        match file {
            Some(f) => Startup::Watch(f),
            None => Startup::Watch(String::from_str(DEFAULT_WATCHER_FILE)),
        }
    }
}

/// What is said when a generation begins.
pub const WATCHING: &'static str = "Watching file system with tasks from ";

/// `pathdiff::diff_paths`: `path` as seen from the directory `base`, as a
/// string, and `None` where there is no such relative path. How paths fall
/// into components is the platform's affair, so nothing is claimed of the
/// result.
#[verifier::external_body]
fn diff_paths(path: &str, base: &str) -> Option<String> {
    pathdiff::diff_paths(path, base).map(|d| d.to_string_lossy().into_owned())
}

/// The script's path as it is shown: relative to the working directory
/// where it can be written so, and whole otherwise.
pub fn shown_path(relative: Option<String>, watcher_file: &str) -> (shown: String)
    ensures
        shown@ == match relative {
            Some(path) => path@,
            None => watcher_file@,
        },
{
    match relative {
        Some(path) => path,
        None => String::from_str(watcher_file),
    }
}

/// Whether `relative` is what the script's path comes to when it is
/// written as seen from `current_dir`: a relative path, or none.
pub closed spec fn relative_path(
    watcher_file: &str,
    current_dir: &str,
    relative: Option<String>,
) -> bool {
    call_ensures(diff_paths, (watcher_file, current_dir), relative)
}

/// The line that opens a generation: the opening words, and after them
/// the script's path, written relative to `current_dir` where that can
/// be done and whole where it cannot.
pub fn watching_message(watcher_file: &str, current_dir: &str) -> (message: String)
    ensures
        exists|relative: Option<String>| #[trigger]
            relative_path(watcher_file, current_dir, relative) && message@ == WATCHING@ + (
            match relative {
                Some(path) => path@,
                None => watcher_file@,
            }),
{
    let relative = diff_paths(watcher_file, current_dir);
    assert(relative_path(watcher_file, current_dir, relative));
    let shown = shown_path(relative, watcher_file);
    let mut message = String::from_str(WATCHING);
    message.append(shown.as_str());
    message
}

/// How the process ends.
#[derive(Clone, Copy, Debug, PartialEq, Eq, Structural)]
pub enum Exit {
    /// The user interrupted the watch.
    Interrupted,
    /// Another process holds the lock of the same script.
    AlreadyRunning,
}

/// Zero after an interrupt, one where the lock was held elsewhere.
pub open spec fn exit_code_of(exit: Exit) -> i32 {
    match exit {
        Exit::Interrupted => 0,
        Exit::AlreadyRunning => 1,
    }
}

/// The exit code of the process.
pub fn exit_code(exit: Exit) -> (code: i32)
    ensures
        code == exit_code_of(exit),
{
    match exit {
        Exit::Interrupted => 0,
        Exit::AlreadyRunning => 1,
    }
}

/// What one tick of a generation does.
#[derive(Clone, Copy, Debug, PartialEq, Eq, Structural)]
pub enum Tick {
    /// Leave the supervisor altogether.
    Exit,
    /// End the generation and begin the next with the script read anew.
    Reload,
    /// End the generation because the script has failed in one of its
    /// functions, and begin the next as after a script that could not be
    /// read: with the reload task alone.
    Unwind,
    /// Make one dispatch pass.
    Spin,
}

/// An interrupt ends the supervisor; failing that, a reload ends the
/// generation; failing that, a failure of the script unwinds it; failing
/// all three, the engine makes a pass.
pub open spec fn tick_of(saw_interrupt: bool, should_reload: bool, script_failed: bool) -> Tick {
    if saw_interrupt {
        Tick::Exit
    } else if should_reload {
        Tick::Reload
    } else if script_failed {
        Tick::Unwind
    } else {
        Tick::Spin
    }
}

/// Decides a tick from the three flags. An interrupt wins over a reload,
/// and a reload over a failure of the script.
pub fn tick(saw_interrupt: bool, should_reload: bool, script_failed: bool) -> (r: Tick)
    ensures
        r == tick_of(saw_interrupt, should_reload, script_failed),
{
    if saw_interrupt {
        Tick::Exit
    } else if should_reload {
        Tick::Reload
    } else if script_failed {
        Tick::Unwind
    } else {
        Tick::Spin
    }
}

/// Whether `true` has been stored in `flag`, in sequentially consistent
/// order, by a store that has returned.
pub closed spec fn raised(flag: Arc<AtomicBool>) -> bool {
    call_ensures(AtomicBool::store, (&*flag, true, Ordering::SeqCst), ())
}

/// The task that asks for the script to be read anew when the script itself changes.
pub struct ReloadWatcherFile {
    pub file_name: String,
    pub should_reload: Arc<AtomicBool>,
}

/// The run of a `ReloadWatcherFile`: over as soon as it has begun.
pub struct RunningReloadWatcherFile;

impl RunningTask for RunningReloadWatcherFile {
    fn done(&mut self) -> (finished: bool)
        ensures
            finished,
    {
        true
    }

    fn wait(self) {
    }

    fn interrupt(self) {
    }
}

impl Runnable for ReloadWatcherFile {
    type Running = RunningReloadWatcherFile;

    /// Raises the flag that ends the generation. The run that is handed
    /// back has nothing left to do.
    fn run(&self) -> (r: Option<RunningReloadWatcherFile>)
        ensures
            r == Some(RunningReloadWatcherFile {  }),
            raised(self.should_reload),
    {
        self.should_reload.store(true, Ordering::SeqCst);
        Some(RunningReloadWatcherFile {  })
    }
}

impl Task for ReloadWatcherFile {
    fn should_run(&self, path: &str) -> (r: bool)
        ensures
            r == (path@ == self.file_name@),
    {
        *path == *self.file_name.as_str()
    }

    fn start_delay(&self) -> (delay: i64)
        ensures
            delay == 0,
    {
        0
    }
}

/// A task of a generation: the reload task, or one that the script defines.
pub enum Supervised<S> {
    Reload(ReloadWatcherFile),
    Script(S),
}

/// A run of a `Supervised` task.
pub enum SupervisedRun<R> {
    Reload(RunningReloadWatcherFile),
    Script(R),
}

impl<R: RunningTask> RunningTask for SupervisedRun<R> {
    /// Polls the run that is held. A reload is done as soon as it has
    /// begun. A script's run is asked itself: the answer is its own, and
    /// it is left as its own `done` leaves it.
    fn done(&mut self) -> (finished: bool)
        ensures
            *old(self) is Reload ==> finished && *final(self) == *old(self),
            *old(self) matches SupervisedRun::Script(run) ==> exists|polled: &mut R|
                *polled == run && *final(self) == SupervisedRun::<R>::Script(*final(polled))
                    && #[trigger] call_ensures(R::done, (polled,), finished),
    {
        match self {
            SupervisedRun::Reload(run) => run.done(),
            SupervisedRun::Script(run) => run.done(),
        }
    }

    /// Waits for the run that is held: a script's run is handed to its own `wait`.
    fn wait(self)
        ensures
            self matches SupervisedRun::Script(run) ==> call_ensures(R::wait, (run,), ()),
    {
        match self {
            SupervisedRun::Reload(run) => run.wait(),
            SupervisedRun::Script(run) => run.wait(),
        }
    }

    /// Interrupts the run that is held: a script's run is handed to its
    /// own `interrupt`.
    fn interrupt(self)
        ensures
            self matches SupervisedRun::Script(run) ==> call_ensures(R::interrupt, (run,), ()),
    {
        match self {
            SupervisedRun::Reload(run) => run.interrupt(),
            SupervisedRun::Script(run) => run.interrupt(),
        }
    }
}

impl<S: Task> Runnable for Supervised<S> {
    type Running = SupervisedRun<S::Running>;

    /// Starts the task that is held. A reload always starts, and raises
    /// its flag. A script's task is asked itself: what is handed back is
    /// what its own `run` gave, a run or none.
    fn run(&self) -> (r: Option<SupervisedRun<S::Running>>)
        ensures
            self is Reload ==> r == Some(
                SupervisedRun::<S::Running>::Reload(RunningReloadWatcherFile {  }),
            ),
            self matches Supervised::Reload(task) ==> raised(task.should_reload),
            self matches Supervised::Script(task) ==> match r {
                Some(SupervisedRun::Script(run)) => call_ensures(S::run, (&task,), Some(run)),
                Some(SupervisedRun::Reload(_)) => false,
                None => call_ensures(S::run, (&task,), None::<S::Running>),
            },
    {
        match self {
            Supervised::Reload(task) => match task.run() {
                Some(run) => Some(SupervisedRun::Reload(run)),
                None => None,
            },
            Supervised::Script(task) => match task.run() {
                Some(run) => Some(SupervisedRun::Script(run)),
                None => None,
            },
        }
    }
}

impl<S: Task> Task for Supervised<S> {
    /// Whether a change to `path` asks for the task that is held: for the
    /// reload where the path is the script's, and for a script's task
    /// what the task itself says.
    fn should_run(&self, path: &str) -> (r: bool)
        ensures
            self matches Supervised::Reload(task) ==> r == (path@ == task.file_name@),
            self matches Supervised::Script(task) ==> call_ensures(
                S::should_run,
                (&task, path),
                r,
            ),
    {
        match self {
            Supervised::Reload(task) => task.should_run(path),
            Supervised::Script(task) => task.should_run(path),
        }
    }

    /// The delay of the task that is held: none for the reload, and for
    /// a script's task what the task itself gives.
    fn start_delay(&self) -> (delay: i64)
        ensures
            self is Reload ==> delay == 0,
            self matches Supervised::Script(task) ==> call_ensures(
                S::start_delay,
                (&task,),
                delay,
            ),
    {
        match self {
            Supervised::Reload(task) => task.start_delay(),
            Supervised::Script(task) => task.start_delay(),
        }
    }
}

/// The task list of a generation: the reload task first, then the tasks
/// of the script in their order.
pub open spec fn task_list_of<S>(reload: ReloadWatcherFile, scripted: Seq<S>) -> Seq<Supervised<S>> {
    seq![Supervised::Reload(reload)] + scripted.map_values(|task: S| Supervised::Script(task))
}

/// Builds the task list of a generation.
pub fn task_list<S: Task>(reload: ReloadWatcherFile, scripted: Vec<S>) -> (tasks: Vec<Supervised<S>>)
    ensures
        tasks@ == task_list_of(reload, scripted@),
{
    let mut tasks: Vec<Supervised<S>> = Vec::new();
    tasks.push(Supervised::Reload(reload));
    let ghost all = scripted@;
    assert(tasks@ == task_list_of(reload, all.take(0)));
    for task in it: scripted
        invariant
            it.seq() == all,
            tasks@ == task_list_of(reload, all.take(it.index())),
    {
        let ghost done = all.take(it.index());
        tasks.push(Supervised::Script(task));
        assert(all.take(it.index() + 1) == done.push(task));
        assert(task_list_of(reload, done.push(task)) == task_list_of(reload, done).push(
            Supervised::Script(task),
        ));
    }
    assert(all.take(all.len() as int) == all);
    tasks
}

/// The task list of a generation, from what came of reading the script.
/// A script that failed is fatal to its generation only: the fault is
/// handed back to be reported, and the reload task stands alone on the
/// list, so that the next edit of the script begins a new generation.
pub fn generation<S: Task>(reload: ReloadWatcherFile, loaded: Result<Vec<S>, ScriptError>) -> (r: (
    Vec<Supervised<S>>,
    Option<ScriptError>,
))
    ensures
        match loaded {
            Ok(scripted) => r.0@ == task_list_of(reload, scripted@) && r.1 is None,
            Err(fault) => r.0@ == task_list_of(reload, Seq::<S>::empty()) && r.1 == Some(fault),
        },
{
    match loaded {
        Ok(scripted) => (task_list(reload, scripted), None),
        Err(fault) => (task_list(reload, Vec::new()), Some(fault)),
    }
}

} // verus!
