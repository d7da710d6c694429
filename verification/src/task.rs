//! Tasks and the runtime that walks a task's pipeline of shell commands.
//!
//! The runtime is a state machine. It never touches a process itself: each
//! transition hands back the directives that the host carries out, in order,
//! and the host reports back when the child it started has exited.

use std::collections::HashMap;
use vstd::prelude::*;

use crate::text::{split_whitespace, texts, words};

verus! {

/// A run in flight.
pub trait RunningTask {
    /// Polls the run without blocking; true once nothing is left to do.
    fn done(&mut self) -> bool;

    /// Blocks until the run is done.
    fn wait(self);

    /// Ends the run at once and abandons what it had left to do.
    fn interrupt(self);
}

/// Something that can be started.
pub trait Runnable {
    type Running: RunningTask;

    /// Starts a run and returns without blocking; `None` where the run could
    /// not be started.
    fn run(&self) -> Option<Self::Running>;
}

/// A unit of work that change events can request.
pub trait Task: Runnable {
    /// Whether a change to `path` asks for the task.
    fn should_run(&self, path: &str) -> bool;

    /// How long the task waits after its latest request, in milliseconds.
    fn start_delay(&self) -> i64;
}

/// One command of a pipeline.
#[derive(Clone, Debug, PartialEq, Eq)]
pub struct ShellCommand {
    pub name: String,
    pub command: String,
    pub work_directory: Option<String>,
}

/// A command as contracts speak of it.
pub struct ShellCommandView {
    pub name: Seq<char>,
    pub command: Seq<char>,
    pub work_directory: Option<Seq<char>>,
}

/// The view of an optional string.
pub open spec fn opt_text(o: Option<String>) -> Option<Seq<char>> {
    match o {
        Some(s) => Some(s@),
        None => None,
    }
}

impl View for ShellCommand {
    type V = ShellCommandView;

    open spec fn view(&self) -> ShellCommandView {
        ShellCommandView {
            name: self.name@,
            command: self.command@,
            work_directory: opt_text(self.work_directory),
        }
    }
}

/// The views of a sequence of commands.
pub open spec fn command_views(v: Seq<ShellCommand>) -> Seq<ShellCommandView> {
    v.map_values(|c: ShellCommand| c@)
}

/// Why a pipeline cannot be described.
#[derive(Clone, Debug, PartialEq, Eq)]
pub enum PipelineError {
    /// The task has no list of commands.
    MissingCommands,
    /// The command at this position has no name.
    MissingName(usize),
    /// The command at this position has no command line.
    MissingCommand(usize),
}

/// A task whose body is a pipeline of shell commands.
pub trait ShellTask: Task {
    /// The commands, run in order until one fails.
    fn commands(&self) -> Result<Vec<ShellCommand>, PipelineError>;

    /// Variables laid over the parent's environment for each command.
    fn environment(&self) -> Option<HashMap<String, String>>;

    fn redirect_stdout(&self) -> Option<String>;

    fn redirect_stderr(&self) -> Option<String>;

    fn supress_stdout(&self) -> bool;

    fn supress_stderr(&self) -> bool;
}

/// How a redirect file is opened.
#[derive(Clone, Copy, Debug, PartialEq, Eq, Structural)]
pub enum OpenMode {
    /// Created if missing and emptied.
    Truncate,
    /// Written at its end.
    Append,
}

/// Where one output stream of a child goes.
#[derive(Clone, Debug, PartialEq, Eq)]
pub struct Sink {
    /// Whether each line is also written to the console.
    pub echo: bool,
    /// The file that receives each line, stripped of control sequences.
    pub redirect: Option<String>,
    pub mode: OpenMode,
}

/// A sink as contracts speak of it.
pub struct SinkView {
    pub echo: bool,
    pub redirect: Option<Seq<char>>,
    pub mode: OpenMode,
}

impl View for Sink {
    type V = SinkView;

    open spec fn view(&self) -> SinkView {
        SinkView { echo: self.echo, redirect: opt_text(self.redirect), mode: self.mode }
    }
}

/// The variables of an optional environment overlay.
pub open spec fn env_view(e: Option<HashMap<String, String>>) -> Option<Map<String, String>> {
    match e {
        Some(m) => Some(m@),
        None => None,
    }
}

/// All that the host needs to start one child.
#[derive(Clone, Debug, PartialEq, Eq)]
pub struct Launch {
    pub name: String,
    pub program: String,
    pub args: Vec<String>,
    pub work_directory: Option<String>,
    pub environment: Option<HashMap<String, String>>,
    pub stdout: Sink,
    pub stderr: Sink,
}

/// A launch as contracts speak of it.
pub struct LaunchView {
    pub name: Seq<char>,
    pub program: Seq<char>,
    pub args: Seq<Seq<char>>,
    pub work_directory: Option<Seq<char>>,
    pub environment: Option<Map<String, String>>,
    pub stdout: SinkView,
    pub stderr: SinkView,
}

impl View for Launch {
    type V = LaunchView;

    open spec fn view(&self) -> LaunchView {
        LaunchView {
            name: self.name@,
            program: self.program@,
            args: texts(self.args@),
            work_directory: opt_text(self.work_directory),
            environment: env_view(self.environment),
            stdout: self.stdout@,
            stderr: self.stderr@,
        }
    }
}

/// One thing for the host to do.
#[derive(Clone, Debug, PartialEq, Eq)]
pub enum Directive {
    /// Clear the console.
    ClearScreen,
    /// Report that the command of this name starts.
    Starting(String),
    /// Start this child. If it cannot be started, report it as exited without success.
    Launch(Launch),
    /// Report that the command has finished.
    Finished { name: String, duration_ns: u64, success: bool },
    /// Kill the running child.
    Kill,
}

/// A directive as contracts speak of it.
pub enum DirectiveView {
    ClearScreen,
    Starting(Seq<char>),
    Launch(LaunchView),
    Finished { name: Seq<char>, duration_ns: u64, success: bool },
    Kill,
}

impl View for Directive {
    type V = DirectiveView;

    open spec fn view(&self) -> DirectiveView {
        match *self {
            Directive::ClearScreen => DirectiveView::ClearScreen,
            Directive::Starting(name) => DirectiveView::Starting(name@),
            Directive::Launch(launch) => DirectiveView::Launch(launch@),
            Directive::Finished { name, duration_ns, success } => DirectiveView::Finished {
                name: name@,
                duration_ns,
                success,
            },
            Directive::Kill => DirectiveView::Kill,
        }
    }
}

/// The views of a sequence of directives.
pub open spec fn directive_views(v: Seq<Directive>) -> Seq<DirectiveView> {
    v.map_values(|d: Directive| d@)
}

/// The child that a pipeline waits for.
#[derive(Clone, Debug, PartialEq, Eq)]
pub struct RunningChildState {
    pub name: String,
    /// The clock reading, in nanoseconds, at which the child's launch was ordered.
    pub start_time: u64,
}

/// A running child as contracts speak of it.
pub struct RunningChildView {
    pub name: Seq<char>,
    pub start_time: u64,
}

impl View for RunningChildState {
    type V = RunningChildView;

    open spec fn view(&self) -> RunningChildView {
        RunningChildView { name: self.name@, start_time: self.start_time }
    }
}

/// The runtime's state for one run of a pipeline.
#[derive(Debug)]
pub struct RunningShellTask {
    commands: Vec<ShellCommand>,
    environment: Option<HashMap<String, String>>,
    echo_stdout: bool,
    redirect_stdout: Option<String>,
    echo_stderr: bool,
    redirect_stderr: Option<String>,
    running_child: Option<RunningChildState>,
}

/// A pipeline as contracts speak of it: what is left to run, where the
/// output goes, and the child that is awaited.
pub struct PipelineView {
    /// The commands not yet started, in order.
    pub commands: Seq<ShellCommandView>,
    pub environment: Option<Map<String, String>>,
    pub echo_stdout: bool,
    pub redirect_stdout: Option<Seq<char>>,
    pub echo_stderr: bool,
    pub redirect_stderr: Option<Seq<char>>,
    pub running_child: Option<RunningChildView>,
}

impl View for RunningShellTask {
    type V = PipelineView;

    closed spec fn view(&self) -> PipelineView {
        PipelineView {
            commands: command_views(self.commands@),
            environment: env_view(self.environment),
            echo_stdout: self.echo_stdout,
            redirect_stdout: opt_text(self.redirect_stdout),
            echo_stderr: self.echo_stderr,
            redirect_stderr: opt_text(self.redirect_stderr),
            running_child: match self.running_child {
                Some(child) => Some(child@),
                None => None,
            },
        }
    }
}

/// The first command of a pipeline empties its redirect files; the later ones add to them.
pub open spec fn open_mode(is_first: bool) -> OpenMode {
    if is_first {
        OpenMode::Truncate
    } else {
        OpenMode::Append
    }
}

/// The launch of command `c` of pipeline `p`: the command line split at
/// white space, its first word the program.
pub open spec fn launch_of(p: PipelineView, c: ShellCommandView, is_first: bool) -> LaunchView
    recommends
        words(c.command).len() > 0,
{
    LaunchView {
        name: c.name,
        program: words(c.command)[0],
        args: words(c.command).drop_first(),
        work_directory: c.work_directory,
        environment: p.environment,
        stdout: SinkView {
            echo: p.echo_stdout,
            redirect: p.redirect_stdout,
            mode: open_mode(is_first),
        },
        stderr: SinkView {
            echo: p.echo_stderr,
            redirect: p.redirect_stderr,
            mode: open_mode(is_first),
        },
    }
}

/// An idle pipeline moves on to its next command. With none left nothing
/// happens. A command line without a word cannot be started: it is reported as
/// failed and the pipeline halts. Otherwise the command's launch is ordered.
pub open spec fn next_command(p: PipelineView, is_first: bool, now: u64) -> (
    PipelineView,
    Seq<DirectiveView>,
) {
    if p.commands.len() == 0 {
        (p, Seq::empty())
    } else if words(p.commands[0].command).len() == 0 {
        (
            PipelineView { commands: Seq::empty(), running_child: None, ..p },
            seq![
                DirectiveView::Starting(p.commands[0].name),
                DirectiveView::Finished { name: p.commands[0].name, duration_ns: 0, success: false },
            ],
        )
    } else {
        (
            PipelineView {
                commands: p.commands.drop_first(),
                running_child: Some(
                    RunningChildView { name: p.commands[0].name, start_time: now },
                ),
                ..p
            },
            seq![
                DirectiveView::Starting(p.commands[0].name),
                DirectiveView::Launch(launch_of(p, p.commands[0], is_first)),
            ],
        )
    }
}

/// A fresh pipeline: the console is cleared once, then the first command is taken up.
pub open spec fn spawned(
    commands: Seq<ShellCommandView>,
    environment: Option<Map<String, String>>,
    echo_stdout: bool,
    redirect_stdout: Option<Seq<char>>,
    echo_stderr: bool,
    redirect_stderr: Option<Seq<char>>,
    now: u64,
) -> (PipelineView, Seq<DirectiveView>) {
    let fresh = PipelineView {
        commands,
        environment,
        echo_stdout,
        redirect_stdout,
        echo_stderr,
        redirect_stderr,
        running_child: None,
    };
    (next_command(fresh, true, now).0, seq![DirectiveView::ClearScreen] + next_command(fresh, true, now).1)
}

/// The time from `start` to `now`, zero where the clock has gone backwards.
pub open spec fn elapsed(start: u64, now: u64) -> u64 {
    if now >= start {
        (now - start) as u64
    } else {
        0
    }
}

/// The running child has exited. Its end is reported; after a success the
/// pipeline moves on, after a failure it halts and drops what was left.
pub open spec fn command_finished(p: PipelineView, success: bool, now: u64) -> (
    PipelineView,
    Seq<DirectiveView>,
) {
    match p.running_child {
        None => (p, Seq::empty()),
        Some(child) => {
            let report = DirectiveView::Finished {
                name: child.name,
                duration_ns: elapsed(child.start_time, now),
                success,
            };
            let idle = PipelineView { running_child: None, ..p };
            if success {
                (next_command(idle, false, now).0, seq![report] + next_command(idle, false, now).1)
            } else {
                (PipelineView { commands: Seq::empty(), ..idle }, seq![report])
            }
        },
    }
}

/// What is left to do when a run is interrupted: kill the child, if one runs.
pub open spec fn interrupted(p: PipelineView) -> Seq<DirectiveView> {
    if p.running_child is Some {
        seq![DirectiveView::Kill]
    } else {
        Seq::empty()
    }
}

/// Whether every launch among `directives` opens its redirect files in `mode`.
pub open spec fn launches_open_in(directives: Seq<DirectiveView>, mode: OpenMode) -> bool {
    forall|i: int|
        0 <= i < directives.len() ==> (#[trigger] directives[i] matches DirectiveView::Launch(
            launch,
        ) ==> launch.stdout.mode == mode && launch.stderr.mode == mode)
}

/// The number of times that `directives` clear the console.
pub open spec fn screen_clears(directives: Seq<DirectiveView>) -> nat
    decreases directives.len(),
{
    if directives.len() == 0 {
        0
    } else {
        screen_clears(directives.drop_last()) + if directives.last() is ClearScreen {
            1nat
        } else {
            0nat
        }
    }
}

/// A fresh pipeline clears the console exactly once, before anything
/// else, and its launch empties the redirect files. A child is awaited
/// exactly if a launch was ordered.
pub proof fn lemma_spawn(
    commands: Seq<ShellCommandView>,
    environment: Option<Map<String, String>>,
    echo_stdout: bool,
    redirect_stdout: Option<Seq<char>>,
    echo_stderr: bool,
    redirect_stderr: Option<Seq<char>>,
    now: u64,
)
    ensures
        ({
            let (pipeline, directives) = spawned(
                commands,
                environment,
                echo_stdout,
                redirect_stdout,
                echo_stderr,
                redirect_stderr,
                now,
            );
            &&& directives.len() > 0
            &&& directives[0] is ClearScreen
            &&& screen_clears(directives) == 1
            &&& launches_open_in(directives, OpenMode::Truncate)
            &&& (pipeline.running_child is Some) == (directives.last() is Launch)
        }),
{
    let fresh = PipelineView {
        commands,
        environment,
        echo_stdout,
        redirect_stdout,
        echo_stderr,
        redirect_stderr,
        running_child: None,
    };
    let next = next_command(fresh, true, now).1;
    let directives = seq![DirectiveView::ClearScreen] + next;
    lemma_next_command(fresh, true, now);
    lemma_screen_clears_add(seq![DirectiveView::ClearScreen], next);
    assert(screen_clears(seq![DirectiveView::ClearScreen]) == 1) by {
        reveal_with_fuel(screen_clears, 2);
        assert(seq![DirectiveView::ClearScreen].drop_last() == Seq::<DirectiveView>::empty());
    }
    assert forall|i: int| 0 <= i < directives.len() implies (
    #[trigger] directives[i] matches DirectiveView::Launch(launch) ==> launch.stdout.mode
        == OpenMode::Truncate && launch.stderr.mode == OpenMode::Truncate) by {
        if i > 0 {
            assert(directives[i] == next[i - 1]);
        }
    }
}

/// When a child exits the console is not cleared and a launch that
/// follows adds to the redirect files. After a failure nothing is left to
/// do. Commands are taken up in their order: what is left afterwards is
/// what was left before, less its first where a launch was ordered.
pub proof fn lemma_command_finished(p: PipelineView, success: bool, now: u64)
    ensures
        ({
            let (pipeline, directives) = command_finished(p, success, now);
            &&& screen_clears(directives) == 0
            &&& launches_open_in(directives, OpenMode::Append)
            &&& (p.running_child is Some) == (directives.len() > 0 && directives[0] is Finished)
            &&& p.running_child is Some && !success ==> pipeline.running_child is None
                && pipeline.commands.len() == 0 && directives.len() == 1
            &&& pipeline.running_child is Some ==> success && p.commands.len() > 0
                && pipeline.commands == p.commands.drop_first() && pipeline.running_child->0.name
                == p.commands[0].name && directives.last() is Launch
        }),
{
    match p.running_child {
        None => {},
        Some(child) => {
            let report = DirectiveView::Finished {
                name: child.name,
                duration_ns: elapsed(child.start_time, now),
                success,
            };
            let idle = PipelineView { running_child: None, ..p };
            assert(screen_clears(seq![report]) == 0) by {
                reveal_with_fuel(screen_clears, 2);
                assert(seq![report].drop_last() == Seq::<DirectiveView>::empty());
            }
            if success {
                let next = next_command(idle, false, now).1;
                let directives = seq![report] + next;
                lemma_next_command(idle, false, now);
                lemma_screen_clears_add(seq![report], next);
                assert forall|i: int| 0 <= i < directives.len() implies (
                #[trigger] directives[i] matches DirectiveView::Launch(launch)
                    ==> launch.stdout.mode == OpenMode::Append && launch.stderr.mode
                    == OpenMode::Append) by {
                    if i > 0 {
                        assert(directives[i] == next[i - 1]);
                    }
                }
            }
        },
    }
}

/// What holds of the directives by which a pipeline takes up its next command.
proof fn lemma_next_command(p: PipelineView, is_first: bool, now: u64)
    requires
        p.running_child is None,
    ensures
        screen_clears(next_command(p, is_first, now).1) == 0,
        launches_open_in(next_command(p, is_first, now).1, open_mode(is_first)),
        (next_command(p, is_first, now).0.running_child is Some) == (next_command(
            p,
            is_first,
            now,
        ).1.len() > 0 && next_command(p, is_first, now).1.last() is Launch),
{
    let directives = next_command(p, is_first, now).1;
    reveal_with_fuel(screen_clears, 3);
    if directives.len() > 0 {
        assert(directives.drop_last().drop_last() == Seq::<DirectiveView>::empty());
    }
}

/// The clears of a concatenation are those of its parts.
proof fn lemma_screen_clears_add(a: Seq<DirectiveView>, b: Seq<DirectiveView>)
    ensures
        screen_clears(a + b) == screen_clears(a) + screen_clears(b),
    decreases b.len(),
{
    if b.len() == 0 {
        assert(a + b == a);
    } else {
        assert((a + b).drop_last() == a + b.drop_last());
        lemma_screen_clears_add(a, b.drop_last());
    }
}

/// A copy of an optional string.
fn clone_opt_text(o: &Option<String>) -> (r: Option<String>)
    ensures
        opt_text(r) == opt_text(*o),
{
    match o {
        Some(s) => Some(s.clone()),
        None => None,
    }
}

/// A copy of an optional environment overlay.
fn clone_environment(e: &Option<HashMap<String, String>>) -> (r: Option<HashMap<String, String>>)
    ensures
        env_view(r) == env_view(*e),
{
    match e {
        Some(m) => Some(m.clone()),
        None => None,
    }
}

impl RunningShellTask {
    /// Starts a pipeline at clock reading `now`.
    pub fn spawn(
        commands: Vec<ShellCommand>,
        environment: Option<HashMap<String, String>>,
        echo_stdout: bool,
        redirect_stdout: Option<String>,
        echo_stderr: bool,
        redirect_stderr: Option<String>,
        now: u64,
    ) -> (r: (Self, Vec<Directive>))
        ensures
            (r.0@, directive_views(r.1@)) == spawned(
                command_views(commands@),
                env_view(environment),
                echo_stdout,
                opt_text(redirect_stdout),
                echo_stderr,
                opt_text(redirect_stderr),
                now,
            ),
    {
        let mut this = RunningShellTask {
            commands,
            environment,
            echo_stdout,
            redirect_stdout,
            echo_stderr,
            redirect_stderr,
            running_child: None,
        };
        let mut directives: Vec<Directive> = Vec::new();
        directives.push(Directive::ClearScreen);
        let ghost fresh = this@;
        let mut next = this.run_next_command(true, now);
        assert(directive_views(directives@) == seq![DirectiveView::ClearScreen]);
        proof {
            lemma_directive_views_add(directives@, next@);
        }
        directives.append(&mut next);
        (this, directives)
    }

    /// Whether nothing is left to do: no child runs, and no command waits for one to exit.
    pub fn done(&self) -> (finished: bool)
        ensures
            finished == (self@.running_child is None),
    {
        self.running_child.is_none()
    }

    /// Takes up the next command, if one is left.
    fn run_next_command(&mut self, is_first: bool, now: u64) -> (out: Vec<Directive>)
        requires
            old(self)@.running_child is None,
        ensures
            (final(self)@, directive_views(out@)) == next_command(old(self)@, is_first, now),
    {
        let mut out: Vec<Directive> = Vec::new();
        if self.commands.len() == 0 {
            assert(directive_views(out@) == Seq::<DirectiveView>::empty());
            return out;
        }
        let ghost before = self@;
        let command = self.commands.remove(0);
        assert(command@ == before.commands[0]);
        assert(command_views(self.commands@) == before.commands.drop_first());
        let mut argv = split_whitespace(command.command.as_str());
        out.push(Directive::Starting(command.name.clone()));
        if argv.len() == 0 {
            self.commands = Vec::new();
            assert(command_views(self.commands@) == Seq::<ShellCommandView>::empty());
            out.push(Directive::Finished { name: command.name, duration_ns: 0, success: false });
            assert(directive_views(out@) == next_command(before, is_first, now).1);
            return out;
        }
        let ghost all = texts(argv@);
        let program = argv.remove(0);
        assert(program@ == all[0]);
        assert(texts(argv@) == all.drop_first());
        let mode = if is_first {
            OpenMode::Truncate
        } else {
            OpenMode::Append
        };
        let launch = Launch {
            name: command.name.clone(),
            program,
            args: argv,
            work_directory: command.work_directory,
            environment: clone_environment(&self.environment),
            stdout: Sink {
                echo: self.echo_stdout,
                redirect: clone_opt_text(&self.redirect_stdout),
                mode,
            },
            stderr: Sink {
                echo: self.echo_stderr,
                redirect: clone_opt_text(&self.redirect_stderr),
                mode,
            },
        };
        assert(launch@ == launch_of(before, before.commands[0], is_first));
        out.push(Directive::Launch(launch));
        self.running_child = Some(RunningChildState { name: command.name, start_time: now });
        assert(directive_views(out@) == next_command(before, is_first, now).1);
        out
    }

    /// Takes note that the running child has exited, with or without
    /// success, at clock reading `now`. A child that could not be started
    /// counts as exited without success.
    pub fn current_command_finished(&mut self, success: bool, now: u64) -> (out: Vec<Directive>)
        ensures
            (final(self)@, directive_views(out@)) == command_finished(old(self)@, success, now),
    {
        let mut out: Vec<Directive> = Vec::new();
        let ghost before = self@;
        match self.running_child.take() {
            None => {
                assert(self@ == before);
                assert(directive_views(out@) == Seq::<DirectiveView>::empty());
                out
            },
            Some(child) => {
                let duration_ns = if now >= child.start_time {
                    now - child.start_time
                } else {
                    0
                };
                out.push(Directive::Finished { name: child.name, duration_ns, success });
                let ghost report = directive_views(out@);
                assert(report == seq![
                    DirectiveView::Finished {
                        name: before.running_child->0.name,
                        duration_ns: elapsed(before.running_child->0.start_time, now),
                        success,
                    },
                ]);
                if success {
                    let mut next = self.run_next_command(false, now);
                    proof {
                        lemma_directive_views_add(out@, next@);
                    }
                    out.append(&mut next);
                } else {
                    self.commands = Vec::new();
                    assert(command_views(self.commands@) == Seq::<ShellCommandView>::empty());
                }
                out
            },
        }
    }

    /// Ends the run: the directive to kill the child, if one runs. What was
    /// left of the pipeline is dropped with the run.
    pub fn interrupt(self) -> (out: Vec<Directive>)
        ensures
            directive_views(out@) == interrupted(self@),
    {
        let mut out: Vec<Directive> = Vec::new();
        if self.running_child.is_some() {
            out.push(Directive::Kill);
            assert(directive_views(out@) == seq![DirectiveView::Kill]);
        } else {
            assert(directive_views(out@) == Seq::<DirectiveView>::empty());
        }
        out
    }
}

/// Starts a run of a shell task at clock reading `now`: asks the task for
/// its pipeline and for where its output goes, and spawns the pipeline. A
/// stream is echoed unless the task suppresses it. Where the task cannot
/// describe its pipeline there is no run, and the fault is the task's.
/// Otherwise the run is the pipeline spawned of what the task says of
/// itself: the host is told to clear the console first, and a child is
/// awaited exactly where a launch was ordered last.
pub fn run<T: ShellTask>(task: &T, now: u64) -> (r: Result<
    (RunningShellTask, Vec<Directive>),
    PipelineError,
>)
    ensures
        r matches Err(fault) ==> call_ensures(
            T::commands,
            (task,),
            Err::<Vec<ShellCommand>, PipelineError>(fault),
        ),
        r matches Ok(started) ==> exists|
            commands: Vec<ShellCommand>,
            environment: Option<HashMap<String, String>>,
            suppress_stdout: bool,
            redirect_stdout: Option<String>,
            suppress_stderr: bool,
            redirect_stderr: Option<String>,
        |
            #[trigger] task_says(
                task,
                commands,
                environment,
                suppress_stdout,
                redirect_stdout,
                suppress_stderr,
                redirect_stderr,
            ) && (started.0@, directive_views(started.1@)) == spawned(
                command_views(commands@),
                env_view(environment),
                !suppress_stdout,
                opt_text(redirect_stdout),
                !suppress_stderr,
                opt_text(redirect_stderr),
                now,
            ),
        r matches Ok(started) ==> {
            &&& started.1@.len() > 0
            &&& started.1@[0]@ == DirectiveView::ClearScreen
            &&& (started.0@.running_child is Some) == (started.1@.last()@ is Launch)
        },
{
    let commands = match task.commands() {
        Ok(commands) => commands,
        Err(fault) => {
            return Err(fault);
        },
    };
    let environment = task.environment();
    let suppress_stdout = task.supress_stdout();
    let echo_stdout = !suppress_stdout;
    let redirect_stdout = task.redirect_stdout();
    let suppress_stderr = task.supress_stderr();
    let echo_stderr = !suppress_stderr;
    let redirect_stderr = task.redirect_stderr();
    assert(task_says(
        task,
        commands,
        environment,
        suppress_stdout,
        redirect_stdout,
        suppress_stderr,
        redirect_stderr,
    ));
    let started = RunningShellTask::spawn(
        commands,
        environment,
        echo_stdout,
        redirect_stdout,
        echo_stderr,
        redirect_stderr,
        now,
    );
    proof {
        lemma_spawn(
            command_views(commands@),
            env_view(environment),
            echo_stdout,
            opt_text(redirect_stdout),
            echo_stderr,
            opt_text(redirect_stderr),
            now,
        );
        let views = directive_views(started.1@);
        assert(views.len() == started.1@.len());
        assert(views[0] == started.1@[0]@);
        assert(views.last() == started.1@.last()@);
    }
    Ok(started)
}

/// Whether these are answers that `task` gives when it is asked for its
/// pipeline, its environment, and for each stream whether it is
/// suppressed and where it is redirected.
pub open spec fn task_says<T: ShellTask>(
    task: &T,
    commands: Vec<ShellCommand>,
    environment: Option<HashMap<String, String>>,
    suppress_stdout: bool,
    redirect_stdout: Option<String>,
    suppress_stderr: bool,
    redirect_stderr: Option<String>,
) -> bool {
    &&& call_ensures(T::commands, (task,), Ok::<Vec<ShellCommand>, PipelineError>(commands))
    &&& call_ensures(T::environment, (task,), environment)
    &&& call_ensures(T::supress_stdout, (task,), suppress_stdout)
    &&& call_ensures(T::redirect_stdout, (task,), redirect_stdout)
    &&& call_ensures(T::supress_stderr, (task,), suppress_stderr)
    &&& call_ensures(T::redirect_stderr, (task,), redirect_stderr)
}

/// The views of a concatenation are the concatenation of the views.
proof fn lemma_directive_views_add(a: Seq<Directive>, b: Seq<Directive>)
    ensures
        directive_views(a + b) == directive_views(a) + directive_views(b),
{
    assert(directive_views(a + b) =~= directive_views(a) + directive_views(b));
}

} // verus!
