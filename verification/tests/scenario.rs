use std::cell::RefCell;
use std::collections::HashMap;
use std::rc::Rc;

use shell_grunt2::dispatch::{ChangeEvent, ShellGrunt2, Verdict};
use shell_grunt2::output::handle_output;
use shell_grunt2::progress::{command_finished, plain, starting_command};
use shell_grunt2::task::{
    run, Directive, Launch, OpenMode, PipelineError, Runnable, RunningShellTask, RunningTask,
    ShellCommand, ShellTask, Sink, Task,
};

const MS: u64 = 1_000_000;
const SECOND: u64 = 1_000 * MS;

/// A machine without processes: a clock, files, a console, and a record
/// of the children that were started and killed.
#[derive(Default)]
struct World {
    now: u64,
    files: HashMap<String, String>,
    console: String,
    progress: Vec<String>,
    spawned: Vec<String>,
    killed: Vec<String>,
}

type Shared = Rc<RefCell<World>>;

/// A child of the machine: `echo` prints its arguments and succeeds,
/// `sleep` succeeds after so many seconds, `false` fails at once.
struct Child {
    line: String,
    output: Vec<String>,
    exits_at: u64,
    success: bool,
}

fn start_child(launch: &Launch, now: u64) -> Option<Child> {
    let line = std::iter::once(launch.program.clone())
        .chain(launch.args.iter().cloned())
        .collect::<Vec<String>>()
        .join(" ");
    match launch.program.as_str() {
        "echo" => Some(Child {
            line,
            output: vec![launch.args.join(" ")],
            exits_at: now,
            success: true,
        }),
        "sleep" => Some(Child {
            line,
            output: Vec::new(),
            exits_at: now + launch.args[0].parse::<u64>().unwrap() * SECOND,
            success: true,
        }),
        "false" => Some(Child {
            line,
            output: Vec::new(),
            exits_at: now,
            success: false,
        }),
        _ => None,
    }
}

fn write(world: &mut World, sink: &Sink, lines: &Vec<String>) {
    if let Some(path) = &sink.redirect {
        if sink.mode == OpenMode::Truncate {
            world.files.insert(path.clone(), String::new());
        }
    }
    let forwarded = handle_output(lines, sink.echo, sink.redirect.is_some());
    if let Some(text) = forwarded.console {
        world.console.push_str(&text);
    }
    if let (Some(path), Some(text)) = (&sink.redirect, forwarded.file) {
        world.files.get_mut(path).unwrap().push_str(&text);
    }
}

struct Run {
    state: Option<RunningShellTask>,
    child: Option<Child>,
    world: Shared,
}

impl Run {
    fn perform(&mut self, directives: Vec<Directive>) {
        let mut queue: std::collections::VecDeque<Directive> = directives.into();
        while let Some(directive) = queue.pop_front() {
            let mut world = self.world.borrow_mut();
            match directive {
                Directive::ClearScreen => world.progress.push("clear".to_string()),
                Directive::Starting(name) => {
                    let line = plain(&starting_command(&name));
                    world.progress.push(line)
                }
                Directive::Launch(launch) => {
                    let now = world.now;
                    match start_child(&launch, now) {
                        Some(child) => {
                            world.spawned.push(child.line.clone());
                            write(&mut world, &launch.stdout, &child.output);
                            write(&mut world, &launch.stderr, &Vec::new());
                            self.child = Some(child);
                        }
                        None => {
                            let state = self.state.as_mut().unwrap();
                            queue.extend(state.current_command_finished(false, now));
                        }
                    }
                }
                Directive::Finished {
                    name,
                    duration_ns,
                    success,
                } => {
                    let line = plain(&command_finished(&name, duration_ns, success));
                    world.progress.push(line)
                }
                Directive::Kill => {
                    let child = self.child.take().unwrap();
                    world.killed.push(child.line);
                }
            }
        }
    }
}

impl RunningTask for Run {
    fn done(&mut self) -> bool {
        loop {
            let state = match self.state.as_mut() {
                Some(state) => state,
                None => return true,
            };
            if state.done() {
                return true;
            }
            let now = self.world.borrow().now;
            let success = match &self.child {
                Some(child) if child.exits_at <= now => child.success,
                _ => return false,
            };
            self.child = None;
            let directives = state.current_command_finished(success, now);
            self.perform(directives);
        }
    }

    fn wait(mut self) {
        while !self.done() {
            let exits_at = self.child.as_ref().unwrap().exits_at;
            self.world.borrow_mut().now = exits_at;
        }
    }

    fn interrupt(mut self) {
        if self.done() {
            return;
        }
        let directives = self.state.take().unwrap().interrupt();
        self.perform(directives);
    }
}

struct Scripted {
    pattern: &'static str,
    start_delay: i64,
    commands: Option<Vec<(&'static str, &'static str)>>,
    redirect_stdout: Option<&'static str>,
    world: Shared,
}

impl Runnable for Scripted {
    type Running = Run;

    fn run(&self) -> Option<Run> {
        let now = self.world.borrow().now;
        let (state, directives) = run(self, now).ok()?;
        let mut started = Run {
            state: Some(state),
            child: None,
            world: self.world.clone(),
        };
        started.perform(directives);
        Some(started)
    }
}

impl Task for Scripted {
    fn should_run(&self, path: &str) -> bool {
        path.ends_with(self.pattern)
    }

    fn start_delay(&self) -> i64 {
        self.start_delay
    }
}

impl ShellTask for Scripted {
    fn commands(&self) -> Result<Vec<ShellCommand>, PipelineError> {
        match &self.commands {
            Some(commands) => Ok(commands
                .iter()
                .map(|(name, command)| ShellCommand {
                    name: name.to_string(),
                    command: command.to_string(),
                    work_directory: None,
                })
                .collect()),
            None => Err(PipelineError::MissingCommands),
        }
    }

    fn environment(&self) -> Option<HashMap<String, String>> {
        None
    }

    fn redirect_stdout(&self) -> Option<String> {
        self.redirect_stdout.map(|path| path.to_string())
    }

    fn redirect_stderr(&self) -> Option<String> {
        None
    }

    fn supress_stdout(&self) -> bool {
        false
    }

    fn supress_stderr(&self) -> bool {
        false
    }
}

fn touch<T: Task>(engine: &mut ShellGrunt2<T>, world: &Shared, path: &str) {
    let now = world.borrow().now;
    engine.intake(&ChangeEvent::Write(path.to_string()), now);
}

/// Lets the clock run until `until`, with a dispatch pass at every tick.
fn tick_until<T: Task>(engine: &mut ShellGrunt2<T>, world: &Shared, until: u64) -> Vec<(u64, Vec<Verdict>)> {
    let mut reports = Vec::new();
    loop {
        let now = world.borrow().now;
        if now + 50 * MS > until {
            world.borrow_mut().now = until;
            return reports;
        }
        world.borrow_mut().now = now + 50 * MS;
        reports.push((now + 50 * MS, engine.check_for_new_work(now + 50 * MS)));
    }
}

fn starts(reports: &Vec<(u64, Vec<Verdict>)>, task: usize) -> Vec<u64> {
    reports
        .iter()
        .filter(|(_, report)| matches!(report[task], Verdict::Started { .. }))
        .map(|(at, _)| *at)
        .collect()
}

#[test]
fn two_touches_within_the_delay_spawn_one_child() {
    let world: Shared = Rc::default();
    let tasks = vec![Scripted {
        pattern: ".txt",
        start_delay: 100,
        commands: Some(vec![("greet", "echo hello")]),
        redirect_stdout: None,
        world: world.clone(),
    }];
    let mut engine = ShellGrunt2::new(&tasks);
    touch(&mut engine, &world, "a.txt");
    world.borrow_mut().now = 30 * MS;
    touch(&mut engine, &world, "b.txt");
    let reports = tick_until(&mut engine, &world, 330 * MS);
    assert_eq!(starts(&reports, 0).len(), 1);
    assert_eq!(world.borrow().spawned, vec!["echo hello".to_string()]);
    assert_eq!(world.borrow().console, "hello\n");
}

#[test]
fn second_touch_puts_the_start_off() {
    let world: Shared = Rc::default();
    let tasks = vec![Scripted {
        pattern: ".txt",
        start_delay: 500,
        commands: Some(vec![("greet", "echo hello")]),
        redirect_stdout: None,
        world: world.clone(),
    }];
    let mut engine = ShellGrunt2::new(&tasks);
    touch(&mut engine, &world, "a.txt");
    let mut reports = tick_until(&mut engine, &world, 300 * MS);
    touch(&mut engine, &world, "a.txt");
    reports.extend(tick_until(&mut engine, &world, 1_200 * MS));
    let started = starts(&reports, 0);
    assert_eq!(started.len(), 1);
    assert!(started[0] > 800 * MS);
    assert_eq!(started[0], 850 * MS);
    assert_eq!(world.borrow().spawned, vec!["echo hello".to_string()]);
}

#[test]
fn touch_during_a_run_kills_it_and_starts_over() {
    let world: Shared = Rc::default();
    let tasks = vec![Scripted {
        pattern: ".txt",
        start_delay: 0,
        commands: Some(vec![("nap", "sleep 10"), ("say", "echo done")]),
        redirect_stdout: Some("log.txt"),
        world: world.clone(),
    }];
    let mut engine = ShellGrunt2::new(&tasks);
    touch(&mut engine, &world, "a.txt");
    let mut reports = tick_until(&mut engine, &world, 200 * MS);
    assert_eq!(world.borrow().spawned, vec!["sleep 10".to_string()]);
    touch(&mut engine, &world, "a.txt");
    reports.extend(tick_until(&mut engine, &world, 9 * SECOND));
    assert_eq!(world.borrow().killed, vec!["sleep 10".to_string()]);
    assert_eq!(
        world.borrow().spawned,
        vec!["sleep 10".to_string(), "sleep 10".to_string()]
    );
    assert_eq!(world.borrow().files["log.txt"], "");
    reports.extend(tick_until(&mut engine, &world, 11 * SECOND));
    assert_eq!(starts(&reports, 0), vec![50 * MS, 250 * MS]);
    assert_eq!(
        world.borrow().spawned,
        vec![
            "sleep 10".to_string(),
            "sleep 10".to_string(),
            "echo done".to_string()
        ]
    );
    assert_eq!(world.borrow().killed, vec!["sleep 10".to_string()]);
    assert_eq!(world.borrow().files["log.txt"], "done\n");
    assert_eq!(
        world.borrow().progress,
        vec![
            "clear",
            "==> nap",
            "clear",
            "==> nap",
            "==> nap: Success. (10.000s)",
            "==> say",
            "==> say: Success. (0ns)",
        ]
    );
    assert_eq!(reports.last().unwrap().1, vec![Verdict::Absent]);
}

#[test]
fn commands_of_a_run_share_one_log() {
    let world: Shared = Rc::default();
    world
        .borrow_mut()
        .files
        .insert("log.txt".to_string(), "stale\n".to_string());
    let tasks = vec![Scripted {
        pattern: ".txt",
        start_delay: 50,
        commands: Some(vec![("first", "echo one"), ("second", "echo two")]),
        redirect_stdout: Some("log.txt"),
        world: world.clone(),
    }];
    let mut engine = ShellGrunt2::new(&tasks);
    touch(&mut engine, &world, "a.txt");
    tick_until(&mut engine, &world, 300 * MS);
    assert_eq!(world.borrow().files["log.txt"], "one\ntwo\n");
    assert_eq!(world.borrow().console, "one\ntwo\n");
    assert_eq!(
        world.borrow().spawned,
        vec!["echo one".to_string(), "echo two".to_string()]
    );
}

#[test]
fn failing_command_ends_the_run() {
    let world: Shared = Rc::default();
    let tasks = vec![Scripted {
        pattern: ".txt",
        start_delay: 0,
        commands: Some(vec![
            ("first", "echo one"),
            ("second", "false"),
            ("third", "echo three"),
        ]),
        redirect_stdout: Some("log.txt"),
        world: world.clone(),
    }];
    let mut engine = ShellGrunt2::new(&tasks);
    touch(&mut engine, &world, "a.txt");
    let reports = tick_until(&mut engine, &world, 200 * MS);
    assert_eq!(world.borrow().files["log.txt"], "one\n");
    assert_eq!(
        world.borrow().spawned,
        vec!["echo one".to_string(), "false".to_string()]
    );
    assert_eq!(
        world.borrow().progress,
        vec![
            "clear",
            "==> first",
            "==> first: Success. (50.000ms)",
            "==> second",
            "==> second: Failed. (0ns)",
        ]
    );
    assert_eq!(reports[0].1, vec![Verdict::Started { preempted: false }]);
    assert_eq!(reports[1].1, vec![Verdict::Reaped]);
    assert_eq!(reports[2].1, vec![Verdict::Absent]);
}

#[test]
fn child_that_cannot_be_started_fails_the_run_under_its_name() {
    let world: Shared = Rc::default();
    let tasks = vec![Scripted {
        pattern: ".txt",
        start_delay: 0,
        commands: Some(vec![("missing", "no-such-program --flag"), ("after", "echo after")]),
        redirect_stdout: None,
        world: world.clone(),
    }];
    let mut engine = ShellGrunt2::new(&tasks);
    touch(&mut engine, &world, "a.txt");
    let reports = tick_until(&mut engine, &world, 100 * MS);
    assert!(world.borrow().spawned.is_empty());
    assert_eq!(
        world.borrow().progress,
        vec!["clear", "==> missing", "==> missing: Failed. (0ns)"]
    );
    assert_eq!(reports[0].1, vec![Verdict::Started { preempted: false }]);
    assert_eq!(reports[1].1, vec![Verdict::Reaped]);
}

#[test]
fn task_without_pipeline_loses_its_slot_and_the_rest_goes_on() {
    let world: Shared = Rc::default();
    let tasks = vec![
        Scripted {
            pattern: ".a",
            start_delay: 0,
            commands: None,
            redirect_stdout: None,
            world: world.clone(),
        },
        Scripted {
            pattern: ".b",
            start_delay: 0,
            commands: Some(vec![("say", "echo b")]),
            redirect_stdout: None,
            world: world.clone(),
        },
    ];
    let mut engine = ShellGrunt2::new(&tasks);
    touch(&mut engine, &world, "x.a");
    touch(&mut engine, &world, "x.b");
    let reports = tick_until(&mut engine, &world, 100 * MS);
    assert_eq!(
        reports[0].1,
        vec![
            Verdict::StartFailed { preempted: false },
            Verdict::Started { preempted: false }
        ]
    );
    assert_eq!(reports[1].1, vec![Verdict::Absent, Verdict::Reaped]);
    assert_eq!(world.borrow().console, "b\n");
}

#[test]
fn bursts_on_two_tasks_give_one_run_each() {
    let world: Shared = Rc::default();
    let tasks = vec![
        Scripted {
            pattern: ".a",
            start_delay: 50,
            commands: Some(vec![("a", "sleep 1")]),
            redirect_stdout: None,
            world: world.clone(),
        },
        Scripted {
            pattern: ".b",
            start_delay: 50,
            commands: Some(vec![("b", "sleep 1")]),
            redirect_stdout: None,
            world: world.clone(),
        },
    ];
    let mut engine = ShellGrunt2::new(&tasks);
    for (at, path) in [(0, "1.a"), (10, "1.b"), (20, "2.a"), (30, "2.b"), (40, "3.a")] {
        world.borrow_mut().now = at * MS;
        touch(&mut engine, &world, path);
    }
    world.borrow_mut().now = 0;
    let reports = tick_until(&mut engine, &world, 500 * MS);
    assert_eq!(starts(&reports, 0), vec![100 * MS]);
    assert_eq!(starts(&reports, 1), vec![100 * MS]);
    assert_eq!(
        world.borrow().spawned,
        vec!["sleep 1".to_string(), "sleep 1".to_string()]
    );
    assert!(world.borrow().killed.is_empty());
    assert_eq!(reports.last().unwrap().1, vec![Verdict::Kept, Verdict::Kept]);
}

#[test]
fn waiting_runs_the_pipeline_to_its_end() {
    let world: Shared = Rc::default();
    let task = Scripted {
        pattern: ".txt",
        start_delay: 0,
        commands: Some(vec![("nap", "sleep 2"), ("say", "echo up")]),
        redirect_stdout: None,
        world: world.clone(),
    };
    let started = task.run().unwrap();
    started.wait();
    assert_eq!(world.borrow().now, 2 * SECOND);
    assert_eq!(world.borrow().console, "up\n");
    assert_eq!(
        world.borrow().progress,
        vec![
            "clear",
            "==> nap",
            "==> nap: Success. (2.000s)",
            "==> say",
            "==> say: Success. (0ns)",
        ]
    );
}
