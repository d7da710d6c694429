use std::cell::RefCell;
use std::rc::Rc;

use shell_grunt2::dispatch::{
    is_due, next_slot, settle, ChangeEvent, ShellGrunt2, Slot, Verdict,
};
use shell_grunt2::task::{Runnable, RunningTask, Task};

type Log = Rc<RefCell<Vec<String>>>;

struct MockRun {
    name: &'static str,
    id: usize,
    finished: Rc<RefCell<bool>>,
    alive: Rc<RefCell<i32>>,
    log: Log,
}

impl Drop for MockRun {
    fn drop(&mut self) {
        *self.alive.borrow_mut() -= 1;
    }
}

impl RunningTask for MockRun {
    fn done(&mut self) -> bool {
        *self.finished.borrow()
    }

    fn wait(self) {
        self.log.borrow_mut().push(format!("wait {}{}", self.name, self.id));
    }

    fn interrupt(self) {
        self.log.borrow_mut().push(format!("interrupt {}{}", self.name, self.id));
    }
}

struct MockTask {
    name: &'static str,
    suffix: &'static str,
    delay_ms: i64,
    fails: RefCell<bool>,
    finished: Rc<RefCell<bool>>,
    alive: Rc<RefCell<i32>>,
    runs: RefCell<usize>,
    log: Log,
}

impl MockTask {
    fn new(name: &'static str, suffix: &'static str, delay_ms: i64, log: &Log) -> MockTask {
        MockTask {
            name,
            suffix,
            delay_ms,
            fails: RefCell::new(false),
            finished: Rc::new(RefCell::new(false)),
            alive: Rc::new(RefCell::new(0)),
            runs: RefCell::new(0),
            log: log.clone(),
        }
    }
}

impl Runnable for MockTask {
    type Running = MockRun;

    fn run(&self) -> Option<MockRun> {
        if *self.fails.borrow() {
            return None;
        }
        let id = *self.runs.borrow();
        *self.runs.borrow_mut() = id + 1;
        *self.finished.borrow_mut() = false;
        *self.alive.borrow_mut() += 1;
        self.log.borrow_mut().push(format!("run {}{}", self.name, id));
        Some(MockRun {
            name: self.name,
            id,
            finished: self.finished.clone(),
            alive: self.alive.clone(),
            log: self.log.clone(),
        })
    }
}

impl Task for MockTask {
    fn should_run(&self, path: &str) -> bool {
        path.ends_with(self.suffix)
    }

    fn start_delay(&self) -> i64 {
        self.delay_ms
    }
}

const MS: u64 = 1_000_000;

fn new_log() -> Log {
    Rc::new(RefCell::new(Vec::new()))
}

fn logged(log: &Log) -> Vec<String> {
    log.borrow().clone()
}

fn create(path: &str) -> ChangeEvent {
    ChangeEvent::Create(path.to_string())
}

#[test]
fn burst_within_delay_starts_one_run() {
    let log = new_log();
    let tasks = vec![MockTask::new("t", ".txt", 100, &log)];
    let mut engine = ShellGrunt2::new(&tasks);
    engine.intake(&create("a.txt"), 0);
    engine.intake(&ChangeEvent::Write("b.txt".to_string()), 40 * MS);
    assert_eq!(engine.check_for_new_work(50 * MS), vec![Verdict::Kept]);
    assert_eq!(engine.check_for_new_work(100 * MS), vec![Verdict::Kept]);
    assert_eq!(engine.check_for_new_work(140 * MS), vec![Verdict::Kept]);
    assert_eq!(
        engine.check_for_new_work(150 * MS),
        vec![Verdict::Started { preempted: false }]
    );
    assert_eq!(engine.check_for_new_work(200 * MS), vec![Verdict::Kept]);
    assert_eq!(engine.check_for_new_work(300 * MS), vec![Verdict::Kept]);
    assert_eq!(logged(&log), vec!["run t0".to_string()]);
}

#[test]
fn later_request_moves_the_start() {
    let log = new_log();
    let tasks = vec![MockTask::new("t", ".txt", 500, &log)];
    let mut engine = ShellGrunt2::new(&tasks);
    engine.intake(&create("a.txt"), 0);
    let mut now = 50 * MS;
    while now < 300 * MS {
        assert_eq!(engine.check_for_new_work(now), vec![Verdict::Kept]);
        now += 50 * MS;
    }
    engine.intake(&create("a.txt"), 300 * MS);
    let mut started_at = None;
    while now <= 1000 * MS {
        let report = engine.check_for_new_work(now);
        if report[0] == (Verdict::Started { preempted: false }) {
            assert_eq!(started_at, None);
            started_at = Some(now);
        } else {
            assert_eq!(report, vec![Verdict::Kept]);
        }
        now += 50 * MS;
    }
    assert_eq!(started_at, Some(850 * MS));
    assert_eq!(logged(&log), vec!["run t0".to_string()]);
}

#[test]
fn request_exactly_as_old_as_the_delay_is_not_due() {
    assert!(!is_due(Some(300 * MS), 800 * MS, 500));
    assert!(is_due(Some(300 * MS), 800 * MS + 1, 500));
    assert!(!is_due(Some(300 * MS), 800 * MS - 1, 500));
}

#[test]
fn nothing_is_due_without_a_request() {
    assert!(!is_due(None, u64::MAX, 0));
    assert!(!is_due(None, 0, -1));
}

#[test]
fn due_takes_the_whole_range_of_clock_and_delay() {
    assert!(is_due(Some(0), u64::MAX, 0));
    assert!(!is_due(Some(0), u64::MAX, i64::MAX));
    assert!(is_due(Some(u64::MAX), 0, i64::MIN));
    assert!(!is_due(Some(u64::MAX), 0, 0));
    assert!(!is_due(Some(5), 5, 0));
    assert!(is_due(Some(5), 5, -1));
    assert!(is_due(Some(5), 6, 0));
}

#[test]
fn request_during_a_run_interrupts_before_it_restarts() {
    let log = new_log();
    let tasks = vec![MockTask::new("t", ".txt", 0, &log)];
    let mut engine = ShellGrunt2::new(&tasks);
    engine.intake(&create("a.txt"), 0);
    assert_eq!(
        engine.check_for_new_work(1),
        vec![Verdict::Started { preempted: false }]
    );
    assert_eq!(engine.check_for_new_work(100 * MS), vec![Verdict::Kept]);
    engine.intake(&create("a.txt"), 200 * MS);
    assert_eq!(
        engine.check_for_new_work(200 * MS + 1),
        vec![Verdict::Started { preempted: true }]
    );
    assert_eq!(
        logged(&log),
        vec!["run t0".to_string(), "interrupt t0".to_string(), "run t1".to_string()]
    );
}

#[test]
fn run_is_left_alone_until_the_request_is_due() {
    let log = new_log();
    let tasks = vec![MockTask::new("t", ".txt", 100, &log)];
    let mut engine = ShellGrunt2::new(&tasks);
    engine.request(0, 0);
    assert_eq!(
        engine.check_for_new_work(101 * MS),
        vec![Verdict::Started { preempted: false }]
    );
    engine.request(0, 150 * MS);
    assert_eq!(engine.check_for_new_work(200 * MS), vec![Verdict::Kept]);
    assert_eq!(engine.check_for_new_work(250 * MS), vec![Verdict::Kept]);
    assert_eq!(logged(&log), vec!["run t0".to_string()]);
    assert_eq!(
        engine.check_for_new_work(251 * MS),
        vec![Verdict::Started { preempted: true }]
    );
    assert_eq!(
        logged(&log),
        vec!["run t0".to_string(), "interrupt t0".to_string(), "run t1".to_string()]
    );
}

#[test]
fn finished_run_is_reaped_with_its_slot() {
    let log = new_log();
    let tasks = vec![MockTask::new("t", ".txt", 10, &log)];
    let mut engine = ShellGrunt2::new(&tasks);
    engine.request(0, 0);
    assert_eq!(
        engine.check_for_new_work(11 * MS),
        vec![Verdict::Started { preempted: false }]
    );
    assert_eq!(engine.check_for_new_work(20 * MS), vec![Verdict::Kept]);
    *tasks[0].finished.borrow_mut() = true;
    assert_eq!(engine.check_for_new_work(30 * MS), vec![Verdict::Reaped]);
    assert_eq!(engine.check_for_new_work(40 * MS), vec![Verdict::Absent]);
    assert_eq!(logged(&log), vec!["run t0".to_string()]);
}

#[test]
fn request_outlives_the_run_that_ends_before_it_is_due() {
    let log = new_log();
    let tasks = vec![MockTask::new("t", ".txt", 500, &log)];
    let mut engine = ShellGrunt2::new(&tasks);
    engine.request(0, 0);
    assert_eq!(
        engine.check_for_new_work(501 * MS),
        vec![Verdict::Started { preempted: false }]
    );
    engine.request(0, 700 * MS);
    *tasks[0].finished.borrow_mut() = true;
    assert_eq!(engine.check_for_new_work(800 * MS), vec![Verdict::Reaped]);
    assert_eq!(engine.check_for_new_work(1200 * MS), vec![Verdict::Kept]);
    assert_eq!(
        engine.check_for_new_work(1201 * MS),
        vec![Verdict::Started { preempted: false }]
    );
    assert_eq!(logged(&log), vec!["run t0".to_string(), "run t1".to_string()]);
}

#[test]
fn failed_start_clears_the_slot_and_spares_the_others() {
    let log = new_log();
    let tasks = vec![
        MockTask::new("a", ".a", 0, &log),
        MockTask::new("b", ".b", 0, &log),
    ];
    *tasks[0].fails.borrow_mut() = true;
    let mut engine = ShellGrunt2::new(&tasks);
    engine.intake(&create("x.a"), 0);
    engine.intake(&create("x.b"), 0);
    assert_eq!(
        engine.check_for_new_work(1),
        vec![
            Verdict::StartFailed { preempted: false },
            Verdict::Started { preempted: false }
        ]
    );
    assert_eq!(
        engine.check_for_new_work(2),
        vec![Verdict::Absent, Verdict::Kept]
    );
    assert_eq!(logged(&log), vec!["run b0".to_string()]);
}

#[test]
fn failed_restart_still_interrupts_the_run_in_flight() {
    let log = new_log();
    let tasks = vec![MockTask::new("t", ".txt", 0, &log)];
    let mut engine = ShellGrunt2::new(&tasks);
    engine.request(0, 0);
    assert_eq!(
        engine.check_for_new_work(1),
        vec![Verdict::Started { preempted: false }]
    );
    *tasks[0].fails.borrow_mut() = true;
    engine.request(0, 2);
    assert_eq!(
        engine.check_for_new_work(3),
        vec![Verdict::StartFailed { preempted: true }]
    );
    assert_eq!(engine.check_for_new_work(4), vec![Verdict::Absent]);
    assert_eq!(
        logged(&log),
        vec!["run t0".to_string(), "interrupt t0".to_string()]
    );
}

#[test]
fn independent_tasks_run_side_by_side() {
    let log = new_log();
    let tasks = vec![
        MockTask::new("a", ".a", 50, &log),
        MockTask::new("b", ".b", 50, &log),
    ];
    let mut engine = ShellGrunt2::new(&tasks);
    engine.intake(&create("1.a"), 0);
    engine.intake(&create("1.b"), 5 * MS);
    engine.intake(&create("2.a"), 10 * MS);
    engine.intake(&create("2.b"), 15 * MS);
    assert_eq!(
        engine.check_for_new_work(50 * MS),
        vec![Verdict::Kept, Verdict::Kept]
    );
    assert_eq!(
        engine.check_for_new_work(61 * MS),
        vec![Verdict::Started { preempted: false }, Verdict::Kept]
    );
    assert_eq!(
        engine.check_for_new_work(66 * MS),
        vec![Verdict::Kept, Verdict::Started { preempted: false }]
    );
    assert_eq!(
        engine.check_for_new_work(100 * MS),
        vec![Verdict::Kept, Verdict::Kept]
    );
    assert_eq!(logged(&log), vec!["run a0".to_string(), "run b0".to_string()]);
}

#[test]
fn only_some_kinds_of_change_ask_for_tasks() {
    let path = "a.txt".to_string();
    let other = "b.txt".to_string();
    assert_eq!(
        ChangeEvent::NoticeWrite(path.clone()).effective_path(),
        Some(&path)
    );
    assert_eq!(
        ChangeEvent::NoticeRemove(path.clone()).effective_path(),
        Some(&path)
    );
    assert_eq!(ChangeEvent::Create(path.clone()).effective_path(), Some(&path));
    assert_eq!(ChangeEvent::Write(path.clone()).effective_path(), Some(&path));
    assert_eq!(ChangeEvent::Remove(path.clone()).effective_path(), Some(&path));
    assert_eq!(
        ChangeEvent::Rename(path.clone(), other.clone()).effective_path(),
        Some(&other)
    );
    assert_eq!(ChangeEvent::Chmod(path.clone()).effective_path(), None);
    assert_eq!(ChangeEvent::Rescan.effective_path(), None);
    assert_eq!(
        ChangeEvent::Error("lost".to_string(), Some(path.clone())).effective_path(),
        None
    );
}

#[test]
fn ignored_changes_leave_no_slot() {
    let log = new_log();
    let tasks = vec![MockTask::new("t", ".txt", 0, &log)];
    let mut engine = ShellGrunt2::new(&tasks);
    engine.intake(&ChangeEvent::Chmod("a.txt".to_string()), 0);
    engine.intake(&ChangeEvent::Rescan, 0);
    engine.intake(
        &ChangeEvent::Error("lost".to_string(), Some("a.txt".to_string())),
        0,
    );
    engine.intake(&create("a.rs"), 0);
    engine.intake(
        &ChangeEvent::Rename("a.txt".to_string(), "a.bak".to_string()),
        0,
    );
    assert_eq!(engine.check_for_new_work(MS), vec![Verdict::Absent]);
    engine.intake(
        &ChangeEvent::Rename("a.bak".to_string(), "a.txt".to_string()),
        MS,
    );
    assert_eq!(
        engine.check_for_new_work(2 * MS),
        vec![Verdict::Started { preempted: false }]
    );
}

#[test]
fn request_for_no_task_is_ignored() {
    let log = new_log();
    let tasks = vec![MockTask::new("t", ".txt", 0, &log)];
    let mut engine = ShellGrunt2::new(&tasks);
    engine.request(1, 0);
    engine.request(usize::MAX, 0);
    assert_eq!(engine.check_for_new_work(MS), vec![Verdict::Absent]);
    assert!(logged(&log).is_empty());
}

#[test]
fn engine_without_tasks_reports_nothing() {
    let tasks: Vec<MockTask> = Vec::new();
    let mut engine = ShellGrunt2::new(&tasks);
    engine.intake(&create("a.txt"), 0);
    assert_eq!(engine.check_for_new_work(MS), Vec::<Verdict>::new());
    assert_eq!(engine.spin(vec![create("a.txt")]), Vec::<Verdict>::new());
}

#[test]
fn negative_delay_starts_at_once() {
    let log = new_log();
    let tasks = vec![MockTask::new("t", ".txt", -1, &log)];
    let mut engine = ShellGrunt2::new(&tasks);
    engine.request(0, 7);
    assert_eq!(
        engine.check_for_new_work(7),
        vec![Verdict::Started { preempted: false }]
    );
}

#[test]
fn spin_stamps_requests_with_the_clock() {
    let log = new_log();
    let tasks = vec![MockTask::new("t", ".txt", -1, &log)];
    let mut engine = ShellGrunt2::new(&tasks);
    assert_eq!(engine.spin(Vec::new()), vec![Verdict::Absent]);
    assert_eq!(
        engine.spin(vec![create("a.rs"), create("a.txt"), create("b.txt")]),
        vec![Verdict::Started { preempted: false }]
    );
    assert_eq!(engine.spin(Vec::new()), vec![Verdict::Kept]);
    assert_eq!(logged(&log), vec!["run t0".to_string()]);
}

#[test]
fn spin_debounces_against_the_clock() {
    let log = new_log();
    let tasks = vec![MockTask::new("t", ".txt", 3_600_000, &log)];
    let mut engine = ShellGrunt2::new(&tasks);
    assert_eq!(engine.spin(vec![create("a.txt")]), vec![Verdict::Kept]);
    assert_eq!(engine.spin(vec![create("a.txt")]), vec![Verdict::Kept]);
    assert!(logged(&log).is_empty());
}

#[test]
fn at_most_one_run_of_a_task_is_alive() {
    let log = new_log();
    let tasks = vec![MockTask::new("t", ".txt", 2, &log)];
    let mut engine = ShellGrunt2::new(&tasks);
    let mut now = 0;
    let mut starts = 0;
    let mut reaps = 0;
    for round in 0..200u64 {
        if round % 3 != 1 {
            engine.request(0, now);
        }
        if round % 7 == 3 {
            *tasks[0].finished.borrow_mut() = true;
        }
        now += (round % 5) * MS;
        let report = engine.check_for_new_work(now);
        match report[0] {
            Verdict::Started { .. } => starts += 1,
            Verdict::Reaped => reaps += 1,
            _ => {}
        }
        let alive = *tasks[0].alive.borrow();
        assert!(alive == 0 || alive == 1);
    }
    assert!(starts > 1);
    assert!(reaps > 1);
}

#[test]
fn change_stamps_the_tasks_that_want_it_and_no_other() {
    let log = new_log();
    let tasks = vec![
        MockTask::new("a", ".a", -1, &log),
        MockTask::new("b", ".b", -1, &log),
        MockTask::new("c", ".a", -1, &log),
    ];
    let mut engine = ShellGrunt2::new(&tasks);
    engine.intake(&create("x.a"), 5);
    assert_eq!(
        engine.check_for_new_work(5),
        vec![
            Verdict::Started { preempted: false },
            Verdict::Absent,
            Verdict::Started { preempted: false }
        ]
    );
    engine.intake(&create("x.b"), 6);
    engine.intake(&create("x.c"), 6);
    assert_eq!(
        engine.check_for_new_work(6),
        vec![
            Verdict::Kept,
            Verdict::Started { preempted: false },
            Verdict::Kept
        ]
    );
}

fn slot(last_run_requested: Option<u64>, running: bool) -> Slot {
    Slot {
        last_run_requested,
        running,
    }
}

#[test]
fn due_request_is_settled_by_what_the_start_gave() {
    assert_eq!(
        settle(slot(Some(1), false), true, true, false),
        Verdict::Started { preempted: false }
    );
    assert_eq!(
        settle(slot(Some(1), true), true, true, true),
        Verdict::Started { preempted: true }
    );
    assert_eq!(
        settle(slot(Some(1), false), true, false, true),
        Verdict::StartFailed { preempted: false }
    );
    assert_eq!(
        settle(slot(Some(1), true), true, false, false),
        Verdict::StartFailed { preempted: true }
    );
}

#[test]
fn run_in_flight_is_settled_by_what_its_poll_gave() {
    assert_eq!(settle(slot(None, true), false, false, true), Verdict::Reaped);
    assert_eq!(settle(slot(None, true), false, true, true), Verdict::Reaped);
    assert_eq!(settle(slot(Some(5), true), false, false, true), Verdict::Reaped);
    assert_eq!(settle(slot(None, true), false, false, false), Verdict::Kept);
    assert_eq!(settle(slot(Some(5), true), false, true, false), Verdict::Kept);
}

#[test]
fn slot_without_a_run_or_a_due_request_is_kept() {
    assert_eq!(settle(slot(Some(5), false), false, false, false), Verdict::Kept);
    assert_eq!(settle(slot(Some(5), false), false, true, true), Verdict::Kept);
}

#[test]
fn engine_keeps_the_delay_that_each_task_gave() {
    let log = new_log();
    let tasks = vec![
        MockTask::new("a", ".x", 100, &log),
        MockTask::new("b", ".x", 500, &log),
        MockTask::new("c", ".x", 0, &log),
    ];
    let mut engine = ShellGrunt2::new(&tasks);
    engine.intake(&create("f.x"), 0);
    assert_eq!(
        engine.check_for_new_work(100 * MS),
        vec![
            Verdict::Kept,
            Verdict::Kept,
            Verdict::Started { preempted: false }
        ]
    );
    assert_eq!(
        engine.check_for_new_work(100 * MS + 1),
        vec![
            Verdict::Started { preempted: false },
            Verdict::Kept,
            Verdict::Kept
        ]
    );
    assert_eq!(
        engine.check_for_new_work(500 * MS),
        vec![Verdict::Kept, Verdict::Kept, Verdict::Kept]
    );
    assert_eq!(
        engine.check_for_new_work(500 * MS + 1),
        vec![
            Verdict::Kept,
            Verdict::Started { preempted: false },
            Verdict::Kept
        ]
    );
}

#[test]
fn spin_takes_in_only_the_events_that_have_a_path() {
    let log = new_log();
    let tasks = vec![MockTask::new("t", "", -1, &log)];
    let mut engine = ShellGrunt2::new(&tasks);
    assert_eq!(
        engine.spin(vec![
            ChangeEvent::Rescan,
            ChangeEvent::Chmod("a.txt".to_string()),
            ChangeEvent::Error("lost".to_string(), Some("a.txt".to_string())),
        ]),
        vec![Verdict::Absent]
    );
    assert!(logged(&log).is_empty());
    assert_eq!(
        engine.spin(vec![ChangeEvent::Rescan, create("a.txt")]),
        vec![Verdict::Started { preempted: false }]
    );
}

#[test]
fn spin_stamps_only_the_tasks_that_want_an_event() {
    let log = new_log();
    let tasks = vec![
        MockTask::new("a", ".a", -1, &log),
        MockTask::new("b", ".b", -1, &log),
    ];
    let mut engine = ShellGrunt2::new(&tasks);
    assert_eq!(
        engine.spin(vec![create("x.c"), create("x.b"), create("y.c")]),
        vec![Verdict::Absent, Verdict::Started { preempted: false }]
    );
    assert_eq!(logged(&log), vec!["run b0".to_string()]);
}

#[test]
fn start_leaves_a_running_slot_without_its_request() {
    for preempted in [false, true] {
        assert_eq!(
            next_slot(slot(Some(9), preempted), Verdict::Started { preempted }),
            Some(slot(None, true))
        );
    }
}

#[test]
fn failed_start_leaves_no_slot() {
    for preempted in [false, true] {
        assert_eq!(
            next_slot(slot(Some(9), preempted), Verdict::StartFailed { preempted }),
            None
        );
    }
}

#[test]
fn reaping_leaves_the_pending_request_and_nothing_else() {
    assert_eq!(next_slot(slot(None, true), Verdict::Reaped), None);
    assert_eq!(
        next_slot(slot(Some(9), true), Verdict::Reaped),
        Some(slot(Some(9), false))
    );
}

#[test]
fn kept_slot_stays_as_it_was() {
    for kept in [slot(Some(9), true), slot(Some(9), false), slot(None, true)] {
        assert_eq!(next_slot(kept, Verdict::Kept), Some(kept));
        assert_eq!(next_slot(kept, Verdict::Absent), Some(kept));
    }
}
