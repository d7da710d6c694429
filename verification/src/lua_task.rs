//! The rules by which a script's table of tasks is read. The host runs the
//! script and fetches the fields; what a field means, which fields a
//! command must have and what a missing field stands for is decided here.

use std::path::Path;
use vstd::prelude::*;

use crate::task::{command_views, opt_text, PipelineError, ShellCommand, ShellCommandView};

verus! {

// The fields of a task's entry that the rules read, and of a command's.

pub const SHOULD_RUN: &'static str = "should_run";

pub const START_DELAY: &'static str = "start_delay";

pub const COMMANDS: &'static str = "commands";

pub const NAME: &'static str = "name";

pub const COMMAND: &'static str = "command";

pub const WORK_DIRECTORY: &'static str = "work_directory";

pub const ENVIRONMENT: &'static str = "environment";

pub const REDIRECT_STDOUT: &'static str = "redirect_stdout";

pub const REDIRECT_STDERR: &'static str = "redirect_stderr";

pub const SUPPRESS_STDOUT: &'static str = "suppress_stdout";

pub const SUPPRESS_STDERR: &'static str = "suppress_stderr";

/// The delay of a task that names none, in milliseconds.
pub const DEFAULT_START_DELAY_MS: i64 = 50;

/// Why a script gave no tasks.
#[derive(Clone, Debug, PartialEq, Eq)]
pub enum ScriptError {
    /// The script could not be run; the message is the interpreter's.
    Load(String),
    /// The entry at this position of the task table has a key that is no integer.
    TaskKey(usize),
}

/// A task that a script defines: the key of its entry in the script's table of tasks.
#[derive(Clone, Copy, Debug, PartialEq, Eq, Structural)]
pub struct LuaTask {
    pub key: i64,
}

impl LuaTask {
    /// The task of the entry with this key.
    pub fn new(key: i64) -> (task: LuaTask)
        ensures
            task.key == key,
    {
        LuaTask { key }
    }
}

/// The tasks of a table with these keys, where every key is an integer.
pub open spec fn tasks_of(keys: Seq<Option<i64>>) -> Seq<LuaTask> {
    keys.map_values(|key: Option<i64>| LuaTask { key: key->0 })
}

/// The first position at or after `from` whose key is no integer, if there is one.
pub open spec fn first_bad_key(keys: Seq<Option<i64>>, from: int) -> Option<int>
    decreases keys.len() - from,
{
    if from >= keys.len() {
        None
    } else if 0 <= from && keys[from] is None {
        Some(from)
    } else {
        first_bad_key(keys, from + 1)
    }
}

/// Turns what came of running a script into its tasks. `loaded` is the
/// interpreter's message where the script failed, and otherwise the keys of
/// the task table in the table's order, each `None` where it is no
/// integer. Every entry gives one task, in that order.
pub fn run_file(loaded: Result<Vec<Option<i64>>, String>) -> (r: Result<Vec<LuaTask>, ScriptError>)
    ensures
        match loaded {
            Err(message) => (r matches Err(ScriptError::Load(m)) && m@ == message@),
            Ok(keys) => match first_bad_key(keys@, 0) {
                Some(position) => (r matches Err(ScriptError::TaskKey(p)) && p == position),
                None => (r matches Ok(tasks) && tasks@ == tasks_of(keys@)),
            },
        },
{
    let keys = match loaded {
        Ok(keys) => keys,
        Err(message) => {
            return Err(ScriptError::Load(message));
        },
    };
    let mut tasks: Vec<LuaTask> = Vec::new();
    let mut i: usize = 0;
    while i < keys.len()
        invariant
            i <= keys.len(),
            loaded == Ok::<Vec<Option<i64>>, String>(keys),
            first_bad_key(keys@, 0) == first_bad_key(keys@, i as int),
            tasks@ == tasks_of(keys@.take(i as int)),
        decreases keys.len() - i,
    {
        match keys[i] {
            Some(key) => {
                tasks.push(LuaTask::new(key));
                assert(keys@.take(i + 1) == keys@.take(i as int).push(keys@[i as int]));
            },
            None => {
                assert(first_bad_key(keys@, i as int) == Some(i as int));
                return Err(ScriptError::TaskKey(i));
            },
        }
        i = i + 1;
    }
    assert(keys@.take(keys@.len() as int) == keys@);
    Ok(tasks)
}

/// What `should_run` makes of an answer.
pub open spec fn wanted(answer: Option<bool>) -> bool {
    match answer {
        Some(wanted) => wanted,
        None => true,
    }
}

/// Whether a change asks for a task. `answer` is what the task's
/// `should_run` function said of the changed path, as a truth value, and
/// `None` where the task has no such function: then every change asks for it.
pub fn should_run(answer: Option<bool>) -> (r: bool)
    ensures
        r == wanted(answer),
{
    match answer {
        Some(wanted) => wanted,
        None => true,
    }
}

/// What `start_delay` makes of a field.
pub open spec fn delay_of(field: Option<i64>) -> i64 {
    match field {
        Some(millis) => millis,
        None => DEFAULT_START_DELAY_MS,
    }
}

/// The delay of a task in milliseconds: its `start_delay` where that is an
/// integer, and the default otherwise.
pub fn start_delay(field: Option<i64>) -> (delay: i64)
    ensures
        delay == delay_of(field),
{
    match field {
        Some(millis) => millis,
        None => DEFAULT_START_DELAY_MS,
    }
}

/// Whether a stream is kept off the console: the flag where it is a truth
/// value, and no otherwise.
pub fn suppressed(field: Option<bool>) -> (r: bool)
    ensures
        r == match field {
            Some(flag) => flag,
            None => false,
        },
{
    match field {
        Some(flag) => flag,
        None => false,
    }
}

/// Reading a script is a function of what the script shows. Two loads
/// that find the same keys, the same delays and the same answers give
/// lists of the same length whose tasks agree one by one, in their key,
/// their delay and their answer.
pub proof fn lemma_loads_agree(
    first_keys: Seq<Option<i64>>,
    second_keys: Seq<Option<i64>>,
    first_delays: Seq<Option<i64>>,
    second_delays: Seq<Option<i64>>,
    first_answers: Seq<Option<bool>>,
    second_answers: Seq<Option<bool>>,
)
    requires
        first_keys == second_keys,
        first_delays == second_delays,
        first_answers == second_answers,
    ensures
        first_bad_key(first_keys, 0) == first_bad_key(second_keys, 0),
        tasks_of(first_keys).len() == tasks_of(second_keys).len(),
        forall|i: int|
            0 <= i < tasks_of(first_keys).len() ==> #[trigger] tasks_of(first_keys)[i] == tasks_of(
                second_keys,
            )[i],
        forall|i: int|
            0 <= i < first_delays.len() ==> delay_of(#[trigger] first_delays[i]) == delay_of(
                second_delays[i],
            ),
        forall|i: int|
            0 <= i < first_answers.len() ==> wanted(#[trigger] first_answers[i]) == wanted(
                second_answers[i],
            ),
{
}

/// Every entry of the table gives one task, in the table's order.
pub proof fn lemma_one_task_per_entry(keys: Seq<Option<i64>>)
    requires
        first_bad_key(keys, 0) is None,
    ensures
        tasks_of(keys).len() == keys.len(),
        forall|i: int| 0 <= i < keys.len() ==> #[trigger] keys[i] == Some(tasks_of(keys)[i].key),
{
    lemma_no_bad_key(keys, 0);
}

/// Where no key at or after `from` is bad, all of them are integers.
proof fn lemma_no_bad_key(keys: Seq<Option<i64>>, from: int)
    requires
        0 <= from,
        first_bad_key(keys, from) is None,
    ensures
        forall|i: int| from <= i < keys.len() ==> (#[trigger] keys[i]) is Some,
    decreases keys.len() - from,
{
    if from < keys.len() {
        lemma_no_bad_key(keys, from + 1);
    }
}

/// One entry of a task's `commands`, each field `None` where it is no string.
#[derive(Clone, Debug, PartialEq, Eq)]
pub struct CommandEntry {
    pub name: Option<String>,
    pub command: Option<String>,
    pub work_directory: Option<String>,
}

/// What the rules read of an entry.
pub struct CommandEntryView {
    pub name: Option<Seq<char>>,
    pub command: Option<Seq<char>>,
    pub work_directory: Option<Seq<char>>,
}

impl View for CommandEntry {
    type V = CommandEntryView;

    open spec fn view(&self) -> CommandEntryView {
        CommandEntryView {
            name: opt_text(self.name),
            command: opt_text(self.command),
            work_directory: opt_text(self.work_directory),
        }
    }
}

/// The views of a sequence of entries.
pub open spec fn entry_views(entries: Seq<CommandEntry>) -> Seq<CommandEntryView> {
    entries.map_values(|entry: CommandEntry| entry@)
}

/// What is wrong with an entry: its name is looked at first.
pub open spec fn entry_fault(entry: CommandEntryView, position: usize) -> Option<PipelineError> {
    if entry.name is None {
        Some(PipelineError::MissingName(position))
    } else if entry.command is None {
        Some(PipelineError::MissingCommand(position))
    } else {
        None
    }
}

/// The first entry at or after `from` that lacks its name or its command.
pub open spec fn first_fault(entries: Seq<CommandEntryView>, from: int) -> Option<PipelineError>
    decreases entries.len() - from,
{
    if from >= entries.len() {
        None
    } else if 0 <= from && entry_fault(entries[from], from as usize) is Some {
        entry_fault(entries[from], from as usize)
    } else {
        first_fault(entries, from + 1)
    }
}

/// The command of an entry that has its name and its command.
pub open spec fn command_of(entry: CommandEntryView) -> ShellCommandView {
    ShellCommandView {
        name: entry.name->0,
        command: entry.command->0,
        work_directory: entry.work_directory,
    }
}

/// The pipeline of a task. `entries` is the task's `commands` in order,
/// and `None` where the task has none. Every entry must have a name and a
/// command; its working directory may be missing.
pub fn commands(entries: Option<Vec<CommandEntry>>) -> (r: Result<Vec<ShellCommand>, PipelineError>)
    ensures
        match entries {
            None => r == Err::<Vec<ShellCommand>, PipelineError>(PipelineError::MissingCommands),
            Some(list) => match first_fault(entry_views(list@), 0) {
                Some(fault) => r == Err::<Vec<ShellCommand>, PipelineError>(fault),
                None => (r matches Ok(pipeline) && command_views(pipeline@) == entry_views(
                    list@,
                ).map_values(|entry: CommandEntryView| command_of(entry))),
            },
        },
{
    let list = match entries {
        Some(list) => list,
        None => {
            return Err(PipelineError::MissingCommands);
        },
    };
    let count = list.len();
    let ghost items = list@;
    let ghost all = entry_views(items);
    let ghost wanted = all.map_values(|entry: CommandEntryView| command_of(entry));
    let mut pipeline: Vec<ShellCommand> = Vec::new();
    let mut position: usize = 0;
    for entry in it: list
        invariant
            it.seq() == items,
            items.len() == count,
            entries matches Some(given) && given@ == items,
            all == entry_views(items),
            wanted == all.map_values(|entry: CommandEntryView| command_of(entry)),
            position == it.index(),
            first_fault(all, 0) == first_fault(all, position as int),
            command_views(pipeline@) == wanted.take(position as int),
    {
        assert(entry@ == all[position as int]);
        let ghost done = command_views(pipeline@);
        match (entry.name, entry.command) {
            (None, _) => {
                return Err(PipelineError::MissingName(position));
            },
            (Some(_), None) => {
                return Err(PipelineError::MissingCommand(position));
            },
            (Some(name), Some(command)) => {
                pipeline.push(ShellCommand { name, command, work_directory: entry.work_directory });
                assert(command_views(pipeline@) == done.push(wanted[position as int]));
                assert(wanted.take(position + 1) == done.push(wanted[position as int]));
            },
        }
        position = position + 1;
    }
    assert(wanted.take(all.len() as int) == wanted);
    Ok(pipeline)
}

/// A function on paths that scripts can call on strings.
#[derive(Clone, Copy, Debug, PartialEq, Eq, Structural)]
pub enum PathFunction {
    /// The extension of the file name.
    Ext,
    /// The last component.
    Basename,
    /// The path without its last component.
    Dirname,
}

/// `std::path::Path::extension`, as a string. The extension is what
/// follows the last dot of the file name: a path without a dot has none,
/// and no extension holds a dot. Which part of a path is its file name is
/// the platform's affair, and nothing is claimed of it.
#[verifier::external_body]
fn extension(path: &str) -> (r: Option<String>)
    ensures
        !path@.contains('.') ==> r is None,
        r matches Some(ext) ==> !ext@.contains('.'),
{
    Path::new(path).extension().map(|s| s.to_string_lossy().into_owned())
}

/// `std::path::Path::file_name`, as a string. A path that ends in the
/// parent directory has no file name; of other paths nothing is claimed,
/// since how a path falls into components is the platform's affair.
#[verifier::external_body]
fn file_name(path: &str) -> (r: Option<String>)
    ensures
        path@ == ".."@ ==> r is None,
{
    Path::new(path).file_name().map(|s| s.to_string_lossy().into_owned())
}

/// `std::path::Path::parent`, as a string. The empty path has no parent;
/// of other paths nothing is claimed, since how a path falls into
/// components is the platform's affair.
#[verifier::external_body]
fn parent(path: &str) -> (r: Option<String>)
    ensures
        path@.len() == 0 ==> r is None,
{
    Path::new(path).parent().map(|s| s.to_string_lossy().into_owned())
}

impl PathFunction {
    /// The function's name.
    pub open spec fn spec_name(self) -> Seq<char> {
        match self {
            PathFunction::Ext => "ext"@,
            PathFunction::Basename => "basename"@,
            PathFunction::Dirname => "dirname"@,
        }
    }

    /// The name under which scripts find the function among those of strings.
    pub fn name(self) -> (name: &'static str)
        ensures
            name@ == self.spec_name(),
    {
        match self {
            PathFunction::Ext => "ext",
            PathFunction::Basename => "basename",
            PathFunction::Dirname => "dirname",
        }
    }

    /// The paths that are known to lack the part that the function
    /// gives, whatever the platform: a path without a dot has no
    /// extension, the parent directory has no last component, and the
    /// empty path has no directory.
    pub open spec fn undefined_on(self, path: Seq<char>) -> bool {
        match self {
            PathFunction::Ext => !path.contains('.'),
            PathFunction::Basename => path == ".."@,
            PathFunction::Dirname => path.len() == 0,
        }
    }

    /// Whether `part` is what the platform's own function gives for
    /// `path`: its extension, its last component, or the path without
    /// its last component.
    pub closed spec fn part_of(self, path: &str, part: Option<String>) -> bool {
        match self {
            PathFunction::Ext => call_ensures(extension, (path,), part),
            PathFunction::Basename => call_ensures(file_name, (path,), part),
            PathFunction::Dirname => call_ensures(parent, (path,), part),
        }
    }

    /// Applies the function to `path`: the result is the part that the
    /// platform's own function gives. It gives nothing where the path has
    /// no such part, and an extension holds no dot. How a path falls into
    /// parts is otherwise the platform's affair.
    pub fn apply(self, path: &str) -> (r: Option<String>)
        ensures
            self.part_of(path, r),
            self.undefined_on(path@) ==> r is None,
            self == PathFunction::Ext ==> (r matches Some(ext) ==> !ext@.contains('.')),
    {
        match self {
            PathFunction::Ext => extension(path),
            PathFunction::Basename => file_name(path),
            PathFunction::Dirname => parent(path),
        }
    }
}

/// The functions that are put among a script's string functions before
/// its tasks are read, in the order in which they are put there.
pub fn inject_path_functions() -> (functions: Vec<PathFunction>)
    ensures
        functions@ == seq![PathFunction::Ext, PathFunction::Basename, PathFunction::Dirname],
{
    let mut functions: Vec<PathFunction> = Vec::new();
    functions.push(PathFunction::Ext);
    functions.push(PathFunction::Basename);
    functions.push(PathFunction::Dirname);
    functions
}

} // verus!
