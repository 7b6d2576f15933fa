//! Builds a compilation database out of the process executions that were
//! observed during a build.
//!
//! The crate holds the rules of the tool: how an observed process is decoded,
//! how an execution is recognised as a compiler call, how the call is turned
//! into database entries, and how those entries are filtered and written.
//! Talking to the operating system is left to the program around it.

use vstd::prelude::*;

pub mod configuration;
pub mod debugger;
pub mod execution_logger;
pub mod json;
pub mod output;
pub mod paths;
pub mod process;
pub mod resolver;
pub mod semantic;
pub mod text;
pub mod util;
pub mod wmi;

verus! {

/// The environment of a process: names and their values. Where a name occurs
/// more than once, its last value counts.
#[derive(Debug, Clone, PartialEq, Eq, Default)]
pub struct Environment {
    pub variables: Vec<(String, String)>,
}

/// The mapping that a sequence of name and value pairs stands for.
pub open spec fn environment_map(variables: Seq<(Seq<char>, Seq<char>)>) -> Map<
    Seq<char>,
    Seq<char>,
>
    decreases variables.len(),
{
    if variables.len() == 0 {
        Map::empty()
    } else {
        environment_map(variables.drop_last()).insert(variables.last().0, variables.last().1)
    }
}

impl View for Environment {
    type V = Map<Seq<char>, Seq<char>>;

    open spec fn view(&self) -> Map<Seq<char>, Seq<char>> {
        environment_map(self.variables.deep_view())
    }
}

impl DeepView for Environment {
    type V = Map<Seq<char>, Seq<char>>;

    open spec fn deep_view(&self) -> Map<Seq<char>, Seq<char>> {
        self@
    }
}

impl Environment {
    /// The environment without any variable.
    pub fn new() -> (result: Self)
        ensures
            result@ == Map::<Seq<char>, Seq<char>>::empty(),
    {
        Environment { variables: Vec::new() }
    }

    /// Sets `name` to `value`.
    pub fn insert(&mut self, name: String, value: String)
        ensures
            final(self)@ == old(self)@.insert(name@, value@),
    {
        let ghost before = self.variables.deep_view();
        self.variables.push((name, value));
        assert(self.variables.deep_view().drop_last() =~= before);
    }

    /// The value of `name`, if it is set.
    pub fn get(&self, name: &str) -> (result: Option<&String>)
        ensures
            match result {
                Some(value) => self@.contains_key(name@) && self@[name@] == value@,
                None => !self@.contains_key(name@),
            },
    {
        let mut i: usize = self.variables.len();
        assert(self.variables.deep_view().take(i as int) =~= self.variables.deep_view());
        while i > 0
            invariant
                i <= self.variables.len(),
                self@.contains_key(name@) <==> environment_map(
                    self.variables.deep_view().take(i as int),
                ).contains_key(name@),
                self@.contains_key(name@) ==> self@[name@] == environment_map(
                    self.variables.deep_view().take(i as int),
                )[name@],
            decreases i,
        {
            let ghost prefix = self.variables.deep_view().take(i as int);
            i -= 1;
            assert(prefix.drop_last() =~= self.variables.deep_view().take(i as int));
            if text::same(self.variables[i].0.as_str(), name) {
                return Some(&self.variables[i].1);
            }
        }
        None
    }
}

/// One execution of a program, as the recogniser reads it.
#[derive(Debug, Clone, PartialEq, Eq, Default)]
pub struct Execution {
    pub executable: String,
    pub arguments: Vec<String>,
    pub working_dir: String,
    pub environment: Environment,
}

pub struct ExecutionView {
    pub executable: Seq<char>,
    pub arguments: Seq<Seq<char>>,
    pub working_dir: Seq<char>,
    pub environment: Map<Seq<char>, Seq<char>>,
}

impl View for Execution {
    type V = ExecutionView;

    open spec fn view(&self) -> ExecutionView {
        ExecutionView {
            executable: self.executable@,
            arguments: self.arguments.deep_view(),
            working_dir: self.working_dir@,
            environment: self.environment@,
        }
    }
}

/// An execution together with the process that made it.
#[derive(Debug, Clone, PartialEq, Eq, Default)]
pub struct Run {
    pub execution: Execution,
    pub pid: u32,
    pub ppid: u32,
}

impl Run {
    /// The run of a logged execution: the program and its arguments, the
    /// directory it was started in, and the environment as a mapping.
    pub fn from_logged(logged: &execution_logger::Execution) -> (result: Run)
        ensures
            result.execution.executable@ == logged.command.program@,
            result.execution.arguments.deep_view() == logged.command.arguments.deep_view(),
            result.execution.working_dir@ == logged.command.working_dir@,
            result.execution.environment.variables.deep_view() == Seq::new(
                process::variables_of(logged.command.environment.data@).len(),
                |i: int|
                    (
                        process::utf16_text(
                            process::variables_of(logged.command.environment.data@)[i].0,
                        ),
                        process::utf16_text(
                            process::variables_of(logged.command.environment.data@)[i].1,
                        ),
                    ),
            ),
            result.pid == logged.run.pid,
            result.ppid == logged.run.ppid,
    {
        Run {
            execution: Execution {
                executable: logged.command.program.clone(),
                arguments: text::copy_of(&logged.command.arguments),
                working_dir: logged.command.working_dir.clone(),
                environment: logged.command.environment.environment(),
            },
            pid: logged.run.pid,
            ppid: logged.run.ppid,
        }
    }
}

/// One record of the compilation database.
#[derive(Debug, Clone, PartialEq, Eq)]
pub struct Entry {
    pub file: String,
    pub directory: String,
    pub output: Option<String>,
    pub arguments: Vec<String>,
}

pub struct EntryView {
    pub file: Seq<char>,
    pub directory: Seq<char>,
    pub output: Option<Seq<char>>,
    pub arguments: Seq<Seq<char>>,
}

impl View for Entry {
    type V = EntryView;

    open spec fn view(&self) -> EntryView {
        EntryView {
            file: self.file@,
            directory: self.directory@,
            output: self.output.deep_view(),
            arguments: self.arguments.deep_view(),
        }
    }
}

impl DeepView for Entry {
    type V = EntryView;

    open spec fn deep_view(&self) -> EntryView {
        self@
    }
}

} // verus!
