//! One invocation of the runner, as a sequence of decisions.
//!
//! The caller performs each [`Action`] (printing, reading or writing the
//! recipe file, setting the environment, launching a program) and hands back
//! the [`Event`] it produced; the session decides what comes next. Programs
//! run one at a time, in the order the selector gives; a program that cannot
//! be launched ends the invocation.

use vstd::prelude::*;
use crate::command::{
    Assembled, ExpandError, all_have_program, all_literal, assembled, command_words_of, expands_to,
    expansion_of, lines_view, lemma_segments_nonempty, outcome_of,
};
use crate::recipe::{
    Fault, Phase, Recipe, Task, TaskView, has_task, plan, tasks_view, strings_view, pairs_view,
};

verus! {

/// Whether `a` and `b` hold the same characters.
pub fn same_text(a: &str, b: &str) -> (r: bool)
    ensures
        r == (a@ == b@),
{
    let n = a.unicode_len();
    if n != b.unicode_len() {
        return false;
    }
    let mut i: usize = 0;
    while i < n
        invariant
            n == a@.len() == b@.len(),
            i <= n,
            forall|k: int| 0 <= k < i ==> a@[k] == b@[k],
        decreases n - i,
    {
        if a.get_char(i) != b.get_char(i) {
            return false;
        }
        i = i + 1;
    }
    assert(a@ =~= b@);
    true
}

/// What an invocation asks for, by its first argument.
#[derive(Clone, Copy, Debug, PartialEq, Eq, Structural)]
pub enum Request {
    Version,
    Help,
    Commands,
    Run,
}

/// Flags are looked at in this order: version, help, list of commands.
/// Anything else asks to run tasks.
pub open spec fn request_of(args: Seq<Seq<char>>) -> Request {
    if args.len() > 0 && (args[0] == "-v"@ || args[0] == "--version"@) {
        Request::Version
    } else if args.len() > 0 && (args[0] == "-h"@ || args[0] == "--help"@) {
        Request::Help
    } else if args.len() > 0 && (args[0] == "-c"@ || args[0] == "--commands"@) {
        Request::Commands
    } else {
        Request::Run
    }
}

/// Reads what the arguments after the program name ask for.
pub fn request(args: &Vec<String>) -> (r: Request)
    ensures
        r == request_of(strings_view(args@)),
{
    if args.len() == 0 {
        return Request::Run;
    }
    let a = args[0].as_str();
    assert(strings_view(args@)[0] == a@);
    if same_text(a, "-v") || same_text(a, "--version") {
        Request::Version
    } else if same_text(a, "-h") || same_text(a, "--help") {
        Request::Help
    } else if same_text(a, "-c") || same_text(a, "--commands") {
        Request::Commands
    } else {
        Request::Run
    }
}

/// The contents written where no recipe file exists yet: a build section
/// with an empty command.
pub open spec fn starter_recipe() -> Seq<char> {
    "[build]\ncmd = \"\""@
}

/// What the caller is asked to do next.
#[derive(Debug)]
pub enum Action {
    /// Print the version.
    ShowVersion,
    /// Print the usage.
    ShowHelp,
    /// Read and parse the recipe file.
    LoadRecipe,
    /// Create the recipe file with these contents.
    WriteRecipe(String),
    /// Print the names of the custom tasks.
    ListTasks(Vec<String>),
    /// Set these environment variables, in order.
    ApplyEnv(Vec<(String, String)>),
    /// Announce that the task of this name starts (debug only).
    Begin(String),
    /// Launch this program with these arguments and wait for it.
    Spawn(Vec<String>),
    /// Announce that the task of this name is done (debug only).
    End(String),
    /// Report the fault and end the invocation with a failure.
    Fail(Fault),
    /// End the invocation with this exit code.
    Exit(i32),
}

/// What came of the last action.
#[derive(Debug)]
pub enum Event {
    /// The action was carried out; also the first event of a session.
    Done,
    /// The recipe file does not exist.
    RecipeMissing,
    /// The recipe file was read and parsed.
    RecipeLoaded(Recipe),
    /// The recipe file could not be read or parsed; the reason.
    RecipeInvalid(String),
    /// The program could not be launched; the reason.
    SpawnFailed(String),
}

#[derive(Clone, Copy, Debug, PartialEq, Eq, Structural)]
pub enum Stage {
    Start,
    Loading,
    Closing,
    Running,
    Finished,
}

/// The state of one invocation.
pub struct Session {
    /// The positional arguments, after the program name.
    pub args: Vec<String>,
    pub stage: Stage,
    /// The recipe is loaded only to list the custom tasks.
    pub listing: bool,
    /// The tasks to run, in order.
    pub plan: Vec<Task>,
    /// The task being run, or next to start.
    pub task: usize,
    /// Whether the task at `task` has started.
    pub begun: bool,
    /// The argument vectors of the task that has started.
    pub lines: Vec<Vec<String>>,
    /// The next of `lines` to launch.
    pub line: usize,
    pub debug: bool,
    /// The exit code, once finished.
    pub code: i32,
}

impl Session {
    pub open spec fn wf(&self) -> bool {
        &&& self.task <= self.plan@.len()
        &&& self.stage == Stage::Start ==> !self.listing
        &&& self.begun ==> {
            &&& self.stage == Stage::Running
            &&& self.task < self.plan@.len()
            &&& self.line <= self.lines@.len()
            &&& expands_to(command_words_of(self.plan@[self.task as int]@.cmd), lines_view(self.lines@))
        }
    }

    /// A session for the arguments after the program name.
    pub fn new(args: Vec<String>) -> (r: Session)
        ensures
            r.wf(),
            r.stage == Stage::Start,
            r.args@ == args@,
    {
        Session {
            args,
            stage: Stage::Start,
            listing: false,
            plan: Vec::new(),
            task: 0,
            begun: false,
            lines: Vec::new(),
            line: 0,
            debug: false,
            code: 0,
        }
    }

    fn finish(&mut self, code: i32)
        ensures
            final(self).stage == Stage::Finished,
            final(self).code == code,
            final(self).args == old(self).args,
            final(self).task == old(self).task,
            final(self).plan == old(self).plan,
            final(self).debug == old(self).debug,
            final(self).listing == old(self).listing,
            !final(self).begun,
    {
        self.stage = Stage::Finished;
        self.code = code;
        self.begun = false;
    }
}

/// A copy of a list of strings.
fn copy_strings(v: &Vec<String>) -> (r: Vec<String>)
    ensures
        strings_view(r@) == strings_view(v@),
{
    let mut out: Vec<String> = Vec::new();
    let mut i: usize = 0;
    while i < v.len()
        invariant
            i <= v@.len(),
            strings_view(out@) =~= strings_view(v@).take(i as int),
        decreases v@.len() - i,
    {
        let ghost before = out@;
        out.push(v[i].clone());
        assert(strings_view(out@) =~= strings_view(before).push(v@[i as int]@));
        assert(strings_view(v@).take(i + 1) =~= strings_view(v@).take(i as int).push(v@[i as int]@));
        i = i + 1;
    }
    assert(strings_view(v@).take(i as int) =~= strings_view(v@));
    out
}

/// A copy of a list of key-value pairs.
fn copy_pairs(v: &Vec<(String, String)>) -> (r: Vec<(String, String)>)
    ensures
        pairs_view(r@) == pairs_view(v@),
{
    let mut out: Vec<(String, String)> = Vec::new();
    let mut i: usize = 0;
    while i < v.len()
        invariant
            i <= v@.len(),
            pairs_view(out@) =~= pairs_view(v@).take(i as int),
        decreases v@.len() - i,
    {
        let ghost before = out@;
        out.push((v[i].0.clone(), v[i].1.clone()));
        assert(pairs_view(out@) =~= pairs_view(before).push((v@[i as int].0@, v@[i as int].1@)));
        assert(pairs_view(v@).take(i + 1) =~= pairs_view(v@).take(i as int).push(
            (v@[i as int].0@, v@[i as int].1@),
        ));
        i = i + 1;
    }
    assert(pairs_view(v@).take(i as int) =~= pairs_view(v@));
    out
}

/// The names of the tasks, in order.
pub open spec fn names_of(ts: Seq<TaskView>) -> Seq<Seq<char>> {
    ts.map_values(|t: TaskView| t.name)
}

fn task_names(ts: &Vec<Task>) -> (r: Vec<String>)
    ensures
        strings_view(r@) == names_of(tasks_view(ts@)),
{
    let mut out: Vec<String> = Vec::new();
    let mut i: usize = 0;
    while i < ts.len()
        invariant
            i <= ts@.len(),
            strings_view(out@) =~= names_of(tasks_view(ts@)).take(i as int),
        decreases ts@.len() - i,
    {
        let ghost before = out@;
        out.push(ts[i].name.clone());
        assert(strings_view(out@) =~= strings_view(before).push(ts@[i as int].name@));
        assert(names_of(tasks_view(ts@)).take(i + 1) =~= names_of(tasks_view(ts@)).take(
            i as int,
        ).push(ts@[i as int].name@));
        i = i + 1;
    }
    assert(names_of(tasks_view(ts@)).take(i as int) =~= names_of(tasks_view(ts@)));
    out
}

/// What a step that starts a task comes to, in the terms of [`assembled`]:
/// the argument vectors it holds after, or the expansion fault it reports.
pub open spec fn start_outcome(a: Action, f: Session) -> Option<Assembled> {
    match a {
        Action::Fail(Fault::Expand(e)) => Some(outcome_of(Err(e))),
        Action::Fail(_) => None,
        _ => Some(Assembled::Lines(lines_view(f.lines@))),
    }
}

/// What starting the task at index `k` of the plan of `s` gives, `f` being
/// the state after and `a` the action: the end with success where no task is
/// left; a failure where the command is empty or cannot be expanded; else the
/// task starts, announced under debug and with its first program launched
/// otherwise.
pub open spec fn starts_task(s: Session, k: int, f: Session, a: Action) -> bool {
    if k >= s.plan@.len() {
        (a matches Action::Exit(c) && c == 0) && f.stage == Stage::Finished && f.code == 0
    } else {
        let t = s.plan@[k]@;
        let cw = command_words_of(t.cmd);
        &&& t.cmd.len() == 0 ==> (a matches Action::Fail(Fault::EmptyCommand(p)) && p == t.phase)
        &&& t.cmd.len() > 0 && !all_have_program(cw) ==> (a matches Action::Fail(
            Fault::Expand(ExpandError::EmptyProgram),
        ))
        &&& t.cmd.len() > 0 && all_have_program(cw) ==> exists|
            g: Seq<Seq<Result<Seq<char>, Seq<char>>>>,
        | expansion_of(cw, g) && start_outcome(a, f) == Some(#[trigger] assembled(g))
        &&& t.cmd.len() > 0 && all_have_program(cw) && all_literal(cw) ==> !(a is Fail) && lines_view(
            f.lines@,
        ) == cw
        &&& a is Fail ==> f.stage == Stage::Finished && f.code == 1 && (t.cmd.len() == 0
            || a->Fail_0 is Expand)
        &&& !(a is Fail) ==> {
            &&& f.stage == Stage::Running
            &&& f.begun
            &&& f.task == k
            &&& s.debug ==> (a matches Action::Begin(n) && n@ == t.name) && f.line == 0
            &&& !s.debug ==> (a matches Action::Spawn(argv) && strings_view(argv@) == lines_view(
                f.lines@,
            )[0]) && f.line == 1
        }
    }
}

/// One step of a running session from `s` to `f` with action `a`: the next
/// program of the started task is launched; when its last program is done,
/// the next task starts (after an end notice under debug); notices come only
/// under debug, and nothing else is asked for.
pub open spec fn advances(s: Session, f: Session, a: Action) -> bool {
    &&& a is Spawn || a is Exit || a is Fail || a is Begin || a is End
    &&& (a is Begin || a is End) ==> s.debug
    &&& f.plan == s.plan
    &&& f.debug == s.debug
    &&& !s.begun ==> starts_task(s, s.task as int, f, a)
    &&& s.begun && s.line < s.lines@.len() ==> (a matches Action::Spawn(argv) && strings_view(argv@)
        == lines_view(s.lines@)[s.line as int]) && f.stage == Stage::Running && f.begun && f.task
        == s.task && f.lines == s.lines && f.line == s.line + 1
    &&& s.begun && s.line >= s.lines@.len() ==> if s.debug {
        &&& a matches Action::End(n) && n@ == s.plan@[s.task as int].name@
        &&& f.stage == Stage::Running
        &&& !f.begun
        &&& f.task == s.task + 1
    } else {
        starts_task(s, s.task + 1, f, a)
    }
}

impl Session {
    /// Starts the task at `task`, or ends the session where none is left.
    fn start_task(&mut self) -> (a: Action)
        requires
            old(self).wf(),
            old(self).stage == Stage::Running,
            !old(self).begun,
        ensures
            final(self).wf(),
            final(self).args == old(self).args,
            final(self).plan == old(self).plan,
            final(self).debug == old(self).debug,
            final(self).listing == old(self).listing,
            final(self).task == old(self).task,
            final(self).stage == Stage::Running || final(self).stage == Stage::Finished,
            starts_task(*old(self), old(self).task as int, *final(self), a),
            a is Spawn || a is Exit || a is Fail || a is Begin,
            a matches Action::Spawn(argv) ==> argv@.len() > 0 && argv@[0]@.len() > 0,
    {
        if self.task >= self.plan.len() {
            self.finish(0);
            return Action::Exit(0);
        }
        match self.plan[self.task].command_lines() {
            Err(f) => {
                self.finish(1);
                Action::Fail(f)
            },
            Ok(ls) => {
                proof {
                    lemma_segments_nonempty(self.plan@[self.task as int]@.cmd);
                }
                self.lines = ls;
                self.line = 0;
                self.begun = true;
                if self.debug {
                    Action::Begin(self.plan[self.task].name.clone())
                } else {
                    let argv = copy_strings(&self.lines[0]);
                    proof {
                        assert(lines_view(self.lines@)[0] == strings_view(self.lines@[0]@));
                    }
                    self.line = 1;
                    Action::Spawn(argv)
                }
            },
        }
    }
}

impl Session {
    /// The next step of a running session: the next program of the current
    /// task, the end of that task, the start of the next one, or the end.
    fn advance(&mut self) -> (a: Action)
        requires
            old(self).wf(),
            old(self).stage == Stage::Running,
        ensures
            final(self).wf(),
            final(self).args == old(self).args,
            final(self).plan == old(self).plan,
            final(self).debug == old(self).debug,
            final(self).listing == old(self).listing,
            final(self).task >= old(self).task,
            final(self).stage == Stage::Running || final(self).stage == Stage::Finished,
            a matches Action::Spawn(argv) ==> {
                &&& final(self).stage == Stage::Running
                &&& final(self).begun
                &&& 1 <= final(self).line <= final(self).lines@.len()
                &&& strings_view(argv@) == lines_view(final(self).lines@)[final(self).line - 1]
                &&& argv@.len() > 0
                &&& argv@[0]@.len() > 0
            },
            a matches Action::Exit(c) ==> c == 0 && final(self).stage == Stage::Finished
                && final(self).code == 0 && final(self).task == final(self).plan@.len(),
            a matches Action::Fail(f) ==> final(self).stage == Stage::Finished && final(self).code
                == 1,
            a is Spawn || a is Exit || a is Fail || a is Begin || a is End,
            old(self).begun && old(self).line < old(self).lines@.len() ==> a is Spawn && final(self).task
                == old(self).task && final(self).lines == old(self).lines && final(self).line == old(self).line + 1,
            final(self).task <= old(self).task + 1,
            a matches Action::Begin(n) ==> final(self).task < final(self).plan@.len() && n@
                == final(self).plan@[final(self).task as int].name@,
            a matches Action::End(n) ==> 1 <= final(self).task <= final(self).plan@.len() && n@
                == final(self).plan@[final(self).task - 1].name@,
            final(self).stage == Stage::Running ==> a is Spawn || a is Begin || a is End,
            advances(*old(self), *final(self), a),
    {
        if self.begun {
            if self.line < self.lines.len() {
                let argv = copy_strings(&self.lines[self.line]);
                proof {
                    assert(lines_view(self.lines@)[self.line as int] == strings_view(
                        self.lines@[self.line as int]@,
                    ));
                }
                self.line = self.line + 1;
                return Action::Spawn(argv);
            }
            let total = self.plan.len();
            assert(self.task < total);
            self.begun = false;
            self.task = self.task + 1;
            if self.debug {
                return Action::End(self.plan[self.task - 1].name.clone());
            }
        }
        self.start_task()
    }
}

impl Session {
    /// The recipe has arrived: list its tasks, or select the tasks to run
    /// and ask for its environment to be set first.
    fn load(&mut self, r: Recipe) -> (a: Action)
        requires
            old(self).wf(),
            old(self).stage == Stage::Loading,
            r@.wf(),
        ensures
            final(self).wf(),
            final(self).args == old(self).args,
            final(self).listing == old(self).listing,
            old(self).listing ==> final(self).stage == Stage::Closing && (a matches Action::ListTasks(
                names,
            ) && strings_view(names@) == names_of(r@.custom)),
            !old(self).listing && plan(r@, strings_view(old(self).args@)) is None ==> {
                &&& final(self).stage == Stage::Finished
                &&& final(self).code == 1
                &&& a is Fail
            },
            !old(self).listing && plan(r@, strings_view(old(self).args@)) is Some ==> {
                &&& final(self).stage == Stage::Running
                &&& Some(tasks_view(final(self).plan@)) == plan(r@, strings_view(old(self).args@))
                &&& final(self).task == 0
                &&& !final(self).begun
                &&& final(self).debug == r@.debug
                &&& a matches Action::ApplyEnv(e) && pairs_view(e@) == r@.env
            },
            !old(self).listing && old(self).args@.len() == 0 && r@.build.cmd.len() == 0 ==> (
            a matches Action::Fail(Fault::EmptyCommand(p)) && p == Phase::Build),
            !old(self).listing && old(self).args@.len() == 1 && !has_task(
                r@.custom,
                old(self).args@[0]@,
            ) ==> (a matches Action::Fail(Fault::UnknownTask(n)) && n@ == old(self).args@[0]@),
    {
        if self.listing {
            self.stage = Stage::Closing;
            return Action::ListTasks(task_names(&r.custom));
        }
        match r.select(&self.args) {
            Err(f) => {
                self.finish(1);
                Action::Fail(f)
            },
            Ok(p) => {
                self.plan = p;
                self.task = 0;
                self.begun = false;
                self.debug = r.debug;
                self.stage = Stage::Running;
                Action::ApplyEnv(copy_pairs(&r.env))
            },
        }
    }

    /// Decides the next action from the outcome of the last one.
    ///
    /// Flags come first, in the order version, help, commands; then more
    /// than one positional argument is refused before the recipe is read. A
    /// missing recipe is created with an empty build command and the
    /// invocation ends with success. The environment is set once, before any
    /// program runs; then the programs of the selected tasks run in order,
    /// and the first that cannot be launched ends the invocation with a
    /// failure.
    pub fn next(&mut self, ev: Event) -> (a: Action)
        requires
            old(self).wf(),
            ev matches Event::RecipeLoaded(r) ==> r@.wf(),
        ensures
            final(self).wf(),
            final(self).args == old(self).args,
            old(self).stage == Stage::Finished ==> final(self).stage == Stage::Finished && final(self).code == old(self).code && (a matches Action::Exit(c) && c == old(self).code),
            old(self).stage == Stage::Closing ==> final(self).stage == Stage::Finished && final(self).code == 0 && (a matches Action::Exit(c) && c == 0),
            old(self).stage == Stage::Start && request_of(strings_view(old(self).args@))
                == Request::Version ==> a is ShowVersion && final(self).stage == Stage::Closing,
            old(self).stage == Stage::Start && request_of(strings_view(old(self).args@))
                == Request::Help ==> a is ShowHelp && final(self).stage == Stage::Closing,
            old(self).stage == Stage::Start && request_of(strings_view(old(self).args@))
                == Request::Commands ==> a is LoadRecipe && final(self).stage == Stage::Loading
                && final(self).listing,
            old(self).stage == Stage::Start && request_of(strings_view(old(self).args@))
                == Request::Run && old(self).args@.len() >= 2 ==> (a matches Action::Fail(f)
                && f is TooManyArguments) && final(self).stage == Stage::Finished && final(self).code
                == 1,
            old(self).stage == Stage::Start && request_of(strings_view(old(self).args@))
                == Request::Run && old(self).args@.len() < 2 ==> a is LoadRecipe && final(self).stage
                == Stage::Loading && !final(self).listing,
            old(self).stage == Stage::Loading && ev is RecipeMissing ==> final(self).stage
                == Stage::Closing && (a matches Action::WriteRecipe(t) && t@ == starter_recipe()),
            old(self).stage == Stage::Loading && ev is RecipeInvalid ==> final(self).stage
                == Stage::Finished && final(self).code == 1 && (a matches Action::Fail(f)
                && f is BadRecipe),
            old(self).stage == Stage::Loading && ev is RecipeLoaded ==> {
                let r = ev->RecipeLoaded_0@;
                let p = plan(r, strings_view(old(self).args@));
                &&& old(self).listing ==> final(self).stage == Stage::Closing && (
                a matches Action::ListTasks(names) && strings_view(names@) == names_of(r.custom))
                &&& !old(self).listing && p is None ==> final(self).stage == Stage::Finished
                    && final(self).code == 1 && a is Fail
                &&& !old(self).listing && p is Some ==> {
                    &&& final(self).stage == Stage::Running
                    &&& Some(tasks_view(final(self).plan@)) == p
                    &&& final(self).task == 0
                    &&& !final(self).begun
                    &&& final(self).debug == r.debug
                    &&& a matches Action::ApplyEnv(e) && pairs_view(e@) == r.env
                }
                &&& !old(self).listing && old(self).args@.len() == 0 && r.build.cmd.len() == 0 ==> (
                a matches Action::Fail(Fault::EmptyCommand(p)) && p == Phase::Build)
                &&& !old(self).listing && old(self).args@.len() == 1 && !has_task(
                    r.custom,
                    old(self).args@[0]@,
                ) ==> (a matches Action::Fail(Fault::UnknownTask(n)) && n@ == old(self).args@[0]@)
            },
            old(self).stage == Stage::Running && ev is SpawnFailed ==> final(self).stage
                == Stage::Finished && final(self).code == 1 && (a matches Action::Fail(f)
                && f is SpawnFailed),
            old(self).stage == Stage::Running ==> final(self).plan == old(self).plan && final(self).task >= old(self).task,
            old(self).stage == Stage::Running && !(ev is SpawnFailed) ==> advances(
                *old(self),
                *final(self),
                a,
            ),
            old(self).stage == Stage::Running && !(ev is SpawnFailed) ==> {
                &&& final(self).task <= old(self).task + 1
                &&& old(self).begun && old(self).line < old(self).lines@.len() ==> a is Spawn
                    && final(self).task == old(self).task && final(self).lines == old(self).lines
                    && final(self).line == old(self).line + 1
                &&& a matches Action::Begin(n) ==> final(self).task < final(self).plan@.len() && n@
                    == final(self).plan@[final(self).task as int].name@
                &&& a matches Action::End(n) ==> 1 <= final(self).task <= final(self).plan@.len()
                    && n@ == final(self).plan@[final(self).task - 1].name@
            },
            old(self).stage == Stage::Running && (a matches Action::Exit(c)) ==> final(self).task
                == final(self).plan@.len(),
            a matches Action::Spawn(argv) ==> {
                &&& old(self).stage == Stage::Running
                &&& final(self).stage == Stage::Running
                &&& final(self).begun
                &&& 1 <= final(self).line <= final(self).lines@.len()
                &&& strings_view(argv@) == lines_view(final(self).lines@)[final(self).line - 1]
                &&& argv@.len() > 0
                &&& argv@[0]@.len() > 0
            },
            final(self).stage == Stage::Running && old(self).stage != Stage::Running ==> a is ApplyEnv,
            a is Fail ==> final(self).stage == Stage::Finished && final(self).code == 1,
    {
        match self.stage {
            Stage::Finished => Action::Exit(self.code),
            Stage::Closing => {
                self.finish(0);
                Action::Exit(0)
            },
            Stage::Start => match request(&self.args) {
                Request::Version => {
                    self.stage = Stage::Closing;
                    Action::ShowVersion
                },
                Request::Help => {
                    self.stage = Stage::Closing;
                    Action::ShowHelp
                },
                Request::Commands => {
                    self.listing = true;
                    self.stage = Stage::Loading;
                    Action::LoadRecipe
                },
                Request::Run => {
                    if self.args.len() >= 2 {
                        self.finish(1);
                        Action::Fail(Fault::TooManyArguments)
                    } else {
                        self.stage = Stage::Loading;
                        Action::LoadRecipe
                    }
                },
            },
            Stage::Loading => match ev {
                Event::RecipeMissing => {
                    self.stage = Stage::Closing;
                    proof {
                        reveal_strlit("[build]\ncmd = \"\"");
                    }
                    Action::WriteRecipe(String::from_str("[build]\ncmd = \"\""))
                },
                Event::RecipeInvalid(m) => {
                    self.finish(1);
                    Action::Fail(Fault::BadRecipe(m))
                },
                Event::RecipeLoaded(r) => self.load(r),
                _ => Action::LoadRecipe,
            },
            Stage::Running => match ev {
                Event::SpawnFailed(m) => {
                    self.finish(1);
                    Action::Fail(Fault::SpawnFailed(m))
                },
                _ => self.advance(),
            },
        }
    }
}

/// Along a run of steps of a running session, each of which advances, the
/// environment is never asked for again.
pub proof fn lemma_env_set_once(states: Seq<Session>, acts: Seq<Action>)
    requires
        states.len() == acts.len() + 1,
        forall|k: int| 0 <= k < acts.len() ==> advances(states[k], states[k + 1], #[trigger] acts[k]),
    ensures
        forall|k: int| 0 <= k < acts.len() ==> !(#[trigger] acts[k] is ApplyEnv),
{
    assert forall|k: int| 0 <= k < acts.len() implies !(#[trigger] acts[k] is ApplyEnv) by {
        assert(advances(states[k], states[k + 1], acts[k]));
    }
}

/// Along a run of `n` steps from a started task, each of which advances and
/// none of which runs past the task's last program, the steps launch the
/// task's argument vectors one after another, in order.
pub proof fn lemma_task_lines_in_order(states: Seq<Session>, acts: Seq<Action>)
    requires
        states.len() == acts.len() + 1,
        states[0].begun,
        states[0].line + acts.len() <= states[0].lines@.len(),
        forall|k: int| 0 <= k < acts.len() ==> advances(states[k], states[k + 1], #[trigger] acts[k]),
    ensures
        forall|k: int|
            0 <= k < acts.len() ==> (#[trigger] acts[k] matches Action::Spawn(argv) && strings_view(argv@)
                == lines_view(states[0].lines@)[states[0].line + k]),
        states[acts.len() as int].begun,
        states[acts.len() as int].task == states[0].task,
        states[acts.len() as int].lines == states[0].lines,
        states[acts.len() as int].line == states[0].line + acts.len(),
    decreases acts.len(),
{
    let n = acts.len() as int;
    if n > 0 {
        let s2 = states.drop_last();
        let a2 = acts.drop_last();
        assert forall|k: int| 0 <= k < a2.len() implies advances(s2[k], s2[k + 1], #[trigger] a2[k]) by {
            assert(advances(states[k], states[k + 1], acts[k]));
        }
        lemma_task_lines_in_order(s2, a2);
        assert(advances(states[n - 1], states[n], acts[n - 1]));
        assert forall|k: int| 0 <= k < n implies (#[trigger] acts[k] matches Action::Spawn(argv)
            && strings_view(argv@) == lines_view(states[0].lines@)[states[0].line + k]) by {
            if k < n - 1 {
                assert(a2[k] == acts[k]);
            }
        }
    }
}

} // verus!
