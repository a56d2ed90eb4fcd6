//! The recipe: a build step, pre-build hooks and custom tasks, and the
//! selector that picks, for an invocation, the tasks to run and their order.

use vstd::prelude::*;
use crate::command::{
    Assembled, ExpandError, expand_command, command_words_of, expands_to, expansion_of, lines_view,
    all_have_program, all_literal, assembled, outcome_of,
};

verus! {

/// The phase a task belongs to. Phases run in a fixed order: pre, build,
/// custom.
#[derive(Clone, Copy, Debug, PartialEq, Eq, Structural)]
pub enum Phase {
    Pre,
    Build,
    Custom,
}

/// Why an invocation stopped.
#[derive(Debug, PartialEq, Eq)]
pub enum Fault {
    /// A task of this phase has an empty command.
    EmptyCommand(Phase),
    /// A command could not be expanded.
    Expand(ExpandError),
    /// No custom task has this name.
    UnknownTask(String),
    /// More than one positional argument was given.
    TooManyArguments,
    /// The recipe could not be read or parsed; the reason.
    BadRecipe(String),
    /// A program could not be launched; the reason.
    SpawnFailed(String),
}

/// A named unit of work: a raw command string and whether it runs in the
/// default invocation.
#[derive(Debug)]
pub struct Task {
    pub name: String,
    pub cmd: String,
    pub run: bool,
    pub phase: Phase,
}

pub struct TaskView {
    pub name: Seq<char>,
    pub cmd: Seq<char>,
    pub run: bool,
    pub phase: Phase,
}

impl View for Task {
    type V = TaskView;

    open spec fn view(&self) -> TaskView {
        TaskView { name: self.name@, cmd: self.cmd@, run: self.run, phase: self.phase }
    }
}

pub open spec fn tasks_view(v: Seq<Task>) -> Seq<TaskView> {
    v.map_values(|t: Task| t@)
}

pub open spec fn build_name() -> Seq<char> {
    seq!['b', 'u', 'i', 'l', 'd']
}

/// What the argument vectors of a task come to, in the terms of
/// [`assembled`]; `None` for a fault that is not about expansion.
pub open spec fn task_outcome(r: Result<Vec<Vec<String>>, Fault>) -> Option<Assembled> {
    match r {
        Ok(v) => Some(Assembled::Lines(lines_view(v@))),
        Err(Fault::Expand(e)) => Some(outcome_of(Err(e))),
        _ => None,
    }
}

impl Task {
    pub fn new(name: String, cmd: String, run: bool, phase: Phase) -> (r: Task)
        ensures
            r@ == (TaskView { name: name@, cmd: cmd@, run, phase }),
    {
        Task { name, cmd, run, phase }
    }

    /// A task with the same name, command, mark and phase.
    pub fn duplicate(&self) -> (r: Task)
        ensures
            r@ == self@,
    {
        Task { name: self.name.clone(), cmd: self.cmd.clone(), run: self.run, phase: self.phase }
    }

    /// Each sub-command of the command as the argument vector to launch, in
    /// order. An empty command is refused, naming the phase.
    pub fn command_lines(&self) -> (r: Result<Vec<Vec<String>>, Fault>)
        ensures
            self@.cmd.len() == 0 <==> r == Err::<Vec<Vec<String>>, Fault>(
                Fault::EmptyCommand(self.phase),
            ),
            r matches Ok(v) ==> expands_to(command_words_of(self@.cmd), lines_view(v@)),
            self@.cmd.len() > 0 && all_have_program(command_words_of(self@.cmd)) && all_literal(
                command_words_of(self@.cmd),
            ) ==> r is Ok,
            self@.cmd.len() > 0 && !all_have_program(command_words_of(self@.cmd)) ==> r == Err::<
                Vec<Vec<String>>,
                Fault,
            >(Fault::Expand(ExpandError::EmptyProgram)),
            self@.cmd.len() > 0 && all_have_program(command_words_of(self@.cmd)) && all_literal(
                command_words_of(self@.cmd),
            ) ==> (r matches Ok(v) && lines_view(v@) == command_words_of(self@.cmd)),
            self@.cmd.len() > 0 && (r matches Err(f)) ==> r->Err_0 is Expand,
            self@.cmd.len() > 0 && all_have_program(command_words_of(self@.cmd)) ==> exists|
                g: Seq<Seq<Result<Seq<char>, Seq<char>>>>,
            |
                expansion_of(command_words_of(self@.cmd), g) && task_outcome(r) == Some(
                    #[trigger] assembled(g),
                ),
    {
        if self.cmd.unicode_len() == 0 {
            return Err(Fault::EmptyCommand(self.phase));
        }
        match expand_command(self.cmd.as_str()) {
            Ok(v) => Ok(v),
            Err(e) => Err(Fault::Expand(e)),
        }
    }
}

/// No two tasks share a name.
pub open spec fn names_distinct(ts: Seq<TaskView>) -> bool {
    forall|i: int, j: int| 0 <= i < j < ts.len() ==> (#[trigger] ts[i]).name != (#[trigger] ts[j]).name
}

/// Some task has this name.
pub open spec fn has_task(ts: Seq<TaskView>, name: Seq<char>) -> bool {
    exists|i: int| 0 <= i < ts.len() && (#[trigger] ts[i]).name == name
}

/// The task of this name, where there is one.
pub open spec fn task_named(ts: Seq<TaskView>, name: Seq<char>) -> TaskView
    recommends
        has_task(ts, name),
{
    ts[choose|i: int| 0 <= i < ts.len() && (#[trigger] ts[i]).name == name]
}

/// Map-style insertion: a task replaces the one of the same name where it
/// stands, and is appended otherwise.
pub open spec fn upserted(ts: Seq<TaskView>, t: TaskView) -> Seq<TaskView> {
    if has_task(ts, t.name) {
        ts.update(choose|i: int| 0 <= i < ts.len() && (#[trigger] ts[i]).name == t.name, t)
    } else {
        ts.push(t)
    }
}

fn upsert(ts: &mut Vec<Task>, t: Task)
    requires
        names_distinct(tasks_view(old(ts)@)),
    ensures
        tasks_view(final(ts)@) == upserted(tasks_view(old(ts)@), t@),
        names_distinct(tasks_view(final(ts)@)),
{
    let ghost tv = t@;
    let mut i: usize = 0;
    while i < ts.len()
        invariant
            i <= ts@.len(),
            ts@ == old(ts)@,
            tv == t@,
            names_distinct(tasks_view(ts@)),
            forall|k: int| 0 <= k < i ==> (#[trigger] ts@[k]).name@ != t.name@,
        decreases ts@.len() - i,
    {
        if ts[i].name == t.name {
            let ghost before = tasks_view(ts@);
            assert(before[i as int].name == t.name@);
            assert forall|k: int| 0 <= k < before.len() && before[k].name == t.name@ implies k
                == i by {
                if k != i {
                    assert(before[k].name == ts@[k].name@);
                    if k < i {
                    } else {
                        assert(before[i as int].name != before[k].name);
                    }
                }
            }
            ts.set(i, t);
            assert(tasks_view(ts@) =~= before.update(i as int, tv));
            assert(names_distinct(tasks_view(ts@))) by {
                assert forall|a: int, b: int| 0 <= a < b < tasks_view(ts@).len() implies (
                #[trigger] tasks_view(ts@)[a]).name != (#[trigger] tasks_view(ts@)[b]).name by {
                    if a != i && b != i {
                        assert(before[a].name != before[b].name);
                    }
                }
            }
            return;
        }
        i = i + 1;
    }
    let ghost before = tasks_view(ts@);
    assert(!has_task(before, tv.name)) by {
        assert forall|k: int| 0 <= k < before.len() implies (#[trigger] before[k]).name
            != tv.name by {
            assert(before[k].name == ts@[k].name@);
        }
    }
    ts.push(t);
    assert(tasks_view(ts@) =~= before.push(tv));
}

/// The parsed configuration of a project.
#[derive(Debug)]
pub struct Recipe {
    pub build: Task,
    pub pre: Vec<Task>,
    pub custom: Vec<Task>,
    pub env: Vec<(String, String)>,
    pub debug: bool,
}

pub struct RecipeView {
    pub build: TaskView,
    pub pre: Seq<TaskView>,
    pub custom: Seq<TaskView>,
    pub env: Seq<(Seq<char>, Seq<char>)>,
    pub debug: bool,
}

pub open spec fn pairs_view(v: Seq<(String, String)>) -> Seq<(Seq<char>, Seq<char>)> {
    v.map_values(|p: (String, String)| (p.0@, p.1@))
}

impl View for Recipe {
    type V = RecipeView;

    open spec fn view(&self) -> RecipeView {
        RecipeView {
            build: self.build@,
            pre: tasks_view(self.pre@),
            custom: tasks_view(self.custom@),
            env: pairs_view(self.env@),
            debug: self.debug,
        }
    }
}

/// No two pairs share a key.
pub open spec fn keys_distinct(ps: Seq<(Seq<char>, Seq<char>)>) -> bool {
    forall|i: int, j: int| 0 <= i < j < ps.len() ==> (#[trigger] ps[i]).0 != (#[trigger] ps[j]).0
}

/// Map-style insertion of a key and its value.
pub open spec fn pair_upserted(ps: Seq<(Seq<char>, Seq<char>)>, k: Seq<char>, v: Seq<char>) -> Seq<
    (Seq<char>, Seq<char>),
> {
    if exists|i: int| 0 <= i < ps.len() && (#[trigger] ps[i]).0 == k {
        ps.update(choose|i: int| 0 <= i < ps.len() && (#[trigger] ps[i]).0 == k, (k, v))
    } else {
        ps.push((k, v))
    }
}

impl RecipeView {
    pub open spec fn wf(self) -> bool {
        &&& self.build.name == build_name()
        &&& self.build.phase == Phase::Build
        &&& forall|i: int| 0 <= i < self.pre.len() ==> (#[trigger] self.pre[i]).phase == Phase::Pre
        &&& forall|i: int|
            0 <= i < self.custom.len() ==> (#[trigger] self.custom[i]).phase == Phase::Custom
        &&& names_distinct(self.pre)
        &&& names_distinct(self.custom)
        &&& keys_distinct(self.env)
    }
}

/// The custom tasks that run in the default invocation, in order.
pub open spec fn auto_tasks(custom: Seq<TaskView>) -> Seq<TaskView> {
    custom.filter(|t: TaskView| t.run)
}

/// With no argument: every pre-build hook, then the build, then every custom
/// task marked to run.
pub open spec fn default_plan(r: RecipeView) -> Seq<TaskView> {
    r.pre.push(r.build) + auto_tasks(r.custom)
}

/// The tasks an invocation with the positional arguments `args` runs, in
/// order; `None` where the invocation is refused. An empty build command
/// refuses the default invocation before any hook runs.
pub open spec fn plan(r: RecipeView, args: Seq<Seq<char>>) -> Option<Seq<TaskView>> {
    if args.len() == 0 {
        if r.build.cmd.len() == 0 {
            None
        } else {
            Some(default_plan(r))
        }
    } else if args.len() == 1 && has_task(r.custom, args[0]) {
        Some(seq![task_named(r.custom, args[0])])
    } else {
        None
    }
}

pub open spec fn strings_view(v: Seq<String>) -> Seq<Seq<char>> {
    v.map_values(|s: String| s@)
}

impl Recipe {
    /// A recipe with this build command and nothing else.
    pub fn new(build_cmd: String) -> (r: Recipe)
        ensures
            r@.wf(),
            r@.build.cmd == build_cmd@,
            r@.pre.len() == 0,
            r@.custom.len() == 0,
            r@.env.len() == 0,
            !r@.debug,
    {
        proof {
            reveal_strlit("build");
        }
        let name = String::from_str("build");
        assert(name@ == build_name());
        Recipe {
            build: Task::new(name, build_cmd, true, Phase::Build),
            pre: Vec::new(),
            custom: Vec::new(),
            env: Vec::new(),
            debug: false,
        }
    }

    /// Adds a pre-build hook; one of the same name is replaced.
    pub fn add_pre(&mut self, name: String, cmd: String)
        requires
            old(self)@.wf(),
        ensures
            final(self)@.wf(),
            final(self)@ == (RecipeView {
                pre: upserted(old(self)@.pre, TaskView { name: name@, cmd: cmd@, run: true, phase: Phase::Pre }),
                ..old(self)@
            }),
    {
        let t = Task::new(name, cmd, true, Phase::Pre);
        let ghost tv = t@;
        let ghost before = self@.pre;
        upsert(&mut self.pre, t);
        assert forall|i: int| 0 <= i < self@.pre.len() implies (#[trigger] self@.pre[i]).phase
            == Phase::Pre by {
            if has_task(before, tv.name) {
                let j = choose|j: int| 0 <= j < before.len() && (#[trigger] before[j]).name == tv.name;
                if i != j {
                    assert(self@.pre[i] == before[i]);
                }
            } else if i < before.len() {
                assert(self@.pre[i] == before[i]);
            }
        }
    }

    /// Adds a custom task; one of the same name is replaced.
    pub fn add_custom(&mut self, name: String, cmd: String, run: bool)
        requires
            old(self)@.wf(),
        ensures
            final(self)@.wf(),
            final(self)@ == (RecipeView {
                custom: upserted(old(self)@.custom, TaskView { name: name@, cmd: cmd@, run, phase: Phase::Custom }),
                ..old(self)@
            }),
    {
        let t = Task::new(name, cmd, run, Phase::Custom);
        let ghost tv = t@;
        let ghost before = self@.custom;
        upsert(&mut self.custom, t);
        assert forall|i: int| 0 <= i < self@.custom.len() implies (#[trigger] self@.custom[i]).phase
            == Phase::Custom by {
            if has_task(before, tv.name) {
                let j = choose|j: int| 0 <= j < before.len() && (#[trigger] before[j]).name == tv.name;
                if i != j {
                    assert(self@.custom[i] == before[i]);
                }
            } else if i < before.len() {
                assert(self@.custom[i] == before[i]);
            }
        }
    }

    /// Declares an environment variable; a second value for a key replaces
    /// the first.
    pub fn set_env(&mut self, key: String, value: String)
        requires
            old(self)@.wf(),
        ensures
            final(self)@.wf(),
            final(self)@ == (RecipeView {
                env: pair_upserted(old(self)@.env, key@, value@),
                ..old(self)@
            }),
    {
        let ghost kv = key@;
        let ghost vv = value@;
        let mut i: usize = 0;
        while i < self.env.len()
            invariant
                i <= self.env@.len(),
                self@ == old(self)@,
                kv == key@,
                vv == value@,
                self@.wf(),
                forall|k: int| 0 <= k < i ==> (#[trigger] self.env@[k]).0@ != key@,
            decreases self.env@.len() - i,
        {
            if self.env[i].0 == key {
                let ghost before = self@.env;
                assert(before[i as int].0 == kv);
                assert forall|k: int| 0 <= k < before.len() && before[k].0 == kv implies k == i by {
                    if k != i {
                        assert(before[k].0 == self.env@[k].0@);
                        if k > i {
                            assert(before[i as int].0 != before[k].0);
                        }
                    }
                }
                self.env.set(i, (key, value));
                assert(self@.env =~= before.update(i as int, (kv, vv)));
                assert forall|a: int, b: int| 0 <= a < b < self@.env.len() implies (
                #[trigger] self@.env[a]).0 != (#[trigger] self@.env[b]).0 by {
                    if a != i && b != i {
                        assert(before[a].0 != before[b].0);
                    } else if a == i {
                        assert(before[b].0 != kv);
                    } else {
                        assert(before[a].0 != kv);
                    }
                }
                return;
            }
            i = i + 1;
        }
        let ghost before = self@.env;
        assert forall|k: int| 0 <= k < before.len() implies (#[trigger] before[k]).0 != kv by {
            assert(before[k].0 == self.env@[k].0@);
        }
        self.env.push((key, value));
        assert(self@.env =~= before.push((kv, vv)));
    }

    /// Turns the debug notices on or off.
    pub fn set_debug(&mut self, debug: bool)
        requires
            old(self)@.wf(),
        ensures
            final(self)@ == (RecipeView { debug, ..old(self)@ }),
    {
        self.debug = debug;
    }
}

impl Recipe {
    /// The tasks to run for the positional arguments `args`, in order.
    ///
    /// No argument: every hook, the build, then the custom tasks marked to
    /// run; an empty build command is refused. One argument naming a custom task: that task alone, whatever its
    /// mark. One argument naming none: refused. More: refused.
    pub fn select(&self, args: &Vec<String>) -> (r: Result<Vec<Task>, Fault>)
        requires
            self@.wf(),
        ensures
            r is Ok <==> plan(self@, strings_view(args@)) is Some,
            r matches Ok(v) ==> Some(tasks_view(v@)) == plan(self@, strings_view(args@)),
            args@.len() == 1 && !has_task(self@.custom, args@[0]@) ==> (r matches Err(
                Fault::UnknownTask(n),
            ) && n@ == args@[0]@),
            args@.len() >= 2 ==> r matches Err(Fault::TooManyArguments),
            args@.len() == 0 && self@.build.cmd.len() == 0 ==> r matches Err(
                Fault::EmptyCommand(Phase::Build),
            ),
    {
        let ghost av = strings_view(args@);
        if args.len() >= 2 {
            return Err(Fault::TooManyArguments);
        }
        if args.len() == 0 && self.build.cmd.unicode_len() == 0 {
            return Err(Fault::EmptyCommand(Phase::Build));
        }
        if args.len() == 1 {
            assert(av[0] == args@[0]@);
            let mut i: usize = 0;
            while i < self.custom.len()
                invariant
                    i <= self.custom@.len(),
                    self@.wf(),
                    args@.len() == 1,
                    av == strings_view(args@),
                    av[0] == args@[0]@,
                    forall|k: int| 0 <= k < i ==> (#[trigger] self.custom@[k]).name@ != args@[0]@,
                decreases self.custom@.len() - i,
            {
                if self.custom[i].name == args[0] {
                    let ghost cv = self@.custom;
                    assert(cv[i as int].name == args@[0]@);
                    assert(has_task(cv, args@[0]@));
                    proof {
                        let j = choose|j: int| 0 <= j < cv.len() && (#[trigger] cv[j]).name == args@[0]@;
                        if j != i {
                            if j < i {
                                assert(cv[j].name == self.custom@[j].name@);
                            } else {
                                assert(cv[i as int].name != cv[j].name);
                            }
                        }
                        assert(task_named(cv, av[0]) == cv[i as int]);
                    }
                    let mut v: Vec<Task> = Vec::new();
                    v.push(self.custom[i].duplicate());
                    assert(tasks_view(v@) =~= seq![cv[i as int]]);
                    return Ok(v);
                }
                i = i + 1;
            }
            assert(!has_task(self@.custom, av[0])) by {
                assert forall|k: int| 0 <= k < self@.custom.len() implies (
                #[trigger] self@.custom[k]).name != av[0] by {
                    assert(self@.custom[k].name == self.custom@[k].name@);
                }
            }
            return Err(Fault::UnknownTask(args[0].clone()));
        }
        let mut v: Vec<Task> = Vec::new();
        let mut i: usize = 0;
        while i < self.pre.len()
            invariant
                i <= self.pre@.len(),
                tasks_view(v@) =~= self@.pre.take(i as int),
            decreases self.pre@.len() - i,
        {
            v.push(self.pre[i].duplicate());
            assert(self@.pre.take(i + 1) =~= self@.pre.take(i as int).push(self.pre@[i as int]@));
            i = i + 1;
        }
        assert(self@.pre.take(i as int) =~= self@.pre);
        v.push(self.build.duplicate());
        let ghost head = self@.pre.push(self@.build);
        assert(tasks_view(v@) =~= head);
        let mut k: usize = 0;
        assert(self@.custom.take(0) =~= Seq::<TaskView>::empty());
        proof {
            reveal(Seq::filter);
        }
        assert(auto_tasks(self@.custom.take(0)) =~= Seq::<TaskView>::empty());
        assert(head =~= head + auto_tasks(self@.custom.take(0)));
        while k < self.custom.len()
            invariant
                k <= self.custom@.len(),
                head == self@.pre.push(self@.build),
                tasks_view(v@) =~= head + auto_tasks(self@.custom.take(k as int)),
            decreases self.custom@.len() - k,
        {
            let ghost c = self@.custom;
            let ghost before = tasks_view(v@);
            assert(c.take(k + 1).drop_last() =~= c.take(k as int));
            assert(c.take(k + 1).last() == c[k as int]);
            proof {
                reveal(Seq::filter);
            }
            if self.custom[k].run {
                v.push(self.custom[k].duplicate());
                assert(auto_tasks(c.take(k + 1)) == auto_tasks(c.take(k as int)).push(c[k as int]));
                assert(tasks_view(v@) =~= before.push(c[k as int]));
            } else {
                assert(auto_tasks(c.take(k + 1)) == auto_tasks(c.take(k as int)));
            }
            k = k + 1;
        }
        assert(self@.custom.take(k as int) =~= self@.custom);
        Ok(v)
    }
}

/// With no argument, a recipe that has a build command and no hooks or
/// custom tasks runs the build and nothing else.
pub proof fn lemma_build_runs_alone(r: RecipeView)
    requires
        r.wf(),
        r.build.cmd.len() > 0,
        r.pre.len() == 0,
        r.custom.len() == 0,
    ensures
        plan(r, Seq::empty()) == Some(seq![r.build]),
{
    reveal(Seq::filter);
    assert(auto_tasks(r.custom) =~= Seq::<TaskView>::empty());
    assert(default_plan(r) =~= seq![r.build]);
}

/// An argument that names a custom task runs that task alone, whether or
/// not it is marked to run by default: no hook and no build.
pub proof fn lemma_named_task_runs_alone(r: RecipeView, name: Seq<char>)
    requires
        r.wf(),
        has_task(r.custom, name),
    ensures
        exists|i: int|
            0 <= i < r.custom.len() && r.custom[i].name == name && plan(r, seq![name]) == Some(
                seq![#[trigger] r.custom[i]],
            ),
        plan(r, seq![name]) matches Some(p) && p.len() == 1 && p[0].phase == Phase::Custom,
{
    let i = choose|i: int| 0 <= i < r.custom.len() && (#[trigger] r.custom[i]).name == name;
    assert(seq![name][0] == name);
    assert(plan(r, seq![name]) == Some(seq![r.custom[i]]));
}

/// An argument that names no custom task is refused: nothing runs.
pub proof fn lemma_unknown_name_refused(r: RecipeView, name: Seq<char>)
    requires
        !has_task(r.custom, name),
    ensures
        plan(r, seq![name]) is None,
{
    assert(seq![name][0] == name);
}

/// With no argument, an empty build command is refused before any hook
/// runs: nothing runs.
pub proof fn lemma_empty_build_refused(r: RecipeView)
    requires
        r.build.cmd.len() == 0,
    ensures
        plan(r, Seq::empty()) is None,
{
}

/// Two or more positional arguments are refused: nothing runs.
pub proof fn lemma_extra_arguments_refused(r: RecipeView, args: Seq<Seq<char>>)
    requires
        args.len() >= 2,
    ensures
        plan(r, args) is None,
{
}

/// A custom task not marked to run stays out of the default invocation, and
/// its name alone runs it exactly once.
pub proof fn lemma_unmarked_task(r: RecipeView, i: int)
    requires
        r.wf(),
        0 <= i < r.custom.len(),
        !r.custom[i].run,
    ensures
        !default_plan(r).contains(r.custom[i]),
        plan(r, seq![r.custom[i].name]) == Some(seq![r.custom[i]]),
{
    let t = r.custom[i];
    reveal(Seq::filter);
    assert(!auto_tasks(r.custom).contains(t)) by {
        if auto_tasks(r.custom).contains(t) {
            let k = choose|k: int| 0 <= k < auto_tasks(r.custom).len() && auto_tasks(r.custom)[k] == t;
            r.custom.lemma_filter_pred(|t: TaskView| t.run, k);
        }
    }
    assert(!r.pre.push(r.build).contains(t)) by {
        if r.pre.push(r.build).contains(t) {
            let k = choose|k: int| 0 <= k < r.pre.push(r.build).len() && r.pre.push(r.build)[k] == t;
            if k < r.pre.len() {
                assert(r.pre[k].phase == Phase::Pre);
            }
        }
    }
    assert(!default_plan(r).contains(t)) by {
        if default_plan(r).contains(t) {
            let k = choose|k: int| 0 <= k < default_plan(r).len() && default_plan(r)[k] == t;
            let h = r.pre.push(r.build);
            if k < h.len() {
                assert(h[k] == t);
            } else {
                assert(auto_tasks(r.custom)[k - h.len()] == t);
            }
        }
    }
    assert(has_task(r.custom, t.name));
    lemma_named_task_runs_alone(r, t.name);
    let j = choose|j: int|
        0 <= j < r.custom.len() && r.custom[j].name == t.name && plan(r, seq![t.name]) == Some(
            seq![#[trigger] r.custom[j]],
        );
    assert(j == i);
}

} // verus!
