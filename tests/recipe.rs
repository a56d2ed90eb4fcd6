use baker::command::ExpandError;
use baker::recipe::{Fault, Phase, Recipe, Task};

fn names(v: &[Task]) -> Vec<String> {
    v.iter().map(|t| t.name.clone()).collect()
}

fn args(v: &[&str]) -> Vec<String> {
    v.iter().map(|s| s.to_string()).collect()
}

fn full_recipe() -> Recipe {
    let mut r = Recipe::new("cargo build".to_string());
    r.add_pre("fmt".to_string(), "cargo fmt".to_string());
    r.add_pre("lint".to_string(), "cargo clippy".to_string());
    r.add_custom("test".to_string(), "cargo test".to_string(), true);
    r.add_custom("deploy".to_string(), "echo deploying".to_string(), false);
    r
}

#[test]
fn build_alone_runs_alone() {
    let r = Recipe::new("echo hi".to_string());
    let plan = r.select(&args(&[])).unwrap();
    assert_eq!(names(&plan), args(&["build"]));
    assert_eq!(plan[0].cmd, "echo hi");
    assert_eq!(plan[0].phase, Phase::Build);
}

#[test]
fn default_runs_pre_then_build_then_marked_custom() {
    let plan = full_recipe().select(&args(&[])).unwrap();
    assert_eq!(names(&plan), args(&["fmt", "lint", "build", "test"]));
}

#[test]
fn named_task_runs_alone_whatever_its_mark() {
    let r = full_recipe();
    let plan = r.select(&args(&["deploy"])).unwrap();
    assert_eq!(names(&plan), args(&["deploy"]));
    assert_eq!(plan[0].cmd, "echo deploying");
    let plan = r.select(&args(&["test"])).unwrap();
    assert_eq!(names(&plan), args(&["test"]));
}

#[test]
fn unmarked_task_stays_out_of_default() {
    let mut r = Recipe::new("true".to_string());
    r.add_custom("deploy".to_string(), "echo deploying".to_string(), false);
    let plan = r.select(&args(&[])).unwrap();
    assert_eq!(names(&plan), args(&["build"]));
    let plan = r.select(&args(&["deploy"])).unwrap();
    assert_eq!(names(&plan), args(&["deploy"]));
}

#[test]
fn unknown_name_is_refused() {
    let r = full_recipe();
    match r.select(&args(&["nope"])) {
        Err(Fault::UnknownTask(n)) => assert_eq!(n, "nope"),
        other => panic!("unexpected {:?}", other),
    }
}

#[test]
fn pre_hook_name_is_not_a_command() {
    let r = full_recipe();
    assert!(matches!(r.select(&args(&["fmt"])), Err(Fault::UnknownTask(_))));
    assert!(matches!(r.select(&args(&["build"])), Err(Fault::UnknownTask(_))));
}

#[test]
fn empty_build_is_refused_with_no_argument() {
    let mut r = Recipe::new(String::new());
    r.add_pre("fmt".to_string(), "cargo fmt".to_string());
    r.add_custom("deploy".to_string(), "echo deploying".to_string(), false);
    assert!(matches!(r.select(&args(&[])), Err(Fault::EmptyCommand(Phase::Build))));
    let plan = r.select(&args(&["deploy"])).unwrap();
    assert_eq!(names(&plan), args(&["deploy"]));
}

#[test]
fn two_arguments_are_refused() {
    let r = full_recipe();
    assert!(matches!(r.select(&args(&["test", "deploy"])), Err(Fault::TooManyArguments)));
}

#[test]
fn same_name_replaces_in_place() {
    let mut r = full_recipe();
    r.add_custom("test".to_string(), "cargo nextest run".to_string(), false);
    assert_eq!(names(&r.custom), args(&["test", "deploy"]));
    assert_eq!(r.custom[0].cmd, "cargo nextest run");
    assert!(!r.custom[0].run);
    r.set_env("A".to_string(), "1".to_string());
    r.set_env("B".to_string(), "2".to_string());
    r.set_env("A".to_string(), "3".to_string());
    assert_eq!(
        r.env,
        vec![("A".to_string(), "3".to_string()), ("B".to_string(), "2".to_string())]
    );
}

#[test]
fn empty_command_names_its_phase() {
    let t = Task::new("build".to_string(), String::new(), true, Phase::Build);
    assert_eq!(t.command_lines(), Err(Fault::EmptyCommand(Phase::Build)));
    let t = Task::new("x".to_string(), String::new(), true, Phase::Pre);
    assert_eq!(t.command_lines(), Err(Fault::EmptyCommand(Phase::Pre)));
}

#[test]
fn blank_command_is_an_expansion_fault() {
    let t = Task::new("x".to_string(), "  ".to_string(), true, Phase::Custom);
    assert_eq!(t.command_lines(), Err(Fault::Expand(ExpandError::EmptyProgram)));
}

#[test]
fn command_lines_of_a_task() {
    let t = Task::new("b".to_string(), "make && make install".to_string(), true, Phase::Build);
    assert_eq!(
        t.command_lines().unwrap(),
        vec![vec!["make".to_string()], vec!["make".to_string(), "install".to_string()]]
    );
}
