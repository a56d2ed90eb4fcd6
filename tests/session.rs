use baker::recipe::{Fault, Recipe};
use baker::session::{request, Action, Event, Request, Session};

fn args(v: &[&str]) -> Vec<String> {
    v.iter().map(|s| s.to_string()).collect()
}

/// Drives a session to its end: every action succeeds, and the recipe is
/// handed over when asked for. Returns the programs launched and the exit.
fn drive(argv: &[&str], recipe: Recipe) -> (Vec<Vec<String>>, Vec<Action>, i32) {
    let mut s = Session::new(args(argv));
    let mut recipe = Some(recipe);
    let mut ev = Event::Done;
    let mut spawned = Vec::new();
    let mut seen = Vec::new();
    for _ in 0..1000 {
        let a = s.next(ev);
        ev = Event::Done;
        match a {
            Action::LoadRecipe => ev = Event::RecipeLoaded(recipe.take().unwrap()),
            Action::Spawn(v) => spawned.push(v),
            Action::Exit(c) => return (spawned, seen, c),
            Action::Fail(f) => {
                seen.push(Action::Fail(f));
                return (spawned, seen, 1);
            }
            other => seen.push(other),
        }
    }
    panic!("session did not end");
}

#[test]
fn flags_in_order() {
    assert_eq!(request(&args(&["-v"])), Request::Version);
    assert_eq!(request(&args(&["--version", "-h"])), Request::Version);
    assert_eq!(request(&args(&["--help"])), Request::Help);
    assert_eq!(request(&args(&["-c"])), Request::Commands);
    assert_eq!(request(&args(&["--commands"])), Request::Commands);
    assert_eq!(request(&args(&["deploy"])), Request::Run);
    assert_eq!(request(&args(&[])), Request::Run);
}

#[test]
fn build_only_recipe_spawns_build_once() {
    let (spawned, _, code) = drive(&[], Recipe::new("echo hi".to_string()));
    assert_eq!(spawned, vec![args(&["echo", "hi"])]);
    assert_eq!(code, 0);
}

#[test]
fn unknown_name_spawns_nothing() {
    let (spawned, seen, code) = drive(&["nope"], Recipe::new("echo hi".to_string()));
    assert!(spawned.is_empty());
    assert_ne!(code, 0);
    assert!(matches!(seen.last(), Some(Action::Fail(Fault::UnknownTask(n))) if n == "nope"));
}

#[test]
fn two_arguments_spawn_nothing() {
    let mut s = Session::new(args(&["a", "b"]));
    let a = s.next(Event::Done);
    assert!(matches!(a, Action::Fail(Fault::TooManyArguments)));
    assert!(matches!(s.next(Event::Done), Action::Exit(1)));
}

#[test]
fn env_is_applied_before_first_spawn() {
    let mut r = Recipe::new("echo $GREETING".to_string());
    r.set_env("GREETING".to_string(), "hello".to_string());
    let mut s = Session::new(args(&[]));
    assert!(matches!(s.next(Event::Done), Action::LoadRecipe));
    match s.next(Event::RecipeLoaded(r)) {
        Action::ApplyEnv(e) => {
            assert_eq!(e, vec![("GREETING".to_string(), "hello".to_string())])
        }
        other => panic!("unexpected {:?}", other),
    }
}

#[test]
fn sub_commands_spawn_in_order() {
    let (spawned, _, code) = drive(&[], Recipe::new("echo a && echo b".to_string()));
    assert_eq!(spawned, vec![args(&["echo", "a"]), args(&["echo", "b"])]);
    assert_eq!(code, 0);
}

#[test]
fn spawn_failure_stops_the_rest() {
    let mut s = Session::new(args(&[]));
    s.next(Event::Done);
    s.next(Event::RecipeLoaded(Recipe::new("nosuchprogram && echo b".to_string())));
    assert!(matches!(s.next(Event::Done), Action::Spawn(_)));
    match s.next(Event::SpawnFailed("not found".to_string())) {
        Action::Fail(Fault::SpawnFailed(m)) => assert_eq!(m, "not found"),
        other => panic!("unexpected {:?}", other),
    }
    assert!(matches!(s.next(Event::Done), Action::Exit(1)));
}

#[test]
fn missing_recipe_is_created_and_exits_zero() {
    let mut s = Session::new(args(&[]));
    assert!(matches!(s.next(Event::Done), Action::LoadRecipe));
    match s.next(Event::RecipeMissing) {
        Action::WriteRecipe(t) => {
            assert!(t.contains("[build]"));
            assert_eq!(t, "[build]\ncmd = \"\"");
        }
        other => panic!("unexpected {:?}", other),
    }
    assert!(matches!(s.next(Event::Done), Action::Exit(0)));
}

#[test]
fn deploy_runs_only_when_named() {
    let mut r = Recipe::new("true".to_string());
    r.add_custom("deploy".to_string(), "echo deploying".to_string(), false);
    let (spawned, _, code) = drive(&[], r);
    assert_eq!(spawned, vec![args(&["true"])]);
    assert_eq!(code, 0);
    let mut r = Recipe::new("true".to_string());
    r.add_custom("deploy".to_string(), "echo deploying".to_string(), false);
    let (spawned, _, code) = drive(&["deploy"], r);
    assert_eq!(spawned, vec![args(&["echo", "deploying"])]);
    assert_eq!(code, 0);
}

#[test]
fn empty_build_fails_before_hooks() {
    let mut r = Recipe::new(String::new());
    r.add_pre("hook".to_string(), "echo pre".to_string());
    let (spawned, seen, code) = drive(&[], r);
    assert!(spawned.is_empty());
    assert_eq!(code, 1);
    assert!(matches!(
        seen.last(),
        Some(Action::Fail(Fault::EmptyCommand(baker::recipe::Phase::Build)))
    ));
}

#[test]
fn empty_hook_fails_after_earlier_hooks() {
    let mut r = Recipe::new("echo build".to_string());
    r.add_pre("a".to_string(), "echo a".to_string());
    r.add_pre("b".to_string(), String::new());
    let (spawned, seen, code) = drive(&[], r);
    assert_eq!(spawned, vec![args(&["echo", "a"])]);
    assert_eq!(code, 1);
    assert!(matches!(
        seen.last(),
        Some(Action::Fail(Fault::EmptyCommand(baker::recipe::Phase::Pre)))
    ));
}

#[test]
fn blank_sub_command_fails_the_invocation() {
    let (spawned, seen, code) = drive(&[], Recipe::new("echo a && ".to_string()));
    assert!(spawned.is_empty());
    assert_eq!(code, 1);
    assert!(matches!(
        seen.last(),
        Some(Action::Fail(Fault::Expand(baker::command::ExpandError::EmptyProgram)))
    ));
}

#[test]
fn default_order_is_pre_build_marked_custom() {
    let mut r = Recipe::new("echo build".to_string());
    r.add_pre("p".to_string(), "echo pre".to_string());
    r.add_custom("c".to_string(), "echo custom".to_string(), true);
    r.add_custom("d".to_string(), "echo skipped".to_string(), false);
    let (spawned, seen, code) = drive(&[], r);
    assert_eq!(
        spawned,
        vec![args(&["echo", "pre"]), args(&["echo", "build"]), args(&["echo", "custom"])]
    );
    assert_eq!(code, 0);
    assert_eq!(seen.len(), 1);
}

#[test]
fn debug_announces_tasks() {
    let mut r = Recipe::new("echo hi".to_string());
    r.set_debug(true);
    let (spawned, seen, code) = drive(&[], r);
    assert_eq!(spawned, vec![args(&["echo", "hi"])]);
    assert_eq!(code, 0);
    assert!(matches!(&seen[1], Action::Begin(n) if n == "build"));
    assert!(matches!(&seen[2], Action::End(n) if n == "build"));
}

#[test]
fn commands_flag_lists_custom_names() {
    let mut r = Recipe::new("true".to_string());
    r.add_custom("b".to_string(), "x".to_string(), true);
    r.add_custom("a".to_string(), "y".to_string(), false);
    let (spawned, seen, code) = drive(&["-c"], r);
    assert!(spawned.is_empty());
    assert_eq!(code, 0);
    assert!(matches!(&seen[0], Action::ListTasks(v) if *v == args(&["b", "a"])));
}

#[test]
fn version_and_help_exit_zero() {
    let (_, seen, code) = drive(&["--version"], Recipe::new("true".to_string()));
    assert!(matches!(seen[0], Action::ShowVersion));
    assert_eq!(code, 0);
    let (_, seen, code) = drive(&["-h"], Recipe::new("true".to_string()));
    assert!(matches!(seen[0], Action::ShowHelp));
    assert_eq!(code, 0);
}

#[test]
fn invalid_recipe_fails() {
    let mut s = Session::new(args(&[]));
    s.next(Event::Done);
    assert!(matches!(
        s.next(Event::RecipeInvalid("bad".to_string())),
        Action::Fail(Fault::BadRecipe(_))
    ));
}
