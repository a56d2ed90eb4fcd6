use baker::command::{
    assemble_lines, command_words, expand_command, split_segments, split_words, ExpandError,
};

fn strs(v: &[&str]) -> Vec<String> {
    v.iter().map(|s| s.to_string()).collect()
}

#[test]
fn segments_split_on_double_ampersand() {
    assert_eq!(split_segments("a && b&&c"), strs(&["a ", " b", "c"]));
}

#[test]
fn segments_without_delimiter() {
    assert_eq!(split_segments("echo hi"), strs(&["echo hi"]));
    assert_eq!(split_segments(""), strs(&[""]));
}

#[test]
fn segments_match_from_the_left() {
    assert_eq!(split_segments("a&&&b"), strs(&["a", "&b"]));
    assert_eq!(split_segments("&&&&"), strs(&["", "", ""]));
    assert_eq!(split_segments("a & b"), strs(&["a & b"]));
}

#[test]
fn words_split_on_any_whitespace() {
    assert_eq!(split_words("  ls\t-l \n /tmp  "), strs(&["ls", "-l", "/tmp"]));
    assert_eq!(split_words("a\u{3000}b\u{a0}c"), strs(&["a", "b", "c"]));
    assert!(split_words("   ").is_empty());
}

#[test]
fn command_words_per_sub_command() {
    let cw = command_words("cargo build --release && echo done");
    assert_eq!(cw, vec![strs(&["cargo", "build", "--release"]), strs(&["echo", "done"])]);
}

#[test]
fn plain_command_expands_to_itself() {
    let v = expand_command("echo hi").unwrap();
    assert_eq!(v, vec![strs(&["echo", "hi"])]);
}

#[test]
fn sub_commands_keep_their_order() {
    let v = expand_command("echo one && echo two && echo three").unwrap();
    assert_eq!(
        v,
        vec![strs(&["echo", "one"]), strs(&["echo", "two"]), strs(&["echo", "three"])]
    );
}

#[test]
fn blank_sub_command_is_refused() {
    assert_eq!(expand_command("echo a && "), Err(ExpandError::EmptyProgram));
    assert_eq!(expand_command("   "), Err(ExpandError::EmptyProgram));
    assert_eq!(expand_command("&& ls"), Err(ExpandError::EmptyProgram));
}

#[test]
fn unset_variable_is_reported_by_name() {
    assert_eq!(
        expand_command("echo $BAKER_TEST_SURELY_UNSET_VARIABLE"),
        Err(ExpandError::Lookup("BAKER_TEST_SURELY_UNSET_VARIABLE".to_string()))
    );
}

#[test]
fn escaped_dollar_is_expanded() {
    let v = expand_command("echo $$").unwrap();
    assert_eq!(v, vec![strs(&["echo", "$"])]);
}

#[test]
fn default_value_is_used_for_unset_variable() {
    let v = expand_command("echo ${BAKER_TEST_SURELY_UNSET_VARIABLE:-fallback}").unwrap();
    assert_eq!(v, vec![strs(&["echo", "fallback"])]);
}

#[test]
fn tilde_in_the_middle_is_kept() {
    let v = expand_command("echo a~b").unwrap();
    assert_eq!(v, vec![strs(&["echo", "a~b"])]);
}

fn ok(s: &str) -> Result<String, String> {
    Ok(s.to_string())
}

fn err(s: &str) -> Result<String, String> {
    Err(s.to_string())
}

#[test]
fn assemble_keeps_expanded_values() {
    let got = vec![vec![ok("echo"), ok("bar")], vec![ok("/root/x")]];
    assert_eq!(
        assemble_lines(&got),
        Ok(vec![strs(&["echo", "bar"]), strs(&["/root/x"])])
    );
}

#[test]
fn assemble_reports_first_failed_lookup() {
    let got = vec![vec![ok(""), err("A")], vec![err("B")]];
    assert_eq!(assemble_lines(&got), Err(ExpandError::Lookup("A".to_string())));
    let got = vec![vec![ok("echo"), ok("x")], vec![ok("ls"), err("B"), err("C")]];
    assert_eq!(assemble_lines(&got), Err(ExpandError::Lookup("B".to_string())));
}

#[test]
fn assemble_refuses_empty_program() {
    let got = vec![vec![ok("echo")], vec![ok(""), ok("arg")]];
    assert_eq!(assemble_lines(&got), Err(ExpandError::EmptyProgram));
    let got = vec![vec![ok("echo")], vec![]];
    assert_eq!(assemble_lines(&got), Err(ExpandError::EmptyProgram));
}

#[test]
fn assemble_of_nothing_is_empty() {
    let got: Vec<Vec<Result<String, String>>> = vec![];
    assert_eq!(assemble_lines(&got), Ok(vec![]));
}

#[test]
fn leading_tilde_becomes_home() {
    let v = expand_command("ls ~/x").unwrap();
    assert_eq!(v.len(), 1);
    assert_eq!(v[0][0], "ls");
    assert_ne!(v[0][1], "~/x");
    assert!(v[0][1].ends_with("/x"));
}

#[test]
fn braced_variable_with_default_expands() {
    let v = expand_command("${BAKER_TEST_SURELY_UNSET_VARIABLE:-printf} %s").unwrap();
    assert_eq!(v, vec![strs(&["printf", "%s"])]);
}
