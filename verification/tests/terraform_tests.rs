use elasticlab::terraform::{aws_state_text, dummy_provider, init_action, plan_changes, InitAction};

#[test]
fn plan_without_changes_shows_nothing() {
    assert_eq!(plan_changes("Refreshing...\n\nNo changes. Infrastructure is up-to-date.\n"), "");
}

#[test]
fn short_plan_is_shown_whole() {
    assert_eq!(plan_changes("a\nb\nc\n"), "a\nb\nc\n");
    assert_eq!(plan_changes("one line"), "one line");
    assert_eq!(plan_changes(""), "");
}

#[test]
fn long_plan_drops_last_six_lines() {
    assert_eq!(plan_changes("l1\nl2\nl3\nl4\nl5\nl6\nl7\nl8\n"), "l1\nl2\n");
    assert_eq!(plan_changes("l1\nl2\nl3\nl4\nl5\nl6\nl7"), "l1\n");
    assert_eq!(plan_changes("l1\r\nl2\r\nl3\r\nl4\r\nl5\r\nl6\r\nl7\r\n"), "l1\n");
    assert_eq!(plan_changes("l1\nl2\nl3\nl4\nl5\nl6\n"), "");
}

#[test]
fn plan_changes_follows_lines() {
    let out = "+ create\n\n  ~ update\n\r\nx\ny\nz\nw\nv\nu\n";
    let lines: Vec<&str> = out.lines().collect();
    let mut expected = String::new();
    for l in lines.iter().take(lines.len() - 6) {
        expected.push_str(&(l.to_string() + "\n"));
    }
    assert_eq!(plan_changes(out), expected);
}

#[test]
fn aws_state_needs_more_than_thirteen_bytes() {
    assert_eq!(aws_state_text(""), "No state.\n");
    assert_eq!(aws_state_text("aaaaaaaaaaaaa"), "No state.\n");
    assert_eq!(aws_state_text("aaaaaaaaaaaaaa"), "aaaaaaaaaaaaaa");
    assert_eq!(aws_state_text("ééééééé"), "ééééééé");
    assert_eq!(aws_state_text("éééééé"), "No state.\n");
}

#[test]
fn init_action_decides() {
    assert_eq!(init_action(true, false), InitAction::AlreadyInitialized);
    assert_eq!(init_action(true, true), InitAction::AlreadyInitialized);
    assert_eq!(init_action(false, true), InitAction::Initialize { with_dummy: false });
    assert_eq!(init_action(false, false), InitAction::Initialize { with_dummy: true });
}

#[test]
fn dummy_provider_names_aws() {
    assert_eq!(dummy_provider(), "provider \"aws\" {}");
}
