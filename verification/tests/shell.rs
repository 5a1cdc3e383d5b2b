use pi_command_not_found_adapter::shell::{
    command_line, deliver, exit_status, failure_status, quote,
};

#[test]
fn quotes_only_what_needs_it() {
    assert_eq!(quote("ls"), "ls");
    assert_eq!(quote("a-b/c.d"), "a-b/c.d");
    assert_eq!(quote("a b"), "'a b'");
    assert_eq!(quote("it's"), "'it'\\''s'");
    assert_eq!(quote(""), "''");
}

#[test]
fn joins_words() {
    let words = ["cowsay".to_string(), "hello world".to_string()];
    assert_eq!(command_line(&words), "cowsay 'hello world'");
}

#[test]
fn an_empty_command_line_is_empty() {
    assert_eq!(command_line(&[]), "");
    assert_eq!(command_line(&["ls".to_string()]), "ls");
}

#[test]
fn a_ctrl_c_hands_the_shell_nothing() {
    let delivery = deliver("note", "echo hi", true);
    assert_eq!(delivery.status, 130);
    assert!(delivery.source.is_none());
    assert!(!delivery.gap);
}

#[test]
fn the_source_is_handed_over_unchanged() {
    let delivery = deliver("note", "  echo hi\n", false);
    assert_eq!(delivery.status, 0);
    assert_eq!(delivery.source.as_deref(), Some("  echo hi\n"));
    assert!(delivery.gap);

    let delivery = deliver("", "echo hi", false);
    assert!(!delivery.gap);
}

#[test]
fn an_empty_answer_still_succeeds() {
    let delivery = deliver("just a note", " \n\t", false);
    assert_eq!(delivery.status, 0);
    assert!(delivery.source.is_none());
    assert!(!delivery.gap);
}

#[test]
fn statuses_are_clamped() {
    assert_eq!(exit_status(-3), 0);
    assert_eq!(exit_status(1), 1);
    assert_eq!(exit_status(300), 255);
    assert_eq!(failure_status(true), 130);
    assert_eq!(failure_status(false), 1);
}
