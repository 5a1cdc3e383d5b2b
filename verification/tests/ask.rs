use pi_command_not_found_adapter::ask::{
    exited_early, no_answer, summary, AskStep, Asking, Event, Failure, Received, Step, Turn, TurnEnd,
    TurnLoop,
};
use pi_command_not_found_adapter::protocol::{JsonValue, Member};

fn object(members: &[(&str, &str)]) -> JsonValue {
    JsonValue::Object(
        members
            .iter()
            .map(|(key, value)| Member {
                key: key.to_string(),
                text: Ok(Some(value.to_string())),
            })
            .collect(),
    )
}

#[test]
fn summarizes_known_argument_keys() {
    assert_eq!(summary(&object(&[("command", "ls  -l")])), "ls -l");
    assert_eq!(summary(&object(&[("path", "/tmp/a")])), "/tmp/a");
    assert_eq!(summary(&object(&[("pattern", "foo")])), "foo");
    assert_eq!(summary(&object(&[("other", "x")])), "");
    assert_eq!(summary(&JsonValue::Other), "");
}

#[test]
fn prefers_command_over_later_keys() {
    let args = object(&[("query", "q"), ("command", "c")]);
    assert_eq!(summary(&args), "c");
}

#[test]
fn an_empty_or_non_string_argument_is_skipped() {
    let args = JsonValue::Object(vec![
        Member { key: "command".to_string(), text: Ok(Some("   ".to_string())) },
        Member { key: "path".to_string(), text: Err("invalid type: integer `3`".to_string()) },
        Member { key: "pattern".to_string(), text: Ok(None) },
        Member { key: "url".to_string(), text: Ok(Some(" https://x\n y ".to_string())) },
    ]);
    assert_eq!(summary(&args), "https://x y");
}

fn turn(texts: &[&str], errors: &[&str]) -> Turn {
    Turn {
        texts: texts.iter().map(|t| t.to_string()).collect(),
        errors: errors.iter().map(|e| e.to_string()).collect(),
    }
}

#[test]
fn nothing_before_the_ack_belongs_to_the_turn() {
    let mut turn_loop = TurnLoop::new(600);
    let stale = turn_loop.step(Received::Event(Event::Text("stale".to_string())));
    assert!(matches!(stale, Step::Wait));
    let early = turn_loop.step(Received::Event(Event::Settled));
    assert!(matches!(early, Step::Wait));
    assert!(turn_loop.turn.texts.is_empty());

    assert!(matches!(turn_loop.step(Received::Event(Event::Acked)), Step::Wait));
    assert!(turn_loop.started);
    turn_loop.step(Received::Event(Event::Text("first".to_string())));
    turn_loop.step(Received::Event(Event::Error("overloaded".to_string())));
    turn_loop.step(Received::Event(Event::Text("second".to_string())));
    assert!(matches!(turn_loop.step(Received::Event(Event::Thinking)), Step::Think));
    assert!(matches!(turn_loop.step(Received::Event(Event::Settled)), Step::Settled));
    assert_eq!(turn_loop.turn.texts, ["first", "second"]);
    assert_eq!(turn_loop.turn.errors, ["overloaded"]);
}

#[test]
fn tool_calls_are_shown_with_their_argument() {
    let mut turn_loop = TurnLoop::new(10);
    turn_loop.step(Received::Event(Event::Acked));
    let step = turn_loop.step(Received::Event(Event::Tool {
        name: "bash".to_string(),
        args: object(&[("command", "nix  search cowsay")]),
    }));
    match step {
        Step::Tool { name, summary } => {
            assert_eq!(name, "bash");
            assert_eq!(summary, "nix search cowsay");
        }
        _ => panic!("expected a tool step"),
    }
}

#[test]
fn the_turn_loop_stops_on_its_own_reasons() {
    let mut turn_loop = TurnLoop::new(42);
    assert!(matches!(turn_loop.step(Received::Timeout { expired: false }), Step::Tick));
    match turn_loop.step(Received::Timeout { expired: true }) {
        Step::Failed(reason) => assert_eq!(reason, "pi did not settle within 42s"),
        _ => panic!("expected a failure"),
    }
    match turn_loop.step(Received::Disconnected) {
        Step::Failed(reason) => assert_eq!(reason, "pi stream closed"),
        _ => panic!("expected a failure"),
    }
    match turn_loop.step(Received::Event(Event::Failed("pi rejected prompt: busy".to_string()))) {
        Step::Failed(reason) => assert_eq!(reason, "pi rejected prompt: busy"),
        _ => panic!("expected a failure"),
    }
    assert!(matches!(turn_loop.step(Received::Event(Event::Closed)), Step::Exited));
    assert!(matches!(turn_loop.step(Received::Interrupted), Step::Interrupted));
    assert_eq!(exited_early("exit status: 1"), "pi exited early (exit status: 1)");
}

#[test]
fn an_answer_ends_the_asking() {
    let mut asking = Asking::new(2);
    match asking.after_turn(TurnEnd::Settled(turn(&[r#"{"markdown":"m","source":"ls"}"#], &[]))) {
        AskStep::Answered(answer) => {
            assert_eq!(answer.markdown.as_deref(), Some("m"));
            assert_eq!(answer.source.as_deref(), Some("ls"));
        }
        _ => panic!("expected an answer"),
    }
}

#[test]
fn a_turn_without_an_answer_is_asked_again_then_given_up() {
    let mut asking = Asking::new(1);
    match asking.after_turn(TurnEnd::Settled(turn(&["nope"], &["slow"]))) {
        AskStep::Send(message) => assert_eq!(
            message,
            "Your previous message did not contain a valid answer JSON object (no JSON object found). \
             Reply with exactly one JSON object matching the answer schema, and nothing else."
        ),
        _ => panic!("expected a retry"),
    }
    assert_eq!(asking.attempt, 1);
    match asking.after_turn(TurnEnd::Settled(turn(&["still nope"], &["down"]))) {
        AskStep::GaveUp(failure) => {
            assert_eq!(
                failure.reason,
                "pi did not return the expected answer JSON after 2 turns (no JSON object found)"
            );
            assert_eq!(failure.last_text.as_deref(), Some("still nope"));
            assert_eq!(failure.errors, ["slow", "down"]);
            assert_eq!(
                failure.message(),
                "pi did not return the expected answer JSON after 2 turns (no JSON object found): down"
            );
        }
        _ => panic!("expected to give up"),
    }
}

#[test]
fn an_interrupted_or_failed_turn_gives_up_at_once() {
    let mut asking = Asking::new(3);
    match asking.after_turn(TurnEnd::Interrupted) {
        AskStep::GaveUp(failure) => assert_eq!(failure.reason, "interrupted"),
        _ => panic!("expected to give up"),
    }
    let mut asking = Asking::new(3);
    match asking.after_turn(TurnEnd::Failed("pi stream closed".to_string())) {
        AskStep::GaveUp(failure) => {
            assert_eq!(failure.reason, "pi stream closed");
            assert_eq!(failure.message(), "pi stream closed");
        }
        _ => panic!("expected to give up"),
    }
}

#[test]
fn a_failure_message_names_the_last_error() {
    let failure = Failure {
        reason: "no answer".to_string(),
        last_text: None,
        errors: vec!["first".to_string(), "last".to_string()],
    };
    assert_eq!(failure.message(), "no answer: last");
}

#[test]
fn a_call_without_an_answer_shows_the_last_text_unless_interrupted() {
    let failure = Failure {
        reason: "pi stream closed".to_string(),
        last_text: Some("I think you want cowsay.".to_string()),
        errors: vec!["overloaded".to_string()],
    };
    let reported = no_answer(&failure, false);
    assert_eq!(reported.status, 1);
    assert_eq!(reported.note.as_deref(), Some("I think you want cowsay."));
    assert_eq!(reported.message.as_deref(), Some("pi stream closed: overloaded"));
    let interrupted = no_answer(&failure, true);
    assert_eq!(interrupted.status, 130);
    assert!(interrupted.note.is_none() && interrupted.message.is_none());
}
