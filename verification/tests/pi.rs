use pi_command_not_found_adapter::ask::Event;
use pi_command_not_found_adapter::config::Config;
use pi_command_not_found_adapter::pi::{
    cancel_reply, pi_arguments, prompt_command, translate, Content, Delta, Incoming, Message,
};
use pi_command_not_found_adapter::protocol::JsonValue;

#[test]
fn commands_are_json_with_sorted_keys() {
    assert_eq!(
        prompt_command("say \"hi\"\n"),
        r#"{"message":"say \"hi\"\n","type":"prompt"}"#
    );
    assert_eq!(
        cancel_reply("req-1"),
        r#"{"cancelled":true,"id":"req-1","type":"extension_ui_response"}"#
    );
}

fn bytes(args: &[&str]) -> Vec<Vec<u8>> {
    args.iter().map(|a| a.as_bytes().to_vec()).collect()
}

#[test]
fn strings_are_escaped_as_serde_json_writes_them() {
    assert_eq!(
        prompt_command("a\u{1}\u{8}\u{c}\r\t\\/\u{7f}é"),
        "{\"message\":\"a\\u0001\\b\\f\\r\\t\\\\/\u{7f}é\",\"type\":\"prompt\"}"
    );
}

#[test]
fn the_session_file_is_passed_as_the_system_holds_it() {
    let args = pi_arguments(&Config::default(), b"/home/\xff/session.jsonl", "p");
    assert_eq!(args[4], b"/home/\xff/session.jsonl");
}

#[test]
fn pi_is_started_in_rpc_mode_with_the_settings() {
    let mut config = Config::default();
    assert_eq!(
        pi_arguments(&config, b"/s/session.jsonl", "PROMPT"),
        bytes(&[
            "--mode",
            "rpc",
            "--no-context-files",
            "--session",
            "/s/session.jsonl",
            "--append-system-prompt",
            "PROMPT",
        ])
    );
    config.model = Some("deepseek/x".to_string());
    config.thinking = Some("low".to_string());
    config.pi_args = vec!["--verbose".to_string(), "two words".to_string()];
    assert_eq!(
        pi_arguments(&config, b"f", "p"),
        bytes(&[
            "--mode",
            "rpc",
            "--no-context-files",
            "--session",
            "f",
            "--append-system-prompt",
            "p",
            "--model",
            "deepseek/x",
            "--thinking",
            "low",
            "--verbose",
            "two words",
        ])
    );
}

fn part(kind: &str, text: &str) -> Content {
    Content { kind: Some(kind.to_string()), text: Some(text.to_string()) }
}

fn assistant(parts: Vec<Content>, error: Option<&str>) -> Message {
    Message {
        role: Some("assistant".to_string()),
        content: Some(parts),
        error_message: error.map(str::to_string),
    }
}

#[test]
fn a_message_keeps_only_its_text_parts() {
    let message = assistant(vec![part("text", "a"), part("thinking", "hmm"), part("text", "b")], None);
    assert_eq!(message.text(), "ab");
    let empty = Message { role: None, content: None, error_message: None };
    assert_eq!(empty.text(), "");
}

#[test]
fn assistant_messages_become_texts_or_errors() {
    let text = translate(Incoming::MessageEnd {
        message: Some(assistant(vec![part("text", "the answer")], Some("ignored"))),
    });
    assert!(matches!(text.event, Some(Event::Text(ref t)) if t == "the answer"));
    assert!(text.reply.is_none());

    let error = translate(Incoming::MessageEnd {
        message: Some(assistant(vec![part("text", "  \n")], Some("rate limited"))),
    });
    assert!(matches!(error.event, Some(Event::Error(ref e)) if e == "rate limited"));

    let user = Message {
        role: Some("user".to_string()),
        content: Some(vec![part("text", "cowsay")]),
        error_message: None,
    };
    assert!(translate(Incoming::MessageEnd { message: Some(user) }).event.is_none());
    assert!(translate(Incoming::MessageEnd { message: None }).event.is_none());
}

#[test]
fn the_prompt_response_is_the_ack_and_a_rejection_fails() {
    let ok = translate(Incoming::Response {
        command: "prompt".to_string(),
        success: true,
        error: None,
    });
    assert!(matches!(ok.event, Some(Event::Acked)));
    let other = translate(Incoming::Response {
        command: "abort".to_string(),
        success: true,
        error: None,
    });
    assert!(other.event.is_none());
    let rejected = translate(Incoming::Response {
        command: "prompt".to_string(),
        success: false,
        error: Some("busy".to_string()),
    });
    assert!(matches!(rejected.event, Some(Event::Failed(ref e)) if e == "pi rejected prompt: busy"));
    let silent = translate(Incoming::Response {
        command: "prompt".to_string(),
        success: false,
        error: None,
    });
    assert!(matches!(silent.event, Some(Event::Failed(ref e)) if e == "pi rejected prompt: no error given"));
}

#[test]
fn dialogs_are_cancelled_and_notices_ignored() {
    let dialog = translate(Incoming::ExtensionUiRequest {
        id: "42".to_string(),
        method: "confirm".to_string(),
    });
    assert!(dialog.event.is_none());
    assert_eq!(
        dialog.reply.as_deref(),
        Some(r#"{"cancelled":true,"id":"42","type":"extension_ui_response"}"#)
    );
    let notice = translate(Incoming::ExtensionUiRequest {
        id: "43".to_string(),
        method: "notify".to_string(),
    });
    assert!(notice.event.is_none());
    assert!(notice.reply.is_none());
}

#[test]
fn tools_thinking_and_settling_are_forwarded() {
    let tool = translate(Incoming::ToolExecutionStart { tool_name: None, args: None });
    assert!(matches!(tool.event, Some(Event::Tool { ref name, args: JsonValue::Other }) if name == "?"));
    let thinking = translate(Incoming::MessageUpdate {
        event: Some(Delta { kind: Some("thinking_start".to_string()) }),
    });
    assert!(matches!(thinking.event, Some(Event::Thinking)));
    let delta = translate(Incoming::MessageUpdate {
        event: Some(Delta { kind: Some("text_delta".to_string()) }),
    });
    assert!(delta.event.is_none());
    assert!(matches!(translate(Incoming::AgentSettled).event, Some(Event::Settled)));
    let other = translate(Incoming::Other);
    assert!(other.event.is_none() && other.reply.is_none());
}
