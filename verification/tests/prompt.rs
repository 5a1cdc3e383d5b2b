use pi_command_not_found_adapter::ask::ARGUMENT_KEYS;
use pi_command_not_found_adapter::prompt::{retry_prompt, system_prompt, BASE_PROMPT, HISTORY_PROMPT};

const INPUT_SCHEMA: &str = "{\n  \"properties\": {\n    \"session_id\": {\"type\": \"string\"}\n  }\n}";
const ANSWER_SCHEMA: &str = "{\n  \"properties\": {\n    \"markdown\": {\"type\": [\"string\", \"null\"]}\n  }\n}";

fn prompts() -> Vec<(String, Result<String, String>)> {
    Vec::new()
}

fn read(path: &str, text: &str) -> (String, Result<String, String>) {
    (path.to_string(), Ok(text.to_string()))
}

#[test]
fn the_prompt_lists_every_argument_key() {
    let prompt = BASE_PROMPT;
    for key in ARGUMENT_KEYS {
        assert!(prompt.contains(key), "prompts/base.md does not name {key}");
    }
}

#[test]
fn prompt_has_fixed_parts_and_both_schemas() {
    let prompt = system_prompt(&prompts(), INPUT_SCHEMA, ANSWER_SCHEMA).unwrap();
    assert!(prompt.contains("## Sessions"));
    assert!(prompt.contains("## Input schema"));
    assert!(prompt.contains("## Answer schema"));
    assert!(prompt.contains("\"markdown\""));
    assert!(prompt.contains("\"session_id\""));
}

#[test]
fn prompt_is_the_same_for_every_session() {
    let first = system_prompt(&prompts(), INPUT_SCHEMA, ANSWER_SCHEMA).unwrap();
    let second = system_prompt(&prompts(), INPUT_SCHEMA, ANSWER_SCHEMA).unwrap();
    assert_eq!(first, second);
    assert!(!first.contains("{state_dir}"));
    assert!(!first.contains("{session_file}"));
}

#[test]
fn external_prompt_replaces_the_base_only() {
    let prompt = system_prompt(&[read("one", "# custom agent\n")], INPUT_SCHEMA, ANSWER_SCHEMA).unwrap();
    assert!(prompt.starts_with("# custom agent"));
    assert!(prompt.contains("## Sessions"));
    assert!(!prompt.contains("The shell's command-not-found handler"));
}

#[test]
fn several_prompts_are_concatenated_in_order() {
    let prompt = system_prompt(
        &[read("first", "# first\n"), read("second", "# second\n")],
        INPUT_SCHEMA,
        ANSWER_SCHEMA,
    )
    .unwrap();
    assert!(prompt.starts_with("# first\n\n# second"), "{prompt}");
    assert!(!prompt.contains("The shell's command-not-found handler"));
}

#[test]
fn a_missing_prompt_file_is_an_error() {
    let missing = (
        "/nonexistent-prompt".to_string(),
        Err("No such file or directory (os error 2)".to_string()),
    );
    assert!(system_prompt(&[missing], INPUT_SCHEMA, ANSWER_SCHEMA).is_err());
}

#[test]
fn the_read_error_names_the_file() {
    let files = vec![
        read("/a.md", "a"),
        ("/b.md".to_string(), Err("denied".to_string())),
        ("/c.md".to_string(), Err("gone".to_string())),
    ];
    assert_eq!(
        system_prompt(&files, INPUT_SCHEMA, ANSWER_SCHEMA).unwrap_err(),
        "cannot read /b.md: denied"
    );
}

#[test]
fn the_prompt_is_assembled_exactly() {
    let prompt = system_prompt(&[read("p", "base  \n\n")], "I", "A").unwrap();
    let expected = format!(
        "base\n{HISTORY_PROMPT}\n## Input schema\n\n```json\nI\n```\n\n## Answer schema\n\n```json\nA\n```\n"
    );
    assert_eq!(prompt, expected);
    let builtin = system_prompt(&prompts(), "I", "A").unwrap();
    assert!(builtin.starts_with(BASE_PROMPT.trim_end()));
}

#[test]
fn retry_prompt_mentions_reason() {
    assert!(retry_prompt("missing field").contains("missing field"));
    assert_eq!(
        retry_prompt("x"),
        "Your previous message did not contain a valid answer JSON object (x). Reply with exactly one JSON object matching the answer schema, and nothing else."
    );
}
