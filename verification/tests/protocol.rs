use pi_command_not_found_adapter::protocol::{
    answer_from, parse_answer, pick_answer, Answer, JsonValue, Member,
};

fn texts(body: &str) -> Vec<String> {
    vec![body.to_string()]
}

#[test]
fn parses_plain_object() {
    let answer = parse_answer(&texts(r#"{"markdown":"hi","source":"ls"}"#)).unwrap();
    assert_eq!(answer.markdown.as_deref(), Some("hi"));
    assert_eq!(answer.source.as_deref(), Some("ls"));
}

#[test]
fn parses_object_inside_prose_and_fences() {
    let body = "Sure, here it is:\n```json\n{\"markdown\":\"m\",\"source\":\"\"}\n```\n";
    let answer = parse_answer(&texts(body)).unwrap();
    assert_eq!(answer.markdown.as_deref(), Some("m"));
    assert_eq!(answer.source.as_deref(), Some(""));
}

#[test]
fn last_valid_object_wins() {
    let body = r#"{"markdown":"first","source":"a"} then {"markdown":"second","source":"b"}"#;
    let answer = parse_answer(&texts(body)).unwrap();
    assert_eq!(answer.markdown.as_deref(), Some("second"));
}

#[test]
fn accepts_one_field_only() {
    let answer = parse_answer(&texts(r#"{"markdown":"only"}"#)).unwrap();
    assert_eq!(answer.markdown.as_deref(), Some("only"));
    assert!(answer.source.is_none());

    let answer = parse_answer(&texts(r#"{"source":"ls"}"#)).unwrap();
    assert!(answer.markdown.is_none());
    assert_eq!(answer.source.as_deref(), Some("ls"));
}

#[test]
fn accepts_explicit_nulls() {
    let answer = parse_answer(&texts(r#"{"markdown":null,"source":"ls"}"#)).unwrap();
    assert!(answer.markdown.is_none());
}

#[test]
fn rejects_unrelated_json_objects() {
    let error = parse_answer(&texts(r#"{"other":1} plain text"#)).unwrap_err();
    assert!(error.contains("markdown"), "{error}");
}

#[test]
fn rejects_wrong_field_types() {
    let error = parse_answer(&texts(r#"{"source":42}"#)).unwrap_err();
    assert!(error.contains("invalid type"), "{error}");
}

#[test]
fn falls_back_to_earlier_text() {
    let texts = vec!["garbage".to_string(), r#"{"source":"x"}"#.to_string()];
    assert_eq!(parse_answer(&texts).unwrap().source.as_deref(), Some("x"));
}

fn member(key: &str, text: Result<Option<&str>, &str>) -> Member {
    Member {
        key: key.to_string(),
        text: text.map(|o| o.map(str::to_string)).map_err(str::to_string),
    }
}

#[test]
fn no_text_gives_the_default_reason() {
    assert_eq!(parse_answer(&[]).unwrap_err(), "no JSON object found");
    assert_eq!(
        parse_answer(&texts("no braces at all")).unwrap_err(),
        "no JSON object found"
    );
}

#[test]
fn a_value_that_is_not_an_object_is_not_an_answer() {
    assert_eq!(
        answer_from(&JsonValue::Other).unwrap_err(),
        "not a JSON object"
    );
    let error = parse_answer(&texts("{ not json")).unwrap_err();
    assert!(!error.is_empty());
}

#[test]
fn the_first_mistyped_answer_field_is_reported() {
    let value = JsonValue::Object(vec![
        member("source", Err("invalid type: integer `1`, expected a string")),
        member("markdown", Err("invalid type: boolean `true`, expected a string")),
    ]);
    assert_eq!(
        answer_from(&value).unwrap_err(),
        "invalid type: integer `1`, expected a string"
    );
}

#[test]
fn other_members_do_not_matter() {
    let value = JsonValue::Object(vec![
        member("other", Err("invalid type: integer `1`, expected a string")),
        member("markdown", Ok(Some("note"))),
        member("source", Ok(None)),
    ]);
    let answer = answer_from(&value).unwrap();
    assert_eq!(answer.markdown.as_deref(), Some("note"));
    assert!(answer.source.is_none());
}

#[test]
fn pick_keeps_the_last_answer_and_the_last_reason() {
    let answer = JsonValue::Object(vec![member("source", Ok(Some("a")))]);
    let later = JsonValue::Object(vec![member("source", Ok(Some("b")))]);
    let parsed = vec![
        Some(Ok(answer)),
        Some(Err("trailing characters".to_string())),
        Some(Ok(later)),
        Some(Ok(JsonValue::Other)),
        None,
    ];
    let picked: Answer = pick_answer(&parsed).unwrap();
    assert_eq!(picked.source.as_deref(), Some("b"));

    let failing = vec![Some(Err("eof".to_string())), Some(Ok(JsonValue::Other))];
    assert_eq!(pick_answer(&failing).unwrap_err(), "not a JSON object");
}

#[test]
fn a_stale_text_after_the_answer_does_not_hide_it() {
    let texts = vec![
        r#"{"markdown":"n","source":"echo hi"}"#.to_string(),
        "thinking about it".to_string(),
    ];
    assert_eq!(
        parse_answer(&texts).unwrap().source.as_deref(),
        Some("echo hi")
    );
}

#[test]
fn the_documented_answer_carries_source() {
    let both = parse_answer(&texts(r#"{"markdown":"note","source":"echo hi"}"#)).unwrap();
    assert_eq!(both.markdown.as_deref(), Some("note"));
    assert_eq!(both.source.as_deref(), Some("echo hi"));
    let only = parse_answer(&texts(r#"{"source":"echo hi"}"#)).unwrap();
    assert!(only.markdown.is_none());
    assert_eq!(only.source.as_deref(), Some("echo hi"));
    assert_eq!(
        parse_answer(&texts(r#"{"command":"echo hi"}"#)).unwrap_err(),
        "object has neither `markdown` nor `source`"
    );
}
