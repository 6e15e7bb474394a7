use promptforge::json::JsonValue;
use promptforge::stream::{
    events_until_finished, parse_ollama_jsonl_chunk, take_line, OllamaEvent,
};

fn s(text: &str) -> String {
    text.to_string()
}

fn chunk_obj(response: Option<&str>, done: Option<bool>, error: Option<&str>) -> JsonValue {
    let mut fields: Vec<(String, JsonValue)> = Vec::new();
    if let Some(r) = response {
        fields.push((s("response"), JsonValue::Str(s(r))));
    }
    if let Some(d) = done {
        fields.push((s("done"), JsonValue::Bool(d)));
    }
    if let Some(e) = error {
        fields.push((s("error"), JsonValue::Str(s(e))));
    }
    JsonValue::Obj(fields)
}

#[test]
fn parse_chunk_events() {
    for (input, expected) in [
        // {"response":"Hel","done":false}
        (
            chunk_obj(Some("Hel"), Some(false), None),
            vec![OllamaEvent::Chunk(s("Hel"))],
        ),
        // {"response":"","done":true}
        (chunk_obj(Some(""), Some(true), None), vec![OllamaEvent::Done]),
        // {"error":"boom"}
        (chunk_obj(None, None, Some("boom")), vec![OllamaEvent::Error(s("boom"))]),
        // {"response":"Hi","done":true}
        (
            chunk_obj(Some("Hi"), Some(true), None),
            vec![OllamaEvent::Chunk(s("Hi")), OllamaEvent::Done],
        ),
    ] {
        assert_eq!(parse_ollama_jsonl_chunk(&input).unwrap(), expected);
    }
}

#[test]
fn malformed_messages_give_no_events() {
    assert_eq!(parse_ollama_jsonl_chunk(&JsonValue::Str(s("text"))), None);
    let wrong_done = JsonValue::Obj(vec![(s("done"), JsonValue::Str(s("yes")))]);
    assert_eq!(parse_ollama_jsonl_chunk(&wrong_done), None);
    let wrong_response = JsonValue::Obj(vec![(s("response"), JsonValue::Num(s("3")))]);
    assert_eq!(parse_ollama_jsonl_chunk(&wrong_response), None);
}

#[test]
fn a_null_error_field_reports_no_failure() {
    let msg = JsonValue::Obj(vec![
        (s("response"), JsonValue::Str(s("ok"))),
        (s("error"), JsonValue::Null),
    ]);
    assert_eq!(
        parse_ollama_jsonl_chunk(&msg).unwrap(),
        vec![OllamaEvent::Chunk(s("ok"))]
    );
}

#[test]
fn line_buffer_yields_trimmed_lines_in_order() {
    let mut buffer: Vec<u8> = b"first\r\nsecond\npartial".to_vec();
    assert_eq!(take_line(&mut buffer), Some(b"first".to_vec()));
    assert_eq!(take_line(&mut buffer), Some(b"second".to_vec()));
    // No full line is left: the partial tail stays in the buffer.
    assert_eq!(take_line(&mut buffer), None);
    assert_eq!(buffer, b"partial".to_vec());
}

#[test]
fn an_empty_line_comes_out_empty() {
    let mut buffer: Vec<u8> = b"\nrest".to_vec();
    assert_eq!(take_line(&mut buffer), Some(Vec::new()));
    assert_eq!(buffer, b"rest".to_vec());
}

#[test]
fn events_after_the_first_terminal_one_are_dropped() {
    let events = vec![
        OllamaEvent::Chunk(s("a")),
        OllamaEvent::Done,
        OllamaEvent::Chunk(s("late")),
    ];
    let (acted, finished) = events_until_finished(events);
    assert_eq!(acted, vec![OllamaEvent::Chunk(s("a")), OllamaEvent::Done]);
    assert!(finished);

    let open_ended = vec![OllamaEvent::Chunk(s("x"))];
    let (acted, finished) = events_until_finished(open_ended);
    assert_eq!(acted, vec![OllamaEvent::Chunk(s("x"))]);
    assert!(!finished);

    let failed = vec![OllamaEvent::Error(s("boom")), OllamaEvent::Done];
    let (acted, finished) = events_until_finished(failed);
    assert_eq!(acted, vec![OllamaEvent::Error(s("boom"))]);
    assert!(finished);
}
