use litert_lm::{extract_json_text_field, json_encode_string, Backend, Error, Response};

#[test]
fn test_backend_enum() {
    assert_eq!(Backend::Cpu.as_str(), "cpu");
    assert_eq!(Backend::Gpu.as_str(), "gpu");
}

#[test]
fn test_error_display() {
    let err = Error::new("test error");
    assert_eq!(err.to_string(), "LiteRT-LM: test error");
}

#[test]
fn test_json_encode_string() {
    assert_eq!(json_encode_string("hello"), "\"hello\"");
    assert_eq!(json_encode_string("a\"b"), "\"a\\\"b\"");
    assert_eq!(json_encode_string("line\nnext"), "\"line\\nnext\"");
}

#[test]
fn test_extract_text_field() {
    let json = r#"{"role":"assistant","content":[{"type":"text","text":"2 + 2 is **4**."}]}"#;
    assert_eq!(extract_json_text_field(json), "2 + 2 is **4**.");
}

#[test]
fn test_extract_text_empty_on_tool_call() {
    let json = r#"{"tool_calls":[{"type":"function","function":{"name":"get_weather"}}]}"#;
    assert_eq!(extract_json_text_field(json), "");
}

#[test]
fn test_response_has_tool_calls() {
    let r = Response::new(r#"{"tool_calls":[{"type":"function"}]}"#.into());
    assert!(r.has_tool_calls());
    assert!(r.text().is_none());

    let r2 = Response::new(r#"{"content":[{"type":"text","text":"hello"}]}"#.into());
    assert!(!r2.has_tool_calls());
    assert_eq!(r2.text().unwrap(), "hello");
}

#[test]
fn test_gemma_quote_tokens_stripped() {
    // Tool-call string arguments come wrapped in <|\"|>...<|\"|>
    // (the \" is an escaped quote inside a JSON string value).
    let raw = r#"{"tool_calls":[{"function":{"name":"search","arguments":{"query":"<|\"|>hello<|\"|>"}}}]}"#;
    let r = Response::new(raw.into());
    assert!(r.json().contains(r#""query":"hello""#), "got: {}", r.json());
    assert!(
        !r.json().contains("<|"),
        "tokens not stripped: {}",
        r.json()
    );
}
