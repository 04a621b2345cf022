use litert_lm::{
    c_string_bytes, check_c_string, created, fallback_choice, outgoing_message, BackendChoice, choose_backends, conversation_reply, conversation_setup,
    extract_json_text_field, generated_text, json_encode_string, settings_request,
    settings_updates, strip_gemma_quote_tokens, user_message_json, ActivationDataType, Backend,
    CallOutcome, EngineConfig, Error, Failure, Response, SettingsUpdate,
};

fn reply_with_text(text: &str) -> String {
    format!(
        r#"{{"role":"assistant","content":[{{"type":"text","text":{}}}]}}"#,
        json_encode_string(text)
    )
}

#[test]
fn encode_escapes_control_characters_in_hex() {
    assert_eq!(json_encode_string("\u{1}"), "\"\\u0001\"");
    assert_eq!(json_encode_string("\u{1f}x"), "\"\\u001fx\"");
    assert_eq!(json_encode_string("\u{8}"), "\"\\u0008\"");
}

#[test]
fn encode_escapes_backslash_tab_and_carriage_return() {
    assert_eq!(json_encode_string("a\\b"), "\"a\\\\b\"");
    assert_eq!(json_encode_string("\t\r"), "\"\\t\\r\"");
    assert_eq!(json_encode_string(""), "\"\"");
    assert_eq!(json_encode_string("héllo ✓"), "\"héllo ✓\"");
}

#[test]
fn text_written_by_the_encoder_is_read_back() {
    for text in [
        "hello",
        "say \"hi\"\nthen\tgo\r",
        "a: \"text\":\"b\"",
        "ünïcödé ✓",
        "",
        "C:\\new\\table \\\" \\",
    ] {
        let json = reply_with_text(text);
        assert_eq!(extract_json_text_field(&json), text, "json: {}", json);
    }
}

#[test]
fn extract_reads_the_last_text_field() {
    let json = r#"{"content":[{"type":"text","text":"first"},{"type":"text","text":"second"}]}"#;
    assert_eq!(extract_json_text_field(json), "second");
}

#[test]
fn extract_reads_escapes_left_to_right() {
    // An escaped backslash followed by `n` is a backslash and an `n`.
    assert_eq!(extract_json_text_field(r#"{"text":"a\\nb"}"#), "a\\nb");
    assert_eq!(extract_json_text_field(r#"{"text":"a\\b"}"#), "a\\b");
    assert_eq!(extract_json_text_field(r#"{"text":"a\nb\t\"c\r"}"#), "a\nb\t\"c\r");
    // Escapes other than the five short ones are kept as written.
    assert_eq!(extract_json_text_field(r#"{"text":"x\u0041\/"}"#), "x\\u0041\\/");
}

#[test]
fn extract_without_closing_quote_reads_to_the_end() {
    assert_eq!(extract_json_text_field(r#"{"text":"open"#), "open");
}

#[test]
fn strip_removes_both_token_forms() {
    assert_eq!(strip_gemma_quote_tokens(r#"a<|\"|>b<|"|>c"#), "abc");
    assert_eq!(strip_gemma_quote_tokens("clean"), "clean");
}

#[test]
fn strip_is_a_single_pass_per_form() {
    assert_eq!(strip_gemma_quote_tokens(r#"<|<|"|>"|>"#), r#"<|"|>"#);
}

#[test]
fn response_without_tokens_is_kept() {
    let raw = r#"{"content":[{"type":"text","text":"plain"}]}"#;
    let r = Response::new(raw.to_string());
    assert_eq!(r.json(), raw);
}

#[test]
fn response_display_prefers_text() {
    let r = Response::new(reply_with_text("hi there"));
    assert_eq!(r.to_string(), "hi there");
    let tool = r#"{"tool_calls":[{"type":"function"}]}"#;
    let r2 = Response::new(tool.to_string());
    assert_eq!(r2.to_string(), tool);
}

#[test]
fn response_text_overrun_is_detected() {
    let r = Response::new(r#"{"text":"abc\"#.to_string());
    assert!(r.text_overruns());
    let r2 = Response::new(r#"{"text":"abc\\"}"#.to_string());
    assert!(!r2.text_overruns());
    let r3 = Response::new("{}".to_string());
    assert!(!r3.text_overruns());
    assert!(r3.text().is_none());
}

#[test]
fn tool_calls_key_must_be_quoted() {
    assert!(!Response::new(r#"{"tool_callsx":1}"#.to_string()).has_tool_calls());
    assert!(!Response::new("tool_calls".to_string()).has_tool_calls());
    assert!(Response::new(r#"{"a":1,"tool_calls":[]}"#.to_string()).has_tool_calls());
}

#[test]
fn error_accessors() {
    let e = Error::new("boom");
    assert_eq!(e.message(), "boom");
    let e2 = Error::from_string(String::from("bang"));
    assert_eq!(e2.to_string(), "LiteRT-LM: bang");
}

#[test]
fn failure_messages() {
    assert_eq!(Error::from_failure(Failure::EngineSettings).message(), "Failed to create engine settings");
    assert_eq!(Failure::Engine.message(), "Failed to create engine");
    assert_eq!(Failure::Session.message(), "Failed to create session");
    assert_eq!(Failure::GenerateContent.message(), "Failed to generate content");
    assert_eq!(Failure::NoResponseGenerated.message(), "No response generated");
    assert_eq!(Failure::BenchmarkInfo.message(), "Failed to get benchmark info");
    assert_eq!(Failure::ConversationConfig.message(), "Failed to create conversation config");
    assert_eq!(Failure::Conversation.message(), "Failed to create conversation");
    assert_eq!(Failure::SendMessage.message(), "Failed to send message");
    assert_eq!(Failure::NoConversationResponse.message(), "No response from conversation");
}

#[test]
fn c_string_check_reports_first_nul_byte() {
    assert!(check_c_string("fine", "prompt").is_ok());
    let e = check_c_string("a\0b\0", "prompt").unwrap_err();
    assert_eq!(e.message(), "Invalid prompt: nul byte found in provided data at position: 1");
    let e = check_c_string("é\0", "x").unwrap_err();
    assert_eq!(e.message(), "Invalid x: nul byte found in provided data at position: 2");
    let e = check_c_string("0123456789ab\0", "message json").unwrap_err();
    assert_eq!(
        e.message(),
        "Invalid message json: nul byte found in provided data at position: 12"
    );
    let e = check_c_string("\0", "y").unwrap_err();
    assert_eq!(e.message(), "Invalid y: nul byte found in provided data at position: 0");
}

#[test]
fn user_message_wraps_encoded_text() {
    assert_eq!(user_message_json("What is 2 + 2?"), r#"{"role":"user","content":"What is 2 + 2?"}"#);
    assert_eq!(user_message_json("say \"hi\"\n"), r#"{"role":"user","content":"say \"hi\"\n"}"#);
}

#[test]
fn backends_default_to_platform_and_vision_follows_main() {
    let config = EngineConfig::default();
    let gpu = choose_backends(&config, true);
    assert_eq!(gpu.main, Backend::Gpu);
    assert_eq!(gpu.vision, Some(Backend::Gpu));
    assert_eq!(gpu.audio, None);
    let cpu = choose_backends(&config, false);
    assert_eq!(cpu.main, Backend::Cpu);
    assert_eq!(cpu.vision, Some(Backend::Cpu));
}

#[test]
fn configured_backends_win() {
    let mut config = EngineConfig::default();
    config.backend = Some(Backend::Cpu);
    config.vision_backend = Some(Backend::Gpu);
    config.audio_backend = Some(Backend::Cpu);
    let choice = choose_backends(&config, true);
    assert_eq!(choice.main, Backend::Cpu);
    assert_eq!(choice.vision, Some(Backend::Gpu));
    assert_eq!(choice.audio, Some(Backend::Cpu));
}

#[test]
fn settings_request_names_backends() {
    let mut config = EngineConfig::default();
    config.audio_backend = Some(Backend::Cpu);
    let choice = choose_backends(&config, true);
    let request = settings_request("model.litertlm", &choice).unwrap();
    assert_eq!(request.model_path, "model.litertlm");
    assert_eq!(request.backend, "gpu");
    assert_eq!(request.vision_backend.as_deref(), Some("gpu"));
    assert_eq!(request.audio_backend.as_deref(), Some("cpu"));
    let err = settings_request("bad\0path", &choice).unwrap_err();
    assert_eq!(err.message(), "Invalid model path: nul byte found in provided data at position: 3");
}

#[test]
fn settings_updates_follow_config_in_order() {
    let none = settings_updates(&EngineConfig::default()).unwrap();
    assert!(none.is_empty());
    let mut config = EngineConfig::default();
    config.enable_speculative_decoding = Some(true);
    config.cache_dir = Some(String::from("/tmp/cache"));
    config.activation_data_type = Some(ActivationDataType::F16);
    config.max_num_tokens = Some(4096);
    let updates = settings_updates(&config).unwrap();
    assert_eq!(
        updates,
        vec![
            SettingsUpdate::MaxNumTokens(4096),
            SettingsUpdate::ActivationDataType(1),
            SettingsUpdate::CacheDir(String::from("/tmp/cache")),
            SettingsUpdate::EnableSpeculativeDecoding(true),
        ]
    );
    config.cache_dir = Some(String::from("/tmp\0"));
    let err = settings_updates(&config).unwrap_err();
    assert_eq!(err.message(), "Invalid cache dir: nul byte found in provided data at position: 4");
}

#[test]
fn activation_codes() {
    assert_eq!(ActivationDataType::F32.code(), 0);
    assert_eq!(ActivationDataType::F16.code(), 1);
    assert_eq!(ActivationDataType::I16.code(), 2);
    assert_eq!(ActivationDataType::I8.code(), 3);
}

#[test]
fn conversation_setup_constrains_decoding_with_tools() {
    let plain = conversation_setup(Some("You are helpful."), None).unwrap();
    assert_eq!(plain.system_message.as_deref(), Some("You are helpful."));
    assert_eq!(plain.tools_json, None);
    assert!(!plain.constrained_decoding);
    let tools = conversation_setup(None, Some("[]")).unwrap();
    assert_eq!(tools.tools_json.as_deref(), Some("[]"));
    assert!(tools.constrained_decoding);
}

#[test]
fn conversation_setup_checks_system_message_first() {
    let err = conversation_setup(Some("a\0"), Some("\0")).unwrap_err();
    assert_eq!(err.message(), "Invalid system_message: nul byte found in provided data at position: 1");
    let err = conversation_setup(Some("a"), Some("\0")).unwrap_err();
    assert_eq!(err.message(), "Invalid tools_json: nul byte found in provided data at position: 0");
}

#[test]
fn conversation_reply_outcomes() {
    assert_eq!(
        conversation_reply(CallOutcome::NoResult).unwrap_err().message(),
        "Failed to send message"
    );
    assert_eq!(
        conversation_reply(CallOutcome::NoText).unwrap_err().message(),
        "No response from conversation"
    );
    let r = conversation_reply(CallOutcome::Text(String::from(r#"{"q":"<|"|>x<|"|>"}"#))).unwrap();
    assert_eq!(r.json(), r#"{"q":"x"}"#);
}

#[test]
fn generated_text_outcomes() {
    assert_eq!(generated_text(CallOutcome::NoResult).unwrap_err().message(), "Failed to generate content");
    assert_eq!(generated_text(CallOutcome::NoText).unwrap_err().message(), "No response generated");
    assert_eq!(generated_text(CallOutcome::Text(String::from("haiku"))).unwrap(), "haiku");
}

#[test]
fn apple_falls_back_to_cpu_after_gpu_failure() {
    let config = EngineConfig::default();
    let gpu = choose_backends(&config, true);
    let retry = fallback_choice(&config, true, &gpu).unwrap();
    assert_eq!(retry, BackendChoice { main: Backend::Cpu, vision: Some(Backend::Cpu), audio: None });
    assert_eq!(fallback_choice(&config, false, &gpu), None);
    assert_eq!(fallback_choice(&config, true, &retry), None);
}

#[test]
fn fallback_keeps_configured_vision_and_audio() {
    let mut config = EngineConfig::default();
    config.vision_backend = Some(Backend::Gpu);
    config.audio_backend = Some(Backend::Cpu);
    let gpu = choose_backends(&config, true);
    let retry = fallback_choice(&config, true, &gpu).unwrap();
    assert_eq!(retry.main, Backend::Cpu);
    assert_eq!(retry.vision, Some(Backend::Gpu));
    assert_eq!(retry.audio, Some(Backend::Cpu));
    config.backend = Some(Backend::Gpu);
    assert_eq!(fallback_choice(&config, true, &gpu), None);
}

#[test]
fn created_reports_null_results() {
    assert!(created(false, Failure::Session).is_ok());
    assert_eq!(created(true, Failure::Session).unwrap_err().message(), "Failed to create session");
    assert_eq!(
        created(true, Failure::ConversationConfig).unwrap_err().message(),
        "Failed to create conversation config"
    );
}

#[test]
fn c_string_bytes_end_with_one_nul() {
    assert_eq!(c_string_bytes("hé", "x").unwrap(), vec![b'h', 0xc3, 0xa9, 0]);
    assert_eq!(c_string_bytes("", "x").unwrap(), vec![0]);
    assert_eq!(
        c_string_bytes("a\0", "x").unwrap_err().message(),
        "Invalid x: nul byte found in provided data at position: 1"
    );
}

#[test]
fn outgoing_message_passes_json_unchanged() {
    let json = r#"[{"role":"tool","content":{"temp":22}}]"#;
    let mut expected = json.as_bytes().to_vec();
    expected.push(0);
    assert_eq!(outgoing_message(json).unwrap(), expected);
    assert_eq!(
        outgoing_message("{\0}").unwrap_err().message(),
        "Invalid message json: nul byte found in provided data at position: 1"
    );
}
