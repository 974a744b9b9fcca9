use tool_executor::internal::{
    accept_chunk, argument_request, capture_source, check_given_prompt, exceeds_limit,
    limit_error, required_argument_count, resolve_provider_args, trim_line_end, CaptureSource,
};

#[test]
fn resolve_provider_args_appends_prompt_when_missing_placeholder() {
    let args = vec!["--flag".into(), "--prompt".into()];
    let resolved = resolve_provider_args(&args, "hello");
    assert_eq!(resolved, vec!["--flag", "--prompt", "hello"]);
}

#[test]
fn resolve_provider_args_replaces_placeholder() {
    let args = vec!["--flag".into(), "{prompt}".into()];
    let resolved = resolve_provider_args(&args, "hi");
    assert_eq!(resolved, vec!["--flag", "hi"]);
}

#[test]
fn resolve_provider_args_replaces_inside_arguments() {
    let args = vec!["--message={prompt}!".to_string()];
    let resolved = resolve_provider_args(&args, "yo");
    assert_eq!(resolved, vec!["--message=yo!"]);
}

#[test]
fn required_argument_count_tracks_highest_unique_placeholder() {
    assert_eq!(required_argument_count("A {0} B {2} C {2}"), Some(3));
    assert_eq!(required_argument_count("no placeholders"), Some(0));
    assert_eq!(required_argument_count("{1}"), Some(2));
}

#[test]
fn exceeds_limit_counts_utf8_bytes() {
    assert!(!exceeds_limit("abc", 3));
    assert!(exceeds_limit("abcd", 3));
    assert!(exceeds_limit("é", 1));
    assert!(!exceeds_limit("é", 2));
}

#[test]
fn trim_line_end_strips_crlf() {
    assert_eq!(trim_line_end("value\r\n"), "value");
    assert_eq!(trim_line_end("answer"), "answer");
}

#[test]
fn read_reader_consumes_data_within_limit() {
    let mut buffer = Vec::new();
    accept_chunk(&mut buffer, b"payload", 16).expect("within limit");
    assert_eq!(String::from_utf8(buffer).unwrap(), "payload");
}

#[test]
fn read_reader_errors_when_limit_exceeded() {
    let mut buffer = Vec::new();
    let err = accept_chunk(&mut buffer, b"payload", 3).unwrap_err();
    assert!(err.contains("captured prompt exceeds configured limit"));
    assert!(buffer.is_empty());
}

#[test]
fn read_reader_errors_when_exceeding_limit() {
    let mut buffer = Vec::new();
    accept_chunk(&mut buffer, b"ab", 3).expect("first chunk fits");
    let err = accept_chunk(&mut buffer, b"cdef", 3).unwrap_err();
    assert!(err.contains("exceeds configured limit"));
    assert_eq!(buffer, b"ab".to_vec());
}

#[test]
fn run_pre_pipeline_errors_when_input_exceeds_limit() {
    let err = check_given_prompt("toolong", 3).unwrap_err();
    assert!(err.contains("exceeds configured limit"));
    assert_eq!(check_given_prompt("ok", 3).unwrap(), "ok");
}

#[test]
fn limit_error_names_the_limit() {
    assert_eq!(
        limit_error(4096),
        "captured prompt exceeds configured limit of 4096 bytes"
    );
}

#[test]
fn capture_source_prefers_pre_pipeline_then_handed_data() {
    assert_eq!(capture_source(true, true), CaptureSource::PrePipeline);
    assert_eq!(capture_source(false, true), CaptureSource::Given);
    assert_eq!(capture_source(false, false), CaptureSource::Stdin);
}

#[test]
fn argument_request_names_the_placeholder() {
    let text = argument_request("demo", 2);
    assert!(text.contains("placeholder {2}"));
    assert_eq!(text, "tx: prompt 'demo' requires a value for placeholder {2}");
}
