use diagweave::json::write_json_string;
use diagweave::options::StackTraceFilter;
use diagweave::stack_filter::{filtered_frames, is_internal_frame, is_std_or_runtime_frame, should_filter_frame, StackFrame};
use diagweave::values::{write_attachment_value, write_context_value, AttachmentValue, ContextValue, FloatRepr, JsonWriteError};

fn frame(module: &str) -> StackFrame {
    StackFrame { symbol: None, module: Some(module.to_string()), file: None, line: None, column: None }
}

#[test]
fn runtime_and_internal_frames() {
    assert!(is_std_or_runtime_frame(&frame("std::rt::lang_start")));
    assert!(is_std_or_runtime_frame(&frame("core::ops::function")));
    assert!(is_std_or_runtime_frame(&frame("my_app::rust_panic_handler")));
    assert!(!is_std_or_runtime_frame(&frame("my_app::main")));
    assert!(is_internal_frame(&frame("diagweave::report::builder")));
    assert!(is_internal_frame(&frame("my_app::reporting")));
    assert!(!is_internal_frame(&frame("my_app::main")));
    let no_module = StackFrame { symbol: Some("main".to_string()), module: None, file: None, line: Some(3), column: None };
    assert!(!should_filter_frame(&no_module, &StackTraceFilter::AppFocused));
}

#[test]
fn filters_keep_frames_in_order() {
    let frames = vec![frame("std::rt"), frame("my_app::main"), frame("diagweave::report"), frame("my_app::run")];
    let all: Vec<usize> = filtered_frames(&frames, &StackTraceFilter::All).iter().map(|p| p.0).collect();
    assert_eq!(all, vec![0, 1, 2, 3]);
    let app_only: Vec<usize> = filtered_frames(&frames, &StackTraceFilter::AppOnly).iter().map(|p| p.0).collect();
    assert_eq!(app_only, vec![1, 2, 3]);
    let focused: Vec<usize> = filtered_frames(&frames, &StackTraceFilter::AppFocused).iter().map(|p| p.0).collect();
    assert_eq!(focused, vec![1, 3]);
}

#[test]
fn json_strings_are_escaped() {
    let mut out = String::new();
    write_json_string(&mut out, "a\"b\\c\n\u{1}é");
    assert_eq!(out, "\"a\\\"b\\\\c\\n\\u0001é\"");
}

#[test]
fn context_values_as_json() {
    let mut out = String::new();
    assert!(write_context_value(&mut out, false, 0, &ContextValue::Integer(5)).is_ok());
    assert_eq!(out, r#"{"kind":"integer","value":5}"#);
    let mut out = String::new();
    assert!(write_context_value(&mut out, true, 0, &ContextValue::Integer(5)).is_ok());
    assert_eq!(out, "{\n  \"kind\": \"integer\",\n  \"value\": 5\n}");
    let mut out = String::new();
    assert!(write_context_value(&mut out, false, 0, &ContextValue::StringArray(vec!["a".to_string(), "b".to_string()])).is_ok());
    assert_eq!(out, r#"{"kind":"string_array","value":["a","b"]}"#);
    let mut out = String::new();
    assert!(write_context_value(&mut out, false, 0, &ContextValue::Bool(true)).is_ok());
    assert_eq!(out, r#"{"kind":"bool","value":true}"#);
}

#[test]
fn non_finite_floats_are_refused() {
    let mut out = String::new();
    let nan = ContextValue::Float(FloatRepr { finite: false, text: "NaN".to_string() });
    assert_eq!(write_context_value(&mut out, false, 0, &nan), Err(JsonWriteError));
    let mut out = String::new();
    let ok = ContextValue::Float(FloatRepr { finite: true, text: "2.5".to_string() });
    assert!(write_context_value(&mut out, false, 0, &ok).is_ok());
    assert_eq!(out, r#"{"kind":"float","value":2.5}"#);
}

#[test]
fn nested_attachment_json_fails_only_on_non_finite_float() {
    let inf = AttachmentValue::Float(FloatRepr { finite: false, text: "inf".to_string() });
    let deep = AttachmentValue::Object(vec![
        ("b".to_string(), AttachmentValue::Integer(1)),
        ("a".to_string(), AttachmentValue::Array(vec![AttachmentValue::Bool(true), inf])),
    ]);
    let mut out = String::new();
    assert_eq!(write_attachment_value(&mut out, false, 0, &deep), Err(JsonWriteError));

    let fine = AttachmentValue::Object(vec![
        ("b".to_string(), AttachmentValue::Integer(1)),
        ("a".to_string(), AttachmentValue::Array(vec![AttachmentValue::Float(FloatRepr { finite: true, text: "0.5".to_string() })])),
    ]);
    let mut out = String::new();
    assert_eq!(write_attachment_value(&mut out, false, 0, &fine), Ok(()));
    assert!(out.contains("0.5"));
}
