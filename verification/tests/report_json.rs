use diagweave::chain_export::{ExportedSourceErrorChain, ExportedSourceErrorNode};
use diagweave::levels::TraceEventLevel;
use diagweave::metadata::ReportMetadata;
use diagweave::options::{ReportRenderOptions, StackTraceFilter};
use diagweave::report_json::{
    write_diag_bag, write_display_causes, write_error_object, write_metadata_object, write_source_error_object,
    write_source_errors_chain, write_stack_frame_object, write_stack_trace_object, write_trace_context_value,
    write_trace_event_value, write_trace_object, write_context_object, write_system_object,
    write_attachments_array, write_note_obj, write_payload_obj,
};
use diagweave::values::ContextValue;
use diagweave::report_model::Report;
use diagweave::stack_filter::{StackFrame, StackTrace};
use diagweave::trace_model::{ReportTrace, TraceContext, TraceEvent, TraceEventAttribute};
use diagweave::types::{CauseCollectOptions, Severity, StackTraceFormat};
use diagweave::values::{AttachmentValue, ErrorCode, FloatRepr, JsonWriteError};

fn s(v: &str) -> String {
    v.to_string()
}

fn frame(module: &str) -> StackFrame {
    StackFrame { symbol: None, module: Some(s(module)), file: None, line: None, column: None }
}

#[test]
fn error_and_metadata_objects() {
    let mut out = String::new();
    write_error_object(&mut out, false, 0, "boom", "my::Err");
    assert_eq!(out, r#"{"message":"boom","type":"my::Err"}"#);
    let m = ReportMetadata::new()
        .set_error_code(ErrorCode::Integer(7))
        .set_category(s("db"))
        .set_severity(Severity::Error);
    let mut out = String::new();
    write_metadata_object(&mut out, false, 0, &m);
    assert_eq!(out, r#"{"error_code":7,"severity":"error","category":"db"}"#);
    let mut out = String::new();
    write_metadata_object(&mut out, true, 0, &ReportMetadata::new());
    assert_eq!(out, "{}");
}

#[test]
fn source_error_chains() {
    let node = ExportedSourceErrorNode { message: s("m"), error_type: Some(s("T")), source_roots: vec![1, 2] };
    let mut out = String::new();
    write_source_error_object(&mut out, false, 0, &node);
    assert_eq!(out, r#"{"message":"m","type":"T","source_roots":[1,2]}"#);
    let chain = ExportedSourceErrorChain {
        roots: vec![0],
        nodes: vec![ExportedSourceErrorNode { message: s("m"), error_type: None, source_roots: vec![] }],
        truncated: false,
        cycle_detected: true,
    };
    let mut out = String::new();
    write_source_errors_chain(&mut out, false, 0, &chain);
    assert_eq!(out, r#"{"roots":[0],"nodes":[{"message":"m","source_roots":[]}],"truncated":false,"cycle_detected":true}"#);
}

#[test]
fn display_causes_section() {
    let mut out = String::new();
    write_display_causes(&mut out, false, 0, &[s("a"), s("b")], true, false);
    assert_eq!(out, r#"{"items":["a","b"],"truncated":true,"cycle_detected":false}"#);
}

#[test]
fn trace_sections() {
    let mut ctx = TraceContext::new();
    ctx.sampled = Some(true);
    let mut out = String::new();
    write_trace_context_value(&mut out, false, 0, &ctx);
    assert_eq!(out, r#"{"sampled":true}"#);
    let event = TraceEvent {
        name: s("e"),
        level: Some(TraceEventLevel::Warn),
        timestamp_unix_nano: Some(5),
        attributes: vec![TraceEventAttribute { key: s("k"), value: AttachmentValue::Integer(1) }],
    };
    let mut out = String::new();
    assert!(write_trace_event_value(&mut out, false, 0, &event, true).is_ok());
    assert_eq!(
        out,
        r#"{"name":"e","level":"warn","timestamp_unix_nano":5,"attributes":[{"key":"k","value":{"kind":"integer","value":1}}]}"#
    );
    let mut out = String::new();
    assert!(write_trace_event_value(&mut out, false, 0, &event, false).is_ok());
    assert_eq!(out, r#"{"name":"e"}"#);
    let bad = TraceEvent {
        name: s("e"),
        level: None,
        timestamp_unix_nano: None,
        attributes: vec![TraceEventAttribute { key: s("k"), value: AttachmentValue::Float(FloatRepr { finite: false, text: s("NaN") }) }],
    };
    let mut out = String::new();
    assert_eq!(write_trace_event_value(&mut out, false, 0, &bad, true), Err(JsonWriteError));
    let mut out = String::new();
    assert!(write_trace_object(&mut out, false, 0, &ReportTrace::new(), true).is_ok());
    assert_eq!(out, "{}");
    let trace = ReportTrace::new().with_event(TraceEvent { name: s("e"), level: None, timestamp_unix_nano: None, attributes: vec![] });
    let mut out = String::new();
    assert!(write_trace_object(&mut out, false, 0, &trace, false).is_ok());
    assert_eq!(out, r#"{"context":{},"events":[{"name":"e"}]}"#);
}

#[test]
fn stack_traces() {
    let f = StackFrame { symbol: Some(s("main")), module: Some(s("app")), file: None, line: Some(3), column: None };
    let mut out = String::new();
    write_stack_frame_object(&mut out, false, 0, &f);
    assert_eq!(out, r#"{"symbol":"main","module_path":"app","line":3}"#);
    let native = StackTrace::new(StackTraceFormat::Native).with_frames(vec![frame("std::rt"), frame("app::main"), frame("app::run")]);
    let mut out = String::new();
    write_stack_trace_object(&mut out, false, 0, &native, &StackTraceFilter::AppOnly, 1);
    assert_eq!(out, r#"{"format":"native","frames":[{"module_path":"app::main"}]}"#);
    let mut out = String::new();
    write_stack_trace_object(&mut out, false, 0, &native, &StackTraceFilter::All, 24);
    assert_eq!(
        out,
        r#"{"format":"native","frames":[{"module_path":"std::rt"},{"module_path":"app::main"},{"module_path":"app::run"}]}"#
    );
    let raw = StackTrace::new(StackTraceFormat::Raw).with_raw(s("bt"));
    let mut out = String::new();
    write_stack_trace_object(&mut out, false, 0, &raw, &StackTraceFilter::All, 24);
    assert_eq!(out, r#"{"format":"raw","raw":"bt"}"#);
}

#[test]
fn causes_are_collected_within_the_depth_limit() {
    let report = Report::new(s("my error")).with_display_cause(s("Cause 1")).with_display_cause(s("Cause 2"));
    let (visited, state) = report.collect_causes_ext(CauseCollectOptions { max_depth: 1, detect_cycle: true });
    assert_eq!(visited, vec![&s("Cause 1")]);
    assert!(state.truncated);
    let (visited, state) = report.collect_causes_ext(CauseCollectOptions { max_depth: 5, detect_cycle: true });
    assert_eq!(visited.len(), 2);
    assert!(!state.truncated && !state.cycle_detected);
}

#[test]
fn diagnostics_bag_sections() {
    let report = Report::new(s("e"))
        .set_stack_trace(StackTrace::new(StackTraceFormat::Raw).with_raw(s("bt")))
        .with_display_causes(vec![s("c1"), s("c2")]);
    let options = ReportRenderOptions { max_source_depth: 1, ..ReportRenderOptions::default() };
    let mut out = String::new();
    write_diag_bag(&mut out, false, 0, &report, &options, None, None);
    assert_eq!(
        out,
        r#"{"stack_trace":{"format":"raw","raw":"bt"},"display_causes":{"items":["c1"],"truncated":true,"cycle_detected":false}}"#
    );
    let hidden = ReportRenderOptions { show_stack_trace_section: false, show_cause_chains_section: false, ..ReportRenderOptions::default() };
    let mut out = String::new();
    write_diag_bag(&mut out, false, 0, &report, &hidden, None, None);
    assert_eq!(out, "{}");
}

#[test]
fn context_and_system_objects_are_listed_by_key() {
    let report = Report::new(s("e"))
        .with_ctx(s("zone"), ContextValue::String(s("eu")))
        .with_ctx(s("attempt"), ContextValue::Unsigned(3))
        .with_system(s("host"), ContextValue::Bool(true));
    let mut out = String::new();
    assert_eq!(write_context_object(&mut out, false, 0, &report), Ok(()));
    assert_eq!(
        out,
        r#"{"attempt":{"kind":"unsigned","value":3},"zone":{"kind":"string","value":"eu"}}"#
    );
    let mut out = String::new();
    assert_eq!(write_system_object(&mut out, false, 0, &report), Ok(()));
    assert_eq!(out, r#"{"host":{"kind":"bool","value":true}}"#);
    let empty = Report::new(s("e"));
    let mut out = String::new();
    assert_eq!(write_context_object(&mut out, true, 0, &empty), Ok(()));
    assert_eq!(out, "{}");
}

#[test]
fn context_object_refuses_non_finite_floats() {
    let report = Report::new(s("e"))
        .with_ctx(s("ratio"), ContextValue::Float(FloatRepr { finite: false, text: s("NaN") }));
    let mut out = String::new();
    assert_eq!(write_context_object(&mut out, false, 0, &report), Err(JsonWriteError));
}

#[test]
fn attachments_array_lists_notes_and_payloads_in_order() {
    let report = Report::new(s("e"))
        .attach_note(s("first"))
        .attach_payload(s("body"), AttachmentValue::Integer(-4), Some(s("text/plain")))
        .attach_payload(s("raw"), AttachmentValue::Bool(false), None);
    let mut out = String::new();
    assert_eq!(write_attachments_array(&mut out, false, 0, &report), Ok(()));
    assert_eq!(
        out,
        r#"[{"kind":"note","message":"first"},{"kind":"payload","name":"body","value":{"kind":"integer","value":-4},"media_type":"text/plain"},{"kind":"payload","name":"raw","value":{"kind":"bool","value":false},"media_type":null}]"#
    );
    let bad = Report::new(s("e")).attach_payload(
        s("x"),
        AttachmentValue::Float(FloatRepr { finite: false, text: s("inf") }),
        None,
    );
    let mut out = String::new();
    assert_eq!(write_attachments_array(&mut out, false, 0, &bad), Err(JsonWriteError));
}

#[test]
fn note_and_payload_objects() {
    let mut out = String::new();
    write_note_obj(&mut out, false, 0, "say \"hi\"");
    assert_eq!(out, r#"{"kind":"note","message":"say \"hi\""}"#);
    let mut out = String::new();
    assert_eq!(write_payload_obj(&mut out, true, 0, "n", &AttachmentValue::Unsigned(1), &None), Ok(()));
    assert!(out.starts_with("{\n"));
    assert!(out.contains("\"media_type\": null"));
}
