use diagweave::display_text::{attachment_value_text, context_value_text};
use diagweave::hex_id::HexId;
use diagweave::levels::TraceEventLevel;
use diagweave::options::Compact;
use diagweave::trace_model::{ReportTrace, TraceEventAttribute};
use diagweave::ir_values::Attachment;
use diagweave::metadata::ContextMap;
use diagweave::ordering::{sort_order, str_lt};
use diagweave::report_model::{severity_name, Report, Transform};
use diagweave::source_chain::{DisplayCauseChain, SourceErrorChain};
use diagweave::stack_filter::StackTrace;
use diagweave::types::{HasSeverity, MissingSeverity, Severity, StackTraceFormat};
use diagweave::values::{write_attachment_value, AttachmentValue, ContextValue, ErrorCode, FloatRepr};

#[derive(Debug)]
struct TestError;

impl std::fmt::Display for TestError {
    fn fmt(&self, f: &mut std::fmt::Formatter<'_>) -> std::fmt::Result {
        f.write_str("test error")
    }
}

impl std::error::Error for TestError {}

#[derive(Debug)]
struct OuterError;

impl std::fmt::Display for OuterError {
    fn fmt(&self, f: &mut std::fmt::Formatter<'_>) -> std::fmt::Result {
        f.write_str("outer error")
    }
}

impl std::error::Error for OuterError {}

impl From<TestError> for OuterError {
    fn from(_: TestError) -> Self {
        OuterError
    }
}

fn s(v: &str) -> String {
    v.to_string()
}

/// The text of a report's error and the name of its type, as the caller of
/// `map_err` reads them.
fn described<E: std::error::Error + 'static, S: diagweave::types::SeverityState>(report: &Report<E, S>) -> (String, String) {
    (report.inner().to_string(), s("report::TestError"))
}

#[test]
fn test_map_err_preserves_severity() {
    let report: Report<TestError, MissingSeverity> = Report::new(TestError);
    let (message, kind) = described(&report);
    let mapped: Report<OuterError, MissingSeverity> =
        Report::<TestError, MissingSeverity>::map_err(report, true, message, kind, None, |_| OuterError);
    assert!(Report::<OuterError, MissingSeverity>::severity(&mapped).is_none());
}

#[test]
fn test_map_err_with_severity() {
    let report = Report::<TestError, MissingSeverity>::new(TestError);
    let report = Report::<TestError, MissingSeverity>::set_severity(report, Severity::Error);
    let (message, kind) = described(&report);
    let mapped: Report<OuterError, HasSeverity> = report.map_err(true, message, kind, None, |_| OuterError);
    assert_eq!(mapped.severity(), Some(Severity::Error));
}

#[test]
fn map_err_keeps_diagnostics() {
    let report = Report::new(TestError)
        .with_ctx(s("user"), ContextValue::Integer(7))
        .attach_note(s("note"))
        .set_category(s("db"));
    let mapped = report.map_err_keeping_origin(|e| OuterError::from(e));
    assert_eq!(mapped.inner().to_string(), "outer error");
    assert_eq!(mapped.context().len(), 1);
    assert_eq!(mapped.attachments().len(), 1);
    assert_eq!(mapped.category(), Some("db"));
    assert!(mapped.origin_src_err_chain().is_none());
    let with_origin = Report::new(TestError).map_err_with_origin(SourceErrorChain::new(), |e| OuterError::from(e));
    assert!(with_origin.origin_src_err_chain().is_some());
}

#[test]
fn with_ctx_keeps_first_and_set_ctx_replaces() {
    let report = Report::new(TestError)
        .with_ctx(s("k"), ContextValue::Integer(1))
        .with_ctx(s("k"), ContextValue::Integer(2));
    match report.context().get("k") {
        Some(ContextValue::Integer(v)) => assert_eq!(*v, 1),
        _ => panic!("expected the first value"),
    }
    let report = report.set_ctx(s("k"), ContextValue::Integer(3)).set_system(s("host"), ContextValue::String(s("a")));
    match report.context().get("k") {
        Some(ContextValue::Integer(v)) => assert_eq!(*v, 3),
        _ => panic!("expected the replaced value"),
    }
    let report = report.with_system(s("host"), ContextValue::String(s("b")));
    match report.system().get("host") {
        Some(ContextValue::String(v)) => assert_eq!(v, "a"),
        _ => panic!("expected the first host"),
    }
}

#[test]
fn metadata_builders_on_report() {
    let report = Report::new(TestError)
        .set_error_code(ErrorCode::Integer(1))
        .with_error_code(ErrorCode::Integer(2))
        .with_retryable(true)
        .set_retryable(false);
    assert_eq!(report.error_code(), Some(&ErrorCode::Integer(1)));
    assert_eq!(report.retryable(), Some(false));
    let report = report.set_severity(Severity::Warn).set_severity(Severity::Fatal);
    assert_eq!(report.severity(), Some(Severity::Fatal));
    assert_eq!(report.error_code(), Some(&ErrorCode::Integer(1)));
}

#[test]
fn stack_trace_and_causes() {
    let report = Report::new(TestError)
        .with_stack_trace(StackTrace::new(StackTraceFormat::Raw).with_raw(s("first")))
        .with_stack_trace(StackTrace::new(StackTraceFormat::Raw).with_raw(s("second")));
    assert_eq!(report.stack_trace().and_then(|t| t.raw.clone()), Some(s("first")));
    let report = report.set_stack_trace(StackTrace::new(StackTraceFormat::Native));
    assert!(report.stack_trace().unwrap().raw.is_none());
    let report = report.clear_stack_trace();
    assert!(report.stack_trace().is_none());
    let report = report.with_display_cause(s("a")).with_display_causes(vec![s("b"), s("c")]);
    assert_eq!(report.display_causes(), &[s("a"), s("b"), s("c")][..]);
    let chain = report.display_causes_chain().unwrap();
    assert!(!chain.truncated && !chain.cycle_detected);
    let report = report.set_display_causes(DisplayCauseChain { items: vec![s("z")], truncated: true, cycle_detected: false });
    let report = report.with_display_cause(s("y"));
    assert_eq!(report.display_causes(), &[s("z"), s("y")][..]);
    assert!(report.display_causes_chain().unwrap().truncated);
}

#[test]
fn summary_of_bare_report_is_the_error_text() {
    let report = Report::new(TestError);
    assert_eq!(report.summary_line("test error"), "test error");
}

#[test]
fn summary_lists_metadata_context_and_attachments() {
    let report = Report::new(TestError)
        .set_severity(Severity::Error)
        .set_error_code(ErrorCode::String(s("DB-001")))
        .attach_note(s("Failed to connect to production database"))
        .with_ctx(s("port"), ContextValue::String(s("5432")))
        .with_ctx(s("host"), ContextValue::String(s("db.example.com")))
        .with_system(s("service"), ContextValue::Unsigned(3))
        .attach_payload(s("body"), AttachmentValue::Integer(-4), Some(s("text/plain")));
    assert_eq!(
        report.summary_line("database connection failed"),
        "database connection failed [ [code=DB-001, severity=error, host=db.example.com, port=5432, system.service=3, Failed to connect to production database, body=-4 (text/plain)]"
    );
}

#[test]
fn summary_with_only_unlisted_diagnostics_opens_the_bracket() {
    let report = Report::new(TestError).with_display_cause(s("cause"));
    assert_eq!(report.summary_line("e"), "e [");
    let report = Report::new(TestError).with_stack_trace(StackTrace::new(StackTraceFormat::Raw));
    assert_eq!(report.summary_line("e"), "e [ [stack_trace=present]");
}

#[test]
fn severity_names() {
    assert_eq!(severity_name(Severity::Trace), "trace");
    assert_eq!(severity_name(Severity::Warn), "warn");
    assert_eq!(severity_name(Severity::Fatal), "fatal");
}

#[test]
fn text_order_is_by_character() {
    assert!(str_lt("a", "b"));
    assert!(str_lt("ab", "abc"));
    assert!(!str_lt("abc", "ab"));
    assert!(!str_lt("x", "x"));
    assert!(str_lt("Z", "a"));
    assert!(str_lt("", "a"));
}

#[test]
fn sort_order_is_stable_by_key() {
    let keys: Vec<Vec<char>> = ["b", "a", "b", "", "a"].iter().map(|k| k.chars().collect()).collect();
    assert_eq!(sort_order(&keys), vec![3, 1, 4, 0, 2]);
    assert_eq!(sort_order(&Vec::new()), Vec::<usize>::new());
}

#[test]
fn context_map_sorted_entries() {
    let mut m = ContextMap::new();
    m.insert(s("zeta"), ContextValue::Integer(1));
    m.insert(s("alpha"), ContextValue::Integer(2));
    m.insert(s("mid"), ContextValue::Integer(3));
    let keys: Vec<&str> = m.sorted_entries().iter().map(|e| e.0.as_str()).collect();
    assert_eq!(keys, vec!["alpha", "mid", "zeta"]);
    assert_eq!(m.iter()[0].0, "zeta");
}

#[test]
fn context_value_texts() {
    assert_eq!(context_value_text(&ContextValue::String(s("x"))), "x");
    assert_eq!(context_value_text(&ContextValue::Integer(-12)), "-12");
    assert_eq!(context_value_text(&ContextValue::Unsigned(18446744073709551615)), "18446744073709551615");
    assert_eq!(context_value_text(&ContextValue::Bool(false)), "false");
    assert_eq!(context_value_text(&ContextValue::Float(FloatRepr { finite: true, text: s("1.5") })), "1.5");
    assert_eq!(context_value_text(&ContextValue::IntegerArray(vec![1, -2])), "[1, -2]");
    assert_eq!(context_value_text(&ContextValue::StringArray(vec![])), "[]");
    assert_eq!(context_value_text(&ContextValue::BoolArray(vec![true])), "[true]");
    assert_eq!(context_value_text(&ContextValue::UnsignedArray(vec![0, 10])), "[0, 10]");
    assert_eq!(
        context_value_text(&ContextValue::FloatArray(vec![FloatRepr { finite: false, text: s("inf") }])),
        "[inf]"
    );
    assert_eq!(context_value_text(&ContextValue::Redacted { kind: Some(s("pii")), reason: Some(s("gdpr")) }), "<redacted:pii:gdpr>");
    assert_eq!(context_value_text(&ContextValue::Redacted { kind: None, reason: Some(s("gdpr")) }), "<redacted:gdpr>");
    assert_eq!(context_value_text(&ContextValue::Redacted { kind: None, reason: None }), "<redacted>");
}

#[test]
fn attachment_value_texts() {
    let v = AttachmentValue::Object(vec![
        (s("b"), AttachmentValue::Integer(2)),
        (s("a"), AttachmentValue::Array(vec![AttachmentValue::Bool(true), AttachmentValue::String(s("x"))])),
    ]);
    assert_eq!(attachment_value_text(&v), "{a: [true, x], b: 2}");
    assert_eq!(attachment_value_text(&AttachmentValue::Bytes(vec![1, 2, 3])), "<3 bytes>");
    assert_eq!(attachment_value_text(&AttachmentValue::Redacted { kind: Some(s("pii")), reason: None }), "<redacted:pii>");
    assert_eq!(attachment_value_text(&AttachmentValue::Object(vec![])), "{}");
    assert_eq!(attachment_value_text(&AttachmentValue::Unsigned(5)), "5");
}

#[test]
fn json_objects_are_written_by_key() {
    let v = AttachmentValue::Object(vec![(s("b"), AttachmentValue::Integer(1)), (s("a"), AttachmentValue::Integer(2))]);
    let mut out = String::new();
    assert!(write_attachment_value(&mut out, false, 0, &v).is_ok());
    assert_eq!(
        out,
        r#"{"kind":"object","value":{"a":{"kind":"integer","value":2},"b":{"kind":"integer","value":1}}}"#
    );
}

#[test]
fn notes_and_payloads_are_kept_in_order() {
    let report = Report::new(TestError)
        .attach_printable(s("one"))
        .attach_payload(s("p"), AttachmentValue::Bool(true), None)
        .attach_note(s("two"));
    let atts = report.attachments();
    assert_eq!(atts.len(), 3);
    assert!(matches!(&atts[0], Attachment::Note { message } if message == "one"));
    assert!(matches!(&atts[1], Attachment::Payload { name, .. } if name == "p"));
    assert!(matches!(&atts[2], Attachment::Note { message } if message == "two"));
}

#[test]
fn trace_builders_on_report() {
    let tid: HexId<32> = HexId::from_str("4bf92f3577b34da6a3ce929d0e0e4736").unwrap();
    let sid: HexId<16> = HexId::from_str("00f067aa0ba902b7").unwrap();
    let other_sid: HexId<16> = HexId::from_str("00f067aa0ba902b8").unwrap();
    let report = Report::new(TestError).with_trace_ids(tid, sid).with_trace_ids(tid, other_sid);
    assert_eq!(report.trace().context().unwrap().span_id, Some(sid));
    let report = report.set_trace_ids(tid, other_sid);
    assert_eq!(report.trace().context().unwrap().span_id, Some(other_sid));
    let report = report.with_trace_sampled(true).with_trace_sampled(false).set_trace_state(s("k=v"));
    let ctx = report.trace().context().unwrap();
    assert_eq!(ctx.sampled, Some(true));
    assert_eq!(ctx.trace_state.as_ref().unwrap().as_str(), "k=v");
    let report = report
        .push_trace_event(s("start"))
        .push_trace_event_with(s("step"), Some(TraceEventLevel::Info), Some(10), vec![TraceEventAttribute { key: s("n"), value: AttachmentValue::Integer(1) }]);
    let events = report.trace().events().unwrap();
    assert_eq!(events.len(), 2);
    assert_eq!(events[0].name, "start");
    assert_eq!(events[1].timestamp_unix_nano, Some(10));
    assert_eq!(
        report.summary_line("e"),
        "e [ [trace_id=4bf92f3577b34da6a3ce929d0e0e4736, span_id=00f067aa0ba902b8]"
    );
    let kept = report.with_trace(ReportTrace::new());
    assert_eq!(kept.trace().events().unwrap().len(), 2);
    let replaced = Report::new(TestError).set_parent_span_id(sid).set_trace(ReportTrace::new());
    assert!(replaced.trace().is_empty());
}

#[test]
fn compact_rendering() {
    let report = Report::new(TestError).set_category(s("db"));
    assert_eq!(Compact::summary().render_text(&report, "test error"), "test error");
    assert_eq!(Compact::full().render_text(&report, "test error"), "test error [ [category=db]");
}

#[test]
fn trans_converts_error_and_keeps_severity() {
    let report = Report::<TestError, MissingSeverity>::new(TestError);
    let report = Report::<TestError, MissingSeverity>::set_severity(report, Severity::Warn);
    let converted: Report<OuterError, HasSeverity> = report.trans();
    assert_eq!(converted.severity(), Some(Severity::Warn));
    assert_eq!(converted.inner().to_string(), "outer error");
}

#[test]
fn trans_on_results() {
    let failing: Result<u8, Report<TestError, MissingSeverity>> = Err(Report::new(TestError));
    let converted: Result<u8, Report<OuterError, MissingSeverity>> = failing.trans();
    assert_eq!(converted.err().map(|r| r.inner().to_string()), Some("outer error".to_string()));
    let fine: Result<u8, Report<TestError, MissingSeverity>> = Ok(7);
    let kept: Result<u8, Report<OuterError, MissingSeverity>> = fine.trans();
    assert_eq!(kept.ok(), Some(7));
    let as_result: Result<u8, Report<OuterError, MissingSeverity>> = Report::<TestError, MissingSeverity>::new(TestError).trans();
    assert!(as_result.is_err());
}

#[test]
fn map_err_accumulating_records_the_old_error_as_origin_root() {
    let report = Report::<TestError, MissingSeverity>::new(TestError).set_accumulate_src_chain(true);
    assert!(report.options().resolve_accumulate_src_chain(false));
    let mapped: Report<OuterError, MissingSeverity> =
        report.map_err_accumulating(s("test error"), s("tests::TestError"), None, |_| OuterError);
    let chain = mapped.origin_src_err_chain().unwrap();
    assert_eq!(chain.roots, vec![0]);
    assert_eq!(chain.nodes.len(), 1);
    assert_eq!(chain.nodes[0].message, "test error");
    assert_eq!(chain.nodes[0].error_type, Some(s("tests::TestError")));

    let again: Report<TestError, MissingSeverity> =
        mapped.map_err_accumulating(s("outer error"), s("tests::OuterError"), None, |_| TestError);
    let chain = again.origin_src_err_chain().unwrap();
    assert_eq!(chain.nodes.len(), 2);
    assert_eq!(chain.nodes[0].message, "outer error");
    assert_eq!(chain.nodes[0].source_roots, vec![1]);
    assert_eq!(chain.nodes[1].message, "test error");
}

#[test]
fn accumulation_follows_the_build_profile_unless_chosen() {
    let report = Report::<TestError, MissingSeverity>::new(TestError);
    assert!(report.options().resolve_accumulate_src_chain(true));
    assert!(!report.options().resolve_accumulate_src_chain(false));
    let off = report.set_accumulate_src_chain(false);
    assert!(!off.options().resolve_accumulate_src_chain(true));
}

#[test]
fn attachments_are_read_back_as_notes_or_payloads() {
    let note = Attachment::note("check the config".to_string());
    assert_eq!(note.as_note(), Some("check the config".to_string()));
    assert!(note.as_payload().is_none());
    let payload = Attachment::payload("request".to_string(), AttachmentValue::Integer(7), Some("text/plain".to_string()));
    assert!(payload.as_note().is_none());
    match payload.as_payload() {
        Some((name, value, media_type)) => {
            assert_eq!(name, "request");
            assert!(matches!(value, AttachmentValue::Integer(7)));
            assert_eq!(media_type, Some("text/plain"));
        }
        None => panic!("expected a payload"),
    }
    let bare = Attachment::payload("raw".to_string(), AttachmentValue::Bool(true), None);
    assert!(matches!(bare.as_payload(), Some((_, _, None))));
}

#[test]
fn map_err_records_the_old_error_when_the_options_ask() {
    // accumulation left to the profile: a debug build records the old error
    let report = Report::<TestError, MissingSeverity>::new(TestError).set_category(s("db"));
    let (message, kind) = described(&report);
    let mapped: Report<OuterError, MissingSeverity> = report.map_err(true, message, kind, None, |_| OuterError);
    let chain = mapped.origin_src_err_chain().unwrap();
    assert_eq!(chain.roots, vec![0]);
    assert_eq!(chain.nodes[0].message, "test error");
    assert_eq!(chain.nodes[0].error_type, Some(s("report::TestError")));
    assert_eq!(mapped.category(), Some("db"));

    // a release build does not
    let report = Report::<TestError, MissingSeverity>::new(TestError);
    let (message, kind) = described(&report);
    let mapped: Report<OuterError, MissingSeverity> = report.map_err(false, message, kind, None, |_| OuterError);
    assert!(mapped.origin_src_err_chain().is_none());

    // an explicit choice wins over the profile, both ways
    let report = Report::<TestError, MissingSeverity>::new(TestError).set_accumulate_src_chain(true);
    let (message, kind) = described(&report);
    let mapped: Report<OuterError, MissingSeverity> = report.map_err(false, message, kind, None, |_| OuterError);
    assert_eq!(mapped.origin_src_err_chain().unwrap().nodes.len(), 1);
    let report = Report::<TestError, MissingSeverity>::new(TestError).set_accumulate_src_chain(false);
    let (message, kind) = described(&report);
    let mapped: Report<OuterError, MissingSeverity> = report.map_err(true, message, kind, None, |_| OuterError);
    assert!(mapped.origin_src_err_chain().is_none());
    assert_eq!(mapped.options().accumulate_src_chain, Some(false));
}
