use diagweave::levels::{
    severity_to_level, trace_level_to_prepared, EmitStats, PreparedTracingEmission,
    PreparedTracingLevel, TraceEventLevel,
};
use diagweave::types::Severity;

#[test]
fn trace_event_level_names() {
    assert_eq!(TraceEventLevel::Trace.as_str(), "trace");
    assert_eq!(TraceEventLevel::Warn.as_str(), "warn");
    assert_eq!(TraceEventLevel::Error.as_str(), "error");
    assert_eq!(PreparedTracingLevel::Debug.as_str(), "debug");
}

#[test]
fn fatal_severity_maps_to_error_level() {
    assert_eq!(severity_to_level(Severity::Fatal), PreparedTracingLevel::Error);
    assert_eq!(severity_to_level(Severity::Info), PreparedTracingLevel::Info);
    assert_eq!(trace_level_to_prepared(None), None);
    assert_eq!(trace_level_to_prepared(Some(TraceEventLevel::Debug)), Some(PreparedTracingLevel::Debug));
}

#[test]
fn events_without_level_fall_back_to_report_level() {
    let events = vec![Some(TraceEventLevel::Debug), None, Some(TraceEventLevel::Error)];
    let prepared = PreparedTracingEmission::prepare(Severity::Warn, &events);
    assert_eq!(prepared.report_level(), PreparedTracingLevel::Warn);
    assert_eq!(
        prepared.trace_event_levels(),
        &[PreparedTracingLevel::Debug, PreparedTracingLevel::Warn, PreparedTracingLevel::Error]
    );
    assert_eq!(prepared.trace_event_level(1), Some(PreparedTracingLevel::Warn));
    assert_eq!(prepared.trace_event_level(3), None);
    let stats = prepared.stats();
    assert_eq!(stats.report_events_emitted, 1);
    assert_eq!(stats.trace_events_emitted, 3);
    assert_eq!(stats.total_events_emitted(), 4);
}

#[test]
fn emit_stats_total() {
    let stats = EmitStats { report_events_emitted: 2, trace_events_emitted: 5 };
    assert_eq!(stats.total_events_emitted(), 7);
}
