use diagweave::otel_bridge::{otel_log_severity, otel_record_plan, otel_unsigned_value, OtelSdkEmitStats, OtelSdkEmitter, OtelTraceLink};
use diagweave::otel_model::{
    normalize_otel_attributes, normalize_otel_envelope, OtelAttribute, OtelEnvelope, OtelEvent, OtelValue,
};
use diagweave::types::Severity;

#[test]
fn severity_numbers_map_to_levels() {
    assert_eq!(otel_log_severity(1), Severity::Trace);
    assert_eq!(otel_log_severity(5), Severity::Debug);
    assert_eq!(otel_log_severity(9), Severity::Info);
    assert_eq!(otel_log_severity(13), Severity::Warn);
    assert_eq!(otel_log_severity(17), Severity::Error);
    assert_eq!(otel_log_severity(21), Severity::Fatal);
    assert_eq!(otel_log_severity(2), Severity::Info);
    assert_eq!(otel_log_severity(0), Severity::Info);
}

#[test]
fn unsigned_values_fit_or_become_text() {
    assert_eq!(otel_unsigned_value(42), Ok(42));
    assert_eq!(otel_unsigned_value(9223372036854775807), Ok(i64::MAX));
    assert_eq!(otel_unsigned_value(9223372036854775808), Err("9223372036854775808".to_string()));
    assert_eq!(otel_unsigned_value(u64::MAX), Err("18446744073709551615".to_string()));
}

#[test]
fn emitter_keeps_its_logger_name() {
    let provider = 7u8;
    let e = OtelSdkEmitter::new(&provider, "diagweave".to_string());
    assert_eq!(e.logger_name(), "diagweave");
    assert_eq!(*e.provider(), 7);
    assert_eq!(e.emit_stats(3), OtelSdkEmitStats { records_emitted: 3 });
}

fn attr(key: &str, value: OtelValue) -> OtelAttribute {
    OtelAttribute { key: key.to_string(), value }
}

#[test]
fn normalizing_sorts_attributes_by_key_recursively() {
    let nested = OtelValue::KvList(vec![attr("z", OtelValue::Int(1)), attr("a", OtelValue::Bool(true))]);
    let mut attributes = vec![
        attr("b", OtelValue::Array(vec![nested])),
        attr("a", OtelValue::U64(2)),
        attr("b", OtelValue::Double(1.5f64.to_bits())),
    ];
    normalize_otel_attributes(&mut attributes);
    let keys: Vec<&str> = attributes.iter().map(|a| a.key.as_str()).collect();
    assert_eq!(keys, vec!["a", "b", "b"]);
    match &attributes[1].value {
        OtelValue::Array(items) => match &items[0] {
            OtelValue::KvList(inner) => {
                let inner_keys: Vec<&str> = inner.iter().map(|a| a.key.as_str()).collect();
                assert_eq!(inner_keys, vec!["a", "z"]);
            }
            _ => panic!("expected a list"),
        },
        _ => panic!("expected the array to keep its place among equal keys"),
    }
    assert!(matches!(attributes[2].value, OtelValue::Double(bits) if f64::from_bits(bits) == 1.5));
}

#[test]
fn normalizing_an_envelope_keeps_record_fields() {
    let event = OtelEvent {
        timestamp_unix_nano: Some(7),
        observed_timestamp_unix_nano: None,
        severity_number: Some(17),
        body: Some(OtelValue::String("boom".to_string())),
        trace_id: None,
        span_id: None,
        trace_sampled: Some(true),
        attributes: vec![attr("y", OtelValue::Int(1)), attr("x", OtelValue::Int(2))],
    };
    let mut envelope = OtelEnvelope { records: vec![event] };
    normalize_otel_envelope(&mut envelope);
    assert_eq!(envelope.records[0].attributes[0].key, "x");
    assert_eq!(envelope.records[0].timestamp_unix_nano, Some(7));
    assert_eq!(envelope.records[0].severity_number, Some(17));
}

fn event_with_ids(trace_id: Option<&str>, span_id: Option<&str>, sampled: Option<bool>) -> OtelEvent {
    OtelEvent {
        timestamp_unix_nano: Some(100),
        observed_timestamp_unix_nano: None,
        severity_number: Some(17),
        body: None,
        trace_id: trace_id.map(|s| s.to_string()),
        span_id: span_id.map(|s| s.to_string()),
        trace_sampled: sampled,
        attributes: vec![],
    }
}

#[test]
fn record_plan_links_parsed_ids() {
    let event = event_with_ids(Some("58406520a006649127e371903a2de979"), Some("00f067aa0ba902b7"), Some(true));
    let plan = otel_record_plan(&event);
    assert_eq!(plan.timestamp_unix_nano, Some(100));
    assert_eq!(plan.observed_timestamp_unix_nano, None);
    assert_eq!(plan.severity, Some(Severity::Error));
    assert_eq!(
        plan.trace_link,
        Some(OtelTraceLink {
            trace_id: 0x58406520a006649127e371903a2de979,
            span_id: 0x00f067aa0ba902b7,
            flags: Some(1),
        })
    );
}

#[test]
fn record_plan_flags_follow_sampling() {
    let unsampled = otel_record_plan(&event_with_ids(Some("42"), Some("+A"), Some(false)));
    assert_eq!(unsampled.trace_link, Some(OtelTraceLink { trace_id: 0x42, span_id: 0xa, flags: Some(0) }));
    let unknown = otel_record_plan(&event_with_ids(Some("42"), Some("7"), None));
    assert_eq!(unknown.trace_link.map(|l| l.flags), Some(None));
}

#[test]
fn record_plan_skips_unreadable_or_missing_ids() {
    assert_eq!(otel_record_plan(&event_with_ids(Some("not_hex"), Some("7"), Some(true))).trace_link, None);
    assert_eq!(otel_record_plan(&event_with_ids(Some("42"), Some("-7"), Some(true))).trace_link, None);
    assert_eq!(otel_record_plan(&event_with_ids(Some("42"), Some("10000000000000000"), None)).trace_link, None);
    assert_eq!(otel_record_plan(&event_with_ids(Some("42"), None, Some(true))).trace_link, None);
    assert_eq!(otel_record_plan(&event_with_ids(None, Some("7"), Some(true))).trace_link, None);
    assert_eq!(otel_record_plan(&event_with_ids(Some(""), Some("7"), None)).trace_link, None);
}

#[test]
fn normalizing_twice_changes_nothing() {
    let nested = OtelValue::KvList(vec![
        attr("y", OtelValue::Int(1)),
        attr("x", OtelValue::Array(vec![OtelValue::KvList(vec![attr("q", OtelValue::Bool(false)), attr("p", OtelValue::U64(3))])])),
        attr("y", OtelValue::Int(2)),
    ]);
    let mut attributes = vec![
        attr("m", nested),
        attr("c", OtelValue::String("first".to_string())),
        attr("c", OtelValue::String("second".to_string())),
    ];
    normalize_otel_attributes(&mut attributes);
    let once = format!("{:?}", attributes);
    normalize_otel_attributes(&mut attributes);
    let twice = format!("{:?}", attributes);
    assert_eq!(once, twice);
    let keys: Vec<&str> = attributes.iter().map(|a| a.key.as_str()).collect();
    assert_eq!(keys, vec!["c", "c", "m"]);
    assert!(matches!(&attributes[0].value, OtelValue::String(s) if s == "first"));
    match &attributes[2].value {
        OtelValue::KvList(inner) => {
            let inner_keys: Vec<&str> = inner.iter().map(|a| a.key.as_str()).collect();
            assert_eq!(inner_keys, vec!["x", "y", "y"]);
            assert!(matches!(inner[1].value, OtelValue::Int(1)));
        }
        _ => panic!("expected a list"),
    }
}
