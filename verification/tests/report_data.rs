use diagweave::global_context::{GlobalContext, ReportData};
use diagweave::hex_id::HexId;
use diagweave::metadata::{ContextMap, GlobalErrorMeta, ReportMetadata};
use diagweave::options::ReportOptions;
use diagweave::trace_model::{ReportTrace, TraceContext, TraceEvent};
use diagweave::types::Severity;
use diagweave::values::{ContextValue, ErrorCode};

#[test]
fn set_replaces_and_with_only_fills() {
    let m = ReportMetadata::new()
        .set_category("db".to_string())
        .with_category("net".to_string())
        .with_retryable(true)
        .set_retryable(false);
    assert_eq!(m.category(), Some("db"));
    assert_eq!(m.retryable(), Some(false));
    let m = m.with_error_code(ErrorCode::Integer(7)).with_error_code(ErrorCode::Integer(9));
    assert_eq!(m.error_code(), Some(&ErrorCode::Integer(7)));
    let m = m.set_error_code(ErrorCode::String("E1".to_string()));
    assert_eq!(m.error_code(), Some(&ErrorCode::String("E1".to_string())));
    assert_eq!(m.severity(), None);
    let m = m.set_severity(Severity::Warn);
    assert_eq!(m.severity(), Some(Severity::Warn));
    assert_eq!(m.set_severity(Severity::Error).severity(), Some(Severity::Error));
}

#[test]
fn context_map_insert_replaces_in_place() {
    let mut c = ContextMap::new();
    c.insert("a".to_string(), ContextValue::Integer(1));
    c.insert("b".to_string(), ContextValue::Bool(true));
    c.insert("a".to_string(), ContextValue::Integer(2));
    assert_eq!(c.len(), 2);
    assert!(c.contains_key("a"));
    assert!(!c.contains_key("z"));
    match c.get("a") {
        Some(ContextValue::Integer(v)) => assert_eq!(*v, 2),
        _ => panic!("expected integer"),
    }
    assert_eq!(c.iter()[0].0, "a");
    assert_eq!(c.iter()[1].0, "b");
}

#[test]
fn trace_set_and_with() {
    let id = HexId::<32>::from_str("4bf92f3577b34da6a3ce929d0e0e4736").unwrap();
    let other = HexId::<32>::from_str("00000000000000000000000000000001").unwrap();
    let t = ReportTrace::new().with_trace_id(id).with_trace_id(other).set_sampled(true);
    let ctx = t.context().unwrap();
    assert_eq!(ctx.trace_id, Some(id));
    assert_eq!(ctx.sampled, Some(true));
    assert!(!t.is_empty());
    let t = t.set_trace_id(other);
    assert_eq!(t.context().unwrap().trace_id, Some(other));
    let t = ReportTrace::new();
    assert!(t.is_empty());
    assert!(t.context().is_none());
    let t = t.with_event(TraceEvent { name: "start".to_string(), level: None, timestamp_unix_nano: Some(5), attributes: vec![] });
    assert_eq!(t.events().unwrap().len(), 1);
    assert!(!t.is_empty());
}

fn data() -> ReportData<diagweave::types::MissingSeverity> {
    let mut context = ContextMap::new();
    context.insert("request_id".to_string(), ContextValue::String("r-1".to_string()));
    ReportData {
        metadata: ReportMetadata::new().set_category("local".to_string()),
        trace: ReportTrace::new(),
        system: ContextMap::new(),
        context,
        options: ReportOptions::new(),
    }
}

#[test]
fn global_context_fills_only_unset_values() {
    let mut g_context = ContextMap::new();
    g_context.insert("request_id".to_string(), ContextValue::String("global".to_string()));
    g_context.insert("tenant".to_string(), ContextValue::Integer(3));
    let mut g_system = ContextMap::new();
    g_system.insert("host".to_string(), ContextValue::String("h1".to_string()));
    let global = GlobalContext {
        trace: Some(TraceContext {
            trace_id: Some(HexId::<32>::from_str("4bf92f3577b34da6a3ce929d0e0e4736").unwrap()),
            span_id: None,
            parent_span_id: None,
            sampled: Some(true),
            trace_state: None,
        }),
        error: Some(GlobalErrorMeta {
            error_code: Some(ErrorCode::String("ERR-001".to_string())),
            category: Some("system".to_string()),
            retryable: Some(true),
        }),
        system: g_system,
        context: g_context,
    };
    let d = data().apply_global_context(Some(global));
    assert_eq!(d.metadata.category(), Some("local"));
    assert_eq!(d.metadata.retryable(), Some(true));
    assert_eq!(d.metadata.error_code(), Some(&ErrorCode::String("ERR-001".to_string())));
    assert_eq!(d.system.len(), 1);
    assert_eq!(d.context.len(), 2);
    match d.context.get("request_id") {
        Some(ContextValue::String(s)) => assert_eq!(s, "global"),
        _ => panic!("expected string"),
    }
    assert_eq!(d.trace.context().unwrap().sampled, Some(true));
}

#[test]
fn empty_global_context_changes_nothing() {
    let global = GlobalContext { trace: None, error: None, system: ContextMap::new(), context: ContextMap::new() };
    let d = data().apply_global_context(Some(global));
    assert_eq!(d.context.len(), 1);
    assert!(d.trace.context().is_none());
    let d = d.apply_global_context(None);
    assert_eq!(d.metadata.category(), Some("local"));
}
