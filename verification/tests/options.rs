use diagweave::options::{Compact, CompactProfile, Json, PrettyIndent, ReportRenderOptions, StackTraceFilter};

#[test]
fn default_options() {
    let o = ReportRenderOptions::default();
    assert_eq!(o.max_source_depth, 16);
    assert!(o.detect_source_cycle);
    assert_eq!(o.pretty_indent, PrettyIndent::Spaces(2));
    assert_eq!(o.stack_trace_max_lines, 24);
    assert_eq!(o.stack_trace_filter, StackTraceFilter::All);
    assert!(!o.json_pretty);
    assert!(o.show_empty_sections && o.show_type_name);
}

#[test]
fn presets() {
    let d = ReportRenderOptions::developer();
    assert_eq!(d.stack_trace_max_lines, 50);
    assert_eq!(d.stack_trace_filter, StackTraceFilter::All);
    let p = ReportRenderOptions::production();
    assert_eq!(p.stack_trace_max_lines, 15);
    assert_eq!(p.stack_trace_filter, StackTraceFilter::AppOnly);
    let m = ReportRenderOptions::minimal();
    assert_eq!(m.stack_trace_max_lines, 5);
    assert_eq!(m.stack_trace_filter, StackTraceFilter::AppFocused);
    assert!(!m.show_empty_sections);
    assert!(!m.show_type_name);
    assert!(!m.show_trace_event_details);
    assert_eq!(m.max_source_depth, 16);
}

#[test]
fn renderers() {
    assert_eq!(Json::new(ReportRenderOptions::minimal()).options, ReportRenderOptions::minimal());
    assert_eq!(Json::default().options, ReportRenderOptions::default());
    assert_eq!(Compact::summary().profile, CompactProfile::Summary);
    assert_eq!(Compact::full().profile, CompactProfile::Full);
    assert_eq!(Compact::default().profile, CompactProfile::Summary);
}
