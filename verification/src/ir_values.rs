//! The attachment values that describe a report's parts for tracing and
//! telemetry export: error, trace, stack trace, causes, source errors,
//! context and attachments.

use vstd::prelude::*;
use crate::values::AttachmentValue;
use crate::value_view::{ValueView, value_view, values_view, entries_view, opt_view, clone_value, context_value_view, attachment_from_context};
use crate::trace_model::{TraceContext, TraceEvent, TraceEventAttribute, ReportTrace};
use crate::hex_id::ascii_text;
use crate::levels::trace_event_level_name;
use crate::stack_filter::{StackFrame, StackTrace};
use crate::types::{StackTraceFormat, CauseTraversalState};
use crate::chain_export::{ExportedSourceErrorChain, ExportedSourceErrorNode, exported_as, dense, export_order};
use crate::source_chain::SourceErrorChain;
use crate::metadata::ContextMap;

verus! {

proof fn lemma_entries_view_push(s: Seq<(String, AttachmentValue)>, x: (String, AttachmentValue), k: nat)
    requires
        k <= s.len(),
    ensures
        entries_view(s.push(x), k) == entries_view(s, k),
    decreases k,
{
    if k > 0 {
        lemma_entries_view_push(s, x, (k - 1) as nat);
        assert(s.push(x)[k - 1] == s[k - 1]);
    }
}

proof fn lemma_values_view_push(s: Seq<AttachmentValue>, x: AttachmentValue, k: nat)
    requires
        k <= s.len(),
    ensures
        values_view(s.push(x), k) == values_view(s, k),
    decreases k,
{
    if k > 0 {
        lemma_values_view_push(s, x, (k - 1) as nat);
        assert(s.push(x)[k - 1] == s[k - 1]);
    }
}

/// The entries of an object value.
pub open spec fn object_entries(m: Seq<(String, AttachmentValue)>) -> Seq<(Seq<char>, ValueView)> {
    entries_view(m, m.len())
}

/// The items of an array value.
pub open spec fn array_items(v: Seq<AttachmentValue>) -> Seq<ValueView> {
    values_view(v, v.len())
}

/// Appends the field `key` with value `v`.
fn push_field(out: &mut Vec<(String, AttachmentValue)>, key: &str, v: AttachmentValue)
    ensures
        object_entries(final(out)@) == object_entries(old(out)@).push((key@, value_view(v))),
{
    let ghost o = out@;
    let k = key.to_string();
    out.push((k, v));
    proof {
        lemma_entries_view_push(o, (k, v), o.len());
        assert(out@[o.len() as int] == (k, v));
    }
}

/// Appends `v` to an array's items.
fn push_item(out: &mut Vec<AttachmentValue>, v: AttachmentValue)
    ensures
        array_items(final(out)@) == array_items(old(out)@).push(value_view(v)),
{
    let ghost o = out@;
    out.push(v);
    proof {
        lemma_values_view_push(o, v, o.len());
        assert(out@[o.len() as int] == v);
    }
}

/// A single-field entry list, when the value is present.
pub open spec fn opt_field(key: Seq<char>, v: Option<ValueView>) -> Seq<(Seq<char>, ValueView)> {
    match v {
        Some(x) => seq![(key, x)],
        None => Seq::empty(),
    }
}

/// The error of a report: its message and type name.
pub open spec fn error_view(message: Seq<char>, error_type: Seq<char>) -> ValueView {
    ValueView::Object(seq![("message"@, ValueView::String(message)), ("type"@, ValueView::String(error_type))])
}

/// Builds the value of a report's error.
pub fn build_error_value(message: &str, error_type: &str) -> (v: AttachmentValue)
    ensures
        value_view(v) == error_view(message@, error_type@),
{
    let mut map: Vec<(String, AttachmentValue)> = Vec::new();
    push_field(&mut map, "message", AttachmentValue::String(message.to_string()));
    push_field(&mut map, "type", AttachmentValue::String(error_type.to_string()));
    proof {
        assert(object_entries(map@) =~= seq![("message"@, ValueView::String(message@)), ("type"@, ValueView::String(error_type@))]);
    }
    AttachmentValue::Object(map)
}

/// A string value when present.
pub open spec fn opt_string_view(s: Option<Seq<char>>) -> Option<ValueView> {
    match s {
        Some(x) => Some(ValueView::String(x)),
        None => None,
    }
}

/// The fields of a trace context that are set, in a fixed order.
pub open spec fn trace_ctx_entries(c: TraceContext) -> Seq<(Seq<char>, ValueView)> {
    opt_field("trace_id"@, match c.trace_id { Some(t) => Some(ValueView::String(ascii_text(t@))), None => None })
        + opt_field("span_id"@, match c.span_id { Some(t) => Some(ValueView::String(ascii_text(t@))), None => None })
        + opt_field("parent_span_id"@, match c.parent_span_id { Some(t) => Some(ValueView::String(ascii_text(t@))), None => None })
        + opt_field("sampled"@, match c.sampled { Some(b) => Some(ValueView::Bool(b)), None => None })
        + opt_field("trace_state"@, match c.trace_state { Some(t) => Some(ValueView::String(t.text())), None => None })
}

/// Builds the value of a trace context: an object of its set fields.
pub fn build_trace_ctx_value(context: &TraceContext) -> (v: AttachmentValue)
    ensures
        value_view(v) == ValueView::Object(trace_ctx_entries(*context)),
{
    let mut map: Vec<(String, AttachmentValue)> = Vec::new();
    let ghost e0 = object_entries(map@);
    match &context.trace_id {
        Some(t) => push_field(&mut map, "trace_id", AttachmentValue::String(t.to_text())),
        None => {},
    }
    let ghost e1 = object_entries(map@);
    match &context.span_id {
        Some(t) => push_field(&mut map, "span_id", AttachmentValue::String(t.to_text())),
        None => {},
    }
    let ghost e2 = object_entries(map@);
    match &context.parent_span_id {
        Some(t) => push_field(&mut map, "parent_span_id", AttachmentValue::String(t.to_text())),
        None => {},
    }
    let ghost e3 = object_entries(map@);
    match context.sampled {
        Some(b) => push_field(&mut map, "sampled", AttachmentValue::Bool(b)),
        None => {},
    }
    let ghost e4 = object_entries(map@);
    match &context.trace_state {
        Some(t) => push_field(&mut map, "trace_state", AttachmentValue::String(t.as_str().to_string())),
        None => {},
    }
    proof {
        let c = *context;
        assert(e0 =~= Seq::<(Seq<char>, ValueView)>::empty());
        assert(e1 =~= opt_field("trace_id"@, match c.trace_id { Some(t) => Some(ValueView::String(ascii_text(t@))), None => None }));
        assert(object_entries(map@) =~= trace_ctx_entries(c));
    }
    AttachmentValue::Object(map)
}

/// The value of an optional trace context: an empty object when absent.
pub open spec fn trace_ctx_opt_view(c: Option<TraceContext>) -> ValueView {
    match c {
        Some(x) => ValueView::Object(trace_ctx_entries(x)),
        None => ValueView::Object(Seq::empty()),
    }
}

/// Builds the value of an optional trace context.
pub fn build_trace_ctx_value_opt(context: Option<&TraceContext>) -> (v: AttachmentValue)
    ensures
        value_view(v) == trace_ctx_opt_view(match context { Some(c) => Some(*c), None => None }),
{
    match context {
        Some(ctx) => build_trace_ctx_value(ctx),
        None => {
            let map: Vec<(String, AttachmentValue)> = Vec::new();
            assert(object_entries(map@) =~= Seq::<(Seq<char>, ValueView)>::empty());
            AttachmentValue::Object(map)
        },
    }
}

/// The value of a trace event attribute.
pub open spec fn attribute_view(a: TraceEventAttribute) -> ValueView {
    ValueView::Object(seq![("key"@, ValueView::String(a.key@)), ("value"@, value_view(a.value))])
}

/// The value of a trace event: its name, level and timestamp when known,
/// and its attributes.
pub open spec fn trace_event_view(e: TraceEvent) -> ValueView {
    ValueView::Object(
        seq![("name"@, ValueView::String(e.name@))]
            + opt_field("level"@, match e.level { Some(l) => Some(ValueView::String(trace_event_level_name(l))), None => None })
            + opt_field("timestamp_unix_nano"@, match e.timestamp_unix_nano { Some(t) => Some(ValueView::Unsigned(t as nat)), None => None })
            + seq![("attributes"@, ValueView::Array(e.attributes@.map_values(|a: TraceEventAttribute| attribute_view(a))))],
    )
}

/// Builds the value of a trace event.
pub fn build_trace_event_value(event: &TraceEvent) -> (v: AttachmentValue)
    ensures
        value_view(v) == trace_event_view(*event),
{
    let mut map: Vec<(String, AttachmentValue)> = Vec::new();
    push_field(&mut map, "name", AttachmentValue::String(event.name.clone()));
    let ghost e1 = object_entries(map@);
    match event.level {
        Some(l) => push_field(&mut map, "level", AttachmentValue::String(l.as_str().to_string())),
        None => {},
    }
    let ghost e2 = object_entries(map@);
    match event.timestamp_unix_nano {
        Some(t) => push_field(&mut map, "timestamp_unix_nano", AttachmentValue::Unsigned(t)),
        None => {},
    }
    let ghost e3 = object_entries(map@);
    let ghost target = event.attributes@.map_values(|a: TraceEventAttribute| attribute_view(a));
    let mut attrs: Vec<AttachmentValue> = Vec::new();
    let mut i: usize = 0;
    while i < event.attributes.len()
        invariant
            i <= event.attributes@.len(),
            target == event.attributes@.map_values(|a: TraceEventAttribute| attribute_view(a)),
            array_items(attrs@) == target.subrange(0, i as int),
        decreases event.attributes@.len() - i,
    {
        let attr = &event.attributes[i];
        let mut kv: Vec<(String, AttachmentValue)> = Vec::new();
        push_field(&mut kv, "key", AttachmentValue::String(attr.key.clone()));
        push_field(&mut kv, "value", clone_value(&attr.value));
        assert(object_entries(kv@) =~= seq![("key"@, ValueView::String(attr.key@)), ("value"@, value_view(attr.value))]);
        push_item(&mut attrs, AttachmentValue::Object(kv));
        assert(target.subrange(0, i as int + 1) =~= target.subrange(0, i as int).push(target[i as int]));
        i += 1;
    }
    assert(target.subrange(0, event.attributes@.len() as int) =~= target);
    push_field(&mut map, "attributes", AttachmentValue::Array(attrs));
    proof {
        let e = *event;
        assert(object_entries(map@) =~= seq![("name"@, ValueView::String(e.name@))]
            + opt_field("level"@, match e.level { Some(l) => Some(ValueView::String(trace_event_level_name(l))), None => None })
            + opt_field("timestamp_unix_nano"@, match e.timestamp_unix_nano { Some(t) => Some(ValueView::Unsigned(t as nat)), None => None })
            + seq![("attributes"@, ValueView::Array(target))]);
    }
    AttachmentValue::Object(map)
}

/// The value of a report's trace: its error, context and events.
pub open spec fn trace_view(t: ReportTrace, message: Seq<char>, error_type: Seq<char>) -> ValueView {
    ValueView::Object(seq![
        ("error"@, error_view(message, error_type)),
        ("context"@, trace_ctx_opt_view(t.spec_context())),
        ("events"@, ValueView::Array(t.spec_events().map_values(|e: TraceEvent| trace_event_view(e)))),
    ])
}

/// Builds the value of a report's trace.
pub fn build_trace_value(trace: &ReportTrace, message: &str, error_type: &str) -> (v: AttachmentValue)
    ensures
        value_view(v) == trace_view(*trace, message@, error_type@),
{
    let mut map: Vec<(String, AttachmentValue)> = Vec::new();
    push_field(&mut map, "error", build_error_value(message, error_type));
    push_field(&mut map, "context", build_trace_ctx_value_opt(trace.context()));
    let ghost target = trace.spec_events().map_values(|e: TraceEvent| trace_event_view(e));
    let mut events: Vec<AttachmentValue> = Vec::new();
    match trace.events() {
        Some(evs) => {
            let mut i: usize = 0;
            while i < evs.len()
                invariant
                    evs@ == trace.spec_events(),
                    i <= evs@.len(),
                    target == trace.spec_events().map_values(|e: TraceEvent| trace_event_view(e)),
                    array_items(events@) == target.subrange(0, i as int),
                decreases evs@.len() - i,
            {
                push_item(&mut events, build_trace_event_value(&evs[i]));
                assert(target.subrange(0, i as int + 1) =~= target.subrange(0, i as int).push(target[i as int]));
                i += 1;
            }
            assert(target.subrange(0, evs@.len() as int) =~= target);
        },
        None => {
            assert(array_items(events@) =~= target);
        },
    }
    push_field(&mut map, "events", AttachmentValue::Array(events));
    proof {
        assert(object_entries(map@) =~= seq![
            ("error"@, error_view(message@, error_type@)),
            ("context"@, trace_ctx_opt_view(trace.spec_context())),
            ("events"@, ValueView::Array(target)),
        ]);
    }
    AttachmentValue::Object(map)
}

/// The value of a stack frame: its known fields, in a fixed order.
pub open spec fn stack_frame_view(f: StackFrame) -> ValueView {
    ValueView::Object(
        opt_field("symbol"@, opt_string_view(opt_view(f.symbol)))
            + opt_field("module_path"@, opt_string_view(opt_view(f.module)))
            + opt_field("file"@, opt_string_view(opt_view(f.file)))
            + opt_field("line"@, match f.line { Some(x) => Some(ValueView::Unsigned(x as nat)), None => None })
            + opt_field("column"@, match f.column { Some(x) => Some(ValueView::Unsigned(x as nat)), None => None }),
    )
}

fn push_opt_string_field(out: &mut Vec<(String, AttachmentValue)>, key: &str, s: &Option<String>)
    ensures
        object_entries(final(out)@) == object_entries(old(out)@) + opt_field(key@, opt_string_view(opt_view(*s))),
{
    let ghost o = object_entries(out@);
    match s {
        Some(x) => {
            push_field(out, key, AttachmentValue::String(x.clone()));
            assert(object_entries(out@) =~= o + opt_field(key@, opt_string_view(opt_view(*s))));
        },
        None => {
            assert(object_entries(out@) =~= o + opt_field(key@, opt_string_view(opt_view(*s))));
        },
    }
}

fn push_opt_u32_field(out: &mut Vec<(String, AttachmentValue)>, key: &str, x: Option<u32>)
    ensures
        object_entries(final(out)@) == object_entries(old(out)@) + opt_field(key@, match x { Some(v) => Some(ValueView::Unsigned(v as nat)), None => None }),
{
    let ghost o = object_entries(out@);
    match x {
        Some(v) => {
            push_field(out, key, AttachmentValue::Unsigned(v as u64));
            assert(object_entries(out@) =~= o + opt_field(key@, match x { Some(v) => Some(ValueView::Unsigned(v as nat)), None => None }));
        },
        None => {
            assert(object_entries(out@) =~= o + opt_field(key@, match x { Some(v) => Some(ValueView::Unsigned(v as nat)), None => None }));
        },
    }
}

/// Builds the value of a stack frame.
pub fn build_stack_frame_value(frame: &StackFrame) -> (v: AttachmentValue)
    ensures
        value_view(v) == stack_frame_view(*frame),
{
    let mut map: Vec<(String, AttachmentValue)> = Vec::new();
    assert(object_entries(map@) =~= Seq::<(Seq<char>, ValueView)>::empty());
    push_opt_string_field(&mut map, "symbol", &frame.symbol);
    push_opt_string_field(&mut map, "module_path", &frame.module);
    push_opt_string_field(&mut map, "file", &frame.file);
    push_opt_u32_field(&mut map, "line", frame.line);
    push_opt_u32_field(&mut map, "column", frame.column);
    proof {
        let f = *frame;
        assert(object_entries(map@) =~= opt_field("symbol"@, opt_string_view(opt_view(f.symbol)))
            + opt_field("module_path"@, opt_string_view(opt_view(f.module)))
            + opt_field("file"@, opt_string_view(opt_view(f.file)))
            + opt_field("line"@, match f.line { Some(x) => Some(ValueView::Unsigned(x as nat)), None => None })
            + opt_field("column"@, match f.column { Some(x) => Some(ValueView::Unsigned(x as nat)), None => None }));
    }
    AttachmentValue::Object(map)
}

/// The name of a stack trace format.
pub open spec fn format_name(f: StackTraceFormat) -> Seq<char> {
    match f {
        StackTraceFormat::Native => "native"@,
        StackTraceFormat::Raw => "raw"@,
    }
}

/// The value of a stack trace: its format, frames and raw text if any.
pub open spec fn stack_trace_view(t: StackTrace) -> ValueView {
    ValueView::Object(
        seq![("format"@, ValueView::String(format_name(t.format))),
            ("frames"@, ValueView::Array(t.frames@.map_values(|f: StackFrame| stack_frame_view(f))))]
            + opt_field("raw"@, opt_string_view(opt_view(t.raw))),
    )
}

/// Builds the value of a stack trace.
pub fn build_stack_trace_value(stack_trace: &StackTrace) -> (v: AttachmentValue)
    ensures
        value_view(v) == stack_trace_view(*stack_trace),
{
    let mut map: Vec<(String, AttachmentValue)> = Vec::new();
    let format = match stack_trace.format {
        StackTraceFormat::Native => "native",
        StackTraceFormat::Raw => "raw",
    };
    push_field(&mut map, "format", AttachmentValue::String(format.to_string()));
    let ghost target = stack_trace.frames@.map_values(|f: StackFrame| stack_frame_view(f));
    let mut frames: Vec<AttachmentValue> = Vec::new();
    let mut i: usize = 0;
    while i < stack_trace.frames.len()
        invariant
            i <= stack_trace.frames@.len(),
            target == stack_trace.frames@.map_values(|f: StackFrame| stack_frame_view(f)),
            array_items(frames@) == target.subrange(0, i as int),
        decreases stack_trace.frames@.len() - i,
    {
        push_item(&mut frames, build_stack_frame_value(&stack_trace.frames[i]));
        assert(target.subrange(0, i as int + 1) =~= target.subrange(0, i as int).push(target[i as int]));
        i += 1;
    }
    assert(target.subrange(0, stack_trace.frames@.len() as int) =~= target);
    push_field(&mut map, "frames", AttachmentValue::Array(frames));
    push_opt_string_field(&mut map, "raw", &stack_trace.raw);
    proof {
        assert(object_entries(map@) =~= seq![("format"@, ValueView::String(format_name(stack_trace.format))),
            ("frames"@, ValueView::Array(target))] + opt_field("raw"@, opt_string_view(opt_view(stack_trace.raw))));
    }
    AttachmentValue::Object(map)
}

/// The value of a report's display causes.
pub open spec fn display_causes_view(items: Seq<String>, state: CauseTraversalState) -> ValueView {
    ValueView::Object(seq![
        ("items"@, ValueView::Array(items.map_values(|s: String| ValueView::String(s@)))),
        ("truncated"@, ValueView::Bool(state.truncated)),
        ("cycle_detected"@, ValueView::Bool(state.cycle_detected)),
    ])
}

/// Builds the value of a report's display causes from their texts.
pub fn build_display_causes(display_causes: &Vec<String>, state: CauseTraversalState) -> (v: AttachmentValue)
    ensures
        value_view(v) == display_causes_view(display_causes@, state),
{
    let ghost target = display_causes@.map_values(|s: String| ValueView::String(s@));
    let mut items: Vec<AttachmentValue> = Vec::new();
    let mut i: usize = 0;
    while i < display_causes.len()
        invariant
            i <= display_causes@.len(),
            target == display_causes@.map_values(|s: String| ValueView::String(s@)),
            array_items(items@) == target.subrange(0, i as int),
        decreases display_causes@.len() - i,
    {
        push_item(&mut items, AttachmentValue::String(display_causes[i].clone()));
        assert(target.subrange(0, i as int + 1) =~= target.subrange(0, i as int).push(target[i as int]));
        i += 1;
    }
    assert(target.subrange(0, display_causes@.len() as int) =~= target);
    let mut map: Vec<(String, AttachmentValue)> = Vec::new();
    push_field(&mut map, "items", AttachmentValue::Array(items));
    push_field(&mut map, "truncated", AttachmentValue::Bool(state.truncated));
    push_field(&mut map, "cycle_detected", AttachmentValue::Bool(state.cycle_detected));
    proof {
        assert(object_entries(map@) =~= seq![
            ("items"@, ValueView::Array(target)),
            ("truncated"@, ValueView::Bool(state.truncated)),
            ("cycle_detected"@, ValueView::Bool(state.cycle_detected)),
        ]);
    }
    AttachmentValue::Object(map)
}

/// Integer values of node ids.
pub open spec fn id_items(ids: Seq<usize>) -> Seq<ValueView> {
    ids.map_values(|id: usize| ValueView::Integer((id as i64) as int))
}

fn build_id_array(ids: &Vec<usize>) -> (v: AttachmentValue)
    ensures
        value_view(v) == ValueView::Array(id_items(ids@)),
{
    let ghost target = id_items(ids@);
    let mut items: Vec<AttachmentValue> = Vec::new();
    let mut i: usize = 0;
    while i < ids.len()
        invariant
            i <= ids@.len(),
            target == id_items(ids@),
            array_items(items@) == target.subrange(0, i as int),
        decreases ids@.len() - i,
    {
        push_item(&mut items, AttachmentValue::Integer(ids[i] as i64));
        assert(target.subrange(0, i as int + 1) =~= target.subrange(0, i as int).push(target[i as int]));
        i += 1;
    }
    assert(target.subrange(0, ids@.len() as int) =~= target);
    AttachmentValue::Array(items)
}

/// The value of an exported source-error node.
pub open spec fn source_node_view(n: ExportedSourceErrorNode) -> ValueView {
    ValueView::Object(
        seq![("message"@, ValueView::String(n.message@))]
            + opt_field("type"@, opt_string_view(opt_view(n.error_type)))
            + seq![("source_roots"@, ValueView::Array(id_items(n.source_roots@)))],
    )
}

/// Builds the value of an exported source-error node.
pub fn build_source_err_node(node: &ExportedSourceErrorNode) -> (v: AttachmentValue)
    ensures
        value_view(v) == source_node_view(*node),
{
    let mut map: Vec<(String, AttachmentValue)> = Vec::new();
    push_field(&mut map, "message", AttachmentValue::String(node.message.clone()));
    push_opt_string_field(&mut map, "type", &node.error_type);
    push_field(&mut map, "source_roots", build_id_array(&node.source_roots));
    proof {
        assert(object_entries(map@) =~= seq![("message"@, ValueView::String(node.message@))]
            + opt_field("type"@, opt_string_view(opt_view(node.error_type)))
            + seq![("source_roots"@, ValueView::Array(id_items(node.source_roots@)))]);
    }
    AttachmentValue::Object(map)
}

/// The value of an exported source-error chain.
pub open spec fn exported_chain_view(e: ExportedSourceErrorChain) -> ValueView {
    ValueView::Object(seq![
        ("roots"@, ValueView::Array(id_items(e.roots@))),
        ("nodes"@, ValueView::Array(e.nodes@.map_values(|n: ExportedSourceErrorNode| source_node_view(n)))),
        ("truncated"@, ValueView::Bool(e.truncated)),
        ("cycle_detected"@, ValueView::Bool(e.cycle_detected)),
    ])
}

/// Builds the value of an exported source-error chain.
pub fn build_exported_chain_value(exported: &ExportedSourceErrorChain) -> (v: AttachmentValue)
    ensures
        value_view(v) == exported_chain_view(*exported),
{
    let ghost target = exported.nodes@.map_values(|n: ExportedSourceErrorNode| source_node_view(n));
    let mut nodes: Vec<AttachmentValue> = Vec::new();
    let mut i: usize = 0;
    while i < exported.nodes.len()
        invariant
            i <= exported.nodes@.len(),
            target == exported.nodes@.map_values(|n: ExportedSourceErrorNode| source_node_view(n)),
            array_items(nodes@) == target.subrange(0, i as int),
        decreases exported.nodes@.len() - i,
    {
        push_item(&mut nodes, build_source_err_node(&exported.nodes[i]));
        assert(target.subrange(0, i as int + 1) =~= target.subrange(0, i as int).push(target[i as int]));
        i += 1;
    }
    assert(target.subrange(0, exported.nodes@.len() as int) =~= target);
    let mut map: Vec<(String, AttachmentValue)> = Vec::new();
    push_field(&mut map, "roots", build_id_array(&exported.roots));
    push_field(&mut map, "nodes", AttachmentValue::Array(nodes));
    push_field(&mut map, "truncated", AttachmentValue::Bool(exported.truncated));
    push_field(&mut map, "cycle_detected", AttachmentValue::Bool(exported.cycle_detected));
    proof {
        assert(object_entries(map@) =~= seq![
            ("roots"@, ValueView::Array(id_items(exported.roots@))),
            ("nodes"@, ValueView::Array(target)),
            ("truncated"@, ValueView::Bool(exported.truncated)),
            ("cycle_detected"@, ValueView::Bool(exported.cycle_detected)),
        ]);
    }
    AttachmentValue::Object(map)
}

/// Builds the value of a source-error chain: the chain is exported
/// (renumbered densely, report wrapper type names dropped when asked) and
/// the export described.
pub fn build_source_errors_value(source_errors: &SourceErrorChain, hide_report_wrapper_types: bool, report_type_label: &str) -> (v: AttachmentValue)
    ensures
        exists|e: ExportedSourceErrorChain| {
            &&& exists|order: Seq<usize>| exported_as(*source_errors, e, order, hide_report_wrapper_types, report_type_label@)
            &&& exported_as(*source_errors, e, export_order(*source_errors), hide_report_wrapper_types, report_type_label@)
            &&& dense(e)
            &&& value_view(v) == exported_chain_view(e)
        },
{
    let exported = source_errors.export_with_options(hide_report_wrapper_types, report_type_label);
    let v = build_exported_chain_value(&exported);
    assert(exists|order: Seq<usize>| exported_as(*source_errors, exported, order, hide_report_wrapper_types, report_type_label@));
    v
}

/// An attachment of a report: a note's text, or a named payload.
#[derive(Debug)]
pub enum Attachment {
    Note { message: String },
    Payload { name: String, value: AttachmentValue, media_type: Option<String> },
}

impl Attachment {
    /// A note with the given text.
    pub fn note(message: String) -> (a: Attachment)
        ensures
            a == (Attachment::Note { message }),
    {
        Attachment::Note { message }
    }

    /// A payload with a name, a value and an optional media type.
    pub fn payload(name: String, value: AttachmentValue, media_type: Option<String>) -> (a: Attachment)
        ensures
            a == (Attachment::Payload { name, value, media_type }),
    {
        Attachment::Payload { name, value, media_type }
    }

    /// The text of a note; nothing for a payload.
    pub fn as_note(&self) -> (r: Option<String>)
        ensures
            *self matches Attachment::Note { message } ==> r == Some(message),
            *self is Payload ==> r is None,
    {
        match self {
            Attachment::Note { message } => Some(message.clone()),
            Attachment::Payload { .. } => None,
        }
    }

    /// The name, value and media type of a payload; nothing for a note.
    pub fn as_payload(&self) -> (r: Option<(&str, &AttachmentValue, Option<&str>)>)
        ensures
            *self matches Attachment::Payload { name, value, media_type } ==> r matches Some(t)
                && t.0@ == name@ && *t.1 == value
                && opt_view(media_type) == (match t.2 {
                    Some(x) => Some(x@),
                    None => None,
                }),
            *self is Note ==> r is None,
    {
        match self {
            Attachment::Note { .. } => None,
            Attachment::Payload { name, value, media_type } => {
                let m = match media_type {
                    Some(x) => Some(x.as_str()),
                    None => None,
                };
                Some((name.as_str(), value, m))
            },
        }
    }
}

/// The value of an attachment.
pub open spec fn attachment_item_view(a: Attachment) -> ValueView {
    match a {
        Attachment::Note { message } => ValueView::Object(seq![
            ("kind"@, ValueView::String("note"@)),
            ("message"@, ValueView::String(message@)),
        ]),
        Attachment::Payload { name, value, media_type } => ValueView::Object(
            seq![("kind"@, ValueView::String("payload"@)), ("name"@, ValueView::String(name@)), ("value"@, value_view(value))]
                + opt_field("media_type"@, opt_string_view(opt_view(media_type))),
        ),
    }
}

/// The object of a context map: each entry's key with its converted value.
pub open spec fn context_object_view(entries: Seq<(String, crate::values::ContextValue)>) -> ValueView {
    ValueView::Object(entries.map_values(|e: (String, crate::values::ContextValue)| (e.0@, context_value_view(e.1))))
}

fn build_context_object(map: &ContextMap) -> (v: AttachmentValue)
    ensures
        value_view(v) == context_object_view(map.entries()),
{
    let entries = map.iter();
    let ghost target = map.entries().map_values(|e: (String, crate::values::ContextValue)| (e.0@, context_value_view(e.1)));
    let mut out: Vec<(String, AttachmentValue)> = Vec::new();
    let mut i: usize = 0;
    while i < entries.len()
        invariant
            entries@ == map.entries(),
            i <= entries@.len(),
            target == map.entries().map_values(|e: (String, crate::values::ContextValue)| (e.0@, context_value_view(e.1))),
            object_entries(out@) == target.subrange(0, i as int),
        decreases entries@.len() - i,
    {
        push_field(&mut out, entries[i].0.as_str(), attachment_from_context(&entries[i].1));
        assert(target.subrange(0, i as int + 1) =~= target.subrange(0, i as int).push(target[i as int]));
        i += 1;
    }
    assert(target.subrange(0, entries@.len() as int) =~= target);
    AttachmentValue::Object(out)
}

/// Builds the values of a report's context, system context and attachments.
pub fn build_ctx_and_attachments(context: &ContextMap, system: &ContextMap, attachments: &[Attachment]) -> (r: (AttachmentValue, AttachmentValue, Vec<AttachmentValue>))
    ensures
        value_view(r.0) == context_object_view(context.entries()),
        value_view(r.1) == context_object_view(system.entries()),
        array_items(r.2@) == attachments@.map_values(|a: Attachment| attachment_item_view(a)),
{
    let ctx = build_context_object(context);
    let sys = build_context_object(system);
    let ghost target = attachments@.map_values(|a: Attachment| attachment_item_view(a));
    let mut items: Vec<AttachmentValue> = Vec::new();
    let mut i: usize = 0;
    while i < attachments.len()
        invariant
            i <= attachments@.len(),
            target == attachments@.map_values(|a: Attachment| attachment_item_view(a)),
            array_items(items@) == target.subrange(0, i as int),
        decreases attachments@.len() - i,
    {
        let mut map: Vec<(String, AttachmentValue)> = Vec::new();
        match &attachments[i] {
            Attachment::Note { message } => {
                push_field(&mut map, "kind", AttachmentValue::String("note".to_string()));
                push_field(&mut map, "message", AttachmentValue::String(message.clone()));
                assert(object_entries(map@) =~= seq![
                    ("kind"@, ValueView::String("note"@)),
                    ("message"@, ValueView::String(message@)),
                ]);
            },
            Attachment::Payload { name, value, media_type } => {
                push_field(&mut map, "kind", AttachmentValue::String("payload".to_string()));
                push_field(&mut map, "name", AttachmentValue::String(name.clone()));
                push_field(&mut map, "value", clone_value(value));
                push_opt_string_field(&mut map, "media_type", media_type);
                assert(object_entries(map@) =~= seq![("kind"@, ValueView::String("payload"@)), ("name"@, ValueView::String(name@)), ("value"@, value_view(*value))]
                    + opt_field("media_type"@, opt_string_view(opt_view(*media_type))));
            },
        }
        push_item(&mut items, AttachmentValue::Object(map));
        assert(target.subrange(0, i as int + 1) =~= target.subrange(0, i as int).push(target[i as int]));
        i += 1;
    }
    assert(target.subrange(0, attachments@.len() as int) =~= target);
    (ctx, sys, items)
}

} // verus!
