//! The JSON sections of a rendered report: the error, its metadata, the
//! source-error chains and display causes, the trace, and the stack trace.

use vstd::prelude::*;
use crate::json::{json_string, decimal, bool_text, field_prefix, closing, push_char, write_object_field, write_array_item_prefix, close_object, close_array, write_json_string, write_u64, write_bool};
use crate::values::{array_body, array_json, error_code_json, write_error_code};
use crate::metadata::ReportMetadata;
use crate::types::SeverityState;
use crate::report_model::{severity_label, severity_name};
use crate::chain_export::{ExportedSourceErrorChain, ExportedSourceErrorNode};
use crate::trace_model::{ReportTrace, TraceContext, TraceEvent, TraceEventAttribute, context_is_empty};
use crate::levels::trace_event_level_name;
use crate::hex_id::ascii_text;
use crate::values::{AttachmentValue, JsonWriteError, write_attachment_value};
use crate::attachment_text::{attachment_json, nesting};
use crate::stack_filter::{StackFrame, StackTrace, should_filter_frame, spec_should_filter_frame};
use crate::options::StackTraceFilter;
use crate::types::{StackTraceFormat, CauseCollectOptions};
use crate::options::ReportRenderOptions;
use crate::report_model::{Report, causes_within, causes_state};
use crate::values::{ContextValue, context_value_json, write_context_value};
use crate::metadata::{ContextMap, sorted_ctx};
use crate::ir_values::Attachment;

verus! {

/// The fields of an object, each preceded by its separator, indentation and key.
#[verifier::opaque]
pub open spec fn object_body(fields: Seq<(Seq<char>, Seq<char>)>, pretty: bool, depth: nat) -> Seq<char>
    decreases fields.len(),
{
    if fields.len() == 0 {
        Seq::empty()
    } else {
        object_body(fields.drop_last(), pretty, depth) + field_prefix(fields.len() == 1, pretty, depth, fields.last().0) + fields.last().1
    }
}

/// A JSON object of the given keys and value texts at depth `depth`.
pub open spec fn object_json(fields: Seq<(Seq<char>, Seq<char>)>, pretty: bool, depth: nat) -> Seq<char> {
    seq!['{'] + object_body(fields, pretty, depth) + closing(pretty, depth, fields.len() == 0, '}')
}

/// The field `key` when there is a value.
pub open spec fn opt_pair(key: Seq<char>, v: Option<Seq<char>>) -> Seq<(Seq<char>, Seq<char>)> {
    match v {
        Some(t) => seq![(key, t)],
        None => Seq::empty(),
    }
}

/// A string as a JSON string, when there is one.
pub open spec fn opt_json_string(v: Option<String>) -> Option<Seq<char>> {
    match v {
        Some(s) => Some(json_string(s@)),
        None => None,
    }
}

proof fn lemma_object_push(fields: Seq<(Seq<char>, Seq<char>)>, k: Seq<char>, v: Seq<char>, pretty: bool, depth: nat)
    ensures
        object_body(fields.push((k, v)), pretty, depth) == object_body(fields, pretty, depth) + field_prefix(fields.len() == 0, pretty, depth, k) + v,
{
    reveal(object_body);
    assert(fields.push((k, v)).drop_last() =~= fields);
}

proof fn lemma_object_empty(pretty: bool, depth: nat)
    ensures
        object_body(Seq::empty(), pretty, depth) == Seq::<char>::empty(),
{
    reveal(object_body);
}

/// Adding a field to an object being written keeps the written text equal
/// to the opening brace and the fields so far.
proof fn lemma_field_written(before: Seq<char>, start: Seq<char>, fields: Seq<(Seq<char>, Seq<char>)>, k: Seq<char>, v: Seq<char>, pretty: bool, depth: nat, after: Seq<char>)
    requires
        before == start + seq!['{'] + object_body(fields, pretty, depth),
        after == before + field_prefix(fields.len() == 0, pretty, depth, k) + v,
    ensures
        after == start + seq!['{'] + object_body(fields.push((k, v)), pretty, depth),
{
    lemma_object_push(fields, k, v, pretty, depth);
    assert(after =~= start + seq!['{'] + object_body(fields.push((k, v)), pretty, depth));
}

proof fn lemma_array_push(items: Seq<Seq<char>>, v: Seq<char>, pretty: bool, depth: nat)
    ensures
        array_body(items.push(v), pretty, depth) == array_body(items, pretty, depth) + crate::json::item_prefix(items.len() == 0, pretty, depth) + v,
{
    assert(items.push(v).drop_last() =~= items);
}

/// Decimal texts of ids.
pub open spec fn id_items(ids: Seq<usize>) -> Seq<Seq<char>> {
    ids.map_values(|id: usize| decimal(id as nat))
}

/// Writes a JSON array of ids at depth `depth`.
pub fn write_id_array(out: &mut String, pretty: bool, depth: usize, ids: &[usize])
    requires
        depth < usize::MAX,
    ensures
        final(out)@ == old(out)@ + array_json(id_items(ids@), pretty, depth as nat),
{
    let ghost start = out@;
    let ghost items = id_items(ids@);
    push_char(out, '[');
    let mut first = true;
    let mut i: usize = 0;
    assert(items.take(0) =~= Seq::<Seq<char>>::empty());
    while i < ids.len()
        invariant
            items == id_items(ids@),
            depth < usize::MAX,
            i <= ids@.len(),
            first == (i == 0),
            out@ == start + seq!['['] + array_body(items.take(i as int), pretty, depth as nat),
        decreases ids@.len() - i,
    {
        write_array_item_prefix(out, pretty, depth, &mut first);
        write_u64(out, ids[i] as u64);
        proof {
            assert(items.take(i as int + 1) =~= items.take(i as int).push(items[i as int]));
            lemma_array_push(items.take(i as int), items[i as int], pretty, depth as nat);
        }
        i += 1;
    }
    assert(items.take(ids@.len() as int) =~= items);
    close_array(out, pretty, depth, first);
    assert(out@ =~= start + array_json(items, pretty, depth as nat));
}

/// Writes a JSON array of strings at depth `depth`.
pub fn write_string_array(out: &mut String, pretty: bool, depth: usize, texts: &[String])
    requires
        depth < usize::MAX,
    ensures
        final(out)@ == old(out)@ + array_json(texts@.map_values(|s: String| json_string(s@)), pretty, depth as nat),
{
    let ghost start = out@;
    let ghost items = texts@.map_values(|s: String| json_string(s@));
    push_char(out, '[');
    let mut first = true;
    let mut i: usize = 0;
    assert(items.take(0) =~= Seq::<Seq<char>>::empty());
    while i < texts.len()
        invariant
            items == texts@.map_values(|s: String| json_string(s@)),
            depth < usize::MAX,
            i <= texts@.len(),
            first == (i == 0),
            out@ == start + seq!['['] + array_body(items.take(i as int), pretty, depth as nat),
        decreases texts@.len() - i,
    {
        write_array_item_prefix(out, pretty, depth, &mut first);
        write_json_string(out, texts[i].as_str());
        proof {
            assert(items.take(i as int + 1) =~= items.take(i as int).push(items[i as int]));
            lemma_array_push(items.take(i as int), items[i as int], pretty, depth as nat);
        }
        i += 1;
    }
    assert(items.take(texts@.len() as int) =~= items);
    close_array(out, pretty, depth, first);
    assert(out@ =~= start + array_json(items, pretty, depth as nat));
}

/// The error object: its message and type name.
pub open spec fn error_object_json(message: Seq<char>, error_type: Seq<char>, pretty: bool, depth: nat) -> Seq<char> {
    object_json(seq![("message"@, json_string(message)), ("type"@, json_string(error_type))], pretty, depth)
}

/// Writes the error object: its message and type name.
pub fn write_error_object(out: &mut String, pretty: bool, depth: usize, message: &str, error_type: &str)
    requires
        depth < usize::MAX,
    ensures
        final(out)@ == old(out)@ + error_object_json(message@, error_type@, pretty, depth as nat),
{
    let ghost start = out@;
    let ghost mut fs: Seq<(Seq<char>, Seq<char>)> = Seq::empty();
    let mut first = true;
    push_char(out, '{');
    proof {
        lemma_object_empty(pretty, depth as nat);
    }
    assert(out@ =~= start + seq!['{'] + object_body(fs, pretty, depth as nat));
    let ghost b = out@;
    write_object_field(out, pretty, depth, &mut first, "message");
    write_json_string(out, message);
    proof {
        lemma_field_written(b, start, fs, "message"@, json_string(message@), pretty, depth as nat, out@);
        fs = fs.push(("message"@, json_string(message@)));
    }
    let ghost b = out@;
    write_object_field(out, pretty, depth, &mut first, "type");
    write_json_string(out, error_type);
    proof {
        lemma_field_written(b, start, fs, "type"@, json_string(error_type@), pretty, depth as nat, out@);
        fs = fs.push(("type"@, json_string(error_type@)));
    }
    close_object(out, pretty, depth, first);
    assert(fs =~= seq![("message"@, json_string(message@)), ("type"@, json_string(error_type@))]);
    assert(out@ =~= start + error_object_json(message@, error_type@, pretty, depth as nat));
}

/// The governance fields of a report's metadata: error code, severity,
/// category and retryable flag, each when set.
pub open spec fn metadata_pairs<State: SeverityState>(m: ReportMetadata<State>) -> Seq<(Seq<char>, Seq<char>)> {
    opt_pair("error_code"@, match m.spec_error_code() { Some(c) => Some(error_code_json(c)), None => None })
        + opt_pair("severity"@, match m.spec_state().severity_spec() { Some(s) => Some(json_string(severity_label(s))), None => None })
        + opt_pair("category"@, opt_json_string(m.spec_category()))
        + opt_pair("retryable"@, match m.spec_retryable() { Some(b) => Some(bool_text(b)), None => None })
}

/// Writes the metadata object of a report.
#[verifier::spinoff_prover]
#[verifier::rlimit(40)]
pub fn write_metadata_object<State: SeverityState>(out: &mut String, pretty: bool, depth: usize, m: &ReportMetadata<State>)
    requires
        depth < usize::MAX,
    ensures
        final(out)@ == old(out)@ + object_json(metadata_pairs(*m), pretty, depth as nat),
{
    let ghost start = out@;
    let ghost mut fs: Seq<(Seq<char>, Seq<char>)> = Seq::empty();
    let mut first = true;
    push_char(out, '{');
    proof {
        lemma_object_empty(pretty, depth as nat);
    }
    assert(out@ =~= start + seq!['{'] + object_body(fs, pretty, depth as nat));
    let ghost b = out@;
    match m.error_code() {
        Some(code) => {
            write_object_field(out, pretty, depth, &mut first, "error_code");
            write_error_code(out, code);
            proof {
                lemma_field_written(b, start, fs, "error_code"@, error_code_json(*code), pretty, depth as nat, out@);
                fs = fs.push(("error_code"@, error_code_json(*code)));
            }
        },
        None => {},
    }
    assert(fs =~= opt_pair("error_code"@, match m.spec_error_code() { Some(c) => Some(error_code_json(c)), None => None }));
    let ghost f1 = fs;
    let ghost b = out@;
    match m.severity() {
        Some(sev) => {
            write_object_field(out, pretty, depth, &mut first, "severity");
            write_json_string(out, severity_name(sev));
            proof {
                lemma_field_written(b, start, fs, "severity"@, json_string(severity_label(sev)), pretty, depth as nat, out@);
                fs = fs.push(("severity"@, json_string(severity_label(sev))));
            }
        },
        None => {},
    }
    assert(fs =~= f1 + opt_pair("severity"@, match m.spec_state().severity_spec() { Some(s) => Some(json_string(severity_label(s))), None => None }));
    let ghost f2 = fs;
    let ghost b = out@;
    match m.category() {
        Some(c) => {
            write_object_field(out, pretty, depth, &mut first, "category");
            write_json_string(out, c);
            proof {
                lemma_field_written(b, start, fs, "category"@, json_string(c@), pretty, depth as nat, out@);
                fs = fs.push(("category"@, json_string(c@)));
            }
        },
        None => {},
    }
    assert(fs =~= f2 + opt_pair("category"@, opt_json_string(m.spec_category())));
    let ghost f3 = fs;
    let ghost b = out@;
    match m.retryable() {
        Some(r) => {
            write_object_field(out, pretty, depth, &mut first, "retryable");
            write_bool(out, r);
            proof {
                lemma_field_written(b, start, fs, "retryable"@, bool_text(r), pretty, depth as nat, out@);
                fs = fs.push(("retryable"@, bool_text(r)));
            }
        },
        None => {},
    }
    assert(fs =~= f3 + opt_pair("retryable"@, match m.spec_retryable() { Some(b) => Some(bool_text(b)), None => None }));
    assert(fs =~= metadata_pairs(*m));
    close_object(out, pretty, depth, first);
    assert(out@ =~= start + object_json(metadata_pairs(*m), pretty, depth as nat));
}

/// A node of an exported source-error chain: its message, its type when
/// shown, and the ids of its sources.
pub open spec fn source_error_object_json(n: ExportedSourceErrorNode, pretty: bool, depth: nat) -> Seq<char> {
    object_json(
        seq![("message"@, json_string(n.message@))]
            + opt_pair("type"@, opt_json_string(n.error_type))
            + seq![("source_roots"@, array_json(id_items(n.source_roots@), pretty, depth + 1))],
        pretty,
        depth,
    )
}

/// Writes a node of an exported source-error chain.
pub fn write_source_error_object(out: &mut String, pretty: bool, depth: usize, node: &ExportedSourceErrorNode)
    requires
        depth + 1 < usize::MAX,
    ensures
        final(out)@ == old(out)@ + source_error_object_json(*node, pretty, depth as nat),
{
    let ghost start = out@;
    let ghost mut fs: Seq<(Seq<char>, Seq<char>)> = Seq::empty();
    let mut first = true;
    push_char(out, '{');
    proof {
        lemma_object_empty(pretty, depth as nat);
    }
    assert(out@ =~= start + seq!['{'] + object_body(fs, pretty, depth as nat));
    let ghost b = out@;
    write_object_field(out, pretty, depth, &mut first, "message");
    write_json_string(out, node.message.as_str());
    proof {
        lemma_field_written(b, start, fs, "message"@, json_string(node.message@), pretty, depth as nat, out@);
        fs = fs.push(("message"@, json_string(node.message@)));
    }
    let ghost f1 = fs;
    let ghost b = out@;
    match &node.error_type {
        Some(t) => {
            write_object_field(out, pretty, depth, &mut first, "type");
            write_json_string(out, t.as_str());
            proof {
                lemma_field_written(b, start, fs, "type"@, json_string(t@), pretty, depth as nat, out@);
                fs = fs.push(("type"@, json_string(t@)));
            }
        },
        None => {},
    }
    assert(fs =~= f1 + opt_pair("type"@, opt_json_string(node.error_type)));
    let ghost b = out@;
    write_object_field(out, pretty, depth, &mut first, "source_roots");
    write_id_array(out, pretty, depth + 1, node.source_roots.as_slice());
    proof {
        let v = array_json(id_items(node.source_roots@), pretty, depth as nat + 1);
        lemma_field_written(b, start, fs, "source_roots"@, v, pretty, depth as nat, out@);
        fs = fs.push(("source_roots"@, v));
    }
    close_object(out, pretty, depth, first);
    assert(fs =~= seq![("message"@, json_string(node.message@))]
        + opt_pair("type"@, opt_json_string(node.error_type))
        + seq![("source_roots"@, array_json(id_items(node.source_roots@), pretty, depth as nat + 1))]);
    assert(out@ =~= start + source_error_object_json(*node, pretty, depth as nat));
}

/// The items of an array of source-error nodes.
pub open spec fn node_items(nodes: Seq<ExportedSourceErrorNode>, pretty: bool, depth: nat) -> Seq<Seq<char>> {
    nodes.map_values(|n: ExportedSourceErrorNode| source_error_object_json(n, pretty, depth + 1))
}

fn write_node_array(out: &mut String, pretty: bool, depth: usize, nodes: &Vec<ExportedSourceErrorNode>)
    requires
        depth + 2 < usize::MAX,
    ensures
        final(out)@ == old(out)@ + array_json(node_items(nodes@, pretty, depth as nat), pretty, depth as nat),
{
    let ghost start = out@;
    let ghost items = node_items(nodes@, pretty, depth as nat);
    push_char(out, '[');
    let mut first = true;
    let mut i: usize = 0;
    assert(items.take(0) =~= Seq::<Seq<char>>::empty());
    while i < nodes.len()
        invariant
            items == node_items(nodes@, pretty, depth as nat),
            depth + 2 < usize::MAX,
            i <= nodes@.len(),
            first == (i == 0),
            out@ == start + seq!['['] + array_body(items.take(i as int), pretty, depth as nat),
        decreases nodes@.len() - i,
    {
        write_array_item_prefix(out, pretty, depth, &mut first);
        write_source_error_object(out, pretty, depth + 1, &nodes[i]);
        proof {
            assert(items.take(i as int + 1) =~= items.take(i as int).push(items[i as int]));
            lemma_array_push(items.take(i as int), items[i as int], pretty, depth as nat);
        }
        i += 1;
    }
    assert(items.take(nodes@.len() as int) =~= items);
    close_array(out, pretty, depth, first);
    assert(out@ =~= start + array_json(items, pretty, depth as nat));
}

/// An exported source-error chain: root ids, nodes, and whether the walk
/// was cut short or met a cycle.
pub open spec fn source_chain_json(ex: ExportedSourceErrorChain, pretty: bool, depth: nat) -> Seq<char> {
    object_json(seq![
        ("roots"@, array_json(id_items(ex.roots@), pretty, depth + 1)),
        ("nodes"@, array_json(node_items(ex.nodes@, pretty, depth + 1), pretty, depth + 1)),
        ("truncated"@, bool_text(ex.truncated)),
        ("cycle_detected"@, bool_text(ex.cycle_detected)),
    ], pretty, depth)
}

/// Writes an exported source-error chain.
#[verifier::spinoff_prover]
#[verifier::rlimit(40)]
pub fn write_source_errors_chain(out: &mut String, pretty: bool, depth: usize, ex: &ExportedSourceErrorChain)
    requires
        depth + 3 < usize::MAX,
    ensures
        final(out)@ == old(out)@ + source_chain_json(*ex, pretty, depth as nat),
{
    let ghost start = out@;
    let ghost mut fs: Seq<(Seq<char>, Seq<char>)> = Seq::empty();
    let mut first = true;
    push_char(out, '{');
    proof {
        lemma_object_empty(pretty, depth as nat);
    }
    assert(out@ =~= start + seq!['{'] + object_body(fs, pretty, depth as nat));
    let ghost b = out@;
    write_object_field(out, pretty, depth, &mut first, "roots");
    write_id_array(out, pretty, depth + 1, ex.roots.as_slice());
    let ghost v1 = array_json(id_items(ex.roots@), pretty, depth as nat + 1);
    proof {
        lemma_field_written(b, start, fs, "roots"@, v1, pretty, depth as nat, out@);
        fs = fs.push(("roots"@, v1));
    }
    let ghost b = out@;
    write_object_field(out, pretty, depth, &mut first, "nodes");
    write_node_array(out, pretty, depth + 1, &ex.nodes);
    let ghost v2 = array_json(node_items(ex.nodes@, pretty, depth as nat + 1), pretty, depth as nat + 1);
    proof {
        lemma_field_written(b, start, fs, "nodes"@, v2, pretty, depth as nat, out@);
        fs = fs.push(("nodes"@, v2));
    }
    let ghost b = out@;
    write_object_field(out, pretty, depth, &mut first, "truncated");
    write_bool(out, ex.truncated);
    proof {
        lemma_field_written(b, start, fs, "truncated"@, bool_text(ex.truncated), pretty, depth as nat, out@);
        fs = fs.push(("truncated"@, bool_text(ex.truncated)));
    }
    let ghost b = out@;
    write_object_field(out, pretty, depth, &mut first, "cycle_detected");
    write_bool(out, ex.cycle_detected);
    proof {
        lemma_field_written(b, start, fs, "cycle_detected"@, bool_text(ex.cycle_detected), pretty, depth as nat, out@);
        fs = fs.push(("cycle_detected"@, bool_text(ex.cycle_detected)));
    }
    close_object(out, pretty, depth, first);
    assert(fs =~= seq![
        ("roots"@, v1),
        ("nodes"@, v2),
        ("truncated"@, bool_text(ex.truncated)),
        ("cycle_detected"@, bool_text(ex.cycle_detected)),
    ]);
    assert(out@ =~= start + source_chain_json(*ex, pretty, depth as nat));
}

/// The display causes section: the cause texts, and whether their
/// collection was cut short or met a cycle.
pub open spec fn display_causes_json(items: Seq<String>, truncated: bool, cycle_detected: bool, pretty: bool, depth: nat) -> Seq<char> {
    object_json(seq![
        ("items"@, array_json(items.map_values(|s: String| json_string(s@)), pretty, depth + 1)),
        ("truncated"@, bool_text(truncated)),
        ("cycle_detected"@, bool_text(cycle_detected)),
    ], pretty, depth)
}

/// Writes the display causes section.
#[verifier::spinoff_prover]
#[verifier::rlimit(40)]
pub fn write_display_causes(out: &mut String, pretty: bool, depth: usize, items: &[String], truncated: bool, cycle_detected: bool)
    requires
        depth + 1 < usize::MAX,
    ensures
        final(out)@ == old(out)@ + display_causes_json(items@, truncated, cycle_detected, pretty, depth as nat),
{
    let ghost start = out@;
    let ghost mut fs: Seq<(Seq<char>, Seq<char>)> = Seq::empty();
    let mut first = true;
    push_char(out, '{');
    proof {
        lemma_object_empty(pretty, depth as nat);
    }
    assert(out@ =~= start + seq!['{'] + object_body(fs, pretty, depth as nat));
    let ghost b = out@;
    write_object_field(out, pretty, depth, &mut first, "items");
    write_string_array(out, pretty, depth + 1, items);
    let ghost v1 = array_json(items@.map_values(|s: String| json_string(s@)), pretty, depth as nat + 1);
    proof {
        lemma_field_written(b, start, fs, "items"@, v1, pretty, depth as nat, out@);
        fs = fs.push(("items"@, v1));
    }
    let ghost b = out@;
    write_object_field(out, pretty, depth, &mut first, "truncated");
    write_bool(out, truncated);
    proof {
        lemma_field_written(b, start, fs, "truncated"@, bool_text(truncated), pretty, depth as nat, out@);
        fs = fs.push(("truncated"@, bool_text(truncated)));
    }
    let ghost b = out@;
    write_object_field(out, pretty, depth, &mut first, "cycle_detected");
    write_bool(out, cycle_detected);
    proof {
        lemma_field_written(b, start, fs, "cycle_detected"@, bool_text(cycle_detected), pretty, depth as nat, out@);
        fs = fs.push(("cycle_detected"@, bool_text(cycle_detected)));
    }
    close_object(out, pretty, depth, first);
    assert(fs =~= seq![("items"@, v1), ("truncated"@, bool_text(truncated)), ("cycle_detected"@, bool_text(cycle_detected))]);
    assert(out@ =~= start + display_causes_json(items@, truncated, cycle_detected, pretty, depth as nat));
}

/// The trace context fields: ids, sampling flag and state, each when set.
pub open spec fn trace_context_pairs(c: TraceContext) -> Seq<(Seq<char>, Seq<char>)> {
    opt_pair("trace_id"@, match c.trace_id { Some(id) => Some(json_string(ascii_text(id@))), None => None })
        + opt_pair("span_id"@, match c.span_id { Some(id) => Some(json_string(ascii_text(id@))), None => None })
        + opt_pair("parent_span_id"@, match c.parent_span_id { Some(id) => Some(json_string(ascii_text(id@))), None => None })
        + opt_pair("sampled"@, match c.sampled { Some(b) => Some(bool_text(b)), None => None })
        + opt_pair("trace_state"@, match c.trace_state { Some(t) => Some(json_string(t.text())), None => None })
}

/// Writes a trace context object.
#[verifier::spinoff_prover]
#[verifier::rlimit(40)]
pub fn write_trace_context_value(out: &mut String, pretty: bool, depth: usize, c: &TraceContext)
    requires
        depth < usize::MAX,
    ensures
        final(out)@ == old(out)@ + object_json(trace_context_pairs(*c), pretty, depth as nat),
{
    let ghost start = out@;
    let ghost mut fs: Seq<(Seq<char>, Seq<char>)> = Seq::empty();
    let mut first = true;
    push_char(out, '{');
    proof {
        lemma_object_empty(pretty, depth as nat);
    }
    assert(out@ =~= start + seq!['{'] + object_body(fs, pretty, depth as nat));
    let ghost b = out@;
    match &c.trace_id {
        Some(id) => {
            let t = id.to_text();
            write_object_field(out, pretty, depth, &mut first, "trace_id");
            write_json_string(out, t.as_str());
            proof {
                lemma_field_written(b, start, fs, "trace_id"@, json_string(ascii_text(id@)), pretty, depth as nat, out@);
                fs = fs.push(("trace_id"@, json_string(ascii_text(id@))));
            }
        },
        None => {},
    }
    let ghost f1 = fs;
    let ghost b = out@;
    match &c.span_id {
        Some(id) => {
            let t = id.to_text();
            write_object_field(out, pretty, depth, &mut first, "span_id");
            write_json_string(out, t.as_str());
            proof {
                lemma_field_written(b, start, fs, "span_id"@, json_string(ascii_text(id@)), pretty, depth as nat, out@);
                fs = fs.push(("span_id"@, json_string(ascii_text(id@))));
            }
        },
        None => {},
    }
    let ghost f2 = fs;
    let ghost b = out@;
    match &c.parent_span_id {
        Some(id) => {
            let t = id.to_text();
            write_object_field(out, pretty, depth, &mut first, "parent_span_id");
            write_json_string(out, t.as_str());
            proof {
                lemma_field_written(b, start, fs, "parent_span_id"@, json_string(ascii_text(id@)), pretty, depth as nat, out@);
                fs = fs.push(("parent_span_id"@, json_string(ascii_text(id@))));
            }
        },
        None => {},
    }
    let ghost f3 = fs;
    let ghost b = out@;
    match c.sampled {
        Some(v) => {
            write_object_field(out, pretty, depth, &mut first, "sampled");
            write_bool(out, v);
            proof {
                lemma_field_written(b, start, fs, "sampled"@, bool_text(v), pretty, depth as nat, out@);
                fs = fs.push(("sampled"@, bool_text(v)));
            }
        },
        None => {},
    }
    let ghost f4 = fs;
    let ghost b = out@;
    match &c.trace_state {
        Some(t) => {
            write_object_field(out, pretty, depth, &mut first, "trace_state");
            write_json_string(out, t.as_str());
            proof {
                lemma_field_written(b, start, fs, "trace_state"@, json_string(t.text()), pretty, depth as nat, out@);
                fs = fs.push(("trace_state"@, json_string(t.text())));
            }
        },
        None => {},
    }
    assert(fs =~= trace_context_pairs(*c));
    close_object(out, pretty, depth, first);
    assert(out@ =~= start + object_json(trace_context_pairs(*c), pretty, depth as nat));
}

/// A trace event attribute as `{"key": .., "value": ..}`, or `None` when
/// its value holds a non-finite float.
pub open spec fn attr_json(a: TraceEventAttribute, pretty: bool, depth: nat) -> Option<Seq<char>> {
    match attachment_json(a.value, pretty, depth + 1) {
        Some(v) => Some(object_json(seq![("key"@, json_string(a.key@)), ("value"@, v)], pretty, depth)),
        None => None,
    }
}

/// The texts of attributes written at depth `depth`, or `None` when one of
/// them cannot be written.
pub open spec fn attrs_items(attrs: Seq<TraceEventAttribute>, pretty: bool, depth: nat) -> Option<Seq<Seq<char>>>
    decreases attrs.len(),
{
    if attrs.len() == 0 {
        Some(Seq::empty())
    } else {
        match (attrs_items(attrs.drop_last(), pretty, depth), attr_json(attrs.last(), pretty, depth)) {
            (Some(a), Some(b)) => Some(a.push(b)),
            _ => None,
        }
    }
}

/// Every attribute value nests shallowly enough to be written at `depth`.
pub open spec fn attrs_fit(attrs: Seq<TraceEventAttribute>, depth: nat) -> bool {
    forall|i: int| 0 <= i < attrs.len() ==> depth + 2 * nesting(#[trigger] attrs[i].value) + 8 < usize::MAX
}

proof fn lemma_attrs_none(attrs: Seq<TraceEventAttribute>, k: int, pretty: bool, depth: nat)
    requires
        0 <= k <= attrs.len(),
        attrs_items(attrs.take(k), pretty, depth) is None,
    ensures
        attrs_items(attrs, pretty, depth) is None,
    decreases attrs.len() - k,
{
    if k < attrs.len() {
        assert(attrs.take(k + 1).drop_last() =~= attrs.take(k));
        lemma_attrs_none(attrs, k + 1, pretty, depth);
    } else {
        assert(attrs.take(k) =~= attrs);
    }
}

fn write_attr_value(out: &mut String, pretty: bool, depth: usize, a: &TraceEventAttribute) -> (r: Result<(), JsonWriteError>)
    requires
        depth + 2 * nesting(a.value) + 4 < usize::MAX,
    ensures
        r is Ok <==> attr_json(*a, pretty, depth as nat) is Some,
        r is Ok ==> final(out)@ == old(out)@ + attr_json(*a, pretty, depth as nat)->0,
{
    let ghost start = out@;
    let ghost mut fs: Seq<(Seq<char>, Seq<char>)> = Seq::empty();
    let mut first = true;
    push_char(out, '{');
    proof {
        lemma_object_empty(pretty, depth as nat);
    }
    assert(out@ =~= start + seq!['{'] + object_body(fs, pretty, depth as nat));
    let ghost b = out@;
    write_object_field(out, pretty, depth, &mut first, "key");
    write_json_string(out, a.key.as_str());
    proof {
        lemma_field_written(b, start, fs, "key"@, json_string(a.key@), pretty, depth as nat, out@);
        fs = fs.push(("key"@, json_string(a.key@)));
    }
    let ghost b = out@;
    write_object_field(out, pretty, depth, &mut first, "value");
    let ghost b2 = out@;
    let res = write_attachment_value(out, pretty, depth + 1, &a.value);
    if res.is_err() {
        return res;
    }
    proof {
        let v = attachment_json(a.value, pretty, depth as nat + 1)->0;
        lemma_field_written(b, start, fs, "value"@, v, pretty, depth as nat, out@);
        fs = fs.push(("value"@, v));
    }
    close_object(out, pretty, depth, first);
    assert(fs =~= seq![("key"@, json_string(a.key@)), ("value"@, attachment_json(a.value, pretty, depth as nat + 1)->0)]);
    assert(out@ =~= start + attr_json(*a, pretty, depth as nat)->0);
    Ok(())
}

#[verifier::spinoff_prover]
#[verifier::rlimit(40)]
fn write_attr_array(out: &mut String, pretty: bool, depth: usize, attrs: &Vec<TraceEventAttribute>) -> (r: Result<(), JsonWriteError>)
    requires
        attrs_fit(attrs@, depth as nat),
    ensures
        r is Ok <==> attrs_items(attrs@, pretty, depth as nat + 1) is Some,
        r is Ok ==> final(out)@ == old(out)@ + array_json(attrs_items(attrs@, pretty, depth as nat + 1)->0, pretty, depth as nat),
{
    let ghost start = out@;
    push_char(out, '[');
    let mut first = true;
    let mut i: usize = 0;
    assert(attrs@.take(0) =~= Seq::<TraceEventAttribute>::empty());
    while i < attrs.len()
        invariant
            attrs_fit(attrs@, depth as nat),
            i <= attrs@.len(),
            first == (i == 0),
            attrs_items(attrs@.take(i as int), pretty, depth as nat + 1) is Some,
            attrs_items(attrs@.take(i as int), pretty, depth as nat + 1)->0.len() == i,
            out@ == start + seq!['['] + array_body(attrs_items(attrs@.take(i as int), pretty, depth as nat + 1)->0, pretty, depth as nat),
        decreases attrs@.len() - i,
    {
        let ghost prev = attrs_items(attrs@.take(i as int), pretty, depth as nat + 1)->0;
        write_array_item_prefix(out, pretty, depth, &mut first);
        assert(depth + 1 + 2 * nesting(attrs@[i as int].value) + 4 < usize::MAX);
        let res = write_attr_value(out, pretty, depth + 1, &attrs[i]);
        proof {
            assert(attrs@.take(i as int + 1).drop_last() =~= attrs@.take(i as int));
            assert(attrs@.take(i as int + 1).last() == attrs@[i as int]);
        }
        if res.is_err() {
            proof {
                lemma_attrs_none(attrs@, i as int + 1, pretty, depth as nat + 1);
            }
            return res;
        }
        proof {
            let item = attr_json(attrs@[i as int], pretty, depth as nat + 1)->0;
            lemma_array_push(prev, item, pretty, depth as nat);
        }
        i += 1;
    }
    assert(attrs@.take(attrs@.len() as int) =~= attrs@);
    close_array(out, pretty, depth, first);
    assert(out@ =~= start + array_json(attrs_items(attrs@, pretty, depth as nat + 1)->0, pretty, depth as nat));
    Ok(())
}

/// The fields of a trace event other than its attributes: the name and,
/// when details are shown, its level and timestamp.
pub open spec fn event_pairs(e: TraceEvent, details: bool) -> Seq<(Seq<char>, Seq<char>)> {
    seq![("name"@, json_string(e.name@))] + if details {
        opt_pair("level"@, match e.level { Some(l) => Some(json_string(trace_event_level_name(l))), None => None })
            + opt_pair("timestamp_unix_nano"@, match e.timestamp_unix_nano { Some(t) => Some(decimal(t as nat)), None => None })
    } else {
        Seq::empty()
    }
}

/// A trace event object; with details, its non-empty attributes are listed
/// too. `None` when an attribute cannot be written.
pub open spec fn trace_event_json(e: TraceEvent, details: bool, pretty: bool, depth: nat) -> Option<Seq<char>> {
    if details && e.attributes@.len() > 0 {
        match attrs_items(e.attributes@, pretty, depth + 2) {
            Some(items) => Some(object_json(event_pairs(e, details) + seq![("attributes"@, array_json(items, pretty, depth + 1))], pretty, depth)),
            None => None,
        }
    } else {
        Some(object_json(event_pairs(e, details), pretty, depth))
    }
}

/// Writes a trace event object.
#[verifier::spinoff_prover]
#[verifier::rlimit(40)]
pub fn write_trace_event_value(out: &mut String, pretty: bool, depth: usize, e: &TraceEvent, details: bool) -> (r: Result<(), JsonWriteError>)
    requires
        attrs_fit(e.attributes@, depth as nat + 1),
        depth + 1 < usize::MAX,
    ensures
        r is Ok <==> trace_event_json(*e, details, pretty, depth as nat) is Some,
        r is Ok ==> final(out)@ == old(out)@ + trace_event_json(*e, details, pretty, depth as nat)->0,
{
    let ghost start = out@;
    let ghost mut fs: Seq<(Seq<char>, Seq<char>)> = Seq::empty();
    let mut first = true;
    push_char(out, '{');
    proof {
        lemma_object_empty(pretty, depth as nat);
    }
    assert(out@ =~= start + seq!['{'] + object_body(fs, pretty, depth as nat));
    let ghost b = out@;
    write_object_field(out, pretty, depth, &mut first, "name");
    write_json_string(out, e.name.as_str());
    proof {
        lemma_field_written(b, start, fs, "name"@, json_string(e.name@), pretty, depth as nat, out@);
        fs = fs.push(("name"@, json_string(e.name@)));
    }
    if details {
        let ghost b = out@;
        match &e.level {
            Some(l) => {
                write_object_field(out, pretty, depth, &mut first, "level");
                write_json_string(out, l.as_str());
                proof {
                    lemma_field_written(b, start, fs, "level"@, json_string(trace_event_level_name(*l)), pretty, depth as nat, out@);
                    fs = fs.push(("level"@, json_string(trace_event_level_name(*l))));
                }
            },
            None => {},
        }
        let ghost b = out@;
        match e.timestamp_unix_nano {
            Some(t) => {
                write_object_field(out, pretty, depth, &mut first, "timestamp_unix_nano");
                write_u64(out, t);
                proof {
                    lemma_field_written(b, start, fs, "timestamp_unix_nano"@, decimal(t as nat), pretty, depth as nat, out@);
                    fs = fs.push(("timestamp_unix_nano"@, decimal(t as nat)));
                }
            },
            None => {},
        }
    }
    assert(fs =~= event_pairs(*e, details));
    if details && e.attributes.len() > 0 {
        let ghost b = out@;
        write_object_field(out, pretty, depth, &mut first, "attributes");
        let res = write_attr_array(out, pretty, depth + 1, &e.attributes);
        if res.is_err() {
            return res;
        }
        let ghost v = array_json(attrs_items(e.attributes@, pretty, depth as nat + 2)->0, pretty, depth as nat + 1);
        proof {
            lemma_field_written(b, start, fs, "attributes"@, v, pretty, depth as nat, out@);
            fs = fs.push(("attributes"@, v));
        }
        assert(fs == event_pairs(*e, details) + seq![("attributes"@, v)]);
        close_object(out, pretty, depth, first);
        assert(out@ =~= start + object_json(fs, pretty, depth as nat));
    } else {
        close_object(out, pretty, depth, first);
        assert(out@ =~= start + object_json(fs, pretty, depth as nat));
    }
    Ok(())
}

/// The texts of trace events written at depth `depth`, or `None` when one
/// of them cannot be written.
pub open spec fn events_items(events: Seq<TraceEvent>, details: bool, pretty: bool, depth: nat) -> Option<Seq<Seq<char>>>
    decreases events.len(),
{
    if events.len() == 0 {
        Some(Seq::empty())
    } else {
        match (events_items(events.drop_last(), details, pretty, depth), trace_event_json(events.last(), details, pretty, depth)) {
            (Some(a), Some(b)) => Some(a.push(b)),
            _ => None,
        }
    }
}

/// Every event's attributes nest shallowly enough to be written at `depth`.
pub open spec fn events_fit(events: Seq<TraceEvent>, depth: nat) -> bool {
    forall|i: int| 0 <= i < events.len() ==> attrs_fit(#[trigger] events[i].attributes@, depth)
}

proof fn lemma_events_none(events: Seq<TraceEvent>, k: int, details: bool, pretty: bool, depth: nat)
    requires
        0 <= k <= events.len(),
        events_items(events.take(k), details, pretty, depth) is None,
    ensures
        events_items(events, details, pretty, depth) is None,
    decreases events.len() - k,
{
    if k < events.len() {
        assert(events.take(k + 1).drop_last() =~= events.take(k));
        lemma_events_none(events, k + 1, details, pretty, depth);
    } else {
        assert(events.take(k) =~= events);
    }
}

/// Writes the array of trace events at depth `depth`.
#[verifier::spinoff_prover]
#[verifier::rlimit(60)]
pub fn write_trace_events_array(out: &mut String, pretty: bool, depth: usize, events: &[TraceEvent], details: bool) -> (r: Result<(), JsonWriteError>)
    requires
        events_fit(events@, depth as nat + 2),
        depth + 2 < usize::MAX,
    ensures
        r is Ok <==> events_items(events@, details, pretty, depth as nat + 1) is Some,
        r is Ok ==> final(out)@ == old(out)@ + array_json(events_items(events@, details, pretty, depth as nat + 1)->0, pretty, depth as nat),
{
    let ghost start = out@;
    push_char(out, '[');
    let mut first = true;
    let mut i: usize = 0;
    assert(events@.take(0) =~= Seq::<TraceEvent>::empty());
    while i < events.len()
        invariant
            events_fit(events@, depth as nat + 2),
            depth + 2 < usize::MAX,
            i <= events@.len(),
            first == (i == 0),
            events_items(events@.take(i as int), details, pretty, depth as nat + 1) is Some,
            out@ == start + seq!['['] + array_body(events_items(events@.take(i as int), details, pretty, depth as nat + 1)->0, pretty, depth as nat),
        decreases events@.len() - i,
    {
        let ghost prev = events_items(events@.take(i as int), details, pretty, depth as nat + 1)->0;
        write_array_item_prefix(out, pretty, depth, &mut first);
        let res = write_trace_event_value(out, pretty, depth + 1, &events[i], details);
        proof {
            assert(events@.take(i as int + 1).drop_last() =~= events@.take(i as int));
            assert(events@.take(i as int + 1).last() == events@[i as int]);
        }
        if res.is_err() {
            proof {
                lemma_events_none(events@, i as int + 1, details, pretty, depth as nat + 1);
            }
            return res;
        }
        proof {
            let item = trace_event_json(events@[i as int], details, pretty, depth as nat + 1)->0;
            lemma_array_push(prev, item, pretty, depth as nat);
        }
        i += 1;
    }
    assert(events@.take(events@.len() as int) =~= events@);
    close_array(out, pretty, depth, first);
    assert(out@ =~= start + array_json(events_items(events@, details, pretty, depth as nat + 1)->0, pretty, depth as nat));
    Ok(())
}

/// The trace section: `{}` for an empty trace, else its context (an empty
/// one when none is set) and its events. `None` when an event attribute
/// cannot be written.
pub open spec fn trace_json(t: ReportTrace, details: bool, pretty: bool, depth: nat) -> Option<Seq<char>> {
    if context_is_empty(t.context_or_empty()) && t.spec_events().len() == 0 {
        Some("{}"@)
    } else {
        match events_items(t.spec_events(), details, pretty, depth + 2) {
            Some(items) => Some(object_json(seq![
                ("context"@, object_json(trace_context_pairs(t.context_or_empty()), pretty, depth + 1)),
                ("events"@, array_json(items, pretty, depth + 1)),
            ], pretty, depth)),
            None => None,
        }
    }
}

/// Writes the trace section of a report.
pub fn write_trace_object(out: &mut String, pretty: bool, depth: usize, t: &ReportTrace, details: bool) -> (r: Result<(), JsonWriteError>)
    requires
        events_fit(t.spec_events(), depth as nat + 3),
        depth + 3 < usize::MAX,
    ensures
        r is Ok <==> trace_json(*t, details, pretty, depth as nat) is Some,
        r is Ok ==> final(out)@ == old(out)@ + trace_json(*t, details, pretty, depth as nat)->0,
{
    let ghost start = out@;
    if t.is_empty() {
        push_str_literal_braces(out);
        return Ok(());
    }
    let empty_context = TraceContext::new();
    let context = match t.context() {
        Some(c) => c,
        None => &empty_context,
    };
    let no_events: Vec<TraceEvent> = Vec::new();
    let events: &[TraceEvent] = match t.events() {
        Some(e) => e,
        None => no_events.as_slice(),
    };
    assert(*context == t.context_or_empty());
    assert(events@ == t.spec_events());
    let ghost mut fs: Seq<(Seq<char>, Seq<char>)> = Seq::empty();
    let mut first = true;
    push_char(out, '{');
    proof {
        lemma_object_empty(pretty, depth as nat);
    }
    assert(out@ =~= start + seq!['{'] + object_body(fs, pretty, depth as nat));
    let ghost b = out@;
    write_object_field(out, pretty, depth, &mut first, "context");
    write_trace_context_value(out, pretty, depth + 1, context);
    proof {
        let v = object_json(trace_context_pairs(t.context_or_empty()), pretty, depth as nat + 1);
        lemma_field_written(b, start, fs, "context"@, v, pretty, depth as nat, out@);
        fs = fs.push(("context"@, v));
    }
    let ghost b = out@;
    write_object_field(out, pretty, depth, &mut first, "events");
    let res = write_trace_events_array(out, pretty, depth + 1, events, details);
    if res.is_err() {
        return res;
    }
    let ghost ve = array_json(events_items(t.spec_events(), details, pretty, depth as nat + 2)->0, pretty, depth as nat + 1);
    let ghost vc = object_json(trace_context_pairs(t.context_or_empty()), pretty, depth as nat + 1);
    proof {
        lemma_field_written(b, start, fs, "events"@, ve, pretty, depth as nat, out@);
        fs = fs.push(("events"@, ve));
    }
    assert(fs =~= seq![("context"@, vc), ("events"@, ve)]);
    close_object(out, pretty, depth, first);
    assert(out@ =~= start + object_json(fs, pretty, depth as nat));
    Ok(())
}

fn push_str_literal_braces(out: &mut String)
    ensures
        final(out)@ == old(out)@ + "{}"@,
{
    let ghost start = out@;
    push_char(out, '{');
    push_char(out, '}');
    proof {
        reveal_strlit("{}");
    }
    assert(out@ =~= start + "{}"@);
}

/// The fields of a stack frame that are known: symbol, module path, file,
/// line and column.
pub open spec fn frame_pairs(f: StackFrame) -> Seq<(Seq<char>, Seq<char>)> {
    opt_pair("symbol"@, opt_json_string(f.symbol))
        + opt_pair("module_path"@, opt_json_string(f.module))
        + opt_pair("file"@, opt_json_string(f.file))
        + opt_pair("line"@, match f.line { Some(v) => Some(decimal(v as nat)), None => None })
        + opt_pair("column"@, match f.column { Some(v) => Some(decimal(v as nat)), None => None })
}

/// Writes a stack frame object.
#[verifier::spinoff_prover]
#[verifier::rlimit(60)]
pub fn write_stack_frame_object(out: &mut String, pretty: bool, depth: usize, f: &StackFrame)
    requires
        depth < usize::MAX,
    ensures
        final(out)@ == old(out)@ + object_json(frame_pairs(*f), pretty, depth as nat),
{
    let ghost start = out@;
    let ghost mut fs: Seq<(Seq<char>, Seq<char>)> = Seq::empty();
    let mut first = true;
    push_char(out, '{');
    proof {
        lemma_object_empty(pretty, depth as nat);
    }
    assert(out@ =~= start + seq!['{'] + object_body(fs, pretty, depth as nat));
    let ghost b = out@;
    match &f.symbol {
        Some(v) => {
            write_object_field(out, pretty, depth, &mut first, "symbol");
            write_json_string(out, v.as_str());
            proof {
                lemma_field_written(b, start, fs, "symbol"@, json_string(v@), pretty, depth as nat, out@);
                fs = fs.push(("symbol"@, json_string(v@)));
            }
        },
        None => {},
    }
    assert(fs =~= opt_pair("symbol"@, opt_json_string(f.symbol)));
    let ghost g1 = fs;
    let ghost b = out@;
    match &f.module {
        Some(v) => {
            write_object_field(out, pretty, depth, &mut first, "module_path");
            write_json_string(out, v.as_str());
            proof {
                lemma_field_written(b, start, fs, "module_path"@, json_string(v@), pretty, depth as nat, out@);
                fs = fs.push(("module_path"@, json_string(v@)));
            }
        },
        None => {},
    }
    assert(fs =~= g1 + opt_pair("module_path"@, opt_json_string(f.module)));
    let ghost g2 = fs;
    let ghost b = out@;
    match &f.file {
        Some(v) => {
            write_object_field(out, pretty, depth, &mut first, "file");
            write_json_string(out, v.as_str());
            proof {
                lemma_field_written(b, start, fs, "file"@, json_string(v@), pretty, depth as nat, out@);
                fs = fs.push(("file"@, json_string(v@)));
            }
        },
        None => {},
    }
    assert(fs =~= g2 + opt_pair("file"@, opt_json_string(f.file)));
    let ghost g3 = fs;
    let ghost b = out@;
    match f.line {
        Some(v) => {
            write_object_field(out, pretty, depth, &mut first, "line");
            write_u64(out, v as u64);
            proof {
                lemma_field_written(b, start, fs, "line"@, decimal(v as nat), pretty, depth as nat, out@);
                fs = fs.push(("line"@, decimal(v as nat)));
            }
        },
        None => {},
    }
    assert(fs =~= g3 + opt_pair("line"@, match f.line { Some(v) => Some(decimal(v as nat)), None => None }));
    let ghost g4 = fs;
    let ghost b = out@;
    match f.column {
        Some(v) => {
            write_object_field(out, pretty, depth, &mut first, "column");
            write_u64(out, v as u64);
            proof {
                lemma_field_written(b, start, fs, "column"@, decimal(v as nat), pretty, depth as nat, out@);
                fs = fs.push(("column"@, decimal(v as nat)));
            }
        },
        None => {},
    }
    assert(fs =~= g4 + opt_pair("column"@, match f.column { Some(v) => Some(decimal(v as nat)), None => None }));
    assert(fs =~= frame_pairs(*f));
    close_object(out, pretty, depth, first);
    assert(out@ =~= start + object_json(frame_pairs(*f), pretty, depth as nat));
}

/// The frames that `filter` keeps, in order.
pub open spec fn kept_frames(frames: Seq<StackFrame>, filter: StackTraceFilter) -> Seq<StackFrame>
    decreases frames.len(),
{
    if frames.len() == 0 {
        Seq::empty()
    } else {
        let prev = kept_frames(frames.drop_last(), filter);
        if spec_should_filter_frame(frames.last(), filter) { prev } else { prev.push(frames.last()) }
    }
}

/// At most `n` of the first items.
pub open spec fn at_most<T>(s: Seq<T>, n: nat) -> Seq<T> {
    if s.len() <= n { s } else { s.take(n as int) }
}

/// The frame items of a native stack trace: the first `max_lines` frames
/// that the filter keeps, as frame objects at depth `depth`.
pub open spec fn frame_items(frames: Seq<StackFrame>, filter: StackTraceFilter, max_lines: nat, pretty: bool, depth: nat) -> Seq<Seq<char>> {
    at_most(kept_frames(frames, filter), max_lines).map_values(|f: StackFrame| object_json(frame_pairs(f), pretty, depth))
}

/// The stack trace object: its format, then the kept frames of a native
/// trace, or the raw text of a raw one when present.
pub open spec fn stack_trace_json(st: StackTrace, filter: StackTraceFilter, max_lines: nat, pretty: bool, depth: nat) -> Seq<char> {
    object_json(
        seq![("format"@, json_string(match st.format { StackTraceFormat::Native => "native"@, StackTraceFormat::Raw => "raw"@ }))]
            + match st.format {
                StackTraceFormat::Native => seq![("frames"@, array_json(frame_items(st.frames@, filter, max_lines, pretty, depth + 2), pretty, depth + 1))],
                StackTraceFormat::Raw => opt_pair("raw"@, opt_json_string(st.raw)),
            },
        pretty,
        depth,
    )
}

#[verifier::spinoff_prover]
#[verifier::rlimit(60)]
fn write_frames_array(out: &mut String, pretty: bool, depth: usize, frames: &Vec<StackFrame>, filter: &StackTraceFilter, max_lines: usize)
    requires
        depth + 1 < usize::MAX,
    ensures
        final(out)@ == old(out)@ + array_json(frame_items(frames@, *filter, max_lines as nat, pretty, depth as nat + 1), pretty, depth as nat),
{
    let ghost start = out@;
    push_char(out, '[');
    let mut first = true;
    let mut written: usize = 0;
    let mut i: usize = 0;
    assert(frames@.take(0) =~= Seq::<StackFrame>::empty());
    while i < frames.len()
        invariant
            depth + 1 < usize::MAX,
            i <= frames@.len(),
            written <= max_lines,
            written == at_most(kept_frames(frames@.take(i as int), *filter), max_lines as nat).len(),
            first == (written == 0),
            out@ == start + seq!['['] + array_body(frame_items(frames@.take(i as int), *filter, max_lines as nat, pretty, depth as nat + 1), pretty, depth as nat),
        decreases frames@.len() - i,
    {
        let ghost prev_kept = kept_frames(frames@.take(i as int), *filter);
        let ghost prev_items = frame_items(frames@.take(i as int), *filter, max_lines as nat, pretty, depth as nat + 1);
        proof {
            assert(frames@.take(i as int + 1).drop_last() =~= frames@.take(i as int));
            assert(frames@.take(i as int + 1).last() == frames@[i as int]);
        }
        let keep = !should_filter_frame(&frames[i], filter);
        if keep && written < max_lines {
            write_array_item_prefix(out, pretty, depth, &mut first);
            write_stack_frame_object(out, pretty, depth + 1, &frames[i]);
            proof {
                let item = object_json(frame_pairs(frames@[i as int]), pretty, depth as nat + 1);
                lemma_array_push(prev_items, item, pretty, depth as nat);
                let new_kept = prev_kept.push(frames@[i as int]);
                assert(kept_frames(frames@.take(i as int + 1), *filter) == new_kept);
                assert(at_most(new_kept, max_lines as nat) =~= at_most(prev_kept, max_lines as nat).push(frames@[i as int]));
                assert(frame_items(frames@.take(i as int + 1), *filter, max_lines as nat, pretty, depth as nat + 1) =~= prev_items.push(item));
            }
            written += 1;
        } else {
            proof {
                if keep {
                    let new_kept = prev_kept.push(frames@[i as int]);
                    assert(at_most(new_kept, max_lines as nat) =~= at_most(prev_kept, max_lines as nat));
                }
                assert(frame_items(frames@.take(i as int + 1), *filter, max_lines as nat, pretty, depth as nat + 1) =~= prev_items);
            }
        }
        i += 1;
    }
    assert(frames@.take(frames@.len() as int) =~= frames@);
    close_array(out, pretty, depth, first);
    assert(out@ =~= start + array_json(frame_items(frames@, *filter, max_lines as nat, pretty, depth as nat + 1), pretty, depth as nat));
}

/// Writes a stack trace object, keeping the first `max_lines` frames that
/// `filter` keeps.
#[verifier::spinoff_prover]
#[verifier::rlimit(40)]
pub fn write_stack_trace_object(out: &mut String, pretty: bool, depth: usize, st: &StackTrace, filter: &StackTraceFilter, max_lines: usize)
    requires
        depth + 2 < usize::MAX,
    ensures
        final(out)@ == old(out)@ + stack_trace_json(*st, *filter, max_lines as nat, pretty, depth as nat),
{
    let ghost start = out@;
    let ghost mut fs: Seq<(Seq<char>, Seq<char>)> = Seq::empty();
    let mut first = true;
    push_char(out, '{');
    proof {
        lemma_object_empty(pretty, depth as nat);
    }
    assert(out@ =~= start + seq!['{'] + object_body(fs, pretty, depth as nat));
    let label = match st.format {
        StackTraceFormat::Native => "native",
        StackTraceFormat::Raw => "raw",
    };
    let ghost b = out@;
    write_object_field(out, pretty, depth, &mut first, "format");
    write_json_string(out, label);
    proof {
        lemma_field_written(b, start, fs, "format"@, json_string(label@), pretty, depth as nat, out@);
        fs = fs.push(("format"@, json_string(label@)));
    }
    let ghost f1 = fs;
    let ghost b = out@;
    match st.format {
        StackTraceFormat::Native => {
            write_object_field(out, pretty, depth, &mut first, "frames");
            write_frames_array(out, pretty, depth + 1, &st.frames, filter, max_lines);
            proof {
                let v = array_json(frame_items(st.frames@, *filter, max_lines as nat, pretty, depth as nat + 2), pretty, depth as nat + 1);
                lemma_field_written(b, start, fs, "frames"@, v, pretty, depth as nat, out@);
                fs = fs.push(("frames"@, v));
            }
        },
        StackTraceFormat::Raw => {
            match &st.raw {
                Some(raw) => {
                    write_object_field(out, pretty, depth, &mut first, "raw");
                    write_json_string(out, raw.as_str());
                    proof {
                        lemma_field_written(b, start, fs, "raw"@, json_string(raw@), pretty, depth as nat, out@);
                        fs = fs.push(("raw"@, json_string(raw@)));
                    }
                },
                None => {},
            }
        },
    }
    close_object(out, pretty, depth, first);
    assert(fs =~= seq![("format"@, json_string(match st.format { StackTraceFormat::Native => "native"@, StackTraceFormat::Raw => "raw"@ }))]
        + match st.format {
            StackTraceFormat::Native => seq![("frames"@, array_json(frame_items(st.frames@, *filter, max_lines as nat, pretty, depth as nat + 2), pretty, depth as nat + 1))],
            StackTraceFormat::Raw => opt_pair("raw"@, opt_json_string(st.raw)),
        });
    assert(out@ =~= start + stack_trace_json(*st, *filter, max_lines as nat, pretty, depth as nat));
}

/// The stack trace section, when shown and present.
pub open spec fn stack_part<E, State: SeverityState>(r: Report<E, State>, options: ReportRenderOptions, pretty: bool, depth: nat) -> Seq<(Seq<char>, Seq<char>)> {
    if options.show_stack_trace_section && r.spec_stack_trace() is Some {
        seq![("stack_trace"@, stack_trace_json(r.spec_stack_trace()->0, options.stack_trace_filter, options.stack_trace_max_lines as nat, pretty, depth + 1))]
    } else {
        Seq::empty()
    }
}

/// The display causes section, when shown and present: the causes within
/// the source depth limit and the traversal flags.
pub open spec fn causes_part<E, State: SeverityState>(r: Report<E, State>, options: ReportRenderOptions, pretty: bool, depth: nat) -> Seq<(Seq<char>, Seq<char>)> {
    let causes = causes_within(r.spec_display_causes(), options.max_source_depth as nat);
    let state = causes_state(r.spec_display_causes(), options.max_source_depth as nat);
    if options.show_cause_chains_section && r.spec_display_causes() is Some {
        seq![("display_causes"@, display_causes_json(causes, state.truncated, state.cycle_detected, pretty, depth + 1))]
    } else {
        Seq::empty()
    }
}

/// A source-error chain section, when cause chains are shown and the view
/// is present.
pub open spec fn chain_part(key: Seq<char>, options: ReportRenderOptions, chain: Option<ExportedSourceErrorChain>, pretty: bool, depth: nat) -> Seq<(Seq<char>, Seq<char>)> {
    if options.show_cause_chains_section && chain is Some {
        seq![(key, source_chain_json(chain->0, pretty, depth + 1))]
    } else {
        Seq::empty()
    }
}

/// The sections of the diagnostics bag that the options show and the
/// report has: stack trace, display causes, then the origin and the
/// diagnostic source-error chains (given as exported views).
pub open spec fn diag_bag_pairs<E, State: SeverityState>(
    r: Report<E, State>,
    options: ReportRenderOptions,
    origin: Option<ExportedSourceErrorChain>,
    diagnostic: Option<ExportedSourceErrorChain>,
    pretty: bool,
    depth: nat,
) -> Seq<(Seq<char>, Seq<char>)> {
    stack_part(r, options, pretty, depth) + causes_part(r, options, pretty, depth)
        + chain_part("origin_source_errors"@, options, origin, pretty, depth)
        + chain_part("diagnostic_source_errors"@, options, diagnostic, pretty, depth)
}

fn copy_texts(v: &Vec<&String>) -> (r: Vec<String>)
    ensures
        r@.len() == v@.len(),
        forall|k: int| 0 <= k < r@.len() ==> r@[k] == *v@[k],
{
    let mut r: Vec<String> = Vec::new();
    let mut i: usize = 0;
    while i < v.len()
        invariant
            i <= v@.len(),
            r@.len() == i,
            forall|k: int| 0 <= k < i ==> r@[k] == *v@[k],
        decreases v@.len() - i,
    {
        let t: String = v[i].clone();
        r.push(t);
        i += 1;
    }
    r
}

/// Writes the diagnostics bag of a report: the sections that `options`
/// shows and the report has, the source-error chains given as exported
/// views.
#[verifier::spinoff_prover]
#[verifier::rlimit(60)]
pub fn write_diag_bag<E, State: SeverityState>(
    out: &mut String,
    pretty: bool,
    depth: usize,
    r: &Report<E, State>,
    options: &ReportRenderOptions,
    origin: Option<&ExportedSourceErrorChain>,
    diagnostic: Option<&ExportedSourceErrorChain>,
)
    requires
        depth + 6 < usize::MAX,
    ensures
        final(out)@ == old(out)@ + object_json(diag_bag_pairs(*r, *options, match origin { Some(o) => Some(*o), None => None }, match diagnostic { Some(d) => Some(*d), None => None }, pretty, depth as nat), pretty, depth as nat),
{
    let ghost start = out@;
    let ghost og = match origin { Some(o) => Some(*o), None => None::<ExportedSourceErrorChain> };
    let ghost dg = match diagnostic { Some(d) => Some(*d), None => None::<ExportedSourceErrorChain> };
    let ghost mut fs: Seq<(Seq<char>, Seq<char>)> = Seq::empty();
    let mut first = true;
    push_char(out, '{');
    proof {
        lemma_object_empty(pretty, depth as nat);
    }
    assert(out@ =~= start + seq!['{'] + object_body(fs, pretty, depth as nat));
    let ghost b = out@;
    if options.show_stack_trace_section {
        match r.stack_trace() {
            Some(st) => {
                write_object_field(out, pretty, depth, &mut first, "stack_trace");
                write_stack_trace_object(out, pretty, depth + 1, st, &options.stack_trace_filter, options.stack_trace_max_lines);
                proof {
                    let v = stack_trace_json(*st, options.stack_trace_filter, options.stack_trace_max_lines as nat, pretty, depth as nat + 1);
                    lemma_field_written(b, start, fs, "stack_trace"@, v, pretty, depth as nat, out@);
                    fs = fs.push(("stack_trace"@, v));
                }
            },
            None => {},
        }
    }
    assert(fs =~= stack_part(*r, *options, pretty, depth as nat));
    let ghost g1 = fs;
    let ghost b = out@;
    if options.show_cause_chains_section {
        match r.display_causes_chain() {
            Some(_) => {
                let (visited, state) = r.collect_causes_ext(CauseCollectOptions { max_depth: options.max_source_depth, detect_cycle: options.detect_source_cycle });
                let texts = copy_texts(&visited);
                assert(texts@ =~= causes_within(r.spec_display_causes(), options.max_source_depth as nat));
                write_object_field(out, pretty, depth, &mut first, "display_causes");
                write_display_causes(out, pretty, depth + 1, texts.as_slice(), state.truncated, state.cycle_detected);
                proof {
                    let v = display_causes_json(texts@, state.truncated, state.cycle_detected, pretty, depth as nat + 1);
                    lemma_field_written(b, start, fs, "display_causes"@, v, pretty, depth as nat, out@);
                    fs = fs.push(("display_causes"@, v));
                }
            },
            None => {},
        }
    }
    assert(fs =~= g1 + causes_part(*r, *options, pretty, depth as nat));
    let ghost g2 = fs;
    let ghost b = out@;
    if options.show_cause_chains_section {
        match origin {
            Some(o) => {
                write_object_field(out, pretty, depth, &mut first, "origin_source_errors");
                write_source_errors_chain(out, pretty, depth + 1, o);
                proof {
                    let v = source_chain_json(*o, pretty, depth as nat + 1);
                    lemma_field_written(b, start, fs, "origin_source_errors"@, v, pretty, depth as nat, out@);
                    fs = fs.push(("origin_source_errors"@, v));
                }
            },
            None => {},
        }
    }
    assert(fs =~= g2 + chain_part("origin_source_errors"@, *options, og, pretty, depth as nat));
    let ghost g3 = fs;
    let ghost b = out@;
    if options.show_cause_chains_section {
        match diagnostic {
            Some(d) => {
                write_object_field(out, pretty, depth, &mut first, "diagnostic_source_errors");
                write_source_errors_chain(out, pretty, depth + 1, d);
                proof {
                    let v = source_chain_json(*d, pretty, depth as nat + 1);
                    lemma_field_written(b, start, fs, "diagnostic_source_errors"@, v, pretty, depth as nat, out@);
                    fs = fs.push(("diagnostic_source_errors"@, v));
                }
            },
            None => {},
        }
    }
    assert(fs =~= g3 + chain_part("diagnostic_source_errors"@, *options, dg, pretty, depth as nat));
    assert(fs =~= diag_bag_pairs(*r, *options, og, dg, pretty, depth as nat));
    close_object(out, pretty, depth, first);
    assert(out@ =~= start + object_json(diag_bag_pairs(*r, *options, og, dg, pretty, depth as nat), pretty, depth as nat));
}

/// The fields of context entries in the order given, each value's JSON at
/// `depth`, or `None` when a value holds a non-finite float.
pub open spec fn ctx_pairs(entries: Seq<(String, ContextValue)>, pretty: bool, depth: nat) -> Option<Seq<(Seq<char>, Seq<char>)>>
    decreases entries.len(),
{
    if entries.len() == 0 {
        Some(Seq::empty())
    } else {
        match (ctx_pairs(entries.drop_last(), pretty, depth), context_value_json(entries.last().1, pretty, depth)) {
            (Some(a), Some(b)) => Some(a.push((entries.last().0@, b))),
            _ => None,
        }
    }
}

/// A context map as a JSON object: its entries listed by key, each value as
/// a `{"kind": .., "value": ..}` object; `None` when a value holds a
/// non-finite float.
pub open spec fn context_object_json(entries: Seq<(String, ContextValue)>, pretty: bool, depth: nat) -> Option<Seq<char>> {
    match ctx_pairs(sorted_ctx(entries), pretty, depth + 1) {
        Some(fields) => Some(object_json(fields, pretty, depth)),
        None => None,
    }
}

proof fn lemma_ctx_pairs_none(entries: Seq<(String, ContextValue)>, k: int, pretty: bool, depth: nat)
    requires
        0 <= k <= entries.len(),
        ctx_pairs(entries.take(k), pretty, depth) is None,
    ensures
        ctx_pairs(entries, pretty, depth) is None,
    decreases entries.len() - k,
{
    if k < entries.len() {
        assert(entries.take(k + 1).drop_last() =~= entries.take(k));
        lemma_ctx_pairs_none(entries, k + 1, pretty, depth);
    } else {
        assert(entries.take(k) =~= entries);
    }
}

proof fn lemma_ctx_pairs_len(entries: Seq<(String, ContextValue)>, pretty: bool, depth: nat)
    requires
        ctx_pairs(entries, pretty, depth) is Some,
    ensures
        ctx_pairs(entries, pretty, depth)->0.len() == entries.len(),
    decreases entries.len(),
{
    if entries.len() > 0 {
        lemma_ctx_pairs_len(entries.drop_last(), pretty, depth);
    }
}

/// Writes a context map as a JSON object, its entries listed by key.
fn write_ctx_map_object(out: &mut String, pretty: bool, depth: usize, map: &ContextMap) -> (r: Result<(), JsonWriteError>)
    requires
        depth + 4 < usize::MAX,
    ensures
        r is Ok <==> context_object_json(map.entries(), pretty, depth as nat) is Some,
        r is Ok ==> final(out)@ == old(out)@ + context_object_json(map.entries(), pretty, depth as nat)->0,
{
    let ghost start = out@;
    let ghost sorted = sorted_ctx(map.entries());
    let entries = map.sorted_entries();
    let mut first = true;
    push_char(out, '{');
    proof {
        lemma_object_empty(pretty, depth as nat);
        assert(sorted.take(0) =~= Seq::<(String, ContextValue)>::empty());
    }
    let mut i: usize = 0;
    while i < entries.len()
        invariant
            sorted == sorted_ctx(map.entries()),
            entries@.len() == sorted.len(),
            forall|k: int| 0 <= k < entries@.len() ==> *entries@[k] == #[trigger] sorted[k],
            depth + 4 < usize::MAX,
            i <= entries@.len(),
            first == (i == 0),
            ctx_pairs(sorted.take(i as int), pretty, depth as nat + 1) is Some,
            out@ == start + seq!['{'] + object_body(ctx_pairs(sorted.take(i as int), pretty, depth as nat + 1)->0, pretty, depth as nat),
        decreases entries@.len() - i,
    {
        let ghost prev = ctx_pairs(sorted.take(i as int), pretty, depth as nat + 1)->0;
        let ghost b = out@;
        let entry = entries[i];
        proof {
            assert(sorted.take(i as int + 1).drop_last() =~= sorted.take(i as int));
            assert(sorted.take(i as int + 1).last() == sorted[i as int]);
            lemma_ctx_pairs_len(sorted.take(i as int), pretty, depth as nat + 1);
        }
        write_object_field(out, pretty, depth, &mut first, entry.0.as_str());
        let res = write_context_value(out, pretty, depth + 1, &entry.1);
        if res.is_err() {
            proof {
                lemma_ctx_pairs_none(sorted, i as int + 1, pretty, depth as nat + 1);
            }
            return res;
        }
        proof {
            let v = context_value_json(entry.1, pretty, depth as nat + 1)->0;
            lemma_field_written(b, start, prev, entry.0@, v, pretty, depth as nat, out@);
        }
        i += 1;
    }
    proof {
        assert(sorted.take(sorted.len() as int) =~= sorted);
        lemma_ctx_pairs_len(sorted, pretty, depth as nat + 1);
    }
    close_object(out, pretty, depth, first);
    assert(out@ =~= start + context_object_json(map.entries(), pretty, depth as nat)->0);
    Ok(())
}

/// Writes the report's context as a JSON object, its entries listed by key;
/// fails when a value holds a non-finite float.
pub fn write_context_object<E, State: SeverityState>(out: &mut String, pretty: bool, depth: usize, report: &Report<E, State>) -> (r: Result<(), JsonWriteError>)
    requires
        depth + 4 < usize::MAX,
    ensures
        r is Ok <==> context_object_json(report.spec_context(), pretty, depth as nat) is Some,
        r is Ok ==> final(out)@ == old(out)@ + context_object_json(report.spec_context(), pretty, depth as nat)->0,
{
    write_ctx_map_object(out, pretty, depth, report.context())
}

/// Writes the report's system context as a JSON object, its entries listed
/// by key; fails when a value holds a non-finite float.
pub fn write_system_object<E, State: SeverityState>(out: &mut String, pretty: bool, depth: usize, report: &Report<E, State>) -> (r: Result<(), JsonWriteError>)
    requires
        depth + 4 < usize::MAX,
    ensures
        r is Ok <==> context_object_json(report.spec_system(), pretty, depth as nat) is Some,
        r is Ok ==> final(out)@ == old(out)@ + context_object_json(report.spec_system(), pretty, depth as nat)->0,
{
    write_ctx_map_object(out, pretty, depth, report.system())
}

/// A note attachment: `{"kind": "note", "message": ..}`.
pub open spec fn note_json(message: Seq<char>, pretty: bool, depth: nat) -> Seq<char> {
    object_json(seq![("kind"@, json_string("note"@)), ("message"@, json_string(message))], pretty, depth)
}

/// A payload attachment: its kind, name, value and media type (`null` when
/// there is none); `None` when the value holds a non-finite float.
pub open spec fn payload_json(name: Seq<char>, value: AttachmentValue, media_type: Option<String>, pretty: bool, depth: nat) -> Option<Seq<char>> {
    match attachment_json(value, pretty, depth + 1) {
        Some(v) => Some(object_json(seq![
            ("kind"@, json_string("payload"@)),
            ("name"@, json_string(name)),
            ("value"@, v),
            ("media_type"@, media_type_json(media_type)),
        ], pretty, depth)),
        None => None,
    }
}

/// A media type as a JSON string, or `null`.
pub open spec fn media_type_json(media_type: Option<String>) -> Seq<char> {
    match media_type {
        Some(m) => json_string(m@),
        None => "null"@,
    }
}

/// The JSON object of an attachment.
pub open spec fn attachment_entry_json(a: Attachment, pretty: bool, depth: nat) -> Option<Seq<char>> {
    match a {
        Attachment::Note { message } => Some(note_json(message@, pretty, depth)),
        Attachment::Payload { name, value, media_type } => payload_json(name@, value, media_type, pretty, depth),
    }
}

/// The texts of attachments written at depth `depth`, or `None` when one of
/// them cannot be written.
pub open spec fn attachment_items(atts: Seq<Attachment>, pretty: bool, depth: nat) -> Option<Seq<Seq<char>>>
    decreases atts.len(),
{
    if atts.len() == 0 {
        Some(Seq::empty())
    } else {
        match (attachment_items(atts.drop_last(), pretty, depth), attachment_entry_json(atts.last(), pretty, depth)) {
            (Some(a), Some(b)) => Some(a.push(b)),
            _ => None,
        }
    }
}

/// The attachments array: one object per attachment, in order; `None` when
/// a payload holds a non-finite float.
pub open spec fn attachments_array_json(atts: Seq<Attachment>, pretty: bool, depth: nat) -> Option<Seq<char>> {
    match attachment_items(atts, pretty, depth + 1) {
        Some(items) => Some(array_json(items, pretty, depth)),
        None => None,
    }
}

/// Every payload value nests shallowly enough to be written at `depth`.
pub open spec fn attachments_fit(atts: Seq<Attachment>, depth: nat) -> bool {
    forall|i: int| 0 <= i < atts.len() ==> (#[trigger] atts[i] matches Attachment::Payload { value, .. }
        ==> depth + 2 * nesting(value) + 8 < usize::MAX)
}

proof fn lemma_attachment_items_none(atts: Seq<Attachment>, k: int, pretty: bool, depth: nat)
    requires
        0 <= k <= atts.len(),
        attachment_items(atts.take(k), pretty, depth) is None,
    ensures
        attachment_items(atts, pretty, depth) is None,
    decreases atts.len() - k,
{
    if k < atts.len() {
        assert(atts.take(k + 1).drop_last() =~= atts.take(k));
        lemma_attachment_items_none(atts, k + 1, pretty, depth);
    } else {
        assert(atts.take(k) =~= atts);
    }
}

/// Writes a note attachment.
pub fn write_note_obj(out: &mut String, pretty: bool, depth: usize, message: &str)
    requires
        depth < usize::MAX,
    ensures
        final(out)@ == old(out)@ + note_json(message@, pretty, depth as nat),
{
    let ghost start = out@;
    let ghost mut fs: Seq<(Seq<char>, Seq<char>)> = Seq::empty();
    let mut first = true;
    push_char(out, '{');
    proof {
        lemma_object_empty(pretty, depth as nat);
    }
    assert(out@ =~= start + seq!['{'] + object_body(fs, pretty, depth as nat));
    let ghost b = out@;
    write_object_field(out, pretty, depth, &mut first, "kind");
    write_json_string(out, "note");
    proof {
        lemma_field_written(b, start, fs, "kind"@, json_string("note"@), pretty, depth as nat, out@);
        fs = fs.push(("kind"@, json_string("note"@)));
    }
    let ghost b = out@;
    write_object_field(out, pretty, depth, &mut first, "message");
    write_json_string(out, message);
    proof {
        lemma_field_written(b, start, fs, "message"@, json_string(message@), pretty, depth as nat, out@);
        fs = fs.push(("message"@, json_string(message@)));
    }
    close_object(out, pretty, depth, first);
    assert(fs =~= seq![("kind"@, json_string("note"@)), ("message"@, json_string(message@))]);
    assert(out@ =~= start + note_json(message@, pretty, depth as nat));
}

/// Writes a payload attachment; fails when its value holds a non-finite float.
pub fn write_payload_obj(out: &mut String, pretty: bool, depth: usize, name: &str, value: &AttachmentValue, media_type: &Option<String>) -> (r: Result<(), JsonWriteError>)
    requires
        depth + 2 * nesting(*value) + 4 < usize::MAX,
    ensures
        r is Ok <==> payload_json(name@, *value, *media_type, pretty, depth as nat) is Some,
        r is Ok ==> final(out)@ == old(out)@ + payload_json(name@, *value, *media_type, pretty, depth as nat)->0,
{
    let ghost start = out@;
    let ghost mut fs: Seq<(Seq<char>, Seq<char>)> = Seq::empty();
    let mut first = true;
    push_char(out, '{');
    proof {
        lemma_object_empty(pretty, depth as nat);
    }
    assert(out@ =~= start + seq!['{'] + object_body(fs, pretty, depth as nat));
    let ghost b = out@;
    write_object_field(out, pretty, depth, &mut first, "kind");
    write_json_string(out, "payload");
    proof {
        lemma_field_written(b, start, fs, "kind"@, json_string("payload"@), pretty, depth as nat, out@);
        fs = fs.push(("kind"@, json_string("payload"@)));
    }
    let ghost b = out@;
    write_object_field(out, pretty, depth, &mut first, "name");
    write_json_string(out, name);
    proof {
        lemma_field_written(b, start, fs, "name"@, json_string(name@), pretty, depth as nat, out@);
        fs = fs.push(("name"@, json_string(name@)));
    }
    let ghost b = out@;
    write_object_field(out, pretty, depth, &mut first, "value");
    let res = write_attachment_value(out, pretty, depth + 1, value);
    if res.is_err() {
        return res;
    }
    proof {
        let v = attachment_json(*value, pretty, depth as nat + 1)->0;
        lemma_field_written(b, start, fs, "value"@, v, pretty, depth as nat, out@);
        fs = fs.push(("value"@, v));
    }
    let ghost b = out@;
    write_object_field(out, pretty, depth, &mut first, "media_type");
    match media_type {
        Some(m) => write_json_string(out, m.as_str()),
        None => crate::json::push_str(out, "null"),
    }
    let ghost m_text = media_type_json(*media_type);
    proof {
        lemma_field_written(b, start, fs, "media_type"@, m_text, pretty, depth as nat, out@);
        fs = fs.push(("media_type"@, m_text));
    }
    close_object(out, pretty, depth, first);
    assert(fs =~= seq![
        ("kind"@, json_string("payload"@)),
        ("name"@, json_string(name@)),
        ("value"@, attachment_json(*value, pretty, depth as nat + 1)->0),
        ("media_type"@, m_text),
    ]);
    assert(out@ =~= start + payload_json(name@, *value, *media_type, pretty, depth as nat)->0);
    Ok(())
}

/// Writes an attachment as its JSON object.
fn write_attachment_entry(out: &mut String, pretty: bool, depth: usize, a: &Attachment) -> (r: Result<(), JsonWriteError>)
    requires
        depth < usize::MAX,
        *a matches Attachment::Payload { value, .. } ==> depth + 2 * nesting(value) + 4 < usize::MAX,
    ensures
        r is Ok <==> attachment_entry_json(*a, pretty, depth as nat) is Some,
        r is Ok ==> final(out)@ == old(out)@ + attachment_entry_json(*a, pretty, depth as nat)->0,
{
    match a {
        Attachment::Note { message } => {
            write_note_obj(out, pretty, depth, message.as_str());
            Ok(())
        },
        Attachment::Payload { name, value, media_type } => write_payload_obj(out, pretty, depth, name.as_str(), value, media_type),
    }
}

/// Writes the report's attachments as a JSON array, one object each, in
/// order; fails when a payload holds a non-finite float.
#[verifier::spinoff_prover]
#[verifier::rlimit(40)]
pub fn write_attachments_array<E, State: SeverityState>(out: &mut String, pretty: bool, depth: usize, report: &Report<E, State>) -> (r: Result<(), JsonWriteError>)
    requires
        depth + 8 < usize::MAX,
        attachments_fit(report.spec_attachments(), depth as nat),
    ensures
        r is Ok <==> attachments_array_json(report.spec_attachments(), pretty, depth as nat) is Some,
        r is Ok ==> final(out)@ == old(out)@ + attachments_array_json(report.spec_attachments(), pretty, depth as nat)->0,
{
    let atts = report.attachments();
    let ghost all = atts@;
    let ghost start = out@;
    push_char(out, '[');
    let mut first = true;
    let mut i: usize = 0;
    assert(all.take(0) =~= Seq::<Attachment>::empty());
    while i < atts.len()
        invariant
            all == atts@,
            all == report.spec_attachments(),
            depth + 8 < usize::MAX,
            attachments_fit(all, depth as nat),
            i <= all.len(),
            first == (i == 0),
            attachment_items(all.take(i as int), pretty, depth as nat + 1) is Some,
            out@ == start + seq!['['] + array_body(attachment_items(all.take(i as int), pretty, depth as nat + 1)->0, pretty, depth as nat),
        decreases all.len() - i,
    {
        let ghost prev = attachment_items(all.take(i as int), pretty, depth as nat + 1)->0;
        write_array_item_prefix(out, pretty, depth, &mut first);
        assert(atts@[i as int] == all[i as int]);
        let res = write_attachment_entry(out, pretty, depth + 1, &atts[i]);
        proof {
            assert(all.take(i as int + 1).drop_last() =~= all.take(i as int));
            assert(all.take(i as int + 1).last() == all[i as int]);
        }
        if res.is_err() {
            proof {
                lemma_attachment_items_none(all, i as int + 1, pretty, depth as nat + 1);
            }
            return res;
        }
        proof {
            let item = attachment_entry_json(all[i as int], pretty, depth as nat + 1)->0;
            lemma_array_push(prev, item, pretty, depth as nat);
        }
        i += 1;
    }
    assert(all.take(all.len() as int) =~= all);
    close_array(out, pretty, depth, first);
    assert(out@ =~= start + array_json(attachment_items(all, pretty, depth as nat + 1)->0, pretty, depth as nat));
    Ok(())
}

} // verus!
