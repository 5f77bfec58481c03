//! The decisions of the OpenTelemetry log bridge that do not need the SDK's
//! records: what each record gets (timestamps, severity, the trace link of
//! parsed ids), how unsigned integers are carried, and the bridge's own
//! bookkeeping.

use vstd::prelude::*;
use crate::types::Severity;
use crate::json::{decimal, write_u64};
use crate::otel_model::OtelEvent;

verus! {

/// Number of records emitted through an OTEL SDK bridge.
#[derive(Debug, Clone, Copy, PartialEq, Eq, Structural)]
pub struct OtelSdkEmitStats {
    pub records_emitted: usize,
}

/// Bridge that writes OTEL envelopes into a logger provider under a logger name.
#[derive(Debug, Clone)]
pub struct OtelSdkEmitter<'a, P> {
    provider: &'a P,
    logger_name: String,
}

impl<'a, P> OtelSdkEmitter<'a, P> {
    /// The name of the logger the bridge asks the provider for.
    pub closed spec fn spec_logger_name(&self) -> Seq<char> {
        self.logger_name@
    }

    /// The provider the bridge writes to.
    pub closed spec fn spec_provider(&self) -> &'a P {
        self.provider
    }

    /// Creates a new bridge for the given logger provider.
    pub fn new(provider: &'a P, logger_name: String) -> (e: Self)
        ensures
            e.spec_provider() == provider,
            e.spec_logger_name() == logger_name@,
    {
        Self { provider, logger_name }
    }

    /// The provider the bridge writes to.
    pub fn provider(&self) -> (p: &'a P)
        ensures
            p == self.spec_provider(),
    {
        self.provider
    }

    /// The name of the logger the bridge asks the provider for.
    pub fn logger_name(&self) -> (s: &str)
        ensures
            s@ == self.spec_logger_name(),
    {
        self.logger_name.as_str()
    }

    /// The statistics of one emission: every record of the envelope is
    /// written, one log record each.
    pub fn emit_stats(&self, record_count: usize) -> (s: OtelSdkEmitStats)
        ensures
            s.records_emitted == record_count,
    {
        OtelSdkEmitStats { records_emitted: record_count }
    }
}

/// The log severity an OTLP severity number maps to: the first number of
/// each range (1, 5, 9, 13, 17, 21) names its level, anything else is info.
pub open spec fn spec_otel_log_severity(number: u8) -> Severity {
    if number == 1 {
        Severity::Trace
    } else if number == 5 {
        Severity::Debug
    } else if number == 9 {
        Severity::Info
    } else if number == 13 {
        Severity::Warn
    } else if number == 17 {
        Severity::Error
    } else if number == 21 {
        Severity::Fatal
    } else {
        Severity::Info
    }
}

/// Maps an OTLP severity number to the log severity of a record.
pub fn otel_log_severity(number: u8) -> (s: Severity)
    ensures
        s == spec_otel_log_severity(number),
{
    match number {
        1 => Severity::Trace,
        5 => Severity::Debug,
        9 => Severity::Info,
        13 => Severity::Warn,
        17 => Severity::Error,
        21 => Severity::Fatal,
        _ => Severity::Info,
    }
}

/// How an unsigned attribute is carried to the SDK, whose integers are
/// signed: as the same integer when it fits in `i64`, else as its decimal text.
pub fn otel_unsigned_value(v: u64) -> (r: Result<i64, String>)
    ensures
        v <= i64::MAX ==> r == Ok::<i64, String>(v as i64),
        v > i64::MAX ==> (r matches Err(s) && s@ == decimal(v as nat)),
{
    if v <= i64::MAX as u64 {
        Ok(v as i64)
    } else {
        let mut s = String::new();
        write_u64(&mut s, v);
        proof {
            assert(s@ =~= decimal(v as nat));
        }
        Err(s)
    }
}

/// The value of a hexadecimal digit, or -1 for any other character.
pub open spec fn hex_digit_value(c: char) -> int {
    if '0' <= c && c <= '9' {
        c as int - '0' as int
    } else if 'a' <= c && c <= 'f' {
        c as int - 'a' as int + 10
    } else if 'A' <= c && c <= 'F' {
        c as int - 'A' as int + 10
    } else {
        -1
    }
}

/// The number that hexadecimal digits spell, most significant first.
pub open spec fn hex_number(s: Seq<char>) -> int
    decreases s.len(),
{
    if s.len() == 0 {
        0
    } else {
        hex_number(s.drop_last()) * 16 + hex_digit_value(s.last())
    }
}

/// The number that a text spells in base 16 the way `from_str_radix` reads
/// it: an optional `+`, then one or more hexadecimal digits and nothing else.
pub open spec fn radix16_value(s: Seq<char>) -> Option<int> {
    let digits = unsigned_digits(s);
    if digits.len() > 0 && all_hex_digits(digits) {
        Some(hex_number(digits))
    } else {
        None
    }
}

/// The text after an optional leading `+`.
pub open spec fn unsigned_digits(s: Seq<char>) -> Seq<char> {
    if s.len() > 0 && s[0] == '+' { s.drop_first() } else { s }
}

/// Every character is a hexadecimal digit.
pub open spec fn all_hex_digits(s: Seq<char>) -> bool {
    forall|i: int| 0 <= i < s.len() ==> hex_digit_value(#[trigger] s[i]) >= 0
}

/// A trace id read from hex text: the number the text spells in base 16,
/// when it fits in 128 bits.
pub open spec fn parsed_trace_id(s: Seq<char>) -> Option<u128> {
    match radix16_value(s) {
        Some(v) => if v <= u128::MAX { Some(v as u128) } else { None },
        None => None,
    }
}

/// A span id read from hex text: the number the text spells in base 16,
/// when it fits in 64 bits.
pub open spec fn parsed_span_id(s: Seq<char>) -> Option<u64> {
    match radix16_value(s) {
        Some(v) => if v <= u64::MAX { Some(v as u64) } else { None },
        None => None,
    }
}

/// Calls `opentelemetry::TraceId::from_hex`, which reads the text with
/// `u128::from_str_radix(hex, 16)`; claimed: an id exactly when the text is
/// an optional `+` and hex digits spelling a number below 2^128, and then
/// that number.
#[verifier::external_body]
fn trace_id_from_hex(hex: &str) -> (r: Option<u128>)
    ensures
        r == parsed_trace_id(hex@),
{
    match opentelemetry::TraceId::from_hex(hex) {
        Ok(id) => Some(u128::from_be_bytes(id.to_bytes())),
        Err(_) => None,
    }
}

/// Calls `opentelemetry::SpanId::from_hex`, which reads the text with
/// `u64::from_str_radix(hex, 16)`; claimed: an id exactly when the text is
/// an optional `+` and hex digits spelling a number below 2^64, and then
/// that number.
#[verifier::external_body]
fn span_id_from_hex(hex: &str) -> (r: Option<u64>)
    ensures
        r == parsed_span_id(hex@),
{
    match opentelemetry::SpanId::from_hex(hex) {
        Ok(id) => Some(u64::from_be_bytes(id.to_bytes())),
        Err(_) => None,
    }
}

/// The trace a log record is linked to.
#[derive(Debug, Clone, Copy, PartialEq, Eq, Structural)]
pub struct OtelTraceLink {
    pub trace_id: u128,
    pub span_id: u64,
    /// The trace flags: 1 when sampled, 0 when not, absent when unknown.
    pub flags: Option<u8>,
}

/// What the bridge sets on the SDK log record of one OTEL record, besides
/// its body and attributes, which are copied over as they are.
#[derive(Debug, Clone, Copy, PartialEq, Eq, Structural)]
pub struct OtelRecordPlan {
    pub timestamp_unix_nano: Option<u64>,
    pub observed_timestamp_unix_nano: Option<u64>,
    pub severity: Option<Severity>,
    pub trace_link: Option<OtelTraceLink>,
}

/// The trace flags of a sampling decision.
pub open spec fn trace_flags(sampled: Option<bool>) -> Option<u8> {
    match sampled {
        Some(b) => Some(if b { 1u8 } else { 0u8 }),
        None => None,
    }
}

/// The trace link of a record: present when both ids are there and both
/// read as hex ids.
pub open spec fn trace_link_of(event: OtelEvent) -> Option<OtelTraceLink> {
    match (event.trace_id, event.span_id) {
        (Some(t), Some(s)) => match (parsed_trace_id(t@), parsed_span_id(s@)) {
            (Some(trace_id), Some(span_id)) => Some(
                OtelTraceLink { trace_id, span_id, flags: trace_flags(event.trace_sampled) },
            ),
            _ => None,
        },
        _ => None,
    }
}

/// Decides what the SDK log record of `event` gets: its timestamps, the
/// severity of its severity number, and its trace link.
pub fn otel_record_plan(event: &OtelEvent) -> (p: OtelRecordPlan)
    ensures
        p.timestamp_unix_nano == event.timestamp_unix_nano,
        p.observed_timestamp_unix_nano == event.observed_timestamp_unix_nano,
        p.severity == (match event.severity_number {
            Some(n) => Some(spec_otel_log_severity(n)),
            None => None,
        }),
        p.trace_link == trace_link_of(*event),
{
    let severity = match event.severity_number {
        Some(n) => Some(otel_log_severity(n)),
        None => None,
    };
    let flags = match event.trace_sampled {
        Some(b) => Some(if b { 1u8 } else { 0u8 }),
        None => None,
    };
    let trace_link = match (&event.trace_id, &event.span_id) {
        (Some(t), Some(s)) => {
            let trace_id = trace_id_from_hex(t.as_str());
            let span_id = span_id_from_hex(s.as_str());
            match (trace_id, span_id) {
                (Some(trace_id), Some(span_id)) => Some(OtelTraceLink { trace_id, span_id, flags }),
                _ => None,
            }
        },
        _ => None,
    };
    OtelRecordPlan {
        timestamp_unix_nano: event.timestamp_unix_nano,
        observed_timestamp_unix_nano: event.observed_timestamp_unix_nano,
        severity,
        trace_link,
    }
}

} // verus!
