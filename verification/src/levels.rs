//! Trace-event levels and the tracing levels they resolve to before emission.

use vstd::prelude::*;
use crate::types::Severity;

verus! {

/// Severity level for a trace event.
#[derive(Debug, Clone, Copy, PartialEq, Eq, Structural)]
pub enum TraceEventLevel {
    Trace,
    Debug,
    Info,
    Warn,
    Error,
}

/// Lower-case name of a trace-event level.
pub open spec fn trace_event_level_name(level: TraceEventLevel) -> Seq<char> {
    match level {
        TraceEventLevel::Trace => "trace"@,
        TraceEventLevel::Debug => "debug"@,
        TraceEventLevel::Info => "info"@,
        TraceEventLevel::Warn => "warn"@,
        TraceEventLevel::Error => "error"@,
    }
}

impl TraceEventLevel {
    /// The level's lower-case name.
    pub fn as_str(&self) -> (s: &'static str)
        ensures
            s@ == trace_event_level_name(*self),
    {
        match self {
            TraceEventLevel::Trace => "trace",
            TraceEventLevel::Debug => "debug",
            TraceEventLevel::Info => "info",
            TraceEventLevel::Warn => "warn",
            TraceEventLevel::Error => "error",
        }
    }
}

/// Resolved tracing level after severity fallback has been applied.
#[derive(Debug, Clone, Copy, PartialEq, Eq, Structural)]
pub enum PreparedTracingLevel {
    Trace,
    Debug,
    Info,
    Warn,
    Error,
}

/// Lower-case name of a resolved tracing level.
pub open spec fn prepared_level_name(level: PreparedTracingLevel) -> Seq<char> {
    match level {
        PreparedTracingLevel::Trace => "trace"@,
        PreparedTracingLevel::Debug => "debug"@,
        PreparedTracingLevel::Info => "info"@,
        PreparedTracingLevel::Warn => "warn"@,
        PreparedTracingLevel::Error => "error"@,
    }
}

impl PreparedTracingLevel {
    /// The level's lower-case name, as it is displayed.
    pub fn as_str(&self) -> (s: &'static str)
        ensures
            s@ == prepared_level_name(*self),
    {
        match self {
            PreparedTracingLevel::Trace => "trace",
            PreparedTracingLevel::Debug => "debug",
            PreparedTracingLevel::Info => "info",
            PreparedTracingLevel::Warn => "warn",
            PreparedTracingLevel::Error => "error",
        }
    }
}

/// The tracing level of a report of the given severity; fatal reports are
/// emitted at the error level.
pub open spec fn spec_severity_to_level(level: Severity) -> PreparedTracingLevel {
    match level {
        Severity::Trace => PreparedTracingLevel::Trace,
        Severity::Debug => PreparedTracingLevel::Debug,
        Severity::Info => PreparedTracingLevel::Info,
        Severity::Warn => PreparedTracingLevel::Warn,
        Severity::Error | Severity::Fatal => PreparedTracingLevel::Error,
    }
}

/// The tracing level of a trace event's own level, if it has one.
pub open spec fn spec_trace_level_to_prepared(level: Option<TraceEventLevel>) -> Option<PreparedTracingLevel> {
    match level {
        Some(TraceEventLevel::Trace) => Some(PreparedTracingLevel::Trace),
        Some(TraceEventLevel::Debug) => Some(PreparedTracingLevel::Debug),
        Some(TraceEventLevel::Info) => Some(PreparedTracingLevel::Info),
        Some(TraceEventLevel::Warn) => Some(PreparedTracingLevel::Warn),
        Some(TraceEventLevel::Error) => Some(PreparedTracingLevel::Error),
        None => None,
    }
}

/// Maps a report severity to its tracing level.
pub fn severity_to_level(level: Severity) -> (r: PreparedTracingLevel)
    ensures
        r == spec_severity_to_level(level),
{
    match level {
        Severity::Trace => PreparedTracingLevel::Trace,
        Severity::Debug => PreparedTracingLevel::Debug,
        Severity::Info => PreparedTracingLevel::Info,
        Severity::Warn => PreparedTracingLevel::Warn,
        Severity::Error | Severity::Fatal => PreparedTracingLevel::Error,
    }
}

/// Maps a trace event's level to its tracing level.
pub fn trace_level_to_prepared(level: Option<TraceEventLevel>) -> (r: Option<PreparedTracingLevel>)
    ensures
        r == spec_trace_level_to_prepared(level),
{
    match level {
        Some(TraceEventLevel::Trace) => Some(PreparedTracingLevel::Trace),
        Some(TraceEventLevel::Debug) => Some(PreparedTracingLevel::Debug),
        Some(TraceEventLevel::Info) => Some(PreparedTracingLevel::Info),
        Some(TraceEventLevel::Warn) => Some(PreparedTracingLevel::Warn),
        Some(TraceEventLevel::Error) => Some(PreparedTracingLevel::Error),
        None => None,
    }
}

/// Counts emitted tracing records after a successful export.
#[derive(Debug, Clone, Copy, PartialEq, Eq, Structural)]
pub struct EmitStats {
    pub report_events_emitted: usize,
    pub trace_events_emitted: usize,
}

impl EmitStats {
    /// Returns the total number of emitted tracing records.
    pub fn total_events_emitted(self) -> (n: usize)
        requires
            self.report_events_emitted + self.trace_events_emitted <= usize::MAX,
        ensures
            n == self.report_events_emitted + self.trace_events_emitted,
    {
        self.report_events_emitted + self.trace_events_emitted
    }
}

/// The level at which an event is emitted: its own, else the report's.
pub open spec fn event_emission_level(report: PreparedTracingLevel, event: Option<TraceEventLevel>) -> PreparedTracingLevel {
    match spec_trace_level_to_prepared(event) {
        Some(l) => l,
        None => report,
    }
}

/// The tracing levels of a report and of each of its trace events, resolved
/// before anything is emitted.
pub struct PreparedTracingEmission {
    report_level: PreparedTracingLevel,
    trace_event_levels: Vec<PreparedTracingLevel>,
}

impl PreparedTracingEmission {
    /// The resolved level of the report.
    pub closed spec fn spec_report_level(&self) -> PreparedTracingLevel {
        self.report_level
    }

    /// The resolved levels of the trace events, in event order.
    pub closed spec fn spec_event_levels(&self) -> Seq<PreparedTracingLevel> {
        self.trace_event_levels@
    }

    /// Resolves the report's level from its severity and each event's level,
    /// falling back to the report's level for events that have none.
    pub fn prepare(severity: Severity, events: &Vec<Option<TraceEventLevel>>) -> (p: Self)
        ensures
            p.spec_report_level() == spec_severity_to_level(severity),
            p.spec_event_levels().len() == events@.len(),
            forall|i: int| 0 <= i < events@.len() ==> #[trigger] p.spec_event_levels()[i]
                == event_emission_level(spec_severity_to_level(severity), events@[i]),
    {
        let report_level = severity_to_level(severity);
        let mut levels: Vec<PreparedTracingLevel> = Vec::new();
        let mut i: usize = 0;
        while i < events.len()
            invariant
                i <= events@.len(),
                report_level == spec_severity_to_level(severity),
                levels@.len() == i,
                forall|j: int| 0 <= j < i ==> #[trigger] levels@[j] == event_emission_level(report_level, events@[j]),
            decreases events@.len() - i,
        {
            let level = match trace_level_to_prepared(events[i]) {
                Some(l) => l,
                None => report_level,
            };
            levels.push(level);
            i += 1;
        }
        PreparedTracingEmission { report_level, trace_event_levels: levels }
    }

    /// Returns the resolved report-level tracing severity.
    pub fn report_level(&self) -> (l: PreparedTracingLevel)
        ensures
            l == self.spec_report_level(),
    {
        self.report_level
    }

    /// Returns the resolved tracing level for a trace event by index.
    pub fn trace_event_level(&self, index: usize) -> (l: Option<PreparedTracingLevel>)
        ensures
            index < self.spec_event_levels().len() ==> l == Some(self.spec_event_levels()[index as int]),
            index >= self.spec_event_levels().len() ==> l is None,
    {
        if index < self.trace_event_levels.len() {
            Some(self.trace_event_levels[index])
        } else {
            None
        }
    }

    /// Returns the resolved tracing levels for all trace events.
    pub fn trace_event_levels(&self) -> (s: &[PreparedTracingLevel])
        ensures
            s@ == self.spec_event_levels(),
    {
        self.trace_event_levels.as_slice()
    }

    /// Returns the number of tracing records this prepared emission will
    /// produce: one for the report and one per trace event.
    pub fn stats(&self) -> (s: EmitStats)
        ensures
            s.report_events_emitted == 1,
            s.trace_events_emitted == self.spec_event_levels().len(),
    {
        EmitStats { report_events_emitted: 1, trace_events_emitted: self.trace_event_levels.len() }
    }
}

/// The exporter that hands prepared reports to the `tracing` system.
#[derive(Debug, Clone, Copy, Default)]
pub struct TracingExporter;

} // verus!
