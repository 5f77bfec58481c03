//! Trace context and events attached to a report, and the global context
//! that new reports take their defaults from.

use vstd::prelude::*;
use crate::hex_id::HexId;
use crate::levels::TraceEventLevel;
use crate::values::{AttachmentValue, ErrorCode};
use crate::metadata::{ContextMap, GlobalErrorMeta, ReportMetadata, lookup};
use crate::types::SeverityState;

verus! {

/// 16-byte trace id encoded as 32 hex digits.
pub type TraceId = HexId<32>;

/// 8-byte span id encoded as 16 hex digits.
pub type SpanId = HexId<16>;

/// Parent span id encoded as 16 hex digits.
pub type ParentSpanId = HexId<16>;

/// W3C trace state text.
#[derive(Debug)]
pub struct TraceState(String);

impl TraceState {
    /// The state's text.
    pub closed spec fn text(&self) -> Seq<char> {
        self.0@
    }

    /// Wraps a trace state text.
    pub fn new(value: String) -> (s: Self)
        ensures
            s.text() == value@,
    {
        TraceState(value)
    }

    /// The state's text.
    pub fn as_str(&self) -> (s: &str)
        ensures
            s@ == self.text(),
    {
        self.0.as_str()
    }

    /// Unwraps the state's text.
    pub fn into_inner(self) -> (s: String)
        ensures
            s@ == self.text(),
    {
        self.0
    }
}

/// Trace context values associated with a report.
#[derive(Debug)]
pub struct TraceContext {
    pub trace_id: Option<TraceId>,
    pub span_id: Option<SpanId>,
    pub parent_span_id: Option<ParentSpanId>,
    pub sampled: Option<bool>,
    pub trace_state: Option<TraceState>,
}

/// Whether a trace context holds nothing.
pub open spec fn context_is_empty(c: TraceContext) -> bool {
    c.trace_id is None && c.span_id is None && c.parent_span_id is None && c.sampled is None && c.trace_state is None
}

/// A trace context that holds nothing.
pub open spec fn empty_trace_context() -> TraceContext {
    TraceContext { trace_id: None, span_id: None, parent_span_id: None, sampled: None, trace_state: None }
}

impl TraceContext {
    /// A trace context that holds nothing.
    pub fn new() -> (c: Self)
        ensures
            c == empty_trace_context(),
    {
        TraceContext { trace_id: None, span_id: None, parent_span_id: None, sampled: None, trace_state: None }
    }

    /// Returns true if the trace context holds no ids and no flags.
    pub fn is_empty(&self) -> (b: bool)
        ensures
            b == context_is_empty(*self),
    {
        self.trace_id.is_none() && self.span_id.is_none() && self.parent_span_id.is_none()
            && self.sampled.is_none() && self.trace_state.is_none()
    }
}

/// A key-value attribute attached to a trace event.
#[derive(Debug)]
pub struct TraceEventAttribute {
    pub key: String,
    pub value: AttachmentValue,
}

/// A single event emitted within a trace.
#[derive(Debug)]
pub struct TraceEvent {
    pub name: String,
    pub level: Option<TraceEventLevel>,
    pub timestamp_unix_nano: Option<u64>,
    pub attributes: Vec<TraceEventAttribute>,
}

/// The trace payload of a report: a context and events, allocated only once
/// something is set.
#[derive(Debug)]
struct ReportTraceInner {
    context: TraceContext,
    events: Vec<TraceEvent>,
}

/// Trace payload attached to a report.
#[derive(Debug)]
pub struct ReportTrace {
    inner: Option<Box<ReportTraceInner>>,
}

impl ReportTrace {
    /// The trace context, once anything has been set.
    pub closed spec fn spec_context(&self) -> Option<TraceContext> {
        match self.inner {
            Some(i) => Some(i.context),
            None => None,
        }
    }

    /// The trace events, in the order they were added.
    pub closed spec fn spec_events(&self) -> Seq<TraceEvent> {
        match self.inner {
            Some(i) => i.events@,
            None => Seq::empty(),
        }
    }

    /// The trace context, or an empty one.
    pub open spec fn context_or_empty(&self) -> TraceContext {
        match self.spec_context() {
            Some(c) => c,
            None => empty_trace_context(),
        }
    }

    /// Creates an empty trace.
    pub fn new() -> (t: Self)
        ensures
            t.spec_context() is None,
            t.spec_events() == Seq::<TraceEvent>::empty(),
    {
        ReportTrace { inner: None }
    }

    /// Returns true if the trace has no context values and no events.
    pub fn is_empty(&self) -> (b: bool)
        ensures
            b == (context_is_empty(self.context_or_empty()) && self.spec_events().len() == 0),
    {
        match &self.inner {
            Some(i) => i.context.is_empty() && i.events.len() == 0,
            None => true,
        }
    }

    /// Returns the trace context, if any.
    pub fn context(&self) -> (r: Option<&TraceContext>)
        ensures
            r matches Some(c) ==> self.spec_context() == Some(*c),
            r is None ==> self.spec_context() is None,
    {
        match &self.inner {
            Some(i) => Some(&i.context),
            None => None,
        }
    }

    /// Returns the trace events, if any.
    pub fn events(&self) -> (r: Option<&[TraceEvent]>)
        ensures
            r matches Some(e) ==> self.spec_context() is Some && e@ == self.spec_events(),
            r is None ==> self.spec_context() is None && self.spec_events().len() == 0,
    {
        match &self.inner {
            Some(i) => Some(i.events.as_slice()),
            None => None,
        }
    }

    fn into_parts(self) -> (r: (TraceContext, Vec<TraceEvent>))
        ensures
            r.0 == self.context_or_empty(),
            r.1@ == self.spec_events(),
    {
        match self.inner {
            Some(i) => {
                let ReportTraceInner { context, events } = *i;
                (context, events)
            },
            None => (TraceContext::new(), Vec::new()),
        }
    }

    fn from_parts(context: TraceContext, events: Vec<TraceEvent>) -> (t: Self)
        ensures
            t.spec_context() == Some(context),
            t.spec_events() == events@,
    {
        ReportTrace { inner: Some(Box::new(ReportTraceInner { context, events })) }
    }

    /// Sets the trace context, replacing any existing value.
    pub fn set_context(self, context: TraceContext) -> (t: Self)
        ensures
            t.spec_context() == Some(context),
            t.spec_events() == self.spec_events(),
    {
        let (_, events) = self.into_parts();
        ReportTrace::from_parts(context, events)
    }

    /// Sets the trace context only if there is none or it is empty.
    pub fn with_context(self, context: TraceContext) -> (t: Self)
        ensures
            context_is_empty(self.context_or_empty()) ==> t.spec_context() == Some(context),
            !context_is_empty(self.context_or_empty()) ==> t.spec_context() == self.spec_context(),
            t.spec_events() == self.spec_events(),
    {
        let empty = match &self.inner {
            Some(i) => i.context.is_empty(),
            None => true,
        };
        if empty {
            self.set_context(context)
        } else {
            self
        }
    }

    /// Adds a trace event after the existing ones.
    pub fn with_event(self, event: TraceEvent) -> (t: Self)
        ensures
            t.spec_context() == Some(self.context_or_empty()),
            t.spec_events() == self.spec_events().push(event),
    {
        let (context, mut events) = self.into_parts();
        events.push(event);
        ReportTrace::from_parts(context, events)
    }

    /// Sets the trace ID, replacing any existing value.
    pub fn set_trace_id(self, trace_id: TraceId) -> (t: Self)
        ensures
            t.spec_context() == Some(TraceContext { trace_id: Some(trace_id), ..self.context_or_empty() }),
            t.spec_events() == self.spec_events(),
    {
        let (context, events) = self.into_parts();
        ReportTrace::from_parts(TraceContext { trace_id: Some(trace_id), ..context }, events)
    }

    /// Sets the trace ID only if not already set.
    pub fn with_trace_id(self, trace_id: TraceId) -> (t: Self)
        ensures
            self.context_or_empty().trace_id is None ==> t.spec_context() == Some(TraceContext { trace_id: Some(trace_id), ..self.context_or_empty() }),
            self.context_or_empty().trace_id is Some ==> t.spec_context() == self.spec_context(),
            t.spec_events() == self.spec_events(),
    {
        self.set_trace_id_opt(Some(trace_id))
    }

    /// Sets the trace ID from an option, only if not already set.
    pub fn set_trace_id_opt(self, trace_id: Option<TraceId>) -> (t: Self)
        ensures
            (trace_id is Some && self.context_or_empty().trace_id is None) ==> t.spec_context() == Some(TraceContext { trace_id, ..self.context_or_empty() }),
            !(trace_id is Some && self.context_or_empty().trace_id is None) ==> t.spec_context() == self.spec_context(),
            t.spec_events() == self.spec_events(),
    {
        let unset = match &self.inner {
            Some(i) => i.context.trace_id.is_none(),
            None => true,
        };
        match trace_id {
            Some(id) => if unset {
                self.set_trace_id(id)
            } else {
                self
            },
            None => self,
        }
    }

    /// Sets the span ID, replacing any existing value.
    pub fn set_span_id(self, span_id: SpanId) -> (t: Self)
        ensures
            t.spec_context() == Some(TraceContext { span_id: Some(span_id), ..self.context_or_empty() }),
            t.spec_events() == self.spec_events(),
    {
        let (context, events) = self.into_parts();
        ReportTrace::from_parts(TraceContext { span_id: Some(span_id), ..context }, events)
    }

    /// Sets the span ID only if not already set.
    pub fn with_span_id(self, span_id: SpanId) -> (t: Self)
        ensures
            self.context_or_empty().span_id is None ==> t.spec_context() == Some(TraceContext { span_id: Some(span_id), ..self.context_or_empty() }),
            self.context_or_empty().span_id is Some ==> t.spec_context() == self.spec_context(),
            t.spec_events() == self.spec_events(),
    {
        self.set_span_id_opt(Some(span_id))
    }

    /// Sets the span ID from an option, only if not already set.
    pub fn set_span_id_opt(self, span_id: Option<SpanId>) -> (t: Self)
        ensures
            (span_id is Some && self.context_or_empty().span_id is None) ==> t.spec_context() == Some(TraceContext { span_id, ..self.context_or_empty() }),
            !(span_id is Some && self.context_or_empty().span_id is None) ==> t.spec_context() == self.spec_context(),
            t.spec_events() == self.spec_events(),
    {
        let unset = match &self.inner {
            Some(i) => i.context.span_id.is_none(),
            None => true,
        };
        match span_id {
            Some(id) => if unset {
                self.set_span_id(id)
            } else {
                self
            },
            None => self,
        }
    }

    /// Sets the parent span ID, replacing any existing value.
    pub fn set_parent_span_id(self, parent_span_id: ParentSpanId) -> (t: Self)
        ensures
            t.spec_context() == Some(TraceContext { parent_span_id: Some(parent_span_id), ..self.context_or_empty() }),
            t.spec_events() == self.spec_events(),
    {
        let (context, events) = self.into_parts();
        ReportTrace::from_parts(TraceContext { parent_span_id: Some(parent_span_id), ..context }, events)
    }

    /// Sets the parent span ID only if not already set.
    pub fn with_parent_span_id(self, parent_span_id: ParentSpanId) -> (t: Self)
        ensures
            self.context_or_empty().parent_span_id is None ==> t.spec_context() == Some(TraceContext { parent_span_id: Some(parent_span_id), ..self.context_or_empty() }),
            self.context_or_empty().parent_span_id is Some ==> t.spec_context() == self.spec_context(),
            t.spec_events() == self.spec_events(),
    {
        self.set_parent_span_id_opt(Some(parent_span_id))
    }

    /// Sets the parent span ID from an option, only if not already set.
    pub fn set_parent_span_id_opt(self, parent_span_id: Option<ParentSpanId>) -> (t: Self)
        ensures
            (parent_span_id is Some && self.context_or_empty().parent_span_id is None) ==> t.spec_context() == Some(TraceContext { parent_span_id, ..self.context_or_empty() }),
            !(parent_span_id is Some && self.context_or_empty().parent_span_id is None) ==> t.spec_context() == self.spec_context(),
            t.spec_events() == self.spec_events(),
    {
        let unset = match &self.inner {
            Some(i) => i.context.parent_span_id.is_none(),
            None => true,
        };
        match parent_span_id {
            Some(id) => if unset {
                self.set_parent_span_id(id)
            } else {
                self
            },
            None => self,
        }
    }

    /// Sets whether the trace is sampled, replacing any existing value.
    pub fn set_sampled(self, sampled: bool) -> (t: Self)
        ensures
            t.spec_context() == Some(TraceContext { sampled: Some(sampled), ..self.context_or_empty() }),
            t.spec_events() == self.spec_events(),
    {
        let (context, events) = self.into_parts();
        ReportTrace::from_parts(TraceContext { sampled: Some(sampled), ..context }, events)
    }

    /// Sets whether the trace is sampled only if not already set.
    pub fn with_sampled(self, sampled: bool) -> (t: Self)
        ensures
            self.context_or_empty().sampled is None ==> t.spec_context() == Some(TraceContext { sampled: Some(sampled), ..self.context_or_empty() }),
            self.context_or_empty().sampled is Some ==> t.spec_context() == self.spec_context(),
            t.spec_events() == self.spec_events(),
    {
        self.set_sampled_opt(Some(sampled))
    }

    /// Sets the sampled flag from an option, only if not already set.
    pub fn set_sampled_opt(self, sampled: Option<bool>) -> (t: Self)
        ensures
            (sampled is Some && self.context_or_empty().sampled is None) ==> t.spec_context() == Some(TraceContext { sampled, ..self.context_or_empty() }),
            !(sampled is Some && self.context_or_empty().sampled is None) ==> t.spec_context() == self.spec_context(),
            t.spec_events() == self.spec_events(),
    {
        let unset = match &self.inner {
            Some(i) => i.context.sampled.is_none(),
            None => true,
        };
        match sampled {
            Some(s) => if unset {
                self.set_sampled(s)
            } else {
                self
            },
            None => self,
        }
    }

    /// Sets the trace state, replacing any existing value.
    pub fn set_trace_state(self, trace_state: TraceState) -> (t: Self)
        ensures
            t.spec_context() == Some(TraceContext { trace_state: Some(trace_state), ..self.context_or_empty() }),
            t.spec_events() == self.spec_events(),
    {
        let (context, events) = self.into_parts();
        ReportTrace::from_parts(TraceContext { trace_state: Some(trace_state), ..context }, events)
    }

    /// Sets the trace state only if not already set.
    pub fn with_trace_state(self, trace_state: TraceState) -> (t: Self)
        ensures
            self.context_or_empty().trace_state is None ==> t.spec_context() == Some(TraceContext { trace_state: Some(trace_state), ..self.context_or_empty() }),
            self.context_or_empty().trace_state is Some ==> t.spec_context() == self.spec_context(),
            t.spec_events() == self.spec_events(),
    {
        self.set_trace_state_opt(Some(trace_state))
    }

    /// Sets the trace state from an option, only if not already set.
    pub fn set_trace_state_opt(self, trace_state: Option<TraceState>) -> (t: Self)
        ensures
            (trace_state is Some && self.context_or_empty().trace_state is None) ==> t.spec_context() == Some(TraceContext { trace_state, ..self.context_or_empty() }),
            !(trace_state is Some && self.context_or_empty().trace_state is None) ==> t.spec_context() == self.spec_context(),
            t.spec_events() == self.spec_events(),
    {
        let unset = match &self.inner {
            Some(i) => i.context.trace_state.is_none(),
            None => true,
        };
        match trace_state {
            Some(s) => if unset {
                self.set_trace_state(s)
            } else {
                self
            },
            None => self,
        }
    }
}

} // verus!
