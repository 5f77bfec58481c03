//! The report: an error together with its metadata, trace, context maps,
//! attachments, stack trace and causes; the builder calls that fill it in,
//! and its one-line summary.

use vstd::prelude::*;
use vstd::std_specs::convert::IntoSpec;
use crate::types::{Severity, SeverityState, MissingSeverity, HasSeverity, CauseCollectOptions, CauseTraversalState};
use crate::metadata::{ContextMap, ReportMetadata, ctx_insert, lookup};
use crate::global_context::{GlobalContext, ReportData, global_applied};
use crate::trace_model::ReportTrace;
use crate::values::{ContextValue, AttachmentValue, ErrorCode};
use crate::ir_values::Attachment;
use crate::stack_filter::StackTrace;
use crate::source_chain::{SourceErrorChain, DisplayCauseChain, arena_fits, rooted_chain_parts};
use crate::metadata::sorted_ctx;
use crate::trace_model::{TraceContext, TraceEvent, TraceEventAttribute, TraceState, TraceId, SpanId, ParentSpanId, context_is_empty};
use crate::levels::TraceEventLevel;
use crate::options::{Compact, CompactProfile, ReportOptions};
use crate::hex_id::ascii_text;
use crate::json::{decimal_int, bool_text, push_str};
use crate::display_text::{join, context_text, value_text, write_joined, i64_text, bool_string, context_value_text, attachment_value_text};

verus! {

/// An error with the diagnostics gathered around it.
pub struct Report<E, State: SeverityState> {
    inner: E,
    data: ReportData<State>,
    attachments: Vec<Attachment>,
    stack_trace: Option<StackTrace>,
    display_causes: Option<DisplayCauseChain>,
    origin_source_errors: Option<SourceErrorChain>,
    diagnostic_source_errors: Option<SourceErrorChain>,
}

/// The chain that hangs below the old error when a mapped report records
/// it: the report's origin chain, or else the old error's own sources.
pub open spec fn origin_below(origin: Option<SourceErrorChain>, inner_sources: Option<SourceErrorChain>) -> Option<SourceErrorChain> {
    match origin {
        Some(c) => Some(c),
        None => inner_sources,
    }
}

/// Display causes after `more` are added: a chain is started when there is
/// none.
pub open spec fn causes_with(causes: Option<DisplayCauseChain>, more: Seq<String>) -> Seq<String> {
    match causes {
        Some(c) => c.items@ + more,
        None => more,
    }
}

impl<E, State: SeverityState> Report<E, State> {
    #[verifier::type_invariant]
    spec fn maps_well_formed(self) -> bool {
        self.data.well_formed()
    }

    /// The wrapped error.
    pub closed spec fn spec_inner(&self) -> E {
        self.inner
    }

    /// Metadata, trace and context maps.
    pub closed spec fn spec_data(&self) -> ReportData<State> {
        self.data
    }

    /// The attachments, in the order they were added.
    pub closed spec fn spec_attachments(&self) -> Seq<Attachment> {
        self.attachments@
    }

    /// The stack trace, if any.
    pub closed spec fn spec_stack_trace(&self) -> Option<StackTrace> {
        self.stack_trace
    }

    /// The display causes, if any were recorded.
    pub closed spec fn spec_display_causes(&self) -> Option<DisplayCauseChain> {
        self.display_causes
    }

    /// The source errors that the wrapped error came from.
    pub closed spec fn spec_origin_source_errors(&self) -> Option<SourceErrorChain> {
        self.origin_source_errors
    }

    /// Source errors recorded as further diagnostics.
    pub closed spec fn spec_diag_source_errors(&self) -> Option<SourceErrorChain> {
        self.diagnostic_source_errors
    }

    /// The business context entries.
    pub open spec fn spec_context(&self) -> Seq<(String, ContextValue)> {
        self.spec_data().context.entries()
    }

    /// The system context entries.
    pub open spec fn spec_system(&self) -> Seq<(String, ContextValue)> {
        self.spec_data().system.entries()
    }

    /// Everything but the error and the metadata is as in `other`: the
    /// options and every diagnostic gathered around the error.
    pub open spec fn same_diagnostics<F, S: SeverityState>(&self, other: &Report<F, S>) -> bool {
        &&& self.spec_data().options == other.spec_data().options
        &&& self.same_gathered(other)
    }

    /// The diagnostics gathered around the error are as in `other`: trace,
    /// contexts, attachments, stack trace, display causes and source chains.
    pub open spec fn same_gathered<F, S: SeverityState>(&self, other: &Report<F, S>) -> bool {
        &&& self.spec_data().trace == other.spec_data().trace
        &&& self.spec_context() == other.spec_context()
        &&& self.spec_system() == other.spec_system()
        &&& self.spec_attachments() == other.spec_attachments()
        &&& self.spec_stack_trace() == other.spec_stack_trace()
        &&& self.spec_display_causes() == other.spec_display_causes()
        &&& self.spec_origin_source_errors() == other.spec_origin_source_errors()
        &&& self.spec_diag_source_errors() == other.spec_diag_source_errors()
    }

    /// The metadata fields other than the severity are as in `m`.
    pub open spec fn same_fields_as<S: SeverityState>(&self, m: ReportMetadata<S>) -> bool {
        &&& self.spec_data().metadata.spec_error_code() == m.spec_error_code()
        &&& self.spec_data().metadata.spec_category() == m.spec_category()
        &&& self.spec_data().metadata.spec_retryable() == m.spec_retryable()
    }

    /// The metadata and the options are as in `other`.
    pub open spec fn same_metadata(&self, other: &Self) -> bool {
        &&& self.spec_data().metadata == other.spec_data().metadata
        &&& self.spec_data().options == other.spec_data().options
    }

    /// Returns the wrapped error.
    pub fn inner(&self) -> (r: &E)
        ensures
            *r == self.spec_inner(),
    {
        &self.inner
    }

    /// Gives up the report and returns the wrapped error.
    pub fn into_inner(self) -> (r: E)
        ensures
            r == self.spec_inner(),
    {
        self.inner
    }

    /// Returns the metadata.
    pub fn metadata(&self) -> (r: &ReportMetadata<State>)
        ensures
            *r == self.spec_data().metadata,
    {
        &self.data.metadata
    }

    /// Returns the trace.
    pub fn trace(&self) -> (r: &ReportTrace)
        ensures
            *r == self.spec_data().trace,
    {
        &self.data.trace
    }

    /// Returns the business context.
    pub fn context(&self) -> (r: &ContextMap)
        ensures
            r.entries() == self.spec_context(),
            r.well_formed(),
    {
        proof {
            use_type_invariant(self);
        }
        &self.data.context
    }

    /// Returns the system context.
    pub fn system(&self) -> (r: &ContextMap)
        ensures
            r.entries() == self.spec_system(),
            r.well_formed(),
    {
        proof {
            use_type_invariant(self);
        }
        &self.data.system
    }

    /// Returns the attachments, in the order they were added.
    pub fn attachments(&self) -> (r: &[Attachment])
        ensures
            r@ == self.spec_attachments(),
    {
        self.attachments.as_slice()
    }

    /// Returns the stack trace, if any.
    pub fn stack_trace(&self) -> (r: Option<&StackTrace>)
        ensures
            r matches Some(t) ==> self.spec_stack_trace() == Some(*t),
            r is None ==> self.spec_stack_trace() is None,
    {
        self.stack_trace.as_ref()
    }

    /// Returns the texts of the display causes, in order.
    pub fn display_causes(&self) -> (r: &[String])
        ensures
            r@ == causes_with(self.spec_display_causes(), Seq::empty()),
    {
        match &self.display_causes {
            Some(c) => {
                assert(c.items@ + Seq::<String>::empty() =~= c.items@);
                c.items.as_slice()
            },
            None => &[],
        }
    }

    /// Returns the display-cause chain, if one was recorded.
    pub fn display_causes_chain(&self) -> (r: Option<&DisplayCauseChain>)
        ensures
            r matches Some(c) ==> self.spec_display_causes() == Some(*c),
            r is None ==> self.spec_display_causes() is None,
    {
        self.display_causes.as_ref()
    }

    /// Returns the source errors that the wrapped error came from, if any.
    pub fn origin_src_err_chain(&self) -> (r: Option<&SourceErrorChain>)
        ensures
            r matches Some(c) ==> self.spec_origin_source_errors() == Some(*c),
            r is None ==> self.spec_origin_source_errors() is None,
    {
        self.origin_source_errors.as_ref()
    }

    /// Returns the source errors recorded as further diagnostics, if any.
    pub fn diag_src_err_chain(&self) -> (r: Option<&SourceErrorChain>)
        ensures
            r matches Some(c) ==> self.spec_diag_source_errors() == Some(*c),
            r is None ==> self.spec_diag_source_errors() is None,
    {
        self.diagnostic_source_errors.as_ref()
    }

    /// Returns the error code, if set.
    pub fn error_code(&self) -> (r: Option<&ErrorCode>)
        ensures
            r matches Some(c) ==> self.spec_data().metadata.spec_error_code() == Some(*c),
            r is None ==> self.spec_data().metadata.spec_error_code() is None,
    {
        self.data.metadata.error_code()
    }

    /// Returns the severity, if the typestate carries one.
    pub fn severity(&self) -> (r: Option<Severity>)
        ensures
            r == self.spec_data().metadata.spec_state().severity_spec(),
    {
        self.data.metadata.severity()
    }

    /// Returns the category, if set.
    pub fn category(&self) -> (r: Option<&str>)
        ensures
            r matches Some(c) ==> self.spec_data().metadata.spec_category() matches Some(s) && s@ == c@,
            r is None ==> self.spec_data().metadata.spec_category() is None,
    {
        self.data.metadata.category()
    }

    /// Returns whether the error is marked retryable, if that is known.
    pub fn retryable(&self) -> (r: Option<bool>)
        ensures
            r == self.spec_data().metadata.spec_retryable(),
    {
        self.data.metadata.retryable()
    }

    /// Adds a business context entry when the key is absent; an existing
    /// value is kept.
    pub fn with_ctx(self, key: String, value: ContextValue) -> (r: Self)
        ensures
            r.spec_inner() == self.spec_inner(),
            r.same_metadata(&self),
            lookup(self.spec_context(), key@) is Some ==> r.spec_context() == self.spec_context(),
            lookup(self.spec_context(), key@) is None ==> r.spec_context() == self.spec_context().push((key, value)),
            r.spec_system() == self.spec_system(),
            r.spec_data().trace == self.spec_data().trace,
            r.spec_attachments() == self.spec_attachments(),
            r.spec_stack_trace() == self.spec_stack_trace(),
            r.spec_display_causes() == self.spec_display_causes(),
            r.spec_origin_source_errors() == self.spec_origin_source_errors(),
            r.spec_diag_source_errors() == self.spec_diag_source_errors(),
    {
        proof {
            use_type_invariant(&self);
        }
        let Report { inner, data, attachments, stack_trace, display_causes, origin_source_errors, diagnostic_source_errors } = self;
        let ReportData { metadata, trace, system, mut context, options } = data;
        if !context.contains_key(key.as_str()) {
            context.insert(key, value);
        }
        Report {
            inner,
            data: ReportData { metadata, trace, system, context, options },
            attachments,
            stack_trace,
            display_causes,
            origin_source_errors,
            diagnostic_source_errors,
        }
    }

    /// Sets a business context entry, replacing the value of an existing key.
    pub fn set_ctx(self, key: String, value: ContextValue) -> (r: Self)
        ensures
            r.spec_inner() == self.spec_inner(),
            r.same_metadata(&self),
            r.spec_context() == ctx_insert(self.spec_context(), key, value),
            r.spec_system() == self.spec_system(),
            r.spec_data().trace == self.spec_data().trace,
            r.spec_attachments() == self.spec_attachments(),
            r.spec_stack_trace() == self.spec_stack_trace(),
            r.spec_display_causes() == self.spec_display_causes(),
            r.spec_origin_source_errors() == self.spec_origin_source_errors(),
            r.spec_diag_source_errors() == self.spec_diag_source_errors(),
    {
        proof {
            use_type_invariant(&self);
        }
        let Report { inner, data, attachments, stack_trace, display_causes, origin_source_errors, diagnostic_source_errors } = self;
        let ReportData { metadata, trace, system, mut context, options } = data;
        context.insert(key, value);
        Report {
            inner,
            data: ReportData { metadata, trace, system, context, options },
            attachments,
            stack_trace,
            display_causes,
            origin_source_errors,
            diagnostic_source_errors,
        }
    }

    /// Adds a system context entry when the key is absent; an existing value
    /// is kept.
    pub fn with_system(self, key: String, value: ContextValue) -> (r: Self)
        ensures
            r.spec_inner() == self.spec_inner(),
            r.same_metadata(&self),
            r.spec_context() == self.spec_context(),
            lookup(self.spec_system(), key@) is Some ==> r.spec_system() == self.spec_system(),
            lookup(self.spec_system(), key@) is None ==> r.spec_system() == self.spec_system().push((key, value)),
            r.spec_data().trace == self.spec_data().trace,
            r.spec_attachments() == self.spec_attachments(),
            r.spec_stack_trace() == self.spec_stack_trace(),
            r.spec_display_causes() == self.spec_display_causes(),
            r.spec_origin_source_errors() == self.spec_origin_source_errors(),
            r.spec_diag_source_errors() == self.spec_diag_source_errors(),
    {
        proof {
            use_type_invariant(&self);
        }
        let Report { inner, data, attachments, stack_trace, display_causes, origin_source_errors, diagnostic_source_errors } = self;
        let ReportData { metadata, trace, mut system, context, options } = data;
        if !system.contains_key(key.as_str()) {
            system.insert(key, value);
        }
        Report {
            inner,
            data: ReportData { metadata, trace, system, context, options },
            attachments,
            stack_trace,
            display_causes,
            origin_source_errors,
            diagnostic_source_errors,
        }
    }

    /// Sets a system context entry, replacing the value of an existing key.
    pub fn set_system(self, key: String, value: ContextValue) -> (r: Self)
        ensures
            r.spec_inner() == self.spec_inner(),
            r.same_metadata(&self),
            r.spec_context() == self.spec_context(),
            r.spec_system() == ctx_insert(self.spec_system(), key, value),
            r.spec_data().trace == self.spec_data().trace,
            r.spec_attachments() == self.spec_attachments(),
            r.spec_stack_trace() == self.spec_stack_trace(),
            r.spec_display_causes() == self.spec_display_causes(),
            r.spec_origin_source_errors() == self.spec_origin_source_errors(),
            r.spec_diag_source_errors() == self.spec_diag_source_errors(),
    {
        proof {
            use_type_invariant(&self);
        }
        let Report { inner, data, attachments, stack_trace, display_causes, origin_source_errors, diagnostic_source_errors } = self;
        let ReportData { metadata, trace, mut system, context, options } = data;
        system.insert(key, value);
        Report {
            inner,
            data: ReportData { metadata, trace, system, context, options },
            attachments,
            stack_trace,
            display_causes,
            origin_source_errors,
            diagnostic_source_errors,
        }
    }

    fn push_attachment(self, a: Attachment) -> (r: Self)
        ensures
            r.spec_inner() == self.spec_inner(),
            r.spec_data() == self.spec_data(),
            r.spec_attachments() == self.spec_attachments().push(a),
            r.spec_stack_trace() == self.spec_stack_trace(),
            r.spec_display_causes() == self.spec_display_causes(),
            r.spec_origin_source_errors() == self.spec_origin_source_errors(),
            r.spec_diag_source_errors() == self.spec_diag_source_errors(),
    {
        proof {
            use_type_invariant(&self);
        }
        let Report { inner, data, mut attachments, stack_trace, display_causes, origin_source_errors, diagnostic_source_errors } = self;
        attachments.push(a);
        Report { inner, data, attachments, stack_trace, display_causes, origin_source_errors, diagnostic_source_errors }
    }

    /// Attaches a note after the existing attachments.
    pub fn attach_note(self, message: String) -> (r: Self)
        ensures
            r.spec_inner() == self.spec_inner(),
            r.spec_data() == self.spec_data(),
            r.spec_attachments() == self.spec_attachments().push(Attachment::Note { message }),
            r.spec_stack_trace() == self.spec_stack_trace(),
            r.spec_display_causes() == self.spec_display_causes(),
            r.spec_origin_source_errors() == self.spec_origin_source_errors(),
            r.spec_diag_source_errors() == self.spec_diag_source_errors(),
    {
        self.push_attachment(Attachment::Note { message })
    }

    /// Attaches a printable note; the same as [`Report::attach_note`].
    pub fn attach_printable(self, message: String) -> (r: Self)
        ensures
            r.spec_inner() == self.spec_inner(),
            r.spec_data() == self.spec_data(),
            r.spec_attachments() == self.spec_attachments().push(Attachment::Note { message }),
            r.spec_stack_trace() == self.spec_stack_trace(),
            r.spec_display_causes() == self.spec_display_causes(),
            r.spec_origin_source_errors() == self.spec_origin_source_errors(),
            r.spec_diag_source_errors() == self.spec_diag_source_errors(),
    {
        self.attach_note(message)
    }

    /// Attaches a named payload, with an optional media type, after the
    /// existing attachments.
    pub fn attach_payload(self, name: String, value: AttachmentValue, media_type: Option<String>) -> (r: Self)
        ensures
            r.spec_inner() == self.spec_inner(),
            r.spec_data() == self.spec_data(),
            r.spec_attachments() == self.spec_attachments().push(Attachment::Payload { name, value, media_type }),
            r.spec_stack_trace() == self.spec_stack_trace(),
            r.spec_display_causes() == self.spec_display_causes(),
            r.spec_origin_source_errors() == self.spec_origin_source_errors(),
            r.spec_diag_source_errors() == self.spec_diag_source_errors(),
    {
        self.push_attachment(Attachment::Payload { name, value, media_type })
    }

    fn replace_metadata(self, metadata: ReportMetadata<State>) -> (r: Self)
        ensures
            r.spec_inner() == self.spec_inner(),
            r.spec_data().metadata == metadata,
            r.same_diagnostics(&self),
    {
        proof {
            use_type_invariant(&self);
        }
        let Report { inner, data, attachments, stack_trace, display_causes, origin_source_errors, diagnostic_source_errors } = self;
        let ReportData { metadata: _, trace, system, context, options } = data;
        Report {
            inner,
            data: ReportData { metadata, trace, system, context, options },
            attachments,
            stack_trace,
            display_causes,
            origin_source_errors,
            diagnostic_source_errors,
        }
    }

    /// Sets the error code, replacing any existing one.
    pub fn set_error_code(self, error_code: ErrorCode) -> (r: Self)
        ensures
            r.spec_inner() == self.spec_inner(),
            r.spec_data().metadata.spec_error_code() == Some(error_code),
            r.spec_data().metadata.spec_category() == self.spec_data().metadata.spec_category(),
            r.spec_data().metadata.spec_retryable() == self.spec_data().metadata.spec_retryable(),
            r.spec_data().metadata.spec_state() == self.spec_data().metadata.spec_state(),
            r.same_diagnostics(&self),
    {
        proof {
            use_type_invariant(&self);
        }
        let Report { inner, data, attachments, stack_trace, display_causes, origin_source_errors, diagnostic_source_errors } = self;
        let ReportData { metadata, trace, system, context, options } = data;
        let metadata = metadata.set_error_code(error_code);
        Report {
            inner,
            data: ReportData { metadata, trace, system, context, options },
            attachments,
            stack_trace,
            display_causes,
            origin_source_errors,
            diagnostic_source_errors,
        }
    }

    /// Sets the error code only if none is set.
    pub fn with_error_code(self, error_code: ErrorCode) -> (r: Self)
        ensures
            r.spec_inner() == self.spec_inner(),
            r.spec_data().metadata.spec_error_code() == (if self.spec_data().metadata.spec_error_code() is None { Some(error_code) } else { self.spec_data().metadata.spec_error_code() }),
            r.spec_data().metadata.spec_category() == self.spec_data().metadata.spec_category(),
            r.spec_data().metadata.spec_retryable() == self.spec_data().metadata.spec_retryable(),
            r.spec_data().metadata.spec_state() == self.spec_data().metadata.spec_state(),
            r.same_diagnostics(&self),
    {
        proof {
            use_type_invariant(&self);
        }
        let Report { inner, data, attachments, stack_trace, display_causes, origin_source_errors, diagnostic_source_errors } = self;
        let ReportData { metadata, trace, system, context, options } = data;
        let metadata = metadata.with_error_code(error_code);
        Report {
            inner,
            data: ReportData { metadata, trace, system, context, options },
            attachments,
            stack_trace,
            display_causes,
            origin_source_errors,
            diagnostic_source_errors,
        }
    }

    /// Sets the category, replacing any existing one.
    pub fn set_category(self, category: String) -> (r: Self)
        ensures
            r.spec_inner() == self.spec_inner(),
            r.spec_data().metadata.spec_error_code() == self.spec_data().metadata.spec_error_code(),
            r.spec_data().metadata.spec_category() == Some(category),
            r.spec_data().metadata.spec_retryable() == self.spec_data().metadata.spec_retryable(),
            r.spec_data().metadata.spec_state() == self.spec_data().metadata.spec_state(),
            r.same_diagnostics(&self),
    {
        proof {
            use_type_invariant(&self);
        }
        let Report { inner, data, attachments, stack_trace, display_causes, origin_source_errors, diagnostic_source_errors } = self;
        let ReportData { metadata, trace, system, context, options } = data;
        let metadata = metadata.set_category(category);
        Report {
            inner,
            data: ReportData { metadata, trace, system, context, options },
            attachments,
            stack_trace,
            display_causes,
            origin_source_errors,
            diagnostic_source_errors,
        }
    }

    /// Sets the category only if none is set.
    pub fn with_category(self, category: String) -> (r: Self)
        ensures
            r.spec_inner() == self.spec_inner(),
            r.spec_data().metadata.spec_error_code() == self.spec_data().metadata.spec_error_code(),
            r.spec_data().metadata.spec_category() == (if self.spec_data().metadata.spec_category() is None { Some(category) } else { self.spec_data().metadata.spec_category() }),
            r.spec_data().metadata.spec_retryable() == self.spec_data().metadata.spec_retryable(),
            r.spec_data().metadata.spec_state() == self.spec_data().metadata.spec_state(),
            r.same_diagnostics(&self),
    {
        proof {
            use_type_invariant(&self);
        }
        let Report { inner, data, attachments, stack_trace, display_causes, origin_source_errors, diagnostic_source_errors } = self;
        let ReportData { metadata, trace, system, context, options } = data;
        let metadata = metadata.with_category(category);
        Report {
            inner,
            data: ReportData { metadata, trace, system, context, options },
            attachments,
            stack_trace,
            display_causes,
            origin_source_errors,
            diagnostic_source_errors,
        }
    }

    /// Sets the retryable flag, replacing any existing one.
    pub fn set_retryable(self, retryable: bool) -> (r: Self)
        ensures
            r.spec_inner() == self.spec_inner(),
            r.spec_data().metadata.spec_error_code() == self.spec_data().metadata.spec_error_code(),
            r.spec_data().metadata.spec_category() == self.spec_data().metadata.spec_category(),
            r.spec_data().metadata.spec_retryable() == Some(retryable),
            r.spec_data().metadata.spec_state() == self.spec_data().metadata.spec_state(),
            r.same_diagnostics(&self),
    {
        proof {
            use_type_invariant(&self);
        }
        let Report { inner, data, attachments, stack_trace, display_causes, origin_source_errors, diagnostic_source_errors } = self;
        let ReportData { metadata, trace, system, context, options } = data;
        let metadata = metadata.set_retryable(retryable);
        Report {
            inner,
            data: ReportData { metadata, trace, system, context, options },
            attachments,
            stack_trace,
            display_causes,
            origin_source_errors,
            diagnostic_source_errors,
        }
    }

    /// Sets the retryable flag only if none is set.
    pub fn with_retryable(self, retryable: bool) -> (r: Self)
        ensures
            r.spec_inner() == self.spec_inner(),
            r.spec_data().metadata.spec_error_code() == self.spec_data().metadata.spec_error_code(),
            r.spec_data().metadata.spec_category() == self.spec_data().metadata.spec_category(),
            r.spec_data().metadata.spec_retryable() == (if self.spec_data().metadata.spec_retryable() is None { Some(retryable) } else { self.spec_data().metadata.spec_retryable() }),
            r.spec_data().metadata.spec_state() == self.spec_data().metadata.spec_state(),
            r.same_diagnostics(&self),
    {
        proof {
            use_type_invariant(&self);
        }
        let Report { inner, data, attachments, stack_trace, display_causes, origin_source_errors, diagnostic_source_errors } = self;
        let ReportData { metadata, trace, system, context, options } = data;
        let metadata = metadata.with_retryable(retryable);
        Report {
            inner,
            data: ReportData { metadata, trace, system, context, options },
            attachments,
            stack_trace,
            display_causes,
            origin_source_errors,
            diagnostic_source_errors,
        }
    }

    /// Replaces the metadata.
    pub fn with_metadata(self, metadata: ReportMetadata<State>) -> (r: Self)
        ensures
            r.spec_inner() == self.spec_inner(),
            r.spec_data().metadata == metadata,
            r.same_diagnostics(&self),
    {
        self.replace_metadata(metadata)
    }
    /// Sets the stack trace, replacing any existing one.
    pub fn set_stack_trace(self, stack_trace: StackTrace) -> (r: Self)
        ensures
            r.spec_inner() == self.spec_inner(),
            r.spec_data() == self.spec_data(),
            r.spec_attachments() == self.spec_attachments(),
            r.spec_stack_trace() == Some(stack_trace),
            r.spec_display_causes() == self.spec_display_causes(),
            r.spec_origin_source_errors() == self.spec_origin_source_errors(),
            r.spec_diag_source_errors() == self.spec_diag_source_errors(),
    {
        proof {
            use_type_invariant(&self);
        }
        Report { stack_trace: Some(stack_trace), ..self }
    }

    /// Sets the stack trace only if none is present.
    pub fn with_stack_trace(self, stack_trace: StackTrace) -> (r: Self)
        ensures
            r.spec_inner() == self.spec_inner(),
            r.spec_data() == self.spec_data(),
            r.spec_attachments() == self.spec_attachments(),
            r.spec_stack_trace() == (if self.spec_stack_trace() is None { Some(stack_trace) } else { self.spec_stack_trace() }),
            r.spec_display_causes() == self.spec_display_causes(),
            r.spec_origin_source_errors() == self.spec_origin_source_errors(),
            r.spec_diag_source_errors() == self.spec_diag_source_errors(),
    {
        if self.stack_trace.is_none() {
            self.set_stack_trace(stack_trace)
        } else {
            self
        }
    }

    /// Removes the stack trace.
    pub fn clear_stack_trace(self) -> (r: Self)
        ensures
            r.spec_inner() == self.spec_inner(),
            r.spec_data() == self.spec_data(),
            r.spec_attachments() == self.spec_attachments(),
            r.spec_stack_trace() is None,
            r.spec_display_causes() == self.spec_display_causes(),
            r.spec_origin_source_errors() == self.spec_origin_source_errors(),
            r.spec_diag_source_errors() == self.spec_diag_source_errors(),
    {
        proof {
            use_type_invariant(&self);
        }
        Report { stack_trace: None, ..self }
    }

    /// Adds display causes after the recorded ones, starting a chain (not
    /// truncated, no cycle) when there is none.
    pub fn with_display_causes(self, causes: Vec<String>) -> (r: Self)
        ensures
            r.spec_inner() == self.spec_inner(),
            r.spec_data() == self.spec_data(),
            r.spec_attachments() == self.spec_attachments(),
            r.spec_stack_trace() == self.spec_stack_trace(),
            r.spec_display_causes() matches Some(c) && c.items@ == causes_with(self.spec_display_causes(), causes@)
                && (self.spec_display_causes() matches Some(o) ==> c.truncated == o.truncated && c.cycle_detected == o.cycle_detected)
                && (self.spec_display_causes() is None ==> !c.truncated && !c.cycle_detected),
            r.spec_origin_source_errors() == self.spec_origin_source_errors(),
            r.spec_diag_source_errors() == self.spec_diag_source_errors(),
    {
        proof {
            use_type_invariant(&self);
        }
        let Report { inner, data, attachments, stack_trace, display_causes, origin_source_errors, diagnostic_source_errors } = self;
        let mut chain = match display_causes {
            Some(c) => c,
            None => DisplayCauseChain { items: Vec::new(), truncated: false, cycle_detected: false },
        };
        let mut more = causes;
        let ghost before = chain.items@;
        let ghost added = more@;
        chain.items.append(&mut more);
        assert(chain.items@ =~= before + added);
        Report { inner, data, attachments, stack_trace, display_causes: Some(chain), origin_source_errors, diagnostic_source_errors }
    }

    /// Adds one display cause after the recorded ones.
    pub fn with_display_cause(self, cause: String) -> (r: Self)
        ensures
            r.spec_inner() == self.spec_inner(),
            r.spec_data() == self.spec_data(),
            r.spec_attachments() == self.spec_attachments(),
            r.spec_stack_trace() == self.spec_stack_trace(),
            r.spec_display_causes() matches Some(c) && c.items@ == causes_with(self.spec_display_causes(), seq![cause])
                && (self.spec_display_causes() matches Some(o) ==> c.truncated == o.truncated && c.cycle_detected == o.cycle_detected)
                && (self.spec_display_causes() is None ==> !c.truncated && !c.cycle_detected),
            r.spec_origin_source_errors() == self.spec_origin_source_errors(),
            r.spec_diag_source_errors() == self.spec_diag_source_errors(),
    {
        let mut v: Vec<String> = Vec::new();
        v.push(cause);
        assert(v@ =~= seq![cause]);
        self.with_display_causes(v)
    }

    /// Sets the display-cause chain, replacing any recorded one.
    pub fn set_display_causes(self, display_causes: DisplayCauseChain) -> (r: Self)
        ensures
            r.spec_inner() == self.spec_inner(),
            r.spec_data() == self.spec_data(),
            r.spec_attachments() == self.spec_attachments(),
            r.spec_stack_trace() == self.spec_stack_trace(),
            r.spec_display_causes() == Some(display_causes),
            r.spec_origin_source_errors() == self.spec_origin_source_errors(),
            r.spec_diag_source_errors() == self.spec_diag_source_errors(),
    {
        proof {
            use_type_invariant(&self);
        }
        Report { display_causes: Some(display_causes), ..self }
    }

    /// Sets the source errors recorded as diagnostics, replacing any others.
    pub fn set_diag_src_errs(self, source_errors: SourceErrorChain) -> (r: Self)
        ensures
            r.spec_inner() == self.spec_inner(),
            r.spec_data() == self.spec_data(),
            r.spec_attachments() == self.spec_attachments(),
            r.spec_stack_trace() == self.spec_stack_trace(),
            r.spec_display_causes() == self.spec_display_causes(),
            r.spec_origin_source_errors() == self.spec_origin_source_errors(),
            r.spec_diag_source_errors() == Some(source_errors),
    {
        proof {
            use_type_invariant(&self);
        }
        Report { diagnostic_source_errors: Some(source_errors), ..self }
    }

    /// Merges a global context into the report (see [`global_applied`]);
    /// the error and the other diagnostics are kept.
    pub fn apply_global_context(self, global: Option<GlobalContext>) -> (r: Self)
        requires
            global matches Some(g) ==> g.system.well_formed() && g.context.well_formed(),
        ensures
            r.spec_inner() == self.spec_inner(),
            global_applied(self.spec_data(), global, r.spec_data()),
            r.spec_attachments() == self.spec_attachments(),
            r.spec_stack_trace() == self.spec_stack_trace(),
            r.spec_display_causes() == self.spec_display_causes(),
            r.spec_origin_source_errors() == self.spec_origin_source_errors(),
            r.spec_diag_source_errors() == self.spec_diag_source_errors(),
    {
        proof {
            use_type_invariant(&self);
        }
        let Report { inner, data, attachments, stack_trace, display_causes, origin_source_errors, diagnostic_source_errors } = self;
        let data = data.apply_global_context(global);
        Report { inner, data, attachments, stack_trace, display_causes, origin_source_errors, diagnostic_source_errors }
    }

    /// Replaces the wrapped error by what `map` makes of it, recording the old
    /// error in the origin chain when the report's options ask for it (an
    /// explicit choice, or else whether this is a debug build). The old error
    /// is described by `inner_message` and `inner_type`, and `inner_sources`
    /// is the chain of its own sources, which hangs below it when the report
    /// has no origin chain yet. Every other diagnostic is kept.
    pub fn map_err<Outer, F: FnOnce(E) -> Outer>(
        self,
        debug_build: bool,
        inner_message: String,
        inner_type: String,
        inner_sources: Option<SourceErrorChain>,
        map: F,
    ) -> (r: Report<Outer, State>)
        requires
            map.requires((self.spec_inner(),)),
            self.spec_data().options.spec_accumulates(debug_build)
                ==> (origin_below(self.spec_origin_source_errors(), inner_sources) matches Some(s)
                ==> arena_fits(s.nodes@, s.roots@, 1) && s.nodes@.len() < usize::MAX),
        ensures
            map.ensures((self.spec_inner(),), r.spec_inner()),
            r.spec_data() == self.spec_data(),
            r.spec_attachments() == self.spec_attachments(),
            r.spec_stack_trace() == self.spec_stack_trace(),
            r.spec_display_causes() == self.spec_display_causes(),
            r.spec_diag_source_errors() == self.spec_diag_source_errors(),
            !self.spec_data().options.spec_accumulates(debug_build)
                ==> r.spec_origin_source_errors() == self.spec_origin_source_errors(),
            self.spec_data().options.spec_accumulates(debug_build) ==> (r.spec_origin_source_errors() matches Some(c)
                && rooted_chain_parts(
                inner_message,
                Some(inner_type),
                Seq::empty(),
                match origin_below(self.spec_origin_source_errors(), inner_sources) {
                    Some(s) => Some(&s),
                    None => None,
                },
                CauseTraversalState { truncated: false, cycle_detected: false },
                c,
            )),
    {
        let accumulate = self.options().resolve_accumulate_src_chain(debug_build);
        if accumulate {
            self.map_err_accumulating(inner_message, inner_type, inner_sources, map)
        } else {
            self.map_err_keeping_origin(map)
        }
    }

    /// Replaces the wrapped error by what `map` makes of it; every
    /// diagnostic is kept and the origin chain is left as it is.
    pub fn map_err_keeping_origin<Outer, F: FnOnce(E) -> Outer>(self, map: F) -> (r: Report<Outer, State>)
        requires
            map.requires((self.spec_inner(),)),
        ensures
            map.ensures((self.spec_inner(),), r.spec_inner()),
            r.spec_data() == self.spec_data(),
            r.same_diagnostics(&self),
    {
        proof {
            use_type_invariant(&self);
        }
        let Report { inner, data, attachments, stack_trace, display_causes, origin_source_errors, diagnostic_source_errors } = self;
        let outer = map(inner);
        Report { inner: outer, data, attachments, stack_trace, display_causes, origin_source_errors, diagnostic_source_errors }
    }

    /// The report's options.
    pub fn options(&self) -> (o: ReportOptions)
        ensures
            o == self.spec_data().options,
    {
        self.data.options
    }

    /// Replaces the report's options; everything else is kept.
    pub fn set_options(self, options: ReportOptions) -> (r: Self)
        ensures
            r.spec_inner() == self.spec_inner(),
            r.spec_data().options == options,
            r.spec_data().metadata == self.spec_data().metadata,
            r.spec_data().trace == self.spec_data().trace,
            r.same_gathered(&self),
    {
        proof {
            use_type_invariant(&self);
        }
        let Report { inner, data, attachments, stack_trace, display_causes, origin_source_errors, diagnostic_source_errors } = self;
        let ReportData { metadata, trace, system, context, options: _ } = data;
        Report {
            inner,
            data: ReportData { metadata, trace, system, context, options },
            attachments,
            stack_trace,
            display_causes,
            origin_source_errors,
            diagnostic_source_errors,
        }
    }

    /// Chooses explicitly whether mapping the error records the old error in
    /// the origin chain; everything else is kept.
    pub fn set_accumulate_src_chain(self, accumulate: bool) -> (r: Self)
        ensures
            r.spec_inner() == self.spec_inner(),
            r.spec_data().options.accumulate_src_chain == Some(accumulate),
            r.spec_data().metadata == self.spec_data().metadata,
            r.spec_data().trace == self.spec_data().trace,
            r.same_gathered(&self),
    {
        let options = self.options().with_accumulate_src_chain(accumulate);
        self.set_options(options)
    }

    /// Replaces the wrapped error by what `map` makes of it and records the
    /// old error as the new root of the origin chain: `inner_message` and
    /// `inner_type` describe the old error, and below it hangs the report's
    /// origin chain or, when there is none, `inner_sources`, the chain of the
    /// old error's own sources. The other diagnostics are kept.
    pub fn map_err_accumulating<Outer, F: FnOnce(E) -> Outer>(
        self,
        inner_message: String,
        inner_type: String,
        inner_sources: Option<SourceErrorChain>,
        map: F,
    ) -> (r: Report<Outer, State>)
        requires
            map.requires((self.spec_inner(),)),
            origin_below(self.spec_origin_source_errors(), inner_sources) matches Some(s)
                ==> arena_fits(s.nodes@, s.roots@, 1) && s.nodes@.len() < usize::MAX,
        ensures
            map.ensures((self.spec_inner(),), r.spec_inner()),
            r.spec_data() == self.spec_data(),
            r.spec_attachments() == self.spec_attachments(),
            r.spec_stack_trace() == self.spec_stack_trace(),
            r.spec_display_causes() == self.spec_display_causes(),
            r.spec_diag_source_errors() == self.spec_diag_source_errors(),
            r.spec_origin_source_errors() matches Some(c) && rooted_chain_parts(
                inner_message,
                Some(inner_type),
                Seq::empty(),
                match origin_below(self.spec_origin_source_errors(), inner_sources) {
                    Some(s) => Some(&s),
                    None => None,
                },
                CauseTraversalState { truncated: false, cycle_detected: false },
                c,
            ),
    {
        proof {
            use_type_invariant(&self);
        }
        let Report { inner, data, attachments, stack_trace, display_causes, origin_source_errors, diagnostic_source_errors } = self;
        let below = match origin_source_errors {
            Some(c) => Some(c),
            None => inner_sources,
        };
        let chain = SourceErrorChain::from_borrowed_error(inner_message, Some(inner_type), below, CauseTraversalState::new());
        let outer = map(inner);
        Report {
            inner: outer,
            data,
            attachments,
            stack_trace,
            display_causes,
            origin_source_errors: Some(chain),
            diagnostic_source_errors,
        }
    }

    /// Replaces the wrapped error by what `map` makes of it and records
    /// `origin` as the chain of errors it came from; the other diagnostics
    /// are kept.
    pub fn map_err_with_origin<Outer, F: FnOnce(E) -> Outer>(self, origin: SourceErrorChain, map: F) -> (r: Report<Outer, State>)
        requires
            map.requires((self.spec_inner(),)),
        ensures
            map.ensures((self.spec_inner(),), r.spec_inner()),
            r.spec_data() == self.spec_data(),
            r.spec_attachments() == self.spec_attachments(),
            r.spec_stack_trace() == self.spec_stack_trace(),
            r.spec_display_causes() == self.spec_display_causes(),
            r.spec_origin_source_errors() == Some(origin),
            r.spec_diag_source_errors() == self.spec_diag_source_errors(),
    {
        proof {
            use_type_invariant(&self);
        }
        let Report { inner, data, attachments, stack_trace, display_causes, origin_source_errors: _, diagnostic_source_errors } = self;
        let outer = map(inner);
        Report { inner: outer, data, attachments, stack_trace, display_causes, origin_source_errors: Some(origin), diagnostic_source_errors }
    }
}

impl<E> Report<E, MissingSeverity> {
    /// A report around `inner` with no severity and nothing else recorded.
    pub fn new(inner: E) -> (r: Self)
        ensures
            r.spec_inner() == inner,
            r.spec_data().metadata.spec_error_code() is None,
            r.spec_data().metadata.spec_category() is None,
            r.spec_data().metadata.spec_retryable() is None,
            r.spec_data().trace.spec_context() is None,
            r.spec_data().trace.spec_events().len() == 0,
            r.spec_context().len() == 0,
            r.spec_system().len() == 0,
            r.spec_attachments().len() == 0,
            r.spec_stack_trace() is None,
            r.spec_display_causes() is None,
            r.spec_origin_source_errors() is None,
            r.spec_diag_source_errors() is None,
            r.spec_data().options.accumulate_src_chain is None,
    {
        Report {
            inner,
            data: ReportData {
                metadata: ReportMetadata::new(),
                trace: ReportTrace::new(),
                system: ContextMap::new(),
                context: ContextMap::new(),
                options: ReportOptions::new(),
            },
            attachments: Vec::new(),
            stack_trace: None,
            display_causes: None,
            origin_source_errors: None,
            diagnostic_source_errors: None,
        }
    }

    /// Sets the severity, moving to the typestate that carries one.
    pub fn set_severity(self, severity: Severity) -> (r: Report<E, HasSeverity>)
        ensures
            r.spec_inner() == self.spec_inner(),
            r.spec_data().metadata.spec_state().spec_severity() == severity,
            r.same_fields_as(self.spec_data().metadata),
            r.same_diagnostics(&self),
    {
        proof {
            use_type_invariant(&self);
        }
        let Report { inner, data, attachments, stack_trace, display_causes, origin_source_errors, diagnostic_source_errors } = self;
        let ReportData { metadata, trace, system, context, options } = data;
        Report {
            inner,
            data: ReportData { metadata: metadata.set_severity(severity), trace, system, context, options },
            attachments,
            stack_trace,
            display_causes,
            origin_source_errors,
            diagnostic_source_errors,
        }
    }
}

impl<E> Report<E, HasSeverity> {
    /// Replaces the severity.
    pub fn set_severity(self, severity: Severity) -> (r: Self)
        ensures
            r.spec_inner() == self.spec_inner(),
            r.spec_data().metadata.spec_state().spec_severity() == severity,
            r.same_fields_as(self.spec_data().metadata),
            r.same_diagnostics(&self),
    {
        proof {
            use_type_invariant(&self);
        }
        let Report { inner, data, attachments, stack_trace, display_causes, origin_source_errors, diagnostic_source_errors } = self;
        let ReportData { metadata, trace, system, context, options } = data;
        Report {
            inner,
            data: ReportData { metadata: metadata.set_severity(severity), trace, system, context, options },
            attachments,
            stack_trace,
            display_causes,
            origin_source_errors,
            diagnostic_source_errors,
        }
    }
}

/// The name a severity is shown with.
pub open spec fn severity_label(s: Severity) -> Seq<char> {
    match s {
        Severity::Trace => "trace"@,
        Severity::Debug => "debug"@,
        Severity::Info => "info"@,
        Severity::Warn => "warn"@,
        Severity::Error => "error"@,
        Severity::Fatal => "fatal"@,
    }
}

/// Returns the name a severity is shown with.
pub fn severity_name(s: Severity) -> (r: &'static str)
    ensures
        r@ == severity_label(s),
{
    match s {
        Severity::Trace => "trace",
        Severity::Debug => "debug",
        Severity::Info => "info",
        Severity::Warn => "warn",
        Severity::Error => "error",
        Severity::Fatal => "fatal",
    }
}

/// The text an error code is shown with.
pub open spec fn error_code_text(c: ErrorCode) -> Seq<char> {
    match c {
        ErrorCode::Integer(v) => decimal_int(v as int),
        ErrorCode::String(s) => s@,
    }
}

/// `name=value` when a value is present.
pub open spec fn opt_field(name: Seq<char>, v: Option<Seq<char>>) -> Seq<Seq<char>> {
    match v {
        Some(t) => seq![name + "="@ + t],
        None => Seq::empty(),
    }
}

/// The metadata fields of a summary: code, severity, category, retryable.
pub open spec fn metadata_fields<State: SeverityState>(m: ReportMetadata<State>) -> Seq<Seq<char>> {
    opt_field("code"@, match m.spec_error_code() { Some(c) => Some(error_code_text(c)), None => None })
        + opt_field("severity"@, match m.spec_state().severity_spec() { Some(s) => Some(severity_label(s)), None => None })
        + opt_field("category"@, match m.spec_category() { Some(c) => Some(c@), None => None })
        + opt_field("retryable"@, match m.spec_retryable() { Some(b) => Some(bool_text(b)), None => None })
}

/// The trace fields of a summary: trace and span ids of the trace context.
pub open spec fn trace_fields(t: ReportTrace) -> Seq<Seq<char>> {
    match t.spec_context() {
        Some(c) => opt_field("trace_id"@, match c.trace_id { Some(id) => Some(ascii_text(id@)), None => None })
            + opt_field("span_id"@, match c.span_id { Some(id) => Some(ascii_text(id@)), None => None }),
        None => Seq::empty(),
    }
}

/// Context entries as `key=value`, listed by key, each key after `prefix`.
pub open spec fn context_fields(entries: Seq<(String, ContextValue)>, prefix: Seq<char>) -> Seq<Seq<char>> {
    sorted_ctx(entries).map_values(|e: (String, ContextValue)| prefix + e.0@ + "="@ + context_text(e.1))
}

/// How an attachment is shown: a note by its message, a payload as
/// `name=value`, with its media type in brackets when given.
pub open spec fn attachment_field(a: Attachment) -> Seq<char> {
    match a {
        Attachment::Note { message } => message@,
        Attachment::Payload { name, value, media_type } => name@ + "="@ + value_text(value) + match media_type {
            Some(m) => " ("@ + m@ + ")"@,
            None => Seq::empty(),
        },
    }
}

/// Whether any metadata field is set.
pub open spec fn has_metadata<State: SeverityState>(m: ReportMetadata<State>) -> bool {
    m.spec_error_code() is Some || m.spec_state().severity_spec() is Some || m.spec_category() is Some || m.spec_retryable() is Some
}

/// Whether the summary starts its bracketed part: the text of the error
/// alone is shown only when there is neither metadata nor any diagnostic.
pub open spec fn shows_fields<E, State: SeverityState>(r: Report<E, State>) -> bool {
    ||| has_metadata(r.spec_data().metadata)
    ||| r.spec_context().len() > 0
    ||| r.spec_system().len() > 0
    ||| r.spec_attachments().len() > 0
    ||| r.spec_stack_trace() is Some
    ||| r.spec_display_causes() is Some
    ||| r.spec_origin_source_errors() is Some
    ||| r.spec_diag_source_errors() is Some
    ||| !(context_is_empty(r.spec_data().trace.context_or_empty()) && r.spec_data().trace.spec_events().len() == 0)
}

/// The fields of a summary, in order: metadata, trace ids, a stack-trace
/// marker, the business context and the system context by key, then the
/// attachments in the order they were added.
pub open spec fn summary_fields<E, State: SeverityState>(r: Report<E, State>) -> Seq<Seq<char>> {
    metadata_fields(r.spec_data().metadata)
        + trace_fields(r.spec_data().trace)
        + (if r.spec_stack_trace() is Some { seq!["stack_trace"@ + "="@ + "present"@] } else { Seq::empty() })
        + context_fields(r.spec_context(), Seq::empty())
        + context_fields(r.spec_system(), "system."@)
        + r.spec_attachments().map_values(|a: Attachment| attachment_field(a))
}

/// The one-line summary of a report whose error reads `inner`: the error,
/// then, when anything is recorded, ` [` and, when there are fields, the
/// fields joined by `, ` after a further ` [` and closed by `]`.
pub open spec fn summary_text(inner: Seq<char>, shows: bool, fields: Seq<Seq<char>>) -> Seq<char> {
    if !shows {
        inner
    } else if fields.len() == 0 {
        inner + " ["@
    } else {
        inner + " ["@ + " ["@ + join(fields) + "]"@
    }
}

fn field(name: &str, value: &str) -> (s: String)
    ensures
        s@ == name@ + "="@ + value@,
{
    let mut s = String::new();
    push_str(&mut s, name);
    push_str(&mut s, "=");
    push_str(&mut s, value);
    assert(s@ =~= name@ + "="@ + value@);
    s
}

fn push_field(fields: &mut Vec<String>, f: String)
    ensures
        final(fields)@.map_values(|s: String| s@) == old(fields)@.map_values(|s: String| s@).push(f@),
{
    let ghost before = fields@;
    fields.push(f);
    assert(fields@.map_values(|s: String| s@) =~= before.map_values(|s: String| s@).push(f@));
}

fn push_context_fields(fields: &mut Vec<String>, map: &ContextMap, prefix: &str)
    ensures
        final(fields)@.map_values(|s: String| s@) == old(fields)@.map_values(|s: String| s@) + context_fields(map.entries(), prefix@),
{
    let ghost base = fields@.map_values(|s: String| s@);
    let sorted = map.sorted_entries();
    let ghost all = context_fields(map.entries(), prefix@);
    let mut i: usize = 0;
    assert(all.take(0) =~= Seq::<Seq<char>>::empty());
    assert(fields@.map_values(|s: String| s@) =~= base + all.take(0));
    while i < sorted.len()
        invariant
            i <= sorted@.len(),
            sorted@.len() == sorted_ctx(map.entries()).len(),
            forall|k: int| 0 <= k < sorted@.len() ==> *sorted@[k] == #[trigger] sorted_ctx(map.entries())[k],
            all == context_fields(map.entries(), prefix@),
            fields@.map_values(|s: String| s@) == base + all.take(i as int),
        decreases sorted@.len() - i,
    {
        let e = sorted[i];
        let mut key = String::new();
        push_str(&mut key, prefix);
        push_str(&mut key, e.0.as_str());
        let value = context_value_text(&e.1);
        let f = field(key.as_str(), value.as_str());
        assert(f@ == all[i as int]);
        push_field(fields, f);
        i += 1;
        assert(all.take(i as int) =~= all.take(i as int - 1).push(all[i as int - 1]));
    }
    assert(all.take(sorted@.len() as int) =~= all);
}

fn push_metadata_fields<State: SeverityState>(fields: &mut Vec<String>, m: &ReportMetadata<State>)
    ensures
        final(fields)@.map_values(|s: String| s@) == old(fields)@.map_values(|s: String| s@) + metadata_fields(*m),
{
    let ghost base = fields@.map_values(|s: String| s@);
    match m.error_code() {
        Some(code) => {
            let t = match code {
                ErrorCode::Integer(v) => i64_text(*v),
                ErrorCode::String(s) => s.clone(),
            };
            push_field(fields, field("code", t.as_str()));
        },
        None => {},
    }
    match m.severity() {
        Some(sev) => push_field(fields, field("severity", severity_name(sev))),
        None => {},
    }
    match m.category() {
        Some(c) => push_field(fields, field("category", c)),
        None => {},
    }
    match m.retryable() {
        Some(b) => {
            let t = bool_string(b);
            push_field(fields, field("retryable", t.as_str()));
        },
        None => {},
    }
    assert(fields@.map_values(|s: String| s@) =~= base + metadata_fields(*m));
}

fn push_trace_fields(fields: &mut Vec<String>, trace: &ReportTrace)
    ensures
        final(fields)@.map_values(|s: String| s@) == old(fields)@.map_values(|s: String| s@) + trace_fields(*trace),
{
    let ghost base = fields@.map_values(|s: String| s@);
    match trace.context() {
        Some(c) => {
            match &c.trace_id {
                Some(id) => {
                    let t = id.to_text();
                    push_field(fields, field("trace_id", t.as_str()));
                },
                None => {},
            }
            match &c.span_id {
                Some(id) => {
                    let t = id.to_text();
                    push_field(fields, field("span_id", t.as_str()));
                },
                None => {},
            }
        },
        None => {},
    }
    assert(fields@.map_values(|s: String| s@) =~= base + trace_fields(*trace));
}

fn attachment_text_of(a: &Attachment) -> (t: String)
    ensures
        t@ == attachment_field(*a),
{
    let t = match a {
        Attachment::Note { message } => message.clone(),
        Attachment::Payload { name, value, media_type } => {
            let v = attachment_value_text(value);
            let mut t = field(name.as_str(), v.as_str());
            match media_type {
                Some(mt) => {
                    push_str(&mut t, " (");
                    push_str(&mut t, mt.as_str());
                    push_str(&mut t, ")");
                },
                None => {},
            }
            t
        },
    };
    assert(t@ =~= attachment_field(*a));
    t
}

fn push_attachment_fields(fields: &mut Vec<String>, attachments: &Vec<Attachment>)
    ensures
        final(fields)@.map_values(|s: String| s@) == old(fields)@.map_values(|s: String| s@) + attachments@.map_values(|a: Attachment| attachment_field(a)),
{
    let ghost base = fields@.map_values(|s: String| s@);
    let ghost atts = attachments@.map_values(|a: Attachment| attachment_field(a));
    let mut i: usize = 0;
    assert(atts.take(0) =~= Seq::<Seq<char>>::empty());
    assert(fields@.map_values(|s: String| s@) =~= base + atts.take(0));
    while i < attachments.len()
        invariant
            i <= attachments@.len(),
            atts == attachments@.map_values(|a: Attachment| attachment_field(a)),
            fields@.map_values(|s: String| s@) == base + atts.take(i as int),
        decreases attachments@.len() - i,
    {
        let t = attachment_text_of(&attachments[i]);
        push_field(fields, t);
        i += 1;
        assert(atts.take(i as int) =~= atts.take(i as int - 1).push(atts[i as int - 1]));
    }
    assert(atts.take(attachments@.len() as int) =~= atts);
}

impl<E, State: SeverityState> Report<E, State> {
    /// The fields of the report's summary, as described by [`summary_fields`].
    pub fn summary_field_texts(&self) -> (fields: Vec<String>)
        ensures
            fields@.map_values(|s: String| s@) == summary_fields(*self),
    {
        proof {
            use_type_invariant(self);
        }
        let ghost r = *self;
        let mut fields: Vec<String> = Vec::new();
        assert(fields@.map_values(|s: String| s@) =~= Seq::<Seq<char>>::empty());
        push_metadata_fields(&mut fields, &self.data.metadata);
        push_trace_fields(&mut fields, &self.data.trace);
        let ghost after_trace = fields@.map_values(|s: String| s@);
        if self.stack_trace.is_some() {
            push_field(&mut fields, field("stack_trace", "present"));
        }
        assert(fields@.map_values(|s: String| s@) =~= after_trace + (if r.spec_stack_trace() is Some { seq!["stack_trace"@ + "="@ + "present"@] } else { Seq::empty() }));
        let ghost before_ctx = fields@.map_values(|s: String| s@);
        push_context_fields(&mut fields, &self.data.context, "");
        proof {
            reveal_strlit("");
            assert(""@ =~= Seq::<char>::empty());
        }
        assert(fields@.map_values(|s: String| s@) == before_ctx + context_fields(r.spec_context(), Seq::empty()));
        push_context_fields(&mut fields, &self.data.system, "system.");
        push_attachment_fields(&mut fields, &self.attachments);
        assert(fields@.map_values(|s: String| s@) =~= summary_fields(r));
        fields
    }

    /// Whether anything is recorded besides the error (see [`shows_fields`]).
    pub fn has_anything_recorded(&self) -> (b: bool)
        ensures
            b == shows_fields(*self),
    {
        let m = &self.data.metadata;
        m.error_code().is_some() || m.severity().is_some() || m.category().is_some() || m.retryable().is_some()
            || !self.data.context.is_empty() || !self.data.system.is_empty() || self.attachments.len() > 0
            || self.stack_trace.is_some() || self.display_causes.is_some() || self.origin_source_errors.is_some()
            || self.diagnostic_source_errors.is_some() || !self.data.trace.is_empty()
    }

    /// The one-line summary of the report, given the text of its error:
    /// metadata, trace ids, a stack-trace marker, context and system
    /// entries by key and the attachments, as described by [`summary_text`].
    pub fn summary_line(&self, inner_text: &str) -> (s: String)
        ensures
            s@ == summary_text(inner_text@, shows_fields(*self), summary_fields(*self)),
    {
        let fields = self.summary_field_texts();
        let shows = self.has_anything_recorded();
        let mut out = String::new();
        push_str(&mut out, inner_text);
        if shows {
            push_str(&mut out, " [");
            if fields.len() > 0 {
                push_str(&mut out, " [");
                write_joined(&mut out, &fields);
                push_str(&mut out, "]");
            }
        }
        assert(out@ =~= summary_text(inner_text@, shows_fields(*self), summary_fields(*self)));
        out
    }
}

/// A report with no metadata and nothing recorded reads as its error
/// alone; any other report's summary is its error's text followed by ` [`.
pub proof fn law_summary_starts_with_error<E, State: SeverityState>(r: Report<E, State>, inner: Seq<char>)
    ensures
        !shows_fields(r) ==> summary_text(inner, shows_fields(r), summary_fields(r)) == inner,
        shows_fields(r) ==> (inner + " ["@).is_prefix_of(summary_text(inner, shows_fields(r), summary_fields(r))),
{
    let t = summary_text(inner, shows_fields(r), summary_fields(r));
    if shows_fields(r) {
        let p = inner + " ["@;
        if summary_fields(r).len() == 0 {
            assert(t =~= p);
        } else {
            assert(t =~= p + (" ["@ + join(summary_fields(r)) + "]"@));
        }
        assert(t.take(p.len() as int) =~= p);
    }
}

/// The display causes visited within `max_depth`: at most that many, in
/// order.
pub open spec fn causes_within(causes: Option<DisplayCauseChain>, max_depth: nat) -> Seq<String> {
    match causes {
        Some(c) => if c.items@.len() <= max_depth { c.items@ } else { c.items@.take(max_depth as int) },
        None => Seq::empty(),
    }
}

/// The traversal state of visiting display causes within `max_depth`: the
/// chain's own flags, and truncated when causes lie beyond the limit.
pub open spec fn causes_state(causes: Option<DisplayCauseChain>, max_depth: nat) -> CauseTraversalState {
    match causes {
        Some(c) => CauseTraversalState { truncated: c.truncated || c.items@.len() > max_depth, cycle_detected: c.cycle_detected },
        None => CauseTraversalState { truncated: false, cycle_detected: false },
    }
}

impl<E, State: SeverityState> Report<E, State> {
    /// Visits the display causes within `options.max_depth`, returning the
    /// texts visited, in order, and the traversal state.
    pub fn collect_causes_ext(&self, options: CauseCollectOptions) -> (r: (Vec<&String>, CauseTraversalState))
        ensures
            r.0@.len() == causes_within(self.spec_display_causes(), options.max_depth as nat).len(),
            forall|k: int| 0 <= k < r.0@.len() ==> *r.0@[k] == #[trigger] causes_within(self.spec_display_causes(), options.max_depth as nat)[k],
            r.1 == causes_state(self.spec_display_causes(), options.max_depth as nat),
    {
        let mut visited: Vec<&String> = Vec::new();
        let mut state = CauseTraversalState { truncated: false, cycle_detected: false };
        match &self.display_causes {
            None => (visited, state),
            Some(c) => {
                state.truncated = c.truncated;
                state.cycle_detected = c.cycle_detected;
                let mut i: usize = 0;
                while i < c.items.len() && i < options.max_depth
                    invariant
                        self.display_causes == Some(*c),
                        i <= c.items@.len(),
                        i <= options.max_depth,
                        visited@.len() == i,
                        forall|k: int| 0 <= k < i ==> *visited@[k] == #[trigger] c.items@[k],
                    decreases c.items@.len() - i,
                {
                    visited.push(&c.items[i]);
                    i += 1;
                }
                if i < c.items.len() {
                    state.truncated = true;
                }
                proof {
                    let w = causes_within(self.spec_display_causes(), options.max_depth as nat);
                    assert(visited@.len() == w.len());
                    assert forall|k: int| 0 <= k < visited@.len() implies *visited@[k] == #[trigger] w[k] by {
                        assert(*visited@[k] == c.items@[k]);
                    }
                }
                (visited, state)
            },
        }
    }
}

impl<E, State: SeverityState> Report<E, State> {
    /// Everything but the trace is as in `other`.
    pub open spec fn same_except_trace(&self, other: &Self) -> bool {
        &&& self.spec_inner() == other.spec_inner()
        &&& self.spec_data().metadata == other.spec_data().metadata
        &&& self.spec_data().options == other.spec_data().options
        &&& self.spec_context() == other.spec_context()
        &&& self.spec_system() == other.spec_system()
        &&& self.spec_attachments() == other.spec_attachments()
        &&& self.spec_stack_trace() == other.spec_stack_trace()
        &&& self.spec_display_causes() == other.spec_display_causes()
        &&& self.spec_origin_source_errors() == other.spec_origin_source_errors()
        &&& self.spec_diag_source_errors() == other.spec_diag_source_errors()
    }

    /// Replaces the trace.
    pub fn set_trace(self, trace: ReportTrace) -> (r: Self)
        ensures
            r.same_except_trace(&self),
            r.spec_data().trace == trace,
    {
        proof {
            use_type_invariant(&self);
        }
        let Report { inner, data, attachments, stack_trace, display_causes, origin_source_errors, diagnostic_source_errors } = self;
        let ReportData { metadata, trace: _, system, context, options } = data;
        Report {
            inner,
            data: ReportData { metadata, trace, system, context, options },
            attachments,
            stack_trace,
            display_causes,
            origin_source_errors,
            diagnostic_source_errors,
        }
    }

    /// Sets the trace only when the report's trace is empty.
    pub fn with_trace(self, trace: ReportTrace) -> (r: Self)
        ensures
            r.same_except_trace(&self),
            (context_is_empty(self.spec_data().trace.context_or_empty()) && self.spec_data().trace.spec_events().len() == 0) ==> r.spec_data().trace == trace,
            !(context_is_empty(self.spec_data().trace.context_or_empty()) && self.spec_data().trace.spec_events().len() == 0) ==> r.spec_data().trace == self.spec_data().trace,
    {
        if self.data.trace.is_empty() {
            self.set_trace(trace)
        } else {
            self
        }
    }

    /// Sets the trace and span ids, replacing existing ones.
    pub fn set_trace_ids(self, trace_id: TraceId, span_id: SpanId) -> (r: Self)
        ensures
            r.same_except_trace(&self),
            r.spec_data().trace.spec_context() == Some(TraceContext { trace_id: Some(trace_id), span_id: Some(span_id), ..self.spec_data().trace.context_or_empty() }),
            r.spec_data().trace.spec_events() == self.spec_data().trace.spec_events(),
    {
        proof {
            use_type_invariant(&self);
        }
        let Report { inner, data, attachments, stack_trace, display_causes, origin_source_errors, diagnostic_source_errors } = self;
        let ReportData { metadata, trace, system, context, options } = data;
        let trace = trace.set_trace_id(trace_id).set_span_id(span_id);
        Report {
            inner,
            data: ReportData { metadata, trace, system, context, options },
            attachments,
            stack_trace,
            display_causes,
            origin_source_errors,
            diagnostic_source_errors,
        }
    }

    /// Sets the trace and span ids where they are unset.
    pub fn with_trace_ids(self, trace_id: TraceId, span_id: SpanId) -> (r: Self)
        ensures
            r.same_except_trace(&self),
            r.spec_data().trace.context_or_empty() == (TraceContext {
                trace_id: if self.spec_data().trace.context_or_empty().trace_id is None { Some(trace_id) } else { self.spec_data().trace.context_or_empty().trace_id },
                span_id: if self.spec_data().trace.context_or_empty().span_id is None { Some(span_id) } else { self.spec_data().trace.context_or_empty().span_id },
                ..self.spec_data().trace.context_or_empty()
            }),
            r.spec_data().trace.spec_events() == self.spec_data().trace.spec_events(),
    {
        proof {
            use_type_invariant(&self);
        }
        let Report { inner, data, attachments, stack_trace, display_causes, origin_source_errors, diagnostic_source_errors } = self;
        let ReportData { metadata, trace, system, context, options } = data;
        let trace = trace.with_trace_id(trace_id).with_span_id(span_id);
        Report {
            inner,
            data: ReportData { metadata, trace, system, context, options },
            attachments,
            stack_trace,
            display_causes,
            origin_source_errors,
            diagnostic_source_errors,
        }
    }

    /// Sets the parent span id, replacing an existing one.
    pub fn set_parent_span_id(self, parent_span_id: ParentSpanId) -> (r: Self)
        ensures
            r.same_except_trace(&self),
            r.spec_data().trace.spec_context() == Some(TraceContext { parent_span_id: Some(parent_span_id), ..self.spec_data().trace.context_or_empty() }),
            r.spec_data().trace.spec_events() == self.spec_data().trace.spec_events(),
    {
        proof {
            use_type_invariant(&self);
        }
        let Report { inner, data, attachments, stack_trace, display_causes, origin_source_errors, diagnostic_source_errors } = self;
        let ReportData { metadata, trace, system, context, options } = data;
        let trace = trace.set_parent_span_id(parent_span_id);
        Report {
            inner,
            data: ReportData { metadata, trace, system, context, options },
            attachments,
            stack_trace,
            display_causes,
            origin_source_errors,
            diagnostic_source_errors,
        }
    }

    /// Sets the parent span id where it is unset.
    pub fn with_parent_span_id(self, parent_span_id: ParentSpanId) -> (r: Self)
        ensures
            r.same_except_trace(&self),
            r.spec_data().trace.context_or_empty() == (TraceContext {
                parent_span_id: if self.spec_data().trace.context_or_empty().parent_span_id is None { Some(parent_span_id) } else { self.spec_data().trace.context_or_empty().parent_span_id },
                ..self.spec_data().trace.context_or_empty()
            }),
            r.spec_data().trace.spec_events() == self.spec_data().trace.spec_events(),
    {
        proof {
            use_type_invariant(&self);
        }
        let Report { inner, data, attachments, stack_trace, display_causes, origin_source_errors, diagnostic_source_errors } = self;
        let ReportData { metadata, trace, system, context, options } = data;
        let trace = trace.with_parent_span_id(parent_span_id);
        Report {
            inner,
            data: ReportData { metadata, trace, system, context, options },
            attachments,
            stack_trace,
            display_causes,
            origin_source_errors,
            diagnostic_source_errors,
        }
    }

    /// Sets whether the trace is sampled, replacing an existing flag.
    pub fn set_trace_sampled(self, sampled: bool) -> (r: Self)
        ensures
            r.same_except_trace(&self),
            r.spec_data().trace.spec_context() == Some(TraceContext { sampled: Some(sampled), ..self.spec_data().trace.context_or_empty() }),
            r.spec_data().trace.spec_events() == self.spec_data().trace.spec_events(),
    {
        proof {
            use_type_invariant(&self);
        }
        let Report { inner, data, attachments, stack_trace, display_causes, origin_source_errors, diagnostic_source_errors } = self;
        let ReportData { metadata, trace, system, context, options } = data;
        let trace = trace.set_sampled(sampled);
        Report {
            inner,
            data: ReportData { metadata, trace, system, context, options },
            attachments,
            stack_trace,
            display_causes,
            origin_source_errors,
            diagnostic_source_errors,
        }
    }

    /// Sets whether the trace is sampled where that is unset.
    pub fn with_trace_sampled(self, sampled: bool) -> (r: Self)
        ensures
            r.same_except_trace(&self),
            r.spec_data().trace.context_or_empty() == (TraceContext {
                sampled: if self.spec_data().trace.context_or_empty().sampled is None { Some(sampled) } else { self.spec_data().trace.context_or_empty().sampled },
                ..self.spec_data().trace.context_or_empty()
            }),
            r.spec_data().trace.spec_events() == self.spec_data().trace.spec_events(),
    {
        proof {
            use_type_invariant(&self);
        }
        let Report { inner, data, attachments, stack_trace, display_causes, origin_source_errors, diagnostic_source_errors } = self;
        let ReportData { metadata, trace, system, context, options } = data;
        let trace = trace.with_sampled(sampled);
        Report {
            inner,
            data: ReportData { metadata, trace, system, context, options },
            attachments,
            stack_trace,
            display_causes,
            origin_source_errors,
            diagnostic_source_errors,
        }
    }

    /// Sets the trace state, replacing an existing one.
    pub fn set_trace_state(self, trace_state: String) -> (r: Self)
        ensures
            r.same_except_trace(&self),
            r.spec_data().trace.spec_context() matches Some(x) && x.trace_state matches Some(ts) && ts.text() == trace_state@
                && x == (TraceContext { trace_state: Some(ts), ..self.spec_data().trace.context_or_empty() }),
            r.spec_data().trace.spec_events() == self.spec_data().trace.spec_events(),
    {
        proof {
            use_type_invariant(&self);
        }
        let Report { inner, data, attachments, stack_trace, display_causes, origin_source_errors, diagnostic_source_errors } = self;
        let ReportData { metadata, trace, system, context, options } = data;
        let trace = trace.set_trace_state(TraceState::new(trace_state));
        Report {
            inner,
            data: ReportData { metadata, trace, system, context, options },
            attachments,
            stack_trace,
            display_causes,
            origin_source_errors,
            diagnostic_source_errors,
        }
    }

    /// Sets the trace state where it is unset.
    pub fn with_trace_state(self, trace_state: String) -> (r: Self)
        ensures
            r.same_except_trace(&self),
            self.spec_data().trace.context_or_empty().trace_state is Some ==> r.spec_data().trace.context_or_empty() == self.spec_data().trace.context_or_empty(),
            self.spec_data().trace.context_or_empty().trace_state is None ==> (r.spec_data().trace.context_or_empty().trace_state matches Some(ts) && ts.text() == trace_state@
                && r.spec_data().trace.context_or_empty() == (TraceContext { trace_state: r.spec_data().trace.context_or_empty().trace_state, ..self.spec_data().trace.context_or_empty() })),
            r.spec_data().trace.spec_events() == self.spec_data().trace.spec_events(),
    {
        proof {
            use_type_invariant(&self);
        }
        let Report { inner, data, attachments, stack_trace, display_causes, origin_source_errors, diagnostic_source_errors } = self;
        let ReportData { metadata, trace, system, context, options } = data;
        let trace = trace.with_trace_state(TraceState::new(trace_state));
        Report {
            inner,
            data: ReportData { metadata, trace, system, context, options },
            attachments,
            stack_trace,
            display_causes,
            origin_source_errors,
            diagnostic_source_errors,
        }
    }

    /// Adds a trace event after the existing ones.
    pub fn with_trace_event(self, event: TraceEvent) -> (r: Self)
        ensures
            r.same_except_trace(&self),
            r.spec_data().trace.spec_context() == Some(self.spec_data().trace.context_or_empty()),
            r.spec_data().trace.spec_events() == self.spec_data().trace.spec_events().push(event),
    {
        proof {
            use_type_invariant(&self);
        }
        let Report { inner, data, attachments, stack_trace, display_causes, origin_source_errors, diagnostic_source_errors } = self;
        let ReportData { metadata, trace, system, context, options } = data;
        let trace = trace.with_event(event);
        Report {
            inner,
            data: ReportData { metadata, trace, system, context, options },
            attachments,
            stack_trace,
            display_causes,
            origin_source_errors,
            diagnostic_source_errors,
        }
    }

    /// Adds a trace event with only a name after the existing ones.
    pub fn push_trace_event(self, name: String) -> (r: Self)
        ensures
            r.same_except_trace(&self),
            r.spec_data().trace.spec_context() == Some(self.spec_data().trace.context_or_empty()),
            r.spec_data().trace.spec_events() == self.spec_data().trace.spec_events().push((TraceEvent { name, level: None, timestamp_unix_nano: None, attributes: r.spec_data().trace.spec_events().last().attributes })),
            r.spec_data().trace.spec_events().last().attributes@.len() == 0,
    {
        proof {
            use_type_invariant(&self);
        }
        let Report { inner, data, attachments, stack_trace, display_causes, origin_source_errors, diagnostic_source_errors } = self;
        let ReportData { metadata, trace, system, context, options } = data;
        let trace = trace.with_event(TraceEvent { name, level: None, timestamp_unix_nano: None, attributes: Vec::new() });
        Report {
            inner,
            data: ReportData { metadata, trace, system, context, options },
            attachments,
            stack_trace,
            display_causes,
            origin_source_errors,
            diagnostic_source_errors,
        }
    }

    /// Adds a trace event after the existing ones.
    pub fn push_trace_event_with(self, name: String, level: Option<TraceEventLevel>, timestamp_unix_nano: Option<u64>, attributes: Vec<TraceEventAttribute>) -> (r: Self)
        ensures
            r.same_except_trace(&self),
            r.spec_data().trace.spec_context() == Some(self.spec_data().trace.context_or_empty()),
            r.spec_data().trace.spec_events() == self.spec_data().trace.spec_events().push((TraceEvent { name, level, timestamp_unix_nano, attributes })),
    {
        proof {
            use_type_invariant(&self);
        }
        let Report { inner, data, attachments, stack_trace, display_causes, origin_source_errors, diagnostic_source_errors } = self;
        let ReportData { metadata, trace, system, context, options } = data;
        let trace = trace.with_event(TraceEvent { name, level, timestamp_unix_nano, attributes });
        Report {
            inner,
            data: ReportData { metadata, trace, system, context, options },
            attachments,
            stack_trace,
            display_causes,
            origin_source_errors,
            diagnostic_source_errors,
        }
    }
}

impl Compact {
    /// The compact rendering of a report whose error reads `inner_text`:
    /// the error's text alone for the summary profile, the one-line summary
    /// for the full profile.
    pub fn render_text<E, State: SeverityState>(&self, report: &Report<E, State>, inner_text: &str) -> (s: String)
        ensures
            self.profile == CompactProfile::Summary ==> s@ == inner_text@,
            self.profile == CompactProfile::Full ==> s@ == summary_text(inner_text@, shows_fields(*report), summary_fields(*report)),
    {
        match self.profile {
            CompactProfile::Summary => {
                let mut s = String::new();
                push_str(&mut s, inner_text);
                assert(s@ =~= inner_text@);
                s
            },
            CompactProfile::Full => report.summary_line(inner_text),
        }
    }
}

/// Converting a report, or a result that holds one, to another error type.
pub trait Transform<Target>: Sized {
    /// Performs the conversion.
    fn trans(self) -> Target;
}

/// `E1`'s `into` returns what its specification says.
pub open spec fn into_follows_spec<E1: Into<E2>, E2>() -> bool {
    <E1 as IntoSpec<E2>>::obeys_into_spec()
}

/// The error converted by `Into`.
pub open spec fn converted<E1: Into<E2>, E2>(e: E1) -> E2 {
    <E1 as IntoSpec<E2>>::into_spec(e)
}

/// Converts one error with `Into`.
fn convert<E1: Into<E2>, E2>(e: E1) -> (r: E2)
    ensures
        into_follows_spec::<E1, E2>() ==> r == converted::<E1, E2>(e),
{
    e.into()
}

/// `after` is `before` with its error converted by `Into`: every diagnostic is kept.
pub open spec fn report_converted<E1: Into<E2>, E2, S: SeverityState>(before: Report<E1, S>, after: Report<E2, S>) -> bool {
    &&& into_follows_spec::<E1, E2>() ==> after.spec_inner() == converted::<E1, E2>(before.spec_inner())
    &&& after.spec_data() == before.spec_data()
    &&& after.same_diagnostics(&before)
}

/// `after` keeps a success of `before` and converts the error of a failing report.
pub open spec fn result_converted<T, E1: Into<E2>, E2, S: SeverityState>(
    before: Result<T, Report<E1, S>>,
    after: Result<T, Report<E2, S>>,
) -> bool {
    match (before, after) {
        (Ok(a), Ok(b)) => a == b,
        (Err(a), Err(b)) => report_converted::<E1, E2, S>(a, b),
        _ => false,
    }
}

impl<E1: Into<E2>, E2, State: SeverityState> Transform<Report<E2, State>> for Report<E1, State> {
    /// The same report around the error converted by `Into`; every diagnostic
    /// is kept and the old error is not recorded in the origin chain (that
    /// takes the error's text, which [`Report::map_err`] gets from its caller).
    fn trans(self) -> (r: Report<E2, State>)
        ensures
            report_converted::<E1, E2, State>(self, r),
    {
        self.map_err_keeping_origin(convert::<E1, E2>)
    }
}

impl<T, E1: Into<E2>, E2, State: SeverityState> Transform<Result<T, Report<E2, State>>> for Report<E1, State> {
    /// The report, its error converted by `Into`, as the error of a result.
    fn trans(self) -> (r: Result<T, Report<E2, State>>)
        ensures
            result_converted::<T, E1, E2, State>(Err(self), r),
    {
        Err(self.map_err_keeping_origin(convert::<E1, E2>))
    }
}

impl<T, E1: Into<E2>, E2, State: SeverityState> Transform<Result<T, Report<E2, State>>> for Result<T, Report<E1, State>> {
    /// A success is kept; a failing report gets its error converted by `Into`.
    fn trans(self) -> (r: Result<T, Report<E2, State>>)
        ensures
            result_converted::<T, E1, E2, State>(self, r),
    {
        match self {
            Ok(value) => Ok(value),
            Err(report) => Err(report.map_err_keeping_origin(convert::<E1, E2>)),
        }
    }
}

/// The summary shows the report's own retryable flag: when the flag is set,
/// the last metadata field is `retryable=true` or `retryable=false` as the
/// flag is, and the metadata fields open the summary's fields.
pub proof fn law_summary_shows_retryable<E, State: SeverityState>(r: Report<E, State>)
    ensures
        r.spec_data().metadata.spec_retryable() matches Some(b) ==> metadata_fields(r.spec_data().metadata).last()
            == "retryable"@ + "="@ + (if b { seq!['t', 'r', 'u', 'e'] } else { seq!['f', 'a', 'l', 's', 'e'] }),
        metadata_fields(r.spec_data().metadata).is_prefix_of(summary_fields(r)),
{
    lemma_metadata_last_is_retryable(r.spec_data().metadata);
    lemma_metadata_open_summary(r);
}

proof fn lemma_metadata_last_is_retryable<State: SeverityState>(m: ReportMetadata<State>)
    ensures
        m.spec_retryable() matches Some(b) ==> metadata_fields(m).last()
            == "retryable"@ + "="@ + (if b { seq!['t', 'r', 'u', 'e'] } else { seq!['f', 'a', 'l', 's', 'e'] }),
{
    if let Some(b) = m.spec_retryable() {
        let f = opt_field("retryable"@, Some(bool_text(b)));
        assert(f == seq!["retryable"@ + "="@ + bool_text(b)]);
    }
}

#[verifier::spinoff_prover]
proof fn lemma_metadata_open_summary<E, State: SeverityState>(r: Report<E, State>)
    ensures
        metadata_fields(r.spec_data().metadata).is_prefix_of(summary_fields(r)),
{
    let mf = metadata_fields(r.spec_data().metadata);
    let s = summary_fields(r);
    let t1 = mf + trace_fields(r.spec_data().trace);
    let t2 = t1 + (if r.spec_stack_trace() is Some { seq!["stack_trace"@ + "="@ + "present"@] } else { Seq::empty() });
    let t3 = t2 + context_fields(r.spec_context(), Seq::empty());
    let t4 = t3 + context_fields(r.spec_system(), "system."@);
    assert(s == t4 + r.spec_attachments().map_values(|a: Attachment| attachment_field(a)));
    assert forall|k: int| 0 <= k < mf.len() implies s[k] == mf[k] by {
        assert(t1[k] == mf[k]);
        assert(t2[k] == t1[k]);
        assert(t3[k] == t2[k]);
        assert(t4[k] == t3[k]);
    }
}

/// The summary's metadata fields show the report's own metadata: one field
/// per value that is set, a text code first as `code=` and the code, the
/// category as `category=` and the category.
pub proof fn law_summary_shows_metadata<State: SeverityState>(m: ReportMetadata<State>)
    ensures
        metadata_fields(m).len() == (if m.spec_error_code() is Some { 1int } else { 0int })
            + (if m.spec_state().severity_spec() is Some { 1int } else { 0int })
            + (if m.spec_category() is Some { 1int } else { 0int })
            + (if m.spec_retryable() is Some { 1int } else { 0int }),
        m.spec_error_code() matches Some(ErrorCode::String(c)) ==> metadata_fields(m)[0] == "code"@ + "="@ + c@,
        m.spec_category() matches Some(c) ==> metadata_fields(m).contains("category"@ + "="@ + c@),
{
    let a = opt_field("code"@, match m.spec_error_code() { Some(c) => Some(error_code_text(c)), None => None });
    let b = opt_field("severity"@, match m.spec_state().severity_spec() { Some(s) => Some(severity_label(s)), None => None });
    let c = opt_field("category"@, match m.spec_category() { Some(c) => Some(c@), None => None });
    let d = opt_field("retryable"@, match m.spec_retryable() {
        Some(flag) => Some(bool_text(flag)),
        None => None,
    });
    assert(metadata_fields(m) == a + b + c + d);
    if let Some(cat) = m.spec_category() {
        let f = "category"@ + "="@ + cat@;
        assert(c == seq![f]);
        assert((a + b + c + d)[(a.len() + b.len()) as int] == f);
    }
}

} // verus!
