//! Global context that every new report takes its defaults from, and how it
//! is merged into a report's data.

use vstd::prelude::*;
use crate::metadata::{ContextMap, GlobalErrorMeta, ReportMetadata, ctx_insert, ctx_insert_all, keys_distinct};
use crate::trace_model::{ReportTrace, TraceContext, TraceState};
use crate::types::SeverityState;
use crate::options::ReportOptions;
use crate::values::ContextValue;

verus! {

/// Context that a registered injector supplies for new reports.
#[derive(Debug)]
pub struct GlobalContext {
    pub trace: Option<TraceContext>,
    pub error: Option<GlobalErrorMeta>,
    pub system: ContextMap,
    pub context: ContextMap,
}

/// The parts of a report's data that a global context can fill.
#[derive(Debug)]
pub struct ReportData<State: SeverityState> {
    pub metadata: ReportMetadata<State>,
    pub trace: ReportTrace,
    pub system: ContextMap,
    pub context: ContextMap,
    pub options: ReportOptions,
}

/// Whether a global context holds anything to merge.
pub open spec fn has_global_data(g: GlobalContext) -> bool {
    ||| (g.error matches Some(e) && (e.error_code is Some || e.category is Some || e.retryable is Some))
    ||| g.system.entries().len() > 0
    ||| g.context.entries().len() > 0
    ||| g.trace is Some
}

/// `Some(v)` fills `cur` only when `cur` is empty.
pub open spec fn fill<T>(cur: Option<T>, v: Option<T>) -> Option<T> {
    if cur is None && v is Some { v } else { cur }
}

/// What merging `global` into `before` gives: error metadata and trace
/// values fill only what is unset, a non-empty global system map replaces
/// the report's, each global context entry is inserted (replacing the value
/// of an equal key), and with nothing to merge the data stays as it was.
pub open spec fn global_applied<State: SeverityState>(before: ReportData<State>, global: Option<GlobalContext>, after: ReportData<State>) -> bool {
    &&& (global is None || !has_global_data(global->0)) ==> after == before
    &&& global matches Some(g) ==> has_global_data(g) ==> {
        let e = match g.error {
            Some(e) => e,
            None => GlobalErrorMeta { error_code: None, category: None, retryable: None },
        };
        &&& after.options == before.options
        &&& after.metadata.spec_state() == before.metadata.spec_state()
        &&& after.metadata.spec_error_code() == fill(before.metadata.spec_error_code(), e.error_code)
        &&& after.metadata.spec_category() == fill(before.metadata.spec_category(), e.category)
        &&& after.metadata.spec_retryable() == fill(before.metadata.spec_retryable(), e.retryable)
        &&& after.system.entries() == (if g.system.entries().len() > 0 { g.system.entries() } else { before.system.entries() })
        &&& after.context.entries() == ctx_insert_all(before.context.entries(), g.context.entries())
        &&& after.trace.spec_events() == before.trace.spec_events()
        &&& (g.trace is None ==> after.trace.spec_context() == before.trace.spec_context())
        &&& (g.trace matches Some(t) ==> {
            let c = before.trace.context_or_empty();
            let has_any = t.trace_id is Some && c.trace_id is None || t.span_id is Some && c.span_id is None
                || t.parent_span_id is Some && c.parent_span_id is None || t.sampled is Some && c.sampled is None
                || t.trace_state is Some && c.trace_state is None;
            &&& has_any ==> after.trace.context_or_empty() == TraceContext {
                trace_id: fill(c.trace_id, t.trace_id),
                span_id: fill(c.span_id, t.span_id),
                parent_span_id: fill(c.parent_span_id, t.parent_span_id),
                sampled: fill(c.sampled, t.sampled),
                trace_state: fill(c.trace_state, t.trace_state),
            }
            &&& !has_any ==> after.trace.spec_context() == before.trace.spec_context()
        })
    }
}

impl<State: SeverityState> ReportData<State> {
    /// The well-formedness of the context maps.
    pub open spec fn well_formed(&self) -> bool {
        self.system.well_formed() && self.context.well_formed()
    }

    /// Merges a global context into the report's data: error metadata and
    /// trace values fill only what is unset, a non-empty global system map
    /// replaces the report's, and each global context entry is inserted
    /// (replacing the value of an equal key). With nothing to merge the data
    /// is returned unchanged.
    pub fn apply_global_context(self, global: Option<GlobalContext>) -> (d: Self)
        requires
            self.well_formed(),
            global matches Some(g) ==> g.system.well_formed() && g.context.well_formed(),
        ensures
            d.well_formed(),
            global_applied(self, global, d),
    {
        let global = match global {
            Some(g) => g,
            None => {
                return self;
            },
        };
        let has_error_meta = match &global.error {
            Some(e) => e.error_code.is_some() || e.category.is_some() || e.retryable.is_some(),
            None => false,
        };
        let needs = has_error_meta || !global.system.is_empty() || !global.context.is_empty() || global.trace.is_some();
        if !needs {
            return self;
        }
        let GlobalContext { trace: g_trace, error: g_error, system: g_system, context: g_context } = global;
        let ReportData { mut metadata, trace, mut system, mut context, options } = self;
        match g_error {
            Some(error) => {
                let GlobalErrorMeta { error_code, category, retryable } = error;
                match error_code {
                    Some(c) => metadata.with_error_code_mut(c),
                    None => {},
                }
                match category {
                    Some(c) => metadata.with_category_mut(c),
                    None => {},
                }
                match retryable {
                    Some(r) => metadata.with_retryable_mut(r),
                    None => {},
                }
            },
            None => {},
        }
        if !g_system.is_empty() {
            system = g_system;
        }
        let mut more = g_context.into_entries();
        let ghost all = more@;
        let ghost start = context.entries();
        let mut taken: usize = 0;
        assert(all.len() == more.len());
        while more.len() > 0
            invariant
                all.len() <= usize::MAX,
                context.well_formed(),
                taken + more@.len() == all.len(),
                more@ == all.subrange(taken as int, all.len() as int),
                context.entries() == ctx_insert_all(start, all.subrange(0, taken as int)),
            decreases more@.len(),
        {
            let (k, v) = more.remove(0);
            proof {
                assert(all.subrange(0, taken as int + 1).drop_last() =~= all.subrange(0, taken as int));
                assert(all[taken as int] == (k, v));
            }
            context.insert(k, v);
            taken += 1;
            assert(more@ =~= all.subrange(taken as int, all.len() as int));
        }
        assert(all.subrange(0, all.len() as int) =~= all);
        let trace = match g_trace {
            Some(t) => {
                let TraceContext { trace_id, span_id, parent_span_id, sampled, trace_state } = t;
                trace.set_trace_id_opt(trace_id)
                    .set_span_id_opt(span_id)
                    .set_parent_span_id_opt(parent_span_id)
                    .set_sampled_opt(sampled)
                    .set_trace_state_opt(trace_state)
            },
            None => trace,
        };
        ReportData { metadata, trace, system, context, options }
    }
}

/// Raised when a global context injector is registered while one already is:
/// a process has at most one.
#[derive(Debug, Clone, Copy, PartialEq, Eq, Structural)]
pub struct RegisterGlobalContextError;

/// Merging a global context never overrides what the report already has:
/// a set error code, category or retryable flag, and the report's trace
/// events, stay as they were.
pub proof fn law_global_context_fills_only_unset<State: SeverityState>(before: ReportData<State>, global: Option<GlobalContext>, after: ReportData<State>)
    requires
        global_applied(before, global, after),
    ensures
        before.metadata.spec_error_code() is Some ==> after.metadata.spec_error_code() == before.metadata.spec_error_code(),
        before.metadata.spec_category() is Some ==> after.metadata.spec_category() == before.metadata.spec_category(),
        before.metadata.spec_retryable() is Some ==> after.metadata.spec_retryable() == before.metadata.spec_retryable(),
        after.metadata.spec_state() == before.metadata.spec_state(),
        after.trace.spec_events() == before.trace.spec_events(),
{
}

} // verus!
