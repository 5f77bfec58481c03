//! Rendering options, their presets, and the renderer configurations.

use vstd::prelude::*;

verus! {

/// Indentation style for pretty rendering.
#[derive(Debug, Clone, Copy, PartialEq, Eq, Structural)]
pub enum PrettyIndent {
    Spaces(u8),
    Tab,
}

/// Filter strategy for stack trace frames.
#[derive(Debug, Clone, Copy, PartialEq, Eq, Structural)]
pub enum StackTraceFilter {
    /// Show all frames without filtering.
    All,
    /// Filter out standard library and runtime frames.
    AppOnly,
    /// Filter out standard library, runtime, and internal frames.
    AppFocused,
}

impl Default for StackTraceFilter {
    fn default() -> (f: Self)
        ensures
            f == StackTraceFilter::All,
    {
        StackTraceFilter::All
    }
}

/// Options for rendering a diagnostic report.
#[derive(Debug, Clone, Copy, PartialEq, Eq, Structural)]
pub struct ReportRenderOptions {
    pub max_source_depth: usize,
    pub detect_source_cycle: bool,
    pub pretty_indent: PrettyIndent,
    pub show_type_name: bool,
    pub show_empty_sections: bool,
    pub show_governance_section: bool,
    pub show_trace_section: bool,
    pub show_trace_event_details: bool,
    pub show_stack_trace_section: bool,
    pub show_context_section: bool,
    pub show_attachments_section: bool,
    pub show_cause_chains_section: bool,
    pub stack_trace_max_lines: usize,
    pub stack_trace_include_raw: bool,
    pub stack_trace_include_frames: bool,
    pub stack_trace_filter: StackTraceFilter,
    pub json_pretty: bool,
}

/// The default options: every section shown, sources followed sixteen deep
/// with cycle detection, two-space indentation, stack traces cut at 24 lines
/// and unfiltered, compact JSON.
pub open spec fn default_options() -> ReportRenderOptions {
    ReportRenderOptions {
        max_source_depth: 16,
        detect_source_cycle: true,
        pretty_indent: PrettyIndent::Spaces(2),
        show_type_name: true,
        show_empty_sections: true,
        show_governance_section: true,
        show_trace_section: true,
        show_trace_event_details: true,
        show_stack_trace_section: true,
        show_context_section: true,
        show_attachments_section: true,
        show_cause_chains_section: true,
        stack_trace_max_lines: 24,
        stack_trace_include_raw: true,
        stack_trace_include_frames: true,
        stack_trace_filter: StackTraceFilter::All,
        json_pretty: false,
    }
}

/// The developer preset: the defaults, with trace event details, unfiltered
/// stack traces and up to 50 stack trace lines.
pub open spec fn developer_options() -> ReportRenderOptions {
    ReportRenderOptions {
        show_trace_event_details: true,
        stack_trace_filter: StackTraceFilter::All,
        stack_trace_max_lines: 50,
        ..default_options()
    }
}

/// The production preset: the defaults, with trace event details, stack
/// traces without standard-library and runtime frames, and up to 15 lines.
pub open spec fn production_options() -> ReportRenderOptions {
    ReportRenderOptions {
        show_trace_event_details: true,
        stack_trace_filter: StackTraceFilter::AppOnly,
        stack_trace_max_lines: 15,
        ..default_options()
    }
}

/// The minimal preset: the defaults, without trace event details, empty
/// sections or type names, with application-focused stack traces of up to
/// 5 lines.
pub open spec fn minimal_options() -> ReportRenderOptions {
    ReportRenderOptions {
        show_trace_event_details: false,
        stack_trace_filter: StackTraceFilter::AppFocused,
        stack_trace_max_lines: 5,
        show_empty_sections: false,
        show_type_name: false,
        ..default_options()
    }
}

impl Default for ReportRenderOptions {
    fn default() -> (o: Self)
        ensures
            o == default_options(),
    {
        ReportRenderOptions {
            max_source_depth: 16,
            detect_source_cycle: true,
            pretty_indent: PrettyIndent::Spaces(2),
            show_type_name: true,
            show_empty_sections: true,
            show_governance_section: true,
            show_trace_section: true,
            show_trace_event_details: true,
            show_stack_trace_section: true,
            show_context_section: true,
            show_attachments_section: true,
            show_cause_chains_section: true,
            stack_trace_max_lines: 24,
            stack_trace_include_raw: true,
            stack_trace_include_frames: true,
            stack_trace_filter: StackTraceFilter::All,
            json_pretty: false,
        }
    }
}

impl ReportRenderOptions {
    /// Developer mode: show all detailed information including trace events
    /// and unfiltered stack traces.
    pub fn developer() -> (o: Self)
        ensures
            o == developer_options(),
    {
        ReportRenderOptions {
            show_trace_event_details: true,
            stack_trace_filter: StackTraceFilter::All,
            stack_trace_max_lines: 50,
            ..Self::default()
        }
    }

    /// Production incident mode: filter noise while keeping essential
    /// debugging info.
    pub fn production() -> (o: Self)
        ensures
            o == production_options(),
    {
        ReportRenderOptions {
            show_trace_event_details: true,
            stack_trace_filter: StackTraceFilter::AppOnly,
            stack_trace_max_lines: 15,
            ..Self::default()
        }
    }

    /// Minimal mode: show only core information for quick scanning.
    pub fn minimal() -> (o: Self)
        ensures
            o == minimal_options(),
    {
        ReportRenderOptions {
            show_trace_event_details: false,
            stack_trace_filter: StackTraceFilter::AppFocused,
            stack_trace_max_lines: 5,
            show_empty_sections: false,
            show_type_name: false,
            ..Self::default()
        }
    }
}

/// JSON renderer for diagnostic reports.
#[derive(Debug, Clone, Copy, PartialEq, Eq, Structural)]
pub struct Json {
    pub options: ReportRenderOptions,
}

impl Json {
    /// Creates a new JSON renderer with specific options.
    pub fn new(options: ReportRenderOptions) -> (j: Self)
        ensures
            j.options == options,
    {
        Json { options }
    }
}

impl Default for Json {
    fn default() -> (j: Self)
        ensures
            j.options == default_options(),
    {
        Json { options: ReportRenderOptions::default() }
    }
}

/// What a compact rendering shows.
#[derive(Debug, Clone, Copy, PartialEq, Eq, Structural)]
pub enum CompactProfile {
    /// The error's own message.
    Summary,
    /// The whole report on one line.
    Full,
}

impl Default for CompactProfile {
    fn default() -> (p: Self)
        ensures
            p == CompactProfile::Summary,
    {
        CompactProfile::Summary
    }
}

/// A renderer that produces a compact display of the report.
#[derive(Debug, Clone, Copy, PartialEq, Eq, Structural)]
pub struct Compact {
    pub profile: CompactProfile,
}

impl Default for Compact {
    fn default() -> (c: Self)
        ensures
            c.profile == CompactProfile::Summary,
    {
        Compact { profile: CompactProfile::Summary }
    }
}

impl Compact {
    /// The compact renderer that shows the error's message.
    pub fn summary() -> (c: Self)
        ensures
            c.profile == CompactProfile::Summary,
    {
        Compact { profile: CompactProfile::Summary }
    }

    /// The compact renderer that shows the whole report.
    pub fn full() -> (c: Self)
        ensures
            c.profile == CompactProfile::Full,
    {
        Compact { profile: CompactProfile::Full }
    }
}

/// Options carried by a report.
#[derive(Debug, Clone, Copy, PartialEq, Eq)]
pub struct ReportOptions {
    /// Whether mapping the report's error records the old error in the
    /// origin source chain; `None` follows the build profile (on in debug
    /// builds, off in release builds).
    pub accumulate_src_chain: Option<bool>,
}

impl ReportOptions {
    /// Options that follow the build profile.
    pub fn new() -> (o: Self)
        ensures
            o.accumulate_src_chain is None,
    {
        ReportOptions { accumulate_src_chain: None }
    }

    /// Whether the old error is recorded, given whether this is a debug build.
    pub open spec fn spec_accumulates(self, debug_build: bool) -> bool {
        match self.accumulate_src_chain {
            Some(b) => b,
            None => debug_build,
        }
    }

    /// Whether mapping the error records the old error in the origin chain:
    /// the explicit choice when there is one, else whether this is a debug
    /// build.
    pub fn resolve_accumulate_src_chain(&self, debug_build: bool) -> (r: bool)
        ensures
            r == self.spec_accumulates(debug_build),
    {
        match self.accumulate_src_chain {
            Some(b) => b,
            None => debug_build,
        }
    }

    /// The options with an explicit accumulation choice.
    pub fn with_accumulate_src_chain(self, accumulate: bool) -> (o: Self)
        ensures
            o.accumulate_src_chain == Some(accumulate),
    {
        ReportOptions { accumulate_src_chain: Some(accumulate) }
    }
}

} // verus!
