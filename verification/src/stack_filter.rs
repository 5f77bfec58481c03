//! Stack frames and the filters that drop runtime and internal frames.

use vstd::prelude::*;
use crate::options::StackTraceFilter;
use crate::types::StackTraceFormat;
use crate::text::{chars_of, has_substring, starts_with_chars, contains_chars};

verus! {

/// A frame of a captured stack trace.
#[derive(Debug)]
pub struct StackFrame {
    pub symbol: Option<String>,
    pub module: Option<String>,
    pub file: Option<String>,
    pub line: Option<u32>,
    pub column: Option<u32>,
}

/// Whether a module path belongs to the standard library or the runtime.
pub open spec fn is_runtime_path(m: Seq<char>) -> bool {
    ||| "std::"@.is_prefix_of(m)
    ||| "core::"@.is_prefix_of(m)
    ||| "alloc::"@.is_prefix_of(m)
    ||| "backtrace::"@.is_prefix_of(m)
    ||| has_substring(m, "rust_begin_unwind"@)
    ||| has_substring(m, "rust_panic"@)
}

/// Whether a module path belongs to the diagnostics machinery itself.
pub open spec fn is_internal_path(m: Seq<char>) -> bool {
    ||| "diagweave::"@.is_prefix_of(m)
    ||| has_substring(m, "diagnostic"@)
    ||| has_substring(m, "report"@)
}

/// Whether a frame comes from the standard library or the runtime.
pub open spec fn spec_is_std_or_runtime_frame(frame: StackFrame) -> bool {
    match frame.module {
        Some(m) => is_runtime_path(m@),
        None => false,
    }
}

/// Whether a frame comes from the diagnostics machinery.
pub open spec fn spec_is_internal_frame(frame: StackFrame) -> bool {
    match frame.module {
        Some(m) => is_internal_path(m@),
        None => false,
    }
}

/// Whether `filter` drops `frame`.
pub open spec fn spec_should_filter_frame(frame: StackFrame, filter: StackTraceFilter) -> bool {
    match filter {
        StackTraceFilter::All => false,
        StackTraceFilter::AppOnly => spec_is_std_or_runtime_frame(frame),
        StackTraceFilter::AppFocused => spec_is_std_or_runtime_frame(frame) || spec_is_internal_frame(frame),
    }
}

fn path_starts_with(m: &Vec<char>, prefix: &str) -> (r: bool)
    ensures
        r == prefix@.is_prefix_of(m@),
{
    let p = chars_of(prefix);
    starts_with_chars(m, &p)
}

fn path_contains(m: &Vec<char>, needle: &str) -> (r: bool)
    ensures
        r == has_substring(m@, needle@),
{
    let n = chars_of(needle);
    contains_chars(m, &n)
}

/// Whether a frame comes from the standard library or the runtime.
pub fn is_std_or_runtime_frame(frame: &StackFrame) -> (r: bool)
    ensures
        r == spec_is_std_or_runtime_frame(*frame),
{
    match frame {
        StackFrame { module: Some(m), .. } => {
            let chars = chars_of(m.as_str());
            path_starts_with(&chars, "std::") || path_starts_with(&chars, "core::")
                || path_starts_with(&chars, "alloc::") || path_starts_with(&chars, "backtrace::")
                || path_contains(&chars, "rust_begin_unwind") || path_contains(&chars, "rust_panic")
        },
        _ => false,
    }
}

/// Whether a frame comes from the diagnostics machinery.
pub fn is_internal_frame(frame: &StackFrame) -> (r: bool)
    ensures
        r == spec_is_internal_frame(*frame),
{
    match frame {
        StackFrame { module: Some(m), .. } => {
            let chars = chars_of(m.as_str());
            path_starts_with(&chars, "diagweave::") || path_contains(&chars, "diagnostic")
                || path_contains(&chars, "report")
        },
        _ => false,
    }
}

/// Whether `filter` drops `frame`.
pub fn should_filter_frame(frame: &StackFrame, filter: &StackTraceFilter) -> (r: bool)
    ensures
        r == spec_should_filter_frame(*frame, *filter),
{
    match filter {
        StackTraceFilter::All => false,
        StackTraceFilter::AppOnly => is_std_or_runtime_frame(frame),
        StackTraceFilter::AppFocused => is_std_or_runtime_frame(frame) || is_internal_frame(frame),
    }
}

/// The frames that `filter` keeps, each with its index in `frames`, in order.
pub fn filtered_frames<'a>(frames: &'a [StackFrame], filter: &StackTraceFilter) -> (r: Vec<(usize, &'a StackFrame)>)
    ensures
        forall|k: int| 0 <= k < r@.len() ==> {
            &&& (#[trigger] r@[k]).0 < frames@.len()
            &&& r@[k].1 == frames@[r@[k].0 as int]
            &&& !spec_should_filter_frame(frames@[r@[k].0 as int], *filter)
        },
        forall|k: int, l: int| 0 <= k < l < r@.len() ==> (#[trigger] r@[k]).0 < (#[trigger] r@[l]).0,
        forall|i: int| 0 <= i < frames@.len() && !spec_should_filter_frame(#[trigger] frames@[i], *filter)
            ==> exists|k: int| 0 <= k < r@.len() && (#[trigger] r@[k]).0 == i,
{
    let mut out: Vec<(usize, &'a StackFrame)> = Vec::new();
    let mut i: usize = 0;
    while i < frames.len()
        invariant
            i <= frames@.len(),
            forall|k: int| 0 <= k < out@.len() ==> {
                &&& (#[trigger] out@[k]).0 < i
                &&& out@[k].1 == frames@[out@[k].0 as int]
                &&& !spec_should_filter_frame(frames@[out@[k].0 as int], *filter)
            },
            forall|k: int, l: int| 0 <= k < l < out@.len() ==> (#[trigger] out@[k]).0 < (#[trigger] out@[l]).0,
            forall|j: int| 0 <= j < i && !spec_should_filter_frame(#[trigger] frames@[j], *filter)
                ==> exists|k: int| 0 <= k < out@.len() && (#[trigger] out@[k]).0 == j,
        decreases frames@.len() - i,
    {
        let ghost prev = out@;
        let keep = !should_filter_frame(&frames[i], filter);
        if keep {
            out.push((i, &frames[i]));
        }
        proof {
            assert forall|j: int| 0 <= j < i + 1 && !spec_should_filter_frame(#[trigger] frames@[j], *filter)
                implies exists|k: int| 0 <= k < out@.len() && (#[trigger] out@[k]).0 == j by {
                if j < i {
                    let k = choose|k: int| 0 <= k < prev.len() && (#[trigger] prev[k]).0 == j;
                    assert(out@[k] == prev[k]);
                } else {
                    assert(out@[out@.len() - 1].0 == j);
                }
            }
        }
        i += 1;
    }
    out
}

/// A captured stack trace: its format, its frames, and the raw text.
#[derive(Debug)]
pub struct StackTrace {
    pub format: StackTraceFormat,
    pub frames: Vec<StackFrame>,
    pub raw: Option<String>,
}

impl StackTrace {
    /// An empty stack trace of the given format.
    pub fn new(format: StackTraceFormat) -> (t: Self)
        ensures
            t.format == format,
            t.frames@.len() == 0,
            t.raw is None,
    {
        StackTrace { format, frames: Vec::new(), raw: None }
    }

    /// Replaces the frames.
    pub fn set_frames(self, frames: Vec<StackFrame>) -> (t: Self)
        ensures
            t.format == self.format,
            t.frames@ == frames@,
            t.raw == self.raw,
    {
        StackTrace { frames, ..self }
    }

    /// Appends frames after the existing ones.
    pub fn with_frames(self, frames: Vec<StackFrame>) -> (t: Self)
        ensures
            t.format == self.format,
            t.frames@ == self.frames@ + frames@,
            t.raw == self.raw,
    {
        let StackTrace { format, frames: mut existing, raw } = self;
        let mut more = frames;
        existing.append(&mut more);
        StackTrace { format, frames: existing, raw }
    }

    /// Sets the raw text, replacing any existing value.
    pub fn set_raw(self, raw: String) -> (t: Self)
        ensures
            t.format == self.format,
            t.frames@ == self.frames@,
            t.raw == Some(raw),
    {
        StackTrace { raw: Some(raw), ..self }
    }

    /// Sets the raw text only if not already set.
    pub fn with_raw(self, raw: String) -> (t: Self)
        ensures
            t.format == self.format,
            t.frames@ == self.frames@,
            t.raw == (if self.raw is None { Some(raw) } else { self.raw }),
    {
        if self.raw.is_none() {
            StackTrace { raw: Some(raw), ..self }
        } else {
            self
        }
    }
}

/// The filters are nested: `All` drops nothing, and whatever `AppOnly`
/// drops `AppFocused` drops too.
pub proof fn law_filters_are_nested(frame: StackFrame)
    ensures
        !spec_should_filter_frame(frame, StackTraceFilter::All),
        spec_should_filter_frame(frame, StackTraceFilter::AppOnly) ==> spec_should_filter_frame(frame, StackTraceFilter::AppFocused),
{
}

/// Frames of the standard library and runtime crates are runtime frames:
/// a frame whose module path starts with `std::`, `core::`, `alloc::` or
/// `backtrace::` is dropped by `AppOnly` and by `AppFocused`, and kept by
/// `All`; a frame without a module path is never a runtime frame.
pub proof fn law_runtime_crate_frames_are_dropped(frame: StackFrame)
    ensures
        (frame.module matches Some(m) && ("std::"@.is_prefix_of(m@) || "core::"@.is_prefix_of(m@)
            || "alloc::"@.is_prefix_of(m@) || "backtrace::"@.is_prefix_of(m@))) ==> {
            &&& spec_should_filter_frame(frame, StackTraceFilter::AppOnly)
            &&& spec_should_filter_frame(frame, StackTraceFilter::AppFocused)
            &&& !spec_should_filter_frame(frame, StackTraceFilter::All)
        },
        frame.module is None ==> !spec_should_filter_frame(frame, StackTraceFilter::AppOnly),
{
}

/// Frames whose module path mentions a panic entry point
/// (`rust_begin_unwind`, `rust_panic`) are runtime frames, dropped by
/// `AppOnly` and `AppFocused`; frames of the diagnostics machinery (a path
/// starting with `diagweave::` or mentioning `diagnostic` or `report`) are
/// dropped by `AppFocused`.
pub proof fn law_marked_frames_are_dropped(frame: StackFrame, i: int, needle: Seq<char>)
    requires
        frame.module is Some,
        0 <= i,
        i + needle.len() <= frame.module->0@.len(),
        frame.module->0@.subrange(i, i + needle.len()) == needle,
    ensures
        (needle == "rust_begin_unwind"@ || needle == "rust_panic"@) ==> spec_should_filter_frame(frame, StackTraceFilter::AppOnly)
            && spec_should_filter_frame(frame, StackTraceFilter::AppFocused),
        (needle == "diagnostic"@ || needle == "report"@) ==> spec_should_filter_frame(frame, StackTraceFilter::AppFocused),
        "diagweave::"@.is_prefix_of(frame.module->0@) ==> spec_should_filter_frame(frame, StackTraceFilter::AppFocused),
{
    let m = frame.module->0@;
    assert(m.subrange(i, i + needle.len()) == needle);
}

/// Application frames are kept: a module path that starts with none of
/// `std::`, `core::`, `alloc::`, `backtrace::` and mentions neither panic
/// entry point is kept by `AppOnly`, and when it is not diagnostics
/// machinery either, by `AppFocused` too.
pub proof fn law_application_frames_are_kept(frame: StackFrame)
    requires
        frame.module is Some,
        !"std::"@.is_prefix_of(frame.module->0@),
        !"core::"@.is_prefix_of(frame.module->0@),
        !"alloc::"@.is_prefix_of(frame.module->0@),
        !"backtrace::"@.is_prefix_of(frame.module->0@),
        forall|i: int| 0 <= i && i + "rust_begin_unwind"@.len() <= frame.module->0@.len()
            ==> #[trigger] frame.module->0@.subrange(i, i + "rust_begin_unwind"@.len()) != "rust_begin_unwind"@,
        forall|i: int| 0 <= i && i + "rust_panic"@.len() <= frame.module->0@.len()
            ==> #[trigger] frame.module->0@.subrange(i, i + "rust_panic"@.len()) != "rust_panic"@,
    ensures
        !spec_should_filter_frame(frame, StackTraceFilter::AppOnly),
        (!"diagweave::"@.is_prefix_of(frame.module->0@)
            && (forall|i: int| 0 <= i && i + "diagnostic"@.len() <= frame.module->0@.len()
                ==> #[trigger] frame.module->0@.subrange(i, i + "diagnostic"@.len()) != "diagnostic"@)
            && (forall|i: int| 0 <= i && i + "report"@.len() <= frame.module->0@.len()
                ==> #[trigger] frame.module->0@.subrange(i, i + "report"@.len()) != "report"@))
            ==> !spec_should_filter_frame(frame, StackTraceFilter::AppFocused),
{
}

} // verus!
