//! Severity levels, the severity typestate markers and traversal flags.

use vstd::prelude::*;

verus! {

/// Severity level of a diagnostic.
#[derive(Debug, Clone, Copy, PartialEq, Eq, Structural)]
pub enum Severity {
    Trace,
    Debug,
    Info,
    Warn,
    Error,
    Fatal,
}

/// Typestate marker for reports whose severity has not been set.
#[derive(Debug, Default, Clone, Copy, PartialEq, Eq, Structural)]
pub struct MissingSeverity;

/// Typestate marker for reports whose severity is present.
#[derive(Debug, Clone, Copy, PartialEq, Eq, Structural)]
pub struct HasSeverity {
    severity: Severity,
}

impl HasSeverity {
    /// The severity carried by this marker.
    pub closed spec fn spec_severity(self) -> Severity {
        self.severity
    }

    /// Creates a present severity typestate with the specified severity.
    pub fn new(severity: Severity) -> (s: Self)
        ensures
            s.spec_severity() == severity,
    {
        Self { severity }
    }

    /// Returns the guaranteed severity carried by this typestate.
    pub fn severity(self) -> (r: Severity)
        ensures
            r == self.spec_severity(),
    {
        self.severity
    }
}

/// Marker that only this crate's severity typestates carry.
pub trait Sealed {}

impl Sealed for MissingSeverity {}

impl Sealed for HasSeverity {}

/// Typestate contract for report severity metadata.
pub trait SeverityState: Sealed + Copy {
    /// The severity represented by the typestate, if any.
    spec fn severity_spec(&self) -> Option<Severity>;

    /// Returns the severity represented by the typestate, if any.
    fn severity(self) -> (r: Option<Severity>)
        ensures
            r == self.severity_spec(),
    ;
}

impl SeverityState for MissingSeverity {
    open spec fn severity_spec(&self) -> Option<Severity> {
        None
    }

    fn severity(self) -> (r: Option<Severity>) {
        None
    }
}

impl SeverityState for HasSeverity {
    open spec fn severity_spec(&self) -> Option<Severity> {
        Some(self.spec_severity())
    }

    fn severity(self) -> (r: Option<Severity>) {
        Some(self.severity)
    }
}

/// Conversion of a value into a `Result`.
pub trait IntoResult<T, E> {
    fn into_result(self) -> Result<T, E>;
}

impl<T, E> IntoResult<T, E> for Result<T, E> {
    /// A `Result` is already one: it is returned unchanged.
    fn into_result(self) -> (r: Result<T, E>)
        ensures
            r == self,
    {
        self
    }
}

/// Format of a captured stack trace.
#[derive(Debug, Clone, Copy, PartialEq, Eq, Structural)]
pub enum StackTraceFormat {
    Native,
    Raw,
}

/// Traversal state observed during cause collection.
#[derive(Debug, Default, Clone, Copy, PartialEq, Eq, Structural)]
pub struct CauseTraversalState {
    /// Whether the traversal was truncated due to depth limit.
    pub truncated: bool,
    /// Whether a circular reference cycle was detected.
    pub cycle_detected: bool,
}

impl CauseTraversalState {
    /// The state with no flag raised.
    pub fn new() -> (s: Self)
        ensures
            !s.truncated && !s.cycle_detected,
    {
        Self { truncated: false, cycle_detected: false }
    }

    /// Merges traversal flags from another state.
    pub fn merge_from(&mut self, other: Self)
        ensures
            final(self).truncated == (old(self).truncated || other.truncated),
            final(self).cycle_detected == (old(self).cycle_detected || other.cycle_detected),
    {
        self.truncated = self.truncated || other.truncated;
        self.cycle_detected = self.cycle_detected || other.cycle_detected;
    }
}

/// Limits applied when collecting a chain of causes.
#[derive(Debug, Clone, Copy, PartialEq, Eq, Structural)]
pub struct CauseCollectOptions {
    /// How many levels of causes are visited at most.
    pub max_depth: usize,
    /// Whether an error met again on the current path stops the walk.
    pub detect_cycle: bool,
}

/// Kind of a cause entry.
#[derive(Debug, Clone, Copy, PartialEq, Eq, Structural)]
pub enum CauseKind {
    Error,
    Event,
}

impl CauseKind {
    /// The label this kind is displayed with.
    pub fn label(&self) -> (s: &'static str)
        ensures
            s@ == (match self {
                CauseKind::Error => "error"@,
                CauseKind::Event => "event"@,
            }),
    {
        match self {
            CauseKind::Error => "error",
            CauseKind::Event => "event",
        }
    }
}

} // verus!
