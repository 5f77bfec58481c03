//! Depth- and cycle-limited walks over source-error arenas and over chains of
//! error values reached one `source()` at a time.

use vstd::prelude::*;
use crate::types::{CauseCollectOptions, CauseTraversalState};
use crate::source_chain::{SourceErrorChain, SourceErrorItem, SourceNodeId, chain_from_linear, linear_chain};

verus! {

/// Identity of an error met during a walk: the address of an error value, or a
/// node of the arena being walked (within one arena a node is its own error).
#[derive(Debug, Clone, Copy, PartialEq, Eq, Structural)]
pub enum ErrorIdentity {
    /// Data and vtable addresses of an error value.
    Pointer(usize, usize),
    /// A node of the arena being walked.
    ArenaNode(usize),
}

/// The identities of the entries of a path.
pub open spec fn path_has(path: Seq<(usize, ErrorIdentity)>, addr: ErrorIdentity) -> bool {
    exists|i: int| 0 <= i < path.len() && (#[trigger] path[i]).1 == addr
}

/// What is left of `path` after leaving every entry at depth `depth` or deeper
/// from its end.
pub open spec fn kept_prefix(path: Seq<(usize, ErrorIdentity)>, depth: usize) -> Seq<(usize, ErrorIdentity)>
    decreases path.len(),
{
    if path.len() > 0 && path.last().0 >= depth {
        kept_prefix(path.drop_last(), depth)
    } else {
        path
    }
}

/// The errors on the path from the walk's start to the current entry.
#[derive(Debug)]
pub struct PathSeenErrorAddrs {
    /// Depth and identity of each error on the path.
    pub path: Vec<(usize, ErrorIdentity)>,
}

impl PathSeenErrorAddrs {
    /// An empty path.
    pub fn new() -> (p: Self)
        ensures
            p.path@.len() == 0,
    {
        Self { path: Vec::new() }
    }

    /// Moves to depth `depth` and enters `addr`; refuses (returns false) when
    /// `addr` is already on the remaining path.
    pub fn enter(&mut self, depth: usize, addr: ErrorIdentity) -> (r: bool)
        ensures
            r == !path_has(kept_prefix(old(self).path@, depth), addr),
            r ==> final(self).path@ == kept_prefix(old(self).path@, depth).push((depth, addr)),
            !r ==> final(self).path@ == kept_prefix(old(self).path@, depth),
    {
        while self.path.len() > 0 && self.path[self.path.len() - 1].0 >= depth
            invariant
                kept_prefix(self.path@, depth) == kept_prefix(old(self).path@, depth),
            decreases self.path@.len(),
        {
            let ghost before = self.path@;
            self.path.pop();
            proof {
                assert(before.drop_last() =~= self.path@);
            }
        }
        assert(kept_prefix(self.path@, depth) == self.path@);
        let n = self.path.len();
        let mut i: usize = 0;
        while i < n
            invariant
                n == self.path@.len(),
                i <= n,
                self.path@ == kept_prefix(old(self).path@, depth),
                forall|j: int| 0 <= j < i ==> (#[trigger] self.path@[j]).1 != addr,
            decreases n - i,
        {
            if self.path[i].1 == addr {
                assert(self.path@[i as int].1 == addr);
                return false;
            }
            i = i + 1;
        }
        self.path.push((depth, addr));
        true
    }
}

/// Limits and flags shared by the walks.
#[derive(Debug)]
pub struct WalkerCore {
    pub options: CauseCollectOptions,
    pub path_seen: PathSeenErrorAddrs,
    pub state: CauseTraversalState,
}

impl WalkerCore {
    /// A walk with the given limits, nothing seen yet.
    pub fn new(options: CauseCollectOptions) -> (c: Self)
        ensures
            c.options == options,
            c.path_seen.path@.len() == 0,
            !c.state.truncated && !c.state.cycle_detected,
    {
        Self { options, path_seen: PathSeenErrorAddrs::new(), state: CauseTraversalState::new() }
    }

    /// The limits of the walk.
    pub fn options(&self) -> (o: CauseCollectOptions)
        ensures
            o == self.options,
    {
        self.options
    }

    /// The flags raised so far.
    pub fn state(&self) -> (s: CauseTraversalState)
        ensures
            s == self.state,
    {
        self.state
    }

    /// Whether `depth` is within the limit; raises the truncation flag when not.
    pub fn allow_depth(&mut self, depth: usize) -> (r: bool)
        ensures
            r == (depth < old(self).options.max_depth),
            final(self).options == old(self).options,
            final(self).path_seen == old(self).path_seen,
            final(self).state.truncated == (old(self).state.truncated || !r),
            final(self).state.cycle_detected == old(self).state.cycle_detected,
    {
        if depth >= self.options.max_depth {
            self.state.truncated = true;
            false
        } else {
            true
        }
    }

    /// Whether `addr` may be entered at `depth`: always when cycles are not
    /// detected, otherwise when it is not already on the path. Raises the cycle
    /// flag when refused.
    pub fn allow_cycle(&mut self, depth: usize, addr: ErrorIdentity) -> (r: bool)
        ensures
            final(self).options == old(self).options,
            final(self).state.truncated == old(self).state.truncated,
            final(self).state.cycle_detected == (old(self).state.cycle_detected || !r),
            !old(self).options.detect_cycle ==> r && final(self).path_seen == old(self).path_seen,
            old(self).options.detect_cycle ==> {
                &&& r == !path_has(kept_prefix(old(self).path_seen.path@, depth), addr)
                &&& r ==> final(self).path_seen.path@ == kept_prefix(old(self).path_seen.path@, depth).push((depth, addr))
                &&& !r ==> final(self).path_seen.path@ == kept_prefix(old(self).path_seen.path@, depth)
            },
    {
        if self.options.detect_cycle && !self.path_seen.enter(depth, addr) {
            self.state.cycle_detected = true;
            false
        } else {
            true
        }
    }

    /// Raises the truncation flag.
    pub fn mark_truncated(&mut self)
        ensures
            final(self).options == old(self).options,
            final(self).path_seen == old(self).path_seen,
            final(self).state.truncated,
            final(self).state.cycle_detected == old(self).state.cycle_detected,
    {
        self.state.truncated = true;
    }
}

/// Raised flags stay raised.
pub open spec fn state_grows(before: CauseTraversalState, after: CauseTraversalState) -> bool {
    (before.truncated ==> after.truncated) && (before.cycle_detected ==> after.cycle_detected)
}

/// A list of node ids being walked, with the position reached and its depth.
#[derive(Debug, Clone, Copy)]
pub struct ChainFrame<'a> {
    pub ids: &'a [SourceNodeId],
    pub index: usize,
    pub depth: usize,
}

impl<'a> ChainFrame<'a> {
    /// A frame at the start of `ids`.
    pub fn new(ids: &'a [SourceNodeId], depth: usize) -> (f: Self)
        ensures
            f.ids@ == ids@,
            f.index == 0,
            f.depth == depth,
    {
        Self { ids, index: 0, depth }
    }
}

/// One step of a walk.
#[derive(Debug, Clone, Copy, PartialEq, Eq, Structural)]
pub enum SourceErrorVisit {
    /// The current error value of an error-value walk, at this depth.
    Error { depth: usize },
    /// A node of the arena, at this depth.
    Item { id: SourceNodeId, depth: usize },
}

/// A frame of a chain walk by value: its ids, the position reached and its depth.
pub open spec fn frame_view(f: ChainFrame) -> (Seq<usize>, int, int) {
    (f.ids@, f.index as int, f.depth as int)
}

/// The frames of a chain walk by value.
pub open spec fn frames_view(stack: Seq<ChainFrame>) -> Seq<(Seq<usize>, int, int)> {
    stack.map_values(|f: ChainFrame| frame_view(f))
}

/// A traversal state with the truncation flag raised.
pub open spec fn with_truncated(s: CauseTraversalState) -> CauseTraversalState {
    CauseTraversalState { truncated: true, cycle_detected: s.cycle_detected }
}

/// A traversal state with the cycle flag raised.
pub open spec fn with_cycle(s: CauseTraversalState) -> CauseTraversalState {
    CauseTraversalState { truncated: s.truncated, cycle_detected: true }
}

/// The next visit of a depth-first walk of `chain`, with the frames, path
/// and flags it leaves. The top frame is advanced: a frame at the depth limit
/// is dropped (raising the truncation flag), an exhausted frame is dropped,
/// an id outside the arena is skipped, and, when cycles are detected, a node
/// already on the path is skipped (raising the cycle flag). The first node
/// left is visited; its sources become a new frame one level deeper when
/// that depth is within the limit, and raise the truncation flag otherwise.
pub open spec fn walk_next(
    chain: SourceErrorChain,
    options: CauseCollectOptions,
    frames: Seq<(Seq<usize>, int, int)>,
    path: Seq<(usize, ErrorIdentity)>,
    state: CauseTraversalState,
) -> (Option<SourceErrorVisit>, Seq<(Seq<usize>, int, int)>, Seq<(usize, ErrorIdentity)>, CauseTraversalState)
    decreases frames.len(), (if frames.len() > 0 { frames.last().0.len() - frames.last().1 } else { 0 }),
{
    if frames.len() == 0 {
        (None, frames, path, state)
    } else {
        let ids = frames.last().0;
        let index = frames.last().1;
        let depth = frames.last().2;
        if depth >= options.max_depth {
            walk_next(chain, options, frames.drop_last(), path, with_truncated(state))
        } else if index >= ids.len() {
            walk_next(chain, options, frames.drop_last(), path, state)
        } else {
            let node = ids[index];
            let advanced = frames.update(frames.len() - 1, (ids, index + 1, depth));
            if node >= chain.nodes@.len() {
                walk_next(chain, options, advanced, path, state)
            } else {
                let kept = kept_prefix(path, depth as usize);
                let addr = ErrorIdentity::ArenaNode(node);
                if options.detect_cycle && path_has(kept, addr) {
                    walk_next(chain, options, advanced, kept, with_cycle(state))
                } else {
                    let path2 = if options.detect_cycle { kept.push((depth as usize, addr)) } else { path };
                    let kids = chain.nodes@[node as int].source_roots@;
                    let visit = Some(SourceErrorVisit::Item { id: node, depth: depth as usize });
                    if kids.len() > 0 && depth + 1 < options.max_depth {
                        (visit, advanced.push((kids, 0, depth + 1)), path2, state)
                    } else if kids.len() > 0 {
                        (visit, advanced, path2, with_truncated(state))
                    } else {
                        (visit, advanced, path2, state)
                    }
                }
            }
        }
    }
}

/// The next step of a chain walker.
pub open spec fn chain_walk_next(w: ChainWalker) -> (Option<SourceErrorVisit>, Seq<(Seq<usize>, int, int)>, Seq<(usize, ErrorIdentity)>, CauseTraversalState) {
    walk_next(*w.chain, w.core.options, frames_view(w.stack@), w.core.path_seen.path@, w.core.state)
}

/// `after` is `before` moved on by one step.
pub open spec fn chain_walk_stepped(before: ChainWalker, after: ChainWalker) -> bool {
    let out = chain_walk_next(before);
    &&& after.chain == before.chain
    &&& after.core.options == before.core.options
    &&& frames_view(after.stack@) == out.1
    &&& after.core.path_seen.path@ == out.2
    &&& after.core.state == out.3
}

/// Depth-first walk of an arena from a list of roots.
#[derive(Debug)]
pub struct ChainWalker<'a> {
    pub chain: &'a SourceErrorChain,
    pub stack: Vec<ChainFrame<'a>>,
    pub core: WalkerCore,
}

impl<'a> ChainWalker<'a> {
    /// Starts a walk of `chain` at `roots`.
    pub fn from_roots(chain: &'a SourceErrorChain, roots: &'a [SourceNodeId], options: CauseCollectOptions) -> (w: Self)
        ensures
            w.chain == chain,
            w.core.options == options,
            w.core.path_seen.path@.len() == 0,
            !w.core.state.truncated && !w.core.state.cycle_detected,
            roots@.len() == 0 ==> w.stack@.len() == 0,
            roots@.len() > 0 ==> w.stack@.len() == 1 && w.stack@[0].ids@ == roots@ && w.stack@[0].index == 0 && w.stack@[0].depth == 0,
    {
        let mut stack: Vec<ChainFrame<'a>> = Vec::new();
        if roots.len() > 0 {
            stack.push(ChainFrame::new(roots, 0));
        }
        Self { chain, stack, core: WalkerCore::new(options) }
    }

    /// The flags raised so far.
    pub fn state(&self) -> (s: CauseTraversalState)
        ensures
            s == self.core.state,
    {
        self.core.state()
    }

    /// Visits the next node in depth-first order, skipping ids outside the
    /// arena and nodes already on the current path (when cycles are detected),
    /// and not going past the depth limit. `None` when the walk is over.
    pub fn next_visit(&mut self) -> (r: Option<SourceErrorVisit>)
        ensures
            final(self).chain == old(self).chain,
            final(self).core.options == old(self).core.options,
            state_grows(old(self).core.state, final(self).core.state),
            r is None ==> final(self).stack@.len() == 0,
            r matches Some(v) ==> v matches SourceErrorVisit::Item { id, depth } && id < old(self).chain.nodes@.len()
                && depth < old(self).core.options.max_depth,
            r == chain_walk_next(*old(self)).0,
            chain_walk_stepped(*old(self), *final(self)),
    {
        let ghost start = chain_walk_next(*self);
        loop
            invariant_except_break
                self.chain == old(self).chain,
                self.core.options == old(self).core.options,
                state_grows(old(self).core.state, self.core.state),
                start == chain_walk_next(*old(self)),
                chain_walk_next(*self) == start,
            ensures
                self.chain == old(self).chain,
                self.core.options == old(self).core.options,
                state_grows(old(self).core.state, self.core.state),
            decreases self.stack@.len(), if self.stack@.len() > 0 { self.stack@.last().ids@.len() - self.stack@.last().index } else { 0 },
        {
            let ghost fr = frames_view(self.stack@);
            let ghost path0 = self.core.path_seen.path@;
            let ghost st0 = self.core.state;
            if self.stack.len() == 0 {
                proof {
                    assert(fr.len() == 0);
                }
                return None;
            }
            let last = self.stack.len() - 1;
            let frame = self.stack[last];
            proof {
                assert(fr.last() == frame_view(frame));
            }
            let max = self.core.options.max_depth;
            if !self.core.allow_depth(frame.depth) {
                let ghost before = self.stack@;
                self.stack.pop();
                proof {
                    assert(frames_view(self.stack@) =~= fr.drop_last());
                    assert(self.core.state == with_truncated(st0));
                }
                continue;
            }
            if frame.index >= frame.ids.len() {
                self.stack.pop();
                proof {
                    assert(frames_view(self.stack@) =~= fr.drop_last());
                }
                continue;
            }
            let node_id = frame.ids[frame.index];
            self.stack.set(last, ChainFrame { ids: frame.ids, index: frame.index + 1, depth: frame.depth });
            let ghost advanced = fr.update(fr.len() - 1, (frame.ids@, frame.index + 1, frame.depth as int));
            proof {
                assert(frames_view(self.stack@) =~= advanced);
            }
            if node_id >= self.chain.nodes.len() {
                continue;
            }
            let chain: &'a SourceErrorChain = self.chain;
            let item: &'a SourceErrorItem = &chain.nodes[node_id];
            if !self.core.allow_cycle(frame.depth, ErrorIdentity::ArenaNode(node_id)) {
                continue;
            }
            let ghost path2 = self.core.path_seen.path@;
            if item.source_roots.len() > 0 {
                if frame.depth + 1 < max {
                    let ghost before = self.stack@;
                    self.stack.push(ChainFrame::new(item.source_roots.as_slice(), frame.depth + 1));
                    proof {
                        assert(frames_view(self.stack@) =~= advanced.push((item.source_roots@, 0, frame.depth + 1)));
                    }
                } else {
                    self.core.mark_truncated();
                }
            }
            proof {
                assert(self.core.path_seen.path@ == path2);
            }
            return Some(SourceErrorVisit::Item { id: node_id, depth: frame.depth });
        }
    }
}

/// Whether an error-value walk may enter `addr` at its current depth: always
/// when cycles are not detected, otherwise when it is not on the path.
pub open spec fn error_walk_fresh(w: ErrorWalker, addr: ErrorIdentity) -> bool {
    !w.core.options.detect_cycle || !path_has(kept_prefix(w.core.path_seen.path@, w.depth), addr)
}

/// What an error-value walk gives for the current error: its depth when it
/// is within the limit and not already on the path, `None` otherwise or when
/// there is no current error.
pub open spec fn error_walk_result(w: ErrorWalker, current: Option<ErrorIdentity>) -> Option<usize> {
    if w.depth >= w.core.options.max_depth {
        None
    } else {
        match current {
            None => None,
            Some(addr) => if error_walk_fresh(w, addr) { Some(w.depth) } else { None },
        }
    }
}

/// `after` is `before` moved on by one decision on `current`: past the depth
/// limit the truncation flag is raised; an error already on the path raises
/// the cycle flag and leaves the path at its depth; a visited error is put on
/// the path (when cycles are detected) and the depth goes one deeper.
pub open spec fn error_walk_stepped(before: ErrorWalker, current: Option<ErrorIdentity>, after: ErrorWalker) -> bool {
    let path = before.core.path_seen.path@;
    let kept = kept_prefix(path, before.depth);
    &&& after.core.options == before.core.options
    &&& if before.depth >= before.core.options.max_depth {
        &&& after.depth == before.depth
        &&& after.core.path_seen.path@ == path
        &&& after.core.state == with_truncated(before.core.state)
    } else {
        match current {
            None => after.depth == before.depth && after.core.path_seen.path@ == path && after.core.state == before.core.state,
            Some(addr) => if error_walk_fresh(before, addr) {
                &&& after.depth == before.depth + 1
                &&& after.core.path_seen.path@ == (if before.core.options.detect_cycle { kept.push((before.depth, addr)) } else { path })
                &&& after.core.state == before.core.state
            } else {
                &&& after.depth == before.depth
                &&& after.core.path_seen.path@ == kept
                &&& after.core.state == with_cycle(before.core.state)
            },
        }
    }
}

/// Walk of a chain of error values, advanced one `source()` at a time by the
/// caller, who hands over the identity of the error it holds.
#[derive(Debug)]
pub struct ErrorWalker {
    pub depth: usize,
    pub core: WalkerCore,
}

impl ErrorWalker {
    /// Starts a walk with the given limits.
    pub fn new(options: CauseCollectOptions) -> (w: Self)
        ensures
            w.depth == 0,
            w.core.options == options,
            w.core.path_seen.path@.len() == 0,
            !w.core.state.truncated && !w.core.state.cycle_detected,
    {
        Self { depth: 0, core: WalkerCore::new(options) }
    }

    /// The flags raised so far.
    pub fn state(&self) -> (s: CauseTraversalState)
        ensures
            s == self.core.state,
    {
        self.core.state()
    }

    /// Decides on the current error (`None` when there is none): `Some(depth)`
    /// to visit it at that depth (the caller then moves on to its source),
    /// `None` when the walk is over.
    pub fn next_visit(&mut self, current: Option<ErrorIdentity>) -> (r: Option<usize>)
        ensures
            final(self).core.options == old(self).core.options,
            state_grows(old(self).core.state, final(self).core.state),
            old(self).depth >= old(self).core.options.max_depth ==> r.is_none() && final(self).core.state.truncated,
            old(self).depth < old(self).core.options.max_depth ==> match current {
                None => r.is_none(),
                Some(addr) => {
                    let fresh = !old(self).core.options.detect_cycle
                        || !path_has(kept_prefix(old(self).core.path_seen.path@, old(self).depth), addr);
                    &&& (fresh ==> r == Some(old(self).depth) && final(self).depth == old(self).depth + 1)
                    &&& (!fresh ==> r.is_none() && final(self).core.state.cycle_detected)
                },
            },
            r == error_walk_result(*old(self), current),
            error_walk_stepped(*old(self), current, *final(self)),
    {
        if !self.core.allow_depth(self.depth) {
            return None;
        }
        let addr = match current {
            Some(a) => a,
            None => {
                return None;
            },
        };
        if !self.core.allow_cycle(self.depth, addr) {
            return None;
        }
        let entry_depth = self.depth;
        self.depth = self.depth + 1;
        Some(entry_depth)
    }
}

/// Which stored chain a report walk follows.
#[derive(Debug, Clone, Copy, PartialEq, Eq, Structural)]
pub enum ReportSourceTraversalStrategy {
    /// The origin chain, followed by the inner error's own sources.
    Origin,
    /// The diagnostic chain only.
    Diagnostic,
}

impl ReportSourceTraversalStrategy {
    /// Whether this is the origin strategy.
    pub fn is_origin(self) -> (r: bool)
        ensures
            r == (self == ReportSourceTraversalStrategy::Origin),
    {
        match self {
            ReportSourceTraversalStrategy::Origin => true,
            ReportSourceTraversalStrategy::Diagnostic => false,
        }
    }
}

/// A visited source error with its type names and depth.
#[derive(Debug)]
pub struct SourceErrorEntry {
    /// The arena node visited, or `None` for the current error of an error-value walk.
    pub node: Option<SourceNodeId>,
    /// The recorded type name.
    pub error_type: Option<String>,
    /// The type name to show.
    pub display_error_type: Option<String>,
    pub depth: usize,
}

impl SourceErrorEntry {
    /// The entry for a visit of `chain` (an error-value visit carries no type name).
    pub fn from_visit(visit: SourceErrorVisit, chain: &SourceErrorChain, hide_report_wrapper_types: bool, report_type_label: &str) -> (e: Self)
        requires
            visit matches SourceErrorVisit::Item { id, depth } ==> id < chain.nodes@.len(),
        ensures
            match visit {
                SourceErrorVisit::Error { depth } => e.node.is_none() && e.error_type.is_none()
                    && e.display_error_type.is_none() && e.depth == depth,
                SourceErrorVisit::Item { id, depth } => {
                    &&& e.node == Some(id)
                    &&& e.depth == depth
                    &&& e.error_type == chain.nodes@[id as int].error_type
                    &&& e.display_error_type == chain.nodes@[id as int].spec_display_error_type(hide_report_wrapper_types, report_type_label@)
                },
            },
    {
        match visit {
            SourceErrorVisit::Error { depth } => Self { node: None, error_type: None, display_error_type: None, depth },
            SourceErrorVisit::Item { id, depth } => {
                let item = &chain.nodes[id];
                Self {
                    node: Some(id),
                    error_type: crate::source_chain::clone_opt_string(&item.error_type),
                    display_error_type: item.display_error_type(hide_report_wrapper_types, report_type_label),
                    depth,
                }
            },
        }
    }
}

/// The flags of either state.
pub open spec fn merged(a: CauseTraversalState, b: CauseTraversalState) -> CauseTraversalState {
    CauseTraversalState { truncated: a.truncated || b.truncated, cycle_detected: a.cycle_detected || b.cycle_detected }
}

/// The flags an error-value walk has after deciding on `current`.
pub open spec fn error_walk_state(w: ErrorWalker, current: Option<ErrorIdentity>) -> CauseTraversalState {
    if w.depth >= w.core.options.max_depth {
        with_truncated(w.core.state)
    } else {
        match current {
            None => w.core.state,
            Some(addr) => if error_walk_fresh(w, addr) { w.core.state } else { with_cycle(w.core.state) },
        }
    }
}

/// The second phase of a report walk, once the stored chain is done: the
/// inner error's walk (if any) decides on `current`; its flags join
/// `finished`, and a walk that gives nothing is dropped.
pub open spec fn error_phase(
    walk: Option<ErrorWalker>,
    finished: CauseTraversalState,
    current: Option<ErrorIdentity>,
    r: Option<SourceErrorVisit>,
    after: ReportSourceErrorIter,
) -> bool {
    &&& after.chain_walk is None
    &&& match walk {
        None => r is None && after.error_walk is None && after.finished_state == finished,
        Some(w) => {
            &&& after.finished_state == merged(finished, error_walk_state(w, current))
            &&& match error_walk_result(w, current) {
                Some(d) => {
                    &&& r == Some(SourceErrorVisit::Error { depth: d })
                    &&& after.error_walk matches Some(w2) && error_walk_stepped(w, current, w2)
                },
                None => r is None && after.error_walk is None,
            }
        },
    }
}

/// One step of a report walk: the stored chain's next node while it has
/// one, then the inner error's walk; the flags met join `finished_state`.
pub open spec fn report_walk_stepped(
    before: ReportSourceErrorIter,
    current: Option<ErrorIdentity>,
    r: Option<SourceErrorVisit>,
    after: ReportSourceErrorIter,
) -> bool {
    &&& after.hide_report_wrapper_types == before.hide_report_wrapper_types
    &&& match before.chain_walk {
        Some(w) => {
            let out = chain_walk_next(w);
            let finished = merged(before.finished_state, out.3);
            if out.0 is Some {
                &&& r == out.0
                &&& after.chain_walk matches Some(w2) && chain_walk_stepped(w, w2)
                &&& after.error_walk == before.error_walk
                &&& after.finished_state == finished
            } else {
                error_phase(before.error_walk, finished, current, r, after)
            }
        },
        None => error_phase(before.error_walk, before.finished_state, current, r, after),
    }
}

/// Walk of a report's stored chain, then of its inner error's sources.
#[derive(Debug)]
pub struct ReportSourceErrorIter<'a> {
    pub chain_walk: Option<ChainWalker<'a>>,
    pub error_walk: Option<ErrorWalker>,
    pub hide_report_wrapper_types: bool,
    pub finished_state: CauseTraversalState,
}

impl<'a> ReportSourceErrorIter<'a> {
    /// Walks `source_errors` (when present) and then, when `has_inner_source`,
    /// the chain of the inner error's sources.
    pub fn from_chain(
        source_errors: Option<&'a SourceErrorChain>,
        has_inner_source: bool,
        options: CauseCollectOptions,
        hide_report_wrapper_types: bool,
    ) -> (it: Self)
        ensures
            it.chain_walk.is_some() == source_errors.is_some(),
            it.error_walk.is_some() == has_inner_source,
            it.hide_report_wrapper_types == hide_report_wrapper_types,
            !it.finished_state.truncated && !it.finished_state.cycle_detected,
    {
        let chain_walk = match source_errors {
            Some(chain) => Some(ChainWalker::from_roots(chain, chain.roots.as_slice(), options)),
            None => None,
        };
        let error_walk = if has_inner_source {
            Some(ErrorWalker::new(options))
        } else {
            None
        };
        Self { chain_walk, error_walk, hide_report_wrapper_types, finished_state: CauseTraversalState::new() }
    }

    /// Traversal state observed so far.
    pub fn state(&self) -> (s: CauseTraversalState)
        ensures
            s == self.finished_state,
    {
        self.finished_state
    }

    /// The next visit: first the stored chain's nodes, then the inner error's
    /// sources (`current` is the error the caller holds for that second walk).
    pub fn next_visit(&mut self, current: Option<ErrorIdentity>) -> (r: Option<SourceErrorVisit>)
        ensures
            state_grows(old(self).finished_state, final(self).finished_state),
            r is None ==> final(self).chain_walk.is_none() && final(self).error_walk.is_none(),
            r matches Some(SourceErrorVisit::Item { id, depth }) ==> old(self).chain_walk matches Some(w) && id < w.chain.nodes@.len(),
            report_walk_stepped(*old(self), current, r, *final(self)),
    {
        let mut done_chain = false;
        match &mut self.chain_walk {
            Some(walk) => {
                let visit = walk.next_visit();
                let st = walk.state();
                self.finished_state.merge_from(st);
                match visit {
                    Some(v) => {
                        return Some(v);
                    },
                    None => {
                        done_chain = true;
                    },
                }
            },
            None => {},
        }
        if done_chain {
            self.chain_walk = None;
        }
        let mut done_error = false;
        match &mut self.error_walk {
            Some(walk) => {
                let visit = walk.next_visit(current);
                let st = walk.state();
                self.finished_state.merge_from(st);
                match visit {
                    Some(depth) => {
                        return Some(SourceErrorVisit::Error { depth });
                    },
                    None => {
                        done_error = true;
                    },
                }
            },
            None => {},
        }
        if done_error {
            self.error_walk = None;
        }
        None
    }
}

/// Flattened walk over every node of a chain reachable from its roots.
#[derive(Debug)]
pub struct SourceErrorChainEntries<'a> {
    pub walk: ChainWalker<'a>,
    pub hide_report_wrapper_types: bool,
}

impl<'a> SourceErrorChainEntries<'a> {
    /// A walk of `chain` without depth limit, stopping at cycles.
    pub fn new(chain: &'a SourceErrorChain, hide_report_wrapper_types: bool) -> (e: Self)
        ensures
            e.walk.chain == chain,
            e.walk.core.options.max_depth == usize::MAX,
            e.walk.core.options.detect_cycle,
            e.walk.core.path_seen.path@.len() == 0,
            !e.walk.core.state.truncated && !e.walk.core.state.cycle_detected,
            chain.roots@.len() == 0 ==> e.walk.stack@.len() == 0,
            chain.roots@.len() > 0 ==> e.walk.stack@.len() == 1 && e.walk.stack@[0].ids@ == chain.roots@
                && e.walk.stack@[0].index == 0 && e.walk.stack@[0].depth == 0,
            e.hide_report_wrapper_types == hide_report_wrapper_types,
    {
        Self {
            walk: ChainWalker::from_roots(
                chain,
                chain.roots.as_slice(),
                CauseCollectOptions { max_depth: usize::MAX, detect_cycle: true },
            ),
            hide_report_wrapper_types,
        }
    }

    /// The next entry of the walk.
    pub fn next(&mut self, report_type_label: &str) -> (r: Option<SourceErrorEntry>)
        ensures
            final(self).walk.chain == old(self).walk.chain,
            r matches Some(e) ==> e.node matches Some(id) && id < old(self).walk.chain.nodes@.len(),
            chain_walk_stepped(old(self).walk, final(self).walk),
            final(self).hide_report_wrapper_types == old(self).hide_report_wrapper_types,
            match chain_walk_next(old(self).walk).0 {
                None => r is None,
                Some(SourceErrorVisit::Item { id, depth }) => r matches Some(e) && {
                    &&& e.node == Some(id)
                    &&& e.depth == depth
                    &&& e.error_type == old(self).walk.chain.nodes@[id as int].error_type
                    &&& e.display_error_type == old(self).walk.chain.nodes@[id as int].spec_display_error_type(
                        old(self).hide_report_wrapper_types,
                        report_type_label@,
                    )
                },
                Some(SourceErrorVisit::Error { depth }) => false,
            },
    {
        let hide = self.hide_report_wrapper_types;
        match self.walk.next_visit() {
            Some(v) => Some(SourceErrorEntry::from_visit(v, self.walk.chain, hide, report_type_label)),
            None => None,
        }
    }
}

impl SourceErrorChain {
    /// A flattened walk over the chain's entries.
    pub fn iter_entries(&self) -> (e: SourceErrorChainEntries<'_>)
        ensures
            e.walk.chain == self,
            e.walk.core.options.max_depth == usize::MAX,
            e.walk.core.options.detect_cycle,
            e.walk.core.path_seen.path@.len() == 0,
            !e.walk.core.state.truncated && !e.walk.core.state.cycle_detected,
            self.roots@.len() == 0 ==> e.walk.stack@.len() == 0,
            self.roots@.len() > 0 ==> e.walk.stack@.len() == 1 && e.walk.stack@[0].ids@ == self.roots@
                && e.walk.stack@[0].index == 0 && e.walk.stack@[0].depth == 0,
            !e.hide_report_wrapper_types,
    {
        SourceErrorChainEntries::new(self, false)
    }
}

/// The set of errors met by a linear walk.
#[derive(Debug)]
pub struct SeenErrorAddrs {
    pub seen: Vec<ErrorIdentity>,
}

impl SeenErrorAddrs {
    /// Nothing seen yet.
    pub fn new() -> (s: Self)
        ensures
            s.seen@.len() == 0,
    {
        Self { seen: Vec::new() }
    }

    /// Whether `addr` was seen.
    pub fn contains(&self, addr: ErrorIdentity) -> (r: bool)
        ensures
            r == self.seen@.contains(addr),
    {
        let mut i: usize = 0;
        while i < self.seen.len()
            invariant
                i <= self.seen@.len(),
                forall|j: int| 0 <= j < i ==> self.seen@[j] != addr,
            decreases self.seen@.len() - i,
        {
            if self.seen[i] == addr {
                return true;
            }
            i = i + 1;
        }
        false
    }

    /// Records `addr`; returns whether it was new.
    pub fn insert(&mut self, addr: ErrorIdentity) -> (r: bool)
        ensures
            r == !old(self).seen@.contains(addr),
            r ==> final(self).seen@ == old(self).seen@.push(addr),
            !r ==> final(self).seen@ == old(self).seen@,
    {
        if self.contains(addr) {
            return false;
        }
        self.seen.push(addr);
        true
    }
}

/// Collects the messages of a chain of error values, outermost first, stopping
/// at the depth limit or (when detected) at an error met before.
#[derive(Debug)]
pub struct BorrowedCollector {
    pub options: CauseCollectOptions,
    pub seen: SeenErrorAddrs,
    pub state: CauseTraversalState,
    pub items: Vec<SourceErrorItem>,
    pub depth: usize,
}

impl BorrowedCollector {
    /// A collection with the given limits.
    pub fn new(options: CauseCollectOptions) -> (c: Self)
        ensures
            c.options == options,
            c.items@.len() == 0,
            c.seen.seen@.len() == 0,
            c.depth == 0,
            !c.state.truncated && !c.state.cycle_detected,
    {
        Self { options, seen: SeenErrorAddrs::new(), state: CauseTraversalState::new(), items: Vec::new(), depth: 0 }
    }

    /// Takes the current error (its identity and message). Returns whether the
    /// caller should go on with its source.
    pub fn visit(&mut self, addr: ErrorIdentity, message: String) -> (go_on: bool)
        ensures
            final(self).options == old(self).options,
            old(self).depth >= old(self).options.max_depth ==> !go_on && final(self).state.truncated
                && final(self).items@ == old(self).items@,
            old(self).depth < old(self).options.max_depth && old(self).options.detect_cycle && old(self).seen.seen@.contains(addr)
                ==> !go_on && final(self).state.cycle_detected && final(self).items@ == old(self).items@,
            go_on ==> final(self).items@.len() == old(self).items@.len() + 1
                && final(self).items@.last().message == message
                && final(self).items@.last().error_type.is_none()
                && final(self).items@.last().source_roots@.len() == 0
                && final(self).depth == old(self).depth + 1,
            old(self).depth < old(self).options.max_depth && !(old(self).options.detect_cycle && old(self).seen.seen@.contains(addr)) ==> go_on,
            go_on ==> final(self).state == old(self).state
                && final(self).items@.drop_last() == old(self).items@,
            go_on && old(self).options.detect_cycle ==> final(self).seen.seen@ == old(self).seen.seen@.push(addr),
            !(go_on && old(self).options.detect_cycle) ==> final(self).seen.seen@ == old(self).seen.seen@,
            !go_on ==> final(self).depth == old(self).depth,
            old(self).depth >= old(self).options.max_depth ==> final(self).state == with_truncated(old(self).state),
            old(self).depth < old(self).options.max_depth && !go_on ==> final(self).state == with_cycle(old(self).state),
    {
        if self.depth >= self.options.max_depth {
            self.state.truncated = true;
            return false;
        }
        if self.options.detect_cycle {
            if !self.seen.insert(addr) {
                self.state.cycle_detected = true;
                return false;
            }
        }
        self.items.push(SourceErrorItem::from_message(message));
        self.depth = self.depth + 1;
        true
    }

    /// The collected chain (if anything was collected) and the raised flags.
    pub fn finish(self) -> (r: (Option<SourceErrorChain>, CauseTraversalState))
        ensures
            r.1 == self.state,
            r.0.is_none() <==> self.items@.len() == 0,
            r.0 matches Some(c) ==> linear_chain(self.items@, c, self.state),
    {
        let state = self.state;
        (chain_from_linear(self.items, &state), state)
    }
}

} // verus!
