//! Arena-backed chains of source errors: building, appending, depth limiting
//! and exporting a dense renumbered copy.

use vstd::prelude::*;
use crate::text::chars_of;
use crate::types::{CauseCollectOptions, CauseTraversalState};

verus! {

/// Index of a node inside a source-error arena.
pub type SourceNodeId = usize;

/// Each id shifted up by `offset`.
pub open spec fn shift_ids(ids: Seq<usize>, offset: int) -> Seq<usize> {
    ids.map_values(|x: usize| (x + offset) as usize)
}

/// Every id of `ids` can be shifted by `offset` without overflow.
pub open spec fn shiftable(ids: Seq<usize>, offset: int) -> bool {
    forall|i: int| 0 <= i < ids.len() ==> ids[i] + offset <= usize::MAX
}

/// A source-error node: the error's message, its type name when known, and the
/// ids of the nodes it was caused by.
#[derive(Debug)]
pub struct SourceErrorItem {
    /// The displayed message of the error.
    pub message: String,
    /// The error's type name, when it was captured.
    pub error_type: Option<String>,
    /// Ids of the nodes this error was caused by.
    pub source_roots: Vec<SourceNodeId>,
}

/// Copies an optional string.
pub fn clone_opt_string(s: &Option<String>) -> (r: Option<String>)
    ensures
        r == *s,
{
    match s {
        Some(v) => Some(v.clone()),
        None => None,
    }
}

impl SourceErrorItem {
    /// Creates a leaf node from an error's message and type name.
    pub fn new(message: String, error_type: String) -> (item: Self)
        ensures
            item.message == message,
            item.error_type == Some(error_type),
            item.source_roots@.len() == 0,
    {
        Self { message, error_type: Some(error_type), source_roots: Vec::new() }
    }

    /// Creates a leaf node that carries only a message.
    pub fn from_message(message: String) -> (item: Self)
        ensures
            item.message == message,
            item.error_type.is_none(),
            item.source_roots@.len() == 0,
    {
        Self { message, error_type: None, source_roots: Vec::new() }
    }

    /// A copy of this node.
    pub fn duplicate(&self) -> (r: Self)
        ensures
            r.message == self.message,
            r.error_type == self.error_type,
            r.source_roots@ == self.source_roots@,
    {
        Self {
            message: self.message.clone(),
            error_type: clone_opt_string(&self.error_type),
            source_roots: self.source_roots.clone(),
        }
    }

    /// Whether this node's recorded type name is hidden when report wrappers are hidden.
    pub open spec fn spec_display_error_type(
        &self,
        hide_report_wrapper_types: bool,
        report_type_label: Seq<char>,
    ) -> Option<String> {
        match self.error_type {
            None => None,
            Some(t) => if hide_report_wrapper_types && is_wrapper_type_spec(t@, report_type_label) {
                None
            } else {
                Some(t)
            },
        }
    }

    /// The type name shown for this node: the recorded one, unless it names the
    /// report wrapper type and those are hidden.
    pub fn display_error_type(&self, hide_report_wrapper_types: bool, report_type_label: &str) -> (r:
        Option<String>)
        ensures
            r == self.spec_display_error_type(hide_report_wrapper_types, report_type_label@),
    {
        match &self.error_type {
            None => None,
            Some(t) => {
                if hide_report_wrapper_types && is_report_wrapper_type(t.as_str(), report_type_label) {
                    None
                } else {
                    Some(t.clone())
                }
            },
        }
    }
}

/// The part of a type name before its first `<`, or the whole name.
pub open spec fn before_generics(s: Seq<char>) -> Seq<char>
    decreases s.len(),
{
    if s.len() == 0 {
        s
    } else if s[0] == '<' {
        Seq::empty()
    } else {
        seq![s[0]] + before_generics(s.drop_first())
    }
}

/// Whether `error_type` is the report wrapper type instantiated with some arguments:
/// it starts with the report type's path and continues with `<`.
pub open spec fn is_wrapper_type_spec(error_type: Seq<char>, report_type_label: Seq<char>) -> bool {
    let prefix = before_generics(report_type_label);
    error_type.len() > prefix.len() && error_type.subrange(0, prefix.len() as int) == prefix
        && error_type[prefix.len() as int] == '<'
}

proof fn lemma_before_generics_props(s: Seq<char>)
    ensures
        before_generics(s).len() <= s.len(),
        before_generics(s) == s.subrange(0, before_generics(s).len() as int),
        forall|i: int| 0 <= i < before_generics(s).len() ==> s[i] != '<',
        before_generics(s).len() < s.len() ==> s[before_generics(s).len() as int] == '<',
    decreases s.len(),
{
    if s.len() > 0 && s[0] != '<' {
        lemma_before_generics_props(s.drop_first());
        assert(before_generics(s) =~= s.subrange(0, before_generics(s).len() as int));
        assert forall|i: int| 0 <= i < before_generics(s).len() implies s[i] != '<' by {
            if i > 0 {
                assert(s[i] == s.drop_first()[i - 1]);
            }
        }
    } else if s.len() > 0 {
        assert(before_generics(s) =~= s.subrange(0, 0));
    }
}

/// Whether `error_type` names the report wrapper type (the type named by
/// `report_type_label`, up to its generic arguments) with some generic arguments.
pub fn is_report_wrapper_type(error_type: &str, report_type_label: &str) -> (r: bool)
    ensures
        r == is_wrapper_type_spec(error_type@, report_type_label@),
{
    let rt = chars_of(report_type_label);
    let tn = chars_of(error_type);
    proof {
        lemma_before_generics_props(rt@);
    }
    let mut plen: usize = 0;
    while plen < rt.len() && rt[plen] != '<'
        invariant
            plen <= rt@.len(),
            forall|i: int| 0 <= i < plen ==> rt@[i] != '<',
            plen <= before_generics(rt@).len(),
            before_generics(rt@).len() <= rt@.len(),
            before_generics(rt@) == rt@.subrange(0, before_generics(rt@).len() as int),
            before_generics(rt@).len() < rt@.len() ==> rt@[before_generics(rt@).len() as int]
                == '<',
        decreases rt@.len() - plen,
    {
        plen = plen + 1;
    }
    assert(plen == before_generics(rt@).len());
    if tn.len() <= plen {
        return false;
    }
    let mut i: usize = 0;
    while i < plen
        invariant
            i <= plen,
            plen < tn@.len(),
            plen <= rt@.len(),
            plen == before_generics(rt@).len(),
            before_generics(rt@) == rt@.subrange(0, plen as int),
            tn@ == error_type@,
            rt@ == report_type_label@,
            forall|j: int| 0 <= j < i ==> tn@[j] == rt@[j],
        decreases plen - i,
    {
        if tn[i] != rt[i] {
            proof {
                if tn@.subrange(0, plen as int) == before_generics(rt@) {
                    assert(tn@.subrange(0, plen as int)[i as int] == tn@[i as int]);
                    assert(rt@.subrange(0, plen as int)[i as int] == rt@[i as int]);
                    assert(false);
                }
                assert(!is_wrapper_type_spec(tn@, rt@));
            }
            return false;
        }
        i = i + 1;
    }
    assert(tn@.subrange(0, plen as int) =~= before_generics(rt@));
    tn[plen] == '<'
}

/// Arena-backed source-error chain: nodes, the ids of the root nodes, and the
/// flags raised while it was collected.
#[derive(Debug)]
pub struct SourceErrorChain {
    /// The arena of nodes.
    pub nodes: Vec<SourceErrorItem>,
    /// Ids of the root nodes.
    pub roots: Vec<SourceNodeId>,
    /// Whether collection stopped at the depth limit.
    pub truncated: bool,
    /// Whether collection stopped on a cycle.
    pub cycle_detected: bool,
}

/// The node `item` with every source id shifted by `offset`.
pub open spec fn shifted_item(item: SourceErrorItem, shifted: SourceErrorItem, offset: int) -> bool {
    &&& shifted.message == item.message
    &&& shifted.error_type == item.error_type
    &&& shifted.source_roots@ == shift_ids(item.source_roots@, offset)
}

/// Shifts every source id of `item` up by `offset`.
pub fn shift_item(item: SourceErrorItem, offset: usize) -> (r: SourceErrorItem)
    requires
        shiftable(item.source_roots@, offset as int),
    ensures
        shifted_item(item, r, offset as int),
{
    let ghost orig_item = item;
    let mut item = item;
    let ghost orig = item.source_roots@;
    let n = item.source_roots.len();
    let mut i: usize = 0;
    while i < n
        invariant
            n == orig.len(),
            item.message == orig_item.message,
            item.error_type == orig_item.error_type,
            item.source_roots@.len() == n,
            i <= n,
            shiftable(orig, offset as int),
            forall|j: int| 0 <= j < i ==> item.source_roots@[j] == orig[j] + offset,
            forall|j: int| i <= j < n ==> item.source_roots@[j] == orig[j],
        decreases n - i,
    {
        assert(orig[i as int] + offset <= usize::MAX);
        let v = item.source_roots[i] + offset;
        item.source_roots.set(i, v);
        i = i + 1;
    }
    assert(item.source_roots@ =~= shift_ids(orig, offset as int));
    item
}

/// The largest node count for which ids can be shifted without overflow.
pub open spec fn arena_fits(nodes: Seq<SourceErrorItem>, roots: Seq<usize>, offset: int) -> bool {
    &&& shiftable(roots, offset)
    &&& forall|i: int| 0 <= i < nodes.len() ==> shiftable(#[trigger] nodes[i].source_roots@, offset)
}

/// Whether `items` was linked into a single linear chain: each node is caused by the next one.
pub open spec fn linear_chain(items: Seq<SourceErrorItem>, chain: SourceErrorChain, state: CauseTraversalState) -> bool {
    &&& chain.nodes@.len() == items.len()
    &&& chain.roots@ == seq![0usize]
    &&& chain.truncated == state.truncated
    &&& chain.cycle_detected == state.cycle_detected
    &&& forall|i: int| 0 <= i < items.len() ==> {
        &&& (#[trigger] chain.nodes@[i]).message == items[i].message
        &&& chain.nodes@[i].error_type == items[i].error_type
        &&& (i + 1 < items.len() ==> chain.nodes@[i].source_roots@ == seq![(i + 1) as usize])
        &&& (i + 1 == items.len() ==> chain.nodes@[i].source_roots@ == items[i].source_roots@)
    }
}

/// Links a list of causes (outermost first) into a linear chain rooted at the first one.
pub fn chain_from_linear(items: Vec<SourceErrorItem>, state: &CauseTraversalState) -> (r: Option<
    SourceErrorChain,
>)
    ensures
        r.is_none() <==> items@.len() == 0,
        r matches Some(c) ==> linear_chain(items@, c, *state),
{
    if items.len() == 0 {
        return None;
    }
    let mut items = items;
    let ghost orig = items@;
    let len = items.len();
    let mut idx: usize = 0;
    while idx + 1 < len
        invariant
            len == orig.len(),
            len > 0,
            items@.len() == len,
            idx < len,
            forall|i: int| 0 <= i < len ==> {
                &&& (#[trigger] items@[i]).message == orig[i].message
                &&& items@[i].error_type == orig[i].error_type
            },
            forall|i: int| 0 <= i < idx ==> (#[trigger] items@[i]).source_roots@ == seq![(i + 1) as usize],
            forall|i: int| idx <= i < len ==> (#[trigger] items@[i]).source_roots@ == orig[i].source_roots@,
        decreases len - idx,
    {
        let mut roots: Vec<usize> = Vec::new();
        roots.push(idx + 1);
        let old_item = items.remove(idx);
        let new_item = SourceErrorItem {
            message: old_item.message,
            error_type: old_item.error_type,
            source_roots: roots,
        };
        items.insert(idx, new_item);
        idx = idx + 1;
    }
    let mut root_ids: Vec<usize> = Vec::new();
    root_ids.push(0);
    Some(SourceErrorChain {
        nodes: items,
        roots: root_ids,
        truncated: state.truncated,
        cycle_detected: state.cycle_detected,
    })
}

/// Appends shifted copies of `other`'s nodes to `out`.
fn push_shifted(out: &mut Vec<SourceErrorItem>, other: &Vec<SourceErrorItem>, offset: usize)
    requires
        forall|i: int| 0 <= i < other@.len() ==> shiftable(#[trigger] other@[i].source_roots@, offset as int),
    ensures
        final(out)@.len() == old(out)@.len() + other@.len(),
        forall|i: int| 0 <= i < old(out)@.len() ==> #[trigger] final(out)@[i] == old(out)@[i],
        forall|i: int| 0 <= i < other@.len() ==> shifted_item(other@[i], #[trigger] final(out)@[old(out)@.len() + i], offset as int),
{
    let n = other.len();
    let ghost start = out@;
    let mut i: usize = 0;
    while i < n
        invariant
            n == other@.len(),
            i <= n,
            out@.len() == start.len() + i,
            forall|j: int| 0 <= j < other@.len() ==> shiftable(#[trigger] other@[j].source_roots@, offset as int),
            forall|j: int| 0 <= j < start.len() ==> #[trigger] out@[j] == start[j],
            forall|j: int| 0 <= j < i ==> shifted_item(other@[j], #[trigger] out@[start.len() + j], offset as int),
        decreases n - i,
    {
        let copy = other[i].duplicate();
        let moved = shift_item(copy, offset);
        out.push(moved);
        i = i + 1;
    }
}

/// Copies of the nodes of `nodes`.
fn copy_nodes(nodes: &Vec<SourceErrorItem>) -> (r: Vec<SourceErrorItem>)
    ensures
        r@.len() == nodes@.len(),
        forall|i: int| 0 <= i < nodes@.len() ==> shifted_item(nodes@[i], #[trigger] r@[i], 0),
{
    let mut out: Vec<SourceErrorItem> = Vec::new();
    let n = nodes.len();
    let mut i: usize = 0;
    while i < n
        invariant
            n == nodes@.len(),
            i <= n,
            out@.len() == i,
            forall|j: int| 0 <= j < i ==> shifted_item(nodes@[j], #[trigger] out@[j], 0),
        decreases n - i,
    {
        let copy = nodes[i].duplicate();
        proof {
            assert(copy.source_roots@ =~= shift_ids(nodes@[i as int].source_roots@, 0));
        }
        out.push(copy);
        i = i + 1;
    }
    out
}

/// The result of appending `other` after `this`: `this`'s nodes and roots come
/// first, then `other`'s, renumbered past `this`'s nodes.
pub open spec fn appended(this: SourceErrorChain, other: SourceErrorChain, r: SourceErrorChain) -> bool {
    let base = this.nodes@.len() as int;
    &&& r.nodes@.len() == this.nodes@.len() + other.nodes@.len()
    &&& forall|i: int| 0 <= i < base ==> shifted_item(this.nodes@[i], #[trigger] r.nodes@[i], 0)
    &&& forall|i: int| 0 <= i < other.nodes@.len() ==> shifted_item(other.nodes@[i], #[trigger] r.nodes@[base + i], base)
    &&& r.roots@ == this.roots@ + shift_ids(other.roots@, base)
}

/// Appends `other` to `this` as additional roots, raising the flags either one had.
pub fn append_source_chain(this: &mut SourceErrorChain, other: SourceErrorChain)
    requires
        arena_fits(other.nodes@, other.roots@, old(this).nodes@.len() as int),
        old(this).nodes@.len() + other.nodes@.len() <= usize::MAX,
    ensures
        old(this).roots@.len() == 0 ==> *final(this) == other,
        old(this).roots@.len() != 0 && other.roots@.len() == 0 ==> {
            &&& final(this).nodes == old(this).nodes
            &&& final(this).roots == old(this).roots
            &&& final(this).truncated == (old(this).truncated || other.truncated)
            &&& final(this).cycle_detected == (old(this).cycle_detected || other.cycle_detected)
        },
        old(this).roots@.len() != 0 && other.roots@.len() != 0 ==> {
            &&& appended(*old(this), other, *final(this))
            &&& final(this).truncated == (old(this).truncated || other.truncated)
            &&& final(this).cycle_detected == (old(this).cycle_detected || other.cycle_detected)
        },
{
    this.truncated = this.truncated || other.truncated;
    this.cycle_detected = this.cycle_detected || other.cycle_detected;
    if this.roots.len() == 0 {
        *this = other;
        return;
    }
    if other.roots.len() == 0 {
        return;
    }
    let base = this.nodes.len();
    let mut nodes = copy_nodes(&this.nodes);
    push_shifted(&mut nodes, &other.nodes, base);
    let mut roots = this.roots.clone();
    let ghost this_roots = roots@;
    let n = other.roots.len();
    let mut i: usize = 0;
    while i < n
        invariant
            n == other.roots@.len(),
            i <= n,
            shiftable(other.roots@, base as int),
            roots@ == this_roots + shift_ids(other.roots@, base as int).subrange(0, i as int),
        decreases n - i,
    {
        roots.push(other.roots[i] + base);
        proof {
            assert(shift_ids(other.roots@, base as int).subrange(0, i + 1) =~= shift_ids(
                other.roots@,
                base as int,
            ).subrange(0, i as int).push((other.roots@[i as int] + base) as usize));
        }
        i = i + 1;
    }
    assert(shift_ids(other.roots@, base as int).subrange(0, n as int) =~= shift_ids(
        other.roots@,
        base as int,
    ));
    this.nodes = nodes;
    this.roots = roots;
}

/// A chain whose single root is `root`, caused by the roots of `source` (whose
/// nodes follow, renumbered past the root).
pub open spec fn rooted_chain(
    root: SourceErrorItem,
    source: Option<&SourceErrorChain>,
    state: CauseTraversalState,
    r: SourceErrorChain,
) -> bool {
    rooted_chain_parts(root.message, root.error_type, root.source_roots@, source, state, r)
}

/// [`rooted_chain`] with the root given by its parts.
pub open spec fn rooted_chain_parts(
    message: String,
    error_type: Option<String>,
    root_sources: Seq<usize>,
    source: Option<&SourceErrorChain>,
    state: CauseTraversalState,
    r: SourceErrorChain,
) -> bool {
    &&& r.roots@ == seq![0usize]
    &&& r.nodes@.len() >= 1
    &&& r.nodes@[0].message == message
    &&& r.nodes@[0].error_type == error_type
    &&& match source {
        None => {
            &&& r.nodes@.len() == 1
            &&& r.nodes@[0].source_roots@ == root_sources
            &&& r.truncated == state.truncated
            &&& r.cycle_detected == state.cycle_detected
        },
        Some(src) => {
            &&& r.nodes@.len() == 1 + src.nodes@.len()
            &&& r.nodes@[0].source_roots@ == shift_ids(src.roots@, 1)
            &&& forall|i: int| 0 <= i < src.nodes@.len() ==> shifted_item(src.nodes@[i], #[trigger] r.nodes@[1 + i], 1)
            &&& r.truncated == (state.truncated || src.truncated)
            &&& r.cycle_detected == (state.cycle_detected || src.cycle_detected)
        },
    }
}

impl SourceErrorChain {
    /// The empty chain.
    pub fn new() -> (c: Self)
        ensures
            c.nodes@.len() == 0,
            c.roots@.len() == 0,
            !c.truncated,
            !c.cycle_detected,
    {
        Self { nodes: Vec::new(), roots: Vec::new(), truncated: false, cycle_detected: false }
    }

    /// Builds a chain rooted at `root`, with `source`'s roots as the root's causes.
    pub fn build_chain_root(
        root: SourceErrorItem,
        source: Option<&SourceErrorChain>,
        state: CauseTraversalState,
    ) -> (r: Self)
        requires
            source matches Some(s) ==> arena_fits(s.nodes@, s.roots@, 1) && s.nodes@.len() < usize::MAX,
        ensures
            rooted_chain(root, source, state, r),
    {
        let mut nodes: Vec<SourceErrorItem> = Vec::new();
        let mut truncated = state.truncated;
        let mut cycle_detected = state.cycle_detected;
        match source {
            None => {
                nodes.push(root);
            },
            Some(src) => {
                let mut ids: Vec<usize> = Vec::new();
                let n = src.roots.len();
                let mut i: usize = 0;
                while i < n
                    invariant
                        n == src.roots@.len(),
                        i <= n,
                        shiftable(src.roots@, 1),
                        ids@ == shift_ids(src.roots@, 1).subrange(0, i as int),
                    decreases n - i,
                {
                    ids.push(src.roots[i] + 1);
                    proof {
                        assert(shift_ids(src.roots@, 1).subrange(0, i + 1) =~= shift_ids(src.roots@, 1).subrange(0, i as int).push((src.roots@[i as int] + 1) as usize));
                    }
                    i = i + 1;
                }
                assert(shift_ids(src.roots@, 1).subrange(0, n as int) =~= shift_ids(src.roots@, 1));
                let head = SourceErrorItem {
                    message: root.message,
                    error_type: root.error_type,
                    source_roots: ids,
                };
                nodes.push(head);
                push_shifted(&mut nodes, &src.nodes, 1);
                truncated = truncated || src.truncated;
                cycle_detected = cycle_detected || src.cycle_detected;
            },
        }
        let mut roots: Vec<usize> = Vec::new();
        roots.push(0);
        Self { nodes, roots, truncated, cycle_detected }
    }

    /// A chain whose single root carries `message` and `error_type`, caused by `source`.
    pub fn from_borrowed_error(
        message: String,
        error_type: Option<String>,
        source: Option<SourceErrorChain>,
        state: CauseTraversalState,
    ) -> (r: Self)
        requires
            source matches Some(s) ==> arena_fits(s.nodes@, s.roots@, 1) && s.nodes@.len() < usize::MAX,
        ensures
            rooted_chain_parts(
                message,
                error_type,
                Seq::empty(),
                match source { Some(s) => Some(&s), None => None },
                state,
                r,
            ),
    {
        let root = SourceErrorItem { message, error_type, source_roots: Vec::new() };
        match &source {
            Some(s) => Self::build_chain_root(root, Some(s), state),
            None => Self::build_chain_root(root, None, state),
        }
    }

    /// Returns true when the chain has no roots.
    pub fn is_empty(&self) -> (r: bool)
        ensures
            r == (self.roots@.len() == 0),
    {
        self.roots.len() == 0
    }

    /// The ids of the root nodes.
    pub fn roots_slice(&self) -> (r: &[SourceNodeId])
        ensures
            r@ == self.roots@,
    {
        self.roots.as_slice()
    }

    /// The node with the given id, if it exists.
    pub fn node(&self, id: SourceNodeId) -> (r: Option<&SourceErrorItem>)
        ensures
            id < self.nodes@.len() ==> r == Some(&self.nodes@[id as int]),
            id >= self.nodes@.len() ==> r.is_none(),
    {
        if id < self.nodes.len() {
            Some(&self.nodes[id])
        } else {
            None
        }
    }

    /// The node of the first root, if there is a root and it exists.
    pub fn first_error(&self) -> (r: Option<&SourceErrorItem>)
        ensures
            self.roots@.len() == 0 ==> r.is_none(),
            self.roots@.len() > 0 ==> r == (if self.roots@[0] < self.nodes@.len() {
                Some(&self.nodes@[self.roots@[0] as int])
            } else {
                None
            }),
    {
        if self.roots.len() == 0 {
            return None;
        }
        self.node(self.roots[0])
    }

    /// Clears the cycle flag.
    pub fn clear_cycle_flags(&mut self)
        ensures
            final(self).nodes == old(self).nodes,
            final(self).roots == old(self).roots,
            final(self).truncated == old(self).truncated,
            !final(self).cycle_detected,
    {
        self.cycle_detected = false;
    }

    /// An iterator over the nodes of the root ids, in root order.
    pub fn iter(&self) -> (it: SourceErrorItemIter<'_>)
        ensures
            it.chain == self,
            it.index == 0,
    {
        SourceErrorItemIter { chain: self, index: 0 }
    }
}

/// Iterator over root-level source error items.
pub struct SourceErrorItemIter<'a> {
    /// The chain walked.
    pub chain: &'a SourceErrorChain,
    /// Position in the chain's roots.
    pub index: usize,
}

impl<'a> SourceErrorItemIter<'a> {
    /// The node of the next root; stops at the end of the roots or at a root
    /// whose node does not exist.
    pub fn next(&mut self) -> (r: Option<&'a SourceErrorItem>)
        ensures
            final(self).chain == old(self).chain,
            old(self).index >= old(self).chain.roots@.len() ==> r.is_none() && final(self).index == old(self).index,
            old(self).index < old(self).chain.roots@.len() ==> {
                let id = old(self).chain.roots@[old(self).index as int];
                &&& final(self).index == old(self).index + 1
                &&& r == (if id < old(self).chain.nodes@.len() {
                    Some(&old(self).chain.nodes@[id as int])
                } else {
                    None
                })
            },
    {
        if self.index >= self.chain.roots.len() {
            return None;
        }
        let id = self.chain.roots[self.index];
        self.index = self.index + 1;
        self.chain.node(id)
    }
}

/// Position-by-position map from old ids to their place in `order` (the last
/// place, when an id appears more than once).
pub open spec fn remap_spec(order: Seq<usize>, len: nat) -> Seq<Option<usize>>
    decreases order.len(),
{
    if order.len() == 0 {
        Seq::new(len, |i: int| None)
    } else {
        let prev = remap_spec(order.drop_last(), len);
        let last = order.last();
        if last < len {
            prev.update(last as int, Some((order.len() - 1) as usize))
        } else {
            prev
        }
    }
}

/// Maps every old id to its new position given by `order`.
pub fn remap_order(order: &[usize], len: usize) -> (remap: Vec<Option<usize>>)
    requires
        forall|i: int| 0 <= i < order@.len() ==> order@[i] < len,
    ensures
        remap@ == remap_spec(order@, len as nat),
        remap@.len() == len,
{
    let mut remap: Vec<Option<usize>> = Vec::new();
    let mut k: usize = 0;
    while k < len
        invariant
            k <= len,
            remap@ == Seq::new(k as nat, |i: int| None::<usize>),
        decreases len - k,
    {
        remap.push(None);
        proof {
            assert(remap@ =~= Seq::new((k + 1) as nat, |i: int| None::<usize>));
        }
        k = k + 1;
    }
    proof {
        assert(order@.subrange(0, 0) =~= Seq::<usize>::empty());
        assert(remap@ =~= remap_spec(order@.subrange(0, 0), len as nat));
    }
    let n = order.len();
    let mut new_id: usize = 0;
    while new_id < n
        invariant
            n == order@.len(),
            new_id <= n,
            forall|i: int| 0 <= i < order@.len() ==> order@[i] < len,
            remap@ == remap_spec(order@.subrange(0, new_id as int), len as nat),
            remap@.len() == len,
        decreases n - new_id,
    {
        let old_id = order[new_id];
        proof {
            let s = order@.subrange(0, new_id + 1);
            assert(s.drop_last() =~= order@.subrange(0, new_id as int));
            assert(s.last() == old_id);
            assert(remap_spec(order@.subrange(0, new_id as int), len as nat).len() == len) by {
                lemma_remap_len(order@.subrange(0, new_id as int), len as nat);
            }
        }
        remap.set(old_id, Some(new_id));
        new_id = new_id + 1;
    }
    assert(order@.subrange(0, n as int) =~= order@);
    remap
}

proof fn lemma_remap_len(order: Seq<usize>, len: nat)
    ensures
        remap_spec(order, len).len() == len,
    decreases order.len(),
{
    if order.len() > 0 {
        lemma_remap_len(order.drop_last(), len);
    }
}

/// Display causes captured for a report: the text of each cause in order,
/// and whether their collection was cut short or met a cycle.
#[derive(Debug, Default)]
pub struct DisplayCauseChain {
    pub items: Vec<String>,
    pub truncated: bool,
    pub cycle_detected: bool,
}

} // verus!
