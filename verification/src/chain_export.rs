//! Exporting a source-error arena as a dense, renumbered copy of the part that
//! can be reached from its roots.

use vstd::prelude::*;
use crate::source_chain::{SourceErrorChain, SourceErrorItem, clone_opt_string};
use crate::text::str_eq;
use crate::value_view::opt_view;
use vstd::std_specs::cmp::PartialEqSpecImpl;

verus! {

/// A node of an exported chain.
#[derive(Debug)]
pub struct ExportedSourceErrorNode {
    pub message: String,
    pub error_type: Option<String>,
    pub source_roots: Vec<usize>,
}

/// A renumbered, dense copy of the reachable part of a chain.
#[derive(Debug)]
pub struct ExportedSourceErrorChain {
    pub roots: Vec<usize>,
    pub nodes: Vec<ExportedSourceErrorNode>,
    pub truncated: bool,
    pub cycle_detected: bool,
}

/// The new ids of those of `ids` that have one, in order.
pub open spec fn filter_remap(ids: Seq<usize>, remap: Seq<Option<usize>>) -> Seq<usize>
    decreases ids.len(),
{
    if ids.len() == 0 {
        Seq::empty()
    } else {
        let prev = filter_remap(ids.drop_last(), remap);
        let x = ids.last();
        if x < remap.len() && remap[x as int] is Some {
            prev.push(remap[x as int]->0)
        } else {
            prev
        }
    }
}

/// The map from old ids to positions in `order` (which holds distinct ids).
pub open spec fn order_remap(order: Seq<usize>, len: nat) -> Seq<Option<usize>> {
    Seq::new(
        len,
        |x: int|
            if exists|k: int| 0 <= k < order.len() && order[k] == x {
                Some((choose|k: int| 0 <= k < order.len() && order[k] == x) as usize)
            } else {
                None
            },
    )
}

/// Whether `order` lists distinct valid ids of an arena of `len` nodes.
pub open spec fn valid_order(order: Seq<usize>, len: nat) -> bool {
    &&& forall|k: int| 0 <= k < order.len() ==> order[k] < len
    &&& forall|i: int, j: int| 0 <= i < order.len() && 0 <= j < order.len() && i != j ==> order[i] != order[j]
}

/// `ids` are all either outside the arena or listed in `order`.
pub open spec fn covered(ids: Seq<usize>, order: Seq<usize>, len: nat) -> bool {
    forall|k: int| 0 <= k < ids.len() ==> ids[k] >= len || order.contains(#[trigger] ids[k])
}

/// `p` is a path of the chain: it starts at a root and each next node is a
/// source of the one before it.
pub open spec fn source_path(chain: SourceErrorChain, p: Seq<usize>) -> bool {
    &&& p.len() > 0
    &&& chain.roots@.contains(p[0])
    &&& forall|i: int| 0 <= i < p.len() - 1 ==> #[trigger] p[i] < chain.nodes@.len()
        && chain.nodes@[p[i] as int].source_roots@.contains(p[i + 1])
}

/// Node `x` can be reached from a root of the chain by following sources.
pub open spec fn reachable(chain: SourceErrorChain, x: usize) -> bool {
    exists|p: Seq<usize>| #[trigger] source_path(chain, p) && p.last() == x
}

proof fn lemma_root_reachable(chain: SourceErrorChain, j: int)
    requires
        0 <= j < chain.roots@.len(),
    ensures
        reachable(chain, chain.roots@[j]),
{
    let p = seq![chain.roots@[j]];
    assert(chain.roots@.contains(p[0]));
    assert(source_path(chain, p) && p.last() == chain.roots@[j]);
}

proof fn lemma_source_reachable(chain: SourceErrorChain, x: usize, c: int)
    requires
        reachable(chain, x),
        x < chain.nodes@.len(),
        0 <= c < chain.nodes@[x as int].source_roots@.len(),
    ensures
        reachable(chain, chain.nodes@[x as int].source_roots@[c]),
{
    let p = choose|p: Seq<usize>| source_path(chain, p) && p.last() == x;
    let y = chain.nodes@[x as int].source_roots@[c];
    let q = p.push(y);
    assert(chain.nodes@[x as int].source_roots@.contains(y));
    assert forall|i: int| 0 <= i < q.len() - 1 implies #[trigger] q[i] < chain.nodes@.len()
        && chain.nodes@[q[i] as int].source_roots@.contains(q[i + 1]) by {
        if i < p.len() - 1 {
            assert(q[i] == p[i] && q[i + 1] == p[i + 1]);
        } else {
            assert(q[i] == x && q[i + 1] == y);
        }
    }
    assert(source_path(chain, q) && q.last() == y);
}

/// Whether `seen` holds the id `v`.
pub open spec fn seen_has(seen: Seq<usize>, v: int) -> bool {
    exists|k: int| 0 <= k < seen.len() && seen[k] as int == v
}

/// How many of the ids below `n` are not in `seen`.
pub open spec fn unseen(n: nat, seen: Seq<usize>) -> nat
    decreases n,
{
    if n == 0 {
        0
    } else {
        unseen((n - 1) as nat, seen) + if seen_has(seen, n - 1) { 0nat } else { 1nat }
    }
}

/// Seeing a new id below `n` leaves one fewer unseen.
pub proof fn lemma_unseen_push(n: nat, seen: Seq<usize>, x: usize)
    requires
        x < n,
        !seen.contains(x),
    ensures
        unseen(n, seen.push(x)) + 1 == unseen(n, seen),
    decreases n,
{
    let m = (n - 1) as nat;
    let t = seen.push(x);
    assert(seen_has(t, x as int)) by {
        assert(t[seen.len() as int] == x);
    }
    assert(!seen_has(seen, x as int)) by {
        if seen_has(seen, x as int) {
            let k = choose|k: int| 0 <= k < seen.len() && seen[k] as int == x as int;
            assert(seen[k] == x);
        }
    }
    if m != x {
        lemma_has_push(seen, x, m as int);
        lemma_unseen_push(m, seen, x);
    } else {
        lemma_unseen_same(m, seen, x);
    }
}

proof fn lemma_has_push(seen: Seq<usize>, x: usize, v: int)
    requires
        v != x,
    ensures
        seen_has(seen.push(x), v) == seen_has(seen, v),
{
    let t = seen.push(x);
    if seen_has(t, v) {
        let k = choose|k: int| 0 <= k < t.len() && t[k] as int == v;
        assert(k < seen.len());
        assert(seen[k] == t[k]);
    }
    if seen_has(seen, v) {
        let k = choose|k: int| 0 <= k < seen.len() && seen[k] as int == v;
        assert(t[k] == seen[k]);
    }
}

/// Seeing an id at or above `n` changes nothing below `n`.
pub proof fn lemma_unseen_same(n: nat, seen: Seq<usize>, x: usize)
    requires
        n <= x,
    ensures
        unseen(n, seen.push(x)) == unseen(n, seen),
    decreases n,
{
    if n > 0 {
        lemma_has_push(seen, x, n - 1);
        lemma_unseen_same((n - 1) as nat, seen, x);
    }
}

/// The nodes met by a depth-first walk that takes ids from the front of
/// `todo`: an id outside the arena or already in `seen` is passed over,
/// any other is added to `seen` and its sources, in order, go in front of
/// the rest.
pub open spec fn dfs_order(chain: SourceErrorChain, todo: Seq<usize>, seen: Seq<usize>) -> Seq<usize>
    decreases unseen(chain.nodes@.len(), seen), todo.len(),
{
    if todo.len() == 0 {
        seen
    } else {
        let x = todo[0];
        if x >= chain.nodes@.len() || seen.contains(x) {
            dfs_order(chain, todo.drop_first(), seen)
        } else {
            proof {
                lemma_unseen_push(chain.nodes@.len(), seen, x);
            }
            dfs_order(chain, chain.nodes@[x as int].source_roots@ + todo.drop_first(), seen.push(x))
        }
    }
}

/// A sequence back to front.
pub open spec fn rev(s: Seq<usize>) -> Seq<usize> {
    Seq::new(s.len(), |i: int| s[s.len() - 1 - i])
}

proof fn lemma_rev_push(s: Seq<usize>, x: usize)
    ensures
        rev(s.push(x)) == seq![x] + rev(s),
{
    assert(rev(s.push(x)) =~= seq![x] + rev(s));
}

/// The order in which an export lists nodes: depth first from the roots in
/// order, each node before its sources, the sources in order, each node at
/// its first meeting.
pub open spec fn export_order(chain: SourceErrorChain) -> Seq<usize> {
    dfs_order(chain, chain.roots@, Seq::empty())
}

/// Whether `out` exports `chain` with the nodes listed in `order`: `order`
/// lists distinct nodes, each reachable from a root, and every node that a
/// root or a listed node leads to is listed, so the listed nodes are exactly
/// the reachable ones; roots and sources are renumbered by position in
/// `order`, dropping ids outside the arena.
pub open spec fn exported_as(
    chain: SourceErrorChain,
    out: ExportedSourceErrorChain,
    order: Seq<usize>,
    hide_report_wrapper_types: bool,
    report_type_label: Seq<char>,
) -> bool {
    let len = chain.nodes@.len();
    let remap = order_remap(order, len);
    &&& valid_order(order, len)
    &&& forall|k: int| 0 <= k < order.len() ==> reachable(chain, #[trigger] order[k])
    &&& covered(chain.roots@, order, len)
    &&& forall|k: int| 0 <= k < order.len() ==> covered(chain.nodes@[#[trigger] order[k] as int].source_roots@, order, len)
    &&& out.nodes@.len() == order.len()
    &&& out.roots@ == filter_remap(chain.roots@, remap)
    &&& out.truncated == chain.truncated
    &&& out.cycle_detected == chain.cycle_detected
    &&& forall|k: int| 0 <= k < order.len() ==> {
        let item = chain.nodes@[order[k] as int];
        &&& (#[trigger] out.nodes@[k]).message == item.message
        &&& out.nodes@[k].error_type == item.spec_display_error_type(hide_report_wrapper_types, report_type_label)
        &&& out.nodes@[k].source_roots@ == filter_remap(item.source_roots@, remap)
    }
}

/// Every id of the export points into the exported nodes.
pub open spec fn dense(out: ExportedSourceErrorChain) -> bool {
    &&& forall|i: int| 0 <= i < out.roots@.len() ==> #[trigger] out.roots@[i] < out.nodes@.len()
    &&& forall|k: int, i: int| 0 <= k < out.nodes@.len() && 0 <= i < out.nodes@[k].source_roots@.len()
        ==> #[trigger] out.nodes@[k].source_roots@[i] < out.nodes@.len()
}

spec fn count_none(s: Seq<Option<usize>>) -> nat
    decreases s.len(),
{
    if s.len() == 0 {
        0
    } else {
        count_none(s.drop_last()) + if s.last() is None { 1nat } else { 0nat }
    }
}

proof fn lemma_count_none_update(s: Seq<Option<usize>>, i: int, v: usize)
    requires
        0 <= i < s.len(),
        s[i] is None,
    ensures
        count_none(s.update(i, Some(v))) + 1 == count_none(s),
    decreases s.len(),
{
    let t = s.update(i, Some(v));
    if i == s.len() - 1 {
        assert(t.drop_last() =~= s.drop_last());
    } else {
        assert(t.drop_last() =~= s.drop_last().update(i, Some(v)));
        lemma_count_none_update(s.drop_last(), i, v);
    }
}

#[verifier::spinoff_prover]
proof fn lemma_filter_remap_bounded(ids: Seq<usize>, remap: Seq<Option<usize>>, bound: nat)
    requires
        forall|x: int| 0 <= x < remap.len() && remap[x] is Some ==> #[trigger] remap[x]->0 < bound,
    ensures
        forall|i: int| 0 <= i < filter_remap(ids, remap).len() ==> #[trigger] filter_remap(ids, remap)[i] < bound,
    decreases ids.len(),
{
    if ids.len() > 0 {
        lemma_filter_remap_bounded(ids.drop_last(), remap, bound);
        let x = ids.last();
        if x < remap.len() && remap[x as int] is Some {
            assert(remap[x as int]->0 < bound);
            let f = filter_remap(ids, remap);
            let p = filter_remap(ids.drop_last(), remap);
            assert(f == p.push(remap[x as int]->0));
            assert forall|i: int| 0 <= i < f.len() implies #[trigger] f[i] < bound by {
                if i < p.len() {
                    assert(f[i] == p[i]);
                }
            }
        }
    }
}

/// The new ids, in order, of those of `ids` that were kept.
fn filter_remap_exec(ids: &Vec<usize>, remap: &Vec<Option<usize>>) -> (r: Vec<usize>)
    ensures
        r@ == filter_remap(ids@, remap@),
{
    let mut out: Vec<usize> = Vec::new();
    let n = ids.len();
    let mut i: usize = 0;
    while i < n
        invariant
            n == ids@.len(),
            i <= n,
            out@ == filter_remap(ids@.subrange(0, i as int), remap@),
        decreases n - i,
    {
        let x = ids[i];
        proof {
            assert(ids@.subrange(0, i + 1).drop_last() =~= ids@.subrange(0, i as int));
            assert(ids@.subrange(0, i + 1).last() == x);
        }
        if x < remap.len() {
            match remap[x] {
                Some(v) => {
                    out.push(v);
                },
                None => {},
            }
        }
        i = i + 1;
    }
    assert(ids@.subrange(0, n as int) =~= ids@);
    out
}

proof fn lemma_remap_matches(order: Seq<usize>, remap: Seq<Option<usize>>, len: nat)
    requires
        remap.len() == len,
        len <= usize::MAX,
        valid_order(order, len),
        forall|k: int| 0 <= k < order.len() ==> remap[#[trigger] order[k] as int] == Some(k as usize),
        forall|x: int| 0 <= x < len && #[trigger] remap[x] is Some ==> order.contains(x as usize),
    ensures
        remap == order_remap(order, len),
{
    assert forall|x: int| 0 <= x < len implies #[trigger] remap[x] == order_remap(order, len)[x] by {
        if exists|k: int| 0 <= k < order.len() && order[k] == x {
            let k = choose|k: int| 0 <= k < order.len() && order[k] == x;
            assert(remap[order[k] as int] == Some(k as usize));
        } else {
            if remap[x] is Some {
                let xu = x as usize;
                assert(xu as int == x);
                assert(order.contains(xu));
                let k = choose|k: int| 0 <= k < order.len() && order[k] == xu;
                assert(order[k] == xu);
                assert(order[k] == x);
                assert(false);
            }
        }
    }
    assert(remap =~= order_remap(order, len));
}

impl SourceErrorChain {

    /// The nodes that a walk from the roots meets, in order (each node before
    /// its sources, the sources in order, each node at its first meeting),
    /// and each node's position in that order.
    fn walk_order(&self) -> (r: (Vec<usize>, Vec<Option<usize>>))
        ensures
            r.0@ == export_order(*self),
            r.1@.len() == self.nodes@.len(),
            valid_order(r.0@, self.nodes@.len()),
            forall|k: int| 0 <= k < r.0@.len() ==> reachable(*self, #[trigger] r.0@[k]),
            forall|k: int| 0 <= k < r.0@.len() ==> r.1@[#[trigger] r.0@[k] as int] == Some(k as usize),
            forall|x: int| 0 <= x < self.nodes@.len() && #[trigger] r.1@[x] is Some ==> r.0@.contains(x as usize),
            covered(self.roots@, r.0@, self.nodes@.len()),
            forall|k: int| 0 <= k < r.0@.len() ==> covered(self.nodes@[#[trigger] r.0@[k] as int].source_roots@, r.0@, self.nodes@.len()),
    {
        let len = self.nodes.len();
        let mut remap: Vec<Option<usize>> = Vec::new();
        let mut z: usize = 0;
        while z < len
            invariant
                z <= len,
                remap@.len() == z,
                forall|x: int| 0 <= x < z ==> remap@[x] is None,
            decreases len - z,
        {
            remap.push(None);
            z = z + 1;
        }
        let mut ids: Vec<usize> = Vec::new();
        let mut stack: Vec<usize> = Vec::new();
        let nr = self.roots.len();
        let mut r: usize = nr;
        while r > 0
            invariant
                nr == self.roots@.len(),
                r <= nr,
                stack@.len() == nr - r,
                forall|j: int| r <= j < nr ==> stack@.contains(#[trigger] self.roots@[j]),
                forall|t: int| 0 <= t < stack@.len() ==> reachable(*self, #[trigger] stack@[t]),
                rev(stack@) == self.roots@.subrange(r as int, nr as int),
            decreases r,
        {
            r = r - 1;
            let ghost prev_stack = stack@;
            stack.push(self.roots[r]);
            proof {
                lemma_rev_push(prev_stack, self.roots@[r as int]);
                assert(self.roots@.subrange(r as int, nr as int) =~= seq![self.roots@[r as int]] + self.roots@.subrange(r + 1, nr as int));
                lemma_root_reachable(*self, r as int);
                assert forall|t: int| 0 <= t < stack@.len() implies reachable(*self, #[trigger] stack@[t]) by {
                    if t < prev_stack.len() {
                        assert(stack@[t] == prev_stack[t]);
                    }
                }
                assert(stack@.drop_last() =~= prev_stack);
                assert(stack@[stack@.len() - 1] == self.roots@[r as int]);
                assert forall|j: int| r <= j < nr implies stack@.contains(#[trigger] self.roots@[j]) by {
                    if j > r {
                        let q = self.roots@[j];
                        assert(stack@.drop_last().contains(q));
                        let t = choose|t: int| 0 <= t < stack@.drop_last().len() && stack@.drop_last()[t] == q;
                        assert(stack@[t] == q);
                    }
                }
            }
        }
        proof {
            assert(self.roots@.subrange(0, nr as int) =~= self.roots@);
            assert(ids@ =~= Seq::<usize>::empty());
        }
        while stack.len() > 0
            invariant
                len == self.nodes@.len(),
                remap@.len() == len,
                valid_order(ids@, len as nat),
                forall|t: int| 0 <= t < stack@.len() ==> reachable(*self, #[trigger] stack@[t]),
                forall|k: int| 0 <= k < ids@.len() ==> reachable(*self, #[trigger] ids@[k]),
                dfs_order(*self, rev(stack@), ids@) == export_order(*self),
                forall|k: int| 0 <= k < ids@.len() ==> remap@[#[trigger] ids@[k] as int] == Some(k as usize),
                forall|x: int| 0 <= x < len && #[trigger] remap@[x] is Some ==> ids@.contains(x as usize),
                forall|j: int| 0 <= j < self.roots@.len() ==> self.roots@[j] >= len || ids@.contains(
                    #[trigger] self.roots@[j],
                ) || stack@.contains(self.roots@[j]),
                forall|k: int, c: int| 0 <= k < ids@.len() && 0 <= c < self.nodes@[ids@[k] as int].source_roots@.len() ==>
                    #[trigger] self.nodes@[ids@[k] as int].source_roots@[c] >= len || ids@.contains(self.nodes@[ids@[k] as int].source_roots@[c])
                    || stack@.contains(self.nodes@[ids@[k] as int].source_roots@[c]),
            decreases count_none(remap@), stack@.len(),
        {
            let ghost before = stack@;
            let id = match stack.pop() {
                Some(v) => v,
                None => 0,
            };
            proof {
                assert(before.drop_last() =~= stack@);
                assert(before.last() == id);
                lemma_rev_push(stack@, id);
                assert(before == stack@.push(id));
                assert(rev(before)[0] == id);
                assert(rev(before).drop_first() =~= rev(stack@));
                assert(reachable(*self, before[before.len() - 1]));
                assert forall|t: int| 0 <= t < stack@.len() implies reachable(*self, #[trigger] stack@[t]) by {
                    assert(stack@[t] == before[t]);
                }
                assert forall|q: usize| before.contains(q) implies stack@.contains(q) || q == id by {
                    let t = choose|t: int| 0 <= t < before.len() && before[t] == q;
                    if t < before.len() - 1 {
                        assert(stack@[t] == q);
                    }
                }
            }
            if id >= len {
                continue;
            }
            if remap[id].is_some() {
                proof {
                    assert(ids@.contains(id));
                }
                continue;
            }
            let ghost prev_ids = ids@;
            let ghost prev_remap = remap@;
            let ghost mid_stack = stack@;
            proof {
                lemma_count_none_update(remap@, id as int, ids@.len() as usize);
                assert(!ids@.contains(id)) by {
                    if ids@.contains(id) {
                        let k = choose|k: int| 0 <= k < ids@.len() && ids@[k] == id;
                        assert(remap@[ids@[k] as int] == Some(k as usize));
                    }
                }
            }
            remap.set(id, Some(ids.len()));
            ids.push(id);
            proof {
                assert forall|q: usize| #[trigger] ids@.contains(q) <==> (prev_ids.contains(q) || q == id) by {
                    if ids@.contains(q) {
                        let t = choose|t: int| 0 <= t < ids@.len() && ids@[t] == q;
                        if t < prev_ids.len() {
                            assert(prev_ids[t] == q);
                        }
                    }
                    if prev_ids.contains(q) {
                        let t = choose|t: int| 0 <= t < prev_ids.len() && prev_ids[t] == q;
                        assert(ids@[t] == q);
                    }
                    if q == id {
                        assert(ids@[ids@.len() - 1] == q);
                    }
                }
            }
            let kids = &self.nodes[id].source_roots;
            let nk = kids.len();
            let mut c: usize = nk;
            proof {
                assert(rev(stack@) =~= kids@.subrange(nk as int, nk as int) + rev(mid_stack));
            }
            while c > 0
                invariant
                    nk == kids@.len(),
                    kids@ == self.nodes@[id as int].source_roots@,
                    c <= nk,
                    stack@.len() == mid_stack.len() + (nk - c),
                    forall|t: int| 0 <= t < mid_stack.len() ==> #[trigger] stack@[t] == mid_stack[t],
                    forall|j: int| c <= j < nk ==> stack@.contains(#[trigger] kids@[j]),
                    reachable(*self, id),
                    id < self.nodes@.len(),
                    forall|t: int| 0 <= t < stack@.len() ==> reachable(*self, #[trigger] stack@[t]),
                    rev(stack@) == kids@.subrange(c as int, nk as int) + rev(mid_stack),
                decreases c,
            {
                c = c - 1;
                let ghost prev_stack = stack@;
                stack.push(kids[c]);
                proof {
                    lemma_rev_push(prev_stack, kids@[c as int]);
                    assert(kids@.subrange(c as int, nk as int) =~= seq![kids@[c as int]] + kids@.subrange(c + 1, nk as int));
                    assert(rev(stack@) =~= kids@.subrange(c as int, nk as int) + rev(mid_stack));
                    lemma_source_reachable(*self, id, c as int);
                    assert forall|t: int| 0 <= t < stack@.len() implies reachable(*self, #[trigger] stack@[t]) by {
                        if t < prev_stack.len() {
                            assert(stack@[t] == prev_stack[t]);
                        }
                    }
                    assert(stack@.drop_last() =~= prev_stack);
                    assert(stack@[stack@.len() - 1] == kids@[c as int]);
                    assert forall|j: int| c <= j < nk implies stack@.contains(#[trigger] kids@[j]) by {
                        if j > c {
                            let q = kids@[j];
                            assert(stack@.drop_last().contains(q));
                            let t = choose|t: int| 0 <= t < stack@.drop_last().len() && stack@.drop_last()[t] == q;
                            assert(stack@[t] == q);
                        }
                    }
                }
            }
            proof {
                assert(kids@.subrange(0, nk as int) =~= kids@);
                assert(!prev_ids.contains(id));
                assert(dfs_order(*self, rev(before), prev_ids)
                    == dfs_order(*self, self.nodes@[id as int].source_roots@ + rev(before).drop_first(), prev_ids.push(id)));
                assert(rev(before).drop_first() =~= rev(mid_stack));
                assert(ids@ == prev_ids.push(id));
                assert forall|q: usize| mid_stack.contains(q) implies #[trigger] stack@.contains(q) by {
                    let t = choose|t: int| 0 <= t < mid_stack.len() && mid_stack[t] == q;
                    assert(stack@[t] == q);
                }
                assert(valid_order(ids@, len as nat)) by {
                    assert forall|i: int, j: int| 0 <= i < ids@.len() && 0 <= j < ids@.len() && i != j implies ids@[i] != ids@[j] by {
                        if i < prev_ids.len() && j < prev_ids.len() {
                            assert(ids@[i] == prev_ids[i] && ids@[j] == prev_ids[j]);
                        } else if i < prev_ids.len() {
                            assert(prev_ids.contains(ids@[i]));
                        } else if j < prev_ids.len() {
                            assert(prev_ids.contains(ids@[j]));
                        }
                    }
                }
                assert forall|k: int| 0 <= k < ids@.len() implies remap@[#[trigger] ids@[k] as int] == Some(k as usize) by {
                    if k < prev_ids.len() {
                        assert(ids@[k] == prev_ids[k]);
                        assert(prev_ids[k] != id) by {
                            assert(prev_ids.contains(prev_ids[k]));
                        }
                    }
                }
                assert forall|x: int| 0 <= x < len && #[trigger] remap@[x] is Some implies ids@.contains(x as usize) by {
                    if x != id {
                        assert(prev_remap[x] is Some);
                        assert(prev_ids.contains(x as usize));
                    }
                }
                assert forall|j: int| 0 <= j < self.roots@.len() implies self.roots@[j] >= len || ids@.contains(
                    #[trigger] self.roots@[j],
                ) || stack@.contains(self.roots@[j]) by {
                    let q = self.roots@[j];
                    if q < len && !ids@.contains(q) {
                        assert(!prev_ids.contains(q));
                        assert(before.contains(q));
                        assert(mid_stack.contains(q));
                    }
                }
                assert forall|k: int, c: int| 0 <= k < ids@.len() && 0 <= c < self.nodes@[ids@[k] as int].source_roots@.len() implies
                    #[trigger] self.nodes@[ids@[k] as int].source_roots@[c] >= len || ids@.contains(self.nodes@[ids@[k] as int].source_roots@[c])
                    || stack@.contains(self.nodes@[ids@[k] as int].source_roots@[c]) by {
                    let q = self.nodes@[ids@[k] as int].source_roots@[c];
                    if k == prev_ids.len() {
                        assert(ids@[k] == id);
                        assert(stack@.contains(kids@[c]));
                    } else {
                        assert(ids@[k] == prev_ids[k]);
                        if q < len && !ids@.contains(q) {
                            assert(!prev_ids.contains(q));
                            assert(before.contains(q));
                            assert(mid_stack.contains(q));
                        }
                    }
                }
            }
        }
        proof {
            assert(rev(stack@) =~= Seq::<usize>::empty());
            assert(covered(self.roots@, ids@, len as nat));
            assert forall|k: int| 0 <= k < ids@.len() implies covered(self.nodes@[#[trigger] ids@[k] as int].source_roots@, ids@, len as nat) by {
                assert forall|c: int| 0 <= c < self.nodes@[ids@[k] as int].source_roots@.len() implies
                    self.nodes@[ids@[k] as int].source_roots@[c] >= len || ids@.contains(#[trigger] self.nodes@[ids@[k] as int].source_roots@[c]) by {
                    assert(!stack@.contains(self.nodes@[ids@[k] as int].source_roots@[c]));
                }
            }
        }
        (ids, remap)
    }

    /// Exports the part of the arena reachable from the roots, renumbered
    /// densely in visiting order (roots first, then each node's sources depth
    /// first); type names of report wrappers are dropped when asked.
    pub fn export_with_options(&self, hide_report_wrapper_types: bool, report_type_label: &str) -> (out: ExportedSourceErrorChain)
        ensures
            exists|order: Seq<usize>| exported_as(*self, out, order, hide_report_wrapper_types, report_type_label@),
            exported_as(*self, out, export_order(*self), hide_report_wrapper_types, report_type_label@),
            dense(out),
    {
        let len = self.nodes.len();
        let (ids, remap) = self.walk_order();
        proof {
            lemma_remap_matches(ids@, remap@, len as nat);
        }
        let roots = filter_remap_exec(&self.roots, &remap);
        let mut nodes: Vec<ExportedSourceErrorNode> = Vec::new();
        let n = ids.len();
        let mut k: usize = 0;
        while k < n
            invariant
                n == ids@.len(),
                k <= n,
                len == self.nodes@.len(),
                valid_order(ids@, len as nat),
                forall|t: int| 0 <= t < ids@.len() ==> reachable(*self, #[trigger] ids@[t]),
                remap@ == order_remap(ids@, len as nat),
                nodes@.len() == k,
                forall|t: int| 0 <= t < k ==> {
                    let item = self.nodes@[ids@[t] as int];
                    &&& (#[trigger] nodes@[t]).message == item.message
                    &&& nodes@[t].error_type == item.spec_display_error_type(hide_report_wrapper_types, report_type_label@)
                    &&& nodes@[t].source_roots@ == filter_remap(item.source_roots@, remap@)
                },
            decreases n - k,
        {
            let item = &self.nodes[ids[k]];
            let node = ExportedSourceErrorNode {
                message: item.message.clone(),
                error_type: item.display_error_type(hide_report_wrapper_types, report_type_label),
                source_roots: filter_remap_exec(&item.source_roots, &remap),
            };
            nodes.push(node);
            k = k + 1;
        }
        let out = ExportedSourceErrorChain {
            roots,
            nodes,
            truncated: self.truncated,
            cycle_detected: self.cycle_detected,
        };
        proof {
            assert forall|x: int| 0 <= x < remap@.len() && remap@[x] is Some implies #[trigger] remap@[x]->0 < n by {
                let k = choose|k: int| 0 <= k < ids@.len() && ids@[k] == x;
            }
            lemma_filter_remap_bounded(self.roots@, remap@, n as nat);
            assert forall|k: int, i: int| 0 <= k < out.nodes@.len() && 0 <= i < out.nodes@[k].source_roots@.len()
                implies #[trigger] out.nodes@[k].source_roots@[i] < out.nodes@.len() by {
                lemma_filter_remap_bounded(self.nodes@[ids@[k] as int].source_roots@, remap@, n as nat);
            }
            assert(exported_as(*self, out, ids@, hide_report_wrapper_types, report_type_label@));
            assert(ids@ == export_order(*self));
        }
        out
    }
}

/// A node of a chain in normal form.
#[derive(Debug)]
pub struct NormalizedNode {
    pub message: String,
    pub error_type: Option<String>,
    pub source_roots: Vec<Option<usize>>,
}

/// A chain renumbered in a canonical order, so that two chains that differ
/// only in how their arenas are laid out have the same normal form.
#[derive(Debug)]
pub struct NormalizedChain {
    pub roots: Vec<Option<usize>>,
    pub nodes: Vec<NormalizedNode>,
    pub truncated: bool,
    pub cycle_detected: bool,
}

/// What a normalized node holds, as plain values.
pub type NormalNodeView = (Seq<char>, Option<Seq<char>>, Seq<Option<usize>>);

/// What a normalized chain holds, as plain values.
pub type NormalChainView = (Seq<Option<usize>>, Seq<NormalNodeView>, bool, bool);

/// The plain values of a normalized node.
pub open spec fn normalized_node_view(n: NormalizedNode) -> NormalNodeView {
    (n.message@, opt_view(n.error_type), n.source_roots@)
}

/// The plain values of a normalized chain.
pub open spec fn normalized_view(n: NormalizedChain) -> NormalChainView {
    (n.roots@, n.nodes@.map_values(|m: NormalizedNode| normalized_node_view(m)), n.truncated, n.cycle_detected)
}

/// The ids below `n` that `order` does not list, in increasing order.
pub open spec fn unlisted(order: Seq<usize>, n: nat) -> Seq<usize>
    decreases n,
{
    if n == 0 {
        Seq::empty()
    } else {
        let prev = unlisted(order, (n - 1) as nat);
        if order.contains((n - 1) as usize) {
            prev
        } else {
            prev.push((n - 1) as usize)
        }
    }
}

/// The canonical node order: the order of a walk from the roots, then the
/// nodes that the walk never meets, by id.
pub open spec fn normal_order(chain: SourceErrorChain) -> Seq<usize> {
    export_order(chain) + unlisted(export_order(chain), chain.nodes@.len())
}

/// An id in normal form: the position in `order` of the node it names, or
/// nothing for an id outside the arena.
pub open spec fn normal_id(order: Seq<usize>, len: nat, id: usize) -> Option<usize> {
    if id < len {
        order_remap(order, len)[id as int]
    } else {
        None
    }
}

/// A list of ids in normal form.
pub open spec fn normal_ids(ids: Seq<usize>, order: Seq<usize>, len: nat) -> Seq<Option<usize>> {
    ids.map_values(|id: usize| normal_id(order, len, id))
}

/// The normal form of a chain: its nodes in the canonical order, each with
/// its message, its type name and its sources renumbered; its roots
/// renumbered; its flags as they are.
pub open spec fn normal_form(chain: SourceErrorChain) -> NormalChainView {
    let order = normal_order(chain);
    let len = chain.nodes@.len();
    (
        normal_ids(chain.roots@, order, len),
        Seq::new(order.len(), |k: int| {
            let item = chain.nodes@[order[k] as int];
            (item.message@, opt_view(item.error_type), normal_ids(item.source_roots@, order, len))
        }),
        chain.truncated,
        chain.cycle_detected,
    )
}

/// Renumbers ids through `remap`; an id outside it becomes nothing.
fn remap_ids(ids: &Vec<usize>, remap: &Vec<Option<usize>>) -> (r: Vec<Option<usize>>)
    ensures
        r@ == ids@.map_values(|id: usize| if id < remap@.len() { remap@[id as int] } else { None }),
{
    let mut out: Vec<Option<usize>> = Vec::new();
    let n = ids.len();
    let mut i: usize = 0;
    while i < n
        invariant
            n == ids@.len(),
            i <= n,
            out@ == ids@.subrange(0, i as int).map_values(|id: usize| if id < remap@.len() { remap@[id as int] } else { None }),
        decreases n - i,
    {
        let x = ids[i];
        let v = if x < remap.len() { remap[x] } else { None };
        out.push(v);
        proof {
            assert(ids@.subrange(0, i + 1).map_values(|id: usize| if id < remap@.len() { remap@[id as int] } else { None })
                =~= ids@.subrange(0, i as int).map_values(|id: usize| if id < remap@.len() { remap@[id as int] } else { None }).push(v));
        }
        i = i + 1;
    }
    assert(ids@.subrange(0, n as int) =~= ids@);
    out
}

/// Whether two optional strings hold the same text.
fn opt_text_eq(a: &Option<String>, b: &Option<String>) -> (r: bool)
    ensures
        r == (opt_view(*a) == opt_view(*b)),
{
    match (a, b) {
        (Some(x), Some(y)) => str_eq(x.as_str(), y.as_str()),
        (None, None) => true,
        _ => false,
    }
}

/// Whether two lists of optional ids are equal.
fn opt_ids_eq(a: &Vec<Option<usize>>, b: &Vec<Option<usize>>) -> (r: bool)
    ensures
        r == (a@ == b@),
{
    if a.len() != b.len() {
        return false;
    }
    let mut i: usize = 0;
    while i < a.len()
        invariant
            a@.len() == b@.len(),
            i <= a@.len(),
            forall|j: int| 0 <= j < i ==> a@[j] == b@[j],
        decreases a@.len() - i,
    {
        let same = match (a[i], b[i]) {
            (Some(x), Some(y)) => x == y,
            (None, None) => true,
            _ => false,
        };
        if !same {
            return false;
        }
        i = i + 1;
    }
    assert(a@ =~= b@);
    true
}

/// Whether two normalized chains hold the same values.
fn normalized_eq(a: &NormalizedChain, b: &NormalizedChain) -> (r: bool)
    ensures
        r == (normalized_view(*a) == normalized_view(*b)),
{
    if a.truncated != b.truncated || a.cycle_detected != b.cycle_detected {
        return false;
    }
    if !opt_ids_eq(&a.roots, &b.roots) {
        return false;
    }
    if a.nodes.len() != b.nodes.len() {
        assert(normalized_view(*a).1.len() != normalized_view(*b).1.len());
        return false;
    }
    let mut i: usize = 0;
    while i < a.nodes.len()
        invariant
            a.nodes@.len() == b.nodes@.len(),
            i <= a.nodes@.len(),
            forall|j: int| 0 <= j < i ==> normalized_node_view(#[trigger] a.nodes@[j]) == normalized_node_view(b.nodes@[j]),
        decreases a.nodes@.len() - i,
    {
        let x = &a.nodes[i];
        let y = &b.nodes[i];
        let same = str_eq(x.message.as_str(), y.message.as_str()) && opt_text_eq(&x.error_type, &y.error_type)
            && opt_ids_eq(&x.source_roots, &y.source_roots);
        if !same {
            assert(normalized_view(*a).1[i as int] != normalized_view(*b).1[i as int]);
            return false;
        }
        i = i + 1;
    }
    assert(normalized_view(*a).1 =~= normalized_view(*b).1);
    true
}

impl SourceErrorChain {
    /// The chain in normal form: nodes renumbered in the order of a walk from
    /// the roots, then the nodes the walk never meets by id; an id outside
    /// the arena becomes nothing.
    pub fn normalized(&self) -> (n: NormalizedChain)
        ensures
            normalized_view(n) == normal_form(*self),
    {
        let len = self.nodes.len();
        let (mut order, mut remap) = self.walk_order();
        let ghost eo = order@;
        let mut x: usize = 0;
        assert(order@ =~= eo + unlisted(eo, 0));
        while x < len
            invariant
                len == self.nodes@.len(),
                eo == export_order(*self),
                x <= len,
                remap@.len() == len,
                order@ == eo + unlisted(eo, x as nat),
                valid_order(order@, len as nat),
                forall|k: int| 0 <= k < order@.len() ==> remap@[#[trigger] order@[k] as int] == Some(k as usize),
                forall|y: int| 0 <= y < len && #[trigger] remap@[y] is Some ==> order@.contains(y as usize),
                forall|k: int| eo.len() <= k < order@.len() ==> #[trigger] order@[k] < x,
            decreases len - x,
        {
            let ghost prev = order@;
            let ghost prev_remap = remap@;
            if remap[x].is_none() {
                proof {
                    assert(!prev.contains(x)) by {
                        if prev.contains(x) {
                            let k = choose|k: int| 0 <= k < prev.len() && prev[k] == x;
                            assert(remap@[prev[k] as int] == Some(k as usize));
                        }
                    }
                    assert(!eo.contains(x)) by {
                        if eo.contains(x) {
                            let k = choose|k: int| 0 <= k < eo.len() && eo[k] == x;
                            assert(prev[k] == x);
                        }
                    }
                }
                remap.set(x, Some(order.len()));
                order.push(x);
                proof {
                    assert(order@ =~= eo + unlisted(eo, (x + 1) as nat));
                    assert forall|i: int, j: int| 0 <= i < order@.len() && 0 <= j < order@.len() && i != j implies order@[i] != order@[j] by {
                        if i < prev.len() && j < prev.len() {
                            assert(order@[i] == prev[i] && order@[j] == prev[j]);
                        } else if i < prev.len() {
                            assert(prev.contains(order@[i]));
                        } else if j < prev.len() {
                            assert(prev.contains(order@[j]));
                        }
                    }
                    assert forall|k: int| 0 <= k < order@.len() implies remap@[#[trigger] order@[k] as int] == Some(k as usize) by {
                        if k < prev.len() {
                            assert(order@[k] == prev[k]);
                            assert(prev.contains(prev[k]));
                        }
                    }
                    assert forall|y: int| 0 <= y < len && #[trigger] remap@[y] is Some implies order@.contains(y as usize) by {
                        if y == x as int {
                            assert(order@[prev.len() as int] == x);
                        } else {
                            assert(prev_remap[y] is Some);
                            let k = choose|k: int| 0 <= k < prev.len() && prev[k] == y as usize;
                            assert(order@[k] == y as usize);
                        }
                    }
                }
            } else {
                proof {
                    assert(prev.contains(x));
                    let k = choose|k: int| 0 <= k < prev.len() && prev[k] == x;
                    if k >= eo.len() {
                        assert(prev[k] < x);
                    }
                    assert(eo[k] == x);
                    assert(eo.contains(x));
                    assert(order@ =~= eo + unlisted(eo, (x + 1) as nat));
                }
            }
            x = x + 1;
        }
        proof {
            lemma_remap_matches(order@, remap@, len as nat);
            assert(order@ == normal_order(*self));
        }
        let roots = remap_ids(&self.roots, &remap);
        let mut nodes: Vec<NormalizedNode> = Vec::new();
        let n = order.len();
        let mut k: usize = 0;
        while k < n
            invariant
                n == order@.len(),
                k <= n,
                len == self.nodes@.len(),
                valid_order(order@, len as nat),
                remap@ == order_remap(order@, len as nat),
                order@ == normal_order(*self),
                nodes@.len() == k,
                forall|t: int| 0 <= t < k ==> normalized_node_view(#[trigger] nodes@[t]) == normal_form(*self).1[t],
            decreases n - k,
        {
            let item = &self.nodes[order[k]];
            let node = NormalizedNode {
                message: item.message.clone(),
                error_type: clone_opt_string(&item.error_type),
                source_roots: remap_ids(&item.source_roots, &remap),
            };
            proof {
                assert(node.source_roots@ =~= normal_ids(item.source_roots@, order@, len as nat));
            }
            nodes.push(node);
            k = k + 1;
        }
        let out = NormalizedChain { roots, nodes, truncated: self.truncated, cycle_detected: self.cycle_detected };
        proof {
            assert(out.roots@ =~= normal_ids(self.roots@, order@, len as nat));
            assert(normalized_view(out).1 =~= normal_form(*self).1);
        }
        out
    }

    /// Whether two chains are the same chain: their normal forms agree, so
    /// the layout of their arenas does not matter.
    pub fn same_chain(&self, other: &SourceErrorChain) -> (r: bool)
        ensures
            r == (normal_form(*self) == normal_form(*other)),
    {
        let a = self.normalized();
        let b = other.normalized();
        normalized_eq(&a, &b)
    }
}

impl PartialEq for SourceErrorChain {
    fn eq(&self, other: &Self) -> (r: bool) {
        self.same_chain(other)
    }
}

impl PartialEqSpecImpl for SourceErrorChain {
    open spec fn obeys_eq_spec() -> bool {
        true
    }

    open spec fn eq_spec(&self, other: &Self) -> bool {
        normal_form(*self) == normal_form(*other)
    }
}

impl Eq for SourceErrorChain {
}

proof fn lemma_path_listed(
    chain: SourceErrorChain,
    out: ExportedSourceErrorChain,
    order: Seq<usize>,
    hide_report_wrapper_types: bool,
    report_type_label: Seq<char>,
    p: Seq<usize>,
    i: int,
)
    requires
        exported_as(chain, out, order, hide_report_wrapper_types, report_type_label),
        source_path(chain, p),
        0 <= i < p.len(),
        p[i] < chain.nodes@.len(),
    ensures
        order.contains(p[i]),
    decreases i,
{
    let len = chain.nodes@.len();
    if i == 0 {
        let j = choose|j: int| 0 <= j < chain.roots@.len() && chain.roots@[j] == p[0];
        assert(covered(chain.roots@, order, len));
        assert(chain.roots@[j] >= len || order.contains(chain.roots@[j]));
    } else {
        assert(p[i - 1] < len && chain.nodes@[p[i - 1] as int].source_roots@.contains(p[i]));
        lemma_path_listed(chain, out, order, hide_report_wrapper_types, report_type_label, p, i - 1);
        let k = choose|k: int| 0 <= k < order.len() && order[k] == p[i - 1];
        let kids = chain.nodes@[order[k] as int].source_roots@;
        assert(covered(kids, order, len));
        let c = choose|c: int| 0 <= c < kids.len() && kids[c] == p[i];
        assert(kids[c] >= len || order.contains(kids[c]));
    }
}

/// An export keeps exactly the part of the chain that its roots reach: a
/// node of the arena is exported if and only if it is reachable.
pub proof fn law_export_keeps_reachable_nodes(
    chain: SourceErrorChain,
    out: ExportedSourceErrorChain,
    order: Seq<usize>,
    hide_report_wrapper_types: bool,
    report_type_label: Seq<char>,
)
    requires
        exported_as(chain, out, order, hide_report_wrapper_types, report_type_label),
    ensures
        forall|x: usize| x < chain.nodes@.len() ==> (reachable(chain, x) <==> #[trigger] order.contains(x)),
{
    assert forall|x: usize| x < chain.nodes@.len() implies (reachable(chain, x) <==> #[trigger] order.contains(x)) by {
        if reachable(chain, x) {
            let p = choose|p: Seq<usize>| #[trigger] source_path(chain, p) && p.last() == x;
            lemma_path_listed(chain, out, order, hide_report_wrapper_types, report_type_label, p, p.len() - 1);
        }
        if order.contains(x) {
            let k = choose|k: int| 0 <= k < order.len() && order[k] == x;
            assert(reachable(chain, order[k]));
        }
    }
}

} // verus!
