//! Cutting a source-error arena down to a maximum depth.

use vstd::prelude::*;
use crate::types::CauseCollectOptions;
use crate::source_chain::{SourceErrorChain, SourceErrorItem, SourceNodeId};

verus! {

/// Every path that starts at node `id` passes through at most `budget` nodes
/// (an id outside the arena ends a path).
pub open spec fn bounded(nodes: Seq<SourceErrorItem>, id: usize, budget: nat) -> bool
    decreases budget,
{
    if budget == 0 {
        false
    } else if id >= nodes.len() {
        true
    } else {
        forall|k: int|
            0 <= k < nodes[id as int].source_roots@.len() ==> bounded(
                nodes,
                #[trigger] nodes[id as int].source_roots@[k],
                (budget - 1) as nat,
            )
    }
}

/// The nodes of `after` are those of `before`, each keeping or dropping all its sources.
pub open spec fn pruned_from(before: Seq<SourceErrorItem>, after: Seq<SourceErrorItem>) -> bool {
    &&& after.len() == before.len()
    &&& forall|i: int|
        0 <= i < before.len() ==> {
            &&& (#[trigger] after[i]).message == before[i].message
            &&& after[i].error_type == before[i].error_type
            &&& (after[i].source_roots@ == before[i].source_roots@ || after[i].source_roots@.len()
                == 0)
        }
}

/// Some node lost its (non-empty) list of sources.
pub open spec fn some_cleared(before: Seq<SourceErrorItem>, after: Seq<SourceErrorItem>) -> bool {
    exists|i: int|
        0 <= i < before.len() && #[trigger] before[i].source_roots@.len() > 0
            && after[i].source_roots@.len() == 0
}

spec fn power(b: nat, e: nat) -> nat
    decreases e,
{
    if e == 0 {
        1
    } else {
        b * power(b, (e - 1) as nat)
    }
}

proof fn lemma_power_positive(b: nat, e: nat)
    requires
        b > 0,
    ensures
        power(b, e) > 0,
    decreases e,
{
    if e > 0 {
        lemma_power_positive(b, (e - 1) as nat);
        assert(b * power(b, (e - 1) as nat) > 0) by (nonlinear_arith)
            requires
                b > 0,
                power(b, (e - 1) as nat) > 0,
        ;
    }
}

/// Potential of a work stack: deeper entries weigh less.
spec fn potential(stack: Seq<(usize, usize)>, b: nat, max: nat) -> nat
    decreases stack.len(),
{
    if stack.len() == 0 {
        0
    } else {
        potential(stack.drop_last(), b, max) + power(b, (max - stack.last().1) as nat)
    }
}

spec fn max_fanout(nodes: Seq<SourceErrorItem>) -> nat
    decreases nodes.len(),
{
    if nodes.len() == 0 {
        0
    } else {
        let prev = max_fanout(nodes.drop_last());
        let here = nodes.last().source_roots@.len();
        if prev >= here {
            prev
        } else {
            here
        }
    }
}

proof fn lemma_max_fanout(nodes: Seq<SourceErrorItem>)
    ensures
        forall|i: int|
            0 <= i < nodes.len() ==> #[trigger] nodes[i].source_roots@.len() <= max_fanout(nodes),
    decreases nodes.len(),
{
    if nodes.len() > 0 {
        lemma_max_fanout(nodes.drop_last());
        assert(max_fanout(nodes) >= max_fanout(nodes.drop_last()));
        assert(max_fanout(nodes) >= nodes.last().source_roots@.len());
        assert forall|i: int| 0 <= i < nodes.len() implies #[trigger] nodes[i].source_roots@.len()
            <= max_fanout(nodes) by {
            if i < nodes.len() - 1 {
                assert(nodes[i] == nodes.drop_last()[i]);
                assert(nodes.drop_last()[i].source_roots@.len() <= max_fanout(nodes.drop_last()));
            } else {
                assert(nodes[i] == nodes.last());
            }
        }
    }
}

fn contains_pair(v: &Vec<(usize, usize)>, p: (usize, usize)) -> (r: bool)
    ensures
        r == v@.contains(p),
{
    let mut i: usize = 0;
    while i < v.len()
        invariant
            i <= v@.len(),
            forall|j: int| 0 <= j < i ==> v@[j] != p,
        decreases v@.len() - i,
    {
        if v[i].0 == p.0 && v[i].1 == p.1 {
            assert(v@[i as int] == p);
            return true;
        }
        i = i + 1;
    }
    false
}

/// Replaces the sources of node `id` by none.
fn clear_sources(nodes: &mut Vec<SourceErrorItem>, id: usize)
    requires
        id < old(nodes)@.len(),
    ensures
        final(nodes)@.len() == old(nodes)@.len(),
        forall|i: int| 0 <= i < old(nodes)@.len() && i != id ==> #[trigger] final(nodes)@[i] == old(nodes)@[i],
        final(nodes)@[id as int].message == old(nodes)@[id as int].message,
        final(nodes)@[id as int].error_type == old(nodes)@[id as int].error_type,
        final(nodes)@[id as int].source_roots@.len() == 0,
{
    let item = nodes.remove(id);
    let cleared = SourceErrorItem {
        message: item.message,
        error_type: item.error_type,
        source_roots: Vec::new(),
    };
    nodes.insert(id, cleared);
}

/// The sources of the node of entry `p` were all scheduled at the next depth,
/// or it has none, or it lies outside the arena.
spec fn closed_entry(
    nodes: Seq<SourceErrorItem>,
    visited: Seq<(usize, usize)>,
    stack: Seq<(usize, usize)>,
    max: usize,
    p: (usize, usize),
) -> bool {
    p.0 >= nodes.len() || nodes[p.0 as int].source_roots@.len() == 0 || (p.1 + 1 < max && forall|
        k: int,
    |
        0 <= k < nodes[p.0 as int].source_roots@.len() ==> visited.contains(
            (#[trigger] nodes[p.0 as int].source_roots@[k], (p.1 + 1) as usize),
        ) || stack.contains((nodes[p.0 as int].source_roots@[k], (p.1 + 1) as usize)))
}

proof fn lemma_closure_bounded(
    nodes: Seq<SourceErrorItem>,
    visited: Seq<(usize, usize)>,
    max: usize,
    id: usize,
    d: usize,
)
    requires
        visited.contains((id, d)),
        d < max,
        forall|p: (usize, usize)| #[trigger] visited.contains(p) ==> closed_entry(nodes, visited, Seq::empty(), max, p),
    ensures
        bounded(nodes, id, (max - d) as nat),
    decreases max - d,
{
    if id < nodes.len() && nodes[id as int].source_roots@.len() > 0 {
        assert(closed_entry(nodes, visited, Seq::empty(), max, (id, d)));
        assert(d + 1 < max);
        let d1 = (d + 1) as usize;
        assert forall|k: int| 0 <= k < nodes[id as int].source_roots@.len() implies bounded(
            nodes,
            #[trigger] nodes[id as int].source_roots@[k],
            (max - d - 1) as nat,
        ) by {
            let c = nodes[id as int].source_roots@[k];
            assert(!Seq::<(usize, usize)>::empty().contains((c, d1)));
            assert(visited.contains((c, d1)));
            lemma_closure_bounded(nodes, visited, max, c, d1);
        }
    }
}

proof fn lemma_potential_push(stack: Seq<(usize, usize)>, p: (usize, usize), b: nat, max: nat)
    ensures
        potential(stack.push(p), b, max) == potential(stack, b, max) + power(b, (max - p.1) as nat),
{
    assert(stack.push(p).drop_last() =~= stack);
}

/// `p` is a path of the arena from one of `roots`: each next node is a
/// source of the one before it.
pub open spec fn root_path(nodes: Seq<SourceErrorItem>, roots: Seq<usize>, p: Seq<usize>) -> bool {
    &&& p.len() > 0
    &&& roots.contains(p[0])
    &&& forall|i: int| 0 <= i < p.len() - 1 ==> #[trigger] p[i] < nodes.len()
        && nodes[p[i] as int].source_roots@.contains(p[i + 1])
}

/// Node `x` is reached at level `level` from the roots, which sit at level
/// `start`.
pub open spec fn reached_at(nodes: Seq<SourceErrorItem>, roots: Seq<usize>, start: int, x: usize, level: int) -> bool {
    exists|p: Seq<usize>| #[trigger] root_path(nodes, roots, p) && p.last() == x && start + p.len() - 1 == level
}

/// Node `i` is reached at a level whose sources would lie past the limit.
pub open spec fn at_the_limit(nodes: Seq<SourceErrorItem>, roots: Seq<usize>, start: int, max: int, i: int) -> bool {
    exists|level: int| #[trigger] reached_at(nodes, roots, start, i as usize, level) && level + 1 >= max
}

proof fn lemma_root_reached(nodes: Seq<SourceErrorItem>, roots: Seq<usize>, start: int, j: int)
    requires
        0 <= j < roots.len(),
    ensures
        reached_at(nodes, roots, start, roots[j], start),
{
    let p = seq![roots[j]];
    assert(roots.contains(p[0]));
    assert(root_path(nodes, roots, p) && p.last() == roots[j] && start + p.len() - 1 == start);
}

proof fn lemma_source_reached(nodes: Seq<SourceErrorItem>, roots: Seq<usize>, start: int, x: usize, level: int, k: int)
    requires
        reached_at(nodes, roots, start, x, level),
        x < nodes.len(),
        0 <= k < nodes[x as int].source_roots@.len(),
    ensures
        reached_at(nodes, roots, start, nodes[x as int].source_roots@[k], level + 1),
{
    let p = choose|p: Seq<usize>| #[trigger] root_path(nodes, roots, p) && p.last() == x && start + p.len() - 1 == level;
    let c = nodes[x as int].source_roots@[k];
    let q = p.push(c);
    assert(nodes[x as int].source_roots@.contains(c));
    assert forall|i: int| 0 <= i < q.len() - 1 implies #[trigger] q[i] < nodes.len()
        && nodes[q[i] as int].source_roots@.contains(q[i + 1]) by {
        if i < p.len() - 1 {
            assert(q[i] == p[i] && q[i + 1] == p[i + 1]);
        } else {
            assert(q[i] == x && q[i + 1] == c);
        }
    }
    assert(root_path(nodes, roots, q) && q.last() == c && start + q.len() - 1 == level + 1);
}

/// Cuts the arena so that no path from a root, entered at depth `depth`, goes
/// past `options.max_depth`: nodes reached at the last allowed depth lose their
/// sources. Returns whether the chain is (now or already) marked truncated.
pub fn limit_depth_source_chain(
    chain: &mut SourceErrorChain,
    options: CauseCollectOptions,
    depth: usize,
) -> (r: bool)
    ensures
        r == final(chain).truncated,
        depth >= options.max_depth ==> {
            &&& final(chain).roots@.len() == 0
            &&& final(chain).truncated
            &&& final(chain).nodes == old(chain).nodes
            &&& final(chain).cycle_detected == old(chain).cycle_detected
        },
        depth < options.max_depth ==> {
            &&& final(chain).roots == old(chain).roots
            &&& final(chain).cycle_detected == old(chain).cycle_detected
            &&& pruned_from(old(chain).nodes@, final(chain).nodes@)
            &&& final(chain).truncated == (old(chain).truncated || some_cleared(
                old(chain).nodes@,
                final(chain).nodes@,
            ))
            &&& forall|i: int| 0 <= i < old(chain).nodes@.len()
                && #[trigger] final(chain).nodes@[i].source_roots@ != old(chain).nodes@[i].source_roots@
                ==> at_the_limit(old(chain).nodes@, old(chain).roots@, depth as int, options.max_depth as int, i)
            &&& forall|i: int|
                0 <= i < final(chain).roots@.len() ==> bounded(
                    final(chain).nodes@,
                    #[trigger] final(chain).roots@[i],
                    (options.max_depth - depth) as nat,
                )
        },
{
    if depth >= options.max_depth {
        chain.roots = Vec::new();
        chain.truncated = true;
        return true;
    }
    let max = options.max_depth;
    let ghost orig = chain.nodes@;
    let ghost b: nat = max_fanout(orig) + 1;
    proof {
        lemma_max_fanout(orig);
    }
    let mut truncated = chain.truncated;
    let mut stack: Vec<(SourceNodeId, usize)> = Vec::new();
    let nr = chain.roots.len();
    let mut i: usize = 0;
    while i < nr
        invariant
            nr == chain.roots@.len(),
            i <= nr,
            depth < max,
            stack@.len() == i,
            forall|j: int| 0 <= j < i ==> #[trigger] stack@[j] == (chain.roots@[j], depth),
            forall|j: int| 0 <= j < stack@.len() ==> reached_at(orig, chain.roots@, depth as int, (#[trigger] stack@[j]).0, stack@[j].1 as int),
        decreases nr - i,
    {
        proof {
            lemma_root_reached(orig, chain.roots@, depth as int, i as int);
        }
        stack.push((chain.roots[i], depth));
        i = i + 1;
    }
    let mut visited: Vec<(SourceNodeId, usize)> = Vec::new();
    proof {
        assert forall|j: int| 0 <= j < chain.roots@.len() implies visited@.contains(
            (#[trigger] chain.roots@[j], depth),
        ) || stack@.contains((chain.roots@[j], depth)) by {
            assert(stack@[j] == (chain.roots@[j], depth));
        }
    }
    while stack.len() > 0
        invariant
            max == options.max_depth,
            depth < max,
            b == max_fanout(orig) + 1,
            forall|i: int| 0 <= i < orig.len() ==> #[trigger] orig[i].source_roots@.len() <= max_fanout(orig),
            pruned_from(orig, chain.nodes@),
            truncated == (old(chain).truncated || some_cleared(orig, chain.nodes@)),
            orig == old(chain).nodes@,
            chain.roots == old(chain).roots,
            chain.cycle_detected == old(chain).cycle_detected,
            forall|j: int| 0 <= j < stack@.len() ==> #[trigger] stack@[j].1 < max,
            forall|p: (usize, usize)| #[trigger] visited@.contains(p) ==> p.1 < max,
            forall|j: int|
                0 <= j < chain.roots@.len() ==> visited@.contains(
                    (#[trigger] chain.roots@[j], depth),
                ) || stack@.contains((chain.roots@[j], depth)),
            forall|p: (usize, usize)| #[trigger] visited@.contains(p) ==> closed_entry(chain.nodes@, visited@, stack@, max, p),
            forall|j: int| 0 <= j < stack@.len() ==> reached_at(orig, chain.roots@, depth as int, (#[trigger] stack@[j]).0, stack@[j].1 as int),
            forall|i: int| 0 <= i < orig.len() && #[trigger] chain.nodes@[i].source_roots@ != orig[i].source_roots@
                ==> at_the_limit(orig, chain.roots@, depth as int, max as int, i),
        decreases potential(stack@, b, max as nat),
    {
        let ghost before_stack = stack@;
        let top = stack.pop();
        let (id, d) = match top {
            Some(p) => p,
            None => (0, 0),
        };
        let ghost rest = stack@;
        proof {
            assert(before_stack.drop_last() =~= rest);
            assert(before_stack.last() == (id, d));
            assert(before_stack[before_stack.len() - 1].1 < max);
            assert(d < max);
            assert(potential(before_stack, b, max as nat) == potential(rest, b, max as nat) + power(b, (max - d) as nat));
            lemma_power_positive(b, (max - d) as nat);
            assert forall|q: (usize, usize)| before_stack.contains(q) && q != (id, d) implies rest.contains(q) by {
                let j = choose|j: int| 0 <= j < before_stack.len() && before_stack[j] == q;
                assert(j < rest.len());
                assert(rest[j] == q);
            }
            assert(reached_at(orig, chain.roots@, depth as int, before_stack[before_stack.len() - 1].0, before_stack[before_stack.len() - 1].1 as int));
            assert(reached_at(orig, chain.roots@, depth as int, id, d as int));
            assert forall|j: int| 0 <= j < rest.len() implies reached_at(orig, chain.roots@, depth as int, (#[trigger] rest[j]).0, rest[j].1 as int) by {
                assert(rest[j] == before_stack[j]);
            }
        }
        if contains_pair(&visited, (id, d)) {
            proof {
                assert forall|j: int| 0 <= j < chain.roots@.len() implies visited@.contains(
                    (#[trigger] chain.roots@[j], depth),
                ) || rest.contains((chain.roots@[j], depth)) by {
                    let q = (chain.roots@[j], depth);
                    assert(visited@.contains(q) || before_stack.contains(q));
                }
                assert forall|p: (usize, usize)| #[trigger] visited@.contains(p) implies closed_entry(chain.nodes@, visited@, rest, max, p) by {
                    assert(closed_entry(chain.nodes@, visited@, before_stack, max, p));
                    if p.0 < chain.nodes@.len() && chain.nodes@[p.0 as int].source_roots@.len() > 0 {
                        assert forall|k: int| 0 <= k < chain.nodes@[p.0 as int].source_roots@.len() implies visited@.contains(
                            (#[trigger] chain.nodes@[p.0 as int].source_roots@[k], (p.1 + 1) as usize),
                        ) || rest.contains((chain.nodes@[p.0 as int].source_roots@[k], (p.1 + 1) as usize)) by {
                            let q = (chain.nodes@[p.0 as int].source_roots@[k], (p.1 + 1) as usize);
                            assert(visited@.contains(q) || before_stack.contains(q));
                        }
                    }
                }
            }
            continue;
        }
        let ghost vprev = visited@;
        visited.push((id, d));
        proof {
            assert(visited@.drop_last() =~= vprev);
            assert forall|q: (usize, usize)| #[trigger] visited@.contains(q) <==> (vprev.contains(q) || q == (id, d)) by {
                if visited@.contains(q) {
                    let j = choose|j: int| 0 <= j < visited@.len() && visited@[j] == q;
                    if j < visited@.len() - 1 {
                        assert(vprev[j] == q);
                    }
                }
                if vprev.contains(q) {
                    let j = choose|j: int| 0 <= j < vprev.len() && vprev[j] == q;
                    assert(visited@[j] == q);
                }
                if q == (id, d) {
                    assert(visited@[visited@.len() - 1] == q);
                }
            }
            assert forall|q: (usize, usize)| before_stack.contains(q) implies visited@.contains(q) || rest.contains(q) by {}
            assert forall|j: int| 0 <= j < chain.roots@.len() implies visited@.contains(
                (#[trigger] chain.roots@[j], depth),
            ) || rest.contains((chain.roots@[j], depth)) by {
                let q = (chain.roots@[j], depth);
                assert(vprev.contains(q) || before_stack.contains(q));
            }
            assert forall|p: (usize, usize)| #[trigger] vprev.contains(p) implies closed_entry(chain.nodes@, visited@, rest, max, p) by {
                assert(closed_entry(chain.nodes@, vprev, before_stack, max, p));
                if p.0 < chain.nodes@.len() && chain.nodes@[p.0 as int].source_roots@.len() > 0 {
                    assert forall|k: int| 0 <= k < chain.nodes@[p.0 as int].source_roots@.len() implies visited@.contains(
                        (#[trigger] chain.nodes@[p.0 as int].source_roots@[k], (p.1 + 1) as usize),
                    ) || rest.contains((chain.nodes@[p.0 as int].source_roots@[k], (p.1 + 1) as usize)) by {
                        let q = (chain.nodes@[p.0 as int].source_roots@[k], (p.1 + 1) as usize);
                        assert(vprev.contains(q) || before_stack.contains(q));
                    }
                }
            }
        }
        if id >= chain.nodes.len() {
            continue;
        }
        if d + 1 >= max {
            if chain.nodes[id].source_roots.len() > 0 {
                let ghost before_nodes = chain.nodes@;
                clear_sources(&mut chain.nodes, id);
                truncated = true;
                proof {
                    assert(orig[id as int].source_roots@.len() > 0);
                    assert(some_cleared(orig, chain.nodes@));
                    assert(reached_at(orig, chain.roots@, depth as int, (id as int) as usize, d as int) && d + 1 >= max);
                    assert(at_the_limit(orig, chain.roots@, depth as int, max as int, id as int));
                    assert forall|i: int| 0 <= i < orig.len() && #[trigger] chain.nodes@[i].source_roots@ != orig[i].source_roots@
                        implies at_the_limit(orig, chain.roots@, depth as int, max as int, i) by {
                        if i != id {
                            assert(chain.nodes@[i] == before_nodes[i]);
                        }
                    }
                    assert forall|i: int| 0 <= i < orig.len() && i != id implies #[trigger] chain.nodes@[i] == before_nodes[i] by {}
                    assert(pruned_from(orig, chain.nodes@));
                    assert forall|p: (usize, usize)| #[trigger] visited@.contains(p) implies closed_entry(chain.nodes@, visited@, rest, max, p) by {
                        if p.0 != id && p != (id, d) {
                            assert(vprev.contains(p));
                            assert(closed_entry(before_nodes, visited@, rest, max, p));
                            if p.0 < chain.nodes@.len() {
                                assert(chain.nodes@[p.0 as int] == before_nodes[p.0 as int]);
                            }
                        }
                    }
                }
            }
            continue;
        }
        let ghost pushed_base = stack@;
        let nk = chain.nodes[id].source_roots.len();
        let mut k: usize = 0;
        while k < nk
            invariant
                id < chain.nodes@.len(),
                nk == chain.nodes@[id as int].source_roots@.len(),
                nk <= max_fanout(orig),
                k <= nk,
                d + 1 < max,
                max == options.max_depth,
                stack@.len() == pushed_base.len() + k,
                forall|j: int| 0 <= j < pushed_base.len() ==> #[trigger] stack@[j] == pushed_base[j],
                forall|j: int| 0 <= j < k ==> #[trigger] stack@[pushed_base.len() + j] == (chain.nodes@[id as int].source_roots@[j], (d + 1) as usize),
                potential(stack@, b, max as nat) == potential(pushed_base, b, max as nat) + k * power(b, (max - d - 1) as nat),
                orig == old(chain).nodes@,
                chain.roots == old(chain).roots,
                reached_at(orig, chain.roots@, depth as int, id, d as int),
                id < orig.len(),
                nk > 0 ==> chain.nodes@[id as int].source_roots@ == orig[id as int].source_roots@,
                forall|j: int| 0 <= j < stack@.len() ==> reached_at(orig, chain.roots@, depth as int, (#[trigger] stack@[j]).0, stack@[j].1 as int),
            decreases nk - k,
        {
            let c = chain.nodes[id].source_roots[k];
            let ghost before_push = stack@;
            proof {
                lemma_source_reached(orig, chain.roots@, depth as int, id, d as int, k as int);
                lemma_potential_push(stack@, (c, (d + 1) as usize), b, max as nat);
                assert(k * power(b, (max - d - 1) as nat) + power(b, (max - d - 1) as nat) == (k + 1) * power(b, (max - d - 1) as nat)) by (nonlinear_arith);
            }
            stack.push((c, d + 1));
            proof {
                assert forall|j: int| 0 <= j < stack@.len() implies reached_at(orig, chain.roots@, depth as int, (#[trigger] stack@[j]).0, stack@[j].1 as int) by {
                    if j < before_push.len() {
                        assert(stack@[j] == before_push[j]);
                    }
                }
            }
            k = k + 1;
        }
        proof {
            let pw = power(b, (max - d - 1) as nat);
            assert(orig[id as int].source_roots@.len() <= max_fanout(orig));
            assert(power(b, (max - d) as nat) == b * pw);
            lemma_power_positive(b, (max - d - 1) as nat);
            assert(nk * pw < b * pw) by (nonlinear_arith)
                requires
                    nk < b,
                    pw > 0,
            ;
            lemma_power_positive(b, (max - d - 1) as nat);
            assert forall|j: int| 0 <= j < stack@.len() implies #[trigger] stack@[j].1 < max by {
                if j < pushed_base.len() {
                    assert(stack@[j] == pushed_base[j]);
                    assert(pushed_base[j] == before_stack[j]);
                    assert(before_stack[j].1 < max);
                } else {
                    assert(stack@[pushed_base.len() + (j - pushed_base.len())].1 == d + 1);
                }
            }
            assert forall|q: (usize, usize)| rest.contains(q) implies #[trigger] stack@.contains(q) by {
                let j = choose|j: int| 0 <= j < rest.len() && rest[j] == q;
                assert(stack@[j] == q);
            }
            assert forall|kk: int| 0 <= kk < nk implies #[trigger] stack@.contains((chain.nodes@[id as int].source_roots@[kk], (d + 1) as usize)) by {
                assert(stack@[pushed_base.len() + kk] == (chain.nodes@[id as int].source_roots@[kk], (d + 1) as usize));
            }
            assert forall|j: int| 0 <= j < chain.roots@.len() implies visited@.contains(
                (#[trigger] chain.roots@[j], depth),
            ) || stack@.contains((chain.roots@[j], depth)) by {
                let q = (chain.roots@[j], depth);
                assert(visited@.contains(q) || rest.contains(q));
            }
            assert forall|p: (usize, usize)| #[trigger] visited@.contains(p) implies closed_entry(chain.nodes@, visited@, stack@, max, p) by {
                if p == (id, d) {
                    assert forall|k: int| 0 <= k < chain.nodes@[p.0 as int].source_roots@.len() implies visited@.contains(
                        (#[trigger] chain.nodes@[p.0 as int].source_roots@[k], (p.1 + 1) as usize),
                    ) || stack@.contains((chain.nodes@[p.0 as int].source_roots@[k], (p.1 + 1) as usize)) by {
                        assert(stack@.contains((chain.nodes@[id as int].source_roots@[k], (d + 1) as usize)));
                    }
                } else {
                    assert(vprev.contains(p));
                    assert(closed_entry(chain.nodes@, visited@, rest, max, p));
                    if p.0 < chain.nodes@.len() && chain.nodes@[p.0 as int].source_roots@.len() > 0 {
                        assert forall|k: int| 0 <= k < chain.nodes@[p.0 as int].source_roots@.len() implies visited@.contains(
                            (#[trigger] chain.nodes@[p.0 as int].source_roots@[k], (p.1 + 1) as usize),
                        ) || stack@.contains((chain.nodes@[p.0 as int].source_roots@[k], (p.1 + 1) as usize)) by {
                            let q = (chain.nodes@[p.0 as int].source_roots@[k], (p.1 + 1) as usize);
                            assert(visited@.contains(q) || rest.contains(q));
                        }
                    }
                }
            }
        }
    }
    proof {
        assert(stack@ =~= Seq::<(usize, usize)>::empty());
        assert forall|j: int| 0 <= j < chain.roots@.len() implies bounded(
            chain.nodes@,
            #[trigger] chain.roots@[j],
            (max - depth) as nat,
        ) by {
            assert(visited@.contains((chain.roots@[j], depth)));
            lemma_closure_bounded(chain.nodes@, visited@, max, chain.roots@[j], depth);
        }
    }
    chain.truncated = truncated;
    truncated
}

} // verus!
