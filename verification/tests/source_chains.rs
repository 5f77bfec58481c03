use diagweave::chain_depth::limit_depth_source_chain;
use diagweave::source_chain::{
    append_source_chain, chain_from_linear, is_report_wrapper_type, remap_order, SourceErrorChain, SourceErrorItem,
};
use diagweave::traversal::{BorrowedCollector, ErrorIdentity, ReportSourceErrorIter, SourceErrorVisit};
use diagweave::types::{CauseCollectOptions, CauseTraversalState};

fn s(v: &str) -> String {
    v.to_string()
}

fn item(message: &str, roots: Vec<usize>) -> SourceErrorItem {
    let mut it = SourceErrorItem::from_message(s(message));
    it.source_roots = roots;
    it
}

fn linear(messages: &[&str]) -> SourceErrorChain {
    let items: Vec<SourceErrorItem> = messages.iter().map(|m| SourceErrorItem::from_message(s(m))).collect();
    chain_from_linear(items, &CauseTraversalState::new()).unwrap()
}

#[test]
fn linear_chains_link_each_cause_to_the_next() {
    let state = CauseTraversalState { truncated: true, cycle_detected: false };
    let items = vec![item("a", vec![]), item("b", vec![]), item("c", vec![])];
    let chain = chain_from_linear(items, &state).unwrap();
    assert_eq!(chain.roots, vec![0]);
    assert_eq!(chain.nodes[0].source_roots, vec![1]);
    assert_eq!(chain.nodes[1].source_roots, vec![2]);
    assert!(chain.nodes[2].source_roots.is_empty());
    assert_eq!(chain.nodes[2].message, "c");
    assert!(chain.truncated && !chain.cycle_detected);
    assert!(chain_from_linear(vec![], &state).is_none());
}

#[test]
fn appending_to_an_empty_chain_gives_the_other() {
    let mut this = SourceErrorChain::new();
    append_source_chain(&mut this, linear(&["x", "y"]));
    assert_eq!(this.roots, vec![0]);
    assert_eq!(this.nodes.len(), 2);
    assert_eq!(this.nodes[1].message, "y");
    assert_eq!(this.first_error().map(|e| e.message.as_str()), Some("x"));
}

#[test]
fn report_wrapper_types_are_recognised() {
    assert!(is_report_wrapper_type("diagweave::Report<MyError, HasSeverity>", "diagweave::Report<E, S>"));
    assert!(!is_report_wrapper_type("diagweave::Report", "diagweave::Report<E, S>"));
    assert!(!is_report_wrapper_type("other::Report<E>", "diagweave::Report<E, S>"));
    let typed = SourceErrorItem::new(s("m"), s("diagweave::Report<X>"));
    assert_eq!(typed.display_error_type(true, "diagweave::Report<E>"), None);
    assert_eq!(typed.display_error_type(false, "diagweave::Report<E>"), Some(s("diagweave::Report<X>")));
}

#[test]
fn depth_limits_cut_chains() {
    let mut chain = linear(&["a", "b", "c"]);
    let truncated = limit_depth_source_chain(&mut chain, CauseCollectOptions { max_depth: 5, detect_cycle: true }, 0);
    assert!(!truncated);
    assert_eq!(chain.nodes[1].source_roots, vec![2]);
    let mut chain = linear(&["a", "b", "c"]);
    assert!(limit_depth_source_chain(&mut chain, CauseCollectOptions { max_depth: 2, detect_cycle: true }, 0));
    assert_eq!(chain.roots, vec![0]);
    assert!(chain.nodes[1].source_roots.is_empty());
    let mut chain = linear(&["a"]);
    assert!(limit_depth_source_chain(&mut chain, CauseCollectOptions { max_depth: 1, detect_cycle: true }, 1));
    assert!(chain.roots.is_empty());
}

#[test]
fn export_keeps_the_reachable_part_renumbered() {
    let chain = SourceErrorChain {
        nodes: vec![item("unreachable", vec![]), item("root", vec![2]), item("cause", vec![])],
        roots: vec![1],
        truncated: false,
        cycle_detected: false,
    };
    let ex = chain.export_with_options(false, "diagweave::Report<E>");
    assert_eq!(ex.roots, vec![0]);
    assert_eq!(ex.nodes.len(), 2);
    assert_eq!(ex.nodes[0].message, "root");
    assert_eq!(ex.nodes[0].source_roots, vec![1]);
    assert_eq!(ex.nodes[1].message, "cause");
}

#[test]
fn remapping_ids() {
    assert_eq!(remap_order(&[2, 0], 3), vec![Some(1), None, Some(0)]);
    assert_eq!(remap_order(&[], 2), vec![None, None]);
}

#[test]
fn collecting_causes_stops_at_depth_and_cycles() {
    let mut c = BorrowedCollector::new(CauseCollectOptions { max_depth: 2, detect_cycle: true });
    assert!(c.visit(ErrorIdentity::Pointer(1, 8), s("outer")));
    assert!(c.visit(ErrorIdentity::Pointer(2, 8), s("inner")));
    assert!(!c.visit(ErrorIdentity::Pointer(3, 8), s("deepest")));
    let (chain, state) = c.finish();
    let chain = chain.unwrap();
    assert_eq!(chain.nodes.len(), 2);
    assert!(state.truncated && !state.cycle_detected);
    let mut c = BorrowedCollector::new(CauseCollectOptions { max_depth: 10, detect_cycle: true });
    assert!(c.visit(ErrorIdentity::Pointer(1, 8), s("a")));
    assert!(!c.visit(ErrorIdentity::Pointer(1, 8), s("a again")));
    let (_, state) = c.finish();
    assert!(state.cycle_detected);
}

#[test]
fn walking_entries_visits_every_node() {
    let chain = linear(&["a", "b"]);
    let mut entries = chain.iter_entries();
    let first = entries.next("diagweave::Report<E>").unwrap();
    assert_eq!((first.node, first.depth), (Some(0), 0));
    let second = entries.next("diagweave::Report<E>").unwrap();
    assert_eq!((second.node, second.depth), (Some(1), 1));
    assert!(entries.next("diagweave::Report<E>").is_none());
    let mut roots = chain.iter();
    assert_eq!(roots.next().map(|n| n.message.as_str()), Some("a"));
    assert!(roots.next().is_none());
}

#[test]
fn export_visits_each_node_once_through_cycles() {
    let chain = SourceErrorChain {
        nodes: vec![item("a", vec![1, 2]), item("b", vec![0]), item("c", vec![1, 7])],
        roots: vec![0, 9],
        truncated: false,
        cycle_detected: true,
    };
    let ex = chain.export_with_options(false, "diagweave::Report<E>");
    assert_eq!(ex.roots, vec![0]);
    let messages: Vec<&str> = ex.nodes.iter().map(|n| n.message.as_str()).collect();
    assert_eq!(messages, vec!["a", "b", "c"]);
    assert_eq!(ex.nodes[0].source_roots, vec![1, 2]);
    assert_eq!(ex.nodes[1].source_roots, vec![0]);
    assert_eq!(ex.nodes[2].source_roots, vec![1]);
    assert!(ex.cycle_detected);
}

#[test]
fn report_walk_visits_stored_chain_then_error_sources() {
    let chain = linear(&["outer", "inner"]);
    let options = CauseCollectOptions { max_depth: 8, detect_cycle: true };
    let mut walk = ReportSourceErrorIter::from_chain(Some(&chain), true, options, false);
    assert_eq!(walk.next_visit(None), Some(SourceErrorVisit::Item { id: 0, depth: 0 }));
    assert_eq!(walk.next_visit(None), Some(SourceErrorVisit::Item { id: 1, depth: 1 }));
    let a = ErrorIdentity::Pointer(16, 8);
    let b = ErrorIdentity::Pointer(32, 8);
    assert_eq!(walk.next_visit(Some(a)), Some(SourceErrorVisit::Error { depth: 0 }));
    assert_eq!(walk.next_visit(Some(b)), Some(SourceErrorVisit::Error { depth: 1 }));
    assert_eq!(walk.next_visit(Some(a)), None);
    assert!(walk.state().cycle_detected);
    assert!(walk.chain_walk.is_none() && walk.error_walk.is_none());
}

fn arena(nodes: Vec<SourceErrorItem>, roots: Vec<usize>) -> SourceErrorChain {
    SourceErrorChain { nodes, roots, truncated: false, cycle_detected: false }
}

#[test]
fn chains_compare_by_structure_not_by_layout() {
    // root "top" caused by "mid", caused by "low", laid out two ways
    let a = arena(vec![item("top", vec![1]), item("mid", vec![2]), item("low", vec![])], vec![0]);
    let b = arena(vec![item("low", vec![]), item("top", vec![2]), item("mid", vec![0])], vec![1]);
    assert!(a.same_chain(&b));
    assert!(a == b);
    let n = b.normalized();
    assert_eq!(n.roots, vec![Some(0)]);
    let messages: Vec<&str> = n.nodes.iter().map(|m| m.message.as_str()).collect();
    assert_eq!(messages, vec!["top", "mid", "low"]);
    assert_eq!(n.nodes[0].source_roots, vec![Some(1)]);
    assert_eq!(n.nodes[1].source_roots, vec![Some(2)]);
    let c = arena(vec![item("top", vec![1]), item("mid", vec![2]), item("other", vec![])], vec![0]);
    assert!(a != c);
    let mut d = arena(vec![item("top", vec![1]), item("mid", vec![2]), item("low", vec![])], vec![0]);
    d.truncated = true;
    assert!(a != d);
}

#[test]
fn normal_form_keeps_unreached_nodes_and_drops_stray_ids() {
    let chain = arena(vec![item("stray", vec![]), item("root", vec![7, 0]), item("lost", vec![])], vec![1, 9]);
    let n = chain.normalized();
    assert_eq!(n.roots, vec![Some(0), None]);
    let messages: Vec<&str> = n.nodes.iter().map(|m| m.message.as_str()).collect();
    assert_eq!(messages, vec!["root", "stray", "lost"]);
    assert_eq!(n.nodes[0].source_roots, vec![None, Some(1)]);
}
