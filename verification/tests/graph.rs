use decomp::cfg::BasicBlock;
use decomp::cfg::CFGNode;
use decomp::cfg::ControlFlowGraph;
use decomp::cfg::Function;
use decomp::cfg::Name;
use decomp::cfg::Terminator;

fn ident(s: &str) -> Name {
    Name::Ident(s.to_string())
}

fn node(s: &str) -> CFGNode {
    CFGNode::from_name(&ident(s))
}

fn name_str(n: &Name) -> String {
    match n {
        Name::Ident(s) => s.clone(),
        Name::Number(k) => format!("{}", k),
    }
}

fn block(name: &str, term: Terminator) -> BasicBlock {
    BasicBlock { name: ident(name), term }
}

fn br(dest: &str) -> Terminator {
    Terminator::Br { dest: ident(dest) }
}

fn condbr(t: &str, f: &str) -> Terminator {
    Terminator::CondBr { true_dest: ident(t), false_dest: ident(f) }
}

/// {b1 -> b2, b1 -> b3, b2 -> b4, b3 -> b4}, b4 returns.
fn diamond() -> ControlFlowGraph {
    let f = Function {
        basic_blocks: vec![
            block("b1", condbr("b2", "b3")),
            block("b2", br("b4")),
            block("b3", br("b4")),
            block("b4", Terminator::Ret),
        ],
    };
    ControlFlowGraph::new(&f)
}

#[test]
fn construction_registers_nodes_in_insertion_order() {
    let cfg = diamond();
    let ns = cfg.nodes().iter();
    assert_eq!(ns.len(), 4);
    assert_eq!(ns[0], node("b1"));
    assert_eq!(ns[1], node("b2"));
    assert_eq!(ns[2], node("b3"));
    assert_eq!(ns[3], node("b4"));
    assert_eq!(*cfg.entry(), node("b1"));
}

#[test]
fn adjacency_matches_terminators() {
    let cfg = diamond();
    let s1 = cfg.succs(&node("b1")).unwrap().iter();
    assert_eq!(s1.len(), 2);
    assert_eq!(s1[0], node("b2"));
    assert_eq!(s1[1], node("b3"));
    let p4 = cfg.preds(&node("b4")).unwrap().iter();
    assert_eq!(p4.len(), 2);
    assert_eq!(p4[0], node("b2"));
    assert_eq!(p4[1], node("b3"));
    assert!(cfg.succs(&node("b4")).is_none());
    assert!(cfg.preds(&node("b1")).is_none());
}

#[test]
fn every_edge_is_recorded_on_both_sides() {
    let cfg = diamond();
    let nodes = cfg.nodes().iter().clone();
    for u in nodes.iter() {
        if let Some(succs) = cfg.succs(u) {
            for v in succs.iter().iter() {
                let back = cfg.preds(v).expect("successor without predecessor list");
                assert!(back.contains(u));
            }
        }
        if let Some(preds) = cfg.preds(u) {
            for v in preds.iter().iter() {
                let fwd = cfg.succs(v).expect("predecessor without successor list");
                assert!(fwd.contains(u));
            }
        }
    }
}

#[test]
fn add_edge_is_idempotent() {
    let mut cfg = diamond();
    cfg.add_edge(&node("b1"), &node("b2"));
    let s1 = cfg.succs(&node("b1")).unwrap();
    assert_eq!(s1.len(), 2);
    assert_eq!(cfg.nodes().len(), 4);
}

#[test]
fn remove_node_erases_every_mention() {
    let mut cfg = diamond();
    cfg.remove_node(&node("b2"));
    assert_eq!(cfg.nodes().len(), 3);
    assert!(!cfg.nodes().contains(&node("b2")));
    assert!(cfg.succs(&node("b2")).is_none());
    assert!(cfg.preds(&node("b2")).is_none());
    for u in cfg.nodes().iter().iter() {
        if let Some(succs) = cfg.succs(u) {
            assert!(!succs.contains(&node("b2")));
        }
        if let Some(preds) = cfg.preds(u) {
            assert!(!preds.contains(&node("b2")));
        }
    }
}

#[test]
fn insert_node_splices_between_two_nodes() {
    let mut cfg = diamond();
    let t = node("t");
    cfg.insert_node(&t, &node("b2"), &node("b4"));
    let s2 = cfg.succs(&node("b2")).unwrap();
    assert!(!s2.contains(&node("b4")));
    assert!(s2.contains(&t));
    let st = cfg.succs(&t).unwrap();
    assert_eq!(st.len(), 1);
    assert!(st.contains(&node("b4")));
    let p4 = cfg.preds(&node("b4")).unwrap();
    assert!(p4.contains(&t));
    assert!(!p4.contains(&node("b2")));
}

#[test]
fn a_node_always_dominates_itself() {
    let cfg = diamond();
    for u in cfg.nodes().iter().iter() {
        assert!(cfg.dominates(u, u));
    }
}

#[test]
fn the_entry_dominates_every_node() {
    let cfg = diamond();
    for u in cfg.nodes().iter().iter() {
        assert!(cfg.dominates(cfg.entry(), u));
    }
}

#[test]
fn a_branch_side_does_not_dominate_the_join() {
    let cfg = diamond();
    assert!(!cfg.dominates(&node("b2"), &node("b4")));
    assert!(!cfg.dominates(&node("b3"), &node("b4")));
    assert!(cfg.dominates(&node("b1"), &node("b4")));
}

#[test]
fn loop_head_dominates_body_and_exit() {
    let f = Function {
        basic_blocks: vec![
            block("b1", br("b2")),
            block("b2", condbr("b3", "b4")),
            block("b3", br("b2")),
            block("b4", Terminator::Ret),
        ],
    };
    let cfg = ControlFlowGraph::new(&f);
    assert!(cfg.dominates(&node("b2"), &node("b3")));
    assert!(cfg.dominates(&node("b2"), &node("b4")));
    assert!(!cfg.dominates(&node("b3"), &node("b4")));
}

#[test]
fn temporary_names_follow_the_pattern_and_count_up() {
    let mut cfg = diamond();
    let t0 = cfg.create_temporary_node();
    let t1 = cfg.create_temporary_node();
    assert_eq!(name_str(&t0), "@DECOMP_TEMPORARY_0");
    assert_eq!(name_str(&t1), "@DECOMP_TEMPORARY_1");
    assert!(cfg.temps().contains(&t0));
    assert!(cfg.temps().contains(&t1));
    assert_eq!(cfg.temps().len(), 2);
}

#[test]
fn temporary_names_skip_colliding_blocks() {
    let f = Function {
        basic_blocks: vec![
            block("b1", br("@DECOMP_TEMPORARY_0")),
            block("@DECOMP_TEMPORARY_0", Terminator::Ret),
        ],
    };
    let mut cfg = ControlFlowGraph::new(&f);
    let t = cfg.create_temporary_node();
    assert_eq!(name_str(&t), "@DECOMP_TEMPORARY_1");
}

#[test]
fn switch_and_indirect_branches_fan_out_in_order() {
    let f = Function {
        basic_blocks: vec![
            block(
                "s",
                Terminator::Switch {
                    dests: vec![ident("c1"), ident("c2")],
                    default_dest: ident("d"),
                },
            ),
            block("c1", Terminator::Ret),
            block("c2", Terminator::Ret),
            block("d", Terminator::IndirectBr { possible_dests: vec![ident("c1")] }),
        ],
    };
    let cfg = ControlFlowGraph::new(&f);
    let ss = cfg.succs(&node("s")).unwrap().iter();
    assert_eq!(ss.len(), 3);
    assert_eq!(ss[0], node("c1"));
    assert_eq!(ss[1], node("c2"));
    assert_eq!(ss[2], node("d"));
    let sd = cfg.succs(&node("d")).unwrap().iter();
    assert_eq!(sd.len(), 1);
    assert_eq!(sd[0], node("c1"));
}

/// Every node dominates a node that cannot be reached at all.
#[test]
fn unreachable_nodes_are_dominated_by_everything() {
    let mut cfg = diamond();
    cfg.add_edge(&node("x"), &node("y"));
    cfg.remove_node(&node("x"));
    assert!(cfg.dominates(&node("b2"), &node("y")));
    assert!(cfg.dominates(&node("b4"), &node("y")));
}
