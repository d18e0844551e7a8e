use decomp::cfa::CFAPrim;
use decomp::cfa::CFAPrims;
use decomp::cfg::BasicBlock;
use decomp::cfg::CFGNode;
use decomp::cfg::ControlFlowGraph;
use decomp::cfg::Function;
use decomp::cfg::Name;
use decomp::cfg::Terminator;
use decomp::cfr::CFRGroup;
use decomp::cfr::CFRGroups;

fn ident(s: &str) -> Name {
    Name::Ident(s.to_string())
}

fn block(name: &str, term: Terminator) -> BasicBlock {
    BasicBlock { name: ident(name), term }
}

fn br(dest: &str) -> Terminator {
    Terminator::Br { dest: ident(dest) }
}

fn condbr(t: &str, f: &str) -> Terminator {
    Terminator::CondBr { true_dest: ident(t), false_dest: ident(f) }
}

fn name_str(n: &Name) -> String {
    match n {
        Name::Ident(s) => s.clone(),
        Name::Number(k) => format!("{}", k),
    }
}

fn node_str(n: &CFGNode) -> String {
    let f = name_str(n.from_pred());
    let t = name_str(n.to_succ());
    if f == t {
        f
    } else {
        format!("({}..{})", f, t)
    }
}

fn prim_str(p: &CFAPrim) -> String {
    match p {
        CFAPrim::PreconditionLoop(p) => format!(
            "while({}){{{}}}->{}",
            node_str(&p.cond),
            node_str(&p.body),
            node_str(&p.exit)
        ),
        CFAPrim::PostconditionLoop(p) => {
            format!("loop({})->{}", node_str(&p.cond), node_str(&p.exit))
        },
        CFAPrim::OnewayConditional(p) => format!(
            "if({}){{{}}}->{}",
            node_str(&p.cond),
            node_str(&p.body),
            node_str(&p.exit)
        ),
        CFAPrim::OnewayReturnConditional(p) => format!(
            "ifret({}){{{}}}->{}",
            node_str(&p.cond),
            node_str(&p.body),
            node_str(&p.exit)
        ),
        CFAPrim::TwowayConditional(p) => format!(
            "ifelse({}){{{}}}{{{}}}->{}",
            node_str(&p.cond),
            node_str(&p.body_a),
            node_str(&p.body_b),
            node_str(&p.exit)
        ),
        CFAPrim::StatementSequence(p) => {
            format!("seq({})->{}", node_str(&p.entry), node_str(&p.exit))
        },
    }
}

fn prims_strs(prims: &CFAPrims) -> Vec<String> {
    prims.prims().iter().map(prim_str).collect()
}

fn groups_str(gs: &CFRGroups) -> String {
    let parts: Vec<String> = gs.groups.iter().map(group_str).collect();
    parts.join(";")
}

fn group_str(g: &CFRGroup) -> String {
    match g {
        CFRGroup::Block(n) => name_str(n),
        CFRGroup::PreconditionLoop { cond, body } => {
            format!("while({}){{{}}}", groups_str(cond), groups_str(body))
        },
        CFRGroup::PostconditionLoop { cond } => format!("loop({})", groups_str(cond)),
        CFRGroup::OnewayConditional { cond, body } => {
            format!("if({}){{{}}}", groups_str(cond), groups_str(body))
        },
        CFRGroup::OnewayReturnConditional { cond, body } => {
            format!("ifret({}){{{}}}", groups_str(cond), groups_str(body))
        },
        CFRGroup::TwowayConditional { cond, body_true, body_false } => format!(
            "ifelse({}){{{}}}{{{}}}",
            groups_str(cond),
            groups_str(body_true),
            groups_str(body_false)
        ),
    }
}

fn recover(f: &Function) -> (Vec<String>, String) {
    let cfg = ControlFlowGraph::new(f);
    let prims = CFAPrim::find_all(cfg).expect("reduction failed");
    let groups = CFRGroups::new(&prims).expect("recovery failed");
    (prims_strs(&prims), groups_str(&groups))
}

/// Straight line: four blocks in a row.
#[test]
fn linear_chain_reduces_to_a_row_of_blocks() {
    let f = Function {
        basic_blocks: vec![
            block("b1", br("b2")),
            block("b2", br("b3")),
            block("b3", br("ret")),
            block("ret", Terminator::Ret),
        ],
    };
    let (prims, groups) = recover(&f);
    assert_eq!(prims.len(), 3);
    assert!(prims.iter().all(|p| p.starts_with("seq(")));
    assert_eq!(groups, "b1;b2;b3;ret");
}

/// A `while` loop: body jumps back to the condition.
#[test]
fn while_loop_is_recognised_as_a_precondition_loop() {
    let f = Function {
        basic_blocks: vec![
            block("b1", br("b2")),
            block("b2", condbr("b3", "b4")),
            block("b3", br("b2")),
            block("b4", Terminator::Ret),
        ],
    };
    let (prims, groups) = recover(&f);
    assert_eq!(prims[0], "while(b2){b3}->b4");
    assert_eq!(groups, "b1;while(b2){b3};b4");
}

/// A self-looping condition.
#[test]
fn self_loop_is_recognised_as_a_postcondition_loop() {
    let f = Function {
        basic_blocks: vec![
            block("b1", br("b2")),
            block("b2", condbr("b3", "b2")),
            block("b3", Terminator::Ret),
        ],
    };
    let (prims, groups) = recover(&f);
    assert_eq!(prims[0], "loop(b2)->b3");
    assert_eq!(groups, "b1;loop(b2);b3");
}

/// `if` without `else`.
#[test]
fn if_then_is_recognised_as_a_oneway_conditional() {
    let f = Function {
        basic_blocks: vec![
            block("b1", condbr("b2", "b3")),
            block("b2", br("b3")),
            block("b3", Terminator::Ret),
        ],
    };
    let (prims, groups) = recover(&f);
    assert_eq!(prims[0], "if(b1){b2}->b3");
    assert_eq!(groups, "if(b1){b2};b3");
}

/// `if`/`else` joining at one exit.
#[test]
fn if_else_is_recognised_as_a_twoway_conditional() {
    let f = Function {
        basic_blocks: vec![
            block("b1", condbr("b2", "b3")),
            block("b2", br("b4")),
            block("b3", br("b4")),
            block("b4", Terminator::Ret),
        ],
    };
    let (prims, groups) = recover(&f);
    assert_eq!(prims[0], "ifelse(b1){b2}{b3}->b4");
    assert_eq!(groups, "ifelse(b1){b2}{b3};b4");
}

/// `if` whose body leaves the function.
#[test]
fn if_return_is_recognised_as_a_oneway_return_conditional() {
    let f = Function {
        basic_blocks: vec![
            block("b1", condbr("b2", "b3")),
            block("b2", Terminator::Ret),
            block("b3", Terminator::Ret),
        ],
    };
    let (prims, groups) = recover(&f);
    assert_eq!(prims[0], "ifret(b1){b2}->b3");
    assert_eq!(groups, "ifret(b1){b2};b3");
}

/// An `if`/`else` whose join jumps straight back to the loop head: the
/// inner condition cannot dominate that join (the loop is entered around
/// it), so no primitive matches and the reduction reports failure.
#[test]
fn if_else_joining_at_loop_head_is_irreducible() {
    let f = Function {
        basic_blocks: vec![
            block("b1", br("b2")),
            block("b2", condbr("b3", "b7")),
            block("b3", condbr("b4", "b5")),
            block("b4", br("b2")),
            block("b5", br("b2")),
            block("b7", Terminator::Ret),
        ],
    };
    let cfg = ControlFlowGraph::new(&f);
    assert!(CFAPrim::find_all(cfg).is_none());
}

/// An `if`/`else` inside a `while`, joining at its own node before the
/// back-edge: the inner conditional collapses first, then the loop around
/// it, giving a nested group tree.
#[test]
fn nested_if_else_inside_loop_recovers_nested_groups() {
    let f = Function {
        basic_blocks: vec![
            block("b1", br("b2")),
            block("b2", condbr("b3", "b8")),
            block("b3", condbr("b4", "b5")),
            block("b4", br("b6")),
            block("b5", br("b6")),
            block("b6", br("b2")),
            block("b8", Terminator::Ret),
        ],
    };
    let cfg = ControlFlowGraph::new(&f);
    let prims = CFAPrim::find_all(cfg).expect("reduction failed");
    let rendered = prims_strs(&prims);
    assert_eq!(rendered[0], "ifelse(b3){b4}{b5}->b6");
    assert_eq!(rendered[1], "while(b2){(b3..b6)}->b8");
    let groups = CFRGroups::new(&prims).expect("recovery failed");
    assert_eq!(groups_str(&groups), "b1;while(b2){ifelse(b3){b4}{b5};b6};b8");
}

/// Reducing the same graph twice gives the same primitives and groups.
#[test]
fn reduction_is_deterministic() {
    let f = Function {
        basic_blocks: vec![
            block("b1", br("b2")),
            block("b2", condbr("b3", "b8")),
            block("b3", condbr("b4", "b5")),
            block("b4", br("b6")),
            block("b5", br("b6")),
            block("b6", br("b2")),
            block("b8", Terminator::Ret),
        ],
    };
    let cfg1 = ControlFlowGraph::new(&f);
    let cfg2 = cfg1.clone();
    let prims1 = CFAPrim::find_all(cfg1).expect("reduction failed");
    let prims2 = CFAPrim::find_all(cfg2).expect("reduction failed");
    assert_eq!(prims_strs(&prims1), prims_strs(&prims2));
    let g1 = CFRGroups::new(&prims1).expect("recovery failed");
    let g2 = CFRGroups::new(&prims2).expect("recovery failed");
    assert_eq!(groups_str(&g1), groups_str(&g2));
}

/// A multi-way branch matches no primitive, so the reduction reports
/// failure rather than a partial result.
#[test]
fn irreducible_graph_yields_no_reduction() {
    let f = Function {
        basic_blocks: vec![
            block(
                "s",
                Terminator::Switch {
                    dests: vec![ident("a"), ident("b")],
                    default_dest: ident("c"),
                },
            ),
            block("a", Terminator::Ret),
            block("b", Terminator::Ret),
            block("c", Terminator::Ret),
        ],
    };
    let cfg = ControlFlowGraph::new(&f);
    assert!(CFAPrim::find_all(cfg).is_none());
}

/// The surviving entry pairs the original entry name with the final exit.
#[test]
fn final_entry_keeps_the_original_entry_name() {
    let f = Function {
        basic_blocks: vec![
            block("b1", br("b2")),
            block("b2", br("b3")),
            block("b3", Terminator::Ret),
        ],
    };
    let cfg = ControlFlowGraph::new(&f);
    let prims = CFAPrim::find_all(cfg).expect("reduction failed");
    assert_eq!(name_str(prims.entry().from_pred()), "b1");
    assert_eq!(name_str(prims.entry().to_succ()), "b3");
}

/// A single returning block: nothing to collapse, one block recovered.
#[test]
fn single_block_function_recovers_one_block() {
    let f = Function { basic_blocks: vec![block("only", Terminator::Ret)] };
    let (prims, groups) = recover(&f);
    assert_eq!(prims.len(), 0);
    assert_eq!(groups, "only");
}

/// Numbered blocks, as unnamed LLVM blocks are, work like named ones.
#[test]
fn numbered_blocks_reduce_like_named_ones() {
    let f = Function {
        basic_blocks: vec![
            BasicBlock {
                name: Name::Number(0),
                term: Terminator::Br { dest: Name::Number(1) },
            },
            BasicBlock { name: Name::Number(1), term: Terminator::Ret },
        ],
    };
    let (prims, groups) = recover(&f);
    assert_eq!(prims, vec!["seq(0)->1".to_string()]);
    assert_eq!(groups, "0;1");
}

/// A node whose single successor it does not dominate is never claimed as
/// a sequence entry: here the join is reachable straight from the entry,
/// so the shape is recognised as a conditional instead.
#[test]
fn undominated_exit_is_not_claimed_as_sequence() {
    let f = Function {
        basic_blocks: vec![
            block("e", condbr("x", "s")),
            block("s", br("x")),
            block("x", Terminator::Ret),
        ],
    };
    let (prims, groups) = recover(&f);
    assert_eq!(prims[0], "if(e){s}->x");
    assert_eq!(groups, "if(e){s};x");
}

/// A self-looping head whose other successor is reachable around it: the
/// outside successor cannot be the loop's exit (the head does not dominate
/// it), so the head pairs with itself and a temporary is spliced in front
/// of the repeated head, after which the rest reduces around the loop.
#[test]
fn self_loop_with_outside_exit_splices_a_temporary() {
    let f = Function {
        basic_blocks: vec![
            block("e", condbr("c", "x")),
            block("c", condbr("x", "c")),
            block("x", Terminator::Ret),
        ],
    };
    let cfg = ControlFlowGraph::new(&f);
    let prims = CFAPrim::find_all(cfg).expect("reduction failed");
    assert_eq!(prims.temps().len(), 1);
    let t = prims.temps().get(0).unwrap();
    assert_eq!(name_str(t), "@DECOMP_TEMPORARY_0");
    let rendered = prims_strs(&prims);
    assert_eq!(rendered[0], "loop(c)->@DECOMP_TEMPORARY_0");
    assert_eq!(rendered[1], "ifret(e){x}->(c..@DECOMP_TEMPORARY_0)");
    assert_eq!(name_str(prims.entry().from_pred()), "e");
    let groups = CFRGroups::new(&prims).expect("recovery failed");
    assert_eq!(groups_str(&groups), "ifret(e){x};loop(c)");
}
