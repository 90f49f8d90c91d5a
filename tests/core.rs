use eval::config::{Case, Config, Flow, Tags, Testcase};
use eval::counter::EvalCounter;
use eval::ir::{Expr, Exprs};
use eval::result::{classify, EvalMap, EvalResult, EvalResults, Signal};
use eval::search::Search;
use eval::summary::{EvalSummary, Metric};
use eval::tree::{EvalNode, EvalTree};
use eval::{Evaluator, Kind};

fn s(x: &str) -> String {
    x.to_string()
}

fn testcase(ty: &str) -> Testcase {
    Testcase {
        desc: s("use after free"),
        tags: Tags { sp: s("high"), ub: s("UB"), ty: s(ty) },
        features: vec![s("heap")],
        ty: s("Layout"),
        val: s("42"),
        pos: Case { src: s("pos_src()"), code: s("fn main() { let x = SOURCE!(); }") },
        neg: Case { src: s("neg_src()"), code: s("fn main() { let y = SOURCE!(); }") },
    }
}

fn flow(name: &str, code: &str) -> Flow {
    Flow { name: s(name), code: s(code) }
}

const ROBUST: EvalResults = EvalResults(EvalResult::TP, EvalResult::TN);

#[test]
fn test_generate() {
    let case = Case {
        src: String::from("Layout::from_size_align(0, 1).unwrap()"),
        code: String::from(
            r#"
    use std::alloc::{alloc, dealloc, Layout};
    fn main() {
        let layout = SOURCE!();
        let ptr = unsafe { alloc(layout) }; // SINK
        unsafe { dealloc(ptr, layout) };
    }"#,
        ),
    };

    let expr = String::from(
        r#"
    fn call(param: TYPE!()) -> TYPE!() {
        EXPRE!(param)
    }
    call(SOURCE!())
        "#,
    );

    let out = case.nest(&expr);
    println!("{}", out);
    assert!(out.contains("let layout = {\n"));
    assert!(out.contains("call(Layout::from_size_align(0, 1).unwrap())"));
    assert!(!out.contains("SOURCE!()"));
}

#[test]
fn test() {
    let mut tree = EvalTree::new();
    tree.set_root(EvalNode::new("Root", EvalResults(EvalResult::TP, EvalResult::TN)));
    tree.add_child("Root", "Child1", EvalResults(EvalResult::TP, EvalResult::TN)).unwrap();
    tree.add_child("Root", "Child2", EvalResults(EvalResult::TP, EvalResult::FP)).unwrap();
    tree.add_child("Child1", "GrandChild1", EvalResults(EvalResult::FN, EvalResult::TN)).unwrap();
    tree.add_child("Child2", "GrandChild2", EvalResults(EvalResult::FN, EvalResult::FP)).unwrap();
    let dot_content = tree.to_dot();
    println!("DOT Representation:\n{}", dot_content);
    assert_eq!(tree.count_nodes(), 5);
    assert_eq!(tree.nodes[0].children, vec![1, 2]);
    assert_eq!(tree.nodes[1].children, vec![3]);
    assert_eq!(tree.nodes[2].children, vec![4]);
    assert_eq!(
        dot_content,
        "digraph EvalTree {\nnode [shape=ellipse];\n\
         node0 [label=\"Root\" style=filled fillcolor=green];\n\
         node1 [label=\"Child1\" style=filled fillcolor=green];\nnode0 -> node1;\n\
         node2 [label=\"GrandChild1\" style=filled fillcolor=orange];\nnode1 -> node2;\n\
         node3 [label=\"Child2\" style=filled fillcolor=blue];\nnode0 -> node3;\n\
         node4 [label=\"GrandChild2\" style=filled fillcolor=gray];\nnode3 -> node4;\n}"
    );
}

#[test]
fn dot_text_of_small_tree() {
    let mut tree = EvalTree::new();
    tree.set_root(EvalNode::new("000-0-0", ROBUST));
    tree.add_child("000-0-0", "001-1-0", EvalResults(EvalResult::Error, EvalResult::TN)).unwrap();
    assert_eq!(
        tree.to_dot(),
        "digraph EvalTree {\nnode [shape=ellipse];\n\
         node0 [label=\"000-0-0\" style=filled fillcolor=green];\n\
         node1 [label=\"001-1-0\" style=filled fillcolor=red];\nnode0 -> node1;\n}"
    );
}

#[test]
fn add_child_to_missing_parent_fails() {
    let mut tree = EvalTree::new();
    tree.set_root(EvalNode::new("Root", ROBUST));
    let r = tree.add_child("Nope", "Child", ROBUST);
    assert_eq!(r, Err(s("Parent node 'Nope' not found")));
    assert_eq!(tree.count_nodes(), 1);
    assert_eq!(tree.get_node("Root"), Some(0));
    assert_eq!(tree.get_node("Nope"), None);
}

#[test]
fn classify_maps_each_side_on_its_own() {
    let cases = [
        (Signal::Found, Signal::NotFound, EvalResult::TP, EvalResult::TN),
        (Signal::Found, Signal::Found, EvalResult::TP, EvalResult::FP),
        (Signal::NotFound, Signal::Found, EvalResult::FN, EvalResult::FP),
        (Signal::NotFound, Signal::NotFound, EvalResult::FN, EvalResult::TN),
        (Signal::Failed, Signal::NotFound, EvalResult::Error, EvalResult::TN),
        (Signal::Found, Signal::Failed, EvalResult::TP, EvalResult::Error),
        (Signal::Failed, Signal::Failed, EvalResult::Error, EvalResult::Error),
    ];
    for (p, n, ep, en) in cases {
        let first = classify(p, n);
        assert_eq!(first, EvalResults(ep, en));
        assert_eq!(classify(p, n), first);
    }
    assert!(classify(Signal::Found, Signal::NotFound).is_robust());
    assert!(!classify(Signal::Found, Signal::Found).is_robust());
}

#[test]
fn counter_gates_negative_tallies_on_recall() {
    let mut c = EvalCounter::new(4);
    c.count(&EvalResults(EvalResult::FN, EvalResult::FP));
    c.count(&EvalResults(EvalResult::FN, EvalResult::TN));
    assert_eq!((c.fp_count, c.tn_count, c.fn_count), (0, 0, 2));
    c.count(&EvalResults(EvalResult::TP, EvalResult::FP));
    c.count(&ROBUST);
    c.count(&EvalResults(EvalResult::Error, EvalResult::Error));
    assert_eq!(c.variant_count, 5);
    assert_eq!(c.tp_count, 2);
    assert_eq!(c.fp_count, 1);
    assert_eq!(c.tn_count, 1);
    assert_eq!(c.pos_err_count, 1);
    assert_eq!(c.neg_err_count, 1);
    assert_eq!(c.robust_count, 1);
    assert_eq!(c.idx, 4);
}

#[test]
fn expr_ids_pad_the_sequence_number() {
    assert_eq!(Expr::new(7, s(""), 2, 1, s("")).num, "007-2-1");
    assert_eq!(Expr::new(1234, s(""), 0, 0, s("")).num, "1234-0-0");
    let root = Expr::source();
    assert_eq!(root.num, "000-0-0");
    assert_eq!(root.code, "SOURCE!()");
    assert_eq!(root.fill_source(&s("x")), "x");
}

#[test]
fn flow_fills_type_value_condition_and_source_once() {
    let f = flow("F", "if COND!() { let v: TYPE!() = VALUE!(); SOURCE!() } else { SOURCE!() }");
    let tc = testcase("UAF");
    let mut pool = Exprs::new();
    pool.push(Expr::source());
    let e = f.into_expr(5, &Expr::source(), &pool, &tc);
    assert_eq!(
        e.code,
        "if true { let v: Layout = {\n42\n}; {\nSOURCE!()\n} } else { SOURCE!() }"
    );
    assert_eq!((e.length, e.depth), (1, 0));
    assert_eq!(e.num, "005-1-0");
}

#[test]
fn generic_expression_marker_takes_a_pool_fragment() {
    let f = flow("G", "EXPRE!(x) + SOURCE!()");
    let tc = testcase("UAF");
    let mut pool = Exprs::new();
    pool.push(Expr::source());
    let e = f.into_expr(1, &Expr::source(), &pool, &tc);
    assert_eq!(e.code, "{\nx\n} + {\nSOURCE!()\n}");
    assert_eq!((e.length, e.depth), (1, 1));
    assert_eq!(e.num, "001-1-1");
}

#[test]
fn markers_are_found_on_one_line_only() {
    let f = flow("M", "EXPRE!(a) EXPRE!(b\n) EXPRE!(c)SOURCE!()");
    let tc = testcase("UAF");
    let mut pool = Exprs::new();
    pool.push(Expr::source());
    let e = f.into_expr(2, &Expr::source(), &pool, &tc);
    assert_eq!(e.code, "{\na\n} EXPRE!(b\n) {\nc\n}{\nSOURCE!()\n}");
    assert_eq!(e.depth, 1);
}

#[test]
fn programs_nest_the_fragment_into_both_skeletons() {
    let tc = testcase("UAF");
    let (p, n) = tc.into_programs(&s("wrap(SOURCE!())"));
    assert_eq!(p.merge(), "fn main() { let x = {\nwrap(pos_src())\n}; }");
    assert_eq!(n.code, "fn main() { let y = {\nwrap(neg_src())\n}; }");
}

#[test]
fn scenario_two_flows_one_retired() {
    let tc = testcase("UAF");
    let flows = vec![flow("A", "a(SOURCE!())"), flow("B", "b(SOURCE!())")];
    let mut search = Search::new(0, &tc, flows, 2, ROBUST);
    let mut attempts = Vec::new();
    while let Some(e) = search.next_variant(&tc) {
        let res = if e.code.starts_with("b(") {
            EvalResults(EvalResult::TP, EvalResult::FP)
        } else {
            ROBUST
        };
        attempts.push(e.num.clone());
        search.record(res);
    }
    assert_eq!(attempts, vec![s("001-1-0"), s("002-1-0"), s("003-2-0")]);
    assert_eq!(search.counter.variant_count, 4);
    assert_eq!(search.tree.count_nodes(), 4);
    assert_eq!(search.tree.nodes[0].children, vec![1, 2]);
    assert_eq!(search.tree.nodes[1].children, vec![3]);
    assert_eq!(search.tree.nodes[3].parent, Some(1));
    assert_eq!(search.map.get("B"), Some(s("002-1-0 FP")));
    assert_eq!(search.map.get("A"), None);
    assert_eq!(search.map.to_vec(&search.flows), vec![s("-"), s("-"), s("002-1-0 FP")]);
    assert_eq!(search.counter.robust_count, 3);
    assert_eq!(search.counter.tp_count, 4);
    assert_eq!(search.counter.tn_count, 3);
    assert_eq!(search.counter.fp_count, 1);
    assert_eq!(search.counter.fn_count + search.counter.pos_err_count + search.counter.neg_err_count, 0);
    assert!(search.tree.nodes[2].children.is_empty());
    assert!(search.tree.nodes[3].children.is_empty());
}

#[test]
fn non_robust_baseline_stops_at_once() {
    let tc = testcase("UAF");
    let flows = vec![flow("A", "a(SOURCE!())")];
    let mut search = Search::new(3, &tc, flows, 2, EvalResults(EvalResult::FN, EvalResult::TN));
    assert!(search.next_variant(&tc).is_none());
    assert_eq!(search.tree.count_nodes(), 1);
    assert_eq!(search.counter.variant_count, 1);
    assert_eq!(search.map.get("-"), Some(s("UAF FN")));
    assert_eq!(search.map.to_vec(&search.flows), vec![s("UAF FN"), s("-")]);
}

#[test]
fn zero_length_cap_explores_nothing() {
    let tc = testcase("UAF");
    let mut search = Search::new(0, &tc, vec![flow("A", "a(SOURCE!())")], 0, ROBUST);
    assert!(search.next_variant(&tc).is_none());
    assert_eq!(search.tree.count_nodes(), 1);
    assert_eq!(search.map.get("-"), None);
}

#[test]
fn fragments_never_exceed_the_cap() {
    let tc = testcase("UAF");
    let flows = vec![flow("A", "a(SOURCE!())"), flow("B", "b(EXPRE!(p) SOURCE!())")];
    let mut search = Search::new(0, &tc, flows, 3, ROBUST);
    let mut n = 0;
    while let Some(e) = search.next_variant(&tc) {
        assert!(e.length <= 3);
        n += 1;
        search.record(ROBUST);
    }
    // two flows on 1 + 2 + 4 fragments shorter than the cap
    assert_eq!(n, 14);
    assert_eq!(search.counter.variant_count, 15);
    assert_eq!(search.tree.count_nodes(), 15);
}

#[test]
fn map_records_tags() {
    let mut m = EvalMap::new();
    m.insert(s("F"), "004-2-1", &EvalResults(EvalResult::FN, EvalResult::FP));
    m.insert(s("G"), "005-2-1", &EvalResults(EvalResult::Error, EvalResult::TN));
    m.insert(s("H"), "006-2-1", &EvalResults(EvalResult::FN, EvalResult::TN));
    assert_eq!(m.get("F"), Some(s("004-2-1 FN & FP")));
    assert_eq!(m.get("G"), Some(s("005-2-1 Error")));
    assert_eq!(m.get("H"), Some(s("006-2-1 FN")));
    assert!(m.contains_key("H"));
    assert!(!m.contains_key("-"));
}

#[test]
fn filter_and_targets() {
    let tcs = vec![testcase("UAF"), testcase("DF"), testcase("UAF")];
    let cfg = Config::new(tcs, vec![], 2);
    let mut ev = Evaluator::new(cfg, vec![]);
    assert_eq!(ev.targets_to_run(), vec![0, 1, 2]);
    ev.set_target_by_ty(Kind::UAF.as_str());
    assert_eq!(ev.targets, vec![0, 2]);
    assert_eq!(ev.check_targets(), None);
    assert_eq!(Kind::Uninit.as_str(), "Uninit");
}

#[test]
fn out_of_range_index_is_reported_before_any_run() {
    let cfg = Config::new(vec![testcase("UAF")], vec![], 2);
    let ev = Evaluator::new(cfg, vec![0, 5, 9]);
    assert_eq!(ev.check_targets(), Some(5));
}

#[test]
fn summary_and_report() {
    let mut a = EvalCounter::new(0);
    a.count(&ROBUST);
    a.count(&ROBUST);
    let mut b = EvalCounter::new(1);
    b.count(&EvalResults(EvalResult::FN, EvalResult::TN));
    let mut c = EvalCounter::new(2);
    c.count(&ROBUST);
    c.count(&EvalResults(EvalResult::TP, EvalResult::FP));
    let sum = EvalSummary::summary(s("Tool"), &[a, b, c]);
    assert_eq!(sum.case_num, 3);
    assert_eq!(sum.robust_detection, Metric { normal: 2, absolute: 1 });
    assert_eq!(sum.true_positive, Metric { normal: 2, absolute: 2 });
    assert_eq!(sum.false_negative, Metric { normal: 1, absolute: 1 });
    assert_eq!(sum.false_postive, Metric { normal: 1, absolute: 0 });
    assert_eq!(sum.true_negative, Metric { normal: 2, absolute: 1 });
    assert_eq!(sum.positive_error, Metric { normal: 0, absolute: 0 });
    assert_eq!(sum.true_positive.to_text(), "2 (2)");
    let report = sum.report();
    assert!(report.starts_with("在 3 个基础用例的正例中有 1 个正例为漏报和 0 个正例为错误"));
    assert!(report.contains("只有 1 个基础用例"));
}

#[test]
fn true_negatives_are_held_against_all_variants() {
    let mut c = EvalCounter::new(0);
    c.count(&ROBUST);
    c.count(&EvalResults(EvalResult::FN, EvalResult::TN));
    let sum = EvalSummary::summary(s("Tool"), &[c]);
    assert_eq!(sum.true_negative, Metric { normal: 1, absolute: 0 });
    assert_eq!(sum.false_negative, Metric { normal: 1, absolute: 0 });
}

#[test]
fn empty_tree_has_only_the_frame() {
    let tree = EvalTree::new();
    assert_eq!(tree.to_dot(), "digraph EvalTree {\nnode [shape=ellipse];\n}");
}

#[test]
fn metric_counts_nonzero_and_full() {
    let mut m = Metric { normal: 0, absolute: 0 };
    m.count(0, 5);
    m.count(3, 5);
    m.count(5, 5);
    assert_eq!(m, Metric { normal: 2, absolute: 1 });
}

#[test]
fn random_expr_draws_from_the_pool() {
    let mut pool = Exprs::new();
    assert!(pool.random_expr().is_none());
    pool.push(Expr::new(0, s("first"), 0, 0, s("")));
    pool.push(Expr::new(1, s("second"), 1, 0, s("")));
    for _ in 0..20 {
        let e = pool.random_expr().unwrap();
        assert!(e.code == "first" || e.code == "second");
        assert!(pool.random_pick() < 2);
    }
    assert_eq!(pool.len(), 2);
    assert_eq!(pool.get(1).code, "second");
}
