use tfdeploy::dim::DimFact;
use tfdeploy::errors::Error;
use tfdeploy::fact::{fact_eq, merge_fact, Fact, ShapeFact};
use tfdeploy::model::{Model, NodeDef};
use tfdeploy::ops::OpKind;
use tfdeploy::plan::Plan;
use tfdeploy::streaming::StreamingPlan;
use tfdeploy::tensor::{tensor_eq, DatumType, Tensor};
use tfdeploy::for_path;

fn def(name: &str, op: OpKind, inputs: Vec<(&str, usize)>) -> NodeDef {
    NodeDef {
        name: name.to_string(),
        op,
        inputs: inputs.into_iter().map(|(n, s)| (n.to_string(), s)).collect(),
    }
}

fn t1(data: Vec<i64>) -> Tensor {
    let n = data.len();
    Tensor::from_parts(DatumType::I64, vec![n], data).unwrap()
}

fn plus3_model() -> Model {
    for_path(vec![
        def("input", OpKind::Source, vec![]),
        def("output", OpKind::AddConst(3), vec![("input", 0)]),
    ])
    .unwrap()
}

#[test]
fn build_orders_producers_first() {
    // Declared out of order on purpose: the topological order must still
    // put every producer before its consumer.
    let m = for_path(vec![
        def("c", OpKind::AddConst(1), vec![("b", 0)]),
        def("b", OpKind::AddConst(2), vec![("a", 0)]),
        def("a", OpKind::Source, vec![]),
    ])
    .unwrap();
    let order = m.nodes_in_topological_order().clone();
    assert_eq!(order.len(), 3);
    let pos = |id: usize| order.iter().position(|x| *x == id).unwrap();
    // node ids follow declaration order: c=0, b=1, a=2
    assert!(pos(2) < pos(1));
    assert!(pos(1) < pos(0));
}

#[test]
fn build_rejects_cycle() {
    let r = for_path(vec![
        def("a", OpKind::AddConst(1), vec![("b", 0)]),
        def("b", OpKind::AddConst(2), vec![("a", 0)]),
    ]);
    assert!(matches!(r, Err(Error::GraphError(_))));
}

#[test]
fn build_rejects_self_loop() {
    let r = for_path(vec![def("a", OpKind::AddConst(1), vec![("a", 0)])]);
    assert!(matches!(r, Err(Error::GraphError(_))));
}

#[test]
fn build_rejects_dangling_reference() {
    let r = for_path(vec![def("a", OpKind::AddConst(1), vec![("ghostly", 0)])]);
    assert!(matches!(r, Err(Error::GraphError(_))));
}

#[test]
fn build_rejects_duplicate_name() {
    let r = for_path(vec![
        def("a", OpKind::Source, vec![]),
        def("a", OpKind::Source, vec![]),
    ]);
    assert!(matches!(r, Err(Error::GraphError(_))));
}

#[test]
fn build_rejects_bad_slot() {
    let r = for_path(vec![
        def("a", OpKind::Source, vec![]),
        def("b", OpKind::AddConst(1), vec![("a", 7)]),
    ]);
    assert!(matches!(r, Err(Error::GraphError(_))));
}

#[test]
fn merge_unknown_absorbs() {
    let known = Fact {
        dt: Some(DatumType::I64),
        shape: ShapeFact::Ranked(vec![DimFact::Fixed(3)]),
        value: None,
    };
    let m = merge_fact(&Fact::unknown(), &known).unwrap();
    assert!(fact_eq(&m, &known));
    let m2 = merge_fact(&known, &Fact::unknown()).unwrap();
    assert!(fact_eq(&m2, &known));
}

#[test]
fn merge_rank_conflict_fails() {
    let rank1 = Fact {
        dt: None,
        shape: ShapeFact::Ranked(vec![DimFact::Fixed(3)]),
        value: None,
    };
    let rank2 = Fact {
        dt: None,
        shape: ShapeFact::Ranked(vec![DimFact::AnyDim, DimFact::AnyDim]),
        value: None,
    };
    assert!(merge_fact(&rank1, &rank2).is_none());
}

#[test]
fn merge_dt_conflict_fails() {
    let a = Fact { dt: Some(DatumType::I64), shape: ShapeFact::AnyRank, value: None };
    let b = Fact { dt: Some(DatumType::I32), shape: ShapeFact::AnyRank, value: None };
    assert!(merge_fact(&a, &b).is_none());
}

#[test]
fn dim_unify_rules() {
    assert_eq!(DimFact::AnyDim.unify(DimFact::Fixed(4)), Ok(DimFact::Fixed(4)));
    // A known dimension unified with the streaming marker yields streaming.
    assert_eq!(DimFact::Fixed(4).unify(DimFact::Streamed), Ok(DimFact::Streamed));
    assert_eq!(DimFact::Fixed(4).unify(DimFact::Fixed(4)), Ok(DimFact::Fixed(4)));
    assert_eq!(DimFact::Fixed(4).unify(DimFact::Fixed(5)), Err(Error::ShapeConflict));
    // Arithmetic propagates streaming.
    assert_eq!(DimFact::Streamed.plus(DimFact::Fixed(2)), Some(DimFact::Streamed));
    assert_eq!(DimFact::Fixed(2).times(DimFact::Streamed), Some(DimFact::Streamed));
    assert_eq!(DimFact::Fixed(2).plus(DimFact::Fixed(3)), Some(DimFact::Fixed(5)));
}

#[test]
fn plus_three_scenario() {
    // One placeholder feeding one elementwise add of the constant 3.
    let m = plus3_model();
    let plan = Plan::new(&m, &vec!["input".to_string()], &vec!["output".to_string()]).unwrap();
    let out = plan.run(vec![t1(vec![1, 2, 5])]).unwrap();
    assert_eq!(out.len(), 1);
    assert!(tensor_eq(&out[0], &t1(vec![4, 5, 8])));
}

#[test]
fn run_is_pure() {
    let m = plus3_model();
    let plan = Plan::new(&m, &vec!["input".to_string()], &vec!["output".to_string()]).unwrap();
    let a = plan.run(vec![t1(vec![7, -2, 0])]).unwrap();
    let b = plan.run(vec![t1(vec![7, -2, 0])]).unwrap();
    assert_eq!(a.len(), b.len());
    assert!(tensor_eq(&a[0], &b[0]));
}

#[test]
fn missing_output_name_not_found() {
    let m = plus3_model();
    let r = Plan::new(&m, &vec!["input".to_string()], &vec!["nosuch".to_string()]);
    assert_eq!(r.err(), Some(Error::NotFound("nosuch".to_string())));
    // The model is untouched: it still answers lookups as before.
    assert!(m.node(&"output".to_string()).is_ok());
}

#[test]
fn arity_mismatch() {
    let m = plus3_model();
    let plan = Plan::new(&m, &vec!["input".to_string()], &vec!["output".to_string()]).unwrap();
    let r = plan.run(vec![]);
    assert_eq!(r.err(), Some(Error::ArityMismatch));
}

#[test]
fn pruning_skips_unneeded_nodes() {
    // An unfed placeholder sits outside the requested closure; if the
    // plan evaluated it the run would fail, so success shows it was
    // never evaluated.
    let m = for_path(vec![
        def("input", OpKind::Source, vec![]),
        def("stray", OpKind::Source, vec![]),
        def("deadend", OpKind::AddConst(9), vec![("stray", 0)]),
        def("output", OpKind::AddConst(3), vec![("input", 0)]),
    ])
    .unwrap();
    let plan = Plan::new(&m, &vec!["input".to_string()], &vec!["output".to_string()]).unwrap();
    let out = plan.run(vec![t1(vec![10])]).unwrap();
    assert!(tensor_eq(&out[0], &t1(vec![13])));
}

#[test]
fn analyser_infers_and_is_idempotent() {
    let mut m = plus3_model();
    let given = vec![(
        "input".to_string(),
        Fact {
            dt: Some(DatumType::I64),
            shape: ShapeFact::Ranked(vec![DimFact::Fixed(3)]),
            value: None,
        },
    )];
    m.analyse(&given).unwrap();
    let snap: Vec<Fact> = (0..m.facts.len()).map(|i| m.fact_of(i).dup()).collect();
    // The output fact has been propagated forward.
    let out_id = m.node_id(&"output".to_string()).unwrap();
    let of = m.fact_of(out_id);
    assert_eq!(of.dt, Some(DatumType::I64));
    assert!(matches!(&of.shape, ShapeFact::Ranked(d) if d.len() == 1));
    // Running the fixpoint again changes nothing.
    m.analyse(&given).unwrap();
    for i in 0..m.facts.len() {
        assert!(fact_eq(&snap[i], m.fact_of(i)));
    }
}

#[test]
fn analyse_unknown_name_not_found() {
    let mut m = plus3_model();
    let given = vec![("nosuch".to_string(), Fact::unknown())];
    assert_eq!(m.analyse(&given), Err(Error::NotFound("nosuch".to_string())));
}

#[test]
fn wrong_rank_input_fails_before_eval() {
    let mut m = plus3_model();
    let given = vec![(
        "input".to_string(),
        Fact {
            dt: Some(DatumType::I64),
            shape: ShapeFact::Ranked(vec![DimFact::Fixed(3)]),
            value: None,
        },
    )];
    m.analyse(&given).unwrap();
    let plan = Plan::new(&m, &vec!["input".to_string()], &vec!["output".to_string()]).unwrap();
    // Rank 2 where rank 1 was inferred.
    let bad = Tensor::from_parts(DatumType::I64, vec![1, 3], vec![1, 2, 5]).unwrap();
    assert_eq!(plan.run(vec![bad]).err(), Some(Error::ShapeConflict));
    // Wrong datum type where I64 was inferred.
    let bad_dt = Tensor::from_parts(DatumType::I32, vec![3], vec![1, 2, 5]).unwrap();
    assert_eq!(plan.run(vec![bad_dt]).err(), Some(Error::TypeMismatch));
}

#[test]
fn fact_conflict_surfaces_node_name() {
    let mut m = plus3_model();
    // The analyser has already committed "input" to rank 1 — a rank-2
    // seed contradicts it.
    let rank1 = Fact {
        dt: None,
        shape: ShapeFact::Ranked(vec![DimFact::Fixed(3)]),
        value: None,
    };
    let rank2 = Fact {
        dt: None,
        shape: ShapeFact::Ranked(vec![DimFact::AnyDim, DimFact::AnyDim]),
        value: None,
    };
    let given = vec![("input".to_string(), rank1), ("input".to_string(), rank2)];
    assert_eq!(m.analyse(&given), Err(Error::FactConflict("input".to_string())));
}

#[test]
fn const_value_propagates() {
    let mut m = for_path(vec![
        def("k", OpKind::Const(t1(vec![5, 6])), vec![]),
        def("out", OpKind::AddConst(1), vec![("k", 0)]),
    ])
    .unwrap();
    m.analyse(&vec![]).unwrap();
    let kid = m.node_id(&"k".to_string()).unwrap();
    let f = m.fact_of(kid);
    assert_eq!(f.dt, Some(DatumType::I64));
    assert!(f.value.is_some());
    let plan = Plan::new(&m, &vec![], &vec!["out".to_string()]).unwrap();
    let out = plan.run(vec![]).unwrap();
    assert!(tensor_eq(&out[0], &t1(vec![6, 7])));
}

#[test]
fn add_pair_evaluates() {
    let m = for_path(vec![
        def("a", OpKind::Source, vec![]),
        def("b", OpKind::Source, vec![]),
        def("sum", OpKind::AddPair, vec![("a", 0), ("b", 0)]),
    ])
    .unwrap();
    let plan = Plan::new(
        &m,
        &vec!["a".to_string(), "b".to_string()],
        &vec!["sum".to_string()],
    )
    .unwrap();
    let out = plan.run(vec![t1(vec![1, 2]), t1(vec![10, 20])]).unwrap();
    assert!(tensor_eq(&out[0], &t1(vec![11, 22])));
}

#[test]
fn eval_overflow_is_an_error() {
    let m = for_path(vec![
        def("input", OpKind::Source, vec![]),
        def("output", OpKind::AddConst(i64::MAX), vec![("input", 0)]),
    ])
    .unwrap();
    let plan = Plan::new(&m, &vec!["input".to_string()], &vec!["output".to_string()]).unwrap();
    assert_eq!(plan.run(vec![t1(vec![1])]).err(), Some(Error::EvalError));
}

#[test]
fn tensor_extraction_checks_tag() {
    let t = t1(vec![1, 2]);
    assert!(t.take_i64s().is_ok());
    assert_eq!(t.take_i32s().err(), Some(Error::TypeMismatch));
    let t32 = Tensor::from_parts(DatumType::I32, vec![2], vec![1, 2]).unwrap();
    assert_eq!(t32.take_i32s().unwrap(), vec![1, 2]);
}

#[test]
fn tensor_rejects_bad_buffer() {
    assert_eq!(
        Tensor::from_parts(DatumType::I64, vec![2, 2], vec![1, 2, 3]).err(),
        Some(Error::ShapeConflict)
    );
    assert_eq!(
        Tensor::from_parts(DatumType::I32, vec![1], vec![i64::MAX]).err(),
        Some(Error::TypeMismatch)
    );
}

#[test]
fn streaming_matches_batch() {
    // input -> +3 -> +4 -> output, streamed in blocks of two.
    let m = for_path(vec![
        def("input", OpKind::Source, vec![]),
        def("mid", OpKind::AddConst(3), vec![("input", 0)]),
        def("output", OpKind::AddConst(4), vec![("mid", 0)]),
    ])
    .unwrap();
    let mut sp =
        StreamingPlan::new(&m, &"input".to_string(), &"output".to_string(), 2).unwrap();
    let mut streamed: Vec<i64> = Vec::new();
    streamed.extend(sp.step(&vec![1, 2, 3]).unwrap());
    streamed.extend(sp.step(&vec![4]).unwrap());
    assert!(sp.close().is_ok());
    // The same data in one non-streaming evaluation.
    let plan = Plan::new(&m, &vec!["input".to_string()], &vec!["output".to_string()]).unwrap();
    let whole = plan.run(vec![t1(vec![1, 2, 3, 4])]).unwrap();
    assert_eq!(streamed, whole[0].take_i64s().unwrap());
    assert_eq!(streamed, vec![8, 9, 10, 11]);
}

#[test]
fn streaming_chunking_is_invisible() {
    // The same data split two different ways emits the same output.
    let m = plus3_model();
    let mut a =
        StreamingPlan::new(&m, &"input".to_string(), &"output".to_string(), 2).unwrap();
    let mut ea: Vec<i64> = Vec::new();
    ea.extend(a.step(&vec![1]).unwrap());
    ea.extend(a.step(&vec![2, 3]).unwrap());
    ea.extend(a.step(&vec![4]).unwrap());
    assert!(a.close().is_ok());
    let mut b =
        StreamingPlan::new(&m, &"input".to_string(), &"output".to_string(), 2).unwrap();
    let mut eb: Vec<i64> = Vec::new();
    eb.extend(b.step(&vec![1, 2, 3, 4]).unwrap());
    assert!(b.close().is_ok());
    assert_eq!(ea, eb);
    assert_eq!(ea, vec![4, 5, 6, 7]);
}

#[test]
fn streaming_reports_incomplete_tail() {
    let m = plus3_model();
    let mut sp =
        StreamingPlan::new(&m, &"input".to_string(), &"output".to_string(), 2).unwrap();
    let out = sp.step(&vec![1, 2, 3]).unwrap();
    assert_eq!(out, vec![4, 5]);
    // One element stays buffered: closing surfaces it.
    assert_eq!(sp.close(), Err(Error::IncompleteStream));
}

#[test]
fn streaming_rejects_non_chain() {
    let m = for_path(vec![
        def("a", OpKind::Source, vec![]),
        def("b", OpKind::Source, vec![]),
        def("sum", OpKind::AddPair, vec![("a", 0), ("b", 0)]),
    ])
    .unwrap();
    let r = StreamingPlan::new(&m, &"a".to_string(), &"sum".to_string(), 2);
    assert_eq!(r.err(), Some(Error::Unsupported));
    // Only the elementwise operators can take part in a streaming chain.
    assert!(OpKind::AddConst(3).is_elementwise());
    assert!(!OpKind::AddPair.is_elementwise());
    assert!(!OpKind::Source.is_elementwise());
}
