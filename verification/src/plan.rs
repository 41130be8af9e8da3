use vstd::prelude::*;
use crate::dim::DimFact;
use crate::errors::Error;
use crate::fact::{Fact, FactView, fact_view};
use crate::model::{Model, Node, model_wf, order_pos};
use crate::node_set::{NodeSet, node_set_elems};
use crate::ops::{TensorData, op_wf, spec_eval, tensor_views};
use crate::tensor::{Tensor, tensor_wf};
use crate::fact::tensor_view;

verus! {

broadcast use vstd::seq_lib::group_seq_properties;

/// Whether a concrete tensor fits an inferred fact: the tag must match a
/// known datum type, the rank a known rank, and every axis a fixed
/// extent. A streaming or unknown axis accepts any extent.
pub open spec fn spec_compat(fv: FactView, t: TensorData) -> Result<(), Error> {
    if fv.dt is Some && fv.dt->Some_0 != t.0 {
        Err(Error::TypeMismatch)
    } else {
        match fv.shape {
            None => Ok(()),
            Some(dims) => if dims.len() != t.1.len() {
                Err(Error::ShapeConflict)
            } else if exists|ax: int|
                0 <= ax < dims.len() && dims[ax] is Fixed && dims[ax]->Fixed_0 != t.1[ax] {
                Err(Error::ShapeConflict)
            } else {
                Ok(())
            },
        }
    }
}

/// Checks the supplied tensors against the inferred facts of the input
/// nodes, first mismatch first.
pub open spec fn spec_check(
    facts: Seq<Fact>,
    input_ids: Seq<usize>,
    ins: Seq<TensorData>,
    upto: int,
) -> Result<(), Error>
    decreases upto,
{
    if upto <= 0 {
        Ok(())
    } else {
        match spec_check(facts, input_ids, ins, upto - 1) {
            Err(e) => Err(e),
            Ok(_) => spec_compat(fact_view(facts[input_ids[upto - 1] as int]), ins[upto - 1]),
        }
    }
}

/// The per-node value column as pure data.
pub open spec fn oval_views(s: Seq<Option<Tensor>>) -> Seq<Option<TensorData>> {
    Seq::new(
        s.len(),
        |k: int|
            match s[k] {
                Option::None => None,
                Option::Some(t) => Some(tensor_view(t)),
            },
    )
}

/// Placing the supplied input tensors at their nodes, in order.
pub open spec fn spec_place(
    values: Seq<Option<TensorData>>,
    input_ids: Seq<usize>,
    ins: Seq<TensorData>,
    upto: int,
) -> Seq<Option<TensorData>>
    decreases upto,
{
    if upto <= 0 {
        values
    } else {
        spec_place(values, input_ids, ins, upto - 1).update(
            input_ids[upto - 1] as int,
            Some(ins[upto - 1]),
        )
    }
}

/// The values of one node's inputs, in edge order.
pub open spec fn spec_gather_vals(
    nodes: Seq<Node>,
    values: Seq<Option<TensorData>>,
    i: int,
) -> Seq<TensorData> {
    Seq::new(nodes[i].inputs@.len(), |j: int| values[nodes[i].inputs@[j].0 as int]->Some_0)
}

/// One evaluation visit: a node outside the plan or standing for a
/// supplied input is left alone; any other node's operator runs on its
/// inputs' values.
pub open spec fn spec_step(
    nodes: Seq<Node>,
    needed: Seq<bool>,
    input_ids: Seq<usize>,
    values: Seq<Option<TensorData>>,
    i: int,
) -> Result<Seq<Option<TensorData>>, Error> {
    if !needed[i] || input_ids.contains(i as usize) {
        Ok(values)
    } else {
        match spec_eval(nodes[i].op, spec_gather_vals(nodes, values, i)) {
            Err(e) => Err(e),
            Ok(t) => Ok(values.update(i, Some(t))),
        }
    }
}

/// Evaluation over the first `upto` entries of the topological order.
pub open spec fn spec_eval_loop(
    nodes: Seq<Node>,
    needed: Seq<bool>,
    input_ids: Seq<usize>,
    order: Seq<usize>,
    values: Seq<Option<TensorData>>,
    upto: int,
) -> Result<Seq<Option<TensorData>>, Error>
    decreases upto,
{
    if upto <= 0 {
        Ok(values)
    } else {
        match spec_eval_loop(nodes, needed, input_ids, order, values, upto - 1) {
            Err(e) => Err(e),
            Ok(v) => spec_step(nodes, needed, input_ids, v, order[upto - 1] as int),
        }
    }
}

/// The requested outputs, in request order.
pub open spec fn spec_outputs(values: Seq<Option<TensorData>>, output_ids: Seq<usize>) -> Seq<
    TensorData,
> {
    Seq::new(output_ids.len(), |j: int| values[output_ids[j] as int]->Some_0)
}

/// What one whole run returns: arity check, fact check, evaluation in
/// topological order over the pruned node set, then the outputs.
pub open spec fn spec_run(
    m: Model,
    needed: Seq<bool>,
    input_ids: Seq<usize>,
    output_ids: Seq<usize>,
    ins: Seq<TensorData>,
) -> Result<Seq<TensorData>, Error> {
    if ins.len() != input_ids.len() {
        Err(Error::ArityMismatch)
    } else {
        match spec_check(m.facts@, input_ids, ins, input_ids.len() as int) {
            Err(e) => Err(e),
            Ok(_) => {
                let v0 = spec_place(
                    Seq::new(m.nodes@.len(), |k: int| None),
                    input_ids,
                    ins,
                    input_ids.len() as int,
                );
                match spec_eval_loop(
                    m.nodes@,
                    needed,
                    input_ids,
                    m.order@,
                    v0,
                    m.order@.len() as int,
                ) {
                    Err(e) => Err(e),
                    Ok(vals) => Ok(spec_outputs(vals, output_ids)),
                }
            },
        }
    }
}

/// Whether the model has a node of the given name.
pub open spec fn has_node(m: Model, name: Seq<char>) -> bool {
    exists|i: int| 0 <= i < m.nodes@.len() && #[trigger] m.nodes@[i].name@ == name
}

/// A set of nodes closed for a request: it holds the requested outputs,
/// and with every held node that is not a requested input, the node's
/// producers. The transitive dependency closure is the least such set.
pub open spec fn covers(
    nodes: Seq<Node>,
    input_ids: Seq<usize>,
    output_ids: Seq<usize>,
    s: Set<int>,
) -> bool {
    &&& forall|j: int| 0 <= j < output_ids.len() ==> s.contains(output_ids[j] as int)
    &&& forall|i: int, j: int|
        #![trigger nodes[i].inputs@[j]]
        0 <= i < nodes.len() && s.contains(i) && !input_ids.contains(i as usize) && 0 <= j
            < nodes[i].inputs@.len() ==> s.contains(nodes[i].inputs@[j].0 as int)
}

/// A reusable evaluation plan: the pruned node set and the resolved
/// request, over an immutable model. It may serve many runs.
pub struct Plan<'m> {
    pub model: &'m Model,
    pub needed: Vec<bool>,
    pub input_ids: Vec<usize>,
    pub output_ids: Vec<usize>,
}

/// The plan invariant: well-formed model, resolved ids in range, every
/// requested output in the plan, and the plan closed under producers
/// away from the requested inputs.
pub open spec fn plan_wf(p: Plan) -> bool {
    &&& model_wf(*p.model)
    &&& p.needed@.len() == p.model.nodes@.len()
    &&& forall|j: int| 0 <= j < p.input_ids@.len() ==> p.input_ids@[j] < p.model.nodes@.len()
    &&& forall|j: int| 0 <= j < p.output_ids@.len() ==> p.output_ids@[j] < p.model.nodes@.len()
    &&& forall|j: int| 0 <= j < p.output_ids@.len() ==> p.needed@[p.output_ids@[j] as int]
    &&& forall|i: int, j: int|
        #![trigger p.model.nodes@[i].inputs@[j]]
        0 <= i < p.model.nodes@.len() && p.needed@[i] && !p.input_ids@.contains(i as usize) && 0
            <= j < p.model.nodes@[i].inputs@.len() ==> p.needed@[p.model.nodes@[i].inputs@[j].0
            as int]
}

/// Whether a list of ids holds a value.
#[verifier::loop_isolation(false)]
fn contains_id(v: &Vec<usize>, x: usize) -> (r: bool)
    ensures
        r == v@.contains(x),
{
    let mut k: usize = 0;
    while k < v.len()
        invariant
            0 <= k <= v@.len(),
            forall|kk: int| 0 <= kk < k ==> v@[kk] != x,
        decreases v@.len() - k,
    {
        if v[k] == x {
            return true;
        }
        k = k + 1;
    }
    false
}

proof fn lemma_check_err(
    facts: Seq<Fact>,
    input_ids: Seq<usize>,
    ins: Seq<TensorData>,
    j: int,
    upto: int,
    e: Error,
)
    requires
        0 <= j < upto <= ins.len(),
        spec_check(facts, input_ids, ins, j) is Ok,
        spec_compat(fact_view(facts[input_ids[j] as int]), ins[j]) == Err::<(), Error>(e),
    ensures
        spec_check(facts, input_ids, ins, upto) == Err::<(), Error>(e),
    decreases upto - j,
{
    if upto > j + 1 {
        lemma_check_err(facts, input_ids, ins, j, upto - 1, e);
    }
}

proof fn lemma_eval_loop_err(
    nodes: Seq<Node>,
    needed: Seq<bool>,
    input_ids: Seq<usize>,
    order: Seq<usize>,
    values: Seq<Option<TensorData>>,
    p: int,
    upto: int,
    e: Error,
)
    requires
        0 <= p < upto <= order.len(),
        spec_eval_loop(nodes, needed, input_ids, order, values, p) is Ok,
        spec_step(
            nodes,
            needed,
            input_ids,
            spec_eval_loop(nodes, needed, input_ids, order, values, p)->Ok_0,
            order[p] as int,
        ) == Err::<Seq<Option<TensorData>>, Error>(e),
    ensures
        spec_eval_loop(nodes, needed, input_ids, order, values, upto) == Err::<
            Seq<Option<TensorData>>,
            Error,
        >(e),
    decreases upto - p,
{
    if upto > p + 1 {
        lemma_eval_loop_err(nodes, needed, input_ids, order, values, p, upto - 1, e);
    }
}

/// A run is a pure function of the plan and its inputs: two runs of one
/// plan on equal tensors return equal results, bit for bit.
pub proof fn lemma_run_deterministic(
    m: Model,
    needed: Seq<bool>,
    input_ids: Seq<usize>,
    output_ids: Seq<usize>,
    ins: Seq<TensorData>,
    r1: Result<Seq<TensorData>, Error>,
    r2: Result<Seq<TensorData>, Error>,
)
    requires
        r1 == spec_run(m, needed, input_ids, output_ids, ins),
        r2 == spec_run(m, needed, input_ids, output_ids, ins),
    ensures
        r1 == r2,
{
}

impl<'m> Plan<'m> {
    /// Builds a plan for the named inputs and outputs: resolves every
    /// name — `NotFound` carrying the name exactly when the model lacks
    /// it — and computes the transitive dependency closure of the
    /// outputs, stopping at the inputs. Nodes outside that closure are
    /// never evaluated by `run`: the final bound states that the plan is
    /// within every closed node set.
    #[verifier::loop_isolation(false)]
    #[verifier::rlimit(100)]
    pub fn new(model: &'m Model, inputs: &Vec<String>, outputs: &Vec<String>) -> (r: Result<
        Plan<'m>,
        Error,
    >)
        requires
            model_wf(*model),
        ensures
            r is Ok ==> {
                &&& plan_wf(r->Ok_0)
                &&& r->Ok_0.model == model
                &&& r->Ok_0.input_ids@.len() == inputs@.len()
                &&& r->Ok_0.output_ids@.len() == outputs@.len()
                &&& forall|j: int|
                    0 <= j < inputs@.len()
                        ==> model.nodes@[r->Ok_0.input_ids@[j] as int].name@ == inputs@[j]@
                &&& forall|j: int|
                    0 <= j < outputs@.len()
                        ==> model.nodes@[r->Ok_0.output_ids@[j] as int].name@ == outputs@[j]@
                &&& forall|s: Set<int>|
                    covers(model.nodes@, r->Ok_0.input_ids@, r->Ok_0.output_ids@, s)
                        ==> forall|i: int|
                        0 <= i < model.nodes@.len() && r->Ok_0.needed@[i] ==> s.contains(i)
            },
            r is Ok <==> ((forall|j: int|
                0 <= j < inputs@.len() ==> #[trigger] has_node(*model, inputs@[j]@)) && (
            forall|j: int| 0 <= j < outputs@.len() ==> #[trigger] has_node(*model, outputs@[j]@))),
            r is Err ==> r->Err_0 is NotFound,
    {
        let n = model.nodes.len();
        let mut input_ids: Vec<usize> = Vec::new();
        let mut j: usize = 0;
        while j < inputs.len()
            invariant
                0 <= j <= inputs@.len(),
                input_ids@.len() == j,
                forall|jj: int|
                    0 <= jj < j ==> (input_ids@[jj] < n && model.nodes@[input_ids@[jj] as int].name@
                        == inputs@[jj]@),
            decreases inputs@.len() - j,
        {
            match model.node_id(&inputs[j]) {
                Ok(i) => input_ids.push(i),
                Err(e) => {
                    proof {
                        assert(!has_node(*model, inputs@[j as int]@));
                    }
                    return Err(e);
                },
            }
            j = j + 1;
        }
        let mut output_ids: Vec<usize> = Vec::new();
        let mut j2: usize = 0;
        while j2 < outputs.len()
            invariant
                0 <= j2 <= outputs@.len(),
                output_ids@.len() == j2,
                forall|jj: int|
                    0 <= jj < j2 ==> (output_ids@[jj] < n
                        && model.nodes@[output_ids@[jj] as int].name@ == outputs@[jj]@),
            decreases outputs@.len() - j2,
        {
            match model.node_id(&outputs[j2]) {
                Ok(i) => output_ids.push(i),
                Err(e) => {
                    proof {
                        assert(!has_node(*model, outputs@[j2 as int]@));
                    }
                    return Err(e);
                },
            }
            j2 = j2 + 1;
        }
        // The transitive dependency closure, as a bit set of node
        // indices: seed the outputs, then saturate under producers,
        // stopping at the requested inputs.
        let mut ns = NodeSet::new();
        let mut j3: usize = 0;
        while j3 < output_ids.len()
            invariant
                0 <= j3 <= output_ids@.len(),
                node_set_elems(ns).finite(),
                node_set_elems(ns).subset_of(vstd::set_lib::set_int_range(0, n as int)),
                forall|jj: int|
                    0 <= jj < j3 ==> node_set_elems(ns).contains(output_ids@[jj] as int),
                forall|s: Set<int>|
                    #![trigger covers(model.nodes@, input_ids@, output_ids@, s)]
                    covers(model.nodes@, input_ids@, output_ids@, s) ==> node_set_elems(
                        ns,
                    ).subset_of(s),
            decreases output_ids@.len() - j3,
        {
            proof {
                assert forall|s: Set<int>|
                    #![trigger covers(model.nodes@, input_ids@, output_ids@, s)]
                    covers(model.nodes@, input_ids@, output_ids@, s) implies node_set_elems(
                    ns,
                ).insert(output_ids@[j3 as int] as int).subset_of(s) by {
                    assert(node_set_elems(ns).subset_of(s));
                    assert(s.contains(output_ids@[j3 as int] as int));
                    assert(node_set_elems(ns).insert(
                        output_ids@[j3 as int] as int,
                    ).subset_of(s)) by {
                        assert forall|a: int|
                            node_set_elems(ns).insert(
                                output_ids@[j3 as int] as int,
                            ).contains(a) implies s.contains(a) by {}
                    }
                }
            }
            ns.insert(output_ids[j3]);
            j3 = j3 + 1;
        }
        proof {
            vstd::set_lib::lemma_int_range(0, n as int);
            vstd::set_lib::lemma_len_subset(
                node_set_elems(ns),
                vstd::set_lib::set_int_range(0, n as int),
            );
        }
        loop
            invariant
                node_set_elems(ns).finite(),
                node_set_elems(ns).subset_of(vstd::set_lib::set_int_range(0, n as int)),
                node_set_elems(ns).len() <= n,
                forall|jj: int|
                    0 <= jj < output_ids@.len() ==> node_set_elems(ns).contains(
                        output_ids@[jj] as int,
                    ),
                forall|s: Set<int>|
                    #![trigger covers(model.nodes@, input_ids@, output_ids@, s)]
                    covers(model.nodes@, input_ids@, output_ids@, s) ==> node_set_elems(
                        ns,
                    ).subset_of(s),
            decreases n - node_set_elems(ns).len(),
        {
            let ghost before = node_set_elems(ns);
            let mut progressed = false;
            let mut i: usize = 0;
            while i < n
                invariant
                    0 <= i <= n,
                    node_set_elems(ns).finite(),
                    node_set_elems(ns).subset_of(vstd::set_lib::set_int_range(0, n as int)),
                    node_set_elems(ns).len() <= n,
                    before.subset_of(node_set_elems(ns)),
                    !progressed ==> node_set_elems(ns) == before,
                    progressed ==> before.len() < node_set_elems(ns).len(),
                    forall|jj: int|
                        0 <= jj < output_ids@.len() ==> node_set_elems(ns).contains(
                            output_ids@[jj] as int,
                        ),
                    forall|s: Set<int>|
                        #![trigger covers(model.nodes@, input_ids@, output_ids@, s)]
                        covers(model.nodes@, input_ids@, output_ids@, s) ==> node_set_elems(
                            ns,
                        ).subset_of(s),
                    !progressed ==> forall|a: int, jj: int|
                        #![trigger model.nodes@[a].inputs@[jj]]
                        0 <= a < i && node_set_elems(ns).contains(a) && !input_ids@.contains(
                            a as usize,
                        ) && 0 <= jj < model.nodes@[a].inputs@.len() ==> node_set_elems(
                            ns,
                        ).contains(model.nodes@[a].inputs@[jj].0 as int),
                decreases n - i,
            {
                if ns.contains(i) && !contains_id(&input_ids, i) {
                    let deps = &model.nodes[i].inputs;
                    let mut jj: usize = 0;
                    while jj < deps.len()
                        invariant
                            0 <= jj <= deps@.len(),
                            deps@ == model.nodes@[i as int].inputs@,
                            0 <= i < n,
                            node_set_elems(ns).finite(),
                            node_set_elems(ns).subset_of(
                                vstd::set_lib::set_int_range(0, n as int),
                            ),
                            node_set_elems(ns).len() <= n,
                            before.subset_of(node_set_elems(ns)),
                            !progressed ==> node_set_elems(ns) == before,
                            progressed ==> before.len() < node_set_elems(ns).len(),
                            node_set_elems(ns).contains(i as int),
                            !input_ids@.contains(i as usize),
                            forall|kk: int|
                                0 <= kk < output_ids@.len() ==> node_set_elems(ns).contains(
                                    output_ids@[kk] as int,
                                ),
                            forall|s: Set<int>|
                                #![trigger covers(model.nodes@, input_ids@, output_ids@, s)]
                                covers(model.nodes@, input_ids@, output_ids@, s)
                                    ==> node_set_elems(ns).subset_of(s),
                            !progressed ==> forall|a: int, kk: int|
                                #![trigger model.nodes@[a].inputs@[kk]]
                                0 <= a < i && node_set_elems(ns).contains(a)
                                    && !input_ids@.contains(a as usize) && 0 <= kk
                                    < model.nodes@[a].inputs@.len() ==> node_set_elems(
                                    ns,
                                ).contains(model.nodes@[a].inputs@[kk].0 as int),
                            forall|kk: int|
                                0 <= kk < jj ==> node_set_elems(ns).contains(deps@[kk].0 as int),
                        decreases deps@.len() - jj,
                    {
                        let k = deps[jj].0;
                        let ghost pre = node_set_elems(ns);
                        proof {
                            assert forall|s: Set<int>|
                                #![trigger covers(model.nodes@, input_ids@, output_ids@, s)]
                                covers(
                                    model.nodes@,
                                    input_ids@,
                                    output_ids@,
                                    s,
                                ) implies node_set_elems(ns).insert(k as int).subset_of(s) by {
                                assert(node_set_elems(ns).subset_of(s));
                                assert(s.contains(i as int));
                                assert(s.contains(
                                    model.nodes@[i as int].inputs@[jj as int].0 as int,
                                ));
                                assert forall|a: int|
                                    node_set_elems(ns).insert(k as int).contains(
                                        a,
                                    ) implies s.contains(a) by {}
                            }
                        }
                        let was_new = ns.insert(k);
                        proof {
                            vstd::set_lib::lemma_len_subset(
                                node_set_elems(ns),
                                vstd::set_lib::set_int_range(0, n as int),
                            );
                            if was_new {
                                vstd::set_lib::lemma_len_subset(before, pre);
                            } else {
                                assert(node_set_elems(ns) =~= pre);
                            }
                        }
                        if was_new {
                            progressed = true;
                        }
                        jj = jj + 1;
                    }
                }
                i = i + 1;
            }
            if !progressed {
                // A full scan added nothing: the set is closed. Freeze
                // it into a plain column.
                let mut needed: Vec<bool> = Vec::new();
                let mut i4: usize = 0;
                while i4 < n
                    invariant
                        0 <= i4 <= n,
                        needed@.len() == i4,
                        forall|k: int|
                            0 <= k < i4 ==> (needed@[k] <==> node_set_elems(ns).contains(k)),
                    decreases n - i4,
                {
                    needed.push(ns.contains(i4));
                    i4 = i4 + 1;
                }
                let p = Plan { model, needed, input_ids, output_ids };
                proof {
                    assert(plan_wf(p));
                    assert forall|j5: int|
                        0 <= j5 < inputs@.len() implies #[trigger] has_node(
                        *model,
                        inputs@[j5]@,
                    ) by {
                        assert(model.nodes@[p.input_ids@[j5] as int].name@ == inputs@[j5]@);
                    }
                    assert forall|j5: int|
                        0 <= j5 < outputs@.len() implies #[trigger] has_node(
                        *model,
                        outputs@[j5]@,
                    ) by {
                        assert(model.nodes@[p.output_ids@[j5] as int].name@ == outputs@[j5]@);
                    }
                }
                return Ok(p);
            }
        }
    }
}

/// Whether a concrete tensor fits an inferred fact.
#[verifier::loop_isolation(false)]
fn check_one(f: &Fact, t: &Tensor) -> (r: Result<(), Error>)
    ensures
        r == spec_compat(fact_view(*f), tensor_view(*t)),
{
    let dt_ok = match &f.dt {
        None => true,
        Some(d) => *d == t.dt,
    };
    if !dt_ok {
        return Err(Error::TypeMismatch);
    }
    match &f.shape {
        crate::fact::ShapeFact::AnyRank => Ok(()),
        crate::fact::ShapeFact::Ranked(dims) => {
            if dims.len() != t.shape.len() {
                return Err(Error::ShapeConflict);
            }
            let mut ax: usize = 0;
            while ax < dims.len()
                invariant
                    0 <= ax <= dims@.len(),
                    dims@.len() == t.shape@.len(),
                    forall|a: int|
                        0 <= a < ax ==> !(dims@[a] is Fixed && dims@[a]->Fixed_0 != t.shape@[a]),
                decreases dims@.len() - ax,
            {
                let bad = match dims[ax] {
                    DimFact::Fixed(nn) => nn != t.shape[ax],
                    _ => false,
                };
                if bad {
                    return Err(Error::ShapeConflict);
                }
                ax = ax + 1;
            }
            Ok(())
        },
    }
}

impl<'m> Plan<'m> {
    /// Evaluates the plan on the supplied input tensors, in request
    /// order. `ArityMismatch` exactly when their number is wrong; then
    /// each tensor is held against the input node's inferred fact —
    /// `TypeMismatch` or `ShapeConflict` before anything is evaluated —
    /// and only then are the plan's nodes run in topological order, each
    /// at most once, nodes outside the plan never. The outputs come in
    /// request order; the whole run is one pure function of the plan and
    /// the inputs.
    #[verifier::loop_isolation(false)]
    #[verifier::rlimit(100)]
    pub fn run(&self, inputs: Vec<Tensor>) -> (r: Result<Vec<Tensor>, Error>)
        requires
            plan_wf(*self),
            forall|i: int| 0 <= i < inputs@.len() ==> tensor_wf(inputs@[i]),
        ensures
            r is Ok ==> (Ok::<Seq<TensorData>, Error>(tensor_views(r->Ok_0@)) == spec_run(
                *self.model,
                self.needed@,
                self.input_ids@,
                self.output_ids@,
                tensor_views(inputs@),
            ) && forall|j: int| 0 <= j < r->Ok_0@.len() ==> tensor_wf(r->Ok_0@[j])),
            r is Err ==> spec_run(
                *self.model,
                self.needed@,
                self.input_ids@,
                self.output_ids@,
                tensor_views(inputs@),
            ) == Err::<Seq<TensorData>, Error>(r->Err_0),
    {
        let m = self.model;
        let n = m.nodes.len();
        let ghost insv = tensor_views(inputs@);
        if inputs.len() != self.input_ids.len() {
            return Err(Error::ArityMismatch);
        }
        // Hold every supplied tensor against its node's inferred fact
        // before any evaluation.
        let mut j: usize = 0;
        while j < self.input_ids.len()
            invariant
                0 <= j <= self.input_ids@.len(),
                inputs@.len() == self.input_ids@.len(),
                spec_check(m.facts@, self.input_ids@, insv, j as int) is Ok,
            decreases self.input_ids@.len() - j,
        {
            match check_one(&m.facts[self.input_ids[j]], &inputs[j]) {
                Err(e) => {
                    proof {
                        lemma_check_err(
                            m.facts@,
                            self.input_ids@,
                            insv,
                            j as int,
                            self.input_ids@.len() as int,
                            e,
                        );
                    }
                    return Err(e);
                },
                Ok(_) => {},
            }
            j = j + 1;
        }
        // Place the inputs at their nodes.
        let mut values: Vec<Option<Tensor>> = Vec::new();
        let mut z: usize = 0;
        while z < n
            invariant
                0 <= z <= n,
                values@.len() == z,
                forall|k: int| 0 <= k < z ==> values@[k] is None,
            decreases n - z,
        {
            values.push(None);
            z = z + 1;
        }
        proof {
            assert(oval_views(values@) =~= Seq::new(m.nodes@.len(), |k: int| None));
        }
        let mut j2: usize = 0;
        while j2 < self.input_ids.len()
            invariant
                0 <= j2 <= self.input_ids@.len(),
                inputs@.len() == self.input_ids@.len(),
                values@.len() == n,
                oval_views(values@) == spec_place(
                    Seq::new(m.nodes@.len(), |k: int| None),
                    self.input_ids@,
                    insv,
                    j2 as int,
                ),
                forall|k: int|
                    #![trigger values@[k]]
                    0 <= k < n && values@[k] is Some ==> tensor_wf(values@[k]->Some_0),
                forall|jj: int|
                    #![trigger self.input_ids@[jj]]
                    0 <= jj < j2 ==> values@[self.input_ids@[jj] as int] is Some,
            decreases self.input_ids@.len() - j2,
        {
            let ghost pre = oval_views(values@);
            values.set(self.input_ids[j2], Some(inputs[j2].dup()));
            proof {
                assert(oval_views(values@) =~= pre.update(
                    self.input_ids@[j2 as int] as int,
                    Some(insv[j2 as int]),
                ));
            }
            j2 = j2 + 1;
        }
        let ghost v0 = oval_views(values@);
        // Evaluate the plan's nodes in topological order.
        let mut p: usize = 0;
        while p < m.order.len()
            invariant
                0 <= p <= m.order@.len(),
                values@.len() == n,
                spec_eval_loop(m.nodes@, self.needed@, self.input_ids@, m.order@, v0, p as int)
                    == Ok::<Seq<Option<TensorData>>, Error>(oval_views(values@)),
                forall|k: int|
                    #![trigger values@[k]]
                    0 <= k < n && values@[k] is Some ==> tensor_wf(values@[k]->Some_0),
                forall|jj: int|
                    #![trigger self.input_ids@[jj]]
                    0 <= jj < self.input_ids@.len() ==> values@[self.input_ids@[jj] as int]
                        is Some,
                forall|q: int|
                    #![trigger m.order@[q]]
                    0 <= q < p && self.needed@[m.order@[q] as int] ==> values@[m.order@[q] as int]
                        is Some,
            decreases m.order@.len() - p,
        {
            let i = m.order[p];
            if self.needed[i] && !contains_id(&self.input_ids, i) {
                let deps = &m.nodes[i].inputs;
                let mut ins: Vec<Tensor> = Vec::new();
                let mut jj: usize = 0;
                while jj < deps.len()
                    invariant
                        0 <= jj <= deps@.len(),
                        deps@ == m.nodes@[i as int].inputs@,
                        0 <= i < n,
                        i == m.order@[p as int],
                        0 <= p < m.order@.len(),
                        self.needed@[i as int],
                        !self.input_ids@.contains(i),
                        ins@.len() == jj,
                        forall|k: int|
                            #![trigger ins@[k]]
                            0 <= k < jj ==> (values@[deps@[k].0 as int] is Some && tensor_view(
                                ins@[k],
                            ) == tensor_view(values@[deps@[k].0 as int]->Some_0) && tensor_wf(
                                ins@[k],
                            )),
                    decreases deps@.len() - jj,
                {
                    let k = deps[jj].0;
                    proof {
                        assert(self.needed@[k as int]);
                        if self.input_ids@.contains(k) {
                            let w = choose|w: int|
                                0 <= w < self.input_ids@.len() && self.input_ids@[w] == k;
                            assert(values@[self.input_ids@[w] as int] is Some);
                        } else {
                            assert(m.order@.contains((k as int) as usize));
                            assert((k as int) as usize == k);
                            assert(exists|w: int|
                                0 <= w < m.order@.len() && m.order@[w] == k);
                            let q = order_pos(m.order@, k);
                            assert(0 <= q < m.order@.len() && m.order@[q] == k);
                            assert(order_pos(m.order@, m.nodes@[i as int].inputs@[jj as int].0)
                                < p);
                            assert(values@[m.order@[q] as int] is Some);
                        }
                        assert(values@[k as int] is Some);
                    }
                    match &values[k] {
                        Some(t) => ins.push(t.dup()),
                        None => {
                            return Err(Error::EvalError);
                        },
                    }
                    jj = jj + 1;
                }
                proof {
                    assert(tensor_views(ins@) =~= spec_gather_vals(
                        m.nodes@,
                        oval_views(values@),
                        i as int,
                    ));
                }
                match m.nodes[i].op.eval(&ins) {
                    Err(e) => {
                        proof {
                            assert(spec_step(
                                m.nodes@,
                                self.needed@,
                                self.input_ids@,
                                oval_views(values@),
                                i as int,
                            ) == Err::<Seq<Option<TensorData>>, Error>(e));
                            lemma_eval_loop_err(
                                m.nodes@,
                                self.needed@,
                                self.input_ids@,
                                m.order@,
                                v0,
                                p as int,
                                m.order@.len() as int,
                                e,
                            );
                        }
                        return Err(e);
                    },
                    Ok(t) => {
                        let ghost pre = oval_views(values@);
                        values.set(i, Some(t));
                        proof {
                            assert(oval_views(values@) =~= pre.update(
                                i as int,
                                Some(
                                    crate::ops::spec_eval(
                                        m.nodes@[i as int].op,
                                        spec_gather_vals(m.nodes@, pre, i as int),
                                    )->Ok_0,
                                ),
                            ));
                        }
                    },
                }
            }
            p = p + 1;
        }
        // Collect the requested outputs.
        let mut out: Vec<Tensor> = Vec::new();
        let mut oj: usize = 0;
        while oj < self.output_ids.len()
            invariant
                0 <= oj <= self.output_ids@.len(),
                values@.len() == n,
                spec_eval_loop(
                    m.nodes@,
                    self.needed@,
                    self.input_ids@,
                    m.order@,
                    v0,
                    m.order@.len() as int,
                ) == Ok::<Seq<Option<TensorData>>, Error>(oval_views(values@)),
                forall|k: int|
                    #![trigger values@[k]]
                    0 <= k < n && values@[k] is Some ==> tensor_wf(values@[k]->Some_0),
                forall|q: int|
                    #![trigger m.order@[q]]
                    0 <= q < m.order@.len() && self.needed@[m.order@[q] as int]
                        ==> values@[m.order@[q] as int] is Some,
                out@.len() == oj,
                forall|k: int|
                    #![trigger self.output_ids@[k]]
                    0 <= k < oj ==> (values@[self.output_ids@[k] as int] is Some && tensor_view(
                        out@[k],
                    ) == tensor_view(values@[self.output_ids@[k] as int]->Some_0) && tensor_wf(
                        out@[k],
                    )),
            decreases self.output_ids@.len() - oj,
        {
            let oid = self.output_ids[oj];
            proof {
                assert(self.needed@[oid as int]);
                assert(m.order@.contains((oid as int) as usize));
                assert((oid as int) as usize == oid);
                assert(exists|w: int| 0 <= w < m.order@.len() && m.order@[w] == oid);
                let q = order_pos(m.order@, oid);
                assert(0 <= q < m.order@.len() && m.order@[q] == oid);
                assert(values@[oid as int] is Some);
            }
            match &values[oid] {
                Some(t) => {
                    let d = t.dup();
                    proof {
                        assert(tensor_wf(values@[oid as int]->Some_0));
                        assert(tensor_view(d) == tensor_view(values@[oid as int]->Some_0));
                        assert(tensor_wf(d));
                    }
                    out.push(d);
                },
                None => {
                    return Err(Error::EvalError);
                },
            }
            oj = oj + 1;
        }
        proof {
            assert(tensor_views(out@) =~= spec_outputs(oval_views(values@), self.output_ids@));
            assert(spec_check(m.facts@, self.input_ids@, insv, self.input_ids@.len() as int)
                is Ok);
            assert(v0 == spec_place(
                Seq::new(m.nodes@.len(), |k: int| None),
                self.input_ids@,
                insv,
                self.input_ids@.len() as int,
            ));
            assert(spec_run(*self.model, self.needed@, self.input_ids@, self.output_ids@, insv)
                == Ok::<Seq<TensorData>, Error>(
                spec_outputs(oval_views(values@), self.output_ids@),
            ));
            assert forall|j5: int| 0 <= j5 < out@.len() implies tensor_wf(out@[j5]) by {
                assert(self.output_ids@[j5] < n);
            }
        }
        Ok(out)
    }
}

} // verus!
