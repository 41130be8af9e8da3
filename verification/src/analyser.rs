use vstd::prelude::*;
use crate::errors::Error;
use crate::fact::{Fact, FactView, fact_eq, fact_view, merge_fact, spec_merge_fact};
use crate::model::{Model, Node, model_wf};
use crate::ops::{OpKind, fact_views, spec_infer};

verus! {

/// The facts of one node's inputs, in edge order.
pub open spec fn spec_gather(nodes: Seq<Node>, fvs: Seq<FactView>, i: int) -> Seq<FactView> {
    Seq::new(nodes[i].inputs@.len(), |j: int| fvs[nodes[i].inputs@[j].0 as int])
}

/// One forward visit of node `i`: run its operator's inference on the
/// current input facts and join the result into the node's own fact.
/// `FactConflict` carries the node's name when the join contradicts.
pub open spec fn spec_forward_step(nodes: Seq<Node>, fvs: Seq<FactView>, i: int) -> Result<
    Seq<FactView>,
    Error,
> {
    match spec_infer(nodes[i].op, spec_gather(nodes, fvs, i)) {
        Err(e) => Err(e),
        Ok(f) => match spec_merge_fact(fvs[i], f) {
            None => Err(Error::FactConflict(nodes[i].name)),
            Some(m) => Ok(fvs.update(i, m)),
        },
    }
}

/// The forward pass over the first `upto` entries of the topological
/// order.
pub open spec fn spec_forward_round(
    nodes: Seq<Node>,
    order: Seq<usize>,
    fvs: Seq<FactView>,
    upto: int,
) -> Result<Seq<FactView>, Error>
    decreases upto,
{
    if upto <= 0 {
        Ok(fvs)
    } else {
        match spec_forward_round(nodes, order, fvs, upto - 1) {
            Err(e) => Err(e),
            Ok(f) => spec_forward_step(nodes, f, order[upto - 1] as int),
        }
    }
}

/// One full round of the fixpoint. The backward phase visits nodes in
/// reverse order, but every operator here declares no reverse-inference
/// rule, so it contributes nothing and the round is the forward pass.
pub open spec fn spec_round(nodes: Seq<Node>, order: Seq<usize>, fvs: Seq<FactView>) -> Result<
    Seq<FactView>,
    Error,
> {
    spec_forward_round(nodes, order, fvs, order.len() as int)
}

/// Iterated rounds until no fact changes; running out of fuel is
/// `AnalysisDidNotConverge`.
pub open spec fn spec_rounds(
    nodes: Seq<Node>,
    order: Seq<usize>,
    fvs: Seq<FactView>,
    fuel: nat,
) -> Result<Seq<FactView>, Error>
    decreases fuel,
{
    if fuel == 0 {
        Err(Error::AnalysisDidNotConverge)
    } else {
        match spec_round(nodes, order, fvs) {
            Err(e) => Err(e),
            Ok(f2) => if f2 == fvs {
                Ok(fvs)
            } else {
                spec_rounds(nodes, order, f2, (fuel - 1) as nat)
            },
        }
    }
}

/// Seeding one externally supplied fact: the named node's fact is joined
/// with the given one. `NotFound` when the name is absent, `FactConflict`
/// when the join contradicts.
pub open spec fn spec_seed_step(nodes: Seq<Node>, fvs: Seq<FactView>, g: (String, Fact)) -> Result<
    Seq<FactView>,
    Error,
> {
    if exists|i: int| 0 <= i < nodes.len() && nodes[i].name@ == g.0@ {
        let i = choose|i: int| 0 <= i < nodes.len() && nodes[i].name@ == g.0@;
        match spec_merge_fact(fvs[i], fact_view(g.1)) {
            None => Err(Error::FactConflict(g.0)),
            Some(m) => Ok(fvs.update(i, m)),
        }
    } else {
        Err(Error::NotFound(g.0))
    }
}

/// Seeding the first `upto` externally supplied facts, in order.
pub open spec fn spec_seed(
    nodes: Seq<Node>,
    fvs: Seq<FactView>,
    given: Seq<(String, Fact)>,
    upto: int,
) -> Result<Seq<FactView>, Error>
    decreases upto,
{
    if upto <= 0 {
        Ok(fvs)
    } else {
        match spec_seed(nodes, fvs, given, upto - 1) {
            Err(e) => Err(e),
            Ok(f) => spec_seed_step(nodes, f, given[upto - 1]),
        }
    }
}

proof fn lemma_forward_round_err(
    nodes: Seq<Node>,
    order: Seq<usize>,
    fvs: Seq<FactView>,
    p: int,
    upto: int,
    e: Error,
)
    requires
        0 <= p < upto <= order.len(),
        spec_forward_round(nodes, order, fvs, p) is Ok,
        spec_forward_step(nodes, spec_forward_round(nodes, order, fvs, p)->Ok_0, order[p] as int)
            == Err::<Seq<FactView>, Error>(e),
    ensures
        spec_forward_round(nodes, order, fvs, upto) == Err::<Seq<FactView>, Error>(e),
    decreases upto - p,
{
    if upto > p + 1 {
        lemma_forward_round_err(nodes, order, fvs, p, upto - 1, e);
    }
}

proof fn lemma_seed_err(
    nodes: Seq<Node>,
    fvs: Seq<FactView>,
    given: Seq<(String, Fact)>,
    g: int,
    upto: int,
    e: Error,
)
    requires
        0 <= g < upto <= given.len(),
        spec_seed(nodes, fvs, given, g) is Ok,
        spec_seed_step(nodes, spec_seed(nodes, fvs, given, g)->Ok_0, given[g]) == Err::<
            Seq<FactView>,
            Error,
        >(e),
    ensures
        spec_seed(nodes, fvs, given, upto) == Err::<Seq<FactView>, Error>(e),
    decreases upto - g,
{
    if upto > g + 1 {
        lemma_seed_err(nodes, fvs, given, g, upto - 1, e);
    }
}

/// The iteration cap: a conservative linear bound on the node count.
pub open spec fn spec_cap(nodes: Seq<Node>) -> nat {
    (2 * nodes.len() + 2) as nat
}

/// The whole analysis: seed the given facts, then iterate rounds to a
/// fixpoint.
pub open spec fn spec_analyse(
    nodes: Seq<Node>,
    order: Seq<usize>,
    fvs: Seq<FactView>,
    given: Seq<(String, Fact)>,
) -> Result<Seq<FactView>, Error> {
    match spec_seed(nodes, fvs, given, given.len() as int) {
        Err(e) => Err(e),
        Ok(f) => spec_rounds(nodes, order, f, spec_cap(nodes)),
    }
}

/// When the iteration returns, its result is a fixpoint of the round:
/// one more round changes no fact.
pub proof fn lemma_rounds_fixpoint(
    nodes: Seq<Node>,
    order: Seq<usize>,
    fvs: Seq<FactView>,
    fuel: nat,
)
    requires
        spec_rounds(nodes, order, fvs, fuel) is Ok,
    ensures
        spec_round(nodes, order, spec_rounds(nodes, order, fvs, fuel)->Ok_0) == Ok::<
            Seq<FactView>,
            Error,
        >(spec_rounds(nodes, order, fvs, fuel)->Ok_0),
    decreases fuel,
{
    let f2 = spec_round(nodes, order, fvs)->Ok_0;
    if f2 != fvs {
        lemma_rounds_fixpoint(nodes, order, f2, (fuel - 1) as nat);
    }
}

/// The fixpoint pass is idempotent: running the analysis again on facts
/// it has already settled returns those facts unchanged, for any
/// positive fuel.
pub proof fn lemma_analyse_idempotent(
    nodes: Seq<Node>,
    order: Seq<usize>,
    f: Seq<FactView>,
    fuel: nat,
)
    requires
        spec_round(nodes, order, f) == Ok::<Seq<FactView>, Error>(f),
        fuel > 0,
    ensures
        spec_rounds(nodes, order, f, fuel) == Ok::<Seq<FactView>, Error>(f),
{
}

/// Duplicates a fact column.
fn copy_facts(v: &Vec<Fact>) -> (r: Vec<Fact>)
    ensures
        fact_views(r@) == fact_views(v@),
        r@.len() == v@.len(),
{
    let mut r: Vec<Fact> = Vec::new();
    let mut i: usize = 0;
    while i < v.len()
        invariant
            0 <= i <= v@.len(),
            r@.len() == i,
            forall|k: int| 0 <= k < i ==> fact_view(r@[k]) == fact_view(v@[k]),
        decreases v@.len() - i,
    {
        r.push(v[i].dup());
        i = i + 1;
    }
    proof {
        assert(fact_views(r@) =~= fact_views(v@));
    }
    r
}

/// Compares two fact columns as values.
fn facts_eq(a: &Vec<Fact>, b: &Vec<Fact>) -> (r: bool)
    requires
        a@.len() == b@.len(),
    ensures
        r == (fact_views(a@) == fact_views(b@)),
{
    let mut i: usize = 0;
    let mut same = true;
    while i < a.len()
        invariant
            0 <= i <= a@.len(),
            a@.len() == b@.len(),
            same <==> (forall|k: int| 0 <= k < i ==> fact_view(a@[k]) == fact_view(b@[k])),
        decreases a@.len() - i,
    {
        if !fact_eq(&a[i], &b[i]) {
            same = false;
        }
        i = i + 1;
    }
    proof {
        if same {
            assert(fact_views(a@) =~= fact_views(b@));
        } else {
            let k = choose|k: int| 0 <= k < a@.len() && fact_view(a@[k]) != fact_view(b@[k]);
            assert(fact_views(a@)[k] != fact_views(b@)[k]);
        }
    }
    same
}

/// One forward pass over the order, joining each operator's inference
/// into its node's fact.
#[verifier::loop_isolation(false)]
fn run_round(nodes: &Vec<Node>, order: &Vec<usize>, fvs: Vec<Fact>) -> (r: Result<Vec<Fact>, Error>)
    requires
        fvs@.len() == nodes@.len(),
        forall|p: int| 0 <= p < order@.len() ==> order@[p] < nodes@.len(),
        forall|i: int, j: int|
            0 <= i < nodes@.len() && 0 <= j < nodes@[i].inputs@.len()
                ==> nodes@[i].inputs@[j].0 < nodes@.len(),
    ensures
        r is Ok ==> (Ok::<Seq<FactView>, Error>(fact_views(r->Ok_0@)) == spec_round(
            nodes@,
            order@,
            fact_views(fvs@),
        ) && r->Ok_0@.len() == nodes@.len()),
        r is Err ==> spec_round(nodes@, order@, fact_views(fvs@)) == Err::<
            Seq<FactView>,
            Error,
        >(r->Err_0),
{
    let ghost fv0 = fact_views(fvs@);
    let mut cur = fvs;
    let mut p: usize = 0;
    while p < order.len()
        invariant
            0 <= p <= order@.len(),
            cur@.len() == nodes@.len(),
            spec_forward_round(nodes@, order@, fv0, p as int) == Ok::<Seq<FactView>, Error>(
                fact_views(cur@),
            ),
        decreases order@.len() - p,
    {
        let i = order[p];
        // Gather the facts of this node's inputs.
        let deps = &nodes[i].inputs;
        let mut ins: Vec<Fact> = Vec::new();
        let mut j: usize = 0;
        while j < deps.len()
            invariant
                0 <= j <= deps@.len(),
                deps@ == nodes@[i as int].inputs@,
                ins@.len() == j,
                cur@.len() == nodes@.len(),
                forall|k: int|
                    0 <= k < j ==> fact_view(ins@[k]) == fact_view(cur@[deps@[k].0 as int]),
            decreases deps@.len() - j,
        {
            ins.push(cur[deps[j].0].dup());
            j = j + 1;
        }
        proof {
            assert(fact_views(ins@) =~= spec_gather(nodes@, fact_views(cur@), i as int));
        }
        match nodes[i].op.infer(&ins) {
            Err(e) => {
                proof {
                    assert(spec_forward_step(nodes@, fact_views(cur@), i as int) == Err::<
                        Seq<FactView>,
                        Error,
                    >(e));
                    lemma_forward_round_err(
                        nodes@,
                        order@,
                        fv0,
                        p as int,
                        order@.len() as int,
                        e,
                    );
                }
                return Err(e);
            },
            Ok(f) => {
                match merge_fact(&cur[i], &f) {
                    None => {
                        let e = Error::FactConflict(nodes[i].name.clone());
                        proof {
                            assert(spec_forward_step(nodes@, fact_views(cur@), i as int) == Err::<
                                Seq<FactView>,
                                Error,
                            >(Error::FactConflict(nodes@[i as int].name)));
                            lemma_forward_round_err(
                                nodes@,
                                order@,
                                fv0,
                                p as int,
                                order@.len() as int,
                                e,
                            );
                        }
                        return Err(e);
                    },
                    Some(mf) => {
                        let ghost pre = fact_views(cur@);
                        cur.set(i, mf);
                        proof {
                            assert(fact_views(cur@) =~= pre.update(
                                i as int,
                                spec_merge_fact(
                                    pre[i as int],
                                    spec_infer(nodes@[i as int].op, spec_gather(
                                        nodes@,
                                        pre,
                                        i as int,
                                    ))->Ok_0,
                                )->Some_0,
                            ));
                        }
                    },
                }
            },
        }
        p = p + 1;
    }
    Ok(cur)
}

impl Model {
    /// Runs the shape/type inference fixpoint: seeds the externally
    /// supplied facts for the named nodes, then repeats rounds until no
    /// fact changes or the iteration cap is hit. Only the facts column
    /// changes, monotonically; nodes and topology never do. On any
    /// failure the model is left exactly as it was.
    #[verifier::loop_isolation(false)]
    pub fn analyse(&mut self, given: &Vec<(String, Fact)>) -> (r: Result<(), Error>)
        requires
            model_wf(*old(self)),
        ensures
            final(self).nodes@ == old(self).nodes@,
            final(self).order@ == old(self).order@,
            model_wf(*final(self)),
            r is Ok <==> spec_analyse(
                old(self).nodes@,
                old(self).order@,
                fact_views(old(self).facts@),
                given@,
            ) is Ok,
            r is Ok ==> fact_views(final(self).facts@) == spec_analyse(
                old(self).nodes@,
                old(self).order@,
                fact_views(old(self).facts@),
                given@,
            )->Ok_0,
            r is Ok ==> spec_round(final(self).nodes@, final(self).order@, fact_views(
                final(self).facts@,
            )) == Ok::<Seq<FactView>, Error>(fact_views(final(self).facts@)),
            r is Err ==> (r->Err_0 == spec_analyse(
                old(self).nodes@,
                old(self).order@,
                fact_views(old(self).facts@),
                given@,
            )->Err_0 && final(self).facts@ == old(self).facts@),
    {
        let n = self.nodes.len();
        let mut cur = copy_facts(&self.facts);
        let ghost fv0 = fact_views(self.facts@);
        // Seed the externally supplied facts.
        let mut g: usize = 0;
        while g < given.len()
            invariant
                self.nodes@ == old(self).nodes@,
                self.order@ == old(self).order@,
                self.facts@ == old(self).facts@,
                n == self.nodes@.len(),
                0 <= g <= given@.len(),
                cur@.len() == n,
                spec_seed(self.nodes@, fv0, given@, g as int) == Ok::<Seq<FactView>, Error>(
                    fact_views(cur@),
                ),
            decreases given@.len() - g,
        {
            let name = &given[g].0;
            match self.node_id(name) {
                Err(e) => {
                    proof {
                        assert(spec_seed_step(self.nodes@, fact_views(cur@), given@[g as int])
                            == Err::<Seq<FactView>, Error>(Error::NotFound(given@[g as int].0)));
                        lemma_seed_err(
                            self.nodes@,
                            fv0,
                            given@,
                            g as int,
                            given@.len() as int,
                            e,
                        );
                    }
                    return Err(e);
                },
                Ok(i) => {
                    proof {
                        let ii = choose|ii: int|
                            0 <= ii < self.nodes@.len() && self.nodes@[ii].name@
                                == given@[g as int].0@;
                        if ii != i as int {
                            if ii < i as int {
                                assert(self.nodes@[ii].name@ != self.nodes@[i as int].name@);
                            } else {
                                assert(self.nodes@[i as int].name@ != self.nodes@[ii].name@);
                            }
                        }
                        assert(ii == i as int);
                    }
                    match merge_fact(&cur[i], &given[g].1) {
                        None => {
                            let e = Error::FactConflict(name.clone());
                            proof {
                                assert(spec_seed_step(
                                    self.nodes@,
                                    fact_views(cur@),
                                    given@[g as int],
                                ) == Err::<Seq<FactView>, Error>(
                                    Error::FactConflict(given@[g as int].0),
                                ));
                                lemma_seed_err(
                                    self.nodes@,
                                    fv0,
                                    given@,
                                    g as int,
                                    given@.len() as int,
                                    e,
                                );
                            }
                            return Err(e);
                        },
                        Some(mf) => {
                            let ghost pre = fact_views(cur@);
                            cur.set(i, mf);
                            proof {
                                assert(fact_views(cur@) =~= pre.update(
                                    i as int,
                                    spec_merge_fact(
                                        pre[i as int],
                                        fact_view(given@[g as int].1),
                                    )->Some_0,
                                ));
                            }
                        },
                    }
                },
            }
            g = g + 1;
        }
        let ghost seeded = fact_views(cur@);
        // Iterate rounds to a fixpoint, within the cap.
        let mut fuel: usize = 2 * n + 2;
        proof {
            assert(fuel as nat == spec_cap(self.nodes@));
        }
        while fuel > 0
            invariant
                self.nodes@ == old(self).nodes@,
                self.order@ == old(self).order@,
                self.facts@ == old(self).facts@,
                n == self.nodes@.len(),
                cur@.len() == n,
                fuel <= spec_cap(self.nodes@),
                spec_rounds(self.nodes@, self.order@, seeded, spec_cap(self.nodes@))
                    == spec_rounds(self.nodes@, self.order@, fact_views(cur@), fuel as nat),
            decreases fuel,
        {
            match run_round(&self.nodes, &self.order, copy_facts(&cur)) {
                Err(e) => {
                    return Err(e);
                },
                Ok(f2) => {
                    if facts_eq(&f2, &cur) {
                        let ghost res = fact_views(cur@);
                        proof {
                            assert(spec_round(self.nodes@, self.order@, res) == Ok::<
                                Seq<FactView>,
                                Error,
                            >(res));
                        }
                        self.facts = cur;
                        return Ok(());
                    }
                    cur = f2;
                    fuel = fuel - 1;
                },
            }
        }
        Err(Error::AnalysisDidNotConverge)
    }
}

} // verus!
