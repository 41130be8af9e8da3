use vstd::prelude::*;
use crate::errors::Error;
use crate::fact::{Fact, fact_view, unknown_fact_view};
use crate::ops::{OpKind, lemma_op_feq_props, op_dup, op_feq, op_out_arity, op_wf};

verus! {

broadcast use vstd::seq_lib::group_seq_properties;

/// The most nodes a model may hold; keeps index arithmetic far from any
/// machine limit.
pub const MAX_NODES: usize = 0x1000_0000;

/// A decoded node descriptor, as the external graph decoder hands it to
/// the builder: a name, an operator kind with its attributes, and input
/// references by producer name and output slot.
pub struct NodeDef {
    pub name: String,
    pub op: OpKind,
    pub inputs: Vec<(String, usize)>,
}

/// A resolved node of the arena: edges are stored as indices, never as
/// ownership pointers.
pub struct Node {
    pub name: String,
    pub op: OpKind,
    pub inputs: Vec<(usize, usize)>,
}

/// The graph: an arena of resolved nodes, one inferred fact per node (all
/// operators here declare one output slot), and a cached topological
/// order.
pub struct Model {
    pub nodes: Vec<Node>,
    pub facts: Vec<Fact>,
    pub order: Vec<usize>,
}

/// No two descriptors share a name.
pub open spec fn names_unique(defs: Seq<NodeDef>) -> bool {
    forall|i: int, j: int| 0 <= i < j < defs.len() ==> defs[i].name@ != defs[j].name@
}

/// Descriptor `i`'s input `j` names an existing node and a valid slot.
pub open spec fn def_resolves(defs: Seq<NodeDef>, i: int, j: int) -> bool {
    exists|k: int|
        0 <= k < defs.len() && defs[k].name@ == defs[i].inputs@[j].0@ && defs[i].inputs@[j].1
            < op_out_arity(defs[k].op)
}

/// Every input reference of every descriptor resolves.
pub open spec fn defs_resolve(defs: Seq<NodeDef>) -> bool {
    forall|i: int, j: int|
        0 <= i < defs.len() && 0 <= j < defs[i].inputs@.len() ==> def_resolves(defs, i, j)
}

/// Every descriptor's operator satisfies its own invariant.
pub open spec fn defs_ops_wf(defs: Seq<NodeDef>) -> bool {
    forall|i: int| 0 <= i < defs.len() ==> op_wf(defs[i].op)
}

/// Every edge of the arena points at an existing node and a valid slot.
pub open spec fn edges_wf(nodes: Seq<Node>) -> bool {
    forall|i: int, j: int|
        0 <= i < nodes.len() && 0 <= j < nodes[i].inputs@.len() ==> (nodes[i].inputs@[j].0
            < nodes.len() && nodes[i].inputs@[j].1 < op_out_arity(
            nodes[nodes[i].inputs@[j].0 as int].op,
        ))
}

/// The position of node `k` in an order that contains it.
pub open spec fn order_pos(order: Seq<usize>, k: usize) -> int {
    choose|p: int| 0 <= p < order.len() && order[p] == k
}

/// A linearization of the arena: every entry is a node, no node twice,
/// every node somewhere, and every node after all its producers. Such an
/// order exists exactly when the graph is acyclic.
pub open spec fn valid_order(nodes: Seq<Node>, order: Seq<usize>) -> bool {
    &&& forall|p: int| 0 <= p < order.len() ==> order[p] < nodes.len()
    &&& forall|p: int, q: int| 0 <= p < q < order.len() ==> order[p] != order[q]
    &&& forall|k: int| 0 <= k < nodes.len() ==> #[trigger] order.contains(k as usize)
    &&& forall|p: int, j: int|
        #![trigger nodes[order[p] as int].inputs@[j]]
        0 <= p < order.len() && 0 <= j < nodes[order[p] as int].inputs@.len() ==> (order.contains(
            nodes[order[p] as int].inputs@[j].0,
        ) && order_pos(order, nodes[order[p] as int].inputs@[j].0) < p)
}

/// A linearization stated over the raw descriptors, producers named by
/// string: what `build` promises to find whenever one exists.
pub open spec fn valid_def_order(defs: Seq<NodeDef>, order: Seq<usize>) -> bool {
    &&& forall|p: int| 0 <= p < order.len() ==> order[p] < defs.len()
    &&& forall|p: int, q: int| 0 <= p < q < order.len() ==> order[p] != order[q]
    &&& forall|k: int| 0 <= k < defs.len() ==> #[trigger] order.contains(k as usize)
    &&& forall|p: int, j: int, k: int|
        #![trigger defs[order[p] as int].inputs@[j], defs[k].name@]
        0 <= p < order.len() && 0 <= j < defs[order[p] as int].inputs@.len() && 0 <= k < defs.len()
            && defs[k].name@ == defs[order[p] as int].inputs@[j].0@ ==> (order.contains(k as usize)
            && order_pos(order, k as usize) < p)
}

/// The correspondence between descriptors and the arena `build` returns:
/// names, operators and edges carried over, every fact unknown.
pub open spec fn resolves_to(defs: Seq<NodeDef>, m: Model) -> bool {
    &&& m.nodes.len() == defs.len()
    &&& m.facts.len() == defs.len()
    &&& forall|i: int|
        0 <= i < defs.len() ==> (m.nodes[i].name@ == defs[i].name@ && op_feq(
            m.nodes[i].op,
            defs[i].op,
        ) && m.nodes[i].inputs@.len() == defs[i].inputs@.len() && fact_view(m.facts[i])
            == unknown_fact_view())
    &&& forall|i: int, j: int|
        0 <= i < defs.len() && 0 <= j < defs[i].inputs@.len() ==> (0 <= m.nodes[i].inputs@[j].0
            < defs.len() && defs[m.nodes[i].inputs@[j].0 as int].name@ == defs[i].inputs@[j].0@
            && m.nodes[i].inputs@[j].1 == defs[i].inputs@[j].1)
}

/// The model invariant: bounded arena, unique names, well-formed
/// operators and edges, facts one per node, and a cached order that is a
/// valid linearization.
pub open spec fn model_wf(m: Model) -> bool {
    &&& m.nodes.len() <= MAX_NODES
    &&& m.facts.len() == m.nodes.len()
    &&& m.order.len() == m.nodes.len()
    &&& forall|i: int, j: int| 0 <= i < j < m.nodes@.len() ==> m.nodes[i].name@ != m.nodes[j].name@
    &&& forall|i: int| 0 <= i < m.nodes@.len() ==> op_wf(m.nodes[i].op)
    &&& edges_wf(m.nodes@)
    &&& valid_order(m.nodes@, m.order@)
}

/// A dependency path through the arena: each step goes from a producer to
/// one of its consumers.
pub open spec fn is_dep_path(nodes: Seq<Node>, p: Seq<usize>) -> bool {
    &&& p.len() >= 1
    &&& forall|t: int| 0 <= t < p.len() ==> p[t] < nodes.len()
    &&& forall|t: int|
        #![trigger p[t]]
        0 <= t < p.len() - 1 ==> exists|j: int|
            0 <= j < nodes[p[t + 1] as int].inputs@.len() && #[trigger] nodes[p[t
                + 1] as int].inputs@[j].0 == p[t]
}

proof fn lemma_pos_unique(nodes: Seq<Node>, order: Seq<usize>, p: int, k: usize)
    requires
        valid_order(nodes, order),
        0 <= p < order.len(),
        order[p] == k,
        k < nodes.len(),
    ensures
        order_pos(order, k) == p,
{
    assert(exists|q: int| 0 <= q < order.len() && order[q] == k);
    let q = order_pos(order, k);
    assert(0 <= q < order.len() && order[q] == k);
    if p < q {
        assert(order[p] != order[q]);
    } else if q < p {
        assert(order[q] != order[p]);
    }
}

/// Along a dependency path, positions in a valid order strictly increase.
proof fn lemma_path_pos_increases(nodes: Seq<Node>, order: Seq<usize>, p: Seq<usize>)
    requires
        valid_order(nodes, order),
        is_dep_path(nodes, p),
    ensures
        forall|t: int|
            0 <= t < p.len() - 1 ==> #[trigger] order_pos(order, p[t]) < order_pos(order, p[t + 1]),
{
    assert forall|t: int|
        0 <= t < p.len() - 1 implies #[trigger] order_pos(order, p[t]) < order_pos(
        order,
        p[t + 1],
    ) by {
        let j = choose|j: int|
            0 <= j < nodes[p[t + 1] as int].inputs@.len() && #[trigger] nodes[p[t
                + 1] as int].inputs@[j].0 == p[t];
        let ghost ki: int = p[t + 1] as int;
        assert(0 <= ki < nodes.len());
        assert(order.contains(ki as usize));
        assert(ki as usize == p[t + 1]);
        assert(exists|w: int| 0 <= w < order.len() && order[w] == p[t + 1]);
        let pc = order_pos(order, p[t + 1]);
        assert(0 <= pc < order.len() && order[pc] == p[t + 1]);
        assert(nodes[order[pc] as int].inputs@[j].0 == p[t]);
        assert(order_pos(order, nodes[order[pc] as int].inputs@[j].0) < pc);
    }
}

/// No valid linearization coexists with a cycle: in an order where every
/// node follows its producers, no dependency path returns to its start —
/// no node depends, directly or transitively, on itself. With
/// `Model::build`'s contract this is why a cyclic graph can never build.
pub proof fn lemma_order_excludes_cycle(nodes: Seq<Node>, order: Seq<usize>, p: Seq<usize>)
    requires
        valid_order(nodes, order),
        is_dep_path(nodes, p),
        p.len() >= 2,
    ensures
        p[0] != p[p.len() - 1],
{
    lemma_path_pos_increases(nodes, order, p);
    assert forall|t: int|
        0 <= t < p.len() implies order_pos(order, p[0]) + t <= #[trigger] order_pos(
        order,
        p[t],
    ) by {
        lemma_pos_mono(nodes, order, p, t);
    }
    assert(order_pos(order, p[0]) + (p.len() - 1) <= order_pos(order, p[p.len() - 1]));
    if p[0] == p[p.len() - 1] {
        assert(order_pos(order, p[0]) == order_pos(order, p[p.len() - 1]));
    }
}

proof fn lemma_pos_mono(nodes: Seq<Node>, order: Seq<usize>, p: Seq<usize>, t: int)
    requires
        valid_order(nodes, order),
        is_dep_path(nodes, p),
        0 <= t < p.len(),
    ensures
        order_pos(order, p[0]) + t <= order_pos(order, p[t]),
    decreases t,
{
    if t > 0 {
        lemma_pos_mono(nodes, order, p, t - 1);
        lemma_path_pos_increases(nodes, order, p);
        assert(order_pos(order, p[t - 1]) < order_pos(order, p[t]));
    }
}

/// The first position of the order whose node is still unplaced.
proof fn first_unplaced(placed: Seq<bool>, order: Seq<usize>, start: int) -> (p: int)
    requires
        0 <= start <= order.len(),
        forall|q: int| 0 <= q < start ==> order[q] < placed.len() && placed[order[q] as int],
        forall|q: int| 0 <= q < order.len() ==> order[q] < placed.len(),
        exists|q: int| start <= q < order.len() && !placed[order[q] as int],
    ensures
        start <= p < order.len(),
        !placed[order[p] as int],
        forall|q: int| 0 <= q < p ==> placed[order[q] as int],
    decreases order.len() - start,
{
    if placed[order[start] as int] {
        first_unplaced(placed, order, start + 1)
    } else {
        start
    }
}

/// When the placement scan stalls — every unplaced node still has an
/// unplaced producer — no valid linearization of the arena exists.
#[verifier::rlimit(30)]
proof fn lemma_stall_no_order(nodes: Seq<Node>, placed: Seq<bool>, order: Seq<usize>)
    requires
        placed.len() == nodes.len(),
        nodes.len() <= MAX_NODES,
        edges_wf(nodes),
        exists|i: int| 0 <= i < nodes.len() && !placed[i],
        forall|i: int|
            0 <= i < nodes.len() && !placed[i] ==> exists|j: int|
                0 <= j < nodes[i].inputs@.len() && !placed[nodes[i].inputs@[j].0 as int],
    ensures
        !valid_order(nodes, order),
{
    if valid_order(nodes, order) {
        let i0 = choose|i: int| 0 <= i < nodes.len() && !placed[i];
        assert(order.contains(i0 as usize));
        assert(i0 as usize as int == i0);
        assert(exists|p: int| 0 <= p < order.len() && order[p] == i0 as usize);
        let p0 = choose|p: int| 0 <= p < order.len() && order[p] == i0 as usize;
        assert(order[p0] == i0 as usize);
        assert(!placed[order[p0] as int]);
        let pm = first_unplaced(placed, order, 0);
        let u = order[pm];
        let j = choose|j: int|
            0 <= j < nodes[u as int].inputs@.len() && !placed[nodes[u as int].inputs@[j].0 as int];
        let k = nodes[u as int].inputs@[j].0;
        assert(nodes[order[pm] as int].inputs@[j].0 == k);
        assert(order.contains(k) && order_pos(order, k) < pm);
        assert(exists|w: int| 0 <= w < order.len() && order[w] == k);
        let pk = order_pos(order, k);
        assert(0 <= pk < order.len() && order[pk] == k);
        assert(placed[order[pk] as int]);
        assert(false);
    }
}

/// A linearization valid for the descriptors is valid for the arena that
/// resolves them: with unique names the string reference and the index
/// edge point at the same producer.
proof fn lemma_def_order_to_order(defs: Seq<NodeDef>, nodes: Seq<Node>, ord: Seq<usize>)
    requires
        names_unique(defs),
        nodes.len() == defs.len(),
        forall|i: int| 0 <= i < defs.len() ==> nodes[i].inputs@.len() == defs[i].inputs@.len(),
        forall|i: int, j: int|
            0 <= i < defs.len() && 0 <= j < defs[i].inputs@.len() ==> (0 <= nodes[i].inputs@[j].0
                < defs.len() && defs[nodes[i].inputs@[j].0 as int].name@ == defs[i].inputs@[j].0@),
        valid_def_order(defs, ord),
    ensures
        valid_order(nodes, ord),
{
    assert(forall|p: int| 0 <= p < ord.len() ==> ord[p] < nodes.len());
    assert(forall|k: int| 0 <= k < nodes.len() ==> #[trigger] ord.contains(k as usize));
    assert forall|p: int, j: int|
        #![trigger nodes[ord[p] as int].inputs@[j]]
        0 <= p < ord.len() && 0 <= j < nodes[ord[p] as int].inputs@.len() implies (ord.contains(
        nodes[ord[p] as int].inputs@[j].0,
    ) && order_pos(ord, nodes[ord[p] as int].inputs@[j].0) < p) by {
        let i = ord[p] as int;
        assert(defs[i].inputs@[j] == defs[ord[p] as int].inputs@[j]);
        let k0 = nodes[i].inputs@[j].0;
        assert(defs[k0 as int].name@ == defs[i].inputs@[j].0@);
        assert(0 <= (k0 as int) && (k0 as int) < defs.len());
        assert(ord.contains((k0 as int) as usize) && order_pos(ord, (k0 as int) as usize) < p);
        assert((k0 as int) as usize == k0);
    }
    assert(valid_order(nodes, ord));
}

/// Copies one resolved edge row.
fn copy_edge_row(v: &Vec<(usize, usize)>) -> (r: Vec<(usize, usize)>)
    ensures
        r@ == v@,
{
    let mut r: Vec<(usize, usize)> = Vec::new();
    let mut i: usize = 0;
    while i < v.len()
        invariant
            0 <= i <= v@.len(),
            r@.len() == i,
            forall|k: int| 0 <= k < i ==> r@[k] == v@[k],
        decreases v@.len() - i,
    {
        r.push(v[i]);
        i = i + 1;
    }
    proof {
        assert(r@ =~= v@);
    }
    r
}

/// One declaration-order scan of the placement algorithm over the
/// first `upto` nodes: a node is placed the moment every producer is.
pub open spec fn spec_scan(nodes: Seq<Node>, st: (Seq<bool>, Seq<usize>), upto: int) -> (
    Seq<bool>,
    Seq<usize>,
)
    decreases upto,
{
    if upto <= 0 {
        st
    } else {
        let prev = spec_scan(nodes, st, upto - 1);
        let i = upto - 1;
        if !prev.0[i] && (forall|j: int|
            0 <= j < nodes[i].inputs@.len() ==> prev.0[nodes[i].inputs@[j].0 as int]) {
            (prev.0.update(i, true), prev.1.push(i as usize))
        } else {
            prev
        }
    }
}

/// Scans repeated until one places nothing more.
pub open spec fn spec_passes(nodes: Seq<Node>, st: (Seq<bool>, Seq<usize>), fuel: nat) -> (
    Seq<bool>,
    Seq<usize>,
)
    decreases fuel,
{
    if fuel == 0 {
        st
    } else {
        let nxt = spec_scan(nodes, st, nodes.len() as int);
        if nxt.1.len() == st.1.len() {
            st
        } else {
            spec_passes(nodes, nxt, (fuel - 1) as nat)
        }
    }
}

/// The one linearization the engine commits to: repeated
/// declaration-order scans, each placing every node whose producers are
/// already placed. Ties are broken by declaration order, so the result
/// is deterministic — a function of the arena alone.
pub open spec fn declaration_greedy_order(nodes: Seq<Node>) -> Seq<usize> {
    spec_passes(
        nodes,
        (Seq::new(nodes.len(), |i: int| false), Seq::empty()),
        (nodes.len() + 1) as nat,
    ).1
}

proof fn lemma_scan_len_mono(nodes: Seq<Node>, st: (Seq<bool>, Seq<usize>), upto: int)
    ensures
        spec_scan(nodes, st, upto).1.len() >= st.1.len(),
    decreases upto,
{
    if upto > 0 {
        lemma_scan_len_mono(nodes, st, upto - 1);
    }
}

/// A scan that grew the order by nothing changed nothing at all.
proof fn lemma_scan_stall(nodes: Seq<Node>, st: (Seq<bool>, Seq<usize>), upto: int)
    requires
        spec_scan(nodes, st, upto).1.len() == st.1.len(),
    ensures
        spec_scan(nodes, st, upto) == st,
    decreases upto,
{
    if upto > 0 {
        lemma_scan_len_mono(nodes, st, upto - 1);
        lemma_scan_stall(nodes, st, upto - 1);
    }
}

/// Computes one topological order of the arena by repeated scans in
/// declaration order — ties broken by declaration order, so the result
/// is deterministic — or reports a node caught in a cycle. `Err` comes
/// exactly when no valid linearization exists at all.
#[verifier::loop_isolation(false)]
#[verifier::rlimit(100)]
fn topo_order(nodes: &Vec<Node>) -> (r: Result<Vec<usize>, usize>)
    requires
        nodes@.len() <= MAX_NODES,
        edges_wf(nodes@),
    ensures
        r is Ok ==> (valid_order(nodes@, r->Ok_0@) && r->Ok_0@.len() == nodes@.len()
            && r->Ok_0@ == declaration_greedy_order(nodes@)),
        r is Err ==> (r->Err_0 < nodes@.len() && forall|ord: Seq<usize>|
            !valid_order(nodes@, ord)),
{
    let n = nodes.len();
    let mut placed: Vec<bool> = Vec::new();
    let mut pos: Vec<usize> = Vec::new();
    let mut q0: usize = 0;
    while q0 < n
        invariant
            0 <= q0 <= n,
            placed@.len() == q0,
            pos@.len() == q0,
            forall|a: int| 0 <= a < q0 ==> !placed@[a],
        decreases n - q0,
    {
        placed.push(false);
        pos.push(0);
        q0 = q0 + 1;
    }
    let mut order: Vec<usize> = Vec::new();
    let ghost mut gplaced: Set<int> = Set::empty();
    let ghost ginit: (Seq<bool>, Seq<usize>) = (placed@, order@);
    let ghost mut gfuel: nat = (n + 1) as nat;
    proof {
        vstd::set_lib::lemma_int_range(0, n as int);
        assert(ginit.0 =~= Seq::new(nodes@.len(), |i: int| false));
        assert(ginit.1 =~= Seq::<usize>::empty());
    }
    loop
        invariant
            placed@.len() == n,
            pos@.len() == n,
            gplaced.finite(),
            gplaced.subset_of(vstd::set_lib::set_int_range(0, n as int)),
            gplaced.len() == order@.len(),
            order@.len() <= n,
            forall|a: int| 0 <= a < n ==> (placed@[a] <==> gplaced.contains(a)),
            forall|p: int|
                #![trigger order@[p]]
                0 <= p < order@.len() ==> (order@[p] < n && placed@[order@[p] as int]),
            forall|a: int|
                #![trigger pos@[a]]
                #![trigger placed@[a]]
                0 <= a < n && placed@[a] ==> (pos@[a] < order@.len() && order@[pos@[a] as int]
                    == a),
            forall|p: int| #![trigger order@[p]] 0 <= p < order@.len() ==> pos@[order@[p] as int]
                == p,
            forall|a: int, j: int|
                #![trigger nodes@[a].inputs@[j]]
                0 <= a < n && placed@[a] && 0 <= j < nodes@[a].inputs@.len() ==> (
                placed@[nodes@[a].inputs@[j].0 as int] && pos@[nodes@[a].inputs@[j].0 as int]
                    < pos@[a]),
            gfuel + order@.len() >= n + 1,
            spec_passes(nodes@, ginit, (n + 1) as nat) == spec_passes(
                nodes@,
                (placed@, order@),
                gfuel,
            ),
        decreases n - order@.len(),
    {
        let ghost st_r: (Seq<bool>, Seq<usize>) = (placed@, order@);
        let before = order.len();
        let mut i3: usize = 0;
        while i3 < n
            invariant
                placed@.len() == n,
                pos@.len() == n,
                0 <= i3 <= n,
                before <= order@.len(),
                gplaced.finite(),
                gplaced.subset_of(vstd::set_lib::set_int_range(0, n as int)),
                gplaced.len() == order@.len(),
                order@.len() <= n,
                forall|a: int| 0 <= a < n ==> (placed@[a] <==> gplaced.contains(a)),
                forall|p: int|
                    #![trigger order@[p]]
                    0 <= p < order@.len() ==> (order@[p] < n && placed@[order@[p] as int]),
                forall|a: int|
                    #![trigger pos@[a]]
                    #![trigger placed@[a]]
                    0 <= a < n && placed@[a] ==> (pos@[a] < order@.len() && order@[pos@[a] as int]
                        == a),
                forall|p: int|
                    #![trigger order@[p]]
                    0 <= p < order@.len() ==> pos@[order@[p] as int] == p,
                forall|a: int, j: int|
                    #![trigger nodes@[a].inputs@[j]]
                    0 <= a < n && placed@[a] && 0 <= j < nodes@[a].inputs@.len() ==> (
                    placed@[nodes@[a].inputs@[j].0 as int] && pos@[nodes@[a].inputs@[j].0 as int]
                        < pos@[a]),
                order@.len() == before ==> forall|a: int|
                    0 <= a < i3 && !placed@[a] ==> exists|j: int|
                        0 <= j < nodes@[a].inputs@.len() && !placed@[nodes@[a].inputs@[j].0 as int],
                st_r.1.len() == before,
                (placed@, order@) == spec_scan(nodes@, st_r, i3 as int),
            decreases n - i3,
        {
            let ghost stt: (Seq<bool>, Seq<usize>) = (placed@, order@);
            if !placed[i3] {
                let deps = &nodes[i3].inputs;
                let mut j: usize = 0;
                let mut ready = true;
                while j < deps.len()
                    invariant
                        0 <= j <= deps@.len(),
                        deps@ == nodes@[i3 as int].inputs@,
                        ready <==> forall|jj: int| 0 <= jj < j ==> placed@[deps@[jj].0 as int],
                    decreases deps@.len() - j,
                {
                    if !placed[deps[j].0] {
                        ready = false;
                    }
                    j = j + 1;
                }
                if ready {
                    let ghost placed0 = placed@;
                    let idx = order.len();
                    placed.set(i3, true);
                    pos.set(i3, idx);
                    order.push(i3);
                    proof {
                        assert(!placed0[i3 as int]);
                        assert(!gplaced.contains(i3 as int));
                        gplaced = gplaced.insert(i3 as int);
                        vstd::set_lib::lemma_len_subset(
                            gplaced,
                            vstd::set_lib::set_int_range(0, n as int),
                        );
                        assert forall|a: int, j2: int|
                            #![trigger nodes@[a].inputs@[j2]]
                            0 <= a < n && placed@[a] && 0 <= j2
                                < nodes@[a].inputs@.len() implies (
                        placed@[nodes@[a].inputs@[j2].0 as int] && pos@[nodes@[a].inputs@[j2].0
                            as int] < pos@[a]) by {
                            let k = nodes@[a].inputs@[j2].0 as int;
                            if a == i3 as int {
                                assert(placed0[k]);
                                assert(k != i3 as int);
                            } else {
                                assert(placed0[a]);
                                assert(placed0[k]);
                                assert(k != i3 as int);
                                assert(a != i3 as int);
                            }
                        }
                    }
                }
            }
            proof {
                assert(stt == spec_scan(nodes@, st_r, i3 as int));
                if !stt.0[i3 as int] && (forall|j2: int|
                    0 <= j2 < nodes@[i3 as int].inputs@.len() ==> stt.0[nodes@[i3 as int].inputs@[j2].0 as int]) {
                    assert(placed@ =~= stt.0.update(i3 as int, true));
                    assert(order@ =~= stt.1.push(i3));
                    assert(spec_scan(nodes@, st_r, i3 as int + 1) == (placed@, order@));
                } else {
                    assert((placed@, order@) == stt);
                    assert(spec_scan(nodes@, st_r, i3 as int + 1) == (placed@, order@));
                }
            }
            i3 = i3 + 1;
        }
        if order.len() == before {
            proof {
                assert((placed@, order@) == spec_scan(nodes@, st_r, n as int));
                assert(spec_scan(nodes@, st_r, n as int).1.len() == st_r.1.len());
                lemma_scan_stall(nodes@, st_r, n as int);
                assert((placed@, order@) == st_r);
                assert(spec_passes(nodes@, st_r, gfuel) == st_r);
                assert(order@ == declaration_greedy_order(nodes@));
            }
            let mut u: usize = 0;
            let mut first_un: Option<usize> = None;
            while u < n
                invariant
                    0 <= u <= n,
                    first_un is None ==> forall|a: int| 0 <= a < u ==> placed@[a],
                    first_un is Some ==> (0 <= first_un->Some_0 < n
                        && !placed@[first_un->Some_0 as int]),
                decreases n - u,
            {
                if !placed[u] {
                    first_un = Some(u);
                    break ;
                }
                u = u + 1;
            }
            match first_un {
                None => {
                    proof {
                        vstd::set_lib::lemma_int_range(0, n as int);
                        assert(gplaced =~= vstd::set_lib::set_int_range(0, n as int));
                        assert(order@.len() == n);
                        assert forall|p: int, q: int|
                            0 <= p < q < order@.len() implies order@[p] != order@[q] by {
                            if order@[p] == order@[q] {
                                assert(pos@[order@[p] as int] == p);
                                assert(pos@[order@[q] as int] == q);
                            }
                        }
                        assert forall|k: int|
                            0 <= k < nodes@.len() implies #[trigger] order@.contains(
                            k as usize,
                        ) by {
                            assert(placed@[k]);
                            assert(order@[pos@[k] as int] == k as usize);
                        }
                        assert forall|p: int, j: int|
                            #![trigger nodes@[order@[p] as int].inputs@[j]]
                            0 <= p < order@.len() && 0 <= j
                                < nodes@[order@[p] as int].inputs@.len() implies (order@.contains(
                            nodes@[order@[p] as int].inputs@[j].0,
                        ) && order_pos(order@, nodes@[order@[p] as int].inputs@[j].0) < p) by {
                            let a = order@[p] as int;
                            assert(placed@[a]);
                            let k = nodes@[a].inputs@[j].0;
                            assert(placed@[k as int] && pos@[k as int] < pos@[a]);
                            assert(pos@[a] == p);
                            assert(order@[pos@[k as int] as int] == k);
                            assert(order@.contains(k));
                            assert(exists|w: int| 0 <= w < order@.len() && order@[w] == k);
                            let op = order_pos(order@, k);
                            assert(0 <= op < order@.len() && order@[op] == k);
                            assert(pos@[order@[op] as int] == op);
                            assert(op == pos@[k as int]);
                        }
                        assert(valid_order(nodes@, order@));
                    }
                    return Ok(order);
                },
                Some(un) => {
                    proof {
                        assert(!placed@[un as int]);
                        assert forall|ord: Seq<usize>| !valid_order(nodes@, ord) by {
                            lemma_stall_no_order(nodes@, placed@, ord);
                        }
                    }
                    return Err(un);
                },
            }
        }
        proof {
            assert(gfuel >= 1);
            assert((placed@, order@) == spec_scan(nodes@, st_r, n as int));
            assert(order@.len() != st_r.1.len());
            assert(spec_passes(nodes@, st_r, gfuel) == spec_passes(
                nodes@,
                (placed@, order@),
                (gfuel - 1) as nat,
            ));
            gfuel = (gfuel - 1) as nat;
        }
    }
}

impl Model {
    /// Builds the graph from decoded descriptors. Succeeds exactly when
    /// the descriptors fit the arena bound, no name repeats, every input
    /// reference resolves to an existing node and slot, every operator is
    /// well formed, and the nodes admit a topological order — that is,
    /// the graph is acyclic. Every failure is a `GraphError` carrying an
    /// offending node name.
    #[verifier::loop_isolation(false)]
    #[verifier::rlimit(100)]
    pub fn build(defs: Vec<NodeDef>) -> (r: Result<Model, Error>)
        ensures
            r is Ok ==> {
                &&& resolves_to(defs@, r->Ok_0)
                &&& model_wf(r->Ok_0)
                &&& valid_def_order(defs@, r->Ok_0.order@)
                &&& r->Ok_0.order@ == declaration_greedy_order(r->Ok_0.nodes@)
            },
            r is Ok <==> (defs@.len() <= MAX_NODES && names_unique(defs@) && defs_resolve(defs@)
                && defs_ops_wf(defs@) && exists|ord: Seq<usize>| valid_def_order(defs@, ord)),
            r is Err ==> r->Err_0 is GraphError,
    {
        let n = defs.len();
        if n > MAX_NODES {
            return Err(Error::GraphError(String::new()));
        }
        // Reject duplicate names.
        let mut i: usize = 0;
        while i < n
            invariant
                0 <= i <= n,
                forall|a: int, b: int| 0 <= a < b < n && a < i ==> defs@[a].name@ != defs@[b].name@,
            decreases n - i,
        {
            let mut j: usize = i + 1;
            while j < n
                invariant
                    0 <= i < n,
                    i < j <= n,
                    forall|b: int| i < b < j ==> defs@[i as int].name@ != defs@[b].name@,
                decreases n - j,
            {
                if defs[i].name == defs[j].name {
                    return Err(Error::GraphError(defs[i].name.clone()));
                }
                j = j + 1;
            }
            i = i + 1;
        }
        assert(names_unique(defs@));
        // Resolve every input reference to (producer index, slot).
        let mut edges: Vec<Vec<(usize, usize)>> = Vec::new();
        let mut i2: usize = 0;
        while i2 < n
            invariant
                0 <= i2 <= n,
                edges@.len() == i2,
                forall|a: int| 0 <= a < i2 ==> edges@[a]@.len() == defs@[a].inputs@.len(),
                forall|a: int, j: int|
                    #![trigger edges@[a]@[j]]
                    0 <= a < i2 && 0 <= j < defs@[a].inputs@.len() ==> {
                        &&& 0 <= edges@[a]@[j].0 < n
                        &&& defs@[edges@[a]@[j].0 as int].name@ == defs@[a].inputs@[j].0@
                        &&& edges@[a]@[j].1 == defs@[a].inputs@[j].1
                        &&& edges@[a]@[j].1 < op_out_arity(defs@[edges@[a]@[j].0 as int].op)
                    },
            decreases n - i2,
        {
            let m_in = defs[i2].inputs.len();
            let mut row: Vec<(usize, usize)> = Vec::new();
            let mut j: usize = 0;
            while j < m_in
                invariant
                    0 <= i2 < n,
                    m_in == defs@[i2 as int].inputs@.len(),
                    0 <= j <= m_in,
                    row@.len() == j,
                    forall|jj: int|
                        #![trigger row@[jj]]
                        0 <= jj < j ==> {
                            &&& 0 <= row@[jj].0 < n
                            &&& defs@[row@[jj].0 as int].name@ == defs@[i2 as int].inputs@[jj].0@
                            &&& row@[jj].1 == defs@[i2 as int].inputs@[jj].1
                            &&& row@[jj].1 < op_out_arity(defs@[row@[jj].0 as int].op)
                        },
                decreases m_in - j,
            {
                let pname = &defs[i2].inputs[j].0;
                let slot = defs[i2].inputs[j].1;
                let mut k: usize = 0;
                let mut found: Option<usize> = None;
                while k < n
                    invariant
                        0 <= k <= n,
                        pname@ == defs@[i2 as int].inputs@[j as int].0@,
                        found is None ==> forall|kk: int| 0 <= kk < k ==> defs@[kk].name@ != pname@,
                        found is Some ==> (0 <= found->Some_0 < n && defs@[found->Some_0 as int].name@
                            == pname@),
                    decreases n - k,
                {
                    if defs[k].name == *pname {
                        found = Some(k);
                        break ;
                    }
                    k = k + 1;
                }
                match found {
                    None => {
                        assert(forall|kk: int| 0 <= kk < n ==> defs@[kk].name@ != pname@);
                        assert(!def_resolves(defs@, i2 as int, j as int));
                        return Err(Error::GraphError(pname.clone()));
                    },
                    Some(kf) => {
                        let arity = defs[kf].op.out_arity();
                        if slot >= arity {
                            assert forall|kk: int|
                                0 <= kk < n && defs@[kk].name@ == pname@ implies !(defs@[i2 as int].inputs@[j as int].1
                                < op_out_arity(defs@[kk].op)) by {
                                if kk < kf {
                                    assert(defs@[kk].name@ != defs@[kf as int].name@);
                                } else if kk > kf {
                                    assert(defs@[kf as int].name@ != defs@[kk].name@);
                                }
                            }
                            assert(!def_resolves(defs@, i2 as int, j as int));
                            return Err(Error::GraphError(pname.clone()));
                        }
                        row.push((kf, slot));
                    },
                }
                j = j + 1;
            }
            edges.push(row);
            i2 = i2 + 1;
        }
        // Build the arena: names and operators carried over, edges from
        // the resolution, every fact unknown.
        let mut nodes: Vec<Node> = Vec::new();
        let mut facts: Vec<Fact> = Vec::new();
        let mut b: usize = 0;
        while b < n
            invariant
                0 <= b <= n,
                nodes@.len() == b,
                facts@.len() == b,
                forall|a: int|
                    #![trigger nodes@[a]]
                    0 <= a < b ==> (nodes@[a].name@ == defs@[a].name@ && op_feq(
                        nodes@[a].op,
                        defs@[a].op,
                    ) && nodes@[a].inputs@ == edges@[a]@),
                forall|a: int|
                    #![trigger facts@[a]]
                    0 <= a < b ==> fact_view(facts@[a]) == unknown_fact_view(),
            decreases n - b,
        {
            let name = defs[b].name.clone();
            let op = op_dup(&defs[b].op);
            let row = copy_edge_row(&edges[b]);
            nodes.push(Node { name, op, inputs: row });
            facts.push(Fact::unknown());
            b = b + 1;
        }
        // Reject an ill-formed operator.
        let mut w: usize = 0;
        while w < n
            invariant
                0 <= w <= n,
                forall|a: int| 0 <= a < w ==> op_wf(nodes@[a].op),
            decreases n - w,
        {
            let ok = match &nodes[w].op {
                OpKind::Const(t) => t.check_wf(),
                _ => true,
            };
            if !ok {
                proof {
                    lemma_op_feq_props(nodes@[w as int].op, defs@[w as int].op);
                    assert(!op_wf(defs@[w as int].op));
                    assert(!defs_ops_wf(defs@));
                }
                return Err(Error::GraphError(nodes[w].name.clone()));
            }
            w = w + 1;
        }
        proof {
            assert forall|a: int| 0 <= a < n implies op_wf(defs@[a].op) by {
                lemma_op_feq_props(nodes@[a].op, defs@[a].op);
            }
            assert(defs_ops_wf(defs@));
            assert forall|a: int, j: int|
                0 <= a < nodes@.len() && 0 <= j < nodes@[a].inputs@.len() implies (
            nodes@[a].inputs@[j].0 < nodes@.len() && nodes@[a].inputs@[j].1 < op_out_arity(
                nodes@[nodes@[a].inputs@[j].0 as int].op,
            )) by {
                assert(nodes@[a].inputs@[j] == edges@[a]@[j]);
                let k = nodes@[a].inputs@[j].0 as int;
                lemma_op_feq_props(nodes@[k].op, defs@[k].op);
            }
            assert(edges_wf(nodes@));
        }
        match topo_order(&nodes) {
            Ok(order) => {
                let m = Model { nodes, facts, order };
                proof {
                    assert(resolves_to(defs@, m));
                    assert forall|ii: int, jj: int|
                        0 <= ii < jj < m.nodes@.len() implies m.nodes@[ii].name@
                        != m.nodes@[jj].name@ by {
                        assert(defs@[ii].name@ != defs@[jj].name@);
                    }
                    assert(model_wf(m));
                    assert forall|i4: int, j4: int|
                        0 <= i4 < defs@.len() && 0 <= j4
                            < defs@[i4].inputs@.len() implies def_resolves(defs@, i4, j4) by {
                        let k = m.nodes@[i4].inputs@[j4].0 as int;
                        assert(0 <= k < defs@.len() && defs@[k].name@ == defs@[i4].inputs@[j4].0@
                            && defs@[i4].inputs@[j4].1 < op_out_arity(defs@[k].op));
                    }
                    assert(defs_resolve(defs@));
                    assert forall|p: int, j4: int, k: int|
                        #![trigger defs@[m.order@[p] as int].inputs@[j4], defs@[k].name@]
                        0 <= p < m.order@.len() && 0 <= j4
                            < defs@[m.order@[p] as int].inputs@.len() && 0 <= k < defs@.len()
                            && defs@[k].name@ == defs@[m.order@[p] as int].inputs@[j4].0@ implies (
                    m.order@.contains(k as usize) && order_pos(m.order@, k as usize) < p) by {
                        let i4 = m.order@[p] as int;
                        assert(m.nodes@[i4].inputs@.len() == defs@[i4].inputs@.len());
                        let k0 = m.nodes@[i4].inputs@[j4].0;
                        assert(defs@[k0 as int].name@ == defs@[i4].inputs@[j4].0@);
                        if k != k0 as int {
                            if k < k0 as int {
                                assert(defs@[k].name@ != defs@[k0 as int].name@);
                            } else {
                                assert(defs@[k0 as int].name@ != defs@[k].name@);
                            }
                        }
                        assert(k == k0 as int);
                        assert(m.order@.contains(k0) && order_pos(m.order@, k0) < p);
                        assert(k as usize == k0);
                    }
                    assert(valid_def_order(defs@, m.order@));
                }
                Ok(m)
            },
            Err(un) => {
                proof {
                    assert forall|ord: Seq<usize>| !valid_def_order(defs@, ord) by {
                        if valid_def_order(defs@, ord) {
                            lemma_def_order_to_order(defs@, nodes@, ord);
                            assert(!valid_order(nodes@, ord));
                        }
                    }
                }
                Err(Error::GraphError(nodes[un].name.clone()))
            },
        }
    }

    /// Looks a node up by name: its index in the arena, or `NotFound`
    /// carrying the name, exactly when no node bears it.
    #[verifier::loop_isolation(false)]
    pub fn node_id(&self, name: &String) -> (r: Result<usize, Error>)
        ensures
            r is Ok ==> (r->Ok_0 < self.nodes@.len() && self.nodes@[r->Ok_0 as int].name@
                == name@),
            r is Err ==> r->Err_0 == Error::NotFound(*name),
            r is Ok <==> exists|i: int|
                0 <= i < self.nodes@.len() && self.nodes@[i].name@ == name@,
    {
        let mut i: usize = 0;
        while i < self.nodes.len()
            invariant
                0 <= i <= self.nodes@.len(),
                forall|k: int| 0 <= k < i ==> self.nodes@[k].name@ != name@,
            decreases self.nodes@.len() - i,
        {
            if self.nodes[i].name == *name {
                return Ok(i);
            }
            i = i + 1;
        }
        Err(Error::NotFound(name.clone()))
    }

    /// Looks a node up by name; `NotFound` exactly when the name is not
    /// in the model. The model is left untouched either way: lookup
    /// borrows it immutably.
    pub fn node(&self, name: &String) -> (r: Result<&Node, Error>)
        ensures
            r is Ok ==> exists|i: int|
                0 <= i < self.nodes@.len() && self.nodes@[i] == *r->Ok_0 && self.nodes@[i].name@
                    == name@,
            r is Err ==> r->Err_0 == Error::NotFound(*name),
            r is Ok <==> exists|i: int|
                0 <= i < self.nodes@.len() && self.nodes@[i].name@ == name@,
    {
        match self.node_id(name) {
            Ok(i) => Ok(&self.nodes[i]),
            Err(e) => Err(e),
        }
    }

    /// The cached topological order: every node appears after all its
    /// input producers.
    pub fn nodes_in_topological_order(&self) -> (r: &Vec<usize>)
        ensures
            r@ == self.order@,
    {
        &self.order
    }

    /// The inferred fact of one node's output slot.
    pub fn fact_of(&self, id: usize) -> (r: &Fact)
        requires
            id < self.facts@.len(),
        ensures
            *r == self.facts@[id as int],
    {
        &self.facts[id]
    }
}

} // verus!
