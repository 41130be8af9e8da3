use vstd::prelude::*;
use crate::errors::Error;
use crate::model::{Model, model_wf, order_pos};
use crate::ops::OpKind;
use crate::plan::has_node;

verus! {

broadcast use vstd::seq_lib::group_seq_properties;

/// The per-run state of the streaming evaluator.
#[derive(Clone, Copy, Debug, PartialEq, Eq, Structural)]
pub enum StreamState {
    /// Nothing buffered; waiting for data.
    Idle,
    /// Data buffered, but less than one block: more history is needed
    /// before anything can be emitted.
    Buffering,
    /// At least one full block buffered; output is about to be emitted.
    Ready,
    /// End of stream reached (or the run poisoned by a failure): no more
    /// output can be produced.
    Exhausted,
}

/// The sum of the constants of an elementwise add chain.
pub open spec fn chain_sum(cs: Seq<i64>) -> int
    decreases cs.len(),
{
    if cs.len() == 0 {
        0
    } else {
        chain_sum(cs.drop_last()) + cs.last()
    }
}

/// The chain applied to a whole sequence, element by element.
pub open spec fn chain_map(cs: Seq<i64>, xs: Seq<i64>) -> Seq<i64> {
    Seq::new(xs.len(), |i: int| (xs[i] + chain_sum(cs)) as i64)
}

/// How many of `len` available elements form whole blocks of `block`.
pub open spec fn full_blocks(len: int, block: int) -> int {
    (len / block) * block
}

/// A chain through the arena: consecutive nodes linked by single-input
/// elementwise adds, with the constant of each link.
pub open spec fn is_add_chain(m: Model, p: Seq<usize>, cs: Seq<i64>) -> bool {
    &&& p.len() >= 1
    &&& cs.len() == p.len() - 1
    &&& forall|t: int| 0 <= t < p.len() ==> p[t] < m.nodes@.len()
    &&& forall|t: int|
        #![trigger p[t]]
        0 <= t < p.len() - 1 ==> (m.nodes@[p[t] as int].op == OpKind::AddConst(cs[t])
            && m.nodes@[p[t] as int].inputs@.len() == 1 && m.nodes@[p[t] as int].inputs@[0].0 == p[
            t + 1
        ])
}

/// A chain that leads from the named output node back to the named
/// input node, every prefix of its constants summing within the datum
/// range: exactly what a streaming run asks of the graph.
pub open spec fn chain_connects(
    m: Model,
    p: Seq<usize>,
    cs: Seq<i64>,
    out_name: Seq<char>,
    in_name: Seq<char>,
) -> bool {
    &&& is_add_chain(m, p, cs)
    &&& m.nodes@[p[0] as int].name@ == out_name
    &&& m.nodes@[p[p.len() - 1] as int].name@ == in_name
    &&& forall|k: int|
        0 <= k <= cs.len() ==> i64::MIN <= #[trigger] chain_sum(cs.take(k)) <= i64::MAX
}

/// Chunking is invisible to an elementwise chain: evaluating a
/// concatenation equals concatenating the evaluations. This is why the
/// streaming path and the one-shot path agree on any split into chunks.
pub proof fn lemma_chain_map_concat(cs: Seq<i64>, a: Seq<i64>, b: Seq<i64>)
    ensures
        chain_map(cs, a + b) == chain_map(cs, a) + chain_map(cs, b),
{
    assert(chain_map(cs, a + b) =~= chain_map(cs, a) + chain_map(cs, b));
}

/// A streaming evaluation over one unbounded axis: the graph between the
/// chosen input and output must be a chain of elementwise adds, and the
/// input arrives as arbitrary slices that are renormalized into blocks
/// of a fixed size; a trailing remainder shorter than one block stays
/// buffered.
pub struct StreamingPlan {
    pub consts: Vec<i64>,
    pub csum: i64,
    pub block: usize,
    pub buf: Vec<i64>,
    pub state: StreamState,
    pub hist: Ghost<Seq<i64>>,
    pub emitted: Ghost<Seq<i64>>,
}

/// The streaming invariant: the buffer is the undigested tail of the
/// history, everything before it has been emitted exactly once, in
/// order, as the chain's value of the corresponding input element.
pub open spec fn stream_wf(s: StreamingPlan) -> bool {
    &&& s.block > 0
    &&& i64::MIN <= chain_sum(s.consts@) <= i64::MAX
    &&& s.csum == chain_sum(s.consts@)
    &&& s.buf@.len() < s.block
    &&& s.buf@.len() <= s.hist@.len()
    &&& s.buf@ == s.hist@.skip(s.hist@.len() - s.buf@.len())
    &&& s.emitted@ == chain_map(s.consts@, s.hist@.take(s.hist@.len() - s.buf@.len()))
    &&& forall|i: int|
        #![trigger s.hist@[i]]
        0 <= i < s.hist@.len() - s.buf@.len() ==> i64::MIN <= s.hist@[i] + chain_sum(s.consts@)
            <= i64::MAX
    &&& (s.state is Idle ==> s.buf@.len() == 0)
    &&& (s.state is Buffering ==> 0 < s.buf@.len())
    &&& !(s.state is Ready)
}

impl StreamingPlan {
    /// Builds a streaming run for the chain of elementwise adds leading
    /// from the named output node back to the named input node, with the
    /// given block size. Succeeds exactly when the block size is not
    /// zero, both names are in the model, and such a chain connects them
    /// with every prefix of its constants summing within the datum
    /// range; the returned constants are the constants of that chain.
    /// `NotFound` for a missing name, `Unsupported` for everything else.
    #[verifier::loop_isolation(false)]
    #[verifier::rlimit(100)]
    pub fn new(model: &Model, input: &String, output: &String, block: usize) -> (r: Result<
        StreamingPlan,
        Error,
    >)
        requires
            model_wf(*model),
        ensures
            r is Ok <==> (block > 0 && has_node(*model, input@) && has_node(*model, output@)
                && exists|p: Seq<usize>, cs: Seq<i64>|
                chain_connects(*model, p, cs, output@, input@)),
            r is Ok ==> (stream_wf(r->Ok_0) && r->Ok_0.state is Idle && r->Ok_0.hist@.len() == 0
                && r->Ok_0.emitted@.len() == 0 && r->Ok_0.block == block && exists|p: Seq<usize>|
                chain_connects(*model, p, r->Ok_0.consts@, output@, input@)),
            r is Err ==> (r->Err_0 is NotFound || r->Err_0 is Unsupported),
    {
        if block == 0 {
            return Err(Error::Unsupported);
        }
        let in_id = match model.node_id(input) {
            Ok(i) => i,
            Err(_) => {
                proof {
                    assert(!has_node(*model, input@));
                }
                return Err(Error::NotFound(input.clone()));
            },
        };
        let out_id = match model.node_id(output) {
            Ok(i) => i,
            Err(_) => {
                proof {
                    assert(!has_node(*model, output@));
                }
                return Err(Error::NotFound(output.clone()));
            },
        };
        // Walk from the output back to the input; only unary elementwise
        // adds may stand on the way. Any connecting chain must follow
        // the same single-producer edges, so the walk is the only
        // candidate: that gives both directions of the contract.
        let mut consts: Vec<i64> = Vec::new();
        let mut csum: i64 = 0;
        let mut cur = out_id;
        let ghost mut gpath: Seq<usize> = seq![out_id];
        proof {
            assert(chain_sum(consts@.take(0)) == 0);
            assert forall|p: Seq<usize>, cs: Seq<i64>|
                #![trigger chain_connects(*model, p, cs, output@, input@)]
                chain_connects(*model, p, cs, output@, input@) implies (gpath.len() - 1 < p.len()
                && p[gpath.len() - 1] == cur && cs.take(gpath.len() - 1) == consts@) by {
                let p0 = p[0];
                if p0 != out_id {
                    if (p0 as int) < out_id as int {
                        assert(model.nodes@[p0 as int].name@ != model.nodes@[out_id as int].name@);
                    } else {
                        assert(model.nodes@[out_id as int].name@ != model.nodes@[p0 as int].name@);
                    }
                }
                assert(p[0] == out_id);
                assert(cs.take(0) =~= consts@);
            }
        }
        while cur != in_id
            invariant
                cur < model.nodes@.len(),
                i64::MIN <= chain_sum(consts@) <= i64::MAX,
                csum == chain_sum(consts@),
                gpath.len() == consts@.len() + 1,
                gpath[0] == out_id,
                gpath[gpath.len() - 1] == cur,
                forall|t: int| 0 <= t < gpath.len() ==> gpath[t] < model.nodes@.len(),
                forall|t: int|
                    #![trigger gpath[t]]
                    0 <= t < gpath.len() - 1 ==> (model.nodes@[gpath[t] as int].op
                        == OpKind::AddConst(consts@[t]) && model.nodes@[gpath[t] as int].inputs@.len()
                        == 1 && model.nodes@[gpath[t] as int].inputs@[0].0 == gpath[t + 1]),
                forall|k: int|
                    0 <= k <= consts@.len() ==> i64::MIN <= #[trigger] chain_sum(consts@.take(k))
                        <= i64::MAX,
                forall|p: Seq<usize>, cs: Seq<i64>|
                    #![trigger chain_connects(*model, p, cs, output@, input@)]
                    chain_connects(*model, p, cs, output@, input@) ==> (gpath.len() - 1 < p.len()
                        && p[gpath.len() - 1] == cur && cs.take(gpath.len() - 1) == consts@),
            decreases order_pos(model.order@, cur),
        {
            // Any connecting chain passes through `cur` here, and not at
            // its last position: the last position carries the input
            // node's name, and names are unique.
            proof {
                assert forall|p: Seq<usize>, cs: Seq<i64>|
                    #![trigger chain_connects(*model, p, cs, output@, input@)]
                    chain_connects(*model, p, cs, output@, input@) implies gpath.len() - 1 < p.len()
                    - 1 by {
                    let k = gpath.len() - 1;
                    if k == p.len() - 1 {
                        assert(model.nodes@[cur as int].name@ == input@);
                        assert(model.nodes@[in_id as int].name@ == input@);
                        if (cur as int) < in_id as int {
                            assert(model.nodes@[cur as int].name@
                                != model.nodes@[in_id as int].name@);
                        } else if (in_id as int) < cur as int {
                            assert(model.nodes@[in_id as int].name@
                                != model.nodes@[cur as int].name@);
                        }
                        assert(cur == in_id);
                        assert(false);
                    }
                }
            }
            let c = match &model.nodes[cur].op {
                OpKind::AddConst(c) => *c,
                _ => {
                    proof {
                        assert forall|p: Seq<usize>, cs: Seq<i64>|
                            !chain_connects(*model, p, cs, output@, input@) by {
                            if chain_connects(*model, p, cs, output@, input@) {
                                let k = gpath.len() - 1;
                                assert(p[k] == cur && k < p.len() - 1);
                                assert(model.nodes@[cur as int].op == OpKind::AddConst(cs[k]));
                            }
                        }
                    }
                    return Err(Error::Unsupported);
                },
            };
            if model.nodes[cur].inputs.len() != 1 {
                proof {
                    assert forall|p: Seq<usize>, cs: Seq<i64>|
                        !chain_connects(*model, p, cs, output@, input@) by {
                        if chain_connects(*model, p, cs, output@, input@) {
                            let k = gpath.len() - 1;
                            assert(p[k] == cur && k < p.len() - 1);
                            assert(model.nodes@[cur as int].inputs@.len() == 1);
                        }
                    }
                }
                return Err(Error::Unsupported);
            }
            let nxt = model.nodes[cur].inputs[0].0;
            proof {
                assert(model.order@.contains((cur as int) as usize));
                assert((cur as int) as usize == cur);
                assert(exists|w: int| 0 <= w < model.order@.len() && model.order@[w] == cur);
                let q = order_pos(model.order@, cur);
                assert(0 <= q < model.order@.len() && model.order@[q] == cur);
                assert(model.order@.contains(model.nodes@[model.order@[q] as int].inputs@[0].0)
                    && order_pos(
                    model.order@,
                    model.nodes@[model.order@[q] as int].inputs@[0].0,
                ) < q);
                assert(order_pos(model.order@, nxt) < order_pos(model.order@, cur));
                assert(exists|w: int| 0 <= w < model.order@.len() && model.order@[w] == nxt);
                let q2 = order_pos(model.order@, nxt);
                assert(0 <= q2);
            }
            csum = match csum.checked_add(c) {
                Some(s) => s,
                None => {
                    proof {
                        assert forall|p: Seq<usize>, cs: Seq<i64>|
                            !chain_connects(*model, p, cs, output@, input@) by {
                            if chain_connects(*model, p, cs, output@, input@) {
                                let k = gpath.len() - 1;
                                assert(p[k] == cur && k < p.len() - 1);
                                assert(model.nodes@[cur as int].op == OpKind::AddConst(cs[k]));
                                assert(cs[k] == c);
                                assert(cs.take(k + 1).drop_last() =~= cs.take(k));
                                assert(cs.take(k + 1).last() == cs[k]);
                                assert(cs.take(k) == consts@);
                                assert(chain_sum(cs.take(k + 1)) == chain_sum(consts@) + c);
                                assert(i64::MIN <= chain_sum(cs.take(k + 1)) <= i64::MAX);
                            }
                        }
                    }
                    return Err(Error::Unsupported);
                },
            };
            let ghost c0 = consts@;
            let ghost cur0 = cur;
            consts.push(c);
            proof {
                assert(consts@.drop_last() =~= c0);
                assert(consts@.last() == c);
                gpath = gpath.push(nxt);
            }
            cur = nxt;
            proof {
                assert(gpath[gpath.len() - 1] == cur);
                assert(gpath[gpath.len() - 2] == cur0);
                assert forall|k: int|
                    0 <= k <= consts@.len() implies i64::MIN <= #[trigger] chain_sum(
                    consts@.take(k),
                ) <= i64::MAX by {
                    if k <= c0.len() {
                        assert(consts@.take(k) =~= c0.take(k));
                    } else {
                        assert(consts@.take(k) =~= consts@);
                    }
                }
                assert forall|p: Seq<usize>, cs: Seq<i64>|
                    #![trigger chain_connects(*model, p, cs, output@, input@)]
                    chain_connects(*model, p, cs, output@, input@) implies (gpath.len() - 1
                    < p.len() && p[gpath.len() - 1] == cur && cs.take(gpath.len() - 1)
                    == consts@) by {
                    let k = gpath.len() - 2;
                    assert(p[k] == cur0 && k < p.len() - 1);
                    assert(model.nodes@[cur0 as int].op == OpKind::AddConst(cs[k]));
                    assert(cs[k] == c);
                    assert(p[k + 1] == model.nodes@[cur0 as int].inputs@[0].0);
                    assert(p[k + 1] == cur);
                    assert(cs.take(k + 1) =~= cs.take(k).push(cs[k]));
                    assert(cs.take(k) == c0);
                    assert(cs.take(k + 1) =~= consts@);
                }
            }
        }
        let sp = StreamingPlan {
            consts,
            csum,
            block,
            buf: Vec::new(),
            state: StreamState::Idle,
            hist: Ghost(Seq::empty()),
            emitted: Ghost(Seq::empty()),
        };
        proof {
            assert((Seq::<i64>::empty()).take(0) =~= Seq::<i64>::empty());
            assert((Seq::<i64>::empty()).skip(0) =~= Seq::<i64>::empty());
            assert(sp.emitted@ =~= chain_map(sp.consts@, sp.hist@.take(0)));
            assert(stream_wf(sp));
            assert(chain_sum(sp.consts@.take(sp.consts@.len() as int)) == chain_sum(sp.consts@))
                by {
                assert(sp.consts@.take(sp.consts@.len() as int) =~= sp.consts@);
            }
            assert(chain_connects(*model, gpath, sp.consts@, output@, input@));
            assert(has_node(*model, input@));
            assert(has_node(*model, output@));
        }
        Ok(sp)
    }

    /// Feeds one slice of the streaming axis. Every full block now
    /// available is evaluated and emitted at once, in arrival order; a
    /// shorter remainder stays buffered. Succeeds exactly when every
    /// element of those full blocks keeps its chain value within the
    /// datum range; otherwise `EvalError`, and the run is exhausted and
    /// emits nothing further.
    #[verifier::loop_isolation(false)]
    #[verifier::rlimit(100)]
    pub fn step(&mut self, chunk: &Vec<i64>) -> (r: Result<Vec<i64>, Error>)
        requires
            stream_wf(*old(self)),
            !(old(self).state is Exhausted),
        ensures
            r is Ok <==> (forall|k: int|
                0 <= k < full_blocks(
                    old(self).buf@.len() + chunk@.len() as int,
                    old(self).block as int,
                ) ==> i64::MIN <= #[trigger] (old(self).buf@ + chunk@)[k] + chain_sum(
                    old(self).consts@,
                ) <= i64::MAX),
            r is Ok ==> {
                &&& stream_wf(*final(self))
                &&& final(self).consts@ == old(self).consts@
                &&& final(self).block == old(self).block
                &&& final(self).hist@ == old(self).hist@ + chunk@
                &&& final(self).emitted@ == old(self).emitted@ + r->Ok_0@
                &&& !(final(self).state is Exhausted)
            },
            r is Err ==> (r->Err_0 == Error::EvalError && final(self).state is Exhausted),
    {
        let mut combined = Vec::new();
        let mut bi: usize = 0;
        while bi < self.buf.len()
            invariant
                0 <= bi <= self.buf@.len(),
                combined@ =~= self.buf@.take(bi as int),
            decreases self.buf@.len() - bi,
        {
            combined.push(self.buf[bi]);
            bi = bi + 1;
        }
        let mut ci: usize = 0;
        while ci < chunk.len()
            invariant
                0 <= ci <= chunk@.len(),
                combined@ =~= self.buf@ + chunk@.take(ci as int),
            decreases chunk@.len() - ci,
        {
            combined.push(chunk[ci]);
            ci = ci + 1;
        }
        proof {
            assert(combined@ =~= self.buf@ + chunk@);
        }
        // Evaluate every full block.
        proof {
            assert(self.block > 0);
        }
        let q = combined.len() / self.block;
        proof {
            assert(q * self.block <= combined@.len()) by (nonlinear_arith)
                requires
                    self.block > 0,
                    q == combined@.len() as int / self.block as int,
            ;
        }
        let nfull = q * self.block;
        let mut out: Vec<i64> = Vec::new();
        let mut i: usize = 0;
        while i < nfull
            invariant
                0 <= i <= nfull <= combined@.len(),
                out@.len() == i,
                self == old(self),
                combined@ =~= self.buf@ + chunk@,
                forall|k: int|
                    #![trigger combined@[k]]
                    0 <= k < i ==> (i64::MIN <= combined@[k] + chain_sum(self.consts@) <= i64::MAX
                        && out@[k] == combined@[k] + chain_sum(self.consts@)),
            decreases nfull - i,
        {
            let v = combined[i];
            match v.checked_add(self.csum) {
                Some(s) => out.push(s),
                None => {
                    proof {
                        assert((old(self).buf@ + chunk@)[i as int] == combined@[i as int]);
                        assert(!(i64::MIN <= (old(self).buf@ + chunk@)[i as int] + chain_sum(
                            old(self).consts@,
                        ) <= i64::MAX));
                        assert(nfull == full_blocks(
                            old(self).buf@.len() + chunk@.len() as int,
                            old(self).block as int,
                        ));
                    }
                    self.state = StreamState::Exhausted;
                    return Err(Error::EvalError);
                },
            }
            i = i + 1;
        }
        // Keep the remainder buffered.
        let mut rest: Vec<i64> = Vec::new();
        let mut k2: usize = nfull;
        while k2 < combined.len()
            invariant
                nfull <= k2 <= combined@.len(),
                rest@ =~= combined@.subrange(nfull as int, k2 as int),
                combined@ =~= old(self).buf@ + chunk@,
            decreases combined@.len() - k2,
        {
            rest.push(combined[k2]);
            k2 = k2 + 1;
        }
        self.state = StreamState::Ready;
        self.buf = rest;
        proof {
            self.hist@ = old(self).hist@ + chunk@;
            self.emitted@ = old(self).emitted@ + out@;
        }
        if self.buf.len() == 0 {
            self.state = StreamState::Idle;
        } else {
            self.state = StreamState::Buffering;
        }
        proof {
            let oldh = old(self).hist@;
            let oldb = old(self).buf@;
            let olddone = oldh.len() - oldb.len();
            let h = self.hist@;
            let b = self.buf@;
            let cs = self.consts@;
            assert(h == oldh + chunk@);
            assert(combined@ == oldb + chunk@);
            assert(b == combined@.subrange(nfull as int, combined@.len() as int));
            assert(h.len() - b.len() == olddone + nfull);
            assert(oldb =~= oldh.skip(olddone as int));
            assert forall|x: int| 0 <= x < b.len() implies b[x] == h[olddone + nfull + x] by {
                assert(b[x] == combined@[nfull + x]);
                if nfull + x < oldb.len() {
                    assert(combined@[nfull + x] == oldb[nfull + x]);
                    assert(oldb[nfull + x] == oldh[olddone + nfull + x]);
                    assert(h[olddone + nfull + x] == oldh[olddone + nfull + x]);
                } else {
                    assert(combined@[nfull + x] == chunk@[nfull + x - oldb.len()]);
                    assert(h[olddone + nfull + x] == chunk@[olddone + nfull + x - oldh.len()]);
                }
            }
            assert(b =~= h.skip(h.len() - b.len()));
            assert(old(self).emitted@ == chain_map(cs, oldh.take(olddone as int)));
            assert forall|x: int|
                #![trigger h[x]]
                0 <= x < olddone + nfull implies (i64::MIN <= h[x] + chain_sum(cs) <= i64::MAX
                && self.emitted@[x] == ((h[x] + chain_sum(cs)) as i64)) by {
                if x < olddone {
                    assert(h[x] == oldh[x]);
                    assert(self.emitted@[x] == old(self).emitted@[x]);
                    assert(old(self).emitted@[x] == chain_map(cs, oldh.take(olddone as int))[x]);
                    assert(oldh.take(olddone as int)[x] == oldh[x]);
                } else {
                    let k = x - olddone;
                    assert(0 <= k < nfull);
                    assert(self.emitted@[x] == out@[k]);
                    if k < oldb.len() {
                        assert(combined@[k] == oldb[k]);
                        assert(oldb[k] == oldh[olddone + k]);
                        assert(h[x] == oldh[x]);
                    } else {
                        assert(combined@[k] == chunk@[k - oldb.len()]);
                        assert(h[x] == chunk@[x - oldh.len()]);
                    }
                    assert(h[x] == combined@[k]);
                    assert(out@[k] == combined@[k] + chain_sum(cs));
                }
            }
            assert(self.emitted@.len() == olddone + nfull);
            assert(self.emitted@ =~= chain_map(cs, h.take(h.len() - b.len())));
            assert(combined@.len() - nfull < self.block) by (nonlinear_arith)
                requires
                    self.block > 0,
                    nfull == (combined@.len() as int / self.block as int) * self.block as int,
            ;
            assert(b.len() < self.block);
            assert forall|i: int|
                #![trigger self.hist@[i]]
                0 <= i < self.hist@.len() - self.buf@.len() implies i64::MIN <= self.hist@[i]
                + chain_sum(self.consts@) <= i64::MAX by {
                assert(h[i] == self.hist@[i]);
                assert(i64::MIN <= h[i] + chain_sum(cs) <= i64::MAX);
            }
            assert(stream_wf(*self));
            assert(nfull == full_blocks(
                old(self).buf@.len() + chunk@.len() as int,
                old(self).block as int,
            ));
            assert forall|k: int|
                0 <= k < full_blocks(
                    old(self).buf@.len() + chunk@.len() as int,
                    old(self).block as int,
                ) implies i64::MIN <= #[trigger] (old(self).buf@ + chunk@)[k] + chain_sum(
                old(self).consts@,
            ) <= i64::MAX by {
                assert((old(self).buf@ + chunk@)[k] == combined@[k]);
            }
        }
        Ok(out)
    }

    /// Signals end of stream. The run becomes exhausted either way;
    /// `IncompleteStream` exactly when data too short to fill one block
    /// was still buffered — surfaced, never silently dropped.
    pub fn close(&mut self) -> (r: Result<(), Error>)
        requires
            stream_wf(*old(self)),
        ensures
            final(self).state is Exhausted,
            final(self).emitted@ == old(self).emitted@,
            r is Ok <==> old(self).buf@.len() == 0,
            r is Err ==> r->Err_0 == Error::IncompleteStream,
    {
        self.state = StreamState::Exhausted;
        if self.buf.len() == 0 {
            Ok(())
        } else {
            Err(Error::IncompleteStream)
        }
    }
}

} // verus!
