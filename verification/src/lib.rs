//! A self-contained inference engine for pre-trained computation graphs:
//! a model of named operator nodes is built from decoded node
//! descriptors, annotated by a shape-inference fixpoint, and evaluated
//! against caller-supplied tensors by a reusable execution plan, in
//! whole or incrementally along one streaming axis.

use vstd::prelude::*;

pub mod analyser;
pub mod dim;
pub mod errors;
pub mod fact;
pub mod model;
pub mod node_set;
pub mod ops;
pub mod plan;
pub mod streaming;
pub mod tensor;

pub use dim::DimFact;
pub use errors::Error;
pub use fact::{Fact, ShapeFact};
pub use model::{Model, Node, NodeDef};
pub use ops::OpKind;
pub use plan::Plan;
pub use streaming::StreamingPlan;
pub use tensor::{DatumType, Tensor};

verus! {

/// Loads a model from the node descriptors that an external decoder
/// produced for a serialized graph: the builder's contract holds —
/// success exactly for a well-formed acyclic graph, and the cached
/// topological order is the deterministic declaration-order-greedy
/// linearization.
pub fn for_path(defs: Vec<model::NodeDef>) -> (r: Result<model::Model, errors::Error>)
    ensures
        r is Ok ==> {
            &&& model::resolves_to(defs@, r->Ok_0)
            &&& model::model_wf(r->Ok_0)
            &&& model::valid_def_order(defs@, r->Ok_0.order@)
            &&& r->Ok_0.order@ == model::declaration_greedy_order(r->Ok_0.nodes@)
        },
        r is Ok <==> (defs@.len() <= model::MAX_NODES && model::names_unique(defs@)
            && model::defs_resolve(defs@) && model::defs_ops_wf(defs@) && exists|ord: Seq<usize>|
            model::valid_def_order(defs@, ord)),
        r is Err ==> r->Err_0 is GraphError,
{
    model::Model::build(defs)
}

} // verus!
