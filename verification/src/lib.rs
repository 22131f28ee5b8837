//! A minimal, backend-agnostic key-value storage abstraction: a store opens
//! named logical partitions ("trees") of byte-string keys and values, and a
//! tree supports insert, point lookup, ordered snapshot iteration, merge via
//! a caller-supplied operator, flush, and clear. The in-memory backend under
//! `adapter` implements the whole contract and is verified against it; a
//! durable engine is bound to the same traits outside this crate.
use vstd::prelude::*;

pub mod adapter;
pub mod error;
pub mod laws;
pub mod model;
pub mod ops;
pub mod order;

pub use error::Error;

use crate::model::TreeModel;

verus! {

/// A user-supplied combining function for `merge`: it maps a key, the value
/// currently stored for it (or `None` when absent), and an incoming operand
/// to the new value, or to `None` to delete the key. The operator must be
/// deterministic and side-effect-free from the store's point of view: a
/// backend is free to invoke it during its own compaction or replay, not
/// only at call time.
pub trait MergeOperator: Sized {
    /// The function this operator computes.
    spec fn spec_merge(
        &self,
        key: Seq<u8>,
        existing: Option<Seq<u8>>,
        operand: Seq<u8>,
    ) -> Option<Seq<u8>>;

    /// Combines the existing value (or `None`) with `operand` for `key`.
    fn merge_with(&self, key: &[u8], existing: Option<&[u8]>, operand: &[u8]) -> (r: Option<
        Vec<u8>,
    >)
        ensures
            model::opt_bytes_view(r) == self.spec_merge(
                key@,
                model::opt_slice_view(existing),
                operand@,
            ),
    ;
}

/// The registered operator of model `t` computes exactly what `op` computes.
pub open spec fn operator_matches<M: MergeOperator>(t: TreeModel, op: M) -> bool {
    &&& t.operator is Some
    &&& forall|k: Seq<u8>, e: Option<Seq<u8>>, o: Seq<u8>|
        #[trigger] (t.operator->Some_0)(k, e, o) == op.spec_merge(k, e, o)
}

/// One opened tree: an ordered mapping from byte keys to byte values with at
/// most one registered merge operator. Mutating operations either succeed,
/// leaving the state the contract describes, or fail with a backend error,
/// leaving the state as it was; a backend that declares itself `infallible`
/// owes success on every operation.
pub trait Tree: Sized {
    /// The operator type this tree accepts.
    type Op: MergeOperator;

    /// The snapshot iterator type that `iter` hands out.
    type Iter;

    /// The tree's contents and registered operator.
    spec fn model(&self) -> TreeModel;

    /// The implementation's internal invariant.
    spec fn wf(&self) -> bool;

    /// Whether this backend owes success on every operation. The in-memory
    /// reference backend does; a durable binding may report engine failures.
    spec fn infallible(&self) -> bool;

    /// What the implementation guarantees of a snapshot iterator: it yields
    /// exactly the pairs present when `iter` was called, in ascending key
    /// order, unaffected by later mutation of the tree.
    spec fn iter_snapshot(&self, it: Self::Iter) -> bool;

    /// Unconditional overwrite: on success `key` maps to `value`, whatever
    /// was stored before.
    fn insert(&mut self, key: &[u8], value: &[u8]) -> (r: Result<(), Error>)
        requires
            old(self).wf(),
        ensures
            final(self).wf(),
            final(self).infallible() == old(self).infallible(),
            old(self).infallible() ==> r is Ok,
            r is Ok ==> final(self).model() == old(self).model().with_insert(key@, value@),
            r is Err ==> final(self).model() == old(self).model(),
    ;

    /// Registers `op`, replacing any previously registered operator; the
    /// stored contents are untouched, only future merges use `op`.
    fn set_merge_operator(&mut self, op: Self::Op)
        requires
            old(self).wf(),
        ensures
            final(self).wf(),
            final(self).infallible() == old(self).infallible(),
            final(self).model().contents == old(self).model().contents,
            operator_matches(final(self).model(), op),
    ;

    /// Read-modify-write through the registered operator; with none
    /// registered it degrades to a plain insert of the operand.
    fn merge(&mut self, key: &[u8], operand: &[u8]) -> (r: Result<(), Error>)
        requires
            old(self).wf(),
        ensures
            final(self).wf(),
            final(self).infallible() == old(self).infallible(),
            old(self).infallible() ==> r is Ok,
            r is Ok ==> final(self).model() == old(self).model().merged(key@, operand@),
            r is Err ==> final(self).model() == old(self).model(),
    ;

    /// Point lookup: the stored value, or `None` when the key is absent; a
    /// backend failure is reported as an error, never as absence.
    fn get(&self, key: &[u8]) -> (r: Result<Option<Vec<u8>>, Error>)
        requires
            self.wf(),
        ensures
            self.infallible() ==> r is Ok,
            r matches Ok(v) ==> model::opt_bytes_view(v) == self.model().lookup(key@),
    ;

    /// Hands out a snapshot iterator over the current pairs in ascending key
    /// order.
    fn iter(&self) -> (it: Self::Iter)
        requires
            self.wf(),
        ensures
            self.iter_snapshot(it),
    ;

    /// Forces buffered writes to durable media where the backend has any;
    /// otherwise a no-op that still succeeds.
    fn flush(&self) -> (r: Result<(), Error>)
        requires
            self.wf(),
        ensures
            self.infallible() ==> r is Ok,
    ;

    /// Removes every key; the registered operator stays.
    fn clear(&mut self) -> (r: Result<(), Error>)
        requires
            old(self).wf(),
        ensures
            final(self).wf(),
            final(self).infallible() == old(self).infallible(),
            old(self).infallible() ==> r is Ok,
            r is Ok ==> final(self).model() == old(self).model().with_cleared(),
            r is Err ==> final(self).model() == old(self).model(),
    ;
}

/// A store: a registry of named trees. Opening the same name twice reaches
/// the same underlying tree, so a write through one opened handle is visible
/// through the next.
pub trait Toboggan: Sized {
    /// The tree type this store hands out.
    type Tree: Tree;

    /// The trees by name, each as its model.
    spec fn store_model(&self) -> Map<Seq<u8>, TreeModel>;

    /// The implementation's internal invariant.
    spec fn store_wf(&self) -> bool;

    /// Whether this backend owes success on every operation.
    spec fn store_infallible(&self) -> bool;

    /// Borrows the tree stored under `name`, creating an empty one on first
    /// use. Name equality is exact byte equality. The handle aliases the
    /// stored tree: whatever state the caller leaves it in is the state the
    /// store keeps for `name`.
    fn open_tree(&mut self, name: &[u8]) -> (r: Result<&mut Self::Tree, Error>)
        requires
            old(self).store_wf(),
        ensures
            old(self).store_infallible() ==> r is Ok,
            r is Ok ==> {
                &&& (*r->Ok_0).wf()
                &&& (*r->Ok_0).model() == model::opened_model(old(self).store_model(), name@)
                &&& (old(self).store_infallible() ==> (*r->Ok_0).infallible())
                &&& ((*final(r->Ok_0)).wf() ==> final(self).store_wf())
                &&& final(self).store_infallible() == old(self).store_infallible()
                &&& final(self).store_model() == old(self).store_model().insert(
                    name@,
                    (*final(r->Ok_0)).model(),
                )
            },
            r is Err ==> {
                &&& final(self).store_wf()
                &&& final(self).store_infallible() == old(self).store_infallible()
                &&& final(self).store_model() == old(self).store_model()
            },
    ;
}

} // verus!
