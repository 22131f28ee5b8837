//! The reference in-memory backend: a store of named trees, each tree a
//! vector of key/value pairs kept sorted by unsigned lexicographic byte
//! order of the keys. It implements the whole store/tree contract and is
//! the conformance fixture for the abstraction's semantics.
use vstd::prelude::*;
use crate::error::Error;
use crate::model::TreeModel;
use crate::model::has_key;
use crate::model::keys_sorted;
use crate::model::kv_map;
use crate::model::lemma_kv_insert_at;
use crate::model::lemma_kv_map_index;
use crate::model::lemma_kv_remove_at;
use crate::model::lemma_kv_update_value;
use crate::order::bytes_eq;
use crate::order::lemma_lex_transitive;
use crate::order::lemma_lex_trichotomy;
use crate::order::lex_lt;
use crate::order::lex_lt_bytes;
use crate::MergeOperator;
use crate::Toboggan;
use crate::Tree;

verus! {

/// Copies a byte slice into a fresh owned vector.
fn copy_bytes(s: &[u8]) -> (r: Vec<u8>)
    ensures
        r@ == s@,
{
    let mut r: Vec<u8> = Vec::new();
    let mut i: usize = 0;
    while i < s.len()
        invariant
            i <= s.len(),
            r@ == s@.subrange(0, i as int),
        decreases s.len() - i,
    {
        r.push(s[i]);
        proof {
            assert(r@ =~= s@.subrange(0, i + 1));
        }
        i = i + 1;
    }
    proof {
        assert(r@ =~= s@);
    }
    r
}

/// The views of a sequence of stored pairs, in storage order.
pub open spec fn pair_views(s: Seq<(Vec<u8>, Vec<u8>)>) -> Seq<(Seq<u8>, Seq<u8>)> {
    s.map_values(|p: (Vec<u8>, Vec<u8>)| (p.0@, p.1@))
}

/// At a scan position `p` that stopped at the first key not below `k`, and
/// whose entry (if any) differs from `k`, the key is absent and `p` is where
/// it belongs: everything before is below `k`, everything from `p` on is
/// above it.
proof fn lemma_scan_position(s: Seq<(Seq<u8>, Seq<u8>)>, p: int, k: Seq<u8>)
    requires
        keys_sorted(s),
        0 <= p <= s.len(),
        forall|x: int| 0 <= x < p ==> lex_lt(#[trigger] s[x].0, k),
        p < s.len() ==> !lex_lt(s[p].0, k) && s[p].0 != k,
    ensures
        !has_key(s, k),
        forall|x: int| p <= x < s.len() ==> lex_lt(k, #[trigger] s[x].0),
{
    assert forall|x: int| p <= x < s.len() implies lex_lt(k, #[trigger] s[x].0) by {
        lemma_lex_trichotomy(s[p].0, k);
        if x > p {
            lemma_lex_transitive(k, s[p].0, s[x].0);
        }
    }
    assert forall|x: int| 0 <= x < s.len() implies s[x].0 != k by {
        if x < p {
            lemma_lex_trichotomy(s[x].0, k);
        } else {
            lemma_lex_trichotomy(k, s[x].0);
        }
    }
}

/// The reference backend's tree: pairs sorted by key, and at most one
/// registered merge operator.
pub struct MemoryStoreTree<M: MergeOperator> {
    entries: Vec<(Vec<u8>, Vec<u8>)>,
    merge_operator: Option<M>,
}

impl<M: MergeOperator> MemoryStoreTree<M> {
    /// The views of the stored pairs, in storage order.
    pub closed spec fn entry_views(&self) -> Seq<(Seq<u8>, Seq<u8>)> {
        pair_views(self.entries@)
    }

    /// A fresh empty tree with no registered operator.
    pub fn new() -> (r: Self)
        ensures
            r.wf(),
            r.infallible(),
            r.model() == TreeModel::empty(),
    {
        let r = MemoryStoreTree { entries: Vec::new(), merge_operator: None };
        proof {
            assert(r.entry_views() =~= Seq::<(Seq<u8>, Seq<u8>)>::empty());
            assert(kv_map(r.entry_views()) =~= Map::<Seq<u8>, Seq<u8>>::empty());
            assert(r.model() =~= TreeModel::empty());
        }
        r
    }

    /// The position of the first entry whose key is not below `key`: the
    /// slot where `key` lives if present, or belongs if absent.
    fn find_pos(&self, key: &[u8]) -> (r: usize)
        ensures
            r <= self.entry_views().len(),
            forall|x: int| 0 <= x < r ==> lex_lt(#[trigger] self.entry_views()[x].0, key@),
            r < self.entry_views().len() ==> !lex_lt(self.entry_views()[r as int].0, key@),
    {
        let mut i: usize = 0;
        while i < self.entries.len()
            invariant
                i <= self.entries.len(),
                forall|x: int| 0 <= x < i ==> lex_lt(#[trigger] self.entry_views()[x].0, key@),
            decreases self.entries.len() - i,
        {
            proof {
                assert(self.entry_views()[i as int] == (
                    self.entries@[i as int].0@,
                    self.entries@[i as int].1@,
                ));
            }
            if !lex_lt_bytes(self.entries[i].0.as_slice(), key) {
                return i;
            }
            i = i + 1;
        }
        i
    }
}

impl<M: MergeOperator> Default for MemoryStoreTree<M> {
    /// The same fresh empty tree that `new` returns.
    fn default() -> (r: Self)
        ensures
            r.wf(),
            r.infallible(),
            r.model() == TreeModel::empty(),
    {
        Self::new()
    }
}

impl<M: MergeOperator> Tree for MemoryStoreTree<M> {
    type Op = M;

    type Iter = StupidIterator;

    closed spec fn model(&self) -> TreeModel {
        TreeModel {
            contents: kv_map(self.entry_views()),
            operator: match self.merge_operator {
                Some(m) => Some(
                    |k: Seq<u8>, e: Option<Seq<u8>>, o: Seq<u8>| m.spec_merge(k, e, o),
                ),
                None => None,
            },
        }
    }

    closed spec fn wf(&self) -> bool {
        keys_sorted(self.entry_views())
    }

    closed spec fn infallible(&self) -> bool {
        true
    }

    open spec fn iter_snapshot(&self, it: StupidIterator) -> bool {
        &&& it.index() == 0
        &&& keys_sorted(it.pairs())
        &&& kv_map(it.pairs()) == self.model().contents
    }

    fn insert(&mut self, key: &[u8], value: &[u8]) -> (r: Result<(), Error>) {
        let ghost s0 = self.entry_views();
        let p = self.find_pos(key);
        proof {
            if p < self.entries.len() {
                assert(s0[p as int] == (self.entries@[p as int].0@, self.entries@[p as int].1@));
            }
        }
        if p < self.entries.len() && bytes_eq(self.entries[p].0.as_slice(), key) {
            let vnew = copy_bytes(value);
            let e = &mut self.entries[p];
            e.1 = vnew;
            proof {
                assert(self.entry_views() =~= s0.update(p as int, (s0[p as int].0, value@)));
                lemma_kv_update_value(s0, p as int, value@);
                assert(self.model() =~= old(self).model().with_insert(key@, value@));
            }
        } else {
            proof {
                lemma_scan_position(s0, p as int, key@);
            }
            let kcopy = copy_bytes(key);
            let vnew = copy_bytes(value);
            self.entries.insert(p, (kcopy, vnew));
            proof {
                assert(self.entry_views() =~= s0.insert(p as int, (key@, value@)));
                lemma_kv_insert_at(s0, p as int, key@, value@);
                assert(self.model() =~= old(self).model().with_insert(key@, value@));
            }
        }
        Ok(())
    }

    fn set_merge_operator(&mut self, op: M) {
        self.merge_operator = Some(op);
        proof {
            assert(crate::operator_matches(self.model(), op));
        }
    }

    fn merge(&mut self, key: &[u8], operand: &[u8]) -> (r: Result<(), Error>) {
        if self.merge_operator.is_none() {
            let r = self.insert(key, operand);
            proof {
                assert(self.model() =~= old(self).model().merged(key@, operand@));
            }
            return r;
        }
        let ghost s0 = self.entry_views();
        let p = self.find_pos(key);
        proof {
            if p < self.entries.len() {
                assert(s0[p as int] == (self.entries@[p as int].0@, self.entries@[p as int].1@));
            }
        }
        let found = p < self.entries.len() && bytes_eq(self.entries[p].0.as_slice(), key);
        proof {
            if found {
                lemma_kv_map_index(s0, p as int);
            } else {
                lemma_scan_position(s0, p as int, key@);
            }
        }
        let merged_value = if found {
            let op = self.merge_operator.as_ref().unwrap();
            op.merge_with(key, Some(self.entries[p].1.as_slice()), operand)
        } else {
            let op = self.merge_operator.as_ref().unwrap();
            op.merge_with(key, None, operand)
        };
        match merged_value {
            Some(v) => {
                if found {
                    let e = &mut self.entries[p];
                    e.1 = v;
                    proof {
                        assert(self.entry_views() =~= s0.update(
                            p as int,
                            (s0[p as int].0, self.entries@[p as int].1@),
                        ));
                        lemma_kv_update_value(s0, p as int, self.entries@[p as int].1@);
                    }
                } else {
                    let kcopy = copy_bytes(key);
                    self.entries.insert(p, (kcopy, v));
                    proof {
                        assert(self.entry_views() =~= s0.insert(
                            p as int,
                            (key@, self.entries@[p as int].1@),
                        ));
                        lemma_kv_insert_at(s0, p as int, key@, self.entries@[p as int].1@);
                    }
                }
            },
            None => {
                if found {
                    self.entries.remove(p);
                    proof {
                        assert(self.entry_views() =~= s0.remove(p as int));
                        lemma_kv_remove_at(s0, p as int);
                    }
                } else {
                    proof {
                        assert(kv_map(s0).remove(key@) =~= kv_map(s0));
                    }
                }
            },
        }
        proof {
            assert(self.model() =~= old(self).model().merged(key@, operand@));
        }
        Ok(())
    }

    fn get(&self, key: &[u8]) -> (r: Result<Option<Vec<u8>>, Error>) {
        let p = self.find_pos(key);
        proof {
            if p < self.entries.len() {
                assert(self.entry_views()[p as int] == (
                    self.entries@[p as int].0@,
                    self.entries@[p as int].1@,
                ));
            }
        }
        if p < self.entries.len() && bytes_eq(self.entries[p].0.as_slice(), key) {
            proof {
                lemma_kv_map_index(self.entry_views(), p as int);
            }
            Ok(Some(copy_bytes(self.entries[p].1.as_slice())))
        } else {
            proof {
                lemma_scan_position(self.entry_views(), p as int, key@);
            }
            Ok(None)
        }
    }

    fn iter(&self) -> (it: StupidIterator) {
        let mut list: Vec<(Vec<u8>, Vec<u8>)> = Vec::new();
        let mut i: usize = 0;
        while i < self.entries.len()
            invariant
                i <= self.entries.len(),
                pair_views(list@) == self.entry_views().subrange(0, i as int),
            decreases self.entries.len() - i,
        {
            proof {
                assert(self.entry_views()[i as int] == (
                    self.entries@[i as int].0@,
                    self.entries@[i as int].1@,
                ));
            }
            let k = copy_bytes(self.entries[i].0.as_slice());
            let v = copy_bytes(self.entries[i].1.as_slice());
            let ghost l0 = list@;
            list.push((k, v));
            proof {
                assert(pair_views(l0).len() == l0.len());
                assert(l0.len() == i);
                assert forall|x: int| 0 <= x < list@.len() implies pair_views(list@)[x]
                    == self.entry_views().subrange(0, i + 1)[x] by {
                    assert(pair_views(list@)[x] == (list@[x].0@, list@[x].1@));
                    if x < l0.len() {
                        assert(list@[x] == l0[x]);
                        assert(pair_views(l0)[x] == (l0[x].0@, l0[x].1@));
                    }
                    assert(self.entry_views()[x] == (self.entries@[x].0@, self.entries@[x].1@));
                }
                assert(pair_views(list@) =~= self.entry_views().subrange(0, i + 1));
            }
            i = i + 1;
        }
        let it = StupidIterator { offset: 0, list };
        proof {
            assert(it.pairs() =~= self.entry_views());
        }
        it
    }

    fn flush(&self) -> (r: Result<(), Error>) {
        Ok(())
    }

    fn clear(&mut self) -> (r: Result<(), Error>) {
        self.entries = Vec::new();
        proof {
            assert(self.entry_views() =~= Seq::<(Seq<u8>, Seq<u8>)>::empty());
            assert(kv_map(self.entry_views()) =~= Map::<Seq<u8>, Seq<u8>>::empty());
            assert(self.model() =~= old(self).model().with_cleared());
        }
        Ok(())
    }
}

/// A snapshot iterator: the pairs a tree held when `iter` was called, handed
/// out in storage order, finite and not restartable. Later mutation of the
/// tree does not reach it.
pub struct StupidIterator {
    offset: usize,
    list: Vec<(Vec<u8>, Vec<u8>)>,
}

impl StupidIterator {
    /// The views of all snapshot pairs, in yield order.
    pub closed spec fn pairs(&self) -> Seq<(Seq<u8>, Seq<u8>)> {
        pair_views(self.list@)
    }

    /// How many pairs have been yielded so far.
    pub closed spec fn index(&self) -> int {
        self.offset as int
    }

    /// Yields the next snapshot pair, or `None` once the snapshot is
    /// exhausted. The in-memory snapshot never fails, so an `Err` item is
    /// never yielded.
    pub fn next(&mut self) -> (r: Option<Result<(Vec<u8>, Vec<u8>), Error>>)
        ensures
            final(self).pairs() == old(self).pairs(),
            old(self).index() < old(self).pairs().len() ==> {
                &&& final(self).index() == old(self).index() + 1
                &&& r matches Some(item) && item matches Ok(p) && (p.0@, p.1@) == old(
                    self,
                ).pairs()[old(self).index()]
            },
            old(self).index() >= old(self).pairs().len() ==> r is None && final(self).index()
                == old(self).index(),
    {
        if self.offset < self.list.len() {
            proof {
                assert(self.pairs()[self.offset as int] == (
                    self.list@[self.offset as int].0@,
                    self.list@[self.offset as int].1@,
                ));
            }
            let k = copy_bytes(self.list[self.offset].0.as_slice());
            let v = copy_bytes(self.list[self.offset].1.as_slice());
            self.offset = self.offset + 1;
            Some(Ok((k, v)))
        } else {
            None
        }
    }
}

/// Whether some tree in the store is filed under name `n`.
spec fn store_has<M: MergeOperator>(s: Seq<(Vec<u8>, MemoryStoreTree<M>)>, n: Seq<u8>) -> bool {
    exists|i: int| 0 <= i < s.len() && s[i].0@ == n
}

/// The index of the tree filed under `n`; unique while names are unique.
spec fn store_at<M: MergeOperator>(s: Seq<(Vec<u8>, MemoryStoreTree<M>)>, n: Seq<u8>) -> int {
    choose|i: int| 0 <= i < s.len() && s[i].0@ == n
}

/// The trees-by-name map a store's entry sequence denotes.
spec fn store_map<M: MergeOperator>(s: Seq<(Vec<u8>, MemoryStoreTree<M>)>) -> Map<
    Seq<u8>,
    TreeModel,
> {
    Map::new(|n: Seq<u8>| store_has(s, n), |n: Seq<u8>| s[store_at(s, n)].1.model())
}

/// No two trees are filed under the same name.
spec fn store_names_unique<M: MergeOperator>(s: Seq<(Vec<u8>, MemoryStoreTree<M>)>) -> bool {
    forall|i: int, j: int| 0 <= i < j < s.len() ==> s[i].0@ != s[j].0@
}

/// Every stored tree satisfies its own invariant.
spec fn store_trees_wf<M: MergeOperator>(s: Seq<(Vec<u8>, MemoryStoreTree<M>)>) -> bool {
    forall|i: int| 0 <= i < s.len() ==> (#[trigger] s[i].1).wf()
}

/// Each store entry is found by the map it denotes.
proof fn lemma_store_map_index<M: MergeOperator>(s: Seq<(Vec<u8>, MemoryStoreTree<M>)>, i: int)
    requires
        store_names_unique(s),
        0 <= i < s.len(),
    ensures
        store_map(s).contains_key(s[i].0@),
        store_map(s)[s[i].0@] == s[i].1.model(),
{
    assert(store_has(s, s[i].0@));
    let j: int = store_at(s, s[i].0@);
    assert(0 <= j < s.len() && s[j].0@ == s[i].0@);
}

/// Replacing the tree at position `i`, whatever it becomes, denotes a map
/// `insert` under that entry's name.
proof fn lemma_store_update<M: MergeOperator>(s: Seq<(Vec<u8>, MemoryStoreTree<M>)>, i: int)
    requires
        store_names_unique(s),
        0 <= i < s.len(),
    ensures
        forall|t: MemoryStoreTree<M>|
            store_names_unique(#[trigger] s.update(i, (s[i].0, t))),
        forall|t: MemoryStoreTree<M>|
            store_trees_wf(s) && t.wf() ==> store_trees_wf(#[trigger] s.update(i, (s[i].0, t))),
        forall|t: MemoryStoreTree<M>|
            store_map(#[trigger] s.update(i, (s[i].0, t))) == store_map(s).insert(
                s[i].0@,
                t.model(),
            ),
{
    assert forall|t: MemoryStoreTree<M>|
        store_map(#[trigger] s.update(i, (s[i].0, t))) == store_map(s).insert(
            s[i].0@,
            t.model(),
        ) by {
        let s2 = s.update(i, (s[i].0, t));
        assert(forall|x: int| 0 <= x < s.len() ==> s2[x].0@ == s[x].0@);
        assert forall|n: Seq<u8>| #[trigger] store_has(s2, n) == store_has(s, n) by {
            if store_has(s2, n) {
                let x: int = choose|x: int| 0 <= x < s2.len() && s2[x].0@ == n;
                assert(s[x].0@ == n);
            }
            if store_has(s, n) {
                let x: int = choose|x: int| 0 <= x < s.len() && s[x].0@ == n;
                assert(s2[x].0@ == n);
            }
        }
        assert forall|n: Seq<u8>| store_map(s2).contains_key(n) implies store_map(s2)[n]
            == store_map(s).insert(s[i].0@, t.model())[n] by {
            if n == s[i].0@ {
                lemma_store_map_index(s2, i);
            } else {
                let x: int = choose|x: int| 0 <= x < s.len() && s[x].0@ == n;
                lemma_store_map_index(s, x);
                lemma_store_map_index(s2, x);
            }
        }
        assert(store_map(s2) =~= store_map(s).insert(s[i].0@, t.model()));
    }
}

/// Filing a tree under a fresh name, whatever the tree is, denotes a map
/// `insert` under that name.
proof fn lemma_store_push<M: MergeOperator>(s: Seq<(Vec<u8>, MemoryStoreTree<M>)>, nm: Vec<u8>)
    requires
        store_names_unique(s),
        !store_has(s, nm@),
    ensures
        forall|t: MemoryStoreTree<M>| store_names_unique(#[trigger] s.push((nm, t))),
        forall|t: MemoryStoreTree<M>|
            store_trees_wf(s) && t.wf() ==> store_trees_wf(#[trigger] s.push((nm, t))),
        forall|t: MemoryStoreTree<M>|
            store_map(#[trigger] s.push((nm, t))) == store_map(s).insert(nm@, t.model()),
{
    assert forall|t: MemoryStoreTree<M>|
        store_names_unique(#[trigger] s.push((nm, t))) && (store_trees_wf(s) && t.wf()
            ==> store_trees_wf(s.push((nm, t)))) && store_map(s.push((nm, t))) == store_map(
            s,
        ).insert(nm@, t.model()) by {
        let s2 = s.push((nm, t));
        assert(forall|x: int| 0 <= x < s.len() ==> s2[x] == s[x]);
        assert(s2[s.len() as int] == (nm, t));
        assert forall|n: Seq<u8>| #[trigger] store_has(s2, n) == (n == nm@ || store_has(s, n)) by {
            if store_has(s2, n) {
                let x: int = choose|x: int| 0 <= x < s2.len() && s2[x].0@ == n;
                if x < s.len() {
                    assert(s[x].0@ == n);
                }
            }
            if store_has(s, n) {
                let x: int = choose|x: int| 0 <= x < s.len() && s[x].0@ == n;
                assert(s2[x].0@ == n);
            }
        }
        assert forall|n: Seq<u8>| store_map(s2).contains_key(n) implies store_map(s2)[n]
            == store_map(s).insert(nm@, t.model())[n] by {
            if n == nm@ {
                lemma_store_map_index(s2, s.len() as int);
            } else {
                let x: int = choose|x: int| 0 <= x < s.len() && s[x].0@ == n;
                lemma_store_map_index(s, x);
                lemma_store_map_index(s2, x);
            }
        }
        assert(store_map(s2) =~= store_map(s).insert(nm@, t.model()));
    }
}

/// The reference in-memory store: a registry of named trees.
pub struct BTreeAdapter<M: MergeOperator> {
    trees: Vec<(Vec<u8>, MemoryStoreTree<M>)>,
}

impl<M: MergeOperator> BTreeAdapter<M> {
    /// A fresh store with no trees.
    pub fn new() -> (r: Self)
        ensures
            r.store_wf(),
            r.store_infallible(),
            r.store_model() == Map::<Seq<u8>, TreeModel>::empty(),
    {
        let r = BTreeAdapter { trees: Vec::new() };
        proof {
            assert(r.store_model() =~= Map::<Seq<u8>, TreeModel>::empty());
        }
        r
    }

    /// The position of the tree filed under `name`, or the registry's length
    /// when no tree is.
    fn find_tree(&self, name: &[u8]) -> (r: usize)
        ensures
            r <= self.trees@.len(),
            r < self.trees@.len() ==> self.trees@[r as int].0@ == name@,
            r == self.trees@.len() ==> !store_has(self.trees@, name@),
    {
        let mut i: usize = 0;
        while i < self.trees.len()
            invariant
                i <= self.trees.len(),
                forall|x: int| 0 <= x < i ==> (#[trigger] self.trees@[x].0@) != name@,
            decreases self.trees.len() - i,
        {
            if bytes_eq(self.trees[i].0.as_slice(), name) {
                return i;
            }
            i = i + 1;
        }
        i
    }
}

impl<M: MergeOperator> Default for BTreeAdapter<M> {
    /// The same fresh empty store that `new` returns.
    fn default() -> (r: Self)
        ensures
            r.store_wf(),
            r.store_infallible(),
            r.store_model() == Map::<Seq<u8>, TreeModel>::empty(),
    {
        Self::new()
    }
}

impl<M: MergeOperator> Toboggan for BTreeAdapter<M> {
    type Tree = MemoryStoreTree<M>;

    closed spec fn store_model(&self) -> Map<Seq<u8>, TreeModel> {
        store_map(self.trees@)
    }

    closed spec fn store_wf(&self) -> bool {
        store_names_unique(self.trees@) && store_trees_wf(self.trees@)
    }

    closed spec fn store_infallible(&self) -> bool {
        true
    }

    fn open_tree(&mut self, name: &[u8]) -> (r: Result<&mut MemoryStoreTree<M>, Error>) {
        let idx = self.find_tree(name);
        if idx == self.trees.len() {
            let nm = copy_bytes(name);
            let fresh = MemoryStoreTree::new();
            proof {
                lemma_store_push(old(self).trees@, nm);
            }
            self.trees.push((nm, fresh));
            proof {
                lemma_store_update(self.trees@, idx as int);
                assert forall|t: MemoryStoreTree<M>|
                    store_map(old(self).trees@).insert(name@, TreeModel::empty()).insert(
                        name@,
                        t.model(),
                    ) == #[trigger] store_map(old(self).trees@).insert(name@, t.model()) by {
                    assert(store_map(old(self).trees@).insert(name@, TreeModel::empty()).insert(
                        name@,
                        t.model(),
                    ) =~= store_map(old(self).trees@).insert(name@, t.model()));
                }
            }
        } else {
            proof {
                lemma_store_map_index(self.trees@, idx as int);
                lemma_store_update(self.trees@, idx as int);
            }
        }
        Ok(&mut self.trees[idx].1)
    }
}

} // verus!
