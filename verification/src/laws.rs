//! The contract's laws, each proved over the models that the store and tree
//! contracts speak of.
use vstd::prelude::*;
use crate::model::TreeModel;
use crate::model::has_key;
use crate::model::keys_sorted;
use crate::model::kv_map;
use crate::model::lemma_kv_map_index;
use crate::model::lemma_kv_remove_at;
use crate::model::opened_model;
use crate::operator_matches;
use crate::ops::ConcatOperator;
use crate::order::lemma_lex_trichotomy;
use crate::order::lex_lt;

verus! {

/// Open-tree aliasing: handles from repeated opens of one name reach the
/// same underlying tree. A store that filed state `t` under name `n` —
/// which is what `open_tree`'s contract says the store keeps once a handle
/// for `n` is released in state `t` — hands exactly `t` to the next
/// `open_tree(n)`, so a write through the first handle is visible through
/// the second.
pub proof fn lemma_open_tree_aliasing(m: Map<Seq<u8>, TreeModel>, n: Seq<u8>, t: TreeModel)
    ensures
        opened_model(m.insert(n, t), n) == t,
{
}

/// Insert-overwrite: two inserts under one key leave the second value.
pub proof fn lemma_insert_overwrite(t: TreeModel, k: Seq<u8>, v1: Seq<u8>, v2: Seq<u8>)
    ensures
        t.with_insert(k, v1).with_insert(k, v2).lookup(k) == Some(v2),
{
}

/// Merge with the concatenating operator registered: merging appends the
/// operand to the stored value, and starts from the operand alone when the
/// key is absent.
pub proof fn lemma_merge_concat(t: TreeModel, op: ConcatOperator, k: Seq<u8>, o: Seq<u8>)
    requires
        operator_matches(t, op),
    ensures
        t.contents.contains_key(k) ==> t.merged(k, o).lookup(k) == Some(t.contents[k] + o),
        !t.contents.contains_key(k) ==> t.merged(k, o).lookup(k) == Some(o),
{
}

/// Merge without an operator degrades to insert: on a tree with no operator
/// registered, merging stores the operand unconditionally.
pub proof fn lemma_merge_without_operator(t: TreeModel, k: Seq<u8>, o: Seq<u8>)
    requires
        t.operator is None,
    ensures
        t.merged(k, o) == t.with_insert(k, o),
        t.merged(k, o).lookup(k) == Some(o),
{
}

/// Merge-to-delete: when the registered operator answers `None`, the key is
/// gone — a lookup finds nothing and the contents no longer carry it.
pub proof fn lemma_merge_to_delete(t: TreeModel, k: Seq<u8>, o: Seq<u8>)
    requires
        t.operator matches Some(f) && f(k, t.lookup(k), o) is None,
    ensures
        t.merged(k, o).lookup(k) == None::<Seq<u8>>,
        !t.merged(k, o).contents.contains_key(k),
{
}

/// Clear empties the tree: after a clear, every lookup finds nothing,
/// whatever was inserted before; only the operator registration survives.
pub proof fn lemma_clear_empties(t: TreeModel)
    ensures
        t.with_cleared().contents == Map::<Seq<u8>, Seq<u8>>::empty(),
        forall|k: Seq<u8>| t.with_cleared().lookup(k) == None::<Seq<u8>>,
        t.with_cleared().operator == t.operator,
{
}

/// Iteration order: a snapshot is canonical. Two entry sequences in
/// ascending key order that denote the same contents are the same sequence,
/// pair for pair — so what `iter` yields depends only on the contents,
/// never on the order the keys were inserted in.
pub proof fn lemma_snapshot_canonical(s1: Seq<(Seq<u8>, Seq<u8>)>, s2: Seq<(Seq<u8>, Seq<u8>)>)
    requires
        keys_sorted(s1),
        keys_sorted(s2),
        kv_map(s1) == kv_map(s2),
    ensures
        s1 == s2,
    decreases s1.len(),
{
    if s1.len() == 0 {
        if s2.len() > 0 {
            assert(has_key(s2, s2[0].0));
            assert(kv_map(s1).contains_key(s2[0].0));
        }
        assert(s1 =~= s2);
    } else if s2.len() == 0 {
        assert(has_key(s1, s1[0].0));
        assert(kv_map(s2).contains_key(s1[0].0));
    } else {
        lemma_kv_map_index(s1, 0);
        lemma_kv_map_index(s2, 0);
        assert(kv_map(s2).contains_key(s1[0].0));
        assert(has_key(s2, s1[0].0));
        let j: int = choose|x: int| 0 <= x < s2.len() && s2[x].0 == s1[0].0;
        if j > 0 {
            assert(lex_lt(s2[0].0, s1[0].0));
            assert(kv_map(s1).contains_key(s2[0].0));
            assert(has_key(s1, s2[0].0));
            let i: int = choose|x: int| 0 <= x < s1.len() && s1[x].0 == s2[0].0;
            if i > 0 {
                assert(lex_lt(s1[0].0, s2[0].0));
                lemma_lex_trichotomy(s1[0].0, s2[0].0);
            } else {
                lemma_lex_trichotomy(s2[0].0, s1[0].0);
            }
        }
        assert(s2[0].0 == s1[0].0);
        assert(s1[0].1 == kv_map(s1)[s1[0].0]);
        assert(s2[0].1 == kv_map(s2)[s1[0].0]);
        let t1 = s1.remove(0);
        let t2 = s2.remove(0);
        lemma_kv_remove_at(s1, 0);
        lemma_kv_remove_at(s2, 0);
        assert(kv_map(t1) == kv_map(t2));
        lemma_snapshot_canonical(t1, t2);
        assert forall|x: int| 0 <= x < s1.len() implies s1[x] == s2[x] by {
            if x > 0 {
                assert(s1[x] == t1[x - 1]);
                assert(s2[x] == t2[x - 1]);
            }
        }
        assert(s1 =~= s2);
    }
}

/// An iteration snapshot of an empty tree yields nothing: the only entry
/// sequence denoting the empty map is the empty sequence, so the first
/// `next` on such a snapshot answers `None`.
pub proof fn lemma_empty_snapshot(s: Seq<(Seq<u8>, Seq<u8>)>)
    requires
        kv_map(s) == Map::<Seq<u8>, Seq<u8>>::empty(),
    ensures
        s.len() == 0,
{
    if s.len() > 0 {
        assert(has_key(s, s[0].0));
        assert(kv_map(s).contains_key(s[0].0));
    }
}

} // verus!
