//! The mathematical model behind the tree operations: a tree is a map from
//! key bytes to value bytes together with the merge operator currently
//! registered, and the stored entry sequence is tied to that map here.
use vstd::prelude::*;
use crate::order::lex_lt;
use crate::order::lemma_lex_trichotomy;

verus! {

/// The model of one tree: its contents, and the registered merge operator
/// abstracted as the specification-level function it computes.
#[verifier::ext_equal]
pub struct TreeModel {
    pub contents: Map<Seq<u8>, Seq<u8>>,
    pub operator: Option<spec_fn(Seq<u8>, Option<Seq<u8>>, Seq<u8>) -> Option<Seq<u8>>>,
}

impl TreeModel {
    /// A freshly created tree: no entries, no operator.
    pub open spec fn empty() -> TreeModel {
        TreeModel { contents: Map::empty(), operator: None }
    }

    /// What a point lookup observes: the stored value, or `None` if absent.
    pub open spec fn lookup(self, key: Seq<u8>) -> Option<Seq<u8>> {
        if self.contents.contains_key(key) {
            Some(self.contents[key])
        } else {
            None
        }
    }

    /// The tree after an unconditional overwrite of `key` with `value`.
    pub open spec fn with_insert(self, key: Seq<u8>, value: Seq<u8>) -> TreeModel {
        TreeModel { contents: self.contents.insert(key, value), operator: self.operator }
    }

    /// The tree after removing every entry; the operator stays registered.
    pub open spec fn with_cleared(self) -> TreeModel {
        TreeModel { contents: Map::empty(), operator: self.operator }
    }

    /// The tree after `merge(key, operand)`: with an operator registered, the
    /// operator combines the current value (or `None`) with the operand, and
    /// `Some` overwrites while `None` deletes the key; with no operator
    /// registered, merge degrades to a plain insert of the operand.
    pub open spec fn merged(self, key: Seq<u8>, operand: Seq<u8>) -> TreeModel {
        match self.operator {
            Some(f) => match f(key, self.lookup(key), operand) {
                Some(v) => self.with_insert(key, v),
                None => TreeModel {
                    contents: self.contents.remove(key),
                    operator: self.operator,
                },
            },
            None => self.with_insert(key, operand),
        }
    }
}

/// The view of an optional owned byte string.
pub open spec fn opt_bytes_view(o: Option<Vec<u8>>) -> Option<Seq<u8>> {
    match o {
        Some(v) => Some(v@),
        None => None,
    }
}

/// The view of an optional borrowed byte string.
pub open spec fn opt_slice_view(o: Option<&[u8]>) -> Option<Seq<u8>> {
    match o {
        Some(s) => Some(s@),
        None => None,
    }
}

/// The tree that `open_tree` reaches in a store whose trees-by-name map is
/// `m`: the stored one, or a fresh empty tree when the name is new.
pub open spec fn opened_model(m: Map<Seq<u8>, TreeModel>, name: Seq<u8>) -> TreeModel {
    if m.contains_key(name) {
        m[name]
    } else {
        TreeModel::empty()
    }
}

/// Some entry of `s` carries key `k`.
pub open spec fn has_key(s: Seq<(Seq<u8>, Seq<u8>)>, k: Seq<u8>) -> bool {
    exists|i: int| 0 <= i < s.len() && s[i].0 == k
}

/// The index of the entry carrying key `k`; meaningful when `has_key` holds
/// and the keys are sorted, which makes the index unique.
pub open spec fn key_index(s: Seq<(Seq<u8>, Seq<u8>)>, k: Seq<u8>) -> int {
    choose|i: int| 0 <= i < s.len() && s[i].0 == k
}

/// The map that an entry sequence denotes.
pub open spec fn kv_map(s: Seq<(Seq<u8>, Seq<u8>)>) -> Map<Seq<u8>, Seq<u8>> {
    Map::new(|k: Seq<u8>| has_key(s, k), |k: Seq<u8>| s[key_index(s, k)].1)
}

/// Keys strictly ascending in lexicographic byte order; uniqueness follows.
pub open spec fn keys_sorted(s: Seq<(Seq<u8>, Seq<u8>)>) -> bool {
    forall|i: int, j: int| 0 <= i < j < s.len() ==> lex_lt(s[i].0, s[j].0)
}

/// In a sorted entry sequence no key occurs twice.
pub proof fn lemma_sorted_keys_unique(s: Seq<(Seq<u8>, Seq<u8>)>, i: int, j: int)
    requires
        keys_sorted(s),
        0 <= i < s.len(),
        0 <= j < s.len(),
        s[i].0 == s[j].0,
    ensures
        i == j,
{
    if i < j {
        lemma_lex_trichotomy(s[i].0, s[j].0);
    }
    if j < i {
        lemma_lex_trichotomy(s[j].0, s[i].0);
    }
}

/// Each entry of a sorted sequence is found by the map it denotes.
pub proof fn lemma_kv_map_index(s: Seq<(Seq<u8>, Seq<u8>)>, i: int)
    requires
        keys_sorted(s),
        0 <= i < s.len(),
    ensures
        kv_map(s).contains_key(s[i].0),
        kv_map(s)[s[i].0] == s[i].1,
{
    assert(has_key(s, s[i].0));
    let j: int = key_index(s, s[i].0);
    assert(0 <= j < s.len() && s[j].0 == s[i].0);
    lemma_sorted_keys_unique(s, i, j);
}

/// Overwriting the value at position `i` denotes a map `insert` of that
/// entry's key.
pub proof fn lemma_kv_update_value(s: Seq<(Seq<u8>, Seq<u8>)>, i: int, v: Seq<u8>)
    requires
        keys_sorted(s),
        0 <= i < s.len(),
    ensures
        keys_sorted(s.update(i, (s[i].0, v))),
        kv_map(s.update(i, (s[i].0, v))) == kv_map(s).insert(s[i].0, v),
{
    let s2 = s.update(i, (s[i].0, v));
    assert(forall|x: int| 0 <= x < s.len() ==> s2[x].0 == s[x].0);
    assert(keys_sorted(s2));
    assert forall|k: Seq<u8>| #[trigger] has_key(s2, k) == has_key(s, k) by {
        if has_key(s2, k) {
            let x: int = choose|x: int| 0 <= x < s2.len() && s2[x].0 == k;
            assert(s[x].0 == k);
        }
        if has_key(s, k) {
            let x: int = choose|x: int| 0 <= x < s.len() && s[x].0 == k;
            assert(s2[x].0 == k);
        }
    }
    assert forall|k: Seq<u8>| kv_map(s2).contains_key(k) implies kv_map(s2)[k] == kv_map(
        s,
    ).insert(s[i].0, v)[k] by {
        if k == s[i].0 {
            lemma_kv_map_index(s2, i);
        } else {
            let x: int = choose|x: int| 0 <= x < s.len() && s[x].0 == k;
            lemma_kv_map_index(s, x);
            lemma_kv_map_index(s2, x);
        }
    }
    assert(kv_map(s2) =~= kv_map(s).insert(s[i].0, v));
}

/// Inserting an entry at the position its key orders to denotes a map
/// `insert` of a fresh key.
pub proof fn lemma_kv_insert_at(s: Seq<(Seq<u8>, Seq<u8>)>, i: int, k: Seq<u8>, v: Seq<u8>)
    requires
        keys_sorted(s),
        0 <= i <= s.len(),
        forall|x: int| 0 <= x < i ==> lex_lt(#[trigger] s[x].0, k),
        forall|x: int| i <= x < s.len() ==> lex_lt(k, #[trigger] s[x].0),
    ensures
        keys_sorted(s.insert(i, (k, v))),
        kv_map(s.insert(i, (k, v))) == kv_map(s).insert(k, v),
{
    let s2 = s.insert(i, (k, v));
    assert(forall|x: int| 0 <= x < i ==> s2[x] == s[x]);
    assert(s2[i] == (k, v));
    assert(forall|x: int| i < x < s2.len() ==> s2[x] == s[x - 1]);
    assert forall|x: int, y: int| 0 <= x < y < s2.len() implies lex_lt(s2[x].0, s2[y].0) by {
        if x < i && y > i {
            assert(lex_lt(s[x].0, k));
            assert(lex_lt(k, s[y - 1].0));
            if x < y - 1 {
                assert(lex_lt(s[x].0, s[y - 1].0));
            } else {
                crate::order::lemma_lex_transitive(s[x].0, k, s[y - 1].0);
            }
        }
    }
    assert(keys_sorted(s2));
    assert forall|kk: Seq<u8>| #[trigger] has_key(s2, kk) == (kk == k || has_key(s, kk)) by {
        if has_key(s2, kk) {
            let x: int = choose|x: int| 0 <= x < s2.len() && s2[x].0 == kk;
            if x < i {
                assert(s[x].0 == kk);
            } else if x > i {
                assert(s[x - 1].0 == kk);
            }
        }
        if kk == k {
            assert(s2[i].0 == kk);
        }
        if has_key(s, kk) {
            let x: int = choose|x: int| 0 <= x < s.len() && s[x].0 == kk;
            if x < i {
                assert(s2[x].0 == kk);
            } else {
                assert(s2[x + 1].0 == kk);
            }
        }
    }
    assert forall|kk: Seq<u8>| kv_map(s2).contains_key(kk) implies kv_map(s2)[kk] == kv_map(
        s,
    ).insert(k, v)[kk] by {
        if kk == k {
            lemma_kv_map_index(s2, i);
        } else {
            let x: int = choose|x: int| 0 <= x < s.len() && s[x].0 == kk;
            lemma_kv_map_index(s, x);
            if x < i {
                lemma_kv_map_index(s2, x);
            } else {
                lemma_kv_map_index(s2, x + 1);
            }
        }
    }
    assert(kv_map(s2) =~= kv_map(s).insert(k, v));
}

/// Removing the entry at position `i` denotes a map `remove` of its key.
pub proof fn lemma_kv_remove_at(s: Seq<(Seq<u8>, Seq<u8>)>, i: int)
    requires
        keys_sorted(s),
        0 <= i < s.len(),
    ensures
        keys_sorted(s.remove(i)),
        kv_map(s.remove(i)) == kv_map(s).remove(s[i].0),
{
    let s2 = s.remove(i);
    assert(forall|x: int| 0 <= x < i ==> s2[x] == s[x]);
    assert(forall|x: int| i <= x < s2.len() ==> s2[x] == s[x + 1]);
    assert(keys_sorted(s2));
    assert forall|kk: Seq<u8>| #[trigger] has_key(s2, kk) == (kk != s[i].0 && has_key(s, kk)) by {
        if has_key(s2, kk) {
            let x: int = choose|x: int| 0 <= x < s2.len() && s2[x].0 == kk;
            if x < i {
                assert(s[x].0 == kk);
                if kk == s[i].0 {
                    lemma_sorted_keys_unique(s, x, i);
                }
            } else {
                assert(s[x + 1].0 == kk);
                if kk == s[i].0 {
                    lemma_sorted_keys_unique(s, x + 1, i);
                }
            }
        }
        if kk != s[i].0 && has_key(s, kk) {
            let x: int = choose|x: int| 0 <= x < s.len() && s[x].0 == kk;
            if x < i {
                assert(s2[x].0 == kk);
            } else {
                assert(x != i);
                assert(s2[x - 1].0 == kk);
            }
        }
    }
    assert forall|kk: Seq<u8>| kv_map(s2).contains_key(kk) implies kv_map(s2)[kk] == kv_map(
        s,
    ).remove(s[i].0)[kk] by {
        let x: int = choose|x: int| 0 <= x < s.len() && s[x].0 == kk;
        lemma_kv_map_index(s, x);
        if x < i {
            lemma_kv_map_index(s2, x);
        } else {
            lemma_kv_map_index(s2, x - 1);
        }
    }
    assert(kv_map(s2) =~= kv_map(s).remove(s[i].0));
}

} // verus!
