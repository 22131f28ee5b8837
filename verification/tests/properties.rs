//! Concrete checks of the contract's stated properties against the
//! in-memory backend.
use toboggan_kv::Error;
use toboggan_kv::Toboggan;
use toboggan_kv::Tree;
use toboggan_kv::adapter::BTreeAdapter;
use toboggan_kv::ops::ConcatOperator;
use toboggan_kv::ops::DeleteOperator;

#[test]
fn open_tree_aliasing() {
    let mut store: BTreeAdapter<ConcatOperator> = BTreeAdapter::new();
    {
        let first = store.open_tree(b"beasts").unwrap();
        first.insert(b"meow", b"cat").unwrap();
    }
    let second = store.open_tree(b"beasts").unwrap();
    assert_eq!(second.get(b"meow").unwrap(), Some(b"cat".to_vec()));
}

#[test]
fn insert_overwrites() {
    let mut store: BTreeAdapter<ConcatOperator> = BTreeAdapter::new();
    let tree = store.open_tree(b"t").unwrap();
    tree.insert(b"k", b"v1").unwrap();
    tree.insert(b"k", b"v2").unwrap();
    assert_eq!(tree.get(b"k").unwrap(), Some(b"v2".to_vec()));
}

#[test]
fn merge_concatenates() {
    let mut store: BTreeAdapter<ConcatOperator> = BTreeAdapter::new();
    let tree = store.open_tree(b"t").unwrap();
    tree.set_merge_operator(ConcatOperator);
    tree.insert(b"woof", b"dog").unwrap();
    tree.merge(b"woof", b"pup").unwrap();
    assert_eq!(tree.get(b"woof").unwrap(), Some(b"dogpup".to_vec()));
    // On an absent key the concatenation starts from the operand alone.
    tree.merge(b"fresh", b"pup").unwrap();
    assert_eq!(tree.get(b"fresh").unwrap(), Some(b"pup".to_vec()));
}

#[test]
fn merge_without_operator_degrades_to_insert() {
    let mut store: BTreeAdapter<ConcatOperator> = BTreeAdapter::new();
    let tree = store.open_tree(b"t").unwrap();
    tree.merge(b"k", b"v").unwrap();
    assert_eq!(tree.get(b"k").unwrap(), Some(b"v".to_vec()));
}

#[test]
fn merge_to_delete() {
    let mut store: BTreeAdapter<DeleteOperator> = BTreeAdapter::new();
    let tree = store.open_tree(b"t").unwrap();
    tree.insert(b"k", b"v").unwrap();
    tree.set_merge_operator(DeleteOperator);
    tree.merge(b"k", b"anything").unwrap();
    assert_eq!(tree.get(b"k").unwrap(), None);
    let mut iter = tree.iter();
    assert!(iter.next().is_none());
}

#[test]
fn clear_empties_the_tree() {
    let mut store: BTreeAdapter<ConcatOperator> = BTreeAdapter::new();
    let tree = store.open_tree(b"t").unwrap();
    tree.insert(b"a", b"1").unwrap();
    tree.insert(b"b", b"2").unwrap();
    tree.insert(b"c", b"3").unwrap();
    tree.clear().unwrap();
    assert!(tree.iter().next().is_none());
    assert_eq!(tree.get(b"a").unwrap(), None);
}

#[test]
fn iteration_is_in_ascending_key_order() {
    let mut store: BTreeAdapter<ConcatOperator> = BTreeAdapter::new();
    let tree = store.open_tree(b"t").unwrap();
    // Inserted out of byte order on purpose.
    tree.insert(b"woof", b"dog").unwrap();
    tree.insert(b"meow", b"cat").unwrap();
    let mut iter = tree.iter();
    let first = iter.next().unwrap().unwrap();
    assert_eq!((first.0.as_slice(), first.1.as_slice()), (&b"meow"[..], &b"cat"[..]));
    let second = iter.next().unwrap().unwrap();
    assert_eq!((second.0.as_slice(), second.1.as_slice()), (&b"woof"[..], &b"dog"[..]));
    assert!(iter.next().is_none());
}

#[test]
fn empty_keys_and_values_are_allowed() {
    let mut store: BTreeAdapter<ConcatOperator> = BTreeAdapter::new();
    let tree = store.open_tree(b"").unwrap();
    tree.insert(b"", b"").unwrap();
    assert_eq!(tree.get(b"").unwrap(), Some(Vec::new()));
    tree.insert(b"", b"x").unwrap();
    assert_eq!(tree.get(b"").unwrap(), Some(b"x".to_vec()));
}

#[test]
fn flush_succeeds_without_durability() {
    let mut store: BTreeAdapter<ConcatOperator> = BTreeAdapter::new();
    let tree = store.open_tree(b"t").unwrap();
    tree.insert(b"k", b"v").unwrap();
    assert!(tree.flush().is_ok());
    assert_eq!(tree.get(b"k").unwrap(), Some(b"v".to_vec()));
}

#[test]
fn default_store_starts_empty() {
    let mut store: BTreeAdapter<ConcatOperator> = Default::default();
    let tree = store.open_tree(b"t").unwrap();
    assert!(tree.iter().next().is_none());
    assert_eq!(tree.get(b"k").unwrap(), None);
}

#[test]
fn backend_error_carries_its_message() {
    let e = Error::Backend(String::from("engine failed"));
    assert_eq!(e.message(), "engine failed");
}
