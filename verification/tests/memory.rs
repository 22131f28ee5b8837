//! The conformance scenario against the in-memory backend: ordered
//! iteration, merge through the concatenating operator, overwrite, clear.
use toboggan_kv::Toboggan;
use toboggan_kv::Tree;
use toboggan_kv::adapter::BTreeAdapter;
use toboggan_kv::ops::ConcatOperator;

#[test]
fn memory() {
    let mut store: BTreeAdapter<ConcatOperator> = BTreeAdapter::new();
    let foo = store.open_tree(b"foo").unwrap();
    foo.insert(b"meow", b"cat").unwrap();
    foo.insert(b"woof", b"dog").unwrap();

    let mut iter = foo.iter();

    let item = iter.next().unwrap().unwrap();
    assert_eq!(
        (&item.0 as &[u8], &item.1 as &[u8]),
        (&b"meow"[..], &b"cat"[..])
    );

    let item = iter.next().unwrap().unwrap();
    assert_eq!(
        (&item.0 as &[u8], &item.1 as &[u8]),
        (&b"woof"[..], &b"dog"[..])
    );

    assert!(iter.next().is_none());

    // Merge
    foo.set_merge_operator(ConcatOperator);
    foo.merge(b"woof", b"pup").unwrap();
    assert_eq!(
        foo.get(b"woof").expect("result").expect("option").as_slice(),
        &b"dogpup"[..]
    );

    // Overwrite
    foo.insert(b"woof", b"dawg").unwrap();
    assert_eq!(
        foo.get(b"woof").expect("result").expect("option").as_slice(),
        &b"dawg"[..]
    );

    // Clear
    foo.clear().expect("clear succeeded");
    assert!(foo.iter().next().is_none());
}
