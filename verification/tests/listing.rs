use rust_buck3t::error::ApiError;
use rust_buck3t::order::key_before_or_same;
use rust_buck3t::routes::listing::{
    list_file, list_objects, sort_by_key, Entry, EntryKind, ListedObject,
};
use rust_buck3t::routes::objects::{is_valid_key, ObjectMetadata};

fn file(name: &str, size: u64, modified: u64) -> Entry {
    Entry { name: name.to_string(), kind: EntryKind::File, size, modified }
}

fn dir(name: &str) -> Entry {
    Entry { name: name.to_string(), kind: EntryKind::Dir, size: 0, modified: 0 }
}

fn obj(key: &str, size: u64) -> ListedObject {
    ListedObject { key: key.to_string(), size, modified: 0 }
}

#[test]
fn start_of_a_listing() {
    let l = list_objects(Some("a"), Some(0)).unwrap();
    assert_eq!(l.pending, vec!["a".to_string()]);
    assert!(l.found.is_empty());
    assert!(!l.recursive);

    let l = list_objects(None, Some(1)).unwrap();
    assert_eq!(l.pending, vec!["".to_string()]);
    assert!(l.recursive);

    assert!(list_objects(None, Some(7)).unwrap().recursive);
    assert!(!list_objects(None, None).unwrap().recursive);
}

#[test]
fn invalid_prefix_is_refused() {
    for p in ["", "..", "a/../b", "/a", "a//b"] {
        match list_objects(Some(p), None) {
            Err(e) => {
                assert_eq!(e, ApiError::InvalidArgument);
                assert_eq!(e.status(), 400);
            }
            Ok(_) => panic!("prefix {:?} was taken", p),
        }
    }
}

#[test]
fn visit_takes_files_and_queues_directories() {
    let mut l = list_objects(Some("a"), Some(1)).unwrap();
    let d = l.next_dir().unwrap();
    assert_eq!(d, "a");
    assert!(l.pending.is_empty());
    let entries = vec![
        file("b.txt", 1, 10),
        dir("c"),
        Entry { name: "sock".to_string(), kind: EntryKind::Other, size: 0, modified: 0 },
        file("e.txt", 2, 20),
        dir("f"),
    ];
    l.visit("a", &entries);
    assert_eq!(
        l.found,
        vec![
            ListedObject { key: "a/b.txt".to_string(), size: 1, modified: 10 },
            ListedObject { key: "a/e.txt".to_string(), size: 2, modified: 20 },
        ]
    );
    assert_eq!(l.pending, vec!["a/c".to_string(), "a/f".to_string()]);
    assert_eq!(l.next_dir(), Some("a/f".to_string()));
    assert_eq!(l.next_dir(), Some("a/c".to_string()));
    assert_eq!(l.next_dir(), None);
    assert_eq!(l.next_dir(), None);
}

#[test]
fn flat_listing_queues_nothing() {
    let mut l = list_objects(None, Some(0)).unwrap();
    let d = l.next_dir().unwrap();
    assert_eq!(d, "");
    l.visit("", &vec![dir("sub"), file("top.txt", 3, 30)]);
    assert!(l.pending.is_empty());
    assert_eq!(l.finish(), vec![ListedObject { key: "top.txt".to_string(), size: 3, modified: 30 }]);
}

#[test]
fn a_tree_walked_by_hand() {
    // a/b.txt and a/c/d.txt under the prefix a
    let mut flat = list_objects(Some("a"), Some(0)).unwrap();
    let d = flat.next_dir().unwrap();
    flat.visit(d.as_str(), &vec![dir("c"), file("b.txt", 1, 1)]);
    assert_eq!(flat.next_dir(), None);
    let keys: Vec<String> = flat.finish().into_iter().map(|o| o.key).collect();
    assert_eq!(keys, vec!["a/b.txt"]);

    let mut deep = list_objects(Some("a"), Some(1)).unwrap();
    let d = deep.next_dir().unwrap();
    deep.visit(d.as_str(), &vec![dir("c"), file("b.txt", 1, 1)]);
    let d = deep.next_dir().unwrap();
    assert_eq!(d, "a/c");
    deep.visit(d.as_str(), &vec![file("d.txt", 1, 1)]);
    assert_eq!(deep.next_dir(), None);
    let keys: Vec<String> = deep.finish().into_iter().map(|o| o.key).collect();
    assert_eq!(keys, vec!["a/b.txt", "a/c/d.txt"]);
}

#[test]
fn single_file_listing() {
    let m = ObjectMetadata { size: 9, modified_secs: 77, modified_nanos: 5 };
    assert_eq!(
        list_file("a/b.txt", &m),
        vec![ListedObject { key: "a/b.txt".to_string(), size: 9, modified: 77 }]
    );
}

#[test]
fn key_order_is_byte_order() {
    assert!(key_before_or_same("a", "b"));
    assert!(!key_before_or_same("b", "a"));
    assert!(key_before_or_same("a", "a"));
    assert!(key_before_or_same("", "a"));
    assert!(!key_before_or_same("a", ""));
    assert!(key_before_or_same("a", "aa"));
    assert!(key_before_or_same("Z", "a"));
    assert!(key_before_or_same("a/b", "a0"));
    assert!(key_before_or_same("z", "\u{e9}"));
    assert!(key_before_or_same("\u{e9}", "\u{4e2d}"));
    assert!(!key_before_or_same("\u{1f600}", "\u{4e2d}"));
}

#[test]
fn sort_agrees_with_the_order_of_strings() {
    let keys = ["m/n/o.txt", "z", "a.txt", "a", "m/b.txt", "B", "a/b", "a0", "", "\u{e9}", "z"];
    let items: Vec<ListedObject> =
        keys.iter().enumerate().map(|(i, k)| obj(k, i as u64)).collect();
    let sorted = sort_by_key(items);
    let got: Vec<String> = sorted.iter().map(|o| o.key.clone()).collect();
    let mut want: Vec<String> = keys.iter().map(|k| k.to_string()).collect();
    want.sort();
    assert_eq!(got, want);
    // every object is still there, with its own size
    let mut sizes: Vec<u64> = sorted.iter().map(|o| o.size).collect();
    sizes.sort();
    assert_eq!(sizes, (0..keys.len() as u64).collect::<Vec<u64>>());
}

#[test]
fn sort_keeps_the_order_of_equal_keys() {
    let items = vec![obj("k", 1), obj("a", 0), obj("k", 2), obj("k", 3)];
    let sizes: Vec<u64> = sort_by_key(items).iter().map(|o| o.size).collect();
    assert_eq!(sizes, vec![0, 1, 2, 3]);
}

#[test]
fn sort_of_nothing() {
    assert_eq!(sort_by_key(Vec::new()), Vec::new());
}

#[test]
fn listed_keys_can_be_asked_for() {
    let mut l = list_objects(Some("top"), Some(1)).unwrap();
    let d = l.next_dir().unwrap();
    l.visit(d.as_str(), &vec![dir("sub"), file("a.txt", 1, 1), file("..b", 1, 1)]);
    let d = l.next_dir().unwrap();
    assert!(is_valid_key(d.as_str()));
    l.visit(d.as_str(), &vec![file("c d.bin", 1, 1)]);
    for o in l.finish() {
        assert!(is_valid_key(o.key.as_str()), "{:?}", o.key);
    }
    let mut root = list_objects(None, None).unwrap();
    let d = root.next_dir().unwrap();
    root.visit(d.as_str(), &vec![file("x", 1, 1)]);
    assert!(is_valid_key(root.finish()[0].key.as_str()));
}
