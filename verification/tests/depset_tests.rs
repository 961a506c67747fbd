use gn_starlark::depset::{DepsetError, DepsetStore, Kind, Order};
use gn_starlark::types::{File, Item};

fn st(x: &str) -> Item {
    Item::Str(x.to_string())
}

fn file(x: &str) -> Item {
    Item::File(File::new(x))
}

fn strs(xs: &[&str]) -> Vec<Item> {
    xs.iter().map(|x| st(x)).collect()
}

fn order(name: &str) -> Order {
    Order::parse(name).unwrap()
}

#[test]
fn test_depset() {
    let mut store = DepsetStore::new();
    for (name, expected) in [
        ("preorder", ["c", "a", "b"]),
        ("postorder", ["a", "b", "c"]),
        ("topological", ["c", "b", "a"]),
    ] {
        let child = store.depset(strs(&["a", "b"]), vec![], Order::Unspecified).unwrap();
        let d = store.depset(strs(&["c"]), vec![child], order(name)).unwrap();
        assert_eq!(store.to_list(d), strs(&expected));
    }

    // Truthiness: a depset is true exactly when it has elements.
    let one = store.depset(strs(&["a"]), vec![], Order::Unspecified).unwrap();
    assert!(!store.get(one).is_empty());
    let empty = store.depset(vec![], vec![], Order::Unspecified).unwrap();
    assert!(store.get(empty).is_empty());
    let nested_empty = store.depset(vec![], vec![empty], Order::Unspecified).unwrap();
    assert!(store.get(nested_empty).is_empty());

    assert_eq!(gn_starlark::depset::depset_repr(), "depset(...)");
}

#[test]
fn test_depset_invalid_transitive() {
    let mut store = DepsetStore::new();
    let err = store.depset(strs(&["c"]), vec![7], Order::Unspecified).unwrap_err();
    assert_eq!(err, DepsetError::NotADepset(7));
    assert!(err.message().contains("Expected value of type `depset`"));
}

#[test]
fn test_depset_conflicting_orders() {
    let mut store = DepsetStore::new();
    let a = store.depset(strs(&["a"]), vec![], order("preorder")).unwrap();
    let b = store.depset(strs(&["b"]), vec![], order("postorder")).unwrap();
    let err = store.depset(vec![], vec![a, b], Order::Unspecified).unwrap_err();
    assert_eq!(
        err.message(),
        "conflicting orders: depset has order preorder, but transitive child has order postorder"
    );
}

#[test]
fn test_depset_type_validation() {
    let mut store = DepsetStore::new();
    let frozen_str_depset = store.depset(strs(&["a", "b"]), vec![], Order::Unspecified).unwrap();
    let frozen_file_depset =
        store.depset(vec![file("a.txt"), file("b.txt")], vec![], Order::Unspecified).unwrap();

    let files = store.depset(vec![file("a.txt"), file("b.txt")], vec![], Order::Unspecified).unwrap();
    assert_eq!(store.to_list(files), vec![file("a.txt"), file("b.txt")]);
    assert_eq!(*store.get(files).kind(), Kind::File);

    let s = store.depset(strs(&["a", "b"]), vec![], Order::Unspecified).unwrap();
    assert_eq!(store.to_list(s), strs(&["a", "b"]));

    let err = store.depset(vec![file("a.txt"), st("b")], vec![], Order::Unspecified).unwrap_err();
    assert_eq!(err.message(), "depset elements must be of the same type, expected File, got unknown");

    let err = store.depset(vec![st("a"), file("b.txt")], vec![], Order::Unspecified).unwrap_err();
    assert_eq!(err.message(), "depset elements must be of the same type, expected unknown, got File");

    let fa = store.depset(vec![file("a.txt")], vec![], Order::Unspecified).unwrap();
    let sb = store.depset(strs(&["b"]), vec![], Order::Unspecified).unwrap();
    let err = store.depset(vec![], vec![fa, sb], Order::Unspecified).unwrap_err();
    assert_eq!(err.message(), "depset elements must be of the same type, expected File, got unknown");

    let err = store.depset(vec![file("a.txt")], vec![sb], Order::Unspecified).unwrap_err();
    assert_eq!(err.message(), "depset elements must be of the same type, expected File, got unknown");

    let d = store.depset(strs(&["c"]), vec![frozen_str_depset], order("postorder")).unwrap();
    assert_eq!(store.to_list(d), strs(&["a", "b", "c"]));

    let d = store.depset(vec![file("c.txt")], vec![frozen_file_depset], order("postorder")).unwrap();
    assert_eq!(store.to_list(d), vec![file("a.txt"), file("b.txt"), file("c.txt")]);
}

#[test]
fn test_depset_deduplication() {
    let mut store = DepsetStore::new();
    let d = store.depset(strs(&["a", "a"]), vec![], Order::Unspecified).unwrap();
    assert_eq!(store.get(d).direct().len(), 1);
}

#[test]
fn depset_invalid_order_name() {
    let err = Order::parse("sideways").unwrap_err();
    assert_eq!(err.message(), "Invalid depset order: sideways");
    assert_eq!(Order::parse("default").unwrap(), Order::Unspecified);
}

#[test]
fn depset_orders_list_the_same_elements() {
    let mut store = DepsetStore::new();
    let leaf = store.depset(strs(&["x", "y"]), vec![], Order::Unspecified).unwrap();
    let mut lists = vec![];
    for name in ["preorder", "postorder", "topological"] {
        let d = store.depset(strs(&["y", "z"]), vec![leaf], order(name)).unwrap();
        let mut l = store.to_list(d);
        let n = l.len();
        l.sort_by_key(|i| format!("{:?}", i));
        l.dedup();
        assert_eq!(l.len(), n);
        lists.push(l);
    }
    assert_eq!(lists[0], lists[1]);
    assert_eq!(lists[1], lists[2]);
}

#[test]
fn depset_of_files_keeps_its_single_file() {
    let mut store = DepsetStore::new();
    let one = store.new_file_depset(vec![File::new("out.o")]);
    assert_eq!(store.get(one).phony(), &Some(File::new("out.o")));
    let two = store.new_file_depset(vec![File::new("a.o"), File::new("b.o")]);
    assert_eq!(store.get(two).phony(), &None);
    let e = store.new_empty_depset();
    assert_eq!(*store.get(e).kind(), Kind::Empty);
}

#[test]
fn empty_file_depset_is_empty() {
    let mut store = DepsetStore::new();
    let none = store.new_file_depset(vec![]);
    assert!(store.get(none).is_empty());
    assert_eq!(*store.get(none).kind(), Kind::Empty);
    assert!(store.to_list(none).is_empty());
    let one = store.new_file_depset(vec![File::new("out.o")]);
    assert!(!store.get(one).is_empty());
    assert_eq!(*store.get(one).kind(), Kind::File);
}
