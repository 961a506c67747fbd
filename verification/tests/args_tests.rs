use gn_starlark::args::{ArgInput, ArgValues, ArgsGen, ArgsItem, ArgsSequence, Error, Formatter, MapOutcome};
use gn_starlark::depset::{DepsetStore, Order};
use gn_starlark::types::{File, Item};

fn list(items: &[&str]) -> Vec<String> {
    items.iter().map(|s| s.to_string()).collect()
}

fn st(x: &str) -> Item {
    Item::Str(x.to_string())
}

fn values(items: Vec<Item>) -> ArgInput {
    ArgInput::Values(ArgValues::Items(items))
}

fn flag(x: &str) -> ArgInput {
    ArgInput::Str(x.to_string())
}

/// Expands one `Args` object; `mapped[i]` holds the `map_each` outcomes of
/// its `i`th argument.
fn expand_one(args: ArgsGen, store: &DepsetStore, mapped: Vec<Vec<MapOutcome>>) -> Result<Vec<String>, Error> {
    let mut mapped = mapped;
    while mapped.len() < args.arguments.len() {
        mapped.push(vec![]);
    }
    ArgsSequence(vec![ArgsItem::Args(0)]).expand(&vec![args], store, &vec![mapped])
}

fn expand(args: ArgsGen) -> Result<Vec<String>, Error> {
    expand_one(args, &DepsetStore::new(), vec![])
}

fn add_all(a: &mut ArgsGen, first: ArgInput, second: Option<ArgInput>) -> Result<(), Error> {
    a.add_all(first, second, None, None, None, None, None, true, false)
}

fn add_joined(a: &mut ArgsGen, first: ArgInput, second: Option<ArgInput>, join_with: &str) -> Result<(), Error> {
    a.add_joined(first, second, join_with, None, None, None, None, true, false)
}

#[test]
fn test_combine_string_and_args() {
    let mut a = ArgsGen::new();
    a.add(st("bar"), None, None).unwrap();
    let seq = ArgsSequence(vec![
        ArgsItem::Str("foo".to_string()),
        ArgsItem::Args(0),
        ArgsItem::Str("baz".to_string()),
    ]);
    let out = seq
        .expand(&vec![a], &DepsetStore::new(), &vec![vec![], vec![vec![]], vec![]])
        .unwrap();
    assert_eq!(out, list(&["foo", "bar", "baz"]));
}

#[test]
fn test_args_add() {
    let mut a = ArgsGen::new();
    a.add(st("--foo"), None, None).unwrap();
    assert_eq!(expand(a).unwrap(), list(&["--foo"]));

    let mut a = ArgsGen::new();
    a.add(Item::File(File::new("a/b.cc")), None, None).unwrap();
    assert_eq!(expand(a).unwrap(), list(&["a/b.cc"]));

    let mut a = ArgsGen::new();
    a.add(st("--bar"), Some(st("baz")), None).unwrap();
    assert_eq!(expand(a).unwrap(), list(&["--bar", "baz"]));

    let mut a = ArgsGen::new();
    a.add(st("--qux"), Some(Item::NoneValue), None).unwrap();
    assert_eq!(expand(a).unwrap(), list(&[]));

    let mut a = ArgsGen::new();
    a.add(st("--val"), Some(Item::Int(1)), Some("before %s after")).unwrap();
    assert_eq!(expand(a).unwrap(), list(&["--val", "before 1 after"]));

    let mut a = ArgsGen::new();
    let e = a.add(st("--val"), Some(Item::Int(1)), Some("no percent s")).unwrap_err();
    assert!(e.message().contains("Format string must contain exactly one '%s'"));

    let mut a = ArgsGen::new();
    let e = a.add(st("--val"), Some(Item::Int(1)), Some("two %s %s")).unwrap_err();
    assert!(e.message().contains("Format string must contain exactly one '%s'"));
}

#[test]
fn test_args_add_all() {
    let mut a = ArgsGen::new();
    add_all(&mut a, values(vec![Item::Int(1), Item::Int(2)]), None).unwrap();
    assert_eq!(expand(a).unwrap(), list(&["1", "2"]));

    let mut a = ArgsGen::new();
    a.add_all(flag("--flag"), Some(values(vec![st("3"), st("4")])), None, None, None, Some("-b"), None, true, false)
        .unwrap();
    assert_eq!(expand(a).unwrap(), list(&["--flag", "-b", "3", "-b", "4"]));

    let mut a = ArgsGen::new();
    a.add_all(
        values(vec![st("x"), st("y")]),
        None,
        None,
        None,
        Some(".%s."),
        Some("-b"),
        Some("--end"),
        true,
        false,
    )
    .unwrap();
    assert_eq!(expand(a).unwrap(), list(&["-b", ".x.", "-b", ".y.", "--end"]));

    let mut a = ArgsGen::new();
    add_all(&mut a, values(vec![Item::File(File::new("x.cc")), Item::File(File::new("y.cc"))]), None).unwrap();
    assert_eq!(expand(a).unwrap(), list(&["x.cc", "y.cc"]));

    let mut a = ArgsGen::new();
    add_all(&mut a, values(vec![st("a"), Item::NoneValue]), None).unwrap();
    let e = expand(a).unwrap_err();
    assert!(e.message().contains("None is not allowed unless mapped by map_each"));
}

#[test]
fn test_args_add_joined() {
    let mut a = ArgsGen::new();
    add_joined(&mut a, values(vec![Item::Int(1), Item::Int(2)]), None, ",").unwrap();
    assert_eq!(expand(a).unwrap(), list(&["1,2"]));

    let mut a = ArgsGen::new();
    add_joined(&mut a, flag("--flag"), Some(values(vec![st("c"), st("d")])), ":").unwrap();
    assert_eq!(expand(a).unwrap(), list(&["--flag", "c:d"]));

    let mut store = DepsetStore::new();
    let d = store.depset(vec![st("a"), st("b")], vec![], Order::Unspecified).unwrap();
    let mut a = ArgsGen::new();
    add_joined(&mut a, ArgInput::Values(ArgValues::Depset(d)), None, ",").unwrap();
    assert_eq!(expand_one(a, &store, vec![]).unwrap(), list(&["a,b"]));

    let mut a = ArgsGen::new();
    add_joined(
        &mut a,
        values(vec![Item::File(File::new("a/b.cc")), Item::File(File::new("c/d.cc"))]),
        None,
        ":",
    )
    .unwrap();
    assert_eq!(expand(a).unwrap(), list(&["a/b.cc:c/d.cc"]));

    let mut a = ArgsGen::new();
    a.add_joined(
        values(vec![Item::Int(1), Item::Int(2)]),
        None,
        ",",
        None,
        None,
        Some(".%s."),
        Some("list=%s"),
        true,
        false,
    )
    .unwrap();
    assert_eq!(expand(a).unwrap(), list(&["list=.1.,.2."]));
}

#[test]
fn test_args_omit_if_empty() {
    let mut a = ArgsGen::new();
    a.add_all(flag("--flag"), Some(values(vec![])), None, None, None, None, Some("after"), true, false).unwrap();
    assert_eq!(expand(a).unwrap(), list(&[]));

    let mut a = ArgsGen::new();
    a.add_joined(flag("--flag"), Some(values(vec![])), ",", None, None, None, None, false, false).unwrap();
    assert_eq!(expand(a).unwrap(), list(&["--flag", ""]));

    let mut a = ArgsGen::new();
    a.add_all(flag("--flag"), Some(values(vec![Item::NoneValue])), Some(1), Some(false), None, None, None, true, false)
        .unwrap();
    assert_eq!(expand_one(a, &DepsetStore::new(), vec![vec![MapOutcome::NoneValue]]).unwrap(), list(&[]));
}

#[test]
fn test_args_map_each() {
    let nested = Item::Other { ty: "list".to_string(), repr: "[\"def\", \"ghi\"]".to_string() };
    let mut a = ArgsGen::new();
    a.add_all(values(vec![st("abc"), nested, Item::NoneValue]), None, Some(1), Some(false), None, None, None, true, false)
        .unwrap();
    let outcomes = vec![
        MapOutcome::Str("abc".to_string()),
        MapOutcome::List(vec![st("def"), st("ghi")]),
        MapOutcome::NoneValue,
    ];
    assert_eq!(expand_one(a, &DepsetStore::new(), vec![outcomes]).unwrap(), list(&["abc", "def", "ghi"]));

    let one_list = Item::Other { ty: "list".to_string(), repr: "[1]".to_string() };
    let mut a = ArgsGen::new();
    a.add_all(values(vec![one_list]), None, Some(1), Some(false), None, None, None, true, false).unwrap();
    let e = expand_one(a, &DepsetStore::new(), vec![vec![MapOutcome::List(vec![Item::Int(1)])]]).unwrap_err();
    assert!(e.message().contains("map_each must return a list[str], str, or None"));

    let mut a = ArgsGen::new();
    a.add_all(values(vec![Item::Int(1)]), None, Some(1), Some(false), None, None, None, true, false).unwrap();
    let e = expand_one(a, &DepsetStore::new(), vec![vec![MapOutcome::Invalid]]).unwrap_err();
    assert!(e.message().contains("map_each must return a list[str], str, or None"));

    let mut a = ArgsGen::new();
    let e = a.add_all(values(vec![Item::Int(1)]), None, Some(1), None, None, None, None, true, false).unwrap_err();
    assert!(e.message().contains("map_each was specified without allow_closure"));

    let mut a = ArgsGen::new();
    a.add_all(values(vec![Item::Int(1)]), None, Some(2), Some(false), None, None, None, true, false).unwrap();
    let e = expand_one(a, &DepsetStore::new(), vec![vec![MapOutcome::Failed("fail: 1".to_string())]]).unwrap_err();
    assert!(e.message().contains("fail: 1"));
}

#[test]
fn test_args_uniquify() {
    let abac = || values(vec![st("a"), st("b"), st("a"), st("c")]);

    let mut a = ArgsGen::new();
    add_all(&mut a, abac(), None).unwrap();
    assert_eq!(expand(a).unwrap(), list(&["a", "b", "a", "c"]));

    let mut a = ArgsGen::new();
    a.add_all(abac(), None, None, None, None, None, None, true, true).unwrap();
    assert_eq!(expand(a).unwrap(), list(&["a", "b", "c"]));

    let mut a = ArgsGen::new();
    a.add_joined(abac(), None, ",", None, None, None, None, true, true).unwrap();
    assert_eq!(expand(a).unwrap(), list(&["a,b,c"]));
}

#[test]
fn test_args_chaining() {
    let mut a = ArgsGen::new();
    a.add(st("--foo"), None, None).unwrap();
    add_all(&mut a, values(vec![st("bar"), st("baz")]), None).unwrap();
    add_joined(&mut a, values(vec![st("x"), st("y")]), None, ":").unwrap();
    assert_eq!(expand(a).unwrap(), list(&["--foo", "bar", "baz", "x:y"]));
}

#[test]
fn args_formatter_formats_and_refuses() {
    let f = Formatter::new("--out=%s").unwrap();
    assert_eq!(f.format("a.o"), "--out=a.o");
    assert_eq!(f.format("%s"), "--out=%s");
    assert_eq!(
        Formatter::new("none").err().unwrap().message(),
        "Format string must contain exactly one '%s', got: none"
    );
}

#[test]
fn args_expansion_keeps_earlier_items_on_error() {
    let mut a = ArgsGen::new();
    a.add(st("--ok"), None, None).unwrap();
    add_all(&mut a, values(vec![Item::NoneValue]), None).unwrap();
    let mut cmd = vec!["prefix".to_string()];
    let r = a.expand_into(&mut cmd, &DepsetStore::new(), &vec![vec![], vec![]]);
    assert_eq!(r, Err(Error::NoneNotAllowed));
    assert_eq!(cmd, list(&["prefix", "--ok"]));
}

#[test]
fn args_errors_of_the_builder() {
    let mut a = ArgsGen::new();
    assert_eq!(a.add(Item::Int(1), Some(Item::Int(2)), None), Err(Error::ExpectedAddStringFlag));
    assert_eq!(
        a.add_all(values(vec![]), Some(values(vec![])), None, None, None, None, None, true, false),
        Err(Error::ExpectedAddAllStringFlag)
    );
    assert_eq!(
        a.add_joined(values(vec![]), Some(values(vec![])), ",", None, None, None, None, true, false),
        Err(Error::ExpectedAddJoinedStringFlag)
    );
    let mut a = ArgsGen::new();
    add_all(&mut a, ArgInput::Values(ArgValues::Invalid), None).unwrap();
    assert_eq!(expand(a).unwrap_err().message(), "arguments must be list or depset");
}

#[test]
fn args_expand_as_each_argument_alone_in_turn() {
    let mut whole = ArgsGen::new();
    whole.add(st("--foo"), None, None).unwrap();
    add_all(&mut whole, values(vec![st("bar"), st("baz")]), None).unwrap();
    add_joined(&mut whole, values(vec![st("x"), st("y")]), None, ":").unwrap();
    let mut first = ArgsGen::new();
    first.add(st("--foo"), None, None).unwrap();
    let mut second = ArgsGen::new();
    add_all(&mut second, values(vec![st("bar"), st("baz")]), None).unwrap();
    let mut third = ArgsGen::new();
    add_joined(&mut third, values(vec![st("x"), st("y")]), None, ":").unwrap();
    let mut pieces: Vec<String> = Vec::new();
    for alone in [first, second, third] {
        pieces.extend(expand(alone).unwrap());
    }
    assert_eq!(expand(whole).unwrap(), pieces);
}
