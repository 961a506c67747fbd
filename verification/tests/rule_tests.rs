use gn_starlark::attr::{AllowFiles, AllowFilesSchema, Attr, AttrCfg, AttrKind, AttrSchema, LabelOrFile};
use gn_starlark::eval_context::{EvalContext, EvalContextKind};
use gn_starlark::loader::{Begin, FileStatus, LoadTable};
use gn_starlark::rule::{common_rule, Error, FrozenRule, TargetChoice};
use gn_starlark::types::{Label, Value};

fn schema(kind: AttrKind, default: Option<Attr>, allow_files: AllowFilesSchema) -> AttrSchema {
    AttrSchema { kind, default, disallow_empty: false, allow_files, cfg: AttrCfg::CurrentToolchain, doc: String::new() }
}

fn attrs() -> Vec<(String, AttrSchema)> {
    vec![
        ("srcs".to_string(), schema(AttrKind::LabelList, Some(Attr::LabelList(vec![])), AllowFilesSchema::Many(AllowFiles::All))),
        ("main".to_string(), schema(AttrKind::Label, None, AllowFilesSchema::Single(AllowFiles::All))),
        ("opt".to_string(), schema(AttrKind::String { allowed: None }, Some(Attr::String(String::new())), AllowFilesSchema::NoneValue)),
    ]
}

#[test]
fn rule_declaration_lists_fields() {
    let rule = common_rule(7u32, Some(attrs()), false).unwrap();
    assert_eq!(rule.attr_fields, vec!["srcs", "main", "opt"]);
    assert_eq!(rule.file_fields, vec!["main"]);
    assert_eq!(rule.files_fields, vec!["srcs", "main"]);
    assert_eq!(rule.signature.positional_or_named, vec!["name"]);
    assert!(rule.signature.positional_only.is_empty());
    assert_eq!(
        rule.signature.named_only,
        vec![("srcs".to_string(), false), ("main".to_string(), true), ("opt".to_string(), false)]
    );
    assert_eq!(rule.repr(), "<rule>");

    let ext = common_rule((), None, true).unwrap();
    assert_eq!(ext.signature.positional_only, vec!["target"]);
    assert_eq!(ext.repr(), "<rule_extension>");
}

#[test]
fn rule_attribute_name_is_reserved() {
    let mut a = attrs();
    a.push(("name".to_string(), schema(AttrKind::Bool, None, AllowFilesSchema::NoneValue)));
    let err = common_rule((), Some(a), false).err().unwrap();
    assert_eq!(err.message(), "Attribute 'name' is reserved");
}

#[test]
fn rule_invocation_creates_target_and_dependencies() {
    let rule = common_rule((), Some(attrs()), false).unwrap();
    let values = vec![
        Some(Value::List(vec![Value::Str(":a".to_string()), Value::Str("b.cc".to_string())])),
        Some(Value::Str("//x:y".to_string())),
        None,
    ];
    let inv = rule.invoke(&Value::Str("tgt".to_string()), &values, "//pkg", true).unwrap();
    assert_eq!(inv.target, TargetChoice::Create("tgt".to_string()));
    assert_eq!(inv.dependencies, vec![Label::new("//pkg", "a"), Label::new("//x", "y")]);
    assert_eq!(inv.attrs[2], Attr::String(String::new()));
    assert_eq!(inv.attrs[1], Attr::Label(LabelOrFile::Label(Label::new("//x", "y"))));

    assert_eq!(rule.invoke(&Value::Int(1), &values, "//pkg", true).err().unwrap(), Error::CustomRuleNameRequired);
    assert_eq!(rule.invoke(&Value::Str("t".to_string()), &values, "//pkg", false).err().unwrap(), Error::RequiresMacro);

    let missing = vec![None, None, None];
    let err = rule.invoke(&Value::Str("t".to_string()), &missing, "//pkg", true).err().unwrap();
    assert_eq!(err.message(), "Attribute `main` is mandatory");
}

#[test]
fn test_pure_rule_inheritance() {
    let native = FrozenRule {
        attrs: vec![
            ("optional".to_string(), schema(AttrKind::String { allowed: None }, Some(Attr::String(String::new())), AllowFilesSchema::NoneValue)),
            ("mandatory".to_string(), schema(AttrKind::String { allowed: None }, None, AllowFilesSchema::NoneValue)),
        ],
        builtin: Some("shared_library".to_string()),
        name: Some("custom_shared_library".to_string()),
    };
    let (ty, a) = native
        .invoke_native(&vec![Some(Value::Str("optional_val".to_string())), Some(Value::Str("mandatory_val".to_string()))], "//")
        .unwrap();
    assert_eq!(ty, "shared_library");
    assert_eq!(a, vec![Attr::String("optional_val".to_owned()), Attr::String("mandatory_val".to_owned())]);

    let exe = FrozenRule::new_builtin("executable");
    let (ty, a) = exe.invoke_native(&vec![], "//").unwrap();
    assert_eq!(ty, "executable");
    assert!(a.is_empty());
    assert_eq!(exe.repr(), "<rule: executable>");
}

#[test]
fn frozen_rule_invocation_checks() {
    let anonymous = FrozenRule { attrs: vec![], builtin: None, name: None };
    assert_eq!(anonymous.invoke(&vec![], "//", true).err().unwrap(), Error::RuleMustBeNamed);
    assert_eq!(
        Error::RuleMustBeNamed.message(),
        "Rule must be assigned to a global variable to be used"
    );

    let named = FrozenRule {
        attrs: vec![("mandatory".to_string(), schema(AttrKind::String { allowed: None }, None, AllowFilesSchema::NoneValue))],
        builtin: None,
        name: Some("child_rule".to_string()),
    };
    assert_eq!(named.invoke(&vec![None], "//", false).err().unwrap(), Error::RequiresMacro);
    match named.invoke(&vec![None], "//", true).err().unwrap() {
        Error::Attr(e) => assert_eq!(e.message(), "Attribute `mandatory` is mandatory"),
        other => panic!("unexpected error {:?}", other),
    }
    let (ty, a) = named.invoke(&vec![Some(Value::Str("v".to_string()))], "//", true).unwrap();
    assert_eq!(ty, "starlark");
    assert_eq!(a, vec![Attr::String("v".to_string())]);
}

#[test]
fn test_cycle_detection() {
    let mut t: LoadTable<u32> = LoadTable::new();
    assert_eq!(t.begin("//cycle:a.bzl"), Begin::Start);
    assert_eq!(t.begin("//cycle:a.bzl"), Begin::Known);
    assert_eq!(t.before_load("//cycle:a.bzl", "//cycle:b.bzl"), None);
    assert_eq!(t.begin("//cycle:b.bzl"), Begin::Start);
    let cycle = t.before_load("//cycle:b.bzl", "//cycle:a.bzl").unwrap();
    assert_eq!(cycle, vec!["//cycle:a.bzl", "//cycle:b.bzl"]);
    let i = t.find("//cycle:b.bzl").unwrap();
    match &t.files[i].1 {
        FileStatus::Loaded(Err(msg)) => assert!(msg.contains("cycle detected")),
        other => panic!("unexpected status {:?}", other),
    }
}

#[test]
fn loader_completes_loads() {
    let mut t: LoadTable<u32> = LoadTable::new();
    t.begin("//load:root.bzl");
    t.set_needs("//load:root.bzl", "//load:absolute.bzl");
    assert_eq!(t.find_cycle_path("//load:root.bzl", "//load:absolute.bzl"), None);
    t.set_complete("//load:root.bzl", Ok(7));
    assert_eq!(t.files[0].1, FileStatus::Loaded(Ok(7)));
    // A loaded module is given back again, and the file is not begun anew.
    assert_eq!(t.begin("//load:root.bzl"), Begin::Known);
    assert_eq!(t.result("//load:root.bzl"), Some(&Ok(7)));
    assert_eq!(t.result("//load:absolute.bzl"), None);
}

#[test]
fn eval_context_kinds() {
    let bzl = EvalContext::new_bzl_file(7, "//pkg");
    assert_eq!(bzl.err(), None);
    assert!(bzl.require_bzl().is_ok());
    assert!(bzl.require_macro().is_err());
    assert_eq!(bzl.current_package(), "//pkg");
    assert_eq!(bzl.session(), 7);
    assert!(bzl.require_rule_impl().is_err());

    let m = EvalContext::new_macro(7, "//pkg", 11, 12, Label::new("//toolchain", "default"));
    assert_eq!(m.err(), Some(12));
    assert_eq!(m.require_macro(), Ok(11));
    assert_eq!(m.current_toolchain(), &Label::new("//toolchain", "default"));

    let r = EvalContext::new_rule_impl(7, Label::new("//a", "b"), Label::new("//toolchain", "default"), 5);
    assert_eq!(r.current_package(), "//a");
    assert_eq!(r.require_rule_impl(), Ok(&Label::new("//a", "b")));
    assert!(matches!(r.kind, EvalContextKind::RuleImpl { .. }));
}

#[test]
fn loader_reads_and_records_failures() {
    let mut t: LoadTable<u32> = LoadTable::new();
    assert_eq!(t.begin("//a:a.bzl"), Begin::Start);
    let deps = t
        .read_file("//a:a.bzl", Some("load(\"//b:b.bzl\", \"x\")\ny = x\n".to_string()))
        .unwrap();
    assert_eq!(deps, vec!["//b:b.bzl".to_string()]);
    assert_eq!(t.files[0].1, FileStatus::Loading { needs: None });

    assert_eq!(t.begin("//c:c.bzl"), Begin::Start);
    assert_eq!(t.read_file("//c:c.bzl", None).err().unwrap(), "Failed to read //c:c.bzl");
    assert_eq!(t.begin("//c:c.bzl"), Begin::Known);
    assert_eq!(t.files[1].1, FileStatus::Loaded(Err("Failed to read //c:c.bzl".to_string())));

    assert_eq!(t.begin("//d:d.bzl"), Begin::Start);
    assert!(t.read_file("//d:d.bzl", Some("\n(unmatched".to_string())).is_err());
    assert!(matches!(t.files[2].1, FileStatus::Loaded(Err(_))));

    assert_eq!(t.dependency_loaded("//a:a.bzl", Ok(())), Ok(()));
    assert_eq!(t.files[0].1, FileStatus::Loading { needs: None });
    assert_eq!(t.dependency_loaded("//a:a.bzl", Err("boom".to_string())), Err("boom".to_string()));
    assert_eq!(t.files[0].1, FileStatus::Loaded(Err("boom".to_string())));
    // A failed file stays failed: beginning it again finds it known.
    assert_eq!(t.begin("//a:a.bzl"), Begin::Known);
    assert_eq!(t.files[0].1, FileStatus::Loaded(Err("boom".to_string())));
    assert_eq!(t.result("//a:a.bzl"), Some(&Err("boom".to_string())));
}
