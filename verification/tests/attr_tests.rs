use gn_starlark::attr::{
    AllowFiles, AllowFilesSchema, extension_allowed, Attr, AttrCfg, AttrKind, AttrSchema, AttrSpecArgs, LabelOrFile,
};
use gn_starlark::attr_value::{AttrValue, Resolved, ResolvedAttr};
use gn_starlark::types::{File, Label, Value};

fn s(x: &str) -> String {
    x.to_string()
}

fn str_value(x: &str) -> Value {
    Value::Str(s(x))
}

fn label(pkg: &str, name: &str) -> Label {
    Label::new(pkg, name)
}

fn schema_of(
    kind: AttrKind,
    default: Option<Attr>,
    disallow_empty: bool,
    allow_files: AllowFilesSchema,
    doc: &str,
) -> AttrSchema {
    AttrSchema {
        kind,
        default,
        disallow_empty,
        allow_files,
        cfg: AttrCfg::CurrentToolchain,
        doc: s(doc),
    }
}

/// Declares an attribute in the package `pkg`, as `attr.<kind>(...)` does.
fn declare(kind: AttrKind, args: AttrSpecArgs, pkg: &str) -> AttrSchema {
    AttrSchema::create(kind, args, pkg).unwrap()
}

/// Asserts that declaring the attribute fails with a message holding `msg`.
fn declare_fails(kind: AttrKind, args: AttrSpecArgs, msg: &str) {
    let err = AttrSchema::create(kind, args, "//").unwrap_err();
    let text = err.message();
    assert!(text.contains(msg), "{:?} does not contain {:?}", text, msg);
}

#[test]
fn test_schema_string_dict() {
    declare_fails(
        AttrKind::StringDict,
        AttrSpecArgs {
            allow_empty: Some(false),
            default: Some(Value::Dict(vec![])),
            ..Default::default()
        },
        "Want non-empty dict, got {}",
    );
}

#[test]
fn schema_test_schema_allow_files_error() {
    declare_fails(
        AttrKind::Label,
        AttrSpecArgs {
            allow_files: Some(AllowFiles::All),
            allow_single_file: Some(AllowFiles::All),
            ..Default::default()
        },
        "allow_files and allow_single_file are mutually exclusive",
    );
}

#[test]
fn schema_test_schema_mandatory_default_error() {
    declare_fails(
        AttrKind::Bool,
        AttrSpecArgs {
            mandatory: Some(true),
            default: Some(Value::Bool(true)),
            ..Default::default()
        },
        "mandatory and default are mutually exclusive",
    );
}

#[test]
fn attr_tests_test_schema_allow_files_error() {
    declare_fails(
        AttrKind::Label,
        AttrSpecArgs {
            allow_files: Some(AllowFiles::All),
            allow_single_file: Some(AllowFiles::All),
            ..Default::default()
        },
        "allow_files and allow_single_file are mutually exclusive",
    );
}

#[test]
fn attr_tests_test_schema_mandatory_default_error() {
    declare_fails(
        AttrKind::Bool,
        AttrSpecArgs {
            mandatory: Some(true),
            default: Some(Value::Bool(true)),
            ..Default::default()
        },
        "mandatory and default are mutually exclusive",
    );
}

fn check_schema_bool() {
    assert_eq!(
        declare(AttrKind::Bool, AttrSpecArgs::default(), "//"),
        schema_of(AttrKind::Bool, Some(Attr::Bool(false)), false, AllowFilesSchema::NoneValue, ""),
    );
    declare_fails(
        AttrKind::Bool,
        AttrSpecArgs { default: Some(Value::NoneValue), ..Default::default() },
        "expected `bool`",
    );
}

#[test]
fn schema_test_schema_bool() {
    check_schema_bool();
}

#[test]
fn attr_tests_test_schema_bool() {
    check_schema_bool();
}

fn check_schema_int() {
    assert_eq!(
        declare(
            AttrKind::Int { allowed: None },
            AttrSpecArgs {
                default: Some(Value::Int(42)),
                doc: Some(Some(s("An integer"))),
                ..Default::default()
            },
            "//",
        ),
        schema_of(
            AttrKind::Int { allowed: None },
            Some(Attr::Int(42)),
            false,
            AllowFilesSchema::NoneValue,
            "An integer",
        ),
    );
}

#[test]
fn schema_test_schema_int() {
    check_schema_int();
    declare_fails(
        AttrKind::Int { allowed: Some(vec![1, 2]) },
        AttrSpecArgs { default: Some(Value::Int(3)), ..Default::default() },
        "Value 3 is not in allowed set",
    );
}

#[test]
fn attr_tests_test_schema_int() {
    check_schema_int();
}

fn check_schema_string() {
    assert_eq!(
        declare(
            AttrKind::String { allowed: Some(vec![s("foo"), s("bar")]) },
            AttrSpecArgs { mandatory: Some(true), ..Default::default() },
            "//",
        ),
        schema_of(
            AttrKind::String { allowed: Some(vec![s("foo"), s("bar")]) },
            None,
            false,
            AllowFilesSchema::NoneValue,
            "",
        ),
    );
}

#[test]
fn schema_test_schema_string() {
    check_schema_string();
    declare_fails(
        AttrKind::String { allowed: Some(vec![s("a"), s("b")]) },
        AttrSpecArgs { default: Some(str_value("c")), ..Default::default() },
        "Value \"c\" is not in allowed set",
    );
}

#[test]
fn attr_tests_test_schema_string() {
    check_schema_string();
}

fn check_schema_label(pkg: &str) {
    assert_eq!(
        declare(
            AttrKind::Label,
            AttrSpecArgs {
                allow_files: Some(AllowFiles::All),
                default: Some(str_value(":foo")),
                ..Default::default()
            },
            pkg,
        ),
        schema_of(
            AttrKind::Label,
            Some(Attr::Label(LabelOrFile::Label(label(pkg, "foo")))),
            false,
            AllowFilesSchema::Many(AllowFiles::All),
            "",
        ),
    );
}

#[test]
fn schema_test_schema_label() {
    check_schema_label("//");
}

#[test]
fn attr_tests_test_schema_label() {
    check_schema_label("//pkg");
}

fn check_schema_string_list() {
    assert_eq!(
        declare(
            AttrKind::StringList,
            AttrSpecArgs { allow_empty: Some(false), mandatory: Some(true), ..Default::default() },
            "//",
        ),
        schema_of(AttrKind::StringList, None, true, AllowFilesSchema::NoneValue, ""),
    );
}

#[test]
fn schema_test_schema_string_list() {
    check_schema_string_list();
    declare_fails(
        AttrKind::StringList,
        AttrSpecArgs { allow_empty: Some(false), ..Default::default() },
        "allow_empty = False requires the attribute to be mandatory or have a non-empty default value",
    );
    declare_fails(
        AttrKind::StringList,
        AttrSpecArgs {
            allow_empty: Some(false),
            default: Some(Value::List(vec![])),
            ..Default::default()
        },
        "Want non-empty list, got []",
    );
}

#[test]
fn attr_tests_test_schema_string_list() {
    check_schema_string_list();
}

fn check_schema_string_default() {
    assert_eq!(
        declare(
            AttrKind::String { allowed: None },
            AttrSpecArgs { default: Some(str_value("hello")), ..Default::default() },
            "//",
        ),
        schema_of(
            AttrKind::String { allowed: None },
            Some(Attr::String(s("hello"))),
            false,
            AllowFilesSchema::NoneValue,
            "",
        ),
    );
}

#[test]
fn schema_test_schema_string_default() {
    check_schema_string_default();
}

#[test]
fn attr_tests_test_schema_string_default() {
    check_schema_string_default();
}

#[test]
fn test_schema_default_validation_error() {
    declare_fails(
        AttrKind::Int { allowed: Some(vec![1, 2]) },
        AttrSpecArgs { default: Some(Value::Int(3)), ..Default::default() },
        "Value 3 is not in allowed set",
    );
    declare_fails(
        AttrKind::String { allowed: Some(vec![s("a"), s("b")]) },
        AttrSpecArgs { default: Some(str_value("c")), ..Default::default() },
        "Value \"c\" is not in allowed set",
    );
    declare_fails(
        AttrKind::StringList,
        AttrSpecArgs { allow_empty: Some(false), ..Default::default() },
        "allow_empty = False requires the attribute to be mandatory or have a non-empty default value",
    );
    declare_fails(
        AttrKind::StringList,
        AttrSpecArgs {
            allow_empty: Some(false),
            default: Some(Value::List(vec![])),
            ..Default::default()
        },
        "Want non-empty list, got []",
    );
    declare_fails(
        AttrKind::StringDict,
        AttrSpecArgs {
            allow_empty: Some(false),
            default: Some(Value::Dict(vec![])),
            ..Default::default()
        },
        "Want non-empty dict, got {}",
    );
}

fn check_attr_bool() {
    let schema = schema_of(AttrKind::Bool, Some(Attr::Bool(false)), false, AllowFilesSchema::NoneValue, "");
    assert_eq!(
        Attr::create("my_attr", &schema, Some(&Value::Bool(true)), "//foo").unwrap(),
        Attr::Bool(true)
    );
    assert_eq!(Attr::create("my_attr", &schema, None, "//foo").unwrap(), Attr::Bool(false));
    assert!(Attr::create("my_attr", &schema, Some(&Value::Int(42)), "//foo").is_err());
}

#[test]
fn attr_test_attr_bool() {
    check_attr_bool();
}

#[test]
fn attr_tests_test_attr_bool() {
    check_attr_bool();
}

fn check_attr_label_no_files() {
    let schema = schema_of(AttrKind::Label, None, false, AllowFilesSchema::NoneValue, "");
    assert_eq!(
        Attr::create("my_attr", &schema, Some(&str_value(":bar")), "//foo").unwrap(),
        Attr::Label(LabelOrFile::Label(label("//foo", "bar")))
    );
    assert!(Attr::create("my_attr", &schema, Some(&str_value("file.cc")), "//foo").is_err());
}

#[test]
fn attr_test_attr_label_no_files() {
    check_attr_label_no_files();
}

#[test]
fn attr_tests_test_attr_label_no_files() {
    check_attr_label_no_files();
}

fn check_attr_label_allow_files() {
    let schema = schema_of(
        AttrKind::Label,
        None,
        false,
        AllowFilesSchema::Many(AllowFiles::Extensions(vec![s(".cc")])),
        "",
    );
    assert_eq!(
        Attr::create("my_attr", &schema, Some(&str_value("file.cc")), "//foo").unwrap(),
        Attr::Label(LabelOrFile::File(File::new("foo/file.cc")))
    );
    assert!(Attr::create("my_attr", &schema, Some(&str_value("file.h")), "//foo").is_err());
    assert_eq!(
        Attr::create("my_attr", &schema, Some(&str_value(":bar")), "//foo").unwrap(),
        Attr::Label(LabelOrFile::Label(label("//foo", "bar")))
    );
}

#[test]
fn attr_test_attr_label_allow_files() {
    check_attr_label_allow_files();
}

#[test]
fn attr_tests_test_attr_label_allow_files() {
    check_attr_label_allow_files();
}

fn check_to_value_basic() {
    let schema = schema_of(AttrKind::Bool, None, false, AllowFilesSchema::NoneValue, "");
    let AttrValue { attr, file, files } = Attr::Bool(true).to_value(&schema, &vec![]).unwrap();
    assert_eq!(attr, ResolvedAttr::Value(Resolved::Bool(true)));
    assert!(file.is_none());
    assert!(files.is_none());
}

#[test]
fn value_test_to_value_basic() {
    check_to_value_basic();
}

#[test]
fn attr_tests_test_to_value_basic() {
    check_to_value_basic();
}

fn check_to_value_label_no_files() {
    let target = label("//foo", "bar");
    let schema = schema_of(AttrKind::Label, None, false, AllowFilesSchema::NoneValue, "");
    let attr = Attr::Label(LabelOrFile::Label(target.clone()));
    let AttrValue { attr: resolved, file, files } = attr.to_value(&schema, &vec![vec![]]).unwrap();
    assert_eq!(resolved, ResolvedAttr::Value(Resolved::Target(target)));
    assert!(file.is_none());
    assert!(files.is_none());
}

#[test]
fn value_test_to_value_label_no_files() {
    check_to_value_label_no_files();
}

#[test]
fn attr_tests_test_to_value_label_no_files() {
    check_to_value_label_no_files();
}

fn check_to_value_label_allow_files_many() {
    let target = label("//foo", "bar");
    let label_only_file = File::new("label_only.cc");
    let overlap = File::new("overlap.cc");
    let file_only_file = File::new("file_only.cc");
    let schema = schema_of(
        AttrKind::LabelList,
        None,
        false,
        AllowFilesSchema::Many(AllowFiles::All),
        "",
    );
    let attr = Attr::LabelList(vec![
        LabelOrFile::Label(target.clone()),
        LabelOrFile::File(file_only_file.clone()),
        LabelOrFile::File(overlap.clone()),
    ]);
    let outputs = vec![vec![label_only_file.clone(), overlap.clone()], vec![], vec![]];
    let AttrValue { attr: resolved, file, files } = attr.to_value(&schema, &outputs).unwrap();
    assert_eq!(
        resolved,
        ResolvedAttr::List(vec![
            Resolved::Target(target),
            Resolved::File(file_only_file.clone()),
            Resolved::File(overlap.clone()),
        ])
    );
    assert!(file.is_none());
    assert_eq!(files.unwrap(), vec![label_only_file, overlap, file_only_file]);
}

#[test]
fn value_test_to_value_label_allow_files_many() {
    check_to_value_label_allow_files_many();
}

#[test]
fn attr_tests_test_to_value_label_allow_files_many() {
    check_to_value_label_allow_files_many();
}

fn check_to_value_label_allow_files_single() {
    let target = label("//foo", "bar");
    let file1 = File::new("out.cc");
    let schema = schema_of(AttrKind::Label, None, false, AllowFilesSchema::Single(AllowFiles::All), "");

    // A target with exactly one output.
    let attr = Attr::create("my_attr", &schema, Some(&str_value(":bar")), "//foo").unwrap();
    assert_eq!(attr.register_dependencies(), vec![target.clone()]);
    let AttrValue { file, files, attr: resolved } = attr.to_value(&schema, &vec![vec![file1.clone()]]).unwrap();
    assert_eq!(file, Some(Resolved::File(file1.clone())));
    assert_eq!(files.unwrap(), vec![file1.clone()]);
    assert_eq!(resolved, ResolvedAttr::Value(Resolved::Target(target.clone())));

    // A file given directly.
    let direct = Attr::Label(LabelOrFile::File(file1.clone()));
    let AttrValue { file, files, .. } = direct.to_value(&schema, &vec![vec![]]).unwrap();
    assert_eq!(file, Some(Resolved::File(file1.clone())));
    assert_eq!(files.unwrap(), vec![file1.clone()]);

    // A target with two outputs.
    let res = Attr::Label(LabelOrFile::Label(target.clone()))
        .to_value(&schema, &vec![vec![file1.clone(), File::new("out.h")]]);
    assert_eq!(res.unwrap_err().message(), "target `//foo:bar` must produce a single output file");
}

#[test]
fn value_test_to_value_label_allow_files_single() {
    check_to_value_label_allow_files_single();
}

#[test]
fn attr_tests_test_to_value_label_allow_files_single() {
    check_to_value_label_allow_files_single();
}

#[test]
fn allow_files_accepts_extension_with_or_without_dot() {
    let bare = AllowFiles::Extensions(vec![s("cc")]);
    let dotted = AllowFiles::Extensions(vec![s(".cc")]);
    assert!(bare.validate("foo/file.cc").is_ok());
    assert!(dotted.validate("foo/file.cc").is_ok());
    assert!(bare.validate("foo/file.h").is_err());
    assert!(dotted.validate("foo/file.h").is_err());
    assert!(AllowFiles::Extensions(vec![s("")]).validate("foo/BUILD").is_ok());
    assert!(bare.validate("foo/BUILD").is_err());
    assert!(AllowFiles::All.validate("foo/file.h").is_ok());
    assert!(AllowFiles::NoneValue.validate("foo/file.h").is_err());
}

#[test]
fn extension_allowed_reads_each_entry() {
    let exts = vec![s("h"), s(".cc")];
    assert!(extension_allowed(&exts, Some("h")));
    assert!(extension_allowed(&exts, Some("cc")));
    assert!(!extension_allowed(&exts, Some("c")));
    assert!(!extension_allowed(&exts, None));
    assert!(extension_allowed(&vec![s("")], None));
}

#[test]
fn disallowed_extension_message() {
    let err = AllowFiles::Extensions(vec![s(".cc")]).validate("foo/file.h").err().unwrap();
    assert_eq!(
        err.message(),
        "File \"\"foo/file.h\"\" has disallowed extension, allowed extensions are: [\".cc\"]"
    );
}

#[test]
fn extension_is_read_from_the_file_name() {
    let empty = AllowFiles::Extensions(vec![s("")]);
    // A dot in a directory name is no extension of the file.
    assert!(empty.validate("dir.d/BUILD").is_ok());
    // A leading dot alone is no extension.
    assert!(empty.validate("foo/.bashrc").is_ok());
    // The extension is what follows the final dot.
    assert!(AllowFiles::Extensions(vec![s("gz")]).validate("foo/a.tar.gz").is_ok());
    assert!(AllowFiles::Extensions(vec![s("tar")]).validate("foo/a.tar.gz").is_err());
}
