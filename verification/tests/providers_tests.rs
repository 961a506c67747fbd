use gn_starlark::args::ArgsItem;
use gn_starlark::depset::{DepsetStore, Order};
use gn_starlark::providers::{
    load_builtin_providers, provider, BuiltinIds, Error, PKind, PValue, ProviderInstance,
    ProviderType, ProviderValue, Providers, TargetProviders, TypeId, TypeRegistry,
};
use gn_starlark::types::{File, Item};

fn pv(kind: PKind, repr: &str) -> PValue {
    PValue { kind, repr: repr.to_string() }
}

fn pstr(s: &str) -> PValue {
    pv(PKind::Str(s.to_string()), &format!("{:?}", s))
}

fn pint(i: i64) -> PValue {
    pv(PKind::Other("int".to_string()), &i.to_string())
}

fn fields(names: &[&str]) -> PValue {
    pv(PKind::List(names.iter().map(|n| pstr(n)).collect()), "[...]")
}

fn exported(reg: &mut TypeRegistry, names: &[&str], name: &str) -> ProviderType {
    let mut t = provider(&fields(names), reg).unwrap();
    t.export_as(name).unwrap();
    t
}

#[test]
fn test_provider_type() {
    let mut reg = TypeRegistry::new();
    // A provider type must be exported before it is called.
    let t = provider(&fields(&["a"]), &mut reg).unwrap();
    assert_eq!(
        t.invoke(vec![Some(pint(1))]).err().unwrap().message(),
        "The result of provider() must be assigned to a variable"
    );

    let t = exported(&mut reg, &["a"], "PInfo");
    let inst = t.invoke(vec![Some(pint(1))]).unwrap();
    assert_eq!(inst.get_attr("a").unwrap().repr, "1");

    // Fields given as a dict are read by its keys.
    let t = exported(&mut reg, &["a"], "PInfo");
    let inst = t.invoke(vec![Some(pint(42))]).unwrap();
    assert_eq!(inst.get_attr("a").unwrap().repr, "42");

    assert_eq!(
        provider(&pint(1), &mut reg).err().unwrap().message(),
        "Provider fields must be an iterable"
    );
    assert_eq!(
        provider(&fields(&["a", "a"]), &mut reg).err().unwrap().message(),
        "Duplicate field name: a"
    );
    let mut p = provider(&fields(&["a"]), &mut reg).unwrap();
    assert_eq!(
        p.export_as("p").unwrap_err().message(),
        "Provider name must end with 'Info' (got 'p')"
    );
}

#[test]
fn test_provider_instance() {
    let mut reg = TypeRegistry::new();
    let t = exported(&mut reg, &["first", "second", "third"], "MyInfo");
    let info = t.invoke(vec![Some(pint(1)), None, Some(pint(3))]).unwrap();

    assert_eq!(info.name, "MyInfo");
    assert_eq!(info.repr(), "MyInfo(first = 1, third = 3)");
    assert_eq!(info.dir_attr(), vec!["first".to_string(), "third".to_string()]);

    // Declared and set.
    assert_eq!(info.get_attr("first").unwrap().repr, "1");
    // Declared but unset.
    assert!(info.get_attr("second").is_none());
    // Not declared.
    assert!(info.get_attr("nonexistent").is_none());
}

#[test]
fn test_unpack_provider_instance() {
    let mut reg = TypeRegistry::new();
    let first = exported(&mut reg, &["a"], "FirstInfo");
    let second = exported(&mut reg, &["a"], "SecondInfo");
    let p0 = first.invoke(vec![Some(pint(1))]).unwrap();
    let p1 = second.invoke(vec![Some(pint(2))]).unwrap();
    let p2 = first.invoke(vec![Some(pint(3))]).unwrap();
    assert!(p0.provider_type_id() == p2.provider_type_id());
    assert!(p0.provider_type_id() != p1.provider_type_id());

    let t = exported(&mut reg, &["a", "b", "c"], "PInfo");
    let inst = t.invoke(vec![Some(pint(1)), None, Some(pint(3))]).unwrap();
    assert_eq!(inst.values[0], Some(pint(1)));
    assert_eq!(inst.values[1], None);
    assert_eq!(inst.values[2], Some(pint(3)));
}

struct World {
    reg: TypeRegistry,
    store: DepsetStore,
    default_info: ProviderType,
    inputs_info: ProviderType,
    subst_info: ProviderType,
}

impl World {
    fn new() -> World {
        let mut reg = TypeRegistry::new();
        let default_info = exported(&mut reg, &["files", "executable"], "DefaultInfo");
        let inputs_info = exported(&mut reg, &["files"], "GnInputsInfo");
        let subst_info = exported(&mut reg, &["substitutions"], "GnSubstitutionsInfo");
        World { reg, store: DepsetStore::new(), default_info, inputs_info, subst_info }
    }

    fn ids(&self) -> BuiltinIds {
        BuiltinIds {
            default_info: self.default_info.id,
            inputs_info: self.inputs_info.id,
            substitutions_info: self.subst_info.id,
        }
    }

    fn file_depset(&mut self, files: &[&str]) -> PValue {
        let items = files.iter().map(|f| Item::File(File::new(f))).collect();
        let d = self.store.depset(items, vec![], Order::Unspecified).unwrap();
        pv(PKind::Depset(d), "depset(...)")
    }

    fn unpack(&self, items: &Vec<ProviderInstance>) -> Result<Providers, Error> {
        Providers::unpack(items, &self.store, &self.ids())
    }
}

#[test]
fn test_providers_unpacking() {
    let mut w = World::new();
    let custom = exported(&mut w.reg, &["foo"], "CustomInfo");
    let a = w.file_depset(&["a"]);
    let b = w.file_depset(&["b"]);
    let subst = pv(
        PKind::Struct(vec![("key".to_string(), pv(PKind::List(vec![pstr("val")]), "[\"val\"]"))]),
        "struct(key = [\"val\"])",
    );
    let items = vec![
        w.default_info.invoke(vec![Some(a), None]).unwrap(),
        w.inputs_info.invoke(vec![Some(b)]).unwrap(),
        w.subst_info.invoke(vec![Some(subst)]).unwrap(),
        custom.invoke(vec![Some(pint(1))]).unwrap(),
    ];
    let providers = w.unpack(&items).unwrap();
    assert_eq!(providers.outputs_phony, Some(File::new("a")));
    assert_eq!(providers.inputs_phony, Some(File::new("b")));
    let keys: Vec<&str> = providers.substitutions.iter().map(|(k, _)| k.as_str()).collect();
    assert_eq!(keys, vec!["key"]);
    assert_eq!(providers.substitutions[0].1, vec![ArgsItem::Str("val".to_string())]);
    assert_eq!(providers.value.len(), 4);
    assert!(providers.value[0].0 == w.default_info.id);
    assert!(providers.value[1].0 == w.inputs_info.id);
    assert!(providers.value[2].0 == w.subst_info.id);

    let providers = w.unpack(&vec![]).unwrap();
    assert_eq!(providers.outputs_phony, None);
    assert_eq!(providers.inputs_phony, None);
    assert!(providers.substitutions.is_empty());
    assert!(providers.value.is_empty());

    let e1 = w.file_depset(&[]);
    let e2 = w.file_depset(&[]);
    let dup = vec![
        w.default_info.invoke(vec![Some(e1), None]).unwrap(),
        w.default_info.invoke(vec![Some(e2), None]).unwrap(),
    ];
    assert_eq!(w.unpack(&dup).err().unwrap().message(), "Duplicate provider: DefaultInfo");
}

#[test]
fn test_providers_unpacking_default_info_errors() {
    let mut w = World::new();
    let items = vec![w.default_info.invoke(vec![Some(pstr("not-a-depset")), None]).unwrap()];
    assert_eq!(
        w.unpack(&items).err().unwrap().message(),
        "DefaultInfo.files must be a depset of files, got \"not-a-depset\""
    );
    let d = w.store.depset(vec![Item::Str("not-a-file".to_string())], vec![], Order::Unspecified).unwrap();
    let items = vec![w.default_info.invoke(vec![Some(pv(PKind::Depset(d), "depset(...)")), None]).unwrap()];
    assert_eq!(
        w.unpack(&items).err().unwrap().message(),
        "DefaultInfo.files must be a depset of files, got depset(...)"
    );
}

#[test]
fn test_providers_unpacking_inputs_info_errors() {
    let mut w = World::new();
    let items = vec![w.inputs_info.invoke(vec![Some(pstr("not-a-depset"))]).unwrap()];
    assert_eq!(
        w.unpack(&items).err().unwrap().message(),
        "GnInputsInfo.files must be a depset of files, got \"not-a-depset\""
    );
    let d = w.store.depset(vec![Item::Str("not-a-file".to_string())], vec![], Order::Unspecified).unwrap();
    let items = vec![w.inputs_info.invoke(vec![Some(pv(PKind::Depset(d), "depset(...)"))]).unwrap()];
    assert_eq!(
        w.unpack(&items).err().unwrap().message(),
        "GnInputsInfo.files must be a depset of files, got depset(...)"
    );
}

#[test]
fn test_providers_unpacking_substitutions_info_errors() {
    let w = World::new();
    let dict = pv(PKind::Other("dict".to_string()), "{\"key\": [\"val\"]}");
    let items = vec![w.subst_info.invoke(vec![Some(dict)]).unwrap()];
    assert_eq!(
        w.unpack(&items).err().unwrap().message(),
        "GnSubstitutionsInfo.substitutions must be a struct, got {\"key\": [\"val\"]}"
    );

    let not_list = pv(PKind::Struct(vec![("key".to_string(), pstr("not-a-list"))]), "struct(...)");
    let items = vec![w.subst_info.invoke(vec![Some(not_list)]).unwrap()];
    assert_eq!(
        w.unpack(&items).err().unwrap().message(),
        "Expected `list`, but got `string (repr: \"not-a-list\")`"
    );

    let bad_item = pv(
        PKind::Struct(vec![("key".to_string(), pv(PKind::List(vec![pint(123)]), "[123]"))]),
        "struct(...)",
    );
    let items = vec![w.subst_info.invoke(vec![Some(bad_item)]).unwrap()];
    assert_eq!(
        w.unpack(&items).err().unwrap().message(),
        "Expected `Args | str`, but got `int (repr: 123)`"
    );
}

#[test]
fn test_builtin_providers() {
    let mut reg = TypeRegistry::new();
    let mut store = DepsetStore::new();
    let b = load_builtin_providers(&mut store, &mut reg);
    assert_eq!(b.default_info.name.as_deref(), Some("DefaultInfo"));
    assert_eq!(b.gn_inputs_info.name.as_deref(), Some("GnInputsInfo"));
    assert_eq!(b.gn_substitution_info.name.as_deref(), Some("GnSubstitutionInfo"));
    assert_eq!(b.default_info.fields, vec!["files".to_string(), "executable".to_string()]);
    assert_eq!(b.empty_default_info.dir_attr(), vec!["files".to_string(), "executable".to_string()]);
    assert!(b.default_info.id != b.gn_inputs_info.id);
}

#[test]
fn providers_target_providers_of_a_rule() {
    let mut reg = TypeRegistry::new();
    let mut store = DepsetStore::new();
    let b = load_builtin_providers(&mut store, &mut reg);
    let d = store
        .depset(vec![Item::File(File::new("x.o")), Item::File(File::new("y.o"))], vec![], Order::Unspecified)
        .unwrap();
    let items = vec![b.default_info.invoke(vec![Some(pv(PKind::Depset(d), "depset(...)")), None]).unwrap()];
    let tp = TargetProviders::new(&items, &store, &b).unwrap();
    assert_eq!(tp.output_files(), &vec![File::new("x.o"), File::new("y.o")]);
    assert_eq!(tp.get(&b.default_info.id), Some(ProviderValue::Given(0)));
    assert!(!tp.contains_key(&b.gn_inputs_info.id));
    assert!(tp.extra_inputs_phony().is_none());

    // Without DefaultInfo, the target gets the empty one.
    let tp = TargetProviders::new(&vec![], &store, &b).unwrap();
    assert_eq!(tp.get(&b.default_info.id), Some(ProviderValue::EmptyDefaultInfo));
    assert!(tp.output_files().is_empty());

    let bad = vec![b.gn_substitution_info.invoke(vec![Some(pint(1))]).unwrap()];
    assert_eq!(
        TargetProviders::new(&bad, &store, &b).err().unwrap().message(),
        "substitutions must be a struct, got type: int"
    );
}

#[test]
fn providers_of_a_gn_target() {
    let mut reg = TypeRegistry::new();
    let mut store = DepsetStore::new();
    let b = load_builtin_providers(&mut store, &mut reg);
    let tp = TargetProviders::new_cxx(vec![File::new("lib.a")], &b, &mut store);
    assert_eq!(tp.output_files(), &vec![File::new("lib.a")]);
    assert!(tp.contains_key(&b.default_info.id));
    assert!(tp.substitutions().is_empty());
}

#[test]
fn test_provider_unpack() {
    let mut reg = TypeRegistry::new();
    let t = provider(&fields(&["a"]), &mut reg).unwrap();
    assert!(t
        .invoke(vec![Some(pint(1))])
        .err()
        .unwrap()
        .message()
        .contains("assigned to a variable"));

    let p = exported(&mut reg, &["a"], "PInfo");
    assert_eq!(p.invoke(vec![Some(pint(1))]).unwrap().get_attr("a").unwrap().repr, "1");

    let p1 = exported(&mut reg, &["a"], "P1Info");
    let p2 = exported(&mut reg, &["a"], "P2Info");
    let items = vec![
        p1.invoke(vec![Some(pint(1))]).unwrap(),
        p2.invoke(vec![Some(pint(2))]).unwrap(),
        p1.invoke(vec![Some(pint(3))]).unwrap(),
    ];
    assert_eq!(items[0].provider_type_id(), items[2].provider_type_id());
    assert_ne!(items[0].provider_type_id(), items[1].provider_type_id());
    assert!(p1.same_type(&p1));
    assert!(!p1.same_type(&p2));
}

#[test]
fn builtin_provider_ids_are_distinct() {
    let mut reg = TypeRegistry::new();
    let mut store = DepsetStore::new();
    let b = load_builtin_providers(&mut store, &mut reg);
    assert!(b.default_info.id != b.gn_inputs_info.id);
    assert!(b.default_info.id != b.gn_substitution_info.id);
    assert!(b.gn_inputs_info.id != b.gn_substitution_info.id);
    assert_eq!(b.gn_substitution_info.id, TypeId(1));
    assert_eq!(b.gn_inputs_info.id, TypeId(2));
    assert_eq!(b.default_info.id, TypeId(3));
    assert_eq!(reg.next, 4);
    let builtin_ids = vec![b.default_info.id, b.gn_inputs_info.id, b.gn_substitution_info.id];
    let t = provider(&fields(&["files"]), &mut reg).unwrap();
    assert!(!builtin_ids.contains(&t.id));
    assert!(provider(&fields(&["a", "a"]), &mut reg).is_err());
    assert_eq!(reg.next, 5);
    let u = provider(&fields(&["files"]), &mut reg).unwrap();
    assert!(u.id != t.id);
}
