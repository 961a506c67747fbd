//! Rules: declaring a rule from its attribute schemas, and what invoking a
//! rule decides (the attributes of the target it declares, its name, and the
//! dependencies to register).
use vstd::prelude::*;
use vstd::string::*;

use crate::attr::{attr_create_spec, AllowFilesSchemaV, Attr, AttrSchema, AttrV};
use crate::attr_value::{labels_of, occurrences};
use crate::types::{strs_view, Label, Value};

verus! {

/// Errors of rule declaration and invocation.
#[derive(PartialEq, Eq, Debug)]
pub enum Error {
    RuleMustBeNamed,
    ParentMustBeARule,
    ReservedAttribute(String),
    OnlyLabelTypesMayBeOverridden(String),
    AttributeTypeMismatch(String),
    /// A rule that is no extension must be given the target's name.
    CustomRuleNameRequired,
    /// Targets can only be declared while a GN scope is evaluated.
    RequiresMacro,
    /// An attribute could not be created.
    Attr(crate::attr::Error),
}

/// The parameters a rule takes: positional-only, positional-or-named, and
/// named-only ones (each attribute, required unless it has a default).
#[derive(PartialEq, Eq, Debug)]
pub struct Signature {
    pub positional_only: Vec<String>,
    pub positional_or_named: Vec<String>,
    pub named_only: Vec<(String, bool)>,
}

/// A rule: its implementation, its attributes by name, whether it extends
/// existing targets, its signature, and the fields of `ctx.attr`,
/// `ctx.file` and `ctx.files`.
pub struct RuleGen<F> {
    pub implementation: F,
    pub attrs: Vec<(String, AttrSchema)>,
    pub is_extension: bool,
    pub signature: Signature,
    pub attr_fields: Vec<String>,
    pub file_fields: Vec<String>,
    pub files_fields: Vec<String>,
}

/// The names of the attributes.
pub open spec fn attr_names(attrs: Seq<(String, AttrSchema)>) -> Seq<Seq<char>> {
    attrs.map_values(|e: (String, AttrSchema)| e.0@)
}

/// The names of the attributes that accept a single file (`ctx.file`).
pub open spec fn single_file_names(attrs: Seq<(String, AttrSchema)>) -> Seq<Seq<char>>
    decreases attrs.len(),
{
    if attrs.len() == 0 {
        Seq::empty()
    } else {
        let p = single_file_names(attrs.drop_last());
        if attrs.last().1@.allow_files is Single {
            p.push(attrs.last().0@)
        } else {
            p
        }
    }
}

/// The names of the attributes that accept files (`ctx.files`).
pub open spec fn files_names(attrs: Seq<(String, AttrSchema)>) -> Seq<Seq<char>>
    decreases attrs.len(),
{
    if attrs.len() == 0 {
        Seq::empty()
    } else {
        let p = files_names(attrs.drop_last());
        if !(attrs.last().1@.allow_files is NoneValue) {
            p.push(attrs.last().0@)
        } else {
            p
        }
    }
}

/// The named-only parameters: each attribute, required unless it has a
/// default.
pub open spec fn named_params(attrs: Seq<(String, AttrSchema)>) -> Seq<(Seq<char>, bool)> {
    attrs.map_values(|e: (String, AttrSchema)| (e.0@, e.1@.default is None))
}

/// Whether an attribute is named `name`.
pub open spec fn has_name_attr(attrs: Seq<(String, AttrSchema)>) -> bool {
    attr_names(attrs).contains("name"@)
}

/// Declares a rule (or, with `is_extension`, a rule extension) with the
/// implementation `implementation` and the attributes `attrs` (a dict: no
/// name occurs twice). An attribute may not be called `name`.
pub fn common_rule<F>(implementation: F, attrs: Option<Vec<(String, AttrSchema)>>, is_extension: bool) -> (r:
    Result<RuleGen<F>, Error>)
    requires
        attrs matches Some(a) ==> crate::seqs::distinct(attr_names(a@)),
    ensures
        ({
            let a = match attrs {
                Some(a) => a@,
                None => Seq::empty(),
            };
            if has_name_attr(a) {
                r matches Err(Error::ReservedAttribute(n)) && n@ == "name"@
            } else {
                r matches Ok(rule) && {
                    &&& rule.attrs@ == a
                    &&& rule.is_extension == is_extension
                    &&& rule.implementation == implementation
                    &&& strs_view(rule.signature.positional_only@) == (if is_extension {
                        seq!["target"@]
                    } else {
                        Seq::empty()
                    })
                    &&& strs_view(rule.signature.positional_or_named@) == (if is_extension {
                        Seq::empty()
                    } else {
                        seq!["name"@]
                    })
                    &&& rule.signature.named_only.deep_view() == named_params(a)
                    &&& strs_view(rule.attr_fields@) == attr_names(a)
                    &&& strs_view(rule.file_fields@) == single_file_names(a)
                    &&& strs_view(rule.files_fields@) == files_names(a)
                }
            }
        }),
{
    let list = match attrs {
        Some(a) => a,
        None => Vec::new(),
    };
    let ghost a = list@;
    assert(a == match attrs {
        Some(x) => x@,
        None => Seq::<(String, AttrSchema)>::empty(),
    });
    proof {
        reveal_strlit("name");
        reveal_strlit("target");
    }
    let mut names: Vec<String> = Vec::new();
    let mut file_fields: Vec<String> = Vec::new();
    let mut files_fields: Vec<String> = Vec::new();
    let mut named_only: Vec<(String, bool)> = Vec::new();
    let name_key = String::from_str("name");
    let mut i: usize = 0;
    assert(a.take(0) =~= Seq::<(String, AttrSchema)>::empty());
    while i < list.len()
        invariant
            i <= a.len(),
            a == list@,
            a == match attrs {
                Some(x) => x@,
                None => Seq::<(String, AttrSchema)>::empty(),
            },
            name_key@ == "name"@,
            strs_view(names@) == attr_names(a.take(i as int)),
            strs_view(file_fields@) == single_file_names(a.take(i as int)),
            strs_view(files_fields@) == files_names(a.take(i as int)),
            named_only.deep_view() == named_params(a.take(i as int)),
            !attr_names(a.take(i as int)).contains("name"@),
        decreases a.len() - i,
    {
        let ghost t = a.take(i as int + 1);
        assert(t.drop_last() =~= a.take(i as int));
        assert(t.last() == a[i as int]);
        let (n, schema) = &list[i];
        if *n == name_key {
            proof {
                assert(attr_names(a)[i as int] == "name"@);
                assert(has_name_attr(a));
            }
            return Err(Error::ReservedAttribute(String::from_str("name")));
        }
        let ghost nb = strs_view(names@);
        names.push(n.clone());
        assert(strs_view(names@) =~= attr_names(t)) by {
            assert(attr_names(t) =~= attr_names(t.drop_last()).push(n@));
        }
        let required = schema.default.is_none();
        let ghost ob = named_only.deep_view();
        named_only.push((n.clone(), required));
        assert(named_only.deep_view() =~= named_params(t)) by {
            assert(named_params(t) =~= named_params(t.drop_last()).push((n@, schema@.default is None)));
        }
        match &schema.allow_files {
            crate::attr::AllowFilesSchema::NoneValue => {},
            crate::attr::AllowFilesSchema::Single(_) => {
                let ghost fb = strs_view(file_fields@);
                file_fields.push(n.clone());
                assert(strs_view(file_fields@) =~= fb.push(n@));
                let ghost gb = strs_view(files_fields@);
                files_fields.push(n.clone());
                assert(strs_view(files_fields@) =~= gb.push(n@));
            },
            crate::attr::AllowFilesSchema::Many(_) => {
                let ghost gb = strs_view(files_fields@);
                files_fields.push(n.clone());
                assert(strs_view(files_fields@) =~= gb.push(n@));
            },
        }
        assert(!attr_names(t).contains("name"@)) by {
            assert(attr_names(t) =~= attr_names(t.drop_last()).push(n@));
        }
        i = i + 1;
    }
    assert(a.take(a.len() as int) =~= a);
    let positional_only = if is_extension {
        vec![String::from_str("target")]
    } else {
        Vec::new()
    };
    let positional_or_named = if is_extension {
        Vec::new()
    } else {
        vec![String::from_str("name")]
    };
    assert(strs_view(positional_only@) =~= (if is_extension {
        seq!["target"@]
    } else {
        Seq::empty()
    }));
    assert(strs_view(positional_or_named@) =~= (if is_extension {
        Seq::empty()
    } else {
        seq!["name"@]
    }));
    Ok(
        RuleGen {
            implementation,
            attrs: list,
            is_extension,
            signature: Signature { positional_only, positional_or_named, named_only },
            attr_fields: names,
            file_fields,
            files_fields,
        },
    )
}


/// The attributes of a target from the values given for each attribute
/// (`None` where one is not given), in order; the first error stops.
pub open spec fn create_all(
    attrs: Seq<(String, AttrSchema)>,
    values: Seq<Option<Value>>,
    pkg: Seq<char>,
) -> Result<Seq<AttrV>, crate::attr::ErrorV>
    decreases attrs.len(),
{
    if attrs.len() == 0 || values.len() < attrs.len() {
        Ok(Seq::empty())
    } else {
        match create_all(attrs.drop_last(), values, pkg) {
            Err(e) => Err(e),
            Ok(p) => {
                let (n, schema) = attrs.last();
                let v = values[attrs.len() - 1];
                let given = match v {
                    Some(x) => Some(&x),
                    None => None,
                };
                match attr_create_spec(n@, schema@, given, pkg) {
                    Ok(a) => Ok(p.push(a)),
                    Err(e) => Err(e),
                }
            },
        }
    }
}

/// The dependencies of a target: the labels of its attributes, in order.
pub open spec fn dependencies_of(attrs: Seq<Attr>) -> Seq<(Seq<char>, Seq<char>)>
    decreases attrs.len(),
{
    if attrs.len() == 0 {
        Seq::empty()
    } else {
        dependencies_of(attrs.drop_last()) + labels_of(occurrences(attrs.last()))
    }
}

/// The target a rule invocation declares: an existing one that an extension
/// extends, or a new one by name.
#[derive(PartialEq, Eq, Debug)]
pub enum TargetChoice {
    Extend,
    Create(String),
}

/// What a rule invocation decides: the target, its attributes, and the
/// dependencies to register for it.
pub struct Invocation {
    pub target: TargetChoice,
    pub attrs: Vec<Attr>,
    pub dependencies: Vec<Label>,
}

proof fn lemma_create_all_err(attrs: Seq<(String, AttrSchema)>, values: Seq<Option<Value>>, pkg: Seq<char>, k: int)
    requires
        0 <= k <= attrs.len(),
        values.len() >= attrs.len(),
        create_all(attrs.take(k), values, pkg) is Err,
    ensures
        create_all(attrs, values, pkg) == create_all(attrs.take(k), values, pkg),
    decreases attrs.len() - k,
{
    if k < attrs.len() {
        assert(attrs.take(k + 1).drop_last() =~= attrs.take(k));
        lemma_create_all_err(attrs, values, pkg, k + 1);
    } else {
        assert(attrs.take(k) =~= attrs);
    }
}

/// The views of a sequence of attributes.
pub open spec fn attrs_view(s: Seq<Attr>) -> Seq<AttrV> {
    s.map_values(|a: Attr| a@)
}

impl<F> RuleGen<F> {
    /// Invokes the rule: creates the target's attributes from the values
    /// given for each attribute (`values[i]` for the `i`th, in the package
    /// `package`); then, inside a GN scope only (`in_macro`), chooses the
    /// target (an extension extends the target it is given, a rule declares
    /// the target named by its first argument) and lists the dependencies
    /// to register.
    pub fn invoke(&self, first_arg: &Value, values: &Vec<Option<Value>>, package: &str, in_macro: bool) -> (r:
        Result<Invocation, Error>)
        requires
            values@.len() == self.attrs@.len(),
        ensures
            match create_all(self.attrs@, values@, package@) {
                Err(e) => r matches Err(Error::Attr(x)) && x@ == e,
                Ok(created) => if !in_macro {
                    r == Err::<Invocation, Error>(Error::RequiresMacro)
                } else if !self.is_extension && !(first_arg is Str) {
                    r == Err::<Invocation, Error>(Error::CustomRuleNameRequired)
                } else {
                    r matches Ok(inv) && {
                        &&& attrs_view(inv.attrs@) == created
                        &&& inv.dependencies.deep_view() == dependencies_of(inv.attrs@)
                        &&& if self.is_extension {
                            inv.target == TargetChoice::Extend
                        } else {
                            inv.target matches TargetChoice::Create(n) && first_arg matches Value::Str(s)
                                && n@ == s@
                        }
                    }
                },
            },
    {
        let ghost a = self.attrs@;
        let mut created: Vec<Attr> = Vec::new();
        let mut i: usize = 0;
        assert(a.take(0) =~= Seq::<(String, AttrSchema)>::empty());
        assert(attrs_view(created@) =~= Seq::<AttrV>::empty());
        while i < self.attrs.len()
            invariant
                i <= a.len(),
                a == self.attrs@,
                values@.len() == a.len(),
                create_all(a.take(i as int), values@, package@) == Ok::<Seq<AttrV>, crate::attr::ErrorV>(
                    attrs_view(created@),
                ),
            decreases a.len() - i,
        {
            let ghost t = a.take(i as int + 1);
            assert(t.drop_last() =~= a.take(i as int));
            assert(t.last() == a[i as int]);
            let (n, schema) = &self.attrs[i];
            let given = match &values[i] {
                Some(x) => Some(x),
                None => None,
            };
            match Attr::create(n.as_str(), schema, given, package) {
                Ok(attr) => {
                    let ghost before = attrs_view(created@);
                    created.push(attr);
                    assert(attrs_view(created@) =~= before.push(attr@));
                },
                Err(e) => {
                    proof {
                        lemma_create_all_err(a, values@, package@, i as int + 1);
                    }
                    return Err(Error::Attr(e));
                },
            }
            i = i + 1;
        }
        assert(a.take(a.len() as int) =~= a);
        if !in_macro {
            return Err(Error::RequiresMacro);
        }
        let target = if self.is_extension {
            TargetChoice::Extend
        } else {
            match first_arg {
                Value::Str(s) => TargetChoice::Create(s.clone()),
                _ => {
                    return Err(Error::CustomRuleNameRequired);
                },
            }
        };
        let mut deps: Vec<Label> = Vec::new();
        let mut j: usize = 0;
        assert(created@.take(0) =~= Seq::<Attr>::empty());
        assert(deps.deep_view() =~= Seq::<(Seq<char>, Seq<char>)>::empty());
        while j < created.len()
            invariant
                j <= created@.len(),
                deps.deep_view() == dependencies_of(created@.take(j as int)),
            decreases created.len() - j,
        {
            let ghost t = created@.take(j as int + 1);
            assert(t.drop_last() =~= created@.take(j as int));
            assert(t.last() == created@[j as int]);
            let more = created[j].register_dependencies();
            let ghost before = deps.deep_view();
            let mut k: usize = 0;
            while k < more.len()
                invariant
                    k <= more@.len(),
                    deps.deep_view() == before + more.deep_view().take(k as int),
                decreases more.len() - k,
            {
                let ghost b2 = deps.deep_view();
                deps.push(more[k].clone());
                assert(deps.deep_view() =~= b2.push(more@[k as int]@));
                assert(more.deep_view().take(k as int + 1) =~= more.deep_view().take(k as int).push(
                    more@[k as int]@,
                ));
                k = k + 1;
            }
            assert(more.deep_view().take(more@.len() as int) =~= more.deep_view());
            j = j + 1;
        }
        assert(created@.take(created@.len() as int) =~= created@);
        Ok(Invocation { target, attrs: created, dependencies: deps })
    }
}

/// A rule as GN invokes it directly: its attributes, the built-in target
/// type it stands for (if any) and its name, once it has one.
pub struct FrozenRule {
    pub attrs: Vec<(String, AttrSchema)>,
    pub builtin: Option<String>,
    pub name: Option<String>,
}

/// The target type of a rule: the built-in's, or `starlark`.
pub open spec fn target_type_of(builtin: Option<String>) -> Seq<char> {
    match builtin {
        Some(b) => b@,
        None => "starlark"@,
    }
}

impl FrozenRule {
    /// The rule of a built-in target type: no attributes, named like it.
    pub fn new_builtin(builtin: &str) -> (r: FrozenRule)
        ensures
            r.attrs@.len() == 0,
            r.builtin matches Some(b) && b@ == builtin@,
            r.name matches Some(n) && n@ == builtin@,
    {
        FrozenRule {
            attrs: Vec::new(),
            builtin: Some(String::from_str(builtin)),
            name: Some(String::from_str(builtin)),
        }
    }

    /// Invokes the rule from GN: the attributes from the values the scope
    /// holds for each (`values[i]` for the `i`th), and the type of the target
    /// to create.
    pub fn invoke_native(&self, values: &Vec<Option<Value>>, package: &str) -> (r: Result<
        (String, Vec<Attr>),
        crate::attr::Error,
    >)
        requires
            values@.len() == self.attrs@.len(),
        ensures
            match create_all(self.attrs@, values@, package@) {
                Err(e) => r matches Err(x) && x@ == e,
                Ok(created) => r matches Ok((t, v)) && t@ == target_type_of(self.builtin) && attrs_view(v@)
                    == created,
            },
    {
        let ghost a = self.attrs@;
        let mut created: Vec<Attr> = Vec::new();
        let mut i: usize = 0;
        assert(a.take(0) =~= Seq::<(String, AttrSchema)>::empty());
        assert(attrs_view(created@) =~= Seq::<AttrV>::empty());
        while i < self.attrs.len()
            invariant
                i <= a.len(),
                a == self.attrs@,
                values@.len() == a.len(),
                create_all(a.take(i as int), values@, package@) == Ok::<Seq<AttrV>, crate::attr::ErrorV>(
                    attrs_view(created@),
                ),
            decreases a.len() - i,
        {
            let ghost t = a.take(i as int + 1);
            assert(t.drop_last() =~= a.take(i as int));
            assert(t.last() == a[i as int]);
            let (n, schema) = &self.attrs[i];
            let given = match &values[i] {
                Some(x) => Some(x),
                None => None,
            };
            match Attr::create(n.as_str(), schema, given, package) {
                Ok(attr) => {
                    let ghost before = attrs_view(created@);
                    created.push(attr);
                    assert(attrs_view(created@) =~= before.push(attr@));
                },
                Err(e) => {
                    proof {
                        lemma_create_all_err(a, values@, package@, i as int + 1);
                    }
                    return Err(e);
                },
            }
            i = i + 1;
        }
        assert(a.take(a.len() as int) =~= a);
        let t = match &self.builtin {
            Some(b) => b.clone(),
            None => String::from_str("starlark"),
        };
        Ok((t, created))
    }

    /// Invokes the rule from Starlark: only a named rule can be invoked, and
    /// only while a GN scope is evaluated; then the attributes are created as
    /// in [`FrozenRule::invoke_native`]. The named arguments that a built-in
    /// does not declare go on to the target's scope with the call.
    pub fn invoke(&self, values: &Vec<Option<Value>>, package: &str, in_macro: bool) -> (r: Result<
        (String, Vec<Attr>),
        Error,
    >)
        requires
            values@.len() == self.attrs@.len(),
        ensures
            self.name is None ==> r == Err::<(String, Vec<Attr>), Error>(Error::RuleMustBeNamed),
            self.name is Some && !in_macro ==> r == Err::<(String, Vec<Attr>), Error>(Error::RequiresMacro),
            self.name is Some && in_macro ==> match create_all(self.attrs@, values@, package@) {
                Err(e) => r matches Err(Error::Attr(x)) && x@ == e,
                Ok(created) => r matches Ok((t, v)) && t@ == target_type_of(self.builtin) && attrs_view(v@)
                    == created,
            },
    {
        if self.name.is_none() {
            return Err(Error::RuleMustBeNamed);
        }
        if !in_macro {
            return Err(Error::RequiresMacro);
        }
        match self.invoke_native(values, package) {
            Ok(x) => Ok(x),
            Err(e) => Err(Error::Attr(e)),
        }
    }

    /// The rule as Starlark prints it: `<rule: name>`, or `<anonymous rule>`
    /// before it is named.
    pub fn repr(&self) -> (r: String)
        ensures
            r@ == match self.name {
                Some(n) => "<rule: "@ + n@ + ">"@,
                None => "<anonymous rule>"@,
            },
    {
        match &self.name {
            Some(n) => {
                let mut r = String::from_str("<rule: ");
                r.append(n.as_str());
                r.append(">");
                r
            },
            None => String::from_str("<anonymous rule>"),
        }
    }
}

impl<F> RuleGen<F> {
    /// The rule as Starlark prints it.
    pub fn repr(&self) -> (r: String)
        ensures
            r@ == (if self.is_extension {
                "<rule_extension>"@
            } else {
                "<rule>"@
            }),
    {
        if self.is_extension {
            String::from_str("<rule_extension>")
        } else {
            String::from_str("<rule>")
        }
    }
}


/// The message of a rule error.
pub open spec fn error_message(e: Error) -> Seq<char> {
    match e {
        Error::RuleMustBeNamed => "Rule must be assigned to a global variable to be used"@,
        Error::ParentMustBeARule => "Parent must be a rule"@,
        Error::ReservedAttribute(a) => "Attribute '"@ + a@ + "' is reserved"@,
        Error::OnlyLabelTypesMayBeOverridden(a) => "attribute '"@ + a@
            + "': only attr.label and attr.label_list types may be overridden"@,
        Error::AttributeTypeMismatch(a) => "attribute '"@ + a@ + "': types of parent and child's attributes mismatch"@,
        Error::CustomRuleNameRequired => "A rule must be given the name of the target it declares"@,
        Error::RequiresMacro => "Targets can only be declared while a GN scope is evaluated"@,
        Error::Attr(e) => crate::attr::error_message(e@),
    }
}

fn wrap(a: &str, b: &str, c: &str) -> (r: String)
    ensures
        r@ == a@ + b@ + c@,
{
    let mut r = String::from_str(a);
    r.append(b);
    r.append(c);
    r
}

impl Error {
    /// The error's message.
    pub fn message(&self) -> (r: String)
        ensures
            r@ == error_message(*self),
    {
        match self {
            Error::RuleMustBeNamed => String::from_str("Rule must be assigned to a global variable to be used"),
            Error::ParentMustBeARule => String::from_str("Parent must be a rule"),
            Error::ReservedAttribute(a) => wrap("Attribute '", a.as_str(), "' is reserved"),
            Error::OnlyLabelTypesMayBeOverridden(a) => wrap(
                "attribute '",
                a.as_str(),
                "': only attr.label and attr.label_list types may be overridden",
            ),
            Error::AttributeTypeMismatch(a) => wrap(
                "attribute '",
                a.as_str(),
                "': types of parent and child's attributes mismatch",
            ),
            Error::CustomRuleNameRequired => String::from_str(
                "A rule must be given the name of the target it declares",
            ),
            Error::RequiresMacro => String::from_str("Targets can only be declared while a GN scope is evaluated"),
            Error::Attr(e) => e.message(),
        }
    }
}


/// Law: every attribute that accepts a single file also accepts files: the
/// fields of `ctx.file` are among those of `ctx.files`, and both are among
/// the attribute names.
pub proof fn lemma_file_fields_among_files(attrs: Seq<(String, AttrSchema)>)
    ensures
        forall|n: Seq<char>| single_file_names(attrs).contains(n) ==> files_names(attrs).contains(n),
        forall|n: Seq<char>| files_names(attrs).contains(n) ==> attr_names(attrs).contains(n),
    decreases attrs.len(),
{
    if attrs.len() > 0 {
        let t = attrs.drop_last();
        lemma_file_fields_among_files(t);
        let last = attrs.last();
        assert(attr_names(attrs) =~= attr_names(t).push(last.0@));
        assert forall|n: Seq<char>| single_file_names(attrs).contains(n) implies files_names(attrs).contains(n) by {
            let sf = single_file_names(t);
            let ff = files_names(t);
            if sf.contains(n) {
                let k = choose|k: int| 0 <= k < ff.len() && ff[k] == n;
                if !(last.1@.allow_files is NoneValue) {
                    assert(files_names(attrs)[k] == n);
                }
            } else {
                assert(n == last.0@);
                assert(files_names(attrs).last() == n);
            }
        }
        assert forall|n: Seq<char>| files_names(attrs).contains(n) implies attr_names(attrs).contains(n) by {
            let ff = files_names(t);
            let an = attr_names(t);
            if ff.contains(n) {
                let k = choose|k: int| 0 <= k < an.len() && an[k] == n;
                assert(attr_names(attrs)[k] == n);
            } else {
                assert(n == last.0@);
                assert(attr_names(attrs).last() == n);
            }
        }
    }
}

} // verus!
