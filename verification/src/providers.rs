//! Providers: provider types declared with `provider(fields = ...)`, their
//! instances, and the providers a rule implementation returns for a target.
use vstd::prelude::*;
use vstd::string::*;

use crate::args::{ArgsItem, ArgsItemV};
use crate::attr::{insert_entry, insert_entry_exec, key_index};
use crate::attr_value::build_map;
use crate::depset::{list_spec, DepsetStore, Kind, Order};
use crate::types::{Item, ItemV};
use crate::types::{strs_view, File};

verus! {

/// The identity of a provider type: a number that a [`TypeRegistry`] hands
/// out. Two provider types are the same type exactly when their identities
/// are equal.
#[derive(Clone, Copy, PartialEq, Eq, Structural, Debug, Hash)]
pub struct TypeId(pub u64);

/// Hands out provider type identities, each one new: the identities handed
/// out so far are exactly the numbers below `next`, from 1.
pub struct TypeRegistry {
    pub next: u64,
}

impl TypeRegistry {
    /// A registry that has handed out no identity.
    pub fn new() -> (r: TypeRegistry)
        ensures
            r.next == 1,
    {
        TypeRegistry { next: 1 }
    }

    /// Hands out the next identity, which differs from every identity handed
    /// out before.
    pub fn fresh(&mut self) -> (r: TypeId)
        requires
            old(self).next < u64::MAX,
        ensures
            r.0 == old(self).next,
            final(self).next == old(self).next + 1,
            forall|t: TypeId| t.0 < old(self).next ==> t != r,
    {
        let r = TypeId(self.next);
        self.next = self.next + 1;
        r
    }
}

/// Errors of provider declaration, construction and unpacking.
#[derive(PartialEq, Eq, Debug)]
pub enum Error {
    ExpectedProviderType,
    FieldsMustBeStrings,
    FieldsMustBeIterable,
    DuplicateField(String),
    InvalidProviderName(String),
    ProviderNotExported,
    DuplicateProvider(String),
    ExpectedDefaultInfoRecord,
    ExpectedDefaultInfoFilesDepset,
    /// `DefaultInfo.files` is no depset of files; the value's repr.
    DefaultInfoFilesMustBeFileDepset(String),
    /// `GnInputsInfo.files` is no depset of files; the value's repr.
    GnInputsInfoFilesMustBeFileDepset(String),
    /// `GnSubstitutionsInfo.substitutions` is no struct; the value's repr.
    GnSubstitutionsInfoSubstitutionsMustBeStruct(String),
    /// A substitution is no list; the value's type and repr.
    ExpectedList(String),
    /// A substitution's element is neither a string nor an `Args` object; the
    /// value's type and repr.
    ExpectedArgsOrStr(String),
    InvalidSubstitutionType(String),
    SubstitutionsMustBeStruct(String),
    SubstitutionValueMustBeList(String),
}

/// The mathematical value of an [`Error`].
pub enum ErrorV {
    ExpectedProviderType,
    FieldsMustBeStrings,
    FieldsMustBeIterable,
    DuplicateField(Seq<char>),
    InvalidProviderName(Seq<char>),
    ProviderNotExported,
    DuplicateProvider(Seq<char>),
    ExpectedDefaultInfoRecord,
    ExpectedDefaultInfoFilesDepset,
    DefaultInfoFilesMustBeFileDepset(Seq<char>),
    GnInputsInfoFilesMustBeFileDepset(Seq<char>),
    GnSubstitutionsInfoSubstitutionsMustBeStruct(Seq<char>),
    ExpectedList(Seq<char>),
    ExpectedArgsOrStr(Seq<char>),
    InvalidSubstitutionType(Seq<char>),
    SubstitutionsMustBeStruct(Seq<char>),
    SubstitutionValueMustBeList(Seq<char>),
}

impl View for Error {
    type V = ErrorV;

    open spec fn view(&self) -> ErrorV {
        match self {
            Error::ExpectedProviderType => ErrorV::ExpectedProviderType,
            Error::FieldsMustBeStrings => ErrorV::FieldsMustBeStrings,
            Error::FieldsMustBeIterable => ErrorV::FieldsMustBeIterable,
            Error::DuplicateField(s) => ErrorV::DuplicateField(s@),
            Error::InvalidProviderName(s) => ErrorV::InvalidProviderName(s@),
            Error::ProviderNotExported => ErrorV::ProviderNotExported,
            Error::DuplicateProvider(s) => ErrorV::DuplicateProvider(s@),
            Error::ExpectedDefaultInfoRecord => ErrorV::ExpectedDefaultInfoRecord,
            Error::ExpectedDefaultInfoFilesDepset => ErrorV::ExpectedDefaultInfoFilesDepset,
            Error::DefaultInfoFilesMustBeFileDepset(s) => ErrorV::DefaultInfoFilesMustBeFileDepset(s@),
            Error::GnInputsInfoFilesMustBeFileDepset(s) => ErrorV::GnInputsInfoFilesMustBeFileDepset(s@),
            Error::GnSubstitutionsInfoSubstitutionsMustBeStruct(s) =>
                ErrorV::GnSubstitutionsInfoSubstitutionsMustBeStruct(s@),
            Error::ExpectedList(s) => ErrorV::ExpectedList(s@),
            Error::ExpectedArgsOrStr(s) => ErrorV::ExpectedArgsOrStr(s@),
            Error::InvalidSubstitutionType(s) => ErrorV::InvalidSubstitutionType(s@),
            Error::SubstitutionsMustBeStruct(s) => ErrorV::SubstitutionsMustBeStruct(s@),
            Error::SubstitutionValueMustBeList(s) => ErrorV::SubstitutionValueMustBeList(s@),
        }
    }
}

/// A Starlark value as provider code reads it: its shape, and the repr the
/// interpreter prints for it.
#[derive(PartialEq, Eq, Debug)]
pub struct PValue {
    pub kind: PKind,
    pub repr: String,
}

/// The shape of a [`PValue`]: the values provider code looks into, and any
/// other value by its type name.
#[derive(PartialEq, Eq, Debug)]
pub enum PKind {
    Str(String),
    List(Vec<PValue>),
    Struct(Vec<(String, PValue)>),
    /// A depset, by its index in the depset store.
    Depset(usize),
    /// An `Args` object, by its index in the list of `Args` objects at hand.
    Args(usize),
    Other(String),
}

/// The Starlark type name of a value.
pub open spec fn starlark_type(k: PKind) -> Seq<char> {
    match k {
        PKind::Str(_) => "string"@,
        PKind::List(_) => "list"@,
        PKind::Struct(_) => "struct"@,
        PKind::Depset(_) => "depset"@,
        PKind::Args(_) => "Args"@,
        PKind::Other(t) => t@,
    }
}

impl PValue {
    /// The value's type name.
    pub fn starlark_type(&self) -> (r: String)
        ensures
            r@ == starlark_type(self.kind),
    {
        match &self.kind {
            PKind::Str(_) => String::from_str("string"),
            PKind::List(_) => String::from_str("list"),
            PKind::Struct(_) => String::from_str("struct"),
            PKind::Depset(_) => String::from_str("depset"),
            PKind::Args(_) => String::from_str("Args"),
            PKind::Other(t) => t.clone(),
        }
    }
}

/// A value as unpacking errors describe it: `type (repr: repr)`.
pub open spec fn describe(v: PValue) -> Seq<char> {
    starlark_type(v.kind) + " (repr: "@ + v.repr@ + ")"@
}

fn describe_exec(v: &PValue) -> (r: String)
    ensures
        r@ == describe(*v),
{
    let mut r = v.starlark_type();
    r.append(" (repr: ");
    r.append(v.repr.as_str());
    r.append(")");
    r
}

/// The index of `x` in `s`, if it occurs.
pub open spec fn index_of(s: Seq<Seq<char>>, x: Seq<char>) -> Option<int>
    decreases s.len(),
{
    if s.len() == 0 {
        None
    } else {
        match index_of(s.drop_last(), x) {
            Some(i) => Some(i),
            None => if s.last() == x {
                Some(s.len() - 1)
            } else {
                None
            },
        }
    }
}

proof fn lemma_index_of(s: Seq<Seq<char>>, x: Seq<char>)
    ensures
        match index_of(s, x) {
            Some(i) => 0 <= i < s.len() && s[i] == x && forall|j: int| 0 <= j < i ==> s[j] != x,
            None => !s.contains(x),
        },
    decreases s.len(),
{
    if s.len() > 0 {
        let t = s.drop_last();
        lemma_index_of(t, x);
        assert forall|j: int| 0 <= j < t.len() implies t[j] == s[j] by {}
        if index_of(s, x) is None && s.contains(x) {
            let k = choose|k: int| 0 <= k < s.len() && s[k] == x;
            if k < t.len() {
                assert(t[k] == x);
            }
        }
    }
}

/// Finds `x` in `v`.
fn find_string(v: &Vec<String>, x: &str) -> (r: Option<usize>)
    ensures
        match r {
            Some(i) => index_of(strs_view(v@), x@) == Some(i as int),
            None => index_of(strs_view(v@), x@) is None,
        },
{
    proof {
        lemma_index_of(strs_view(v@), x@);
    }
    let xs = String::from_str(x);
    let mut i: usize = 0;
    while i < v.len()
        invariant
            i <= v@.len(),
            xs@ == x@,
            forall|j: int| 0 <= j < i ==> v@[j]@ != x@,
        decreases v.len() - i,
    {
        if v[i] == xs {
            proof {
                lemma_index_of(strs_view(v@), x@);
                match index_of(strs_view(v@), x@) {
                    Some(k) => {
                        if k < i {
                            assert(strs_view(v@)[k] == v@[k]@);
                        } else if k > i {
                            assert(strs_view(v@)[i as int] == x@);
                        }
                    },
                    None => {
                        assert(strs_view(v@)[i as int] == x@);
                    },
                }
            }
            return Some(i);
        }
        i = i + 1;
    }
    proof {
        match index_of(strs_view(v@), x@) {
            Some(k) => {
                assert(strs_view(v@)[k] == v@[k]@);
            },
            None => {},
        }
    }
    None
}

/// The first field that occurs twice (at its second occurrence), if any.
pub open spec fn first_duplicate(fields: Seq<Seq<char>>) -> Option<Seq<char>>
    decreases fields.len(),
{
    if fields.len() == 0 {
        None
    } else {
        match first_duplicate(fields.drop_last()) {
            Some(d) => Some(d),
            None => if fields.drop_last().contains(fields.last()) {
                Some(fields.last())
            } else {
                None
            },
        }
    }
}

proof fn lemma_first_duplicate_none(fields: Seq<Seq<char>>)
    requires
        first_duplicate(fields) is None,
    ensures
        crate::seqs::distinct(fields),
    decreases fields.len(),
{
    if fields.len() > 0 {
        let t = fields.drop_last();
        lemma_first_duplicate_none(t);
        assert forall|i: int, j: int|
            0 <= i < fields.len() && 0 <= j < fields.len() && i != j implies fields[i] != fields[j] by {
            if i == fields.len() - 1 {
                assert(t[j] == fields[j]);
            } else if j == fields.len() - 1 {
                assert(t[i] == fields[i]);
            } else {
                assert(t[i] == fields[i] && t[j] == fields[j]);
            }
        }
    }
}

/// A provider type: its identifier, its name once it is exported (assigned
/// to a global), and its fields in declaration order.
pub struct ProviderType {
    pub id: TypeId,
    pub name: Option<String>,
    pub fields: Vec<String>,
}

impl ProviderType {
    /// No field is declared twice.
    pub open spec fn wf(&self) -> bool {
        crate::seqs::distinct(strs_view(self.fields@))
    }

    /// A new provider type with the given fields, not yet exported, with a
    /// new identity from `registry`; a field declared twice is an error, and
    /// then no identity is handed out.
    pub fn new(fields: Vec<String>, registry: &mut TypeRegistry) -> (r: Result<ProviderType, Error>)
        requires
            old(registry).next < u64::MAX,
        ensures
            match first_duplicate(strs_view(fields@)) {
                Some(d) => r matches Err(Error::DuplicateField(f)) && f@ == d && final(registry).next == old(
                    registry,
                ).next,
                None => r matches Ok(t) && t.wf() && t.name is None && strs_view(t.fields@) == strs_view(
                    fields@,
                ) && t.id.0 == old(registry).next && final(registry).next == old(registry).next + 1,
            },
    {
        let mut i: usize = 0;
        while i < fields.len()
            invariant
                i <= fields@.len(),
                first_duplicate(strs_view(fields@).take(i as int)) is None,
            decreases fields.len() - i,
        {
            let ghost t = strs_view(fields@).take(i as int + 1);
            assert(t.drop_last() =~= strs_view(fields@).take(i as int));
            assert(t.last() == fields@[i as int]@);
            let mut j: usize = 0;
            while j < i
                invariant
                    j <= i < fields@.len(),
                    t == strs_view(fields@).take(i as int + 1),
                    t.drop_last() == strs_view(fields@).take(i as int),
                    t.last() == fields@[i as int]@,
                    first_duplicate(strs_view(fields@).take(i as int)) is None,
                    forall|k: int| 0 <= k < j ==> fields@[k]@ != fields@[i as int]@,
                decreases i - j,
            {
                if fields[j] == fields[i] {
                    proof {
                        assert(t.drop_last()[j as int] == fields@[i as int]@);
                        assert(first_duplicate(t) == Some(fields@[i as int]@));
                        lemma_first_duplicate_prefix(strs_view(fields@), i as int + 1);
                    }
                    return Err(Error::DuplicateField(fields[i].clone()));
                }
                j = j + 1;
            }
            assert(!t.drop_last().contains(t.last())) by {
                if t.drop_last().contains(t.last()) {
                    let k = choose|k: int| 0 <= k < t.drop_last().len() && t.drop_last()[k] == t.last();
                    assert(fields@[k]@ == t.drop_last()[k]);
                }
            }
            i = i + 1;
        }
        assert(strs_view(fields@).take(fields@.len() as int) =~= strs_view(fields@));
        proof {
            lemma_first_duplicate_none(strs_view(fields@));
        }
        let id = registry.fresh();
        Ok(ProviderType { id, name: None, fields })
    }

    /// Exports the provider type under `name`, which must end with `Info`.
    pub fn export_as(&mut self, name: &str) -> (r: Result<(), Error>)
        ensures
            ({
                let ok = name@.len() >= 4 && name@.skip(name@.len() - 4) == "Info"@;
                &&& ok ==> (r is Ok && (final(self).name matches Some(n) && n@ == name@))
                &&& !ok ==> (r matches Err(Error::InvalidProviderName(n)) && n@ == name@)
                &&& !ok ==> final(self).name == old(self).name
                &&& final(self).id == old(self).id
                &&& final(self).fields == old(self).fields
            }),
    {
        let ok = crate::text::ends_with(name, "Info");
        proof {
            reveal_strlit("Info");
        }
        if !ok {
            return Err(Error::InvalidProviderName(String::from_str(name)));
        }
        self.name = Some(String::from_str(name));
        Ok(())
    }

    /// Whether two provider types are the same type.
    pub fn same_type(&self, other: &ProviderType) -> (r: bool)
        ensures
            r == (self.id == other.id),
    {
        self.id == other.id
    }

    /// Constructs an instance from the value given for each field (`None`
    /// where a field is not given); the type must have been exported.
    pub fn invoke(&self, values: Vec<Option<PValue>>) -> (r: Result<ProviderInstance, Error>)
        requires
            values@.len() == self.fields@.len(),
        ensures
            match self.name {
                None => r == Err::<ProviderInstance, Error>(Error::ProviderNotExported),
                Some(n) => r matches Ok(inst) && inst.type_id == self.id && inst.name@ == n@
                    && strs_view(inst.fields@) == strs_view(self.fields@) && inst.values@ == values@,
            },
    {
        match &self.name {
            None => Err(Error::ProviderNotExported),
            Some(n) => Ok(
                ProviderInstance {
                    type_id: self.id,
                    name: n.clone(),
                    fields: crate::attr::clone_strings(&self.fields),
                    values,
                },
            ),
        }
    }
}

proof fn lemma_first_duplicate_prefix(fields: Seq<Seq<char>>, k: int)
    requires
        0 <= k <= fields.len(),
        first_duplicate(fields.take(k)) is Some,
    ensures
        first_duplicate(fields) == first_duplicate(fields.take(k)),
    decreases fields.len() - k,
{
    if k < fields.len() {
        assert(fields.take(k + 1).drop_last() =~= fields.take(k));
        lemma_first_duplicate_prefix(fields, k + 1);
    } else {
        assert(fields.take(k) =~= fields);
    }
}

/// The fields of `provider(fields = ...)`: the strings of a list, or the keys
/// of a dict (of field descriptions).
pub open spec fn fields_spec(v: PValue) -> Result<Seq<Seq<char>>, Error> {
    match v.kind {
        PKind::List(items) => strs_of(items@),
        PKind::Struct(_) => Err(Error::FieldsMustBeIterable),
        PKind::Str(_) => Err(Error::FieldsMustBeIterable),
        PKind::Depset(_) => Err(Error::FieldsMustBeIterable),
        PKind::Args(_) => Err(Error::FieldsMustBeIterable),
        PKind::Other(_) => Err(Error::FieldsMustBeIterable),
    }
}

/// The strings of a list of values; the first other value is an error.
pub open spec fn strs_of(items: Seq<PValue>) -> Result<Seq<Seq<char>>, Error>
    decreases items.len(),
{
    if items.len() == 0 {
        Ok(Seq::empty())
    } else {
        match strs_of(items.drop_last()) {
            Err(e) => Err(e),
            Ok(p) => match items.last().kind {
                PKind::Str(s) => Ok(p.push(s@)),
                _ => Err(Error::FieldsMustBeStrings),
            },
        }
    }
}

proof fn lemma_strs_of_err(items: Seq<PValue>, k: int)
    requires
        0 <= k <= items.len(),
        strs_of(items.take(k)) is Err,
    ensures
        strs_of(items) == strs_of(items.take(k)),
    decreases items.len() - k,
{
    if k < items.len() {
        assert(items.take(k + 1).drop_last() =~= items.take(k));
        lemma_strs_of_err(items, k + 1);
    } else {
        assert(items.take(k) =~= items);
    }
}

/// The field names given to `provider(fields = ...)`: a list of strings (a
/// dict of field descriptions is read by its keys, which the interpreter
/// passes here as the list of keys).
pub fn field_names(fields: &PValue) -> (r: Result<Vec<String>, Error>)
    ensures
        match fields_spec(*fields) {
            Ok(f) => r matches Ok(v) && strs_view(v@) == f,
            Err(e) => r == Err::<Vec<String>, Error>(e),
        },
{
    match &fields.kind {
        PKind::List(items) => {
            let mut out: Vec<String> = Vec::new();
            let mut i: usize = 0;
            assert(items@.take(0) =~= Seq::<PValue>::empty());
            assert(strs_view(out@) =~= Seq::<Seq<char>>::empty());
            while i < items.len()
                invariant
                    i <= items@.len(),
                    fields_spec(*fields) == strs_of(items@),
                    strs_of(items@.take(i as int)) == Ok::<Seq<Seq<char>>, Error>(strs_view(out@)),
                decreases items.len() - i,
            {
                assert(items@.take(i as int + 1).drop_last() =~= items@.take(i as int));
                assert(items@.take(i as int + 1).last() == items@[i as int]);
                match &items[i].kind {
                    PKind::Str(s) => {
                        let ghost before = out@;
                        out.push(s.clone());
                        assert(strs_view(out@) =~= strs_view(before).push(s@));
                    },
                    _ => {
                        proof {
                            lemma_strs_of_err(items@, i as int + 1);
                        }
                        return Err(Error::FieldsMustBeStrings);
                    },
                }
                i = i + 1;
            }
            assert(items@.take(items@.len() as int) =~= items@);
            Ok(out)
        },
        _ => Err(Error::FieldsMustBeIterable),
    }
}

/// `provider(fields = ...)`: a new provider type, not yet exported, with a
/// new identity from `registry` (handed out only on success).
pub fn provider(fields: &PValue, registry: &mut TypeRegistry) -> (r: Result<ProviderType, Error>)
    requires
        old(registry).next < u64::MAX,
    ensures
        match fields_spec(*fields) {
            Err(e) => r == Err::<ProviderType, Error>(e) && final(registry).next == old(registry).next,
            Ok(f) => match first_duplicate(f) {
                Some(d) => r matches Err(Error::DuplicateField(x)) && x@ == d && final(registry).next == old(
                    registry,
                ).next,
                None => r matches Ok(t) && t.wf() && t.name is None && strs_view(t.fields@) == f && t.id.0
                    == old(registry).next && final(registry).next == old(registry).next + 1,
            },
        },
{
    match field_names(fields) {
        Err(e) => Err(e),
        Ok(f) => ProviderType::new(f, registry),
    }
}

/// An instance of a provider type: the type's identifier, name and fields,
/// and the value given for each field.
pub struct ProviderInstance {
    pub type_id: TypeId,
    pub name: String,
    pub fields: Vec<String>,
    pub values: Vec<Option<PValue>>,
}

/// The fields that are set, in declaration order.
pub open spec fn set_fields(fields: Seq<Seq<char>>, values: Seq<Option<PValue>>) -> Seq<Seq<char>>
    decreases fields.len(),
{
    if fields.len() == 0 || values.len() < fields.len() {
        Seq::empty()
    } else {
        let p = set_fields(fields.drop_last(), values);
        if values[fields.len() - 1] is Some {
            p.push(fields.last())
        } else {
            p
        }
    }
}

impl ProviderInstance {
    /// One value per field.
    pub open spec fn wf(&self) -> bool {
        self.values@.len() == self.fields@.len()
    }

    /// The identifier of the instance's provider type.
    pub fn provider_type_id(&self) -> (r: TypeId)
        ensures
            r == self.type_id,
    {
        self.type_id
    }

    /// The value of the field `attribute`: `None` where no such field is
    /// declared or the field was not given.
    pub fn get_attr(&self, attribute: &str) -> (r: Option<&PValue>)
        requires
            self.wf(),
        ensures
            match index_of(strs_view(self.fields@), attribute@) {
                None => r is None,
                Some(i) => match self.values@[i] {
                    None => r is None,
                    Some(v) => r == Some(&v),
                },
            },
    {
        match find_string(&self.fields, attribute) {
            None => None,
            Some(i) => {
                proof {
                    lemma_index_of(strs_view(self.fields@), attribute@);
                }
                match &self.values[i] {
                    None => None,
                    Some(v) => Some(v),
                }
            },
        }
    }

    /// The names of the fields that are set, in declaration order.
    pub fn dir_attr(&self) -> (r: Vec<String>)
        requires
            self.wf(),
        ensures
            strs_view(r@) == set_fields(strs_view(self.fields@), self.values@),
    {
        let ghost f = strs_view(self.fields@);
        let mut out: Vec<String> = Vec::new();
        let mut i: usize = 0;
        assert(f.take(0) =~= Seq::<Seq<char>>::empty());
        assert(strs_view(out@) =~= Seq::<Seq<char>>::empty());
        while i < self.fields.len()
            invariant
                i <= self.fields@.len(),
                self.wf(),
                f == strs_view(self.fields@),
                strs_view(out@) == set_fields(f.take(i as int), self.values@),
            decreases self.fields.len() - i,
        {
            assert(f.take(i as int + 1).drop_last() =~= f.take(i as int));
            assert(f.take(i as int + 1).last() == self.fields@[i as int]@);
            if self.values[i].is_some() {
                let ghost before = out@;
                out.push(self.fields[i].clone());
                assert(strs_view(out@) =~= strs_view(before).push(self.fields@[i as int]@));
            }
            i = i + 1;
        }
        assert(f.take(f.len() as int) =~= f);
        out
    }

    /// The instance as Starlark prints it, `Name(a = 1, c = 3)`, given the
    /// repr of each value.
    pub fn repr(&self) -> (r: String)
        requires
            self.wf(),
        ensures
            r@ == instance_repr(self.name@, strs_view(self.fields@), self.values@),
    {
        let ghost f = strs_view(self.fields@);
        let mut out = self.name.clone();
        out.append("(");
        let mut first = true;
        let mut i: usize = 0;
        proof {
            reveal_strlit("(");
        }
        assert(f.take(0) =~= Seq::<Seq<char>>::empty());
        while i < self.fields.len()
            invariant
                i <= self.fields@.len(),
                self.wf(),
                f == strs_view(self.fields@),
                out@ == self.name@ + "("@ + entries_repr(f.take(i as int), self.values@),
                first == (entries_repr(f.take(i as int), self.values@).len() == 0),
            decreases self.fields.len() - i,
        {
            assert(f.take(i as int + 1).drop_last() =~= f.take(i as int));
            assert(f.take(i as int + 1).last() == self.fields@[i as int]@);
            match &self.values[i] {
                Some(v) => {
                    proof {
                        reveal_strlit(", ");
                        reveal_strlit(" = ");
                    }
                    let ghost before = out@;
                    if !first {
                        out.append(", ");
                    }
                    out.append(self.fields[i].as_str());
                    out.append(" = ");
                    out.append(v.repr.as_str());
                    first = false;
                    proof {
                        lemma_entry_nonempty(self.fields@[i as int]@, v.repr@);
                    }
                    assert(out@ =~= self.name@ + "("@ + entries_repr(f.take(i as int + 1), self.values@));
                },
                None => {},
            }
            i = i + 1;
        }
        assert(f.take(f.len() as int) =~= f);
        out.append(")");
        proof {
            reveal_strlit(")");
        }
        out
    }
}

/// One printed entry, `name = repr`.
pub open spec fn entry_repr(name: Seq<char>, repr: Seq<char>) -> Seq<char> {
    name + " = "@ + repr
}

proof fn lemma_entry_nonempty(name: Seq<char>, repr: Seq<char>)
    ensures
        entry_repr(name, repr).len() > 0,
{
    reveal_strlit(" = ");
}

/// The printed entries of the set fields, separated by `, `.
pub open spec fn entries_repr(fields: Seq<Seq<char>>, values: Seq<Option<PValue>>) -> Seq<char>
    decreases fields.len(),
{
    if fields.len() == 0 || values.len() < fields.len() {
        Seq::empty()
    } else {
        let p = entries_repr(fields.drop_last(), values);
        match values[fields.len() - 1] {
            Some(v) => if p.len() == 0 {
                entry_repr(fields.last(), v.repr@)
            } else {
                p + ", "@ + entry_repr(fields.last(), v.repr@)
            },
            None => p,
        }
    }
}

/// An instance as Starlark prints it.
pub open spec fn instance_repr(name: Seq<char>, fields: Seq<Seq<char>>, values: Seq<Option<PValue>>) -> Seq<char> {
    name + "("@ + entries_repr(fields, values) + ")"@
}


/// The phony file of a depset of files (`None` where it has none), or
/// `None` where the value is no depset of files (an empty depset counts as
/// one).
pub open spec fn file_depset_spec(v: PValue, nodes: Seq<crate::depset::DepsetGen>) -> Option<Option<Seq<char>>> {
    match v.kind {
        PKind::Depset(h) => if h < nodes.len() && (nodes[h as int].kind == Kind::File || nodes[h as int].kind
            == Kind::Empty) {
            Some(
                match nodes[h as int].phony {
                    Some(f) => Some(f@),
                    None => None,
                },
            )
        } else {
            None
        },
        _ => None,
    }
}

/// Reads a value as a depset of files: its phony file.
fn file_depset(v: &PValue, store: &DepsetStore) -> (r: Option<Option<File>>)
    ensures
        match file_depset_spec(*v, store.nodes@) {
            None => r is None,
            Some(None) => r matches Some(None),
            Some(Some(f)) => r matches Some(Some(x)) && x@ == f,
        },
{
    match &v.kind {
        PKind::Depset(h) => {
            if *h < store.nodes.len() {
                let n = &store.nodes[*h];
                if n.kind == Kind::File || n.kind == Kind::Empty {
                    return Some(
                        match &n.phony {
                            Some(f) => Some(f.clone()),
                            None => None,
                        },
                    );
                }
            }
            None
        },
        _ => None,
    }
}

/// Why substitutions could not be read: the value is no struct, a value of
/// it is no list, or an element of such a list is neither a string nor an
/// `Args` object; each with the offending value's type and repr.
#[derive(PartialEq, Eq, Debug)]
pub enum SubstFailure {
    NotStruct { ty: String, repr: String },
    NotList { ty: String, repr: String },
    BadItem { ty: String, repr: String },
}

/// The mathematical value of a [`SubstFailure`].
pub enum SubstFailureV {
    NotStruct(Seq<char>, Seq<char>),
    NotList(Seq<char>, Seq<char>),
    BadItem(Seq<char>, Seq<char>),
}

impl View for SubstFailure {
    type V = SubstFailureV;

    open spec fn view(&self) -> SubstFailureV {
        match self {
            SubstFailure::NotStruct { ty, repr } => SubstFailureV::NotStruct(ty@, repr@),
            SubstFailure::NotList { ty, repr } => SubstFailureV::NotList(ty@, repr@),
            SubstFailure::BadItem { ty, repr } => SubstFailureV::BadItem(ty@, repr@),
        }
    }
}

/// The elements of one substitution: strings and `Args` objects.
pub open spec fn subst_items(items: Seq<PValue>) -> Result<Seq<ArgsItemV>, SubstFailureV>
    decreases items.len(),
{
    if items.len() == 0 {
        Ok(Seq::empty())
    } else {
        match subst_items(items.drop_last()) {
            Err(e) => Err(e),
            Ok(p) => {
                let x = items.last();
                match x.kind {
                    PKind::Str(s) => Ok(p.push(ArgsItemV::Str(s@))),
                    PKind::Args(h) => Ok(p.push(ArgsItemV::Args(h))),
                    _ => Err(SubstFailureV::BadItem(starlark_type(x.kind), x.repr@)),
                }
            },
        }
    }
}

/// The substitutions of a struct's fields, in order.
pub open spec fn subst_fields(fs: Seq<(String, PValue)>) -> Result<Seq<(Seq<char>, Seq<ArgsItemV>)>, SubstFailureV>
    decreases fs.len(),
{
    if fs.len() == 0 {
        Ok(Seq::empty())
    } else {
        match subst_fields(fs.drop_last()) {
            Err(e) => Err(e),
            Ok(p) => {
                let (name, v) = fs.last();
                match v.kind {
                    PKind::List(items) => match subst_items(items@) {
                        Ok(l) => Ok(p.push((name@, l))),
                        Err(e) => Err(e),
                    },
                    _ => Err(SubstFailureV::NotList(starlark_type(v.kind), v.repr@)),
                }
            },
        }
    }
}

/// The substitutions that a struct of lists of strings and `Args` objects
/// gives.
pub open spec fn subst_spec(v: PValue) -> Result<Seq<(Seq<char>, Seq<ArgsItemV>)>, SubstFailureV> {
    match v.kind {
        PKind::Struct(fs) => subst_fields(fs@),
        _ => Err(SubstFailureV::NotStruct(starlark_type(v.kind), v.repr@)),
    }
}

proof fn lemma_subst_items_err(items: Seq<PValue>, k: int)
    requires
        0 <= k <= items.len(),
        subst_items(items.take(k)) is Err,
    ensures
        subst_items(items) == subst_items(items.take(k)),
    decreases items.len() - k,
{
    if k < items.len() {
        assert(items.take(k + 1).drop_last() =~= items.take(k));
        lemma_subst_items_err(items, k + 1);
    } else {
        assert(items.take(k) =~= items);
    }
}

proof fn lemma_subst_fields_err(fs: Seq<(String, PValue)>, k: int)
    requires
        0 <= k <= fs.len(),
        subst_fields(fs.take(k)) is Err,
    ensures
        subst_fields(fs) == subst_fields(fs.take(k)),
    decreases fs.len() - k,
{
    if k < fs.len() {
        assert(fs.take(k + 1).drop_last() =~= fs.take(k));
        lemma_subst_fields_err(fs, k + 1);
    } else {
        assert(fs.take(k) =~= fs);
    }
}

fn parse_subst_items(items: &Vec<PValue>) -> (r: Result<Vec<ArgsItem>, SubstFailure>)
    ensures
        match subst_items(items@) {
            Ok(l) => r matches Ok(v) && v.deep_view() == l,
            Err(e) => r matches Err(x) && x@ == e,
        },
{
    let mut out: Vec<ArgsItem> = Vec::new();
    let mut i: usize = 0;
    assert(items@.take(0) =~= Seq::<PValue>::empty());
    assert(out.deep_view() =~= Seq::<ArgsItemV>::empty());
    while i < items.len()
        invariant
            i <= items@.len(),
            subst_items(items@.take(i as int)) == Ok::<Seq<ArgsItemV>, SubstFailureV>(out.deep_view()),
        decreases items.len() - i,
    {
        assert(items@.take(i as int + 1).drop_last() =~= items@.take(i as int));
        assert(items@.take(i as int + 1).last() == items@[i as int]);
        let x = &items[i];
        let ghost before = out.deep_view();
        match &x.kind {
            PKind::Str(s) => {
                out.push(ArgsItem::Str(s.clone()));
                assert(out.deep_view() =~= before.push(ArgsItemV::Str(s@)));
            },
            PKind::Args(h) => {
                out.push(ArgsItem::Args(*h));
                assert(out.deep_view() =~= before.push(ArgsItemV::Args(*h)));
            },
            _ => {
                proof {
                    lemma_subst_items_err(items@, i as int + 1);
                }
                return Err(SubstFailure::BadItem { ty: x.starlark_type(), repr: x.repr.clone() });
            },
        }
        i = i + 1;
    }
    assert(items@.take(items@.len() as int) =~= items@);
    Ok(out)
}

/// Reads substitutions: a struct whose values are lists of strings and
/// `Args` objects, in field order.
pub fn parse_substitutions(v: &PValue) -> (r: Result<Vec<(String, Vec<ArgsItem>)>, SubstFailure>)
    ensures
        match subst_spec(*v) {
            Ok(l) => r matches Ok(x) && x.deep_view() == l,
            Err(e) => r matches Err(x) && x@ == e,
        },
{
    match &v.kind {
        PKind::Struct(fs) => {
            let mut out: Vec<(String, Vec<ArgsItem>)> = Vec::new();
            let mut i: usize = 0;
            assert(fs@.take(0) =~= Seq::<(String, PValue)>::empty());
            assert(out.deep_view() =~= Seq::<(Seq<char>, Seq<ArgsItemV>)>::empty());
            while i < fs.len()
                invariant
                    i <= fs@.len(),
                    subst_spec(*v) == subst_fields(fs@),
                    subst_fields(fs@.take(i as int)) == Ok::<Seq<(Seq<char>, Seq<ArgsItemV>)>, SubstFailureV>(
                        out.deep_view(),
                    ),
                decreases fs.len() - i,
            {
                assert(fs@.take(i as int + 1).drop_last() =~= fs@.take(i as int));
                assert(fs@.take(i as int + 1).last() == fs@[i as int]);
                let (name, fv) = &fs[i];
                match &fv.kind {
                    PKind::List(items) => match parse_subst_items(items) {
                        Ok(l) => {
                            let ghost before = out.deep_view();
                            out.push((name.clone(), l));
                            assert(out.deep_view() =~= before.push((name@, l.deep_view())));
                        },
                        Err(e) => {
                            proof {
                                lemma_subst_fields_err(fs@, i as int + 1);
                            }
                            return Err(e);
                        },
                    },
                    _ => {
                        proof {
                            lemma_subst_fields_err(fs@, i as int + 1);
                        }
                        return Err(SubstFailure::NotList { ty: fv.starlark_type(), repr: fv.repr.clone() });
                    },
                }
                i = i + 1;
            }
            assert(fs@.take(fs@.len() as int) =~= fs@);
            Ok(out)
        },
        _ => Err(SubstFailure::NotStruct { ty: v.starlark_type(), repr: v.repr.clone() }),
    }
}


/// The identifiers of the built-in provider types.
pub struct BuiltinIds {
    pub default_info: TypeId,
    pub inputs_info: TypeId,
    pub substitutions_info: TypeId,
}

/// The providers a rule implementation returned, as the target keeps them.
pub struct Providers {
    /// The phony file of `DefaultInfo.files`.
    pub outputs_phony: Option<File>,
    /// The phony file of `GnInputsInfo.files`.
    pub inputs_phony: Option<File>,
    /// `GnSubstitutionsInfo.substitutions`, by name.
    pub substitutions: Vec<(String, Vec<ArgsItem>)>,
    /// For each provider type, the index of its instance in the list.
    pub value: Vec<(TypeId, usize)>,
}

/// The mathematical value of a [`Providers`].
pub struct ProvidersV {
    pub outputs_phony: Option<Seq<char>>,
    pub inputs_phony: Option<Seq<char>>,
    pub substitutions: Seq<(Seq<char>, Seq<ArgsItemV>)>,
    pub value: Seq<(TypeId, usize)>,
}

impl View for Providers {
    type V = ProvidersV;

    open spec fn view(&self) -> ProvidersV {
        ProvidersV {
            outputs_phony: match self.outputs_phony {
                Some(f) => Some(f@),
                None => None,
            },
            inputs_phony: match self.inputs_phony {
                Some(f) => Some(f@),
                None => None,
            },
            substitutions: self.substitutions.deep_view(),
            value: self.value@,
        }
    }
}

/// Whether `value` holds an entry for the provider type `id`.
pub open spec fn has_type(value: Seq<(TypeId, usize)>, id: TypeId) -> bool {
    exists|j: int| 0 <= j < value.len() && (#[trigger] value[j]).0 == id
}

/// The error of substitutions that cannot be read, as unpacking reports it.
pub open spec fn unpack_subst_error(f: SubstFailureV) -> ErrorV {
    match f {
        SubstFailureV::NotStruct(_, repr) => ErrorV::GnSubstitutionsInfoSubstitutionsMustBeStruct(repr),
        SubstFailureV::NotList(ty, repr) => ErrorV::ExpectedList(ty + " (repr: "@ + repr + ")"@),
        SubstFailureV::BadItem(ty, repr) => ErrorV::ExpectedArgsOrStr(ty + " (repr: "@ + repr + ")"@),
    }
}

/// Unpacking one more provider instance, the `k`th of the list.
pub open spec fn unpack_step(
    st: ProvidersV,
    k: usize,
    inst: ProviderInstance,
    nodes: Seq<crate::depset::DepsetGen>,
    b: BuiltinIds,
) -> Result<ProvidersV, ErrorV> {
    let id = inst.type_id;
    if has_type(st.value, id) {
        Err(ErrorV::DuplicateProvider(inst.name@))
    } else {
        let st1 = ProvidersV { value: st.value.push((id, k)), ..st };
        let v0 = inst.values@[0]->Some_0;
        if id == b.default_info {
            match file_depset_spec(v0, nodes) {
                Some(p) => Ok(ProvidersV { outputs_phony: p, ..st1 }),
                None => Err(ErrorV::DefaultInfoFilesMustBeFileDepset(v0.repr@)),
            }
        } else if id == b.inputs_info {
            match file_depset_spec(v0, nodes) {
                Some(p) => Ok(ProvidersV { inputs_phony: p, ..st1 }),
                None => Err(ErrorV::GnInputsInfoFilesMustBeFileDepset(v0.repr@)),
            }
        } else if id == b.substitutions_info {
            match subst_spec(v0) {
                Ok(l) => Ok(ProvidersV { substitutions: build_map(l), ..st1 }),
                Err(f) => Err(unpack_subst_error(f)),
            }
        } else {
            Ok(st1)
        }
    }
}

/// Unpacking a list of provider instances in turn; the first error stops.
pub open spec fn unpack_spec(
    items: Seq<ProviderInstance>,
    nodes: Seq<crate::depset::DepsetGen>,
    b: BuiltinIds,
) -> Result<ProvidersV, ErrorV>
    decreases items.len(),
{
    if items.len() == 0 {
        Ok(
            ProvidersV {
                outputs_phony: None,
                inputs_phony: None,
                substitutions: Seq::empty(),
                value: Seq::empty(),
            },
        )
    } else {
        match unpack_spec(items.drop_last(), nodes, b) {
            Err(e) => Err(e),
            Ok(st) => unpack_step(st, (items.len() - 1) as usize, items.last(), nodes, b),
        }
    }
}

/// Every instance of a built-in provider type has its first field set.
pub open spec fn builtins_set(items: Seq<ProviderInstance>, b: BuiltinIds) -> bool {
    forall|k: int|
        0 <= k < items.len() ==> {
            let i = #[trigger] items[k];
            (i.type_id == b.default_info || i.type_id == b.inputs_info || i.type_id == b.substitutions_info)
                ==> i.values@.len() > 0 && i.values@[0] is Some
        }
}

proof fn lemma_unpack_prefix_err(
    items: Seq<ProviderInstance>,
    nodes: Seq<crate::depset::DepsetGen>,
    b: BuiltinIds,
    k: int,
)
    requires
        0 <= k <= items.len(),
        unpack_spec(items.take(k), nodes, b) is Err,
    ensures
        unpack_spec(items, nodes, b) == unpack_spec(items.take(k), nodes, b),
    decreases items.len() - k,
{
    if k < items.len() {
        assert(items.take(k + 1).drop_last() =~= items.take(k));
        lemma_unpack_prefix_err(items, nodes, b, k + 1);
    } else {
        assert(items.take(k) =~= items);
    }
}

/// Whether `value` holds the provider type `id`.
fn contains_type(value: &Vec<(TypeId, usize)>, id: &TypeId) -> (r: bool)
    ensures
        r == has_type(value@, *id),
{
    let mut j: usize = 0;
    while j < value.len()
        invariant
            j <= value@.len(),
            forall|i: int| 0 <= i < j ==> value@[i].0 != *id,
        decreases value.len() - j,
    {
        if value[j].0 == *id {
            assert(value@[j as int].0 == *id);
            return true;
        }
        j = j + 1;
    }
    false
}

fn subst_error_for_unpack(f: SubstFailure) -> (r: Error)
    ensures
        r@ == unpack_subst_error(f@),
{
    match f {
        SubstFailure::NotStruct { ty: _, repr } => Error::GnSubstitutionsInfoSubstitutionsMustBeStruct(repr),
        SubstFailure::NotList { ty, repr } => {
            let mut d = ty;
            d.append(" (repr: ");
            d.append(repr.as_str());
            d.append(")");
            Error::ExpectedList(d)
        },
        SubstFailure::BadItem { ty, repr } => {
            let mut d = ty;
            d.append(" (repr: ");
            d.append(repr.as_str());
            d.append(")");
            Error::ExpectedArgsOrStr(d)
        },
    }
}

impl Providers {
    /// Unpacks the list of provider instances a rule implementation
    /// returned: each provider type at most once; `DefaultInfo.files` and
    /// `GnInputsInfo.files` must be depsets of files (their phony files are
    /// kept), and `GnSubstitutionsInfo.substitutions` a struct of lists of
    /// strings and `Args` objects.
    pub fn unpack(items: &Vec<ProviderInstance>, store: &DepsetStore, builtins: &BuiltinIds) -> (r: Result<
        Providers,
        Error,
    >)
        requires
            builtins_set(items@, *builtins),
        ensures
            match unpack_spec(items@, store.nodes@, *builtins) {
                Ok(p) => r matches Ok(x) && x@ == p,
                Err(e) => r matches Err(x) && x@ == e,
            },
    {
        let mut out = Providers {
            outputs_phony: None,
            inputs_phony: None,
            substitutions: Vec::new(),
            value: Vec::new(),
        };
        let mut k: usize = 0;
        assert(items@.take(0) =~= Seq::<ProviderInstance>::empty());
        assert(out@ =~= ProvidersV {
            outputs_phony: None,
            inputs_phony: None,
            substitutions: Seq::empty(),
            value: Seq::empty(),
        }) by {
            assert(out.substitutions.deep_view() =~= Seq::<(Seq<char>, Seq<ArgsItemV>)>::empty());
            assert(out.value@ =~= Seq::<(TypeId, usize)>::empty());
        }
        while k < items.len()
            invariant
                k <= items@.len(),
                builtins_set(items@, *builtins),
                unpack_spec(items@.take(k as int), store.nodes@, *builtins) == Ok::<ProvidersV, ErrorV>(out@),
            decreases items.len() - k,
        {
            assert(items@.take(k as int + 1).drop_last() =~= items@.take(k as int));
            assert(items@.take(k as int + 1).last() == items@[k as int]);
            let inst = &items[k];
            let id = inst.type_id;
            if contains_type(&out.value, &id) {
                proof {
                    lemma_unpack_prefix_err(items@, store.nodes@, *builtins, k as int + 1);
                }
                return Err(Error::DuplicateProvider(inst.name.clone()));
            }
            let ghost st = out@;
            out.value.push((id, k));
            let ghost st1 = ProvidersV { value: st.value.push((id, k)), ..st };
            assert(out@ == st1);
            let is_default = id == builtins.default_info;
            let is_inputs = id == builtins.inputs_info;
            let is_subst = id == builtins.substitutions_info;
            if is_default || is_inputs || is_subst {
                assert(builtins_set(items@, *builtins));
                assert(inst.values@.len() > 0 && inst.values@[0] is Some);
                let v0 = match &inst.values[0] {
                    Some(v) => v,
                    None => vstd::pervasive::unreached(),
                };
                if is_default {
                    match file_depset(v0, store) {
                        Some(p) => {
                            out.outputs_phony = p;
                        },
                        None => {
                            proof {
                                lemma_unpack_prefix_err(items@, store.nodes@, *builtins, k as int + 1);
                            }
                            return Err(Error::DefaultInfoFilesMustBeFileDepset(v0.repr.clone()));
                        },
                    }
                } else if is_inputs {
                    match file_depset(v0, store) {
                        Some(p) => {
                            out.inputs_phony = p;
                        },
                        None => {
                            proof {
                                lemma_unpack_prefix_err(items@, store.nodes@, *builtins, k as int + 1);
                            }
                            return Err(Error::GnInputsInfoFilesMustBeFileDepset(v0.repr.clone()));
                        },
                    }
                } else {
                    match parse_substitutions(v0) {
                        Ok(l) => {
                            let m = map_of_substitutions(l);
                            out.substitutions = m;
                        },
                        Err(f) => {
                            proof {
                                lemma_unpack_prefix_err(items@, store.nodes@, *builtins, k as int + 1);
                            }
                            return Err(subst_error_for_unpack(f));
                        },
                    }
                }
            }
            k = k + 1;
        }
        assert(items@.take(items@.len() as int) =~= items@);
        Ok(out)
    }
}

/// The substitutions inserted in turn into a map by name.
fn map_of_substitutions(l: Vec<(String, Vec<ArgsItem>)>) -> (r: Vec<(String, Vec<ArgsItem>)>)
    ensures
        r.deep_view() == build_map(l.deep_view()),
{
    let ghost d = l.deep_view();
    let mut out: Vec<(String, Vec<ArgsItem>)> = Vec::new();
    let rest = l;
    assert(out.deep_view() =~= build_map(d.take(0)));
    let n = rest.len();
    let mut i: usize = 0;
    while i < n
        invariant
            i <= n,
            n == d.len(),
            rest.deep_view() == d,
            out.deep_view() == build_map(d.take(i as int)),
        decreases n - i,
    {
        assert(d.take(i as int + 1).drop_last() =~= d.take(i as int));
        assert(d.take(i as int + 1).last() == d[i as int]);
        let name = rest[i].0.clone();
        let items = clone_items(&rest[i].1);
        insert_entry_exec(&mut out, name, items);
        i = i + 1;
    }
    assert(d.take(d.len() as int) =~= d);
    out
}

fn clone_items(v: &Vec<ArgsItem>) -> (r: Vec<ArgsItem>)
    ensures
        r.deep_view() == v.deep_view(),
{
    let mut out: Vec<ArgsItem> = Vec::new();
    let mut i: usize = 0;
    while i < v.len()
        invariant
            i <= v@.len(),
            out@.len() == i,
            forall|j: int| 0 <= j < i ==> (#[trigger] out@[j])@ == v@[j]@,
        decreases v.len() - i,
    {
        out.push(v[i].clone());
        i = i + 1;
    }
    assert(out.deep_view() =~= v.deep_view());
    out
}


/// The built-in provider types and the `DefaultInfo` a target without one
/// gets.
pub struct BuiltinModule {
    pub default_info: ProviderType,
    pub gn_substitution_info: ProviderType,
    pub gn_inputs_info: ProviderType,
    /// `DefaultInfo(files = depset(), executable = None)`.
    pub empty_default_info: ProviderInstance,
}

impl BuiltinModule {
    /// The identifiers of the built-in provider types.
    pub open spec fn ids(&self) -> BuiltinIds {
        BuiltinIds {
            default_info: self.default_info.id,
            inputs_info: self.gn_inputs_info.id,
            substitutions_info: self.gn_substitution_info.id,
        }
    }
}

/// An exported provider type with the given name and fields, and a new
/// identity from `registry`.
fn builtin_type(name: &str, fields: Vec<String>, registry: &mut TypeRegistry) -> (r: ProviderType)
    requires
        crate::seqs::distinct(strs_view(fields@)),
        name@.len() >= 4 && name@.skip(name@.len() - 4) == "Info"@,
        old(registry).next < u64::MAX,
    ensures
        r.wf(),
        r.name matches Some(n) && n@ == name@,
        strs_view(r.fields@) == strs_view(fields@),
        r.id.0 == old(registry).next,
        final(registry).next == old(registry).next + 1,
{
    let id = registry.fresh();
    let mut t = ProviderType { id, name: None, fields };
    let res = t.export_as(name);
    t
}

/// Creates the built-in provider types `GnSubstitutionInfo`
/// (`substitutions`), `GnInputsInfo` (`files`) and `DefaultInfo` (`files`,
/// `executable`), and the empty `DefaultInfo`, whose files are a new empty
/// depset of `store`. The three types get the next three identities of
/// `registry`, so they differ from each other, from every identity handed
/// out before, and from every identity the registry hands out later.
pub fn load_builtin_providers(store: &mut DepsetStore, registry: &mut TypeRegistry) -> (r: BuiltinModule)
    requires
        old(store).wf(),
        old(registry).next < u64::MAX - 3,
    ensures
        final(store).wf(),
        r.gn_substitution_info.id.0 == old(registry).next,
        r.gn_inputs_info.id.0 == old(registry).next + 1,
        r.default_info.id.0 == old(registry).next + 2,
        final(registry).next == old(registry).next + 3,
        final(store).nodes@.len() == old(store).nodes@.len() + 1,
        final(store).nodes@.drop_last() == old(store).nodes@,
        final(store).nodes@.last().kind == Kind::Empty,
        r.default_info.name matches Some(n) && n@ == "DefaultInfo"@,
        strs_view(r.default_info.fields@) == seq!["files"@, "executable"@],
        r.gn_inputs_info.name matches Some(n) && n@ == "GnInputsInfo"@,
        strs_view(r.gn_inputs_info.fields@) == seq!["files"@],
        r.gn_substitution_info.name matches Some(n) && n@ == "GnSubstitutionInfo"@,
        strs_view(r.gn_substitution_info.fields@) == seq!["substitutions"@],
        r.default_info.id != r.gn_inputs_info.id,
        r.default_info.id != r.gn_substitution_info.id,
        r.gn_inputs_info.id != r.gn_substitution_info.id,
        r.empty_default_info.type_id == r.default_info.id,
        r.empty_default_info.name@ == "DefaultInfo"@,
        strs_view(r.empty_default_info.fields@) == seq!["files"@, "executable"@],
        r.empty_default_info.values@.len() == 2,
        r.empty_default_info.values@[0] matches Some(v) && v.kind == PKind::Depset(
            old(store).nodes@.len() as usize,
        ),
        r.empty_default_info.values@[1] matches Some(v) && v.repr@ == "None"@,
{
    proof {
        reveal_strlit("GnSubstitutionInfo");
        reveal_strlit("GnInputsInfo");
        reveal_strlit("DefaultInfo");
        reveal_strlit("Info");
        reveal_strlit("files");
        reveal_strlit("executable");
        reveal_strlit("substitutions");
    }
    let subst_fields = vec![String::from_str("substitutions")];
    assert(strs_view(subst_fields@) =~= seq!["substitutions"@]);
    assert("GnSubstitutionInfo"@.skip(14) =~= "Info"@);
    assert(crate::seqs::distinct(strs_view(subst_fields@)));
    let gn_substitution_info = builtin_type("GnSubstitutionInfo", subst_fields, registry);
    let inputs_fields = vec![String::from_str("files")];
    assert(strs_view(inputs_fields@) =~= seq!["files"@]);
    assert("GnInputsInfo"@.skip(8) =~= "Info"@);
    assert(crate::seqs::distinct(strs_view(inputs_fields@)));
    let gn_inputs_info = builtin_type("GnInputsInfo", inputs_fields, registry);
    let default_fields = vec![String::from_str("files"), String::from_str("executable")];
    assert(strs_view(default_fields@) =~= seq!["files"@, "executable"@]);
    assert("files"@ != "executable"@) by {
        assert("files"@.len() != "executable"@.len());
    }
    assert("DefaultInfo"@.skip(7) =~= "Info"@);
    assert(crate::seqs::distinct(strs_view(default_fields@)));
    let default_info = builtin_type("DefaultInfo", default_fields, registry);
    let h = store.new_empty_depset();
    let none_repr = String::from_str("None");
    let empty_default_info = ProviderInstance {
        type_id: default_info.id,
        name: String::from_str("DefaultInfo"),
        fields: crate::attr::clone_strings(&default_info.fields),
        values: vec![
            Some(PValue { kind: PKind::Depset(h), repr: crate::depset::depset_repr() }),
            Some(PValue { kind: PKind::Other(String::from_str("NoneType")), repr: none_repr }),
        ],
    };
    BuiltinModule { default_info, gn_substitution_info, gn_inputs_info, empty_default_info }
}

/// What stands for one provider of a target.
#[derive(PartialEq, Eq, Debug, Clone, Copy)]
pub enum ProviderValue {
    /// The instance at this index of the list the implementation returned.
    Given(usize),
    /// The built-in empty `DefaultInfo`.
    EmptyDefaultInfo,
    /// A `DefaultInfo` whose files are the depset at this index.
    DefaultInfoOf(usize),
}

/// The providers of a target: each provider type with its value, and what
/// the build reads of them.
pub struct TargetProviders {
    pub providers: Vec<(TypeId, ProviderValue)>,
    /// The files of `DefaultInfo`.
    pub output_files: Vec<File>,
    /// The phony file of `GnInputsInfo.files`.
    pub extra_inputs_phony: Option<File>,
    /// `GnSubstitutionInfo.substitutions`, in field order.
    pub substitutions: Vec<(String, Vec<ArgsItem>)>,
}

/// The mathematical value of a [`TargetProviders`].
pub struct TargetProvidersV {
    pub providers: Seq<(TypeId, ProviderValue)>,
    pub output_files: Seq<Seq<char>>,
    pub extra_inputs_phony: Option<Seq<char>>,
    pub substitutions: Seq<(Seq<char>, Seq<ArgsItemV>)>,
}

impl View for TargetProviders {
    type V = TargetProvidersV;

    open spec fn view(&self) -> TargetProvidersV {
        TargetProvidersV {
            providers: self.providers@,
            output_files: self.output_files.deep_view(),
            extra_inputs_phony: match self.extra_inputs_phony {
                Some(f) => Some(f@),
                None => None,
            },
            substitutions: self.substitutions.deep_view(),
        }
    }
}

/// The value the map `m` holds for the key `id`.
pub open spec fn lookup<A, B>(m: Seq<(A, B)>, id: A) -> Option<B> {
    match key_index(m, id) {
        Some(i) => Some(m[i].1),
        None => None,
    }
}

/// The providers by type: the instances inserted in turn (a later instance
/// of a type replaces an earlier one in its place).
pub open spec fn provider_map(items: Seq<ProviderInstance>) -> Seq<(TypeId, ProviderValue)> {
    build_map(Seq::new(items.len(), |i: int| (items[i].type_id, ProviderValue::Given(i as usize))))
}

/// The paths of the files among `xs`, in order.
pub open spec fn files_of(xs: Seq<ItemV>) -> Seq<Seq<char>>
    decreases xs.len(),
{
    if xs.len() == 0 {
        Seq::empty()
    } else {
        match xs.last() {
            ItemV::File(f) => files_of(xs.drop_last()).push(f),
            _ => files_of(xs.drop_last()),
        }
    }
}

/// The first field of the instance a provider value names (`empty` is the
/// built-in empty `DefaultInfo`).
pub open spec fn first_field(items: Seq<ProviderInstance>, empty: ProviderInstance, v: ProviderValue) -> PValue {
    match v {
        ProviderValue::Given(i) => items[i as int].values@[0]->Some_0,
        _ => empty.values@[0]->Some_0,
    }
}

/// The error of substitutions that cannot be read, as target providers
/// report it.
pub open spec fn target_subst_error(f: SubstFailureV) -> ErrorV {
    match f {
        SubstFailureV::NotStruct(ty, _) => ErrorV::SubstitutionsMustBeStruct(ty),
        SubstFailureV::NotList(ty, _) => ErrorV::SubstitutionValueMustBeList(ty),
        SubstFailureV::BadItem(ty, _) => ErrorV::InvalidSubstitutionType(ty),
    }
}

/// The providers of a target from the instances its implementation
/// returned: a target without `DefaultInfo` gets the empty one; the output
/// files are the files of `DefaultInfo`, which must be a depset of files, in
/// its order; the extra inputs are the phony file of `GnInputsInfo.files`;
/// the substitutions those of `GnSubstitutionInfo`.
pub open spec fn target_providers_spec(
    items: Seq<ProviderInstance>,
    nodes: Seq<crate::depset::DepsetGen>,
    b: BuiltinIds,
    empty: ProviderInstance,
) -> Result<TargetProvidersV, ErrorV> {
    let m0 = provider_map(items);
    let d = lookup(m0, b.default_info);
    let defaults: Result<(Seq<(TypeId, ProviderValue)>, Seq<Seq<char>>), ErrorV> = match d {
        None => Ok((m0.push((b.default_info, ProviderValue::EmptyDefaultInfo)), Seq::empty())),
        Some(v) => {
            let f = first_field(items, empty, v);
            match (file_depset_spec(f, nodes), f.kind) {
                (Some(_), PKind::Depset(h)) => Ok(
                    (m0, files_of(list_spec(nodes, h as int, nodes[h as int].order))),
                ),
                _ => Err(ErrorV::ExpectedDefaultInfoFilesDepset),
            }
        },
    };
    match defaults {
        Err(e) => Err(e),
        Ok((m1, outs)) => {
            let inputs: Result<Option<Seq<char>>, ErrorV> = match lookup(m1, b.inputs_info) {
                None => Ok(None),
                Some(v) => {
                    let f = first_field(items, empty, v);
                    match file_depset_spec(f, nodes) {
                        Some(p) => Ok(p),
                        None => Err(ErrorV::GnInputsInfoFilesMustBeFileDepset(f.repr@)),
                    }
                },
            };
            match inputs {
                Err(e) => Err(e),
                Ok(p) => match lookup(m1, b.substitutions_info) {
                    None => Ok(
                        TargetProvidersV {
                            providers: m1,
                            output_files: outs,
                            extra_inputs_phony: p,
                            substitutions: Seq::empty(),
                        },
                    ),
                    Some(v) => match subst_spec(first_field(items, empty, v)) {
                        Ok(l) => Ok(
                            TargetProvidersV {
                                providers: m1,
                                output_files: outs,
                                extra_inputs_phony: p,
                                substitutions: l,
                            },
                        ),
                        Err(f) => Err(target_subst_error(f)),
                    },
                },
            }
        },
    }
}

/// Inserts a provider into the map by type.
fn insert_provider(m: &mut Vec<(TypeId, ProviderValue)>, id: TypeId, v: ProviderValue)
    ensures
        final(m)@ == insert_entry(old(m)@, id, v),
{
    proof {
        lemma_key_index_ids(old(m)@, id);
    }
    let mut i: usize = 0;
    while i < m.len()
        invariant
            i <= m@.len(),
            m@ == old(m)@,
            forall|j: int| 0 <= j < i ==> m@[j].0 != id,
        decreases m.len() - i,
    {
        if m[i].0 == id {
            proof {
                lemma_key_index_ids(m@, id);
                match key_index(m@, id) {
                    Some(x) => {
                        if x < i {
                            assert(m@[x].0 != id);
                        } else if x > i {
                            assert(m@[i as int].0 == id);
                        }
                    },
                    None => {
                        assert(m@[i as int].0 == id);
                    },
                }
            }
            let ghost old_key = m@[i as int].0;
            m.set(i, (id, v));
            assert(m@ =~= old(m)@.update(i as int, (old_key, v)));
            return;
        }
        i = i + 1;
    }
    proof {
        lemma_key_index_ids(m@, id);
        match key_index(m@, id) {
            Some(x) => {
                assert(m@[x].0 != id);
            },
            None => {},
        }
    }
    m.push((id, v));
}

proof fn lemma_key_index_ids(s: Seq<(TypeId, ProviderValue)>, k: TypeId)
    ensures
        match key_index(s, k) {
            Some(i) => 0 <= i < s.len() && s[i].0 == k && forall|j: int| 0 <= j < i ==> s[j].0 != k,
            None => forall|j: int| 0 <= j < s.len() ==> s[j].0 != k,
        },
    decreases s.len(),
{
    if s.len() > 0 {
        let t = s.drop_last();
        lemma_key_index_ids(t, k);
        assert forall|j: int| 0 <= j < t.len() implies t[j] == s[j] by {}
    }
}

/// The value the map holds for `id`.
fn lookup_provider(m: &Vec<(TypeId, ProviderValue)>, id: &TypeId) -> (r: Option<ProviderValue>)
    ensures
        r == lookup(m@, *id),
{
    proof {
        lemma_key_index_ids(m@, *id);
    }
    let mut i: usize = 0;
    while i < m.len()
        invariant
            i <= m@.len(),
            forall|j: int| 0 <= j < i ==> m@[j].0 != *id,
        decreases m.len() - i,
    {
        if m[i].0 == *id {
            proof {
                lemma_key_index_ids(m@, *id);
                match key_index(m@, *id) {
                    Some(x) => {
                        if x < i {
                            assert(m@[x].0 != *id);
                        } else if x > i {
                            assert(m@[i as int].0 == *id);
                        }
                    },
                    None => {
                        assert(m@[i as int].0 == *id);
                    },
                }
            }
            return Some(m[i].1);
        }
        i = i + 1;
    }
    proof {
        lemma_key_index_ids(m@, *id);
        match key_index(m@, *id) {
            Some(x) => {
                assert(m@[x].0 != *id);
            },
            None => {},
        }
    }
    None
}

/// The paths of the files among the items.
fn files_of_items(xs: &Vec<Item>) -> (r: Vec<File>)
    ensures
        r.deep_view() == files_of(crate::types::items_view(xs@)),
{
    let ghost v = crate::types::items_view(xs@);
    let mut out: Vec<File> = Vec::new();
    let mut i: usize = 0;
    assert(v.take(0) =~= Seq::<ItemV>::empty());
    assert(out.deep_view() =~= Seq::<Seq<char>>::empty());
    while i < xs.len()
        invariant
            i <= xs@.len(),
            v == crate::types::items_view(xs@),
            out.deep_view() == files_of(v.take(i as int)),
        decreases xs.len() - i,
    {
        assert(v.take(i as int + 1).drop_last() =~= v.take(i as int));
        assert(v.take(i as int + 1).last() == xs@[i as int]@);
        match &xs[i] {
            Item::File(f) => {
                let ghost before = out.deep_view();
                out.push(f.clone());
                assert(out.deep_view() =~= before.push(f@));
            },
            _ => {},
        }
        i = i + 1;
    }
    assert(v.take(v.len() as int) =~= v);
    out
}

fn subst_error_for_target(f: SubstFailure) -> (r: Error)
    ensures
        r@ == target_subst_error(f@),
{
    match f {
        SubstFailure::NotStruct { ty, repr: _ } => Error::SubstitutionsMustBeStruct(ty),
        SubstFailure::NotList { ty, repr: _ } => Error::SubstitutionValueMustBeList(ty),
        SubstFailure::BadItem { ty, repr: _ } => Error::InvalidSubstitutionType(ty),
    }
}

impl TargetProviders {
    /// The providers of a target built by GN itself: a `DefaultInfo` whose
    /// files are `output_files`, in a new depset of `store`.
    pub fn new_cxx(output_files: Vec<File>, builtins: &BuiltinModule, store: &mut DepsetStore) -> (r: TargetProviders)
        requires
            old(store).wf(),
        ensures
            final(store).wf(),
            final(store).nodes@.drop_last() == old(store).nodes@,
            final(store).nodes@.len() == old(store).nodes@.len() + 1,
            final(store).nodes@.last().kind == (if output_files@.len() == 0 {
                Kind::Empty
            } else {
                Kind::File
            }),
            r@.providers == seq![
                (builtins.default_info.id, ProviderValue::DefaultInfoOf(old(store).nodes@.len() as usize)),
            ],
            r@.output_files == output_files.deep_view(),
            r@.extra_inputs_phony is None,
            r@.substitutions.len() == 0,
    {
        let files = clone_files(&output_files);
        let h = store.new_file_depset(files);
        let providers = vec![(builtins.default_info.id, ProviderValue::DefaultInfoOf(h))];
        let r = TargetProviders {
            providers,
            output_files,
            extra_inputs_phony: None,
            substitutions: Vec::new(),
        };
        assert(r@.providers =~= seq![(builtins.default_info.id, ProviderValue::DefaultInfoOf(h))]);
        r
    }

    /// The providers of a target from the instances its implementation
    /// returned (see `target_providers_spec`).
    pub fn new(items: &Vec<ProviderInstance>, store: &DepsetStore, builtins: &BuiltinModule) -> (r: Result<
        TargetProviders,
        Error,
    >)
        requires
            store.wf(),
            builtins_set(items@, builtins.ids()),
            builtins.empty_default_info.values@.len() > 0,
            builtins.empty_default_info.values@[0] is Some,
        ensures
            match target_providers_spec(items@, store.nodes@, builtins.ids(), builtins.empty_default_info) {
                Ok(p) => r matches Ok(x) && x@ == p,
                Err(e) => r matches Err(x) && x@ == e,
            },
    {
        let ghost b = builtins.ids();
        let mut m: Vec<(TypeId, ProviderValue)> = Vec::new();
        let ghost pairs = Seq::new(items@.len(), |i: int| (items@[i].type_id, ProviderValue::Given(i as usize)));
        let mut i: usize = 0;
        assert(pairs.take(0) =~= Seq::<(TypeId, ProviderValue)>::empty());
        while i < items.len()
            invariant
                i <= items@.len(),
                pairs == Seq::new(items@.len(), |i: int| (items@[i].type_id, ProviderValue::Given(i as usize))),
                m@ == build_map(pairs.take(i as int)),
            decreases items.len() - i,
        {
            assert(pairs.take(i as int + 1).drop_last() =~= pairs.take(i as int));
            assert(pairs.take(i as int + 1).last() == pairs[i as int]);
            insert_provider(&mut m, items[i].type_id, ProviderValue::Given(i));
            i = i + 1;
        }
        assert(pairs.take(pairs.len() as int) =~= pairs);
        assert(m@ == provider_map(items@));
        proof {
            lemma_build_map_entries(pairs);
            assert forall|j: int| 0 <= j < m@.len() implies match (#[trigger] m@[j]).1 {
                ProviderValue::Given(i) => i < items@.len() && items@[i as int].type_id == m@[j].0,
                ProviderValue::EmptyDefaultInfo => true,
                ProviderValue::DefaultInfoOf(_) => false,
            } by {
                let i = choose|i: int| 0 <= i < pairs.len() && #[trigger] pairs[i] == build_map(pairs)[j];
                assert(pairs[i] == (items@[i].type_id, ProviderValue::Given(i as usize)));
            }
            lemma_lookup_ok(m@, items@, builtins.default_info.id);
        }
        let output_files = match lookup_provider(&m, &builtins.default_info.id) {
            None => {
                insert_absent(&mut m, builtins.default_info.id, ProviderValue::EmptyDefaultInfo);
                Vec::new()
            },
            Some(v) => {
                let f = match first_field_of(items, &builtins.empty_default_info, v) {
                    Some(f) => f,
                    None => {
                        return Err(Error::ExpectedDefaultInfoFilesDepset);
                    },
                };
                match (file_depset(f, store), &f.kind) {
                    (Some(_), PKind::Depset(h)) => {
                        let xs = store.to_list(*h);
                        files_of_items(&xs)
                    },
                    _ => {
                        return Err(Error::ExpectedDefaultInfoFilesDepset);
                    },
                }
            },
        };
        proof {
            assert(map_ok(m@, items@)) by {
                assert forall|j: int| 0 <= j < m@.len() implies match (#[trigger] m@[j]).1 {
                    ProviderValue::Given(i) => i < items@.len() && items@[i as int].type_id == m@[j].0,
                    ProviderValue::EmptyDefaultInfo => true,
                    ProviderValue::DefaultInfoOf(_) => false,
                } by {
                    let m0 = provider_map(items@);
                    if j < m0.len() {
                        assert(m@[j] == m0[j]);
                    }
                }
            }
            lemma_lookup_ok(m@, items@, builtins.gn_inputs_info.id);
            lemma_lookup_ok(m@, items@, builtins.gn_substitution_info.id);
        }
        let extra_inputs_phony = match lookup_provider(&m, &builtins.gn_inputs_info.id) {
            None => None,
            Some(v) => {
                let f = match first_field_of(items, &builtins.empty_default_info, v) {
                    Some(f) => f,
                    None => {
                        return Err(Error::ExpectedDefaultInfoRecord);
                    },
                };
                match file_depset(f, store) {
                    Some(p) => p,
                    None => {
                        return Err(Error::GnInputsInfoFilesMustBeFileDepset(f.repr.clone()));
                    },
                }
            },
        };
        let substitutions = match lookup_provider(&m, &builtins.gn_substitution_info.id) {
            None => Vec::new(),
            Some(v) => {
                let f = match first_field_of(items, &builtins.empty_default_info, v) {
                    Some(f) => f,
                    None => {
                        return Err(Error::ExpectedDefaultInfoRecord);
                    },
                };
                match parse_substitutions(f) {
                    Ok(l) => l,
                    Err(e) => {
                        return Err(subst_error_for_target(e));
                    },
                }
            },
        };
        let r = TargetProviders { providers: m, output_files, extra_inputs_phony, substitutions };
        proof {
            if r.substitutions@.len() == 0 {
                assert(r.substitutions.deep_view() =~= Seq::<(Seq<char>, Seq<ArgsItemV>)>::empty());
            }
            if r.output_files@.len() == 0 {
                assert(r.output_files.deep_view() =~= Seq::<Seq<char>>::empty());
            }
        }
        Ok(r)
    }

    /// The value of the provider of type `type_id`, if the target has one.
    pub fn get(&self, type_id: &TypeId) -> (r: Option<ProviderValue>)
        ensures
            r == lookup(self.providers@, *type_id),
    {
        lookup_provider(&self.providers, type_id)
    }

    /// Whether the target has a provider of type `type_id`.
    pub fn contains_key(&self, type_id: &TypeId) -> (r: bool)
        ensures
            r == (lookup(self.providers@, *type_id) is Some),
    {
        lookup_provider(&self.providers, type_id).is_some()
    }

    /// The target's output files, from its `DefaultInfo`.
    pub fn output_files(&self) -> (r: &Vec<File>)
        ensures
            r.deep_view() == self@.output_files,
    {
        &self.output_files
    }

    /// The phony file of the target's `GnInputsInfo`, if any.
    pub fn extra_inputs_phony(&self) -> (r: Option<&File>)
        ensures
            match r {
                Some(f) => self@.extra_inputs_phony == Some(f@),
                None => self@.extra_inputs_phony is None,
            },
    {
        match &self.extra_inputs_phony {
            Some(f) => Some(f),
            None => None,
        }
    }

    /// The target's substitutions, from its `GnSubstitutionInfo`.
    pub fn substitutions(&self) -> (r: &Vec<(String, Vec<ArgsItem>)>)
        ensures
            r.deep_view() == self@.substitutions,
    {
        &self.substitutions
    }
}

/// Appends an entry whose key the map does not hold.
fn insert_absent(m: &mut Vec<(TypeId, ProviderValue)>, id: TypeId, v: ProviderValue)
    requires
        lookup(old(m)@, id) is None,
    ensures
        final(m)@ == old(m)@.push((id, v)),
{
    m.push((id, v));
}

/// The first field of the instance a provider value names, where that
/// field is set.
fn first_field_of<'a>(items: &'a Vec<ProviderInstance>, empty: &'a ProviderInstance, v: ProviderValue) -> (r:
    Option<&'a PValue>)
    ensures
        (match v {
            ProviderValue::Given(i) => i < items@.len() && items@[i as int].values@.len() > 0
                && items@[i as int].values@[0] is Some,
            _ => empty.values@.len() > 0 && empty.values@[0] is Some,
        }) ==> r == Some(&first_field(items@, *empty, v)),
{
    let inst = match v {
        ProviderValue::Given(i) => {
            if i < items.len() {
                &items[i]
            } else {
                return None;
            }
        },
        _ => empty,
    };
    if inst.values.len() > 0 {
        match &inst.values[0] {
            Some(f) => Some(f),
            None => None,
        }
    } else {
        None
    }
}

fn clone_files(v: &Vec<File>) -> (r: Vec<File>)
    ensures
        r@ == v@,
{
    let mut out: Vec<File> = Vec::new();
    let mut i: usize = 0;
    while i < v.len()
        invariant
            i <= v@.len(),
            out@ == v@.take(i as int),
        decreases v.len() - i,
    {
        out.push(v[i].clone());
        assert(v@.take(i as int + 1) =~= v@.take(i as int).push(v@[i as int]));
        i = i + 1;
    }
    assert(v@.take(v@.len() as int) =~= v@);
    out
}


/// Every entry of a map built by insertion comes from an inserted entry.
proof fn lemma_build_map_entries<A, B>(s: Seq<(A, B)>)
    ensures
        forall|j: int|
            0 <= j < build_map(s).len() ==> exists|i: int| 0 <= i < s.len() && #[trigger] s[i] == #[trigger] build_map(s)[j],
    decreases s.len(),
{
    if s.len() > 0 {
        let t = s.drop_last();
        lemma_build_map_entries(t);
        let p = build_map(t);
        crate::attr::lemma_key_index_pub(p, s.last().0);
        assert forall|j: int| 0 <= j < build_map(s).len() implies exists|i: int|
            0 <= i < s.len() && #[trigger] s[i] == #[trigger] build_map(s)[j] by {
            let m = build_map(s);
            match key_index(p, s.last().0) {
                Some(x) => {
                    if j == x {
                        assert(m[j] == (p[x].0, s.last().1));
                        assert(p[x].0 == s.last().0);
                        assert(s[s.len() - 1] == m[j]);
                    } else {
                        assert(m[j] == p[j]);
                        let i = choose|i: int| 0 <= i < t.len() && t[i] == p[j];
                        assert(s[i] == t[i]);
                    }
                },
                None => {
                    if j == p.len() {
                        assert(s[s.len() - 1] == m[j]);
                    } else {
                        assert(m[j] == p[j]);
                        let i = choose|i: int| 0 <= i < t.len() && t[i] == p[j];
                        assert(s[i] == t[i]);
                    }
                },
            }
        }
    }
}


/// Every provider of the map is a given instance of its type, or the
/// built-in empty `DefaultInfo`.
pub open spec fn map_ok(m: Seq<(TypeId, ProviderValue)>, items: Seq<ProviderInstance>) -> bool {
    forall|j: int|
        0 <= j < m.len() ==> match (#[trigger] m[j]).1 {
            ProviderValue::Given(i) => i < items.len() && items[i as int].type_id == m[j].0,
            ProviderValue::EmptyDefaultInfo => true,
            ProviderValue::DefaultInfoOf(_) => false,
        }
}

proof fn lemma_lookup_ok(m: Seq<(TypeId, ProviderValue)>, items: Seq<ProviderInstance>, id: TypeId)
    requires
        map_ok(m, items),
    ensures
        lookup(m, id) matches Some(v) ==> match v {
            ProviderValue::Given(i) => i < items.len() && items[i as int].type_id == id,
            ProviderValue::EmptyDefaultInfo => true,
            ProviderValue::DefaultInfoOf(_) => false,
        },
{
    lemma_key_index_ids(m, id);
    match key_index(m, id) {
        Some(k) => {
            assert(match m[k].1 {
                ProviderValue::Given(i) => i < items.len() && items[i as int].type_id == m[k].0,
                ProviderValue::EmptyDefaultInfo => true,
                ProviderValue::DefaultInfoOf(_) => false,
            });
        },
        None => {},
    }
}


/// The message of a provider error.
pub open spec fn error_message(e: ErrorV) -> Seq<char> {
    match e {
        ErrorV::ExpectedProviderType => "Expected provider type"@,
        ErrorV::FieldsMustBeStrings => "provider fields must be strings"@,
        ErrorV::FieldsMustBeIterable => "Provider fields must be an iterable"@,
        ErrorV::DuplicateField(f) => "Duplicate field name: "@ + f,
        ErrorV::InvalidProviderName(n) => "Provider name must end with 'Info' (got '"@ + n + "')"@,
        ErrorV::ProviderNotExported => "The result of provider() must be assigned to a variable"@,
        ErrorV::DuplicateProvider(n) => "Duplicate provider: "@ + n,
        ErrorV::ExpectedDefaultInfoRecord => "Expected DefaultInfo to be a record"@,
        ErrorV::ExpectedDefaultInfoFilesDepset => "Expected files in DefaultInfo to be a depset"@,
        ErrorV::DefaultInfoFilesMustBeFileDepset(r) => "DefaultInfo.files must be a depset of files, got "@ + r,
        ErrorV::GnInputsInfoFilesMustBeFileDepset(r) => "GnInputsInfo.files must be a depset of files, got "@ + r,
        ErrorV::GnSubstitutionsInfoSubstitutionsMustBeStruct(r) =>
            "GnSubstitutionsInfo.substitutions must be a struct, got "@ + r,
        ErrorV::ExpectedList(d) => "Expected `list`, but got `"@ + d + "`"@,
        ErrorV::ExpectedArgsOrStr(d) => "Expected `Args | str`, but got `"@ + d + "`"@,
        ErrorV::InvalidSubstitutionType(t) => "Expected string or Args object in substitutions, got: "@ + t,
        ErrorV::SubstitutionsMustBeStruct(t) => "substitutions must be a struct, got type: "@ + t,
        ErrorV::SubstitutionValueMustBeList(t) => "substitution values must be a list, got type: "@ + t,
    }
}

fn join3(a: &str, b: &str, c: &str) -> (r: String)
    ensures
        r@ == a@ + b@ + c@,
{
    let mut r = String::from_str(a);
    r.append(b);
    r.append(c);
    r
}

fn join2(a: &str, b: &str) -> (r: String)
    ensures
        r@ == a@ + b@,
{
    let mut r = String::from_str(a);
    r.append(b);
    r
}

impl Error {
    /// The error's message.
    pub fn message(&self) -> (r: String)
        ensures
            r@ == error_message(self@),
    {
        match self {
            Error::ExpectedProviderType => String::from_str("Expected provider type"),
            Error::FieldsMustBeStrings => String::from_str("provider fields must be strings"),
            Error::FieldsMustBeIterable => String::from_str("Provider fields must be an iterable"),
            Error::DuplicateField(f) => join2("Duplicate field name: ", f.as_str()),
            Error::InvalidProviderName(n) => join3("Provider name must end with 'Info' (got '", n.as_str(), "')"),
            Error::ProviderNotExported => String::from_str("The result of provider() must be assigned to a variable"),
            Error::DuplicateProvider(n) => join2("Duplicate provider: ", n.as_str()),
            Error::ExpectedDefaultInfoRecord => String::from_str("Expected DefaultInfo to be a record"),
            Error::ExpectedDefaultInfoFilesDepset => String::from_str("Expected files in DefaultInfo to be a depset"),
            Error::DefaultInfoFilesMustBeFileDepset(r) => join2(
                "DefaultInfo.files must be a depset of files, got ",
                r.as_str(),
            ),
            Error::GnInputsInfoFilesMustBeFileDepset(r) => join2(
                "GnInputsInfo.files must be a depset of files, got ",
                r.as_str(),
            ),
            Error::GnSubstitutionsInfoSubstitutionsMustBeStruct(r) => join2(
                "GnSubstitutionsInfo.substitutions must be a struct, got ",
                r.as_str(),
            ),
            Error::ExpectedList(d) => join3("Expected `list`, but got `", d.as_str(), "`"),
            Error::ExpectedArgsOrStr(d) => join3("Expected `Args | str`, but got `", d.as_str(), "`"),
            Error::InvalidSubstitutionType(t) => join2(
                "Expected string or Args object in substitutions, got: ",
                t.as_str(),
            ),
            Error::SubstitutionsMustBeStruct(t) => join2("substitutions must be a struct, got type: ", t.as_str()),
            Error::SubstitutionValueMustBeList(t) => join2(
                "substitution values must be a list, got type: ",
                t.as_str(),
            ),
        }
    }
}


/// Law: reading a declared field of an instance gives the value given for
/// it: in a provider type, field `i` is found at index `i`.
pub proof fn lemma_field_found(fields: Seq<Seq<char>>, i: int)
    requires
        crate::seqs::distinct(fields),
        0 <= i < fields.len(),
    ensures
        index_of(fields, fields[i]) == Some(i),
{
    lemma_index_of(fields, fields[i]);
    match index_of(fields, fields[i]) {
        Some(k) => {
            if k > i {
                assert(fields[i] == fields[i]);
            }
        },
        None => {
            assert(fields.contains(fields[i]));
        },
    }
}

/// Law: the providers unpacked from a list hold each provider type at most
/// once.
pub proof fn lemma_unpack_types_distinct(
    items: Seq<ProviderInstance>,
    nodes: Seq<crate::depset::DepsetGen>,
    b: BuiltinIds,
)
    requires
        unpack_spec(items, nodes, b) is Ok,
    ensures
        crate::seqs::distinct(crate::attr::keys_of(unpack_spec(items, nodes, b)->Ok_0.value)),
    decreases items.len(),
{
    if items.len() == 0 {
        assert(crate::attr::keys_of(unpack_spec(items, nodes, b)->Ok_0.value) =~= Seq::<TypeId>::empty());
    } else {
        let t = items.drop_last();
        lemma_unpack_types_distinct(t, nodes, b);
        let st = unpack_spec(t, nodes, b)->Ok_0;
        let id = items.last().type_id;
        let st2 = unpack_spec(items, nodes, b)->Ok_0;
        assert(st2.value == st.value.push((id, (items.len() - 1) as usize)));
        let ks = crate::attr::keys_of(st.value);
        let ks2 = crate::attr::keys_of(st2.value);
        assert(ks2 =~= ks.push(id));
        assert forall|a: int, c: int| 0 <= a < ks2.len() && 0 <= c < ks2.len() && a != c implies ks2[a] != ks2[c] by {
            if a == ks.len() {
                assert(st.value[c].0 != id);
            } else if c == ks.len() {
                assert(st.value[a].0 != id);
            } else {
                assert(ks[a] == ks2[a] && ks[c] == ks2[c]);
            }
        }
    }
}

/// The entries `field = repr` of the set fields, in declaration order.
pub open spec fn set_entries(fields: Seq<Seq<char>>, values: Seq<Option<PValue>>) -> Seq<Seq<char>>
    decreases fields.len(),
{
    if fields.len() == 0 || values.len() < fields.len() {
        Seq::empty()
    } else {
        let p = set_entries(fields.drop_last(), values);
        match values[fields.len() - 1] {
            Some(v) => p.push(entry_repr(fields.last(), v.repr@)),
            None => p,
        }
    }
}

proof fn lemma_entries_joined(fields: Seq<Seq<char>>, values: Seq<Option<PValue>>)
    ensures
        entries_repr(fields, values) == crate::args::join(set_entries(fields, values), ", "@),
        set_entries(fields, values).len() == set_fields(fields, values).len(),
        set_entries(fields, values).len() == 0 <==> entries_repr(fields, values).len() == 0,
    decreases fields.len(),
{
    if fields.len() > 0 && values.len() >= fields.len() {
        let f = fields.drop_last();
        lemma_entries_joined(f, values);
        match values[fields.len() - 1] {
            Some(v) => {
                let e = entry_repr(fields.last(), v.repr@);
                lemma_entry_nonempty(fields.last(), v.repr@);
                let p = set_entries(f, values);
                let q = p.push(e);
                assert(q.drop_last() =~= p);
                assert(q.last() == e);
                assert(set_fields(fields, values) == set_fields(f, values).push(fields.last()));
                if p.len() == 0 {
                    assert(crate::args::join(q, ", "@) == q[0]);
                } else {
                    assert(crate::args::join(q, ", "@) == crate::args::join(p, ", "@) + ", "@ + e);
                }
                assert((entries_repr(fields, values)).len() > 0) by {
                    if p.len() == 0 {
                    } else {
                        assert((crate::args::join(p, ", "@) + ", "@ + e).len() >= e.len());
                    }
                }
            },
            None => {
                assert(set_entries(fields, values) == set_entries(f, values));
                assert(set_fields(fields, values) == set_fields(f, values));
            },
        }
    }
}

/// Law: an instance prints as its name, `(`, the entries `field = repr` of
/// its set fields in declaration order joined by `, `, and `)`: there is one
/// entry per set field, no separator comes before the first entry, and an
/// instance with exactly one set field prints as `Name(field = value)`.
pub proof fn lemma_repr_joins_set_fields(name: Seq<char>, fields: Seq<Seq<char>>, values: Seq<Option<PValue>>)
    requires
        values.len() == fields.len(),
    ensures
        instance_repr(name, fields, values) == name + "("@ + crate::args::join(set_entries(fields, values), ", "@)
            + ")"@,
        set_entries(fields, values).len() == set_fields(fields, values).len(),
        set_entries(fields, values).len() == 1 ==> instance_repr(name, fields, values) == name + "("@
            + set_entries(fields, values)[0] + ")"@,
{
    lemma_entries_joined(fields, values);
}

} // verus!
