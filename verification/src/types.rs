//! Plain-value models of the build-graph values that the Starlark layer
//! passes around: source files, target labels and hashable scalar items.
use vstd::prelude::*;

verus! {

/// A source or output file, identified by its path.
#[derive(PartialEq, Eq, Debug)]
pub struct File {
    pub path: String,
}

impl View for File {
    type V = Seq<char>;

    open spec fn view(&self) -> Seq<char> {
        self.path@
    }
}

impl Clone for File {
    fn clone(&self) -> (r: Self)
        ensures
            r == *self,
    {
        File { path: self.path.clone() }
    }
}

impl File {
    /// Creates a file from its path.
    pub fn new(path: &str) -> (r: File)
        ensures
            r@ == path@,
    {
        File { path: String::from_str(path) }
    }

    /// Returns the file's path.
    pub fn as_str(&self) -> (r: &str)
        ensures
            r@ == self@,
    {
        self.path.as_str()
    }

    /// Compares two files by path.
    pub fn same(&self, other: &File) -> (r: bool)
        ensures
            r == (self@ == other@),
    {
        self.path == other.path
    }
}

/// A target label: a package (such as `//foo`) and a name inside it.
#[derive(PartialEq, Eq, Debug)]
pub struct Label {
    pub package: String,
    pub name: String,
}

impl View for Label {
    type V = (Seq<char>, Seq<char>);

    open spec fn view(&self) -> (Seq<char>, Seq<char>) {
        (self.package@, self.name@)
    }
}

impl Clone for Label {
    fn clone(&self) -> (r: Self)
        ensures
            r == *self,
    {
        Label { package: self.package.clone(), name: self.name.clone() }
    }
}

impl Label {
    /// Creates a label from its package and name.
    pub fn new(package: &str, name: &str) -> (r: Label)
        ensures
            r.package@ == package@,
            r.name@ == name@,
    {
        Label { package: String::from_str(package), name: String::from_str(name) }
    }

    /// Compares two labels by package and name.
    pub fn same(&self, other: &Label) -> (r: bool)
        ensures
            r == (self@ == other@),
    {
        self.package == other.package && self.name == other.name
    }
}

/// A hashable scalar Starlark value, as it can appear in a depset or on a
/// command line. Values of other types carry their type name and their
/// `repr`, as the interpreter prints them.
#[derive(PartialEq, Eq, Debug)]
pub enum Item {
    NoneValue,
    Bool(bool),
    Int(i64),
    Str(String),
    File(File),
    Other { ty: String, repr: String },
}

/// The mathematical value of an [`Item`].
pub enum ItemV {
    NoneValue,
    Bool(bool),
    Int(int),
    Str(Seq<char>),
    File(Seq<char>),
    Other(Seq<char>, Seq<char>),
}

impl View for Item {
    type V = ItemV;

    open spec fn view(&self) -> ItemV {
        match self {
            Item::NoneValue => ItemV::NoneValue,
            Item::Bool(b) => ItemV::Bool(*b),
            Item::Int(i) => ItemV::Int(*i as int),
            Item::Str(s) => ItemV::Str(s@),
            Item::File(f) => ItemV::File(f@),
            Item::Other { ty, repr } => ItemV::Other(ty@, repr@),
        }
    }
}

impl Clone for Item {
    fn clone(&self) -> (r: Self)
        ensures
            r == *self,
    {
        match self {
            Item::NoneValue => Item::NoneValue,
            Item::Bool(b) => Item::Bool(*b),
            Item::Int(i) => Item::Int(*i),
            Item::Str(s) => Item::Str(s.clone()),
            Item::File(f) => Item::File(f.clone()),
            Item::Other { ty, repr } => Item::Other {
                ty: ty.clone(),
                repr: repr.clone(),
            },
        }
    }
}

/// A Starlark value as rule and attribute code reads it: the scalars, and
/// lists and dicts of values. A dict lists its entries in insertion order.
#[derive(PartialEq, Eq, Debug)]
pub enum Value {
    NoneValue,
    Bool(bool),
    Int(i64),
    Str(String),
    List(Vec<Value>),
    Dict(Vec<(Value, Value)>),
}

impl DeepView for File {
    type V = Seq<char>;

    open spec fn deep_view(&self) -> Seq<char> {
        self@
    }
}

impl DeepView for Label {
    type V = (Seq<char>, Seq<char>);

    open spec fn deep_view(&self) -> (Seq<char>, Seq<char>) {
        self@
    }
}

/// The views of a sequence of items.
pub open spec fn items_view(s: Seq<Item>) -> Seq<ItemV> {
    s.map_values(|x: Item| x@)
}

/// The views of a sequence of strings.
pub open spec fn strs_view(s: Seq<String>) -> Seq<Seq<char>> {
    s.map_values(|x: String| x@)
}

impl Item {
    /// Compares two items by value.
    pub fn same(&self, other: &Item) -> (r: bool)
        ensures
            r == (self@ == other@),
    {
        match (self, other) {
            (Item::NoneValue, Item::NoneValue) => true,
            (Item::Bool(a), Item::Bool(b)) => *a == *b,
            (Item::Int(a), Item::Int(b)) => *a == *b,
            (Item::Str(a), Item::Str(b)) => *a == *b,
            (Item::File(a), Item::File(b)) => a.same(b),
            (
                Item::Other { ty: t1, repr: r1 },
                Item::Other { ty: t2, repr: r2 },
            ) => *t1 == *t2 && *r1 == *r2,
            _ => false,
        }
    }

    /// Returns whether the item is a `File`.
    pub fn is_file(&self) -> (r: bool)
        ensures
            r == (self is File),
    {
        match self {
            Item::File(_) => true,
            _ => false,
        }
    }
}

/// Returns whether `v` holds an item equal to `x`.
pub fn contains_item(v: &Vec<Item>, x: &Item) -> (r: bool)
    ensures
        r == items_view(v@).contains(x@),
{
    let mut i: usize = 0;
    while i < v.len()
        invariant
            i <= v@.len(),
            forall|j: int| 0 <= j < i ==> v@[j]@ != x@,
        decreases v.len() - i,
    {
        if v[i].same(x) {
            assert(items_view(v@)[i as int] == x@);
            return true;
        }
        i = i + 1;
    }
    assert forall|j: int| 0 <= j < items_view(v@).len() implies items_view(v@)[j] != x@ by {
        assert(items_view(v@)[j] == v@[j]@);
    }
    false
}

/// Returns whether `v` holds a string equal to `x`.
pub fn contains_string(v: &Vec<String>, x: &String) -> (r: bool)
    ensures
        r == strs_view(v@).contains(x@),
{
    let mut i: usize = 0;
    while i < v.len()
        invariant
            i <= v@.len(),
            forall|j: int| 0 <= j < i ==> v@[j]@ != x@,
        decreases v.len() - i,
    {
        if v[i] == *x {
            assert(strs_view(v@)[i as int] == x@);
            return true;
        }
        i = i + 1;
    }
    assert forall|j: int| 0 <= j < strs_view(v@).len() implies strs_view(v@)[j] != x@ by {
        assert(strs_view(v@)[j] == v@[j]@);
    }
    false
}

} // verus!
