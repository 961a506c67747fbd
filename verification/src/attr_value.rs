//! What a rule implementation sees of an attribute: its value with labels
//! resolved to targets, and the files it provides (`ctx.file`,
//! `ctx.files`).
use vstd::prelude::*;

use crate::attr::{
    insert_entry, insert_entry_exec, matcher_of, validate_spec, AllowFiles, AllowFilesSchemaV,
    AllowFilesV, Attr, AttrSchema, AttrSchemaV, Error, ErrorV, KeyEq, LabelOrFile, LabelOrFileV,
};
use crate::seqs::{dedup, dedup_from, lemma_dedup_from_append, lemma_dedup_from_push};
use crate::types::{File, Label};

verus! {

/// A Starlark value that an attribute resolves to: a scalar, a target (named
/// by its label) or a file.
#[derive(PartialEq, Eq, Debug)]
pub enum Resolved {
    NoneValue,
    Bool(bool),
    Int(i32),
    Str(String),
    Target(Label),
    File(File),
}

/// The mathematical value of a [`Resolved`].
pub enum ResolvedV {
    NoneValue,
    Bool(bool),
    Int(i32),
    Str(Seq<char>),
    Target((Seq<char>, Seq<char>)),
    File(Seq<char>),
}

impl View for Resolved {
    type V = ResolvedV;

    open spec fn view(&self) -> ResolvedV {
        match self {
            Resolved::NoneValue => ResolvedV::NoneValue,
            Resolved::Bool(b) => ResolvedV::Bool(*b),
            Resolved::Int(i) => ResolvedV::Int(*i),
            Resolved::Str(s) => ResolvedV::Str(s@),
            Resolved::Target(l) => ResolvedV::Target(l@),
            Resolved::File(f) => ResolvedV::File(f@),
        }
    }
}

impl DeepView for Resolved {
    type V = ResolvedV;

    open spec fn deep_view(&self) -> ResolvedV {
        self@
    }
}

impl KeyEq for Resolved {
    fn same_key(&self, other: &Self) -> (r: bool) {
        match (self, other) {
            (Resolved::NoneValue, Resolved::NoneValue) => true,
            (Resolved::Bool(a), Resolved::Bool(b)) => *a == *b,
            (Resolved::Int(a), Resolved::Int(b)) => *a == *b,
            (Resolved::Str(a), Resolved::Str(b)) => *a == *b,
            (Resolved::Target(a), Resolved::Target(b)) => a.same(b),
            (Resolved::File(a), Resolved::File(b)) => a.same(b),
            _ => false,
        }
    }
}

/// The value of an attribute with its labels resolved: a single value, a
/// list, a dict, or a dict of lists.
#[derive(PartialEq, Eq, Debug)]
pub enum ResolvedAttr {
    Value(Resolved),
    List(Vec<Resolved>),
    Dict(Vec<(Resolved, Resolved)>),
    DictOfLists(Vec<(Resolved, Vec<Resolved>)>),
}

/// The mathematical value of a [`ResolvedAttr`].
pub enum ResolvedAttrV {
    Value(ResolvedV),
    List(Seq<ResolvedV>),
    Dict(Seq<(ResolvedV, ResolvedV)>),
    DictOfLists(Seq<(ResolvedV, Seq<ResolvedV>)>),
}

impl View for ResolvedAttr {
    type V = ResolvedAttrV;

    open spec fn view(&self) -> ResolvedAttrV {
        match self {
            ResolvedAttr::Value(v) => ResolvedAttrV::Value(v@),
            ResolvedAttr::List(l) => ResolvedAttrV::List(l.deep_view()),
            ResolvedAttr::Dict(d) => ResolvedAttrV::Dict(d.deep_view()),
            ResolvedAttr::DictOfLists(d) => ResolvedAttrV::DictOfLists(d.deep_view()),
        }
    }
}

/// Attribute elements that resolve to a Starlark value.
pub trait Resolve: DeepView + Sized {
    spec fn resolved(&self) -> ResolvedV;

    fn resolve(&self) -> (r: Resolved)
        ensures
            r@ == self.resolved(),
    ;
}

impl Resolve for i32 {
    open spec fn resolved(&self) -> ResolvedV {
        ResolvedV::Int(*self)
    }

    fn resolve(&self) -> (r: Resolved) {
        Resolved::Int(*self)
    }
}

impl Resolve for String {
    open spec fn resolved(&self) -> ResolvedV {
        ResolvedV::Str(self@)
    }

    fn resolve(&self) -> (r: Resolved) {
        Resolved::Str(self.clone())
    }
}

impl Resolve for LabelOrFile {
    open spec fn resolved(&self) -> ResolvedV {
        match self {
            LabelOrFile::Label(l) => ResolvedV::Target(l@),
            LabelOrFile::File(f) => ResolvedV::File(f@),
        }
    }

    fn resolve(&self) -> (r: Resolved) {
        match self {
            LabelOrFile::Label(l) => Resolved::Target(l.clone()),
            LabelOrFile::File(f) => Resolved::File(f.clone()),
        }
    }
}

/// The resolved elements of a list.
pub open spec fn resolved_list<T: Resolve>(v: Seq<T>) -> Seq<ResolvedV> {
    v.map_values(|x: T| x.resolved())
}

/// The insertion-ordered map made by inserting the entries in turn.
pub open spec fn build_map<A, B>(s: Seq<(A, B)>) -> Seq<(A, B)>
    decreases s.len(),
{
    if s.len() == 0 {
        Seq::empty()
    } else {
        insert_entry(build_map(s.drop_last()), s.last().0, s.last().1)
    }
}

/// The resolved entries of a dict.
pub open spec fn resolved_pairs<A: Resolve, B: Resolve>(d: Seq<(A, B)>) -> Seq<(ResolvedV, ResolvedV)> {
    build_map(d.map_values(|e: (A, B)| (e.0.resolved(), e.1.resolved())))
}

/// The resolved entries of a dict of lists.
pub open spec fn resolved_pair_lists<A: Resolve, B: Resolve>(d: Seq<(A, Vec<B>)>) -> Seq<
    (ResolvedV, Seq<ResolvedV>),
> {
    build_map(d.map_values(|e: (A, Vec<B>)| (e.0.resolved(), resolved_list(e.1@))))
}

/// The value an attribute resolves to: labels become the targets they
/// name, files stay files.
pub open spec fn resolve_spec(a: Attr) -> ResolvedAttrV {
    match a {
        Attr::NoneValue => ResolvedAttrV::Value(ResolvedV::NoneValue),
        Attr::Bool(b) => ResolvedAttrV::Value(ResolvedV::Bool(b)),
        Attr::Int(i) => ResolvedAttrV::Value(ResolvedV::Int(i)),
        Attr::String(s) => ResolvedAttrV::Value(ResolvedV::Str(s@)),
        Attr::IntList(l) => ResolvedAttrV::List(resolved_list(l@)),
        Attr::StringList(l) => ResolvedAttrV::List(resolved_list(l@)),
        Attr::StringListDict(d) => ResolvedAttrV::DictOfLists(resolved_pair_lists(d@)),
        Attr::Label(lf) => ResolvedAttrV::Value(lf.resolved()),
        Attr::LabelList(l) => ResolvedAttrV::List(resolved_list(l@)),
        Attr::StringDict(d) => ResolvedAttrV::Dict(resolved_pairs(d@)),
        Attr::LabelKeyedStringDict(d) => ResolvedAttrV::Dict(resolved_pairs(d@)),
        Attr::StringKeyedLabelDict(d) => ResolvedAttrV::Dict(resolved_pairs(d@)),
        Attr::LabelListDict(d) => ResolvedAttrV::DictOfLists(resolved_pair_lists(d@)),
    }
}

/// Resolves each element of a list.
fn resolve_list<T: Resolve>(v: &Vec<T>) -> (r: Vec<Resolved>)
    ensures
        r.deep_view() == resolved_list(v@),
{
    let mut out: Vec<Resolved> = Vec::new();
    let mut i: usize = 0;
    while i < v.len()
        invariant
            i <= v@.len(),
            out@.len() == i,
            forall|j: int| 0 <= j < i ==> (#[trigger] out@[j])@ == v@[j].resolved(),
        decreases v.len() - i,
    {
        out.push(v[i].resolve());
        i = i + 1;
    }
    assert(out.deep_view() =~= resolved_list(v@));
    out
}

/// Resolves each entry of a dict, inserting them in turn.
fn resolve_pairs<A: Resolve, B: Resolve>(d: &Vec<(A, B)>) -> (r: Vec<(Resolved, Resolved)>)
    ensures
        r.deep_view() == resolved_pairs(d@),
{
    let ghost m = d@.map_values(|e: (A, B)| (e.0.resolved(), e.1.resolved()));
    let mut out: Vec<(Resolved, Resolved)> = Vec::new();
    let mut i: usize = 0;
    assert(m.take(0) =~= Seq::empty());
    assert(out.deep_view() =~= Seq::empty());
    while i < d.len()
        invariant
            i <= d@.len(),
            m == d@.map_values(|e: (A, B)| (e.0.resolved(), e.1.resolved())),
            out.deep_view() == build_map(m.take(i as int)),
        decreases d.len() - i,
    {
        assert(m.take(i as int + 1).drop_last() =~= m.take(i as int));
        assert(m.take(i as int + 1).last() == m[i as int]);
        let k = d[i].0.resolve();
        let v = d[i].1.resolve();
        insert_entry_exec(&mut out, k, v);
        i = i + 1;
    }
    assert(m.take(d@.len() as int) =~= m);
    out
}

/// Resolves each entry of a dict of lists, inserting them in turn.
fn resolve_pair_lists<A: Resolve, B: Resolve>(d: &Vec<(A, Vec<B>)>) -> (r: Vec<(Resolved, Vec<Resolved>)>)
    ensures
        r.deep_view() == resolved_pair_lists(d@),
{
    let ghost m = d@.map_values(|e: (A, Vec<B>)| (e.0.resolved(), resolved_list(e.1@)));
    let mut out: Vec<(Resolved, Vec<Resolved>)> = Vec::new();
    let mut i: usize = 0;
    assert(m.take(0) =~= Seq::empty());
    assert(out.deep_view() =~= Seq::empty());
    while i < d.len()
        invariant
            i <= d@.len(),
            m == d@.map_values(|e: (A, Vec<B>)| (e.0.resolved(), resolved_list(e.1@))),
            out.deep_view() == build_map(m.take(i as int)),
        decreases d.len() - i,
    {
        assert(m.take(i as int + 1).drop_last() =~= m.take(i as int));
        assert(m.take(i as int + 1).last() == m[i as int]);
        let k = d[i].0.resolve();
        let v = resolve_list(&d[i].1);
        insert_entry_exec(&mut out, k, v);
        i = i + 1;
    }
    assert(m.take(d@.len() as int) =~= m);
    out
}

impl Attr {
    /// The value of the attribute with its labels resolved to targets.
    pub fn resolve_value(&self) -> (r: ResolvedAttr)
        ensures
            r@ == resolve_spec(*self),
    {
        match self {
            Attr::NoneValue => ResolvedAttr::Value(Resolved::NoneValue),
            Attr::Bool(b) => ResolvedAttr::Value(Resolved::Bool(*b)),
            Attr::Int(i) => ResolvedAttr::Value(Resolved::Int(*i)),
            Attr::String(s) => ResolvedAttr::Value(Resolved::Str(s.clone())),
            Attr::IntList(l) => ResolvedAttr::List(resolve_list(l)),
            Attr::StringList(l) => ResolvedAttr::List(resolve_list(l)),
            Attr::StringListDict(d) => ResolvedAttr::DictOfLists(resolve_pair_lists(d)),
            Attr::Label(lf) => ResolvedAttr::Value(lf.resolve()),
            Attr::LabelList(l) => ResolvedAttr::List(resolve_list(l)),
            Attr::StringDict(d) => ResolvedAttr::Dict(resolve_pairs(d)),
            Attr::LabelKeyedStringDict(d) => ResolvedAttr::Dict(resolve_pairs(d)),
            Attr::StringKeyedLabelDict(d) => ResolvedAttr::Dict(resolve_pairs(d)),
            Attr::LabelListDict(d) => ResolvedAttr::DictOfLists(resolve_pair_lists(d)),
        }
    }
}


/// The sequences of `ss` joined in order.
pub open spec fn concat_all<T>(ss: Seq<Seq<T>>) -> Seq<T>
    decreases ss.len(),
{
    if ss.len() == 0 {
        Seq::empty()
    } else {
        concat_all(ss.drop_last()) + ss.last()
    }
}

/// The labels and files an attribute names, in the order of its value:
/// list order, and for dicts entry order.
pub open spec fn occurrences(a: Attr) -> Seq<LabelOrFileV> {
    match a {
        Attr::Label(lf) => seq![lf@],
        Attr::LabelList(l) => l.deep_view(),
        Attr::LabelKeyedStringDict(d) => d.deep_view().map_values(|e: (LabelOrFileV, Seq<char>)| e.0),
        Attr::StringKeyedLabelDict(d) => d.deep_view().map_values(|e: (Seq<char>, LabelOrFileV)| e.1),
        Attr::LabelListDict(d) => concat_all(
            d.deep_view().map_values(|e: (Seq<char>, Seq<LabelOrFileV>)| e.1),
        ),
        _ => Seq::empty(),
    }
}

/// The labels among `occ`, in order.
pub open spec fn labels_of(occ: Seq<LabelOrFileV>) -> Seq<(Seq<char>, Seq<char>)>
    decreases occ.len(),
{
    if occ.len() == 0 {
        Seq::empty()
    } else {
        match occ.last() {
            LabelOrFileV::Label(l) => labels_of(occ.drop_last()).push(l),
            LabelOrFileV::File(_) => labels_of(occ.drop_last()),
        }
    }
}

/// Appends copies of the elements of `v` to `out`.
fn extend_lofs(out: &mut Vec<LabelOrFile>, v: &Vec<LabelOrFile>)
    ensures
        final(out).deep_view() == old(out).deep_view() + v.deep_view(),
{
    let ghost o = out.deep_view();
    let mut i: usize = 0;
    while i < v.len()
        invariant
            i <= v@.len(),
            out.deep_view() == o + v.deep_view().take(i as int),
        decreases v.len() - i,
    {
        let ghost before = out.deep_view();
        out.push(v[i].clone());
        assert(out.deep_view() =~= before.push(v@[i as int]@));
        assert(v.deep_view().take(i as int + 1) =~= v.deep_view().take(i as int).push(v@[i as int]@));
        i = i + 1;
    }
    assert(v.deep_view().take(v@.len() as int) =~= v.deep_view());
}

impl Attr {
    /// The labels and files the attribute names, in order.
    pub fn occurrences(&self) -> (r: Vec<LabelOrFile>)
        ensures
            r.deep_view() == occurrences(*self),
    {
        let mut out: Vec<LabelOrFile> = Vec::new();
        match self {
            Attr::Label(lf) => {
                out.push(lf.clone());
                assert(out.deep_view() =~= seq![lf@]);
            },
            Attr::LabelList(l) => {
                extend_lofs(&mut out, l);
                assert(out.deep_view() =~= l.deep_view());
            },
            Attr::LabelKeyedStringDict(d) => {
                let mut i: usize = 0;
                while i < d.len()
                    invariant
                        i <= d@.len(),
                        out@.len() == i,
                        forall|j: int| 0 <= j < i ==> (#[trigger] out@[j])@ == d@[j].0@,
                    decreases d.len() - i,
                {
                    out.push(d[i].0.clone());
                    i = i + 1;
                }
                assert(out.deep_view() =~= occurrences(*self));
            },
            Attr::StringKeyedLabelDict(d) => {
                let mut i: usize = 0;
                while i < d.len()
                    invariant
                        i <= d@.len(),
                        out@.len() == i,
                        forall|j: int| 0 <= j < i ==> (#[trigger] out@[j])@ == d@[j].1@,
                    decreases d.len() - i,
                {
                    out.push(d[i].1.clone());
                    i = i + 1;
                }
                assert(out.deep_view() =~= occurrences(*self));
            },
            Attr::LabelListDict(d) => {
                let ghost m = d.deep_view().map_values(|e: (Seq<char>, Seq<LabelOrFileV>)| e.1);
                let mut i: usize = 0;
                assert(m.take(0) =~= Seq::empty());
                assert(out.deep_view() =~= Seq::empty());
                while i < d.len()
                    invariant
                        i <= d@.len(),
                        m == d.deep_view().map_values(|e: (Seq<char>, Seq<LabelOrFileV>)| e.1),
                        out.deep_view() == concat_all(m.take(i as int)),
                    decreases d.len() - i,
                {
                    assert(m.take(i as int + 1).drop_last() =~= m.take(i as int));
                    assert(m.take(i as int + 1).last() == d@[i as int].1.deep_view());
                    extend_lofs(&mut out, &d[i].1);
                    i = i + 1;
                }
                assert(m.take(d@.len() as int) =~= m);
            },
            _ => {
                assert(out.deep_view() =~= Seq::empty());
            },
        }
        out
    }

    /// The labels the attribute depends on, in order: the targets a rule
    /// invocation registers as dependencies of the target it declares.
    pub fn register_dependencies(&self) -> (r: Vec<Label>)
        ensures
            r.deep_view() == labels_of(occurrences(*self)),
    {
        let occ = self.occurrences();
        let ghost o = occ.deep_view();
        let mut out: Vec<Label> = Vec::new();
        let mut i: usize = 0;
        assert(o.take(0) =~= Seq::empty());
        assert(out.deep_view() =~= Seq::empty());
        while i < occ.len()
            invariant
                i <= occ@.len(),
                o == occ.deep_view(),
                out.deep_view() == labels_of(o.take(i as int)),
            decreases occ.len() - i,
        {
            assert(o.take(i as int + 1).drop_last() =~= o.take(i as int));
            assert(o.take(i as int + 1).last() == occ@[i as int]@);
            match &occ[i] {
                LabelOrFile::Label(l) => {
                    let ghost before = out.deep_view();
                    out.push(l.clone());
                    assert(out.deep_view() =~= before.push(l@));
                },
                LabelOrFile::File(_) => {},
            }
            i = i + 1;
        }
        assert(o.take(o.len() as int) =~= o);
        out
    }
}


/// The files one label or file provides: the outputs of the target a label
/// names, or the file itself.
pub open spec fn occ_files(o: LabelOrFileV, outs: Seq<Seq<char>>) -> Seq<Seq<char>> {
    match o {
        LabelOrFileV::Label(_) => outs,
        LabelOrFileV::File(f) => seq![f],
    }
}

/// The files the labels and files `occ` provide, in order, with repeats;
/// `outputs[i]` are the outputs of the target that `occ[i]` names, where it
/// is a label.
pub open spec fn raw_files(occ: Seq<LabelOrFileV>, outputs: Seq<Seq<Seq<char>>>) -> Seq<Seq<char>>
    decreases occ.len(),
{
    if occ.len() == 0 {
        Seq::empty()
    } else {
        raw_files(occ.drop_last(), outputs) + occ_files(occ.last(), outputs[occ.len() - 1])
    }
}

/// The error of the first file that `m` refuses.
pub open spec fn first_invalid(fs: Seq<Seq<char>>, m: AllowFilesV) -> Option<ErrorV>
    decreases fs.len(),
{
    if fs.len() == 0 {
        None
    } else {
        match first_invalid(fs.drop_last(), m) {
            Some(e) => Some(e),
            None => validate_spec(m, fs.last()),
        }
    }
}

proof fn lemma_first_invalid_append(a: Seq<Seq<char>>, b: Seq<Seq<char>>, m: AllowFilesV)
    ensures
        first_invalid(a + b, m) == match first_invalid(a, m) {
            Some(e) => Some(e),
            None => first_invalid(b, m),
        },
    decreases b.len(),
{
    if b.len() == 0 {
        assert(a + b =~= a);
    } else {
        assert((a + b).drop_last() =~= a + b.drop_last());
        assert((a + b).last() == b.last());
        lemma_first_invalid_append(a, b.drop_last(), m);
    }
}

/// Whether `files` holds a file with the path of `f`.
fn contains_file(files: &Vec<File>, f: &File) -> (r: bool)
    ensures
        r == files.deep_view().contains(f@),
{
    let mut i: usize = 0;
    while i < files.len()
        invariant
            i <= files@.len(),
            forall|j: int| 0 <= j < i ==> (#[trigger] files@[j])@ != f@,
        decreases files.len() - i,
    {
        if files[i].same(f) {
            assert(files.deep_view()[i as int] == f@);
            return true;
        }
        i = i + 1;
    }
    assert forall|j: int| 0 <= j < files.deep_view().len() implies files.deep_view()[j] != f@ by {
        assert(files.deep_view()[j] == files@[j]@);
    }
    false
}

/// Checks each file of `fs` against `m` and adds those not yet present to
/// `files`, in order; the first refused file stops.
fn add_files(files: &mut Vec<File>, fs: &Vec<File>, m: &AllowFiles) -> (r: Result<(), Error>)
    ensures
        match first_invalid(fs.deep_view(), m@) {
            None => r is Ok && final(files).deep_view() == dedup_from(old(files).deep_view(), fs.deep_view()),
            Some(e) => r matches Err(x) && x@ == e,
        },
{
    let ghost f0 = files.deep_view();
    let ghost d = fs.deep_view();
    let mut i: usize = 0;
    assert(d.take(0) =~= Seq::<Seq<char>>::empty());
    while i < fs.len()
        invariant
            i <= fs@.len(),
            d == fs.deep_view(),
            f0 == old(files).deep_view(),
            first_invalid(d.take(i as int), m@) is None,
            files.deep_view() == dedup_from(f0, d.take(i as int)),
        decreases fs.len() - i,
    {
        let ghost t = d.take(i as int + 1);
        assert(t.drop_last() =~= d.take(i as int));
        assert(t.last() == fs@[i as int]@);
        match m.validate(fs[i].as_str()) {
            Err(e) => {
                proof {
                    assert(first_invalid(t, m@) == Some(e@));
                    assert(d =~= t + d.skip(i as int + 1));
                    lemma_first_invalid_append(t, d.skip(i as int + 1), m@);
                }
                return Err(e);
            },
            Ok(()) => {},
        }
        proof {
            lemma_dedup_from_push(f0, d.take(i as int), fs@[i as int]@);
            assert(d.take(i as int).push(fs@[i as int]@) =~= t);
        }
        if !contains_file(files, &fs[i]) {
            let ghost before = files.deep_view();
            files.push(fs[i].clone());
            assert(files.deep_view() =~= before.push(fs@[i as int]@));
        }
        i = i + 1;
    }
    assert(d.take(d.len() as int) =~= d);
    Ok(())
}

/// Checks and collects the files that the labels and files `occ` provide;
/// `outputs[i]` are the outputs of the target that `occ[i]` names.
fn collect_files(occ: &Vec<LabelOrFile>, outputs: &Vec<Vec<File>>, m: &AllowFiles) -> (r: Result<
    Vec<File>,
    Error,
>)
    requires
        outputs@.len() == occ@.len(),
    ensures
        match first_invalid(raw_files(occ.deep_view(), outputs.deep_view()), m@) {
            None => r matches Ok(v) && v.deep_view() == dedup(
                raw_files(occ.deep_view(), outputs.deep_view()),
            ),
            Some(e) => r matches Err(x) && x@ == e,
        },
{
    let ghost o = occ.deep_view();
    let ghost outs = outputs.deep_view();
    let mut files: Vec<File> = Vec::new();
    let mut j: usize = 0;
    assert(o.take(0) =~= Seq::<LabelOrFileV>::empty());
    assert(files.deep_view() =~= Seq::<Seq<char>>::empty());
    while j < occ.len()
        invariant
            j <= occ@.len(),
            outputs@.len() == occ@.len(),
            o == occ.deep_view(),
            outs == outputs.deep_view(),
            first_invalid(raw_files(o.take(j as int), outs), m@) is None,
            files.deep_view() == dedup_from(Seq::empty(), raw_files(o.take(j as int), outs)),
        decreases occ.len() - j,
    {
        let ghost p = raw_files(o.take(j as int), outs);
        let ghost t = o.take(j as int + 1);
        assert(t.drop_last() =~= o.take(j as int));
        assert(t.last() == occ@[j as int]@);
        let res = match &occ[j] {
            LabelOrFile::Label(_) => add_files(&mut files, &outputs[j], m),
            LabelOrFile::File(f) => {
                let one = vec![f.clone()];
                assert(one.deep_view() =~= seq![f@]);
                add_files(&mut files, &one, m)
            },
        };
        let ghost q = occ_files(occ@[j as int]@, outs[j as int]);
        assert(raw_files(t, outs) == p + q);
        proof {
            lemma_first_invalid_append(p, q, m@);
            lemma_dedup_from_append(Seq::empty(), p, q);
        }
        match res {
            Err(e) => {
                proof {
                    lemma_raw_files_prefix_err(o, outs, m@, j as int + 1);
                }
                return Err(e);
            },
            Ok(()) => {},
        }
        j = j + 1;
    }
    assert(o.take(o.len() as int) =~= o);
    Ok(files)
}

proof fn lemma_raw_files_prefix_err(o: Seq<LabelOrFileV>, outs: Seq<Seq<Seq<char>>>, m: AllowFilesV, k: int)
    requires
        0 <= k <= o.len(),
        first_invalid(raw_files(o.take(k), outs), m) is Some,
    ensures
        first_invalid(raw_files(o, outs), m) == first_invalid(raw_files(o.take(k), outs), m),
    decreases o.len() - k,
{
    if k < o.len() {
        let t = o.take(k + 1);
        assert(t.drop_last() =~= o.take(k));
        lemma_first_invalid_append(
            raw_files(o.take(k), outs),
            occ_files(t.last(), outs[k]),
            m,
        );
        lemma_raw_files_prefix_err(o, outs, m, k + 1);
    } else {
        assert(o.take(k) =~= o);
    }
}

/// What `ctx.attr`, `ctx.file` and `ctx.files` show of an attribute.
#[derive(PartialEq, Eq, Debug)]
pub struct AttrValue {
    /// The single file of an `allow_single_file` attribute (the value
    /// `None` where it provides none).
    pub file: Option<Resolved>,
    /// The files of an attribute that accepts files, each once, in order.
    pub files: Option<Vec<File>>,
    /// The attribute's value, labels resolved to targets.
    pub attr: ResolvedAttr,
}

/// The mathematical value of an [`AttrValue`].
pub struct AttrValueV {
    pub file: Option<ResolvedV>,
    pub files: Option<Seq<Seq<char>>>,
    pub attr: ResolvedAttrV,
}

impl View for AttrValue {
    type V = AttrValueV;

    open spec fn view(&self) -> AttrValueV {
        AttrValueV {
            file: match self.file {
                Some(f) => Some(f@),
                None => None,
            },
            files: match self.files {
                Some(f) => Some(f.deep_view()),
                None => None,
            },
            attr: self.attr@,
        }
    }
}

/// The label of a `Label` attribute that names a target.
pub open spec fn single_label(a: Attr) -> (Seq<char>, Seq<char>) {
    match a {
        Attr::Label(LabelOrFile::Label(l)) => l@,
        _ => (Seq::empty(), Seq::empty()),
    }
}

/// Whether several files can only come from a `Label` attribute naming a
/// target: no other attribute of an `allow_single_file` schema may provide
/// more than one file.
pub open spec fn single_file_ok(a: Attr, s: AttrSchemaV, outputs: Seq<Seq<Seq<char>>>) -> bool {
    let raw = raw_files(occurrences(a), outputs);
    (s.allow_files is Single && first_invalid(raw, matcher_of(s.allow_files)) is None && dedup(raw).len() > 1)
        ==> a matches Attr::Label(LabelOrFile::Label(_))
}

/// What a rule implementation sees of the attribute `a` of schema `s`;
/// `outputs[i]` are the outputs of the target that the `i`th label or file of
/// `a` names.
pub open spec fn to_value_spec(a: Attr, s: AttrSchemaV, outputs: Seq<Seq<Seq<char>>>) -> Result<
    AttrValueV,
    ErrorV,
> {
    if s.allow_files is NoneValue {
        Ok(AttrValueV { file: None, files: None, attr: resolve_spec(a) })
    } else {
        let raw = raw_files(occurrences(a), outputs);
        match first_invalid(raw, matcher_of(s.allow_files)) {
            Some(e) => Err(e),
            None => {
                let list = dedup(raw);
                if s.allow_files is Single {
                    if list.len() == 1 {
                        Ok(
                            AttrValueV {
                                file: Some(ResolvedV::File(list[0])),
                                files: Some(list),
                                attr: resolve_spec(a),
                            },
                        )
                    } else if list.len() == 0 {
                        Ok(
                            AttrValueV {
                                file: Some(ResolvedV::NoneValue),
                                files: Some(list),
                                attr: resolve_spec(a),
                            },
                        )
                    } else {
                        Err(ErrorV::MustProduceSingleFile(single_label(a)))
                    }
                } else {
                    Ok(AttrValueV { file: None, files: Some(list), attr: resolve_spec(a) })
                }
            },
        }
    }
}

impl Attr {
    /// What a rule implementation sees of this attribute of schema `schema`:
    /// its value with labels resolved, and, where the schema accepts files,
    /// the files it provides. `outputs[i]` are the outputs of the target that
    /// the `i`th element of `occurrences()` names (not read for files).
    pub fn to_value(&self, schema: &AttrSchema, outputs: &Vec<Vec<File>>) -> (r: Result<AttrValue, Error>)
        requires
            outputs@.len() == occurrences(*self).len(),
            single_file_ok(*self, schema@, outputs.deep_view()),
        ensures
            match to_value_spec(*self, schema@, outputs.deep_view()) {
                Ok(v) => r matches Ok(x) && x@ == v,
                Err(e) => r matches Err(x) && x@ == e,
            },
    {
        let attr = self.resolve_value();
        let m = match schema.file_matcher() {
            None => {
                return Ok(AttrValue { file: None, files: None, attr });
            },
            Some(m) => m,
        };
        let occ = self.occurrences();
        let files = match collect_files(&occ, outputs, m) {
            Err(e) => {
                return Err(e);
            },
            Ok(f) => f,
        };
        let single = match &schema.allow_files {
            crate::attr::AllowFilesSchema::Single(_) => true,
            _ => false,
        };
        if !single {
            return Ok(AttrValue { file: None, files: Some(files), attr });
        }
        if files.len() == 1 {
            let f = files[0].clone();
            Ok(AttrValue { file: Some(Resolved::File(f)), files: Some(files), attr })
        } else if files.len() == 0 {
            Ok(AttrValue { file: Some(Resolved::NoneValue), files: Some(files), attr })
        } else {
            match self {
                Attr::Label(LabelOrFile::Label(l)) => Err(Error::MustProduceSingleFile(l.clone())),
                _ => vstd::pervasive::unreached(),
            }
        }
    }
}


/// Law: the files an attribute provides (`ctx.files`) are distinct, and are
/// exactly the files its labels and files provide.
pub proof fn lemma_files_distinct(a: Attr, s: AttrSchemaV, outputs: Seq<Seq<Seq<char>>>)
    requires
        to_value_spec(a, s, outputs) matches Ok(v) && v.files is Some,
    ensures
        ({
            let files = to_value_spec(a, s, outputs)->Ok_0.files->Some_0;
            &&& crate::seqs::distinct(files)
            &&& forall|f: Seq<char>| files.contains(f) <==> raw_files(occurrences(a), outputs).contains(f)
        }),
{
    let raw = raw_files(occurrences(a), outputs);
    assert(crate::seqs::distinct(Seq::<Seq<char>>::empty()));
    crate::seqs::lemma_dedup_from_distinct(Seq::empty(), raw);
    crate::seqs::lemma_dedup_from_contents(Seq::empty(), raw);
}

/// Law: the dependencies registered for an attribute are exactly the labels
/// it names, each label occurrence once and in order (files are no
/// dependencies): their number is the number of label occurrences.
pub proof fn lemma_dependencies_are_label_occurrences(occ: Seq<LabelOrFileV>)
    ensures
        labels_of(occ) == occ.filter(|o: LabelOrFileV| o is Label).map_values(|o: LabelOrFileV| o->Label_0),
        labels_of(occ).len() == occ.filter(|o: LabelOrFileV| o is Label).len(),
    decreases occ.len(),
{
    reveal(Seq::filter);
    let pred = |o: LabelOrFileV| o is Label;
    let f = |o: LabelOrFileV| o->Label_0;
    if occ.len() > 0 {
        lemma_dependencies_are_label_occurrences(occ.drop_last());
        let p = occ.drop_last().filter(pred);
        if pred(occ.last()) {
            assert(p.push(occ.last()).map_values(f) =~= p.map_values(f).push(f(occ.last())));
        }
    } else {
        assert(occ.filter(pred).map_values(f) =~= Seq::<(Seq<char>, Seq<char>)>::empty());
    }
}

} // verus!
