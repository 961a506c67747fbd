//! Rule attributes: the files an attribute accepts, labels and source files
//! named by attribute values, and the errors of attribute validation.
use vstd::prelude::*;
use vstd::string::*;

use crate::text::starts_with;
use crate::types::{strs_view, File, Label, Value};

verus! {

/// Errors of attribute declaration, validation and coercion.
#[derive(PartialEq, Eq, Debug)]
pub enum Error {
    MandatoryAttribute { param: String },
    EmptyListDisallowed,
    EmptyDictDisallowed,
    DisallowedExtension { file: String, allowed: Vec<String> },
    ConfigTransitionNotImplemented(String),
    MandatoryAndDefaultMutuallyExclusive,
    IntNotAllowed(i32),
    StringNotAllowed(String),
    AllowFilesMutuallyExclusive,
    AllowEmptyRequiresMandatoryOrDefault,
    NotALabel(String),
    /// A `allow_single_file` attribute resolved to a target with several
    /// output files.
    MustProduceSingleFile(Label),
    /// A value of the wrong type was given for a parameter.
    WrongType { param: String, expected: String },
    /// An integer does not fit the 32 bits of an `int` attribute.
    IntegerTooBig { param: String },
    /// A string that starts like a label is no valid label.
    InvalidLabel(String),
}

/// The mathematical value of an [`Error`].
pub enum ErrorV {
    MandatoryAttribute(Seq<char>),
    EmptyListDisallowed,
    EmptyDictDisallowed,
    DisallowedExtension(Seq<char>, Seq<Seq<char>>),
    ConfigTransitionNotImplemented(Seq<char>),
    MandatoryAndDefaultMutuallyExclusive,
    IntNotAllowed(int),
    StringNotAllowed(Seq<char>),
    AllowFilesMutuallyExclusive,
    AllowEmptyRequiresMandatoryOrDefault,
    NotALabel(Seq<char>),
    MustProduceSingleFile((Seq<char>, Seq<char>)),
    WrongType(Seq<char>, Seq<char>),
    IntegerTooBig(Seq<char>),
    InvalidLabel(Seq<char>),
}

impl View for Error {
    type V = ErrorV;

    open spec fn view(&self) -> ErrorV {
        match self {
            Error::MandatoryAttribute { param } => ErrorV::MandatoryAttribute(param@),
            Error::EmptyListDisallowed => ErrorV::EmptyListDisallowed,
            Error::EmptyDictDisallowed => ErrorV::EmptyDictDisallowed,
            Error::DisallowedExtension { file, allowed } => ErrorV::DisallowedExtension(
                file@,
                strs_view(allowed@),
            ),
            Error::ConfigTransitionNotImplemented(s) => ErrorV::ConfigTransitionNotImplemented(s@),
            Error::MandatoryAndDefaultMutuallyExclusive => ErrorV::MandatoryAndDefaultMutuallyExclusive,
            Error::IntNotAllowed(i) => ErrorV::IntNotAllowed(*i as int),
            Error::StringNotAllowed(s) => ErrorV::StringNotAllowed(s@),
            Error::AllowFilesMutuallyExclusive => ErrorV::AllowFilesMutuallyExclusive,
            Error::AllowEmptyRequiresMandatoryOrDefault => ErrorV::AllowEmptyRequiresMandatoryOrDefault,
            Error::NotALabel(s) => ErrorV::NotALabel(s@),
            Error::MustProduceSingleFile(l) => ErrorV::MustProduceSingleFile(l@),
            Error::WrongType { param, expected } => ErrorV::WrongType(param@, expected@),
            Error::IntegerTooBig { param } => ErrorV::IntegerTooBig(param@),
            Error::InvalidLabel(s) => ErrorV::InvalidLabel(s@),
        }
    }
}

/// A copy of a vector of strings.
pub fn clone_strings(v: &Vec<String>) -> (r: Vec<String>)
    ensures
        strs_view(r@) == strs_view(v@),
{
    let mut r: Vec<String> = Vec::new();
    let mut i: usize = 0;
    while i < v.len()
        invariant
            i <= v@.len(),
            r@.len() == i,
            forall|j: int| 0 <= j < i ==> #[trigger] r@[j]@ == v@[j]@,
        decreases v.len() - i,
    {
        let s = v[i].clone();
        r.push(s);
        i = i + 1;
    }
    assert(strs_view(r@) =~= strs_view(v@));
    r
}

/// What `allow_files` / `allow_single_file` accept: no file, every file, or
/// the files with one of the given extensions (written with or without
/// their leading dot, as in `[".cc", "h"]`).
#[derive(PartialEq, Eq, Debug)]
pub enum AllowFiles {
    NoneValue,
    All,
    Extensions(Vec<String>),
}

/// The mathematical value of an [`AllowFiles`].
pub enum AllowFilesV {
    NoneValue,
    All,
    Extensions(Seq<Seq<char>>),
}

impl View for AllowFiles {
    type V = AllowFilesV;

    open spec fn view(&self) -> AllowFilesV {
        match self {
            AllowFiles::NoneValue => AllowFilesV::NoneValue,
            AllowFiles::All => AllowFilesV::All,
            AllowFiles::Extensions(v) => AllowFilesV::Extensions(strs_view(v@)),
        }
    }
}

impl Clone for AllowFiles {
    fn clone(&self) -> (r: Self)
        ensures
            r@ == self@,
    {
        match self {
            AllowFiles::NoneValue => AllowFiles::NoneValue,
            AllowFiles::All => AllowFiles::All,
            AllowFiles::Extensions(v) => AllowFiles::Extensions(clone_strings(v)),
        }
    }
}

/// The index of the last occurrence of `c` in `s`, if any.
pub open spec fn last_index(s: Seq<char>, c: char) -> Option<int>
    decreases s.len(),
{
    if s.len() == 0 {
        None
    } else if s.last() == c {
        Some(s.len() - 1)
    } else {
        last_index(s.drop_last(), c)
    }
}

/// The file name of a path, as `std::path::Path::file_name` documents it on
/// Unix: its final component, where separators are `/`, repeated and
/// trailing separators and `.` components are ignored, and a path that
/// ends in `..` (or has no such component) has none.
pub open spec fn file_name(path: Seq<char>) -> Option<Seq<char>>
    decreases path.len(),
{
    match last_index(path, '/') {
        None => if path.len() == 0 || path == seq!['.'] || path == seq!['.', '.'] {
            None
        } else {
            Some(path)
        },
        Some(i) => {
            let tail = path.skip(i + 1);
            if tail.len() == 0 || tail == seq!['.'] {
                if 0 <= i < path.len() {
                    file_name(path.take(i))
                } else {
                    None
                }
            } else if tail == seq!['.', '.'] {
                None
            } else {
                Some(tail)
            }
        },
    }
}

/// The extension of a path, as `std::path::Path::extension` documents it:
/// none without a file name, none where the file name holds no `.` or only
/// a leading one, else the part of the file name after its final `.`.
pub open spec fn path_extension(path: Seq<char>) -> Option<Seq<char>> {
    match file_name(path) {
        None => None,
        Some(f) => match last_index(f, '.') {
            None => None,
            Some(i) => if i == 0 {
                None
            } else {
                Some(f.skip(i + 1))
            },
        },
    }
}

/// Calls `std::path::Path::extension` on `path` (a `&str`, so the extension
/// converts to a string without loss). The contract states the documented
/// result, `path_extension`, with `/` as the only separator, as on Unix.
#[verifier::external_body]
fn extension_of(path: &str) -> (r: Option<String>)
    ensures
        match r {
            Some(e) => path_extension(path@) == Some(e@),
            None => path_extension(path@) is None,
        },
{
    std::path::Path::new(path).extension().map(|e| e.to_string_lossy().into_owned())
}

/// Whether an entry of an `allow_files` list admits a file whose extension
/// is `ext`: the entry is the extension, with or without a leading dot; a
/// file without extension is admitted by an empty entry.
pub open spec fn entry_admits(entry: Seq<char>, ext: Option<Seq<char>>) -> bool {
    match ext {
        Some(e) => entry == e || entry == seq!['.'] + e,
        None => entry.len() == 0,
    }
}

/// Whether some entry of `exts` admits the extension `ext`.
pub open spec fn extension_listed(exts: Seq<Seq<char>>, ext: Option<Seq<char>>) -> bool {
    exists|i: int| 0 <= i < exts.len() && entry_admits(#[trigger] exts[i], ext)
}

/// The error, if any, of checking `path` against `allowed`.
pub open spec fn validate_spec(allowed: AllowFilesV, path: Seq<char>) -> Option<ErrorV> {
    match allowed {
        AllowFilesV::NoneValue => Some(ErrorV::NotALabel(path)),
        AllowFilesV::All => None,
        AllowFilesV::Extensions(exts) => {
            if extension_listed(exts, path_extension(path)) {
                None
            } else {
                Some(ErrorV::DisallowedExtension(path, exts))
            }
        },
    }
}

/// Whether `entry` is `ext`, or `ext` with a dot in front.
fn entry_admits_exec(entry: &str, ext: &str) -> (r: bool)
    ensures
        r == (entry@ == ext@ || entry@ == seq!['.'] + ext@),
{
    let n = entry.unicode_len();
    let m = ext.unicode_len();
    if n == m {
        let mut i: usize = 0;
        while i < n
            invariant
                n == entry@.len(),
                m == ext@.len(),
                n == m,
                i <= n,
                forall|j: int| 0 <= j < i ==> entry@[j] == ext@[j],
            decreases n - i,
        {
            if entry.get_char(i) != ext.get_char(i) {
                assert(entry@[i as int] != ext@[i as int]);
                assert(entry@ != seq!['.'] + ext@);
                return false;
            }
            i = i + 1;
        }
        assert(entry@ =~= ext@);
        true
    } else if n > m && n - m == 1 {
        if entry.get_char(0) != '.' {
            assert((seq!['.'] + ext@)[0] == '.');
            return false;
        }
        let mut i: usize = 0;
        while i < m
            invariant
                n == entry@.len(),
                m == ext@.len(),
                n == m + 1,
                i <= m,
                entry@[0] == '.',
                forall|j: int| 0 <= j < i ==> entry@[j + 1] == ext@[j],
            decreases m - i,
        {
            if entry.get_char(i + 1) != ext.get_char(i) {
                assert((seq!['.'] + ext@)[i + 1] == ext@[i as int]);
                return false;
            }
            i = i + 1;
        }
        assert(entry@ =~= seq!['.'] + ext@);
        true
    } else {
        assert((seq!['.'] + ext@).len() == m + 1);
        false
    }
}

/// Whether some entry of `exts` admits the extension `ext` (see
/// `entry_admits`); `ext` is what `std::path::Path::extension` gives for the
/// file.
pub fn extension_allowed(exts: &Vec<String>, ext: Option<&str>) -> (r: bool)
    ensures
        r == extension_listed(strs_view(exts@), match ext {
            Some(e) => Some(e@),
            None => None,
        }),
{
    let ghost want: Option<Seq<char>> = match ext {
        Some(e) => Some(e@),
        None => None,
    };
    let mut i: usize = 0;
    while i < exts.len()
        invariant
            i <= exts@.len(),
            want == (match ext {
                Some(e) => Some(e@),
                None => None::<Seq<char>>,
            }),
            forall|j: int| 0 <= j < i ==> !entry_admits(#[trigger] strs_view(exts@)[j], want),
        decreases exts.len() - i,
    {
        assert(strs_view(exts@)[i as int] == exts@[i as int]@);
        let hit = match ext {
            Some(e) => entry_admits_exec(exts[i].as_str(), e),
            None => exts[i].unicode_len() == 0,
        };
        if hit {
            assert(entry_admits(strs_view(exts@)[i as int], want));
            return true;
        }
        i = i + 1;
    }
    false
}

impl AllowFiles {
    /// Checks that a file may be given: any file for `All`, none for
    /// `NoneValue`, and for `Extensions` a file whose extension is listed,
    /// with or without its leading dot (`["cc"]` and `[".cc"]` both admit
    /// `file.cc`; a file without extension matches only an empty entry).
    pub fn validate(&self, path: &str) -> (r: Result<(), Error>)
        ensures
            match validate_spec(self@, path@) {
                None => r is Ok,
                Some(e) => r matches Err(x) && x@ == e,
            },
    {
        match self {
            AllowFiles::NoneValue => Err(Error::NotALabel(String::from_str(path))),
            AllowFiles::All => Ok(()),
            AllowFiles::Extensions(exts) => {
                let ext = extension_of(path);
                let ok = match &ext {
                    Some(e) => extension_allowed(exts, Some(e.as_str())),
                    None => extension_allowed(exts, None),
                };
                if ok {
                    Ok(())
                } else {
                    Err(Error::DisallowedExtension {
                        file: String::from_str(path),
                        allowed: clone_strings(exts),
                    })
                }
            },
        }
    }
}

/// The index of the first occurrence of `c` in `s`, if any.
pub open spec fn first_index(s: Seq<char>, c: char) -> Option<int>
    decreases s.len(),
{
    if s.len() == 0 {
        None
    } else if s[0] == c {
        Some(0)
    } else {
        match first_index(s.drop_first(), c) {
            Some(i) => Some(i + 1),
            None => None,
        }
    }
}

/// The part of `s` after its last `/`.
pub open spec fn last_component(s: Seq<char>) -> Seq<char>
    decreases s.len(),
{
    if s.len() == 0 {
        s
    } else if s.last() == '/' {
        Seq::empty()
    } else {
        last_component(s.drop_last()).push(s.last())
    }
}

/// A label written `:name` (in the package `pkg`), `//dir:name` or `//dir`
/// (the target named like the last directory), as package and name.
pub open spec fn parse_label_spec(s: Seq<char>, pkg: Seq<char>) -> Option<(Seq<char>, Seq<char>)> {
    if s.len() > 0 && s[0] == ':' {
        let name = s.skip(1);
        if name.len() > 0 && !name.contains(':') {
            Some((pkg, name))
        } else {
            None
        }
    } else if s.len() >= 2 && s[0] == '/' && s[1] == '/' {
        match first_index(s, ':') {
            Some(i) => {
                let name = s.skip(i + 1);
                if name.len() > 0 && !name.contains(':') {
                    Some((s.take(i), name))
                } else {
                    None
                }
            },
            None => {
                let name = last_component(s.skip(2));
                if name.len() > 0 {
                    Some((s, name))
                } else {
                    None
                }
            },
        }
    } else {
        None
    }
}

proof fn lemma_first_index(s: Seq<char>, c: char)
    ensures
        match first_index(s, c) {
            Some(i) => 0 <= i < s.len() && s[i] == c && !s.take(i).contains(c),
            None => !s.contains(c),
        },
    decreases s.len(),
{
    if s.len() > 0 {
        lemma_first_index(s.drop_first(), c);
        if s[0] != c {
            match first_index(s.drop_first(), c) {
                Some(i) => {
                    assert(s.take(i + 1) =~= seq![s[0]] + s.drop_first().take(i));
                },
                None => {
                    if s.contains(c) {
                        let k = choose|k: int| 0 <= k < s.len() && s[k] == c;
                        assert(s.drop_first()[k - 1] == c);
                    }
                },
            }
        } else {
            assert(s.take(0) =~= Seq::<char>::empty());
        }
    }
}

/// Finds the first `c` in `s`.
fn find_char(s: &str, c: char) -> (r: Option<usize>)
    ensures
        match r {
            Some(i) => first_index(s@, c) == Some(i as int),
            None => first_index(s@, c) is None,
        },
{
    proof {
        lemma_first_index(s@, c);
    }
    let n = s.unicode_len();
    let mut i: usize = 0;
    while i < n
        invariant
            n == s@.len(),
            i <= n,
            forall|j: int| 0 <= j < i ==> s@[j] != c,
        decreases n - i,
    {
        if s.get_char(i) == c {
            proof {
                lemma_first_index(s@, c);
                match first_index(s@, c) {
                    Some(k) => {
                        if k < i {
                            assert(s@[k] != c);
                        } else if k > i {
                            assert(s@.take(k)[i as int] == c);
                        }
                    },
                    None => {
                        assert(s@[i as int] == c);
                    },
                }
            }
            return Some(i);
        }
        i = i + 1;
    }
    proof {
        match first_index(s@, c) {
            Some(k) => {
                assert(s@[k] != c);
            },
            None => {},
        }
    }
    None
}

/// Whether `s` holds `c`.
fn has_char(s: &str, c: char) -> (r: bool)
    ensures
        r == s@.contains(c),
{
    proof {
        lemma_first_index(s@, c);
    }
    match find_char(s, c) {
        Some(_) => true,
        None => false,
    }
}

/// The part of `s` after its last `/`.
fn last_component_of(s: &str) -> (r: &str)
    ensures
        r@ == last_component(s@),
{
    let n = s.unicode_len();
    let mut i: usize = n;
    assert(s@.take(n as int) =~= s@);
    assert(s@.skip(n as int) =~= Seq::<char>::empty());
    assert(last_component(s@) =~= last_component(s@.take(n as int)) + s@.skip(n as int));
    while i > 0
        invariant
            n == s@.len(),
            i <= n,
            last_component(s@) == last_component(s@.take(i as int)) + s@.skip(i as int),
            forall|j: int| i <= j < n ==> s@[j] != '/',
        decreases i,
    {
        if s.get_char(i - 1) == '/' {
            assert(s@.take(i as int).last() == '/');
            assert(last_component(s@.take(i as int)) =~= Seq::<char>::empty());
            return s.substring_char(i, n);
        }
        let ghost t = s@.take(i as int);
        assert(t.drop_last() =~= s@.take(i - 1));
        assert(s@.skip(i - 1) =~= seq![t.last()] + s@.skip(i as int));
        assert(last_component(t) =~= last_component(s@.take(i - 1)).push(t.last()));
        i = i - 1;
    }
    assert(s@.take(0) =~= Seq::<char>::empty());
    assert(s@.skip(0) =~= s@);
    s
}

/// Parses a label relative to the package `pkg`.
pub fn parse_label(s: &str, pkg: &str) -> (r: Result<Label, Error>)
    ensures
        match parse_label_spec(s@, pkg@) {
            Some(l) => r matches Ok(x) && x@ == l,
            None => r matches Err(e) && e@ == ErrorV::InvalidLabel(s@),
        },
{
    let n = s.unicode_len();
    if n > 0 && s.get_char(0) == ':' {
        let name = s.substring_char(1, n);
        assert(name@ =~= s@.skip(1));
        if name.unicode_len() > 0 && !has_char(name, ':') {
            return Ok(Label::new(pkg, name));
        }
        return Err(Error::InvalidLabel(String::from_str(s)));
    }
    if n >= 2 && s.get_char(0) == '/' && s.get_char(1) == '/' {
        proof {
            lemma_first_index(s@, ':');
        }
        match find_char(s, ':') {
            Some(i) => {
                let name = s.substring_char(i + 1, n);
                let dir = s.substring_char(0, i);
                assert(name@ =~= s@.skip(i + 1));
                assert(dir@ =~= s@.take(i as int));
                if name.unicode_len() > 0 && !has_char(name, ':') {
                    return Ok(Label::new(dir, name));
                }
                return Err(Error::InvalidLabel(String::from_str(s)));
            },
            None => {
                let rest = s.substring_char(2, n);
                assert(rest@ =~= s@.skip(2));
                let name = last_component_of(rest);
                if name.unicode_len() > 0 {
                    return Ok(Label::new(s, name));
                }
                return Err(Error::InvalidLabel(String::from_str(s)));
            },
        }
    }
    Err(Error::InvalidLabel(String::from_str(s)))
}


/// The directory of a package: `//foo/bar` is the directory `foo/bar`.
pub open spec fn package_dir(pkg: Seq<char>) -> Seq<char> {
    if pkg.len() >= 2 && pkg[0] == '/' && pkg[1] == '/' {
        pkg.skip(2)
    } else {
        pkg
    }
}

/// The path of the source file `s` of the package `pkg`.
pub open spec fn source_path(pkg: Seq<char>, s: Seq<char>) -> Seq<char> {
    let d = package_dir(pkg);
    if d.len() == 0 {
        s
    } else {
        d + seq!['/'] + s
    }
}

/// The source file `s` of the package `pkg`.
pub fn source_file(pkg: &str, s: &str) -> (r: File)
    ensures
        r@ == source_path(pkg@, s@),
{
    let n = pkg.unicode_len();
    let d = if n >= 2 && pkg.get_char(0) == '/' && pkg.get_char(1) == '/' {
        pkg.substring_char(2, n)
    } else {
        assert(pkg@.subrange(0, n as int) =~= pkg@);
        pkg.substring_char(0, n)
    };
    assert(d@ =~= package_dir(pkg@));
    if d.unicode_len() == 0 {
        return File::new(s);
    }
    let mut p = String::from_str(d);
    p.append("/");
    proof {
        reveal_strlit("/");
    }
    p.append(s);
    assert(p@ =~= source_path(pkg@, s@));
    File { path: p }
}

/// A value naming either a target (a label) or a source file.
#[derive(PartialEq, Eq, Debug)]
pub enum LabelOrFile {
    Label(Label),
    File(File),
}

/// The mathematical value of a [`LabelOrFile`].
pub enum LabelOrFileV {
    Label((Seq<char>, Seq<char>)),
    File(Seq<char>),
}

impl View for LabelOrFile {
    type V = LabelOrFileV;

    open spec fn view(&self) -> LabelOrFileV {
        match self {
            LabelOrFile::Label(l) => LabelOrFileV::Label(l@),
            LabelOrFile::File(f) => LabelOrFileV::File(f@),
        }
    }
}

impl DeepView for LabelOrFile {
    type V = LabelOrFileV;

    open spec fn deep_view(&self) -> LabelOrFileV {
        self@
    }
}

impl Clone for LabelOrFile {
    fn clone(&self) -> (r: Self)
        ensures
            r == *self,
    {
        match self {
            LabelOrFile::Label(l) => LabelOrFile::Label(l.clone()),
            LabelOrFile::File(f) => LabelOrFile::File(f.clone()),
        }
    }
}

/// Keys of attribute dicts: compared by value.
pub trait KeyEq: DeepView + Sized {
    fn same_key(&self, other: &Self) -> (r: bool)
        ensures
            r == (self.deep_view() == other.deep_view()),
    ;
}

impl KeyEq for String {
    fn same_key(&self, other: &Self) -> (r: bool) {
        *self == *other
    }
}

impl KeyEq for LabelOrFile {
    fn same_key(&self, other: &Self) -> (r: bool) {
        match (self, other) {
            (LabelOrFile::Label(a), LabelOrFile::Label(b)) => a.same(b),
            (LabelOrFile::File(a), LabelOrFile::File(b)) => a.same(b),
            _ => false,
        }
    }
}

/// The first index of an entry with key `k`.
pub open spec fn key_index<A, B>(s: Seq<(A, B)>, k: A) -> Option<int>
    decreases s.len(),
{
    if s.len() == 0 {
        None
    } else {
        match key_index(s.drop_last(), k) {
            Some(i) => Some(i),
            None => if s.last().0 == k {
                Some(s.len() - 1)
            } else {
                None
            },
        }
    }
}

/// Inserts an entry into an insertion-ordered map: an entry with the same
/// key keeps its place and its key and takes the new value; otherwise the
/// entry is appended.
pub open spec fn insert_entry<A, B>(s: Seq<(A, B)>, k: A, v: B) -> Seq<(A, B)> {
    match key_index(s, k) {
        Some(i) => s.update(i, (s[i].0, v)),
        None => s.push((k, v)),
    }
}

proof fn lemma_key_index<A, B>(s: Seq<(A, B)>, k: A)
    ensures
        match key_index(s, k) {
            Some(i) => 0 <= i < s.len() && s[i].0 == k && forall|j: int| 0 <= j < i ==> s[j].0 != k,
            None => forall|j: int| 0 <= j < s.len() ==> s[j].0 != k,
        },
    decreases s.len(),
{
    if s.len() > 0 {
        let t = s.drop_last();
        lemma_key_index(t, k);
        assert forall|j: int| 0 <= j < t.len() implies t[j] == s[j] by {}
    }
}

/// The first index of an entry with key `k` holds it, and no earlier
/// entry does.
pub proof fn lemma_key_index_pub<A, B>(s: Seq<(A, B)>, k: A)
    ensures
        match key_index(s, k) {
            Some(i) => 0 <= i < s.len() && s[i].0 == k && forall|j: int| 0 <= j < i ==> s[j].0 != k,
            None => forall|j: int| 0 <= j < s.len() ==> s[j].0 != k,
        },
{
    lemma_key_index(s, k);
}

/// Inserts `(k, v)` into the insertion-ordered map `entries`.
pub fn insert_entry_exec<K: KeyEq, V: DeepView>(entries: &mut Vec<(K, V)>, k: K, v: V)
    ensures
        final(entries).deep_view() == insert_entry(old(entries).deep_view(), k.deep_view(), v.deep_view()),
{
    let ghost d0 = entries.deep_view();
    proof {
        lemma_key_index(d0, k.deep_view());
    }
    let mut i: usize = 0;
    while i < entries.len()
        invariant
            i <= entries@.len(),
            d0 == entries.deep_view(),
            entries@ == old(entries)@,
            forall|j: int| 0 <= j < i ==> (#[trigger] entries@[j]).0.deep_view() != k.deep_view(),
        decreases entries.len() - i,
    {
        if entries[i].0.same_key(&k) {
            proof {
                lemma_key_index(d0, k.deep_view());
                match key_index(d0, k.deep_view()) {
                    Some(x) => {
                        if x < i {
                            assert(d0[x].0 == entries@[x].0.deep_view());
                        } else if x > i {
                            assert(d0[i as int].0 == k.deep_view());
                        }
                    },
                    None => {
                        assert(d0[i as int].0 == k.deep_view());
                    },
                }
            }
            let ghost old_key = d0[i as int].0;
            entries.set(i, (k, v));
            assert(entries.deep_view() =~= d0.update(i as int, (old_key, v.deep_view())));
            return;
        }
        i = i + 1;
    }
    proof {
        lemma_key_index(d0, k.deep_view());
        match key_index(d0, k.deep_view()) {
            Some(x) => {
                assert(d0[x].0 == entries@[x].0.deep_view());
            },
            None => {},
        }
    }
    entries.push((k, v));
    assert(entries.deep_view() =~= d0.push((k.deep_view(), v.deep_view())));
}

/// The given string, if the value is one.
pub open spec fn str_view(v: Value) -> Option<Seq<char>> {
    match v {
        Value::Str(s) => Some(s@),
        _ => None,
    }
}

/// The strings of a list, if every element is one.
pub open spec fn strs_scan(xs: Seq<Value>) -> Option<Seq<Seq<char>>>
    decreases xs.len(),
{
    if xs.len() == 0 {
        Some(Seq::empty())
    } else {
        match (strs_scan(xs.drop_last()), str_view(xs.last())) {
            (Some(p), Some(x)) => Some(p.push(x)),
            _ => None,
        }
    }
}

/// Whether an integer fits 32 bits.
pub open spec fn in_i32(i: int) -> bool {
    i32::MIN <= i <= i32::MAX
}

/// The integers of a list as `i32`: `Err` at the first integer that does not
/// fit, `Ok(None)` at the first element that is no integer.
pub open spec fn ints_scan(xs: Seq<Value>) -> Result<Option<Seq<i32>>, ()>
    decreases xs.len(),
{
    if xs.len() == 0 {
        Ok(Some(Seq::empty()))
    } else {
        match ints_scan(xs.drop_last()) {
            Ok(Some(p)) => match xs.last() {
                Value::Int(i) => if in_i32(i as int) {
                    Ok(Some(p.push(i as i32)))
                } else {
                    Err(())
                },
                _ => Ok(None),
            },
            r => r,
        }
    }
}

/// The entries of a dict of strings to strings, inserted in turn.
pub open spec fn str_pairs_scan(es: Seq<(Value, Value)>) -> Option<Seq<(Seq<char>, Seq<char>)>>
    decreases es.len(),
{
    if es.len() == 0 {
        Some(Seq::empty())
    } else {
        match (str_pairs_scan(es.drop_last()), str_view(es.last().0), str_view(es.last().1)) {
            (Some(p), Some(k), Some(v)) => Some(insert_entry(p, k, v)),
            _ => None,
        }
    }
}

/// The list of strings a value holds, if it is one.
pub open spec fn str_list_view(v: Value) -> Option<Seq<Seq<char>>> {
    match v {
        Value::List(xs) => strs_scan(xs@),
        _ => None,
    }
}

/// The entries of a dict of strings to lists of strings, inserted in turn.
pub open spec fn str_lists_scan(es: Seq<(Value, Value)>) -> Option<Seq<(Seq<char>, Seq<Seq<char>>)>>
    decreases es.len(),
{
    if es.len() == 0 {
        Some(Seq::empty())
    } else {
        match (str_lists_scan(es.drop_last()), str_view(es.last().0), str_list_view(es.last().1)) {
            (Some(p), Some(k), Some(v)) => Some(insert_entry(p, k, v)),
            _ => None,
        }
    }
}

/// The strings of a list of values, if all are strings.
pub fn unpack_strs(xs: &Vec<Value>) -> (r: Option<Vec<String>>)
    ensures
        r.deep_view() == strs_scan(xs@),
{
    let mut out: Vec<String> = Vec::new();
    let mut i: usize = 0;
    while i < xs.len()
        invariant
            i <= xs@.len(),
            strs_scan(xs@.take(i as int)) == Some(out.deep_view()),
        decreases xs.len() - i,
    {
        assert(xs@.take(i as int + 1).drop_last() =~= xs@.take(i as int));
        assert(xs@.take(i as int + 1).last() == xs@[i as int]);
        match &xs[i] {
            Value::Str(s) => {
                let ghost before = out.deep_view();
                out.push(s.clone());
                assert(out.deep_view() =~= before.push(s@));
            },
            _ => {
                proof {
                    lemma_strs_scan_none(xs@, i as int + 1);
                }
                return None;
            },
        }
        i = i + 1;
    }
    assert(xs@.take(xs@.len() as int) =~= xs@);
    Some(out)
}

proof fn lemma_strs_scan_none(xs: Seq<Value>, k: int)
    requires
        0 <= k <= xs.len(),
        strs_scan(xs.take(k)) is None,
    ensures
        strs_scan(xs) is None,
    decreases xs.len() - k,
{
    if k < xs.len() {
        assert(xs.take(k + 1).drop_last() =~= xs.take(k));
        lemma_strs_scan_none(xs, k + 1);
    } else {
        assert(xs.take(k) =~= xs);
    }
}

proof fn lemma_ints_scan_stop(xs: Seq<Value>, k: int)
    requires
        0 <= k <= xs.len(),
        !(ints_scan(xs.take(k)) matches Ok(Some(_))),
    ensures
        ints_scan(xs) == ints_scan(xs.take(k)),
    decreases xs.len() - k,
{
    if k < xs.len() {
        assert(xs.take(k + 1).drop_last() =~= xs.take(k));
        lemma_ints_scan_stop(xs, k + 1);
    } else {
        assert(xs.take(k) =~= xs);
    }
}

/// The integers of a list, as `ints_scan` gives them.
pub fn unpack_ints(xs: &Vec<Value>) -> (r: Result<Option<Vec<i32>>, ()>)
    ensures
        match ints_scan(xs@) {
            Ok(Some(l)) => r matches Ok(Some(v)) && v@ == l,
            Ok(None) => r == Ok::<Option<Vec<i32>>, ()>(None),
            Err(_) => r is Err,
        },
{
    let mut out: Vec<i32> = Vec::new();
    let mut i: usize = 0;
    while i < xs.len()
        invariant
            i <= xs@.len(),
            ints_scan(xs@.take(i as int)) == Ok::<Option<Seq<i32>>, ()>(Some(out@)),
        decreases xs.len() - i,
    {
        assert(xs@.take(i as int + 1).drop_last() =~= xs@.take(i as int));
        assert(xs@.take(i as int + 1).last() == xs@[i as int]);
        match &xs[i] {
            Value::Int(n) => {
                if *n < -2147483648i64 || *n > 2147483647i64 {
                    proof {
                        lemma_ints_scan_stop(xs@, i as int + 1);
                    }
                    return Err(());
                }
                out.push(*n as i32);
            },
            _ => {
                proof {
                    lemma_ints_scan_stop(xs@, i as int + 1);
                }
                return Ok(None);
            },
        }
        i = i + 1;
    }
    assert(xs@.take(xs@.len() as int) =~= xs@);
    Ok(Some(out))
}

proof fn lemma_str_pairs_none(es: Seq<(Value, Value)>, k: int)
    requires
        0 <= k <= es.len(),
        str_pairs_scan(es.take(k)) is None,
    ensures
        str_pairs_scan(es) is None,
    decreases es.len() - k,
{
    if k < es.len() {
        assert(es.take(k + 1).drop_last() =~= es.take(k));
        lemma_str_pairs_none(es, k + 1);
    } else {
        assert(es.take(k) =~= es);
    }
}

proof fn lemma_str_lists_none(es: Seq<(Value, Value)>, k: int)
    requires
        0 <= k <= es.len(),
        str_lists_scan(es.take(k)) is None,
    ensures
        str_lists_scan(es) is None,
    decreases es.len() - k,
{
    if k < es.len() {
        assert(es.take(k + 1).drop_last() =~= es.take(k));
        lemma_str_lists_none(es, k + 1);
    } else {
        assert(es.take(k) =~= es);
    }
}

/// The entries of a dict of strings to strings, if it is one.
pub fn unpack_str_pairs(es: &Vec<(Value, Value)>) -> (r: Option<Vec<(String, String)>>)
    ensures
        r.deep_view() == str_pairs_scan(es@),
{
    let mut out: Vec<(String, String)> = Vec::new();
    let mut i: usize = 0;
    while i < es.len()
        invariant
            i <= es@.len(),
            str_pairs_scan(es@.take(i as int)) == Some(out.deep_view()),
        decreases es.len() - i,
    {
        assert(es@.take(i as int + 1).drop_last() =~= es@.take(i as int));
        assert(es@.take(i as int + 1).last() == es@[i as int]);
        let (k, v) = &es[i];
        match (k, v) {
            (Value::Str(ks), Value::Str(vs)) => {
                insert_entry_exec(&mut out, ks.clone(), vs.clone());
            },
            _ => {
                proof {
                    lemma_str_pairs_none(es@, i as int + 1);
                }
                return None;
            },
        }
        i = i + 1;
    }
    assert(es@.take(es@.len() as int) =~= es@);
    Some(out)
}

/// The entries of a dict of strings to lists of strings, if it is one.
pub fn unpack_str_lists(es: &Vec<(Value, Value)>) -> (r: Option<Vec<(String, Vec<String>)>>)
    ensures
        r.deep_view() == str_lists_scan(es@),
{
    let mut out: Vec<(String, Vec<String>)> = Vec::new();
    let mut i: usize = 0;
    while i < es.len()
        invariant
            i <= es@.len(),
            str_lists_scan(es@.take(i as int)) == Some(out.deep_view()),
        decreases es.len() - i,
    {
        assert(es@.take(i as int + 1).drop_last() =~= es@.take(i as int));
        assert(es@.take(i as int + 1).last() == es@[i as int]);
        let (k, v) = &es[i];
        let list = match v {
            Value::List(xs) => unpack_strs(xs),
            _ => None,
        };
        match (k, list) {
            (Value::Str(ks), Some(l)) => {
                insert_entry_exec(&mut out, ks.clone(), l);
            },
            _ => {
                proof {
                    lemma_str_lists_none(es@, i as int + 1);
                }
                return None;
            },
        }
        i = i + 1;
    }
    assert(es@.take(es@.len() as int) =~= es@);
    Some(out)
}


/// Values that can be copied with their deep view kept.
pub trait DeepClone: DeepView + Sized {
    fn deep_clone(&self) -> (r: Self)
        ensures
            r.deep_view() == self.deep_view(),
    ;
}

impl DeepClone for String {
    fn deep_clone(&self) -> (r: Self) {
        self.clone()
    }
}

impl DeepClone for i32 {
    fn deep_clone(&self) -> (r: Self) {
        *self
    }
}

impl DeepClone for LabelOrFile {
    fn deep_clone(&self) -> (r: Self) {
        self.clone()
    }
}

impl<A: DeepClone, B: DeepClone> DeepClone for (A, B) {
    fn deep_clone(&self) -> (r: Self) {
        (self.0.deep_clone(), self.1.deep_clone())
    }
}

impl<T: DeepClone> DeepClone for Vec<T> {
    fn deep_clone(&self) -> (r: Self) {
        let mut out: Vec<T> = Vec::new();
        let mut i: usize = 0;
        while i < self.len()
            invariant
                i <= self@.len(),
                out@.len() == i,
                forall|j: int| 0 <= j < i ==> (#[trigger] out@[j]).deep_view() == self@[j].deep_view(),
            decreases self.len() - i,
        {
            out.push(self[i].deep_clone());
            i = i + 1;
        }
        assert(out.deep_view() =~= self.deep_view());
        out
    }
}

/// How an attribute's labels are configured. Only the toolchain of the
/// target that declares the attribute is supported.
#[derive(PartialEq, Eq, Debug)]
pub enum AttrCfg {
    CurrentToolchain,
}

/// The underlying data type of a target attribute.
#[allow(inconsistent_fields)]
#[derive(PartialEq, Eq, Debug)]
pub enum AttrKind {
    Bool,
    Int { allowed: Option<Vec<i32>> },
    IntList,
    Label,
    LabelKeyedStringDict,
    LabelList,
    LabelListDict,
    String { allowed: Option<Vec<String>> },
    StringDict,
    StringKeyedLabelDict,
    StringList,
    StringListDict,
}

/// The mathematical value of an [`AttrKind`].
pub enum AttrKindV {
    Bool,
    Int(Option<Seq<i32>>),
    IntList,
    Label,
    LabelKeyedStringDict,
    LabelList,
    LabelListDict,
    String(Option<Seq<Seq<char>>>),
    StringDict,
    StringKeyedLabelDict,
    StringList,
    StringListDict,
}

impl View for AttrKind {
    type V = AttrKindV;

    open spec fn view(&self) -> AttrKindV {
        match self {
            AttrKind::Bool => AttrKindV::Bool,
            AttrKind::Int { allowed } => AttrKindV::Int(
                match allowed {
                    Some(a) => Some(a@),
                    None => None,
                },
            ),
            AttrKind::IntList => AttrKindV::IntList,
            AttrKind::Label => AttrKindV::Label,
            AttrKind::LabelKeyedStringDict => AttrKindV::LabelKeyedStringDict,
            AttrKind::LabelList => AttrKindV::LabelList,
            AttrKind::LabelListDict => AttrKindV::LabelListDict,
            AttrKind::String { allowed } => AttrKindV::String(
                match allowed {
                    Some(a) => Some(strs_view(a@)),
                    None => None,
                },
            ),
            AttrKind::StringDict => AttrKindV::StringDict,
            AttrKind::StringKeyedLabelDict => AttrKindV::StringKeyedLabelDict,
            AttrKind::StringList => AttrKindV::StringList,
            AttrKind::StringListDict => AttrKindV::StringListDict,
        }
    }
}

/// What files (a single one or many) a label-like attribute accepts.
#[derive(PartialEq, Eq, Debug)]
pub enum AllowFilesSchema {
    NoneValue,
    Single(AllowFiles),
    Many(AllowFiles),
}

/// The mathematical value of an [`AllowFilesSchema`].
pub enum AllowFilesSchemaV {
    NoneValue,
    Single(AllowFilesV),
    Many(AllowFilesV),
}

impl View for AllowFilesSchema {
    type V = AllowFilesSchemaV;

    open spec fn view(&self) -> AllowFilesSchemaV {
        match self {
            AllowFilesSchema::NoneValue => AllowFilesSchemaV::NoneValue,
            AllowFilesSchema::Single(a) => AllowFilesSchemaV::Single(a@),
            AllowFilesSchema::Many(a) => AllowFilesSchemaV::Many(a@),
        }
    }
}

/// What an attribute's values are checked against: no file for `NoneValue`.
pub open spec fn matcher_of(s: AllowFilesSchemaV) -> AllowFilesV {
    match s {
        AllowFilesSchemaV::NoneValue => AllowFilesV::NoneValue,
        AllowFilesSchemaV::Single(a) => a,
        AllowFilesSchemaV::Many(a) => a,
    }
}

/// The value of an attribute, as given to a target: it matches the schema's
/// kind; labels are not yet resolved to targets.
#[derive(PartialEq, Eq, Debug)]
pub enum Attr {
    NoneValue,
    Bool(bool),
    Int(i32),
    String(String),
    IntList(Vec<i32>),
    StringList(Vec<String>),
    StringListDict(Vec<(String, Vec<String>)>),
    Label(LabelOrFile),
    LabelList(Vec<LabelOrFile>),
    StringDict(Vec<(String, String)>),
    LabelKeyedStringDict(Vec<(LabelOrFile, String)>),
    StringKeyedLabelDict(Vec<(String, LabelOrFile)>),
    LabelListDict(Vec<(String, Vec<LabelOrFile>)>),
}

/// The mathematical value of an [`Attr`]; dicts list their entries in
/// insertion order.
pub enum AttrV {
    NoneValue,
    Bool(bool),
    Int(i32),
    String(Seq<char>),
    IntList(Seq<i32>),
    StringList(Seq<Seq<char>>),
    StringListDict(Seq<(Seq<char>, Seq<Seq<char>>)>),
    Label(LabelOrFileV),
    LabelList(Seq<LabelOrFileV>),
    StringDict(Seq<(Seq<char>, Seq<char>)>),
    LabelKeyedStringDict(Seq<(LabelOrFileV, Seq<char>)>),
    StringKeyedLabelDict(Seq<(Seq<char>, LabelOrFileV)>),
    LabelListDict(Seq<(Seq<char>, Seq<LabelOrFileV>)>),
}

impl View for Attr {
    type V = AttrV;

    open spec fn view(&self) -> AttrV {
        match self {
            Attr::NoneValue => AttrV::NoneValue,
            Attr::Bool(b) => AttrV::Bool(*b),
            Attr::Int(i) => AttrV::Int(*i),
            Attr::String(s) => AttrV::String(s@),
            Attr::IntList(l) => AttrV::IntList(l.deep_view()),
            Attr::StringList(l) => AttrV::StringList(l.deep_view()),
            Attr::StringListDict(d) => AttrV::StringListDict(d.deep_view()),
            Attr::Label(lf) => AttrV::Label(lf@),
            Attr::LabelList(l) => AttrV::LabelList(l.deep_view()),
            Attr::StringDict(d) => AttrV::StringDict(d.deep_view()),
            Attr::LabelKeyedStringDict(d) => AttrV::LabelKeyedStringDict(d.deep_view()),
            Attr::StringKeyedLabelDict(d) => AttrV::StringKeyedLabelDict(d.deep_view()),
            Attr::LabelListDict(d) => AttrV::LabelListDict(d.deep_view()),
        }
    }
}

impl Clone for Attr {
    fn clone(&self) -> (r: Self)
        ensures
            r@ == self@,
    {
        match self {
            Attr::NoneValue => Attr::NoneValue,
            Attr::Bool(b) => Attr::Bool(*b),
            Attr::Int(i) => Attr::Int(*i),
            Attr::String(s) => Attr::String(s.clone()),
            Attr::IntList(l) => Attr::IntList(l.deep_clone()),
            Attr::StringList(l) => Attr::StringList(l.deep_clone()),
            Attr::StringListDict(d) => Attr::StringListDict(d.deep_clone()),
            Attr::Label(lf) => Attr::Label(lf.clone()),
            Attr::LabelList(l) => Attr::LabelList(l.deep_clone()),
            Attr::StringDict(d) => Attr::StringDict(d.deep_clone()),
            Attr::LabelKeyedStringDict(d) => Attr::LabelKeyedStringDict(d.deep_clone()),
            Attr::StringKeyedLabelDict(d) => Attr::StringKeyedLabelDict(d.deep_clone()),
            Attr::LabelListDict(d) => Attr::LabelListDict(d.deep_clone()),
        }
    }
}

/// The declaration of an attribute, as `attr.<kind>(...)` makes it.
#[derive(PartialEq, Eq, Debug)]
pub struct AttrSchema {
    pub kind: AttrKind,
    pub default: Option<Attr>,
    pub disallow_empty: bool,
    pub allow_files: AllowFilesSchema,
    pub cfg: AttrCfg,
    pub doc: String,
}

/// The mathematical value of an [`AttrSchema`].
pub struct AttrSchemaV {
    pub kind: AttrKindV,
    pub default: Option<AttrV>,
    pub disallow_empty: bool,
    pub allow_files: AllowFilesSchemaV,
    pub doc: Seq<char>,
}

impl View for AttrSchema {
    type V = AttrSchemaV;

    open spec fn view(&self) -> AttrSchemaV {
        AttrSchemaV {
            kind: self.kind@,
            default: match self.default {
                Some(a) => Some(a@),
                None => None,
            },
            disallow_empty: self.disallow_empty,
            allow_files: self.allow_files@,
            doc: self.doc@,
        }
    }
}

/// A string that is written like a label: it starts with `//` or `:`.
pub open spec fn label_like(s: Seq<char>) -> bool {
    (s.len() >= 2 && s[0] == '/' && s[1] == '/') || (s.len() >= 1 && s[0] == ':')
}

/// A string of an attribute value: a label where it is written like one,
/// else a source file of the package, which `allowed` must accept.
pub open spec fn parse_label_like_spec(s: Seq<char>, allowed: AllowFilesV, pkg: Seq<char>) -> Result<
    LabelOrFileV,
    ErrorV,
> {
    if label_like(s) {
        match parse_label_spec(s, pkg) {
            Some(l) => Ok(LabelOrFileV::Label(l)),
            None => Err(ErrorV::InvalidLabel(s)),
        }
    } else {
        match validate_spec(allowed, s) {
            Some(e) => Err(e),
            None => Ok(LabelOrFileV::File(source_path(pkg, s))),
        }
    }
}

/// Parses a label-like string of an attribute of the package `pkg`.
pub fn parse_label_like(s: &str, allow_files: &AllowFiles, pkg: &str) -> (r: Result<LabelOrFile, Error>)
    ensures
        match parse_label_like_spec(s@, allow_files@, pkg@) {
            Ok(l) => r matches Ok(x) && x@ == l,
            Err(e) => r matches Err(x) && x@ == e,
        },
{
    proof {
        reveal_strlit("//");
        reveal_strlit(":");
    }
    if starts_with(s, "//") || starts_with(s, ":") {
        assert(label_like(s@)) by {
            if s@.len() >= 2 && s@.take(2) == "//"@ {
                assert(s@[0] == s@.take(2)[0]);
                assert(s@[1] == s@.take(2)[1]);
            } else {
                assert(s@[0] == s@.take(1)[0]);
            }
        }
        match parse_label(s, pkg) {
            Ok(l) => Ok(LabelOrFile::Label(l)),
            Err(e) => Err(e),
        }
    } else {
        assert(!label_like(s@)) by {
            if s@.len() >= 2 && s@[0] == '/' && s@[1] == '/' {
                assert(s@.take(2) =~= "//"@);
            }
            if s@.len() >= 1 && s@[0] == ':' {
                assert(s@.take(1) =~= ":"@);
            }
        }
        match allow_files.validate(s) {
            Err(e) => Err(e),
            Ok(()) => Ok(LabelOrFile::File(source_file(pkg, s))),
        }
    }
}


/// The labels or files of a list of strings; the first error stops.
pub open spec fn parse_all(ss: Seq<Seq<char>>, af: AllowFilesV, pkg: Seq<char>) -> Result<
    Seq<LabelOrFileV>,
    ErrorV,
>
    decreases ss.len(),
{
    if ss.len() == 0 {
        Ok(Seq::empty())
    } else {
        match parse_all(ss.drop_last(), af, pkg) {
            Err(e) => Err(e),
            Ok(p) => match parse_label_like_spec(ss.last(), af, pkg) {
                Ok(l) => Ok(p.push(l)),
                Err(e) => Err(e),
            },
        }
    }
}

/// A dict of strings with its keys parsed to labels or files, inserted in
/// turn; the first error stops.
pub open spec fn parse_keys(es: Seq<(Seq<char>, Seq<char>)>, af: AllowFilesV, pkg: Seq<char>) -> Result<
    Seq<(LabelOrFileV, Seq<char>)>,
    ErrorV,
>
    decreases es.len(),
{
    if es.len() == 0 {
        Ok(Seq::empty())
    } else {
        match parse_keys(es.drop_last(), af, pkg) {
            Err(e) => Err(e),
            Ok(p) => match parse_label_like_spec(es.last().0, af, pkg) {
                Ok(l) => Ok(insert_entry(p, l, es.last().1)),
                Err(e) => Err(e),
            },
        }
    }
}

/// A dict of strings with its values parsed to labels or files, inserted in
/// turn; the first error stops.
pub open spec fn parse_values(es: Seq<(Seq<char>, Seq<char>)>, af: AllowFilesV, pkg: Seq<char>) -> Result<
    Seq<(Seq<char>, LabelOrFileV)>,
    ErrorV,
>
    decreases es.len(),
{
    if es.len() == 0 {
        Ok(Seq::empty())
    } else {
        match parse_values(es.drop_last(), af, pkg) {
            Err(e) => Err(e),
            Ok(p) => match parse_label_like_spec(es.last().1, af, pkg) {
                Ok(l) => Ok(insert_entry(p, es.last().0, l)),
                Err(e) => Err(e),
            },
        }
    }
}

/// A dict of lists of strings with the lists parsed to labels or files,
/// inserted in turn; the first error stops.
pub open spec fn parse_lists(es: Seq<(Seq<char>, Seq<Seq<char>>)>, af: AllowFilesV, pkg: Seq<char>) -> Result<
    Seq<(Seq<char>, Seq<LabelOrFileV>)>,
    ErrorV,
>
    decreases es.len(),
{
    if es.len() == 0 {
        Ok(Seq::empty())
    } else {
        match parse_lists(es.drop_last(), af, pkg) {
            Err(e) => Err(e),
            Ok(p) => match parse_all(es.last().1, af, pkg) {
                Ok(l) => Ok(insert_entry(p, es.last().0, l)),
                Err(e) => Err(e),
            },
        }
    }
}

proof fn lemma_parse_all_err(ss: Seq<Seq<char>>, af: AllowFilesV, pkg: Seq<char>, k: int)
    requires
        0 <= k <= ss.len(),
        parse_all(ss.take(k), af, pkg) is Err,
    ensures
        parse_all(ss, af, pkg) == parse_all(ss.take(k), af, pkg),
    decreases ss.len() - k,
{
    if k < ss.len() {
        assert(ss.take(k + 1).drop_last() =~= ss.take(k));
        lemma_parse_all_err(ss, af, pkg, k + 1);
    } else {
        assert(ss.take(k) =~= ss);
    }
}

proof fn lemma_parse_keys_err(es: Seq<(Seq<char>, Seq<char>)>, af: AllowFilesV, pkg: Seq<char>, k: int)
    requires
        0 <= k <= es.len(),
        parse_keys(es.take(k), af, pkg) is Err,
    ensures
        parse_keys(es, af, pkg) == parse_keys(es.take(k), af, pkg),
    decreases es.len() - k,
{
    if k < es.len() {
        assert(es.take(k + 1).drop_last() =~= es.take(k));
        lemma_parse_keys_err(es, af, pkg, k + 1);
    } else {
        assert(es.take(k) =~= es);
    }
}

proof fn lemma_parse_values_err(es: Seq<(Seq<char>, Seq<char>)>, af: AllowFilesV, pkg: Seq<char>, k: int)
    requires
        0 <= k <= es.len(),
        parse_values(es.take(k), af, pkg) is Err,
    ensures
        parse_values(es, af, pkg) == parse_values(es.take(k), af, pkg),
    decreases es.len() - k,
{
    if k < es.len() {
        assert(es.take(k + 1).drop_last() =~= es.take(k));
        lemma_parse_values_err(es, af, pkg, k + 1);
    } else {
        assert(es.take(k) =~= es);
    }
}

proof fn lemma_parse_lists_err(
    es: Seq<(Seq<char>, Seq<Seq<char>>)>,
    af: AllowFilesV,
    pkg: Seq<char>,
    k: int,
)
    requires
        0 <= k <= es.len(),
        parse_lists(es.take(k), af, pkg) is Err,
    ensures
        parse_lists(es, af, pkg) == parse_lists(es.take(k), af, pkg),
    decreases es.len() - k,
{
    if k < es.len() {
        assert(es.take(k + 1).drop_last() =~= es.take(k));
        lemma_parse_lists_err(es, af, pkg, k + 1);
    } else {
        assert(es.take(k) =~= es);
    }
}

/// Parses each string of `ss` to a label or file.
fn parse_all_exec(ss: &Vec<String>, af: &AllowFiles, pkg: &str) -> (r: Result<Vec<LabelOrFile>, Error>)
    ensures
        match parse_all(ss.deep_view(), af@, pkg@) {
            Ok(l) => r matches Ok(x) && x.deep_view() == l,
            Err(e) => r matches Err(x) && x@ == e,
        },
{
    let ghost d = ss.deep_view();
    let mut out: Vec<LabelOrFile> = Vec::new();
    let mut i: usize = 0;
    assert(d.take(0) =~= Seq::empty());
    assert(out.deep_view() =~= Seq::empty());
    while i < ss.len()
        invariant
            i <= ss@.len(),
            d == ss.deep_view(),
            parse_all(d.take(i as int), af@, pkg@) == Ok::<Seq<LabelOrFileV>, ErrorV>(out.deep_view()),
        decreases ss.len() - i,
    {
        assert(d.take(i as int + 1).drop_last() =~= d.take(i as int));
        assert(d.take(i as int + 1).last() == ss@[i as int]@);
        match parse_label_like(ss[i].as_str(), af, pkg) {
            Ok(l) => {
                let ghost before = out.deep_view();
                out.push(l);
                assert(out.deep_view() =~= before.push(l@));
            },
            Err(e) => {
                proof {
                    lemma_parse_all_err(d, af@, pkg@, i as int + 1);
                }
                return Err(e);
            },
        }
        i = i + 1;
    }
    assert(d.take(d.len() as int) =~= d);
    Ok(out)
}

/// Parses the keys of a dict of strings to labels or files.
fn parse_keys_exec(es: &Vec<(String, String)>, af: &AllowFiles, pkg: &str) -> (r: Result<
    Vec<(LabelOrFile, String)>,
    Error,
>)
    ensures
        match parse_keys(es.deep_view(), af@, pkg@) {
            Ok(l) => r matches Ok(x) && x.deep_view() == l,
            Err(e) => r matches Err(x) && x@ == e,
        },
{
    let ghost d = es.deep_view();
    let mut out: Vec<(LabelOrFile, String)> = Vec::new();
    let mut i: usize = 0;
    assert(d.take(0) =~= Seq::empty());
    assert(out.deep_view() =~= Seq::empty());
    while i < es.len()
        invariant
            i <= es@.len(),
            d == es.deep_view(),
            parse_keys(d.take(i as int), af@, pkg@) == Ok::<Seq<(LabelOrFileV, Seq<char>)>, ErrorV>(
                out.deep_view(),
            ),
        decreases es.len() - i,
    {
        assert(d.take(i as int + 1).drop_last() =~= d.take(i as int));
        assert(d.take(i as int + 1).last() == es@[i as int].deep_view());
        match parse_label_like(es[i].0.as_str(), af, pkg) {
            Ok(l) => {
                insert_entry_exec(&mut out, l, es[i].1.clone());
            },
            Err(e) => {
                proof {
                    lemma_parse_keys_err(d, af@, pkg@, i as int + 1);
                }
                return Err(e);
            },
        }
        i = i + 1;
    }
    assert(d.take(d.len() as int) =~= d);
    Ok(out)
}

/// Parses the values of a dict of strings to labels or files.
fn parse_values_exec(es: &Vec<(String, String)>, af: &AllowFiles, pkg: &str) -> (r: Result<
    Vec<(String, LabelOrFile)>,
    Error,
>)
    ensures
        match parse_values(es.deep_view(), af@, pkg@) {
            Ok(l) => r matches Ok(x) && x.deep_view() == l,
            Err(e) => r matches Err(x) && x@ == e,
        },
{
    let ghost d = es.deep_view();
    let mut out: Vec<(String, LabelOrFile)> = Vec::new();
    let mut i: usize = 0;
    assert(d.take(0) =~= Seq::empty());
    assert(out.deep_view() =~= Seq::empty());
    while i < es.len()
        invariant
            i <= es@.len(),
            d == es.deep_view(),
            parse_values(d.take(i as int), af@, pkg@) == Ok::<Seq<(Seq<char>, LabelOrFileV)>, ErrorV>(
                out.deep_view(),
            ),
        decreases es.len() - i,
    {
        assert(d.take(i as int + 1).drop_last() =~= d.take(i as int));
        assert(d.take(i as int + 1).last() == es@[i as int].deep_view());
        match parse_label_like(es[i].1.as_str(), af, pkg) {
            Ok(l) => {
                insert_entry_exec(&mut out, es[i].0.clone(), l);
            },
            Err(e) => {
                proof {
                    lemma_parse_values_err(d, af@, pkg@, i as int + 1);
                }
                return Err(e);
            },
        }
        i = i + 1;
    }
    assert(d.take(d.len() as int) =~= d);
    Ok(out)
}

/// Parses the lists of a dict of lists of strings to labels or files.
fn parse_lists_exec(es: &Vec<(String, Vec<String>)>, af: &AllowFiles, pkg: &str) -> (r: Result<
    Vec<(String, Vec<LabelOrFile>)>,
    Error,
>)
    ensures
        match parse_lists(es.deep_view(), af@, pkg@) {
            Ok(l) => r matches Ok(x) && x.deep_view() == l,
            Err(e) => r matches Err(x) && x@ == e,
        },
{
    let ghost d = es.deep_view();
    let mut out: Vec<(String, Vec<LabelOrFile>)> = Vec::new();
    let mut i: usize = 0;
    assert(d.take(0) =~= Seq::empty());
    assert(out.deep_view() =~= Seq::empty());
    while i < es.len()
        invariant
            i <= es@.len(),
            d == es.deep_view(),
            parse_lists(d.take(i as int), af@, pkg@) == Ok::<Seq<(Seq<char>, Seq<LabelOrFileV>)>, ErrorV>(
                out.deep_view(),
            ),
        decreases es.len() - i,
    {
        assert(d.take(i as int + 1).drop_last() =~= d.take(i as int));
        assert(d.take(i as int + 1).last() == es@[i as int].deep_view());
        match parse_all_exec(&es[i].1, af, pkg) {
            Ok(l) => {
                insert_entry_exec(&mut out, es[i].0.clone(), l);
            },
            Err(e) => {
                proof {
                    lemma_parse_lists_err(d, af@, pkg@, i as int + 1);
                }
                return Err(e);
            },
        }
        i = i + 1;
    }
    assert(d.take(d.len() as int) =~= d);
    Ok(out)
}


/// Whether a list or dict of `len` entries may stand: `disallow_empty`
/// forbids an empty one.
pub open spec fn size_ok(disallow_empty: bool, len: nat) -> bool {
    !(disallow_empty && len == 0)
}

/// The attribute that `v` gives for a parameter `param` of the kind and
/// checks of `schema`, in the package `pkg`: the value's type first, then
/// the allowed values or emptiness, then the labels and files it names.
pub open spec fn create_spec(param: Seq<char>, schema: AttrSchemaV, v: Value, pkg: Seq<char>) -> Result<
    AttrV,
    ErrorV,
> {
    let af = matcher_of(schema.allow_files);
    let de = schema.disallow_empty;
    match schema.kind {
        AttrKindV::Bool => match v {
            Value::Bool(b) => Ok(AttrV::Bool(b)),
            _ => Err(ErrorV::WrongType(param, "bool"@)),
        },
        AttrKindV::Int(allowed) => match v {
            Value::Int(i) => if !in_i32(i as int) {
                Err(ErrorV::IntegerTooBig(param))
            } else if allowed matches Some(a) && !a.contains(i as i32) {
                Err(ErrorV::IntNotAllowed(i as int))
            } else {
                Ok(AttrV::Int(i as i32))
            },
            _ => Err(ErrorV::WrongType(param, "int"@)),
        },
        AttrKindV::String(allowed) => match v {
            Value::Str(s) => if allowed matches Some(a) && !a.contains(s@) {
                Err(ErrorV::StringNotAllowed(s@))
            } else {
                Ok(AttrV::String(s@))
            },
            _ => Err(ErrorV::WrongType(param, "str"@)),
        },
        AttrKindV::IntList => match v {
            Value::List(xs) => match ints_scan(xs@) {
                Err(_) => Err(ErrorV::IntegerTooBig(param)),
                Ok(None) => Err(ErrorV::WrongType(param, "list[int]"@)),
                Ok(Some(l)) => if size_ok(de, l.len()) {
                    Ok(AttrV::IntList(l))
                } else {
                    Err(ErrorV::EmptyListDisallowed)
                },
            },
            _ => Err(ErrorV::WrongType(param, "list[int]"@)),
        },
        AttrKindV::StringList => match str_list_view(v) {
            None => Err(ErrorV::WrongType(param, "list[str]"@)),
            Some(l) => if size_ok(de, l.len()) {
                Ok(AttrV::StringList(l))
            } else {
                Err(ErrorV::EmptyListDisallowed)
            },
        },
        AttrKindV::StringListDict => match v {
            Value::Dict(es) => match str_lists_scan(es@) {
                None => Err(ErrorV::WrongType(param, "dict[str, list[str]]"@)),
                Some(d) => if size_ok(de, es@.len()) {
                    Ok(AttrV::StringListDict(d))
                } else {
                    Err(ErrorV::EmptyDictDisallowed)
                },
            },
            _ => Err(ErrorV::WrongType(param, "dict[str, list[str]]"@)),
        },
        AttrKindV::Label => match v {
            Value::NoneValue => Ok(AttrV::NoneValue),
            Value::Str(s) => match parse_label_like_spec(s@, af, pkg) {
                Ok(l) => Ok(AttrV::Label(l)),
                Err(e) => Err(e),
            },
            _ => Err(ErrorV::WrongType(param, "None | str"@)),
        },
        AttrKindV::LabelList => match str_list_view(v) {
            None => Err(ErrorV::WrongType(param, "list[str]"@)),
            Some(l) => if !size_ok(de, l.len()) {
                Err(ErrorV::EmptyListDisallowed)
            } else {
                match parse_all(l, af, pkg) {
                    Ok(p) => Ok(AttrV::LabelList(p)),
                    Err(e) => Err(e),
                }
            },
        },
        AttrKindV::StringDict => match v {
            Value::Dict(es) => match str_pairs_scan(es@) {
                None => Err(ErrorV::WrongType(param, "dict[str, str]"@)),
                Some(d) => if size_ok(de, es@.len()) {
                    Ok(AttrV::StringDict(d))
                } else {
                    Err(ErrorV::EmptyDictDisallowed)
                },
            },
            _ => Err(ErrorV::WrongType(param, "dict[str, str]"@)),
        },
        AttrKindV::LabelKeyedStringDict => match v {
            Value::Dict(es) => match str_pairs_scan(es@) {
                None => Err(ErrorV::WrongType(param, "dict[str, str]"@)),
                Some(d) => if !size_ok(de, es@.len()) {
                    Err(ErrorV::EmptyDictDisallowed)
                } else {
                    match parse_keys(d, af, pkg) {
                        Ok(p) => Ok(AttrV::LabelKeyedStringDict(p)),
                        Err(e) => Err(e),
                    }
                },
            },
            _ => Err(ErrorV::WrongType(param, "dict[str, str]"@)),
        },
        AttrKindV::StringKeyedLabelDict => match v {
            Value::Dict(es) => match str_pairs_scan(es@) {
                None => Err(ErrorV::WrongType(param, "dict[str, str]"@)),
                Some(d) => if !size_ok(de, es@.len()) {
                    Err(ErrorV::EmptyDictDisallowed)
                } else {
                    match parse_values(d, af, pkg) {
                        Ok(p) => Ok(AttrV::StringKeyedLabelDict(p)),
                        Err(e) => Err(e),
                    }
                },
            },
            _ => Err(ErrorV::WrongType(param, "dict[str, str]"@)),
        },
        AttrKindV::LabelListDict => match v {
            Value::Dict(es) => match str_lists_scan(es@) {
                None => Err(ErrorV::WrongType(param, "dict[str, list[str]]"@)),
                Some(d) => if !size_ok(de, es@.len()) {
                    Err(ErrorV::EmptyDictDisallowed)
                } else {
                    match parse_lists(d, af, pkg) {
                        Ok(p) => Ok(AttrV::LabelListDict(p)),
                        Err(e) => Err(e),
                    }
                },
            },
            _ => Err(ErrorV::WrongType(param, "dict[str, list[str]]"@)),
        },
    }
}

/// The files the schema's attribute accepts (none for `NoneValue`).
fn schema_matcher(s: &AllowFilesSchema) -> (r: AllowFiles)
    ensures
        r@ == matcher_of(s@),
{
    match s {
        AllowFilesSchema::NoneValue => AllowFiles::NoneValue,
        AllowFilesSchema::Single(a) => a.clone(),
        AllowFilesSchema::Many(a) => a.clone(),
    }
}

fn wrong_type(param: &str, expected: &str) -> (r: Error)
    ensures
        r@ == ErrorV::WrongType(param@, expected@),
{
    Error::WrongType { param: String::from_str(param), expected: String::from_str(expected) }
}

/// Whether `v` holds `x`.
fn contains_i32(v: &Vec<i32>, x: i32) -> (r: bool)
    ensures
        r == v@.contains(x),
{
    let mut i: usize = 0;
    while i < v.len()
        invariant
            i <= v@.len(),
            forall|j: int| 0 <= j < i ==> v@[j] != x,
        decreases v.len() - i,
    {
        if v[i] == x {
            assert(v@[i as int] == x);
            return true;
        }
        i = i + 1;
    }
    false
}

impl Attr {
    /// Coerces the value `value` given for the parameter `param_name` into
    /// an attribute of the schema's kind, applying the schema's checks;
    /// labels are parsed relative to the package `package`.
    pub fn create_without_defaults(param_name: &str, schema: &AttrSchema, value: &Value, package: &str) -> (r:
        Result<Attr, Error>)
        ensures
            match create_spec(param_name@, schema@, *value, package@) {
                Ok(a) => r matches Ok(x) && x@ == a,
                Err(e) => r matches Err(x) && x@ == e,
            },
    {
        let af = schema_matcher(&schema.allow_files);
        let de = schema.disallow_empty;
        match &schema.kind {
            AttrKind::Bool => match value {
                Value::Bool(b) => Ok(Attr::Bool(*b)),
                _ => Err(wrong_type(param_name, "bool")),
            },
            AttrKind::Int { allowed } => match value {
                Value::Int(i) => {
                    if *i < -2147483648i64 || *i > 2147483647i64 {
                        return Err(Error::IntegerTooBig { param: String::from_str(param_name) });
                    }
                    let n = *i as i32;
                    match allowed {
                        Some(a) => {
                            if !contains_i32(a, n) {
                                return Err(Error::IntNotAllowed(n));
                            }
                        },
                        None => {},
                    }
                    Ok(Attr::Int(n))
                },
                _ => Err(wrong_type(param_name, "int")),
            },
            AttrKind::String { allowed } => match value {
                Value::Str(s) => {
                    match allowed {
                        Some(a) => {
                            if !crate::types::contains_string(a, s) {
                                return Err(Error::StringNotAllowed(s.clone()));
                            }
                        },
                        None => {},
                    }
                    Ok(Attr::String(s.clone()))
                },
                _ => Err(wrong_type(param_name, "str")),
            },
            AttrKind::IntList => match value {
                Value::List(xs) => match unpack_ints(xs) {
                    Err(_) => Err(Error::IntegerTooBig { param: String::from_str(param_name) }),
                    Ok(None) => Err(wrong_type(param_name, "list[int]")),
                    Ok(Some(l)) => {
                        if de && l.len() == 0 {
                            return Err(Error::EmptyListDisallowed);
                        }
                        assert(l.deep_view() =~= l@);
                        Ok(Attr::IntList(l))
                    },
                },
                _ => Err(wrong_type(param_name, "list[int]")),
            },
            AttrKind::StringList => {
                let l = match value {
                    Value::List(xs) => unpack_strs(xs),
                    _ => None,
                };
                match l {
                    None => Err(wrong_type(param_name, "list[str]")),
                    Some(l) => {
                        if de && l.len() == 0 {
                            return Err(Error::EmptyListDisallowed);
                        }
                        Ok(Attr::StringList(l))
                    },
                }
            },
            AttrKind::StringListDict => match value {
                Value::Dict(es) => match unpack_str_lists(es) {
                    None => Err(wrong_type(param_name, "dict[str, list[str]]")),
                    Some(d) => {
                        if de && es.len() == 0 {
                            return Err(Error::EmptyDictDisallowed);
                        }
                        Ok(Attr::StringListDict(d))
                    },
                },
                _ => Err(wrong_type(param_name, "dict[str, list[str]]")),
            },
            AttrKind::Label => match value {
                Value::NoneValue => Ok(Attr::NoneValue),
                Value::Str(s) => match parse_label_like(s.as_str(), &af, package) {
                    Ok(l) => Ok(Attr::Label(l)),
                    Err(e) => Err(e),
                },
                _ => Err(wrong_type(param_name, "None | str")),
            },
            AttrKind::LabelList => {
                let l = match value {
                    Value::List(xs) => unpack_strs(xs),
                    _ => None,
                };
                match l {
                    None => Err(wrong_type(param_name, "list[str]")),
                    Some(l) => {
                        if de && l.len() == 0 {
                            return Err(Error::EmptyListDisallowed);
                        }
                        match parse_all_exec(&l, &af, package) {
                            Ok(p) => Ok(Attr::LabelList(p)),
                            Err(e) => Err(e),
                        }
                    },
                }
            },
            AttrKind::StringDict => match value {
                Value::Dict(es) => match unpack_str_pairs(es) {
                    None => Err(wrong_type(param_name, "dict[str, str]")),
                    Some(d) => {
                        if de && es.len() == 0 {
                            return Err(Error::EmptyDictDisallowed);
                        }
                        Ok(Attr::StringDict(d))
                    },
                },
                _ => Err(wrong_type(param_name, "dict[str, str]")),
            },
            AttrKind::LabelKeyedStringDict => match value {
                Value::Dict(es) => match unpack_str_pairs(es) {
                    None => Err(wrong_type(param_name, "dict[str, str]")),
                    Some(d) => {
                        if de && es.len() == 0 {
                            return Err(Error::EmptyDictDisallowed);
                        }
                        match parse_keys_exec(&d, &af, package) {
                            Ok(p) => Ok(Attr::LabelKeyedStringDict(p)),
                            Err(e) => Err(e),
                        }
                    },
                },
                _ => Err(wrong_type(param_name, "dict[str, str]")),
            },
            AttrKind::StringKeyedLabelDict => match value {
                Value::Dict(es) => match unpack_str_pairs(es) {
                    None => Err(wrong_type(param_name, "dict[str, str]")),
                    Some(d) => {
                        if de && es.len() == 0 {
                            return Err(Error::EmptyDictDisallowed);
                        }
                        match parse_values_exec(&d, &af, package) {
                            Ok(p) => Ok(Attr::StringKeyedLabelDict(p)),
                            Err(e) => Err(e),
                        }
                    },
                },
                _ => Err(wrong_type(param_name, "dict[str, str]")),
            },
            AttrKind::LabelListDict => match value {
                Value::Dict(es) => match unpack_str_lists(es) {
                    None => Err(wrong_type(param_name, "dict[str, list[str]]")),
                    Some(d) => {
                        if de && es.len() == 0 {
                            return Err(Error::EmptyDictDisallowed);
                        }
                        match parse_lists_exec(&d, &af, package) {
                            Ok(p) => Ok(Attr::LabelListDict(p)),
                            Err(e) => Err(e),
                        }
                    },
                },
                _ => Err(wrong_type(param_name, "dict[str, list[str]]")),
            },
        }
    }
}


/// The attribute a parameter gets: `value` coerced where it is given
/// (`Some(Value::NoneValue)` for an explicit `None`), else the schema's
/// default, else an error for a mandatory attribute.
pub open spec fn attr_create_spec(param: Seq<char>, schema: AttrSchemaV, value: Option<&Value>, pkg: Seq<char>) -> Result<
    AttrV,
    ErrorV,
> {
    match value {
        Some(v) => create_spec(param, schema, *v, pkg),
        None => match schema.default {
            None => Err(ErrorV::MandatoryAttribute(param)),
            Some(d) => Ok(d),
        },
    }
}

impl Attr {
    /// The attribute for the parameter `param_name`: the given value coerced
    /// by the schema, or the schema's default where none is given.
    pub fn create(param_name: &str, schema: &AttrSchema, value: Option<&Value>, package: &str) -> (r: Result<
        Attr,
        Error,
    >)
        ensures
            match attr_create_spec(param_name@, schema@, value, package@) {
                Ok(a) => r matches Ok(x) && x@ == a,
                Err(e) => r matches Err(x) && x@ == e,
            },
    {
        match value {
            Some(v) => Attr::create_without_defaults(param_name, schema, v, package),
            None => match &schema.default {
                None => Err(Error::MandatoryAttribute { param: String::from_str(param_name) }),
                Some(d) => Ok(d.clone()),
            },
        }
    }
}

/// The parameters given to `attr.<kind>(...)`; `None` where one was not
/// given. `doc` is `Some(None)` for an explicit `None`.
pub struct AttrSpecArgs {
    pub default: Option<Value>,
    pub mandatory: Option<bool>,
    pub allow_empty: Option<bool>,
    pub allow_files: Option<AllowFiles>,
    pub allow_single_file: Option<AllowFiles>,
    pub cfg: Option<AttrCfg>,
    pub doc: Option<Option<String>>,
}

impl Default for AttrSpecArgs {
    /// No parameter given.
    fn default() -> (r: Self)
        ensures
            r.default is None,
            r.mandatory is None,
            r.allow_empty is None,
            r.allow_files is None,
            r.allow_single_file is None,
            r.cfg is None,
            r.doc is None,
    {
        AttrSpecArgs {
            default: None,
            mandatory: None,
            allow_empty: None,
            allow_files: None,
            allow_single_file: None,
            cfg: None,
            doc: None,
        }
    }
}

/// The files given for `allow_single_file` or `allow_files`, `NoneValue`
/// where the parameter was not given.
pub open spec fn allow_or_none(a: Option<AllowFiles>) -> AllowFilesV {
    match a {
        Some(x) => x@,
        None => AllowFilesV::NoneValue,
    }
}

/// The files an attribute accepts, from `allow_single_file` and
/// `allow_files`; `None` where both accept files.
pub open spec fn allow_files_spec(single: AllowFilesV, many: AllowFilesV) -> Option<AllowFilesSchemaV> {
    if single is NoneValue && many is NoneValue {
        Some(AllowFilesSchemaV::NoneValue)
    } else if many is NoneValue {
        Some(AllowFilesSchemaV::Single(single))
    } else if single is NoneValue {
        Some(AllowFilesSchemaV::Many(many))
    } else {
        None
    }
}

/// The default of an optional attribute declared without one: the zero
/// value of its kind.
pub open spec fn zero_default(kind: AttrKindV) -> AttrV {
    match kind {
        AttrKindV::Bool => AttrV::Bool(false),
        AttrKindV::Int(_) => AttrV::Int(0),
        AttrKindV::String(_) => AttrV::String(Seq::empty()),
        AttrKindV::IntList => AttrV::IntList(Seq::empty()),
        AttrKindV::StringList => AttrV::StringList(Seq::empty()),
        AttrKindV::LabelList => AttrV::LabelList(Seq::empty()),
        AttrKindV::StringListDict => AttrV::StringListDict(Seq::empty()),
        AttrKindV::StringDict => AttrV::StringDict(Seq::empty()),
        AttrKindV::LabelKeyedStringDict => AttrV::LabelKeyedStringDict(Seq::empty()),
        AttrKindV::StringKeyedLabelDict => AttrV::StringKeyedLabelDict(Seq::empty()),
        AttrKindV::LabelListDict => AttrV::LabelListDict(Seq::empty()),
        AttrKindV::Label => AttrV::NoneValue,
    }
}

/// The schema that `attr.<kind>(...)` declares: the files it accepts, then
/// whether `allow_empty = False` is backed by `mandatory` or a default, then
/// its default (given defaults are coerced like values, for an unnamed
/// parameter).
pub open spec fn schema_spec(kind: AttrKindV, args: AttrSpecArgs, pkg: Seq<char>) -> Result<AttrSchemaV, ErrorV> {
    match allow_files_spec(allow_or_none(args.allow_single_file), allow_or_none(args.allow_files)) {
        None => Err(ErrorV::AllowFilesMutuallyExclusive),
        Some(afs) => {
            let de = match args.allow_empty {
                Some(b) => !b,
                None => false,
            };
            let mandatory = match args.mandatory {
                Some(b) => b,
                None => false,
            };
            let doc = match args.doc {
                Some(Some(d)) => d@,
                _ => Seq::empty(),
            };
            let base = AttrSchemaV {
                kind: kind,
                default: None,
                disallow_empty: de,
                allow_files: afs,
                doc: doc,
            };
            if de && !mandatory && args.default is None {
                Err(ErrorV::AllowEmptyRequiresMandatoryOrDefault)
            } else {
                match args.default {
                    None => if mandatory {
                        Ok(base)
                    } else {
                        Ok(AttrSchemaV { default: Some(zero_default(kind)), ..base })
                    },
                    Some(v) => if mandatory {
                        Err(ErrorV::MandatoryAndDefaultMutuallyExclusive)
                    } else {
                        match create_spec("<unnamed>"@, base, v, pkg) {
                            Ok(a) => Ok(AttrSchemaV { default: Some(a), ..base }),
                            Err(e) => Err(e),
                        }
                    },
                }
            }
        },
    }
}

/// The zero value of an attribute kind.
fn zero_default_exec(kind: &AttrKind) -> (r: Attr)
    ensures
        r@ == zero_default(kind@),
{
    match kind {
        AttrKind::Bool => Attr::Bool(false),
        AttrKind::Int { .. } => Attr::Int(0),
        AttrKind::String { .. } => Attr::String(String::new()),
        AttrKind::IntList => {
            let v: Vec<i32> = Vec::new();
            assert(v.deep_view() =~= Seq::empty());
            Attr::IntList(v)
        },
        AttrKind::StringList => {
            let v: Vec<String> = Vec::new();
            assert(v.deep_view() =~= Seq::empty());
            Attr::StringList(v)
        },
        AttrKind::LabelList => {
            let v: Vec<LabelOrFile> = Vec::new();
            assert(v.deep_view() =~= Seq::empty());
            Attr::LabelList(v)
        },
        AttrKind::StringListDict => {
            let v: Vec<(String, Vec<String>)> = Vec::new();
            assert(v.deep_view() =~= Seq::empty());
            Attr::StringListDict(v)
        },
        AttrKind::StringDict => {
            let v: Vec<(String, String)> = Vec::new();
            assert(v.deep_view() =~= Seq::empty());
            Attr::StringDict(v)
        },
        AttrKind::LabelKeyedStringDict => {
            let v: Vec<(LabelOrFile, String)> = Vec::new();
            assert(v.deep_view() =~= Seq::empty());
            Attr::LabelKeyedStringDict(v)
        },
        AttrKind::StringKeyedLabelDict => {
            let v: Vec<(String, LabelOrFile)> = Vec::new();
            assert(v.deep_view() =~= Seq::empty());
            Attr::StringKeyedLabelDict(v)
        },
        AttrKind::LabelListDict => {
            let v: Vec<(String, Vec<LabelOrFile>)> = Vec::new();
            assert(v.deep_view() =~= Seq::empty());
            Attr::LabelListDict(v)
        },
        AttrKind::Label => Attr::NoneValue,
    }
}

impl AttrSchema {
    /// Creates the schema that `attr.<kind>(...)` declares with the
    /// parameters `args`, in the package `package`.
    pub fn create(kind: AttrKind, args: AttrSpecArgs, package: &str) -> (r: Result<AttrSchema, Error>)
        ensures
            match schema_spec(kind@, args, package@) {
                Ok(s) => r matches Ok(x) && x@ == s,
                Err(e) => r matches Err(x) && x@ == e,
            },
    {
        let ghost args0 = args;
        let single = match args.allow_single_file {
            Some(a) => a,
            None => AllowFiles::NoneValue,
        };
        let many = match args.allow_files {
            Some(a) => a,
            None => AllowFiles::NoneValue,
        };
        let single_none = match single {
            AllowFiles::NoneValue => true,
            _ => false,
        };
        let many_none = match many {
            AllowFiles::NoneValue => true,
            _ => false,
        };
        let allow_files = if single_none && many_none {
            AllowFilesSchema::NoneValue
        } else if many_none {
            AllowFilesSchema::Single(single)
        } else if single_none {
            AllowFilesSchema::Many(many)
        } else {
            return Err(Error::AllowFilesMutuallyExclusive);
        };
        let disallow_empty = match args.allow_empty {
            Some(b) => !b,
            None => false,
        };
        let doc = match args.doc {
            Some(Some(d)) => d,
            _ => String::new(),
        };
        let mandatory = match args.mandatory {
            Some(b) => b,
            None => false,
        };
        let mut schema = AttrSchema {
            kind,
            default: None,
            disallow_empty,
            allow_files,
            cfg: AttrCfg::CurrentToolchain,
            doc,
        };
        if disallow_empty && !mandatory && args.default.is_none() {
            return Err(Error::AllowEmptyRequiresMandatoryOrDefault);
        }
        match args.default {
            None => {
                if !mandatory {
                    let z = zero_default_exec(&schema.kind);
                    schema.default = Some(z);
                }
            },
            Some(v) => {
                if mandatory {
                    return Err(Error::MandatoryAndDefaultMutuallyExclusive);
                }
                let d = Attr::create_without_defaults("<unnamed>", &schema, &v, package);
                match d {
                    Ok(a) => {
                        schema.default = Some(a);
                    },
                    Err(e) => {
                        return Err(e);
                    },
                }
            },
        }
        Ok(schema)
    }

    /// The files the attribute accepts, single or many.
    pub fn allow_files(&self) -> (r: &AllowFilesSchema)
        ensures
            r@ == self.allow_files@,
    {
        &self.allow_files
    }

    /// The attribute's default, if it has one.
    pub fn default(&self) -> (r: Option<&Attr>)
        ensures
            match r {
                Some(a) => self@.default == Some(a@),
                None => self@.default is None,
            },
    {
        match &self.default {
            Some(a) => Some(a),
            None => None,
        }
    }

    /// What files the attribute's values are checked against, where it
    /// accepts files.
    pub fn file_matcher(&self) -> (r: Option<&AllowFiles>)
        ensures
            match self@.allow_files {
                AllowFilesSchemaV::NoneValue => r is None,
                AllowFilesSchemaV::Single(a) => r matches Some(x) && x@ == a,
                AllowFilesSchemaV::Many(a) => r matches Some(x) && x@ == a,
            },
    {
        match &self.allow_files {
            AllowFilesSchema::Single(s) => Some(s),
            AllowFilesSchema::Many(s) => Some(s),
            AllowFilesSchema::NoneValue => None,
        }
    }
}


/// The `Debug` form of a string, as std formats it.
pub uninterp spec fn debug_str(s: Seq<char>) -> Seq<char>;

/// Formats `s` with std's `Debug` for `str` (quoted and escaped); the
/// result is named, not stated.
#[verifier::external_body]
fn debug_of_str(s: &str) -> (r: String)
    ensures
        r@ == debug_str(s@),
{
    format!("{:?}", s)
}

/// The `Debug` form of a path, as std formats it.
pub uninterp spec fn debug_path(path: Seq<char>) -> Seq<char>;

/// Formats `path` with std's `Debug` for `Path` (quoted and escaped as the
/// platform's path bytes are); the result is named, not stated.
#[verifier::external_body]
fn debug_of_path(path: &str) -> (r: String)
    ensures
        r@ == debug_path(path@),
{
    format!("{:?}", std::path::Path::new(path))
}

/// The `Debug` form of a list of strings, as std formats it (a list, as
/// `Formatter::debug_list` writes one): `[`, the `Debug` form of each
/// string, separated by `, `, then `]`.
pub open spec fn debug_strs(v: Seq<Seq<char>>) -> Seq<char> {
    seq!['['] + crate::args::join(v.map_values(|x: Seq<char>| debug_str(x)), seq![',', ' ']) + seq![']']
}

/// Formats `v` with std's `Debug` for `Vec<String>`, which writes the list
/// with `Formatter::debug_list`: the `Debug` form of each string (named
/// `debug_str`), separated by `, `, inside `[` and `]`.
#[verifier::external_body]
fn debug_of_strs(v: &Vec<String>) -> (r: String)
    ensures
        r@ == debug_strs(strs_view(v@)),
{
    format!("{:?}", v)
}

/// A label as it is printed: `//package:name`.
pub open spec fn label_text(l: (Seq<char>, Seq<char>)) -> Seq<char> {
    l.0 + seq![':'] + l.1
}

impl Label {
    /// The label as it is printed.
    pub fn to_text(&self) -> (r: String)
        ensures
            r@ == label_text(self@),
    {
        let mut r = self.package.clone();
        r.append(":");
        proof {
            reveal_strlit(":");
        }
        r.append(self.name.as_str());
        assert(r@ =~= label_text(self@));
        r
    }
}

/// The message of an attribute error.
pub open spec fn error_message(e: ErrorV) -> Seq<char> {
    match e {
        ErrorV::MandatoryAttribute(p) => "Attribute `"@ + p + "` is mandatory"@,
        ErrorV::EmptyListDisallowed => "Want non-empty list, got []"@,
        ErrorV::EmptyDictDisallowed => "Want non-empty dict, got {}"@,
        ErrorV::DisallowedExtension(f, a) => "File \""@ + debug_path(f)
            + "\" has disallowed extension, allowed extensions are: "@ + debug_strs(a),
        ErrorV::ConfigTransitionNotImplemented(s) => "Config transition not implemented: "@ + s,
        ErrorV::MandatoryAndDefaultMutuallyExclusive => "mandatory and default are mutually exclusive"@,
        ErrorV::IntNotAllowed(i) => "Value "@ + crate::args::decimal(i) + " is not in allowed set"@,
        ErrorV::StringNotAllowed(s) => "Value "@ + debug_str(s) + " is not in allowed set"@,
        ErrorV::AllowFilesMutuallyExclusive => "allow_files and allow_single_file are mutually exclusive"@,
        ErrorV::AllowEmptyRequiresMandatoryOrDefault =>
            "allow_empty = False requires the attribute to be mandatory or have a non-empty default value"@,
        ErrorV::NotALabel(s) => "Not a label: "@ + s,
        ErrorV::MustProduceSingleFile(l) => "target `"@ + label_text(l) + "` must produce a single output file"@,
        ErrorV::WrongType(p, t) => "Type of parameter `"@ + p + "` doesn't match, expected `"@ + t + "`"@,
        ErrorV::IntegerTooBig(p) => "Error unpacking value for parameter `"@ + p + "` of type `int"@,
        ErrorV::InvalidLabel(s) => "Invalid label: "@ + s,
    }
}

fn concat2(a: &str, b: &str) -> (r: String)
    ensures
        r@ == a@ + b@,
{
    let mut r = String::from_str(a);
    r.append(b);
    r
}

fn concat3(a: &str, b: &str, c: &str) -> (r: String)
    ensures
        r@ == a@ + b@ + c@,
{
    let mut r = String::from_str(a);
    r.append(b);
    r.append(c);
    r
}

impl Error {
    /// The error's message.
    pub fn message(&self) -> (r: String)
        ensures
            r@ == error_message(self@),
    {
        match self {
            Error::MandatoryAttribute { param } => concat3("Attribute `", param.as_str(), "` is mandatory"),
            Error::EmptyListDisallowed => String::from_str("Want non-empty list, got []"),
            Error::EmptyDictDisallowed => String::from_str("Want non-empty dict, got {}"),
            Error::DisallowedExtension { file, allowed } => {
                let mut r = concat3(
                    "File \"",
                    debug_of_path(file.as_str()).as_str(),
                    "\" has disallowed extension, allowed extensions are: ",
                );
                r.append(debug_of_strs(allowed).as_str());
                r
            },
            Error::ConfigTransitionNotImplemented(s) => concat2("Config transition not implemented: ", s.as_str()),
            Error::MandatoryAndDefaultMutuallyExclusive => String::from_str(
                "mandatory and default are mutually exclusive",
            ),
            Error::IntNotAllowed(i) => concat3(
                "Value ",
                crate::args::decimal_exec(*i as i64).as_str(),
                " is not in allowed set",
            ),
            Error::StringNotAllowed(s) => concat3(
                "Value ",
                debug_of_str(s.as_str()).as_str(),
                " is not in allowed set",
            ),
            Error::AllowFilesMutuallyExclusive => String::from_str(
                "allow_files and allow_single_file are mutually exclusive",
            ),
            Error::AllowEmptyRequiresMandatoryOrDefault => String::from_str(
                "allow_empty = False requires the attribute to be mandatory or have a non-empty default value",
            ),
            Error::NotALabel(s) => concat2("Not a label: ", s.as_str()),
            Error::MustProduceSingleFile(l) => concat3(
                "target `",
                l.to_text().as_str(),
                "` must produce a single output file",
            ),
            Error::WrongType { param, expected } => {
                let mut r = concat3("Type of parameter `", param.as_str(), "` doesn't match, expected `");
                r.append(expected.as_str());
                r.append("`");
                r
            },
            Error::IntegerTooBig { param } => concat3(
                "Error unpacking value for parameter `",
                param.as_str(),
                "` of type `int",
            ),
            Error::InvalidLabel(s) => concat2("Invalid label: ", s.as_str()),
        }
    }
}


/// The keys of an insertion-ordered map.
pub open spec fn keys_of<A, B>(s: Seq<(A, B)>) -> Seq<A> {
    s.map_values(|e: (A, B)| e.0)
}

/// Law: inserting into a map whose keys are distinct keeps them distinct,
/// and reading the inserted key gives the inserted value.
pub proof fn lemma_insert_entry_map<A, B>(s: Seq<(A, B)>, k: A, v: B)
    requires
        crate::seqs::distinct(keys_of(s)),
    ensures
        crate::seqs::distinct(keys_of(insert_entry(s, k, v))),
        key_index(insert_entry(s, k, v), k) matches Some(i) && insert_entry(s, k, v)[i].1 == v,
        forall|x: A| x != k ==> key_index(insert_entry(s, k, v), x) == key_index(s, x),
{
    lemma_key_index(s, k);
    let t = insert_entry(s, k, v);
    match key_index(s, k) {
        Some(i) => {
            assert(keys_of(t) =~= keys_of(s));
            lemma_key_index(t, k);
            assert forall|j: int| 0 <= j < s.len() implies t[j].0 == s[j].0 by {}
            match key_index(t, k) {
                Some(b) => {
                    if b < i {
                        assert(s[b].0 == k);
                    } else if b > i {
                        assert(t[i].0 == k);
                    }
                },
                None => {
                    assert(t[i].0 == k);
                },
            }
            assert forall|x: A| x != k implies key_index(t, x) == key_index(s, x) by {
                lemma_key_index(s, x);
                lemma_key_index(t, x);
                assert forall|j: int| 0 <= j < s.len() implies t[j].0 == s[j].0 by {}
                match (key_index(s, x), key_index(t, x)) {
                    (Some(a), Some(b)) => {
                        if a < b {
                            assert(t[a].0 == x);
                        } else if b < a {
                            assert(s[b].0 == x);
                        }
                    },
                    (Some(a), None) => {
                        assert(t[a].0 == x);
                    },
                    (None, Some(b)) => {
                        assert(s[b].0 == x);
                    },
                    (None, None) => {},
                }
            }
        },
        None => {
            assert(keys_of(t) =~= keys_of(s).push(k));
            assert forall|a: int, b: int|
                0 <= a < keys_of(t).len() && 0 <= b < keys_of(t).len() && a != b implies keys_of(t)[a]
                != keys_of(t)[b] by {
                if a == s.len() {
                    assert(s[b].0 != k);
                } else if b == s.len() {
                    assert(s[a].0 != k);
                } else {
                    assert(keys_of(s)[a] == keys_of(t)[a] && keys_of(s)[b] == keys_of(t)[b]);
                }
            }
            lemma_key_index(t, k);
            match key_index(t, k) {
                Some(i) => {
                    if i < s.len() {
                        assert(s[i].0 == k);
                    }
                },
                None => {
                    assert(t[s.len() as int].0 == k);
                },
            }
            assert forall|x: A| x != k implies key_index(t, x) == key_index(s, x) by {
                lemma_key_index(s, x);
                lemma_key_index(t, x);
                match (key_index(s, x), key_index(t, x)) {
                    (Some(a), Some(b)) => {
                        if a < b {
                            assert(t[a].0 == x);
                        } else if b < a {
                            assert(s[b].0 == x);
                        }
                    },
                    (Some(a), None) => {
                        assert(t[a].0 == x);
                    },
                    (None, Some(b)) => {
                        if b < s.len() {
                            assert(s[b].0 == x);
                        }
                    },
                    (None, None) => {},
                }
            }
        },
    }
}

/// Law: a label written `:name` names the target `name` of the package
/// it is written in.
pub proof fn lemma_relative_label(name: Seq<char>, pkg: Seq<char>)
    requires
        name.len() > 0,
        !name.contains(':'),
    ensures
        parse_label_spec(seq![':'] + name, pkg) == Some((pkg, name)),
{
    let s = seq![':'] + name;
    assert(s.skip(1) =~= name);
}


/// Targets whose attributes a rule invocation sets (implemented by the
/// embedder's target type).
pub trait TargetRefExt {
    fn set_attrs(&self, attrs: Vec<Attr>);
}

/// Law: an empty list or dict is refused exactly where the schema disallows
/// empty values (`allow_empty = False`): for the list kinds (`int_list`,
/// `string_list`, `label_list`) an empty list then gives
/// `EmptyListDisallowed`, and is otherwise the empty attribute; for the dict
/// kinds an empty dict then gives `EmptyDictDisallowed`, and otherwise is no
/// such error.
pub proof fn lemma_empty_values_refused(
    param: Seq<char>,
    schema: AttrSchemaV,
    pkg: Seq<char>,
    xs: Vec<Value>,
    es: Vec<(Value, Value)>,
)
    requires
        xs@.len() == 0,
        es@.len() == 0,
    ensures
        schema.kind is IntList ==> create_spec(param, schema, Value::List(xs), pkg) == (if schema.disallow_empty {
            Err::<AttrV, ErrorV>(ErrorV::EmptyListDisallowed)
        } else {
            Ok(AttrV::IntList(Seq::empty()))
        }),
        schema.kind is StringList ==> create_spec(param, schema, Value::List(xs), pkg) == (
        if schema.disallow_empty {
            Err::<AttrV, ErrorV>(ErrorV::EmptyListDisallowed)
        } else {
            Ok(AttrV::StringList(Seq::empty()))
        }),
        schema.kind is LabelList ==> create_spec(param, schema, Value::List(xs), pkg) == (if schema.disallow_empty {
            Err::<AttrV, ErrorV>(ErrorV::EmptyListDisallowed)
        } else {
            Ok(AttrV::LabelList(Seq::empty()))
        }),
        (schema.kind is StringDict || schema.kind is StringListDict || schema.kind is LabelKeyedStringDict
            || schema.kind is StringKeyedLabelDict || schema.kind is LabelListDict) ==> ((create_spec(
            param,
            schema,
            Value::Dict(es),
            pkg,
        ) == Err::<AttrV, ErrorV>(ErrorV::EmptyDictDisallowed)) == schema.disallow_empty),
{
    assert(ints_scan(xs@) == Ok::<Option<Seq<i32>>, ()>(Some(Seq::empty())));
    assert(strs_scan(xs@) == Some(Seq::<Seq<char>>::empty()));
    assert(parse_all(Seq::empty(), matcher_of(schema.allow_files), pkg) == Ok::<Seq<LabelOrFileV>, ErrorV>(
        Seq::empty(),
    ));
    assert(str_pairs_scan(es@) == Some(Seq::<(Seq<char>, Seq<char>)>::empty()));
    assert(str_lists_scan(es@) == Some(Seq::<(Seq<char>, Seq<Seq<char>>)>::empty()));
}

} // verus!
