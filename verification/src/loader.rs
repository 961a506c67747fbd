//! The bookkeeping of loading Starlark files: which files are being loaded
//! or are loaded, what each loading file waits for, and load cycles.
use vstd::prelude::*;
use vstd::string::*;

use crate::types::strs_view;
use starlark::syntax::{AstModule, Dialect};

verus! {

/// What starlark's parser finds in `content`, the file of `label`, read in
/// the standard dialect with lambdas and the re-export of loaded names
/// allowed as the two flags say: the labels that its `load` statements name,
/// in order, or the message of the parse error.
pub uninterp spec fn bzl_loads(
    label: Seq<char>,
    content: Seq<char>,
    enable_lambda: bool,
    enable_load_reexport: bool,
) -> Result<Seq<Seq<char>>, Seq<char>>;

/// Parses `content` with starlark's `AstModule::parse`, in the standard
/// dialect with `enable_lambda` and `enable_load_reexport` set as given, and
/// lists the module names of its `load` statements with `AstModule::loads`;
/// a parse error gives its message. The result is named, not stated.
#[verifier::external_body]
fn parse_loads(label: &str, content: &str, enable_lambda: bool, enable_load_reexport: bool) -> (r: Result<
    Vec<String>,
    String,
>)
    ensures
        match r {
            Ok(v) => bzl_loads(label@, content@, enable_lambda, enable_load_reexport) == Ok::<
                Seq<Seq<char>>,
                Seq<char>,
            >(strs_view(v@)),
            Err(m) => bzl_loads(label@, content@, enable_lambda, enable_load_reexport) == Err::<
                Seq<Seq<char>>,
                Seq<char>,
            >(m@),
        },
{
    let dialect = Dialect { enable_lambda, enable_load_reexport, ..Dialect::Standard };
    match AstModule::parse(label, content.to_owned(), &dialect) {
        Ok(ast) => Ok(ast.loads().iter().map(|l| l.module_id.to_owned()).collect()),
        Err(e) => Err(e.to_string()),
    }
}

/// Whether `.bzl` files may hold lambdas: they may not.
pub const BZL_ENABLE_LAMBDA: bool = false;

/// Whether `.bzl` files may re-export the names they load: they may not.
pub const BZL_ENABLE_LOAD_REEXPORT: bool = false;

/// Errors of loading files.
#[derive(PartialEq, Eq, Debug)]
pub enum Error {
    /// The file of this label could not be read.
    ReadFailed(String),
    /// Loading these files in turn leads back to the first one.
    CycleDetected(Vec<String>),
}

/// The state of one file.
#[derive(PartialEq, Eq, Debug)]
pub enum FileStatus<M> {
    /// Being loaded; `needs` is the file it waits for, if any.
    Loading { needs: Option<String> },
    /// Loaded: the evaluated module, or the error message.
    Loaded(Result<M, String>),
}

/// The files that are loading or loaded, by path, with the module (of type
/// `M`) that each loaded file evaluated to.
pub struct LoadTable<M> {
    pub files: Vec<(String, FileStatus<M>)>,
}

/// The paths of the table.
pub open spec fn paths<M>(files: Seq<(String, FileStatus<M>)>) -> Seq<Seq<char>> {
    files.map_values(|e: (String, FileStatus<M>)| e.0@)
}

/// The index of the entry of `p`.
pub open spec fn entry_of<M>(files: Seq<(String, FileStatus<M>)>, p: Seq<char>) -> Option<int>
    decreases files.len(),
{
    if files.len() == 0 {
        None
    } else {
        match entry_of(files.drop_last(), p) {
            Some(i) => Some(i),
            None => if files.last().0@ == p {
                Some(files.len() - 1)
            } else {
                None
            },
        }
    }
}

/// The file that the loading file `p` waits for.
pub open spec fn needs_of<M>(files: Seq<(String, FileStatus<M>)>, p: Seq<char>) -> Option<Seq<char>> {
    match entry_of(files, p) {
        Some(i) => match files[i].1 {
            FileStatus::Loading { needs: Some(n) } => Some(n@),
            _ => None,
        },
        None => None,
    }
}

/// The files after `cur` on the chain of what each waits for, up to and
/// including `start`; `None` where the chain ends before (or takes more than
/// `fuel` steps).
pub open spec fn cycle_walk<M>(files: Seq<(String, FileStatus<M>)>, start: Seq<char>, cur: Seq<char>, fuel: nat) -> Option<
    Seq<Seq<char>>,
>
    decreases fuel,
{
    if fuel == 0 {
        None
    } else {
        match needs_of(files, cur) {
            None => None,
            Some(n) => if n == start {
                Some(seq![n])
            } else {
                match cycle_walk(files, start, n, (fuel - 1) as nat) {
                    Some(c) => Some(seq![n] + c),
                    None => None,
                }
            },
        }
    }
}

/// The cycle that loading `target` from `start` closes: `target`, then
/// what each file waits for, up to `start`.
pub open spec fn find_cycle_spec<M>(files: Seq<(String, FileStatus<M>)>, start: Seq<char>, target: Seq<char>) -> Option<
    Seq<Seq<char>>,
> {
    match cycle_walk(files, start, target, files.len()) {
        Some(c) => Some(seq![target] + c),
        None => None,
    }
}

proof fn lemma_entry_of<M>(files: Seq<(String, FileStatus<M>)>, p: Seq<char>)
    ensures
        match entry_of(files, p) {
            Some(i) => 0 <= i < files.len() && files[i].0@ == p && forall|j: int| 0 <= j < i ==> files[j].0@ != p,
            None => forall|j: int| 0 <= j < files.len() ==> files[j].0@ != p,
        },
    decreases files.len(),
{
    if files.len() > 0 {
        let t = files.drop_last();
        lemma_entry_of(t, p);
        assert forall|j: int| 0 <= j < t.len() implies t[j] == files[j] by {}
    }
}

/// `after` is `before` with the loading file `p` recorded as waiting for
/// `dep`; a loaded or unknown file is left as it is.
pub open spec fn needs_recorded<M>(
    before: Seq<(String, FileStatus<M>)>,
    after: Seq<(String, FileStatus<M>)>,
    p: Seq<char>,
    dep: Seq<char>,
) -> bool {
    match entry_of(before, p) {
        Some(i) => match before[i].1 {
            FileStatus::Loading { .. } => {
                &&& after.len() == before.len()
                &&& after[i].0 == before[i].0
                &&& (after[i].1 matches FileStatus::Loading { needs: Some(n) } && n@ == dep)
                &&& forall|j: int| 0 <= j < before.len() && j != i ==> after[j] == before[j]
            },
            _ => after == before,
        },
        None => after == before,
    }
}

/// `after` is `before` with the file `p` loaded with the error message
/// `msg`; an unknown file is left as it is.
pub open spec fn result_recorded<M>(
    before: Seq<(String, FileStatus<M>)>,
    after: Seq<(String, FileStatus<M>)>,
    p: Seq<char>,
    msg: Seq<char>,
) -> bool {
    match entry_of(before, p) {
        Some(i) => {
            &&& after.len() == before.len()
            &&& after[i].0 == before[i].0
            &&& (after[i].1 matches FileStatus::Loaded(Err(m)) && m@ == msg)
            &&& forall|j: int| 0 <= j < before.len() && j != i ==> after[j] == before[j]
        },
        None => after == before,
    }
}

/// What beginning to load a file finds.
#[derive(PartialEq, Eq, Debug)]
pub enum Begin {
    /// The file was unknown and is now loading: load it.
    Start,
    /// The file is loading or loaded already: wait for it.
    Known,
}

/// The result of the loaded file `p`, if it is loaded.
pub open spec fn loaded_result<M>(files: Seq<(String, FileStatus<M>)>, p: Seq<char>) -> Option<Result<M, String>> {
    match entry_of(files, p) {
        Some(i) => match files[i].1 {
            FileStatus::Loaded(res) => Some(res),
            FileStatus::Loading { .. } => None,
        },
        None => None,
    }
}

/// `after` and `r` are what beginning to load `p` makes of `before`: a
/// known file is left as it is, an unknown one is added as loading.
pub open spec fn begun<M>(before: Seq<(String, FileStatus<M>)>, after: Seq<(String, FileStatus<M>)>, p: Seq<char>, r: Begin) -> bool {
    match entry_of(before, p) {
        Some(_) => r == Begin::Known && after == before,
        None => r == Begin::Start && after.len() == before.len() + 1 && after.drop_last() == before
            && after.last().0@ == p && after.last().1 == (FileStatus::<M>::Loading { needs: None }),
    }
}

impl<M> LoadTable<M> {
    /// No path occurs twice.
    pub open spec fn wf(&self) -> bool {
        crate::seqs::distinct(paths(self.files@))
    }

    /// An empty table.
    pub fn new() -> (r: LoadTable<M>)
        ensures
            r.wf(),
            r.files@.len() == 0,
    {
        let r = LoadTable { files: Vec::new() };
        assert(paths(r.files@) =~= Seq::<Seq<char>>::empty());
        r
    }

    /// The index of the entry of `path`.
    pub fn find(&self, path: &str) -> (r: Option<usize>)
        ensures
            match r {
                Some(i) => entry_of(self.files@, path@) == Some(i as int) && i < self.files@.len()
                    && self.files@[i as int].0@ == path@,
                None => entry_of(self.files@, path@) is None,
            },
    {
        proof {
            lemma_entry_of(self.files@, path@);
        }
        let key = String::from_str(path);
        let mut i: usize = 0;
        while i < self.files.len()
            invariant
                i <= self.files@.len(),
                key@ == path@,
                forall|j: int| 0 <= j < i ==> self.files@[j].0@ != path@,
            decreases self.files.len() - i,
        {
            if self.files[i].0 == key {
                proof {
                    lemma_entry_of(self.files@, path@);
                    match entry_of(self.files@, path@) {
                        Some(k) => {
                            if k > i {
                                assert(self.files@[i as int].0@ == path@);
                            }
                        },
                        None => {
                            assert(self.files@[i as int].0@ == path@);
                        },
                    }
                }
                return Some(i);
            }
            i = i + 1;
        }
        None
    }

    /// Begins loading `path`: a known file is left as it is, an unknown one
    /// becomes loading.
    pub fn begin(&mut self, path: &str) -> (r: Begin)
        requires
            old(self).wf(),
        ensures
            final(self).wf(),
            begun(old(self).files@, final(self).files@, path@, r),
    {
        match self.find(path) {
            Some(_) => Begin::Known,
            None => {
                proof {
                    lemma_entry_of(self.files@, path@);
                }
                let ghost before = self.files@;
                self.files.push((String::from_str(path), FileStatus::Loading { needs: None }));
                proof {
                    let p = paths(self.files@);
                    assert(paths(before) =~= p.drop_last());
                    assert forall|i: int, j: int| 0 <= i < p.len() && 0 <= j < p.len() && i != j implies p[i]
                        != p[j] by {
                        if i == p.len() - 1 {
                            assert(before[j].0@ != path@);
                        } else if j == p.len() - 1 {
                            assert(before[i].0@ != path@);
                        } else {
                            assert(paths(before)[i] == p[i] && paths(before)[j] == p[j]);
                        }
                    }
                }
                assert(self.files@.drop_last() =~= before);
                Begin::Start
            },
        }
    }

    /// Records that the loading file `path` waits for `dep`; a loaded or
    /// unknown file is left as it is.
    pub fn set_needs(&mut self, path: &str, dep: &str)
        requires
            old(self).wf(),
        ensures
            final(self).wf(),
            match entry_of(old(self).files@, path@) {
                Some(i) => match old(self).files@[i].1 {
                    FileStatus::Loading { .. } => {
                        &&& final(self).files@.len() == old(self).files@.len()
                        &&& final(self).files@[i].0 == old(self).files@[i].0
                        &&& (final(self).files@[i].1 matches FileStatus::Loading { needs: Some(n) } && n@ == dep@)
                        &&& forall|j: int|
                            0 <= j < old(self).files@.len() && j != i ==> final(self).files@[j] == old(
                                self,
                            ).files@[j]
                    },
                    _ => final(self).files@ == old(self).files@,
                },
                None => final(self).files@ == old(self).files@,
            },
    {
        match self.find(path) {
            None => {},
            Some(i) => {
                let loading = match &self.files[i].1 {
                    FileStatus::Loading { .. } => true,
                    _ => false,
                };
                if loading {
                    let name = self.files[i].0.clone();
                    let ghost before = self.files@;
                    self.files.set(i, (name, FileStatus::Loading { needs: Some(String::from_str(dep)) }));
                    assert(paths(self.files@) =~= paths(before));
                }
            },
        }
    }

    /// Records the result of loading `path`: the evaluated module, or the
    /// error message.
    pub fn set_complete(&mut self, path: &str, result: Result<M, String>)
        requires
            old(self).wf(),
        ensures
            final(self).wf(),
            match entry_of(old(self).files@, path@) {
                Some(i) => final(self).files@.len() == old(self).files@.len() && final(self).files@[i].0
                    == old(self).files@[i].0 && final(self).files@[i].1 == FileStatus::Loaded(result)
                    && forall|j: int|
                    0 <= j < old(self).files@.len() && j != i ==> final(self).files@[j] == old(self).files@[j],
                None => final(self).files@ == old(self).files@,
            },
    {
        match self.find(path) {
            None => {},
            Some(i) => {
                let name = self.files[i].0.clone();
                let ghost before = self.files@;
                self.files.set(i, (name, FileStatus::Loaded(result)));
                assert(paths(self.files@) =~= paths(before));
            },
        }
    }

    /// The result of the loaded file `path`: its module or its error; `None`
    /// where the file is unknown or still loading.
    pub fn result(&self, path: &str) -> (r: Option<&Result<M, String>>)
        ensures
            match r {
                Some(x) => loaded_result(self.files@, path@) == Some(*x),
                None => loaded_result(self.files@, path@) is None,
            },
    {
        match self.find(path) {
            None => None,
            Some(i) => match &self.files[i].1 {
                FileStatus::Loaded(res) => Some(res),
                FileStatus::Loading { .. } => None,
            },
        }
    }

    /// The file that the loading file `path` waits for.
    fn needs(&self, path: &str) -> (r: Option<String>)
        ensures
            match r {
                Some(n) => needs_of(self.files@, path@) == Some(n@),
                None => needs_of(self.files@, path@) is None,
            },
    {
        match self.find(path) {
            None => None,
            Some(i) => match &self.files[i].1 {
                FileStatus::Loading { needs: Some(n) } => Some(n.clone()),
                _ => None,
            },
        }
    }

    /// The cycle that loading `target` from the loading file `start` would
    /// close: `target`, then the file each waits for, up to `start`. The
    /// walk takes at most as many steps as the table has entries.
    pub fn find_cycle_path(&self, start: &str, target: &str) -> (r: Option<Vec<String>>)
        ensures
            match find_cycle_spec(self.files@, start@, target@) {
                Some(c) => r matches Some(v) && strs_view(v@) == c,
                None => r is None,
            },
    {
        let mut cycle: Vec<String> = vec![String::from_str(target)];
        let mut cur = String::from_str(target);
        let mut fuel: usize = self.files.len();
        let ghost n = self.files@.len();
        assert(strs_view(cycle@) =~= seq![target@]);
        while fuel > 0
            invariant
                fuel <= n,
                n == self.files@.len(),
                match cycle_walk(self.files@, start@, cur@, fuel as nat) {
                    Some(c) => find_cycle_spec(self.files@, start@, target@) == Some(strs_view(cycle@) + c),
                    None => find_cycle_spec(self.files@, start@, target@) is None,
                },
            decreases fuel,
        {
            match self.needs(cur.as_str()) {
                None => {
                    return None;
                },
                Some(next) => {
                    let ghost before = strs_view(cycle@);
                    cycle.push(next.clone());
                    assert(strs_view(cycle@) =~= before.push(next@));
                    if next == String::from_str(start) {
                        assert(before + seq![next@] =~= before.push(next@));
                        return Some(cycle);
                    }
                    assert(forall|c: Seq<Seq<char>>| before + (seq![next@] + c) =~= before.push(next@) + c);
                    cur = next;
                },
            }
            fuel = fuel - 1;
        }
        None
    }

    /// Before loading `dep` for the loading file `path`: records that `path`
    /// waits for `dep`, and where that closes a cycle, records the cycle
    /// error as the result of `path` and returns the cycle.
    pub fn before_load(&mut self, path: &str, dep: &str) -> (r: Option<Vec<String>>)
        requires
            old(self).wf(),
        ensures
            final(self).wf(),
            exists|mid: Seq<(String, FileStatus<M>)>|
                #[trigger] needs_recorded(old(self).files@, mid, path@, dep@) && match find_cycle_spec(
                    mid,
                    path@,
                    dep@,
                ) {
                    None => r is None && final(self).files@ == mid,
                    Some(c) => r matches Some(v) && strs_view(v@) == c && result_recorded(
                        mid,
                        final(self).files@,
                        path@,
                        "Load cycle detected: "@ + join_arrows(c),
                    ),
                },
    {
        self.set_needs(path, dep);
        let ghost mid = self.files@;
        assert(needs_recorded(old(self).files@, mid, path@, dep@));
        match self.find_cycle_path(path, dep) {
            None => None,
            Some(cycle) => {
                let msg = Error::CycleDetected(crate::attr::clone_strings(&cycle)).message();
                self.set_complete(path, Err(msg));
                assert(result_recorded(mid, self.files@, path@, "Load cycle detected: "@ + join_arrows(
                    strs_view(cycle@),
                )));
                Some(cycle)
            },
        }
    }
}

impl<M> LoadTable<M> {
    /// Takes in the file of `label` as it was read (`None` where reading
    /// failed): a read or parse failure is recorded as the file's result and
    /// its message returned; otherwise the file's loads are returned and the
    /// table is left as it is.
    pub fn read_file(&mut self, label: &str, content: Option<String>) -> (r: Result<Vec<String>, String>)
        requires
            old(self).wf(),
        ensures
            final(self).wf(),
            match content {
                None => r matches Err(m) && m@ == "Failed to read "@ + label@ && result_recorded(
                    old(self).files@,
                    final(self).files@,
                    label@,
                    m@,
                ),
                Some(c) => match bzl_loads(label@, c@, BZL_ENABLE_LAMBDA, BZL_ENABLE_LOAD_REEXPORT) {
                    Ok(ls) => r matches Ok(v) && strs_view(v@) == ls && final(self).files@ == old(self).files@,
                    Err(m) => r matches Err(x) && x@ == m && result_recorded(
                        old(self).files@,
                        final(self).files@,
                        label@,
                        m,
                    ),
                },
            },
    {
        match content {
            None => {
                let msg = Error::ReadFailed(String::from_str(label)).message();
                self.set_complete(label, Err(msg.clone()));
                Err(msg)
            },
            Some(c) => match parse_loads(label, c.as_str(), BZL_ENABLE_LAMBDA, BZL_ENABLE_LOAD_REEXPORT) {
                Ok(v) => Ok(v),
                Err(m) => {
                    self.set_complete(label, Err(m.clone()));
                    Err(m)
                },
            },
        }
    }

    /// Takes in the outcome of loading a dependency of `label`: a failure is
    /// recorded as the result of `label` too, and handed on.
    pub fn dependency_loaded(&mut self, label: &str, outcome: Result<(), String>) -> (r: Result<(), String>)
        requires
            old(self).wf(),
        ensures
            final(self).wf(),
            match outcome {
                Ok(_) => r is Ok && final(self).files@ == old(self).files@,
                Err(m) => r matches Err(x) && x@ == m@ && result_recorded(
                    old(self).files@,
                    final(self).files@,
                    label@,
                    m@,
                ),
            },
    {
        match outcome {
            Ok(()) => Ok(()),
            Err(m) => {
                self.set_complete(label, Err(m.clone()));
                Err(m)
            },
        }
    }
}

/// The files of a cycle, joined by ` -> `.
pub open spec fn join_arrows(s: Seq<Seq<char>>) -> Seq<char>
    decreases s.len(),
{
    if s.len() == 0 {
        Seq::empty()
    } else if s.len() == 1 {
        s[0]
    } else {
        join_arrows(s.drop_last()) + " -> "@ + s.last()
    }
}

/// The message of a loading error.
pub open spec fn error_message(e: Error) -> Seq<char> {
    match e {
        Error::ReadFailed(l) => "Failed to read "@ + l@,
        Error::CycleDetected(c) => "Load cycle detected: "@ + join_arrows(strs_view(c@)),
    }
}

impl Error {
    /// The error's message.
    pub fn message(&self) -> (r: String)
        ensures
            r@ == error_message(*self),
    {
        match self {
            Error::ReadFailed(l) => {
                let mut r = String::from_str("Failed to read ");
                r.append(l.as_str());
                r
            },
            Error::CycleDetected(c) => {
                let mut r = String::from_str("Load cycle detected: ");
                let ghost prefix = r@;
                let ghost s = strs_view(c@);
                let mut i: usize = 0;
                assert(s.take(0) =~= Seq::<Seq<char>>::empty());
                while i < c.len()
                    invariant
                        i <= c@.len(),
                        s == strs_view(c@),
                        prefix == "Load cycle detected: "@,
                        r@ == prefix + join_arrows(s.take(i as int)),
                    decreases c.len() - i,
                {
                    let ghost t = s.take(i as int + 1);
                    assert(t.drop_last() =~= s.take(i as int));
                    assert(t.last() == c@[i as int]@);
                    if i > 0 {
                        r.append(" -> ");
                    } else {
                        assert(s.take(0) =~= Seq::<Seq<char>>::empty());
                        assert(join_arrows(s.take(0)) =~= Seq::<char>::empty());
                    }
                    r.append(c[i].as_str());
                    i = i + 1;
                }
                assert(s.take(s.len() as int) =~= s);
                r
            },
        }
    }
}


/// Law: a cycle found while loading `target` from `start` is a chain: it
/// begins with `target`, ends with `start`, and each file of it waits for
/// the next.
pub proof fn lemma_cycle_is_chain<M>(files: Seq<(String, FileStatus<M>)>, start: Seq<char>, target: Seq<char>)
    requires
        find_cycle_spec(files, start, target) is Some,
    ensures
        ({
            let c = find_cycle_spec(files, start, target)->Some_0;
            &&& c.len() >= 2
            &&& c[0] == target
            &&& c.last() == start
            &&& forall|i: int| 0 <= i < c.len() - 1 ==> needs_of(files, #[trigger] c[i]) == Some(c[i + 1])
        }),
{
    lemma_walk_is_chain(files, start, target, files.len());
    let w = cycle_walk(files, start, target, files.len())->Some_0;
    let c = seq![target] + w;
    assert forall|i: int| 0 <= i < c.len() - 1 implies needs_of(files, #[trigger] c[i]) == Some(c[i + 1]) by {
        if i == 0 {
            assert(c[1] == w[0]);
        } else {
            assert(c[i] == w[i - 1] && c[i + 1] == w[i]);
        }
    }
}

proof fn lemma_walk_is_chain<M>(files: Seq<(String, FileStatus<M>)>, start: Seq<char>, cur: Seq<char>, fuel: nat)
    ensures
        cycle_walk(files, start, cur, fuel) matches Some(w) ==> {
            &&& w.len() >= 1
            &&& needs_of(files, cur) == Some(w[0])
            &&& w.last() == start
            &&& forall|i: int| 0 <= i < w.len() - 1 ==> needs_of(files, #[trigger] w[i]) == Some(w[i + 1])
        },
    decreases fuel,
{
    if fuel > 0 {
        match needs_of(files, cur) {
            None => {},
            Some(n) => {
                if n != start {
                    lemma_walk_is_chain(files, start, n, (fuel - 1) as nat);
                    match cycle_walk(files, start, n, (fuel - 1) as nat) {
                        Some(c) => {
                            let w = seq![n] + c;
                            assert forall|i: int| 0 <= i < w.len() - 1 implies needs_of(files, #[trigger] w[i])
                                == Some(w[i + 1]) by {
                                if i == 0 {
                                    assert(w[1] == c[0]);
                                } else {
                                    assert(w[i] == c[i - 1] && w[i + 1] == c[i]);
                                }
                            }
                            assert(w.last() == c.last());
                        },
                        None => {},
                    }
                }
            },
        }
    }
}

/// Two tables with the same paths in the same places find each path at the
/// same entry.
proof fn lemma_entry_of_same_paths<M>(a: Seq<(String, FileStatus<M>)>, b: Seq<(String, FileStatus<M>)>, p: Seq<char>)
    requires
        a.len() == b.len(),
        forall|j: int| 0 <= j < a.len() ==> #[trigger] a[j].0@ == b[j].0@,
    ensures
        entry_of(a, p) == entry_of(b, p),
    decreases a.len(),
{
    if a.len() > 0 {
        let (ta, tb) = (a.drop_last(), b.drop_last());
        assert forall|j: int| 0 <= j < ta.len() implies #[trigger] ta[j].0@ == tb[j].0@ by {
            assert(ta[j] == a[j] && tb[j] == b[j]);
        }
        lemma_entry_of_same_paths(ta, tb, p);
        assert(a.last().0@ == b.last().0@) by {
            assert(a[a.len() - 1].0@ == b[b.len() - 1].0@);
        }
    }
}

/// Law: a file that finished loading (evaluated to a module, or failed with
/// an error) stays so and is never waited for: beginning to load it again
/// finds it known and leaves the table as it is, so the file is not read or
/// evaluated again and its result (the same module, or the same error) is
/// given back; recording what any file waits for, and beginning to load any
/// file, leave its result as it is.
pub proof fn lemma_loaded_stays<M>(
    before: Seq<(String, FileStatus<M>)>,
    after_begin: Seq<(String, FileStatus<M>)>,
    after_needs: Seq<(String, FileStatus<M>)>,
    p: Seq<char>,
    q: Seq<char>,
    dep: Seq<char>,
    r: Begin,
)
    requires
        entry_of(before, p) matches Some(i) && before[i].1 is Loaded,
        begun(before, after_begin, q, r),
        needs_recorded(before, after_needs, q, dep),
    ensures
        q == p ==> r == Begin::Known && after_begin == before,
        entry_of(after_begin, p) == entry_of(before, p),
        entry_of(after_needs, p) == entry_of(before, p),
        entry_of(before, p) matches Some(i) && after_begin[i].1 == before[i].1 && after_needs[i].1 == before[i].1,
        loaded_result(before, p) is Some,
        loaded_result(after_begin, p) == loaded_result(before, p),
        loaded_result(after_needs, p) == loaded_result(before, p),
{
    lemma_entry_of(before, p);
    lemma_entry_of(before, q);
    let i = entry_of(before, p)->0;
    if entry_of(before, q) is None {
        assert(after_begin.drop_last() == before);
        assert forall|j: int| 0 <= j < before.len() implies #[trigger] before[j].0@ == after_begin.drop_last()[j].0@ by {}
        lemma_entry_of_same_paths(before, after_begin.drop_last(), p);
        assert(after_begin[i] == after_begin.drop_last()[i]);
    }
    match entry_of(before, q) {
        Some(k) => {
            if before[k].1 is Loading {
                assert(k != i);
                assert forall|j: int| 0 <= j < before.len() implies #[trigger] before[j].0@ == after_needs[j].0@ by {
                    if j != k {
                        assert(after_needs[j] == before[j]);
                    }
                }
                lemma_entry_of_same_paths(before, after_needs, p);
                assert(after_needs[i] == before[i]);
            }
        },
        None => {},
    }
}

} // verus!
