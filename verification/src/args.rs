//! Command lines of actions: the `Args` builder (`add`, `add_all`,
//! `add_joined`) and its expansion into a list of strings.
use vstd::prelude::*;
use vstd::string::*;

use crate::depset::{list_spec, DepsetGen, DepsetStore};
use crate::seqs::dedup;
use crate::types::{contains_string, items_view, strs_view, Item, ItemV};

verus! {

/// Errors of command line construction and expansion.
#[derive(PartialEq, Eq, Debug)]
pub enum Error {
    IterableRequired,
    InvalidArgumentType(String),
    NotFormattable,
    ArgumentsMustBeListOrDepset,
    MapEachInvalidReturn,
    /// The `map_each` function failed with this message.
    MapEachFailed(String),
    NoneNotAllowed,
    InvalidFormatString(String),
    ExpectedArgsObject,
    ExpectedAddStringFlag,
    ExpectedAddAllStringFlag,
    ExpectedAddJoinedStringFlag,
    /// `map_each` was given without `allow_closure`.
    MapEachWithoutAllowClosure,
}

/// Whether `s` holds the placeholder `%s` at index `i`.
pub open spec fn placeholder_at(s: Seq<char>, i: int) -> bool {
    0 <= i && i + 1 < s.len() && s[i] == '%' && s[i + 1] == 's'
}

/// The index of the only placeholder of `s`, if it has exactly one.
pub open spec fn single_placeholder(s: Seq<char>) -> Option<int> {
    if exists|i: int| placeholder_at(s, i) && forall|j: int| placeholder_at(s, j) ==> j == i {
        Some(choose|i: int| placeholder_at(s, i) && forall|j: int| placeholder_at(s, j) ==> j == i)
    } else {
        None
    }
}

/// Formats argument values with a template that holds one `%s`.
pub struct Formatter {
    before: String,
    after: String,
}

impl View for Formatter {
    /// The text before and after the placeholder.
    type V = (Seq<char>, Seq<char>);

    closed spec fn view(&self) -> (Seq<char>, Seq<char>) {
        (self.before@, self.after@)
    }
}

impl Clone for Formatter {
    fn clone(&self) -> (r: Self)
        ensures
            r@ == self@,
    {
        Formatter { before: self.before.clone(), after: self.after.clone() }
    }
}

/// What formatting `s` with an optional formatter yields.
pub open spec fn apply_fmt(f: Option<Formatter>, s: Seq<char>) -> Seq<char> {
    match f {
        Some(x) => x@.0 + s + x@.1,
        None => s,
    }
}

impl Formatter {
    /// Parses a format string; it must contain exactly one `%s`.
    pub fn new(fmt: &str) -> (r: Result<Formatter, Error>)
        ensures
            match r {
                Ok(f) => (single_placeholder(fmt@) matches Some(i) && f@.0 == fmt@.take(i) && f@.1
                    == fmt@.skip(i + 2)),
                Err(e) => single_placeholder(fmt@) is None && (e matches Error::InvalidFormatString(
                    x,
                ) && x@ == fmt@),
            },
    {
        let n = fmt.unicode_len();
        let mut count: usize = 0;
        let mut first: usize = 0;
        let mut i: usize = 0;
        while i < n
            invariant
                n == fmt@.len(),
                i <= n,
                count <= i,
                count == 0 ==> forall|j: int| 0 <= j < i ==> !placeholder_at(fmt@, j),
                count >= 1 ==> placeholder_at(fmt@, first as int) && first < i,
                count == 1 ==> forall|j: int| 0 <= j < i && placeholder_at(fmt@, j) ==> j == first,
                count >= 2 ==> exists|j: int| 0 <= j < i && j != first && placeholder_at(fmt@, j),
            decreases n - i,
        {
            let ghost old_count = count;
            if i + 1 < n && fmt.get_char(i) == '%' && fmt.get_char(i + 1) == 's' {
                if count == 0 {
                    first = i;
                }
                if count < 2 {
                    count = count + 1;
                }
                proof {
                    if old_count == 1 {
                        assert(placeholder_at(fmt@, i as int) && i != first);
                    }
                }
            } else {
                assert(!placeholder_at(fmt@, i as int));
            }
            i = i + 1;
        }
        proof {
            assert forall|j: int| placeholder_at(fmt@, j) implies j < i by {}
        }
        if count == 1 {
            let before = String::from_str(fmt.substring_char(0, first));
            let after = String::from_str(fmt.substring_char(first + 2, n));
            proof {
                assert(placeholder_at(fmt@, first as int) && forall|j: int|
                    placeholder_at(fmt@, j) ==> j == first);
                let c = choose|c: int| placeholder_at(fmt@, c) && forall|j: int| placeholder_at(fmt@, j) ==> j == c;
                assert(c == first);
                assert(fmt@.subrange(0, first as int) =~= fmt@.take(first as int));
                assert(fmt@.subrange(first + 2, n as int) =~= fmt@.skip(first + 2));
            }
            Ok(Formatter { before, after })
        } else {
            proof {
                if count == 0 {
                } else {
                    let j = choose|j: int| 0 <= j < i && j != first && placeholder_at(fmt@, j);
                    assert forall|c: int| placeholder_at(fmt@, c) implies !(forall|k: int|
                        placeholder_at(fmt@, k) ==> k == c) by {
                        if c == first {
                            assert(placeholder_at(fmt@, j));
                        } else {
                            assert(placeholder_at(fmt@, first as int));
                        }
                    }
                }
            }
            Err(Error::InvalidFormatString(String::from_str(fmt)))
        }
    }

    /// Formats `s` by replacing `%s` with it.
    pub fn format(&self, s: &str) -> (r: String)
        ensures
            r@ == self@.0 + s@ + self@.1,
    {
        let mut r = self.before.clone();
        r.append(s);
        r.append(self.after.as_str());
        r
    }
}

/// The decimal digit `d`.
pub open spec fn digit_char(d: int) -> char {
    "0123456789"@[d]
}

/// The decimal digits of `n`.
pub open spec fn digits(n: nat) -> Seq<char>
    decreases n,
{
    if n < 10 {
        seq![digit_char(n as int)]
    } else {
        digits(n / 10).push(digit_char((n % 10) as int))
    }
}

/// The decimal representation of `i`, as Starlark prints an integer.
pub open spec fn decimal(i: int) -> Seq<char> {
    if i < 0 {
        seq!['-'] + digits((-i) as nat)
    } else {
        digits(i as nat)
    }
}

/// The string form of an item on a command line: a string is itself, a
/// file is its path, other values are printed.
pub open spec fn to_str(x: ItemV) -> Seq<char> {
    match x {
        ItemV::NoneValue => "None"@,
        ItemV::Bool(b) => if b {
            "True"@
        } else {
            "False"@
        },
        ItemV::Int(i) => decimal(i),
        ItemV::Str(s) => s,
        ItemV::File(p) => p,
        ItemV::Other(_, r) => r,
    }
}

fn digit_str(d: u64) -> (r: String)
    requires
        d < 10,
    ensures
        r@ == seq![digit_char(d as int)],
{
    proof {
        reveal_strlit("0123456789");
    }
    let all = "0123456789";
    let r = String::from_str(all.substring_char(d as usize, d as usize + 1));
    assert(r@ =~= seq![digit_char(d as int)]);
    r
}

fn digits_exec(n: u64) -> (r: String)
    ensures
        r@ == digits(n as nat),
    decreases n,
{
    if n < 10 {
        digit_str(n)
    } else {
        let mut r = digits_exec(n / 10);
        let d = digit_str(n % 10);
        r.append(d.as_str());
        assert(r@ =~= digits(n as nat));
        r
    }
}

/// Prints an integer in decimal.
pub fn decimal_exec(i: i64) -> (r: String)
    ensures
        r@ == decimal(i as int),
{
    if i < 0 {
        let m: u64 = ((-(i + 1)) as u64) + 1;
        assert(m as int == -(i as int));
        let mut r = String::from_str("-");
        proof {
            reveal_strlit("-");
        }
        let d = digits_exec(m);
        r.append(d.as_str());
        assert(r@ =~= decimal(i as int));
        r
    } else {
        digits_exec(i as u64)
    }
}

impl Item {
    /// The string form of the item on a command line.
    pub fn to_str(&self) -> (r: String)
        ensures
            r@ == to_str(self@),
    {
        match self {
            Item::NoneValue => String::from_str("None"),
            Item::Bool(b) => if *b {
                String::from_str("True")
            } else {
                String::from_str("False")
            },
            Item::Int(i) => decimal_exec(*i),
            Item::Str(s) => s.clone(),
            Item::File(f) => f.path.clone(),
            Item::Other { repr, .. } => repr.clone(),
        }
    }
}

/// The values given to `add_all` or `add_joined`.
pub enum ArgValues {
    /// The items of a list or tuple.
    Items(Vec<Item>),
    /// A depset of the store.
    Depset(usize),
    /// Any other value, which cannot be expanded.
    Invalid,
}

/// What the `map_each` function returned for one element.
pub enum MapOutcome {
    /// A list; each item must be a string.
    List(Vec<Item>),
    Str(String),
    NoneValue,
    /// A value of any other type.
    Invalid,
    /// The call failed with this message.
    Failed(String),
}

/// One argument stored in an [`ArgsGen`].
pub enum ArgValue {
    Scalar { arg_name: Option<String>, value: Option<Item>, format: Option<Formatter> },
    All {
        flag: Option<String>,
        values: ArgValues,
        /// Handle of the `map_each` function, if any.
        map_each: Option<u64>,
        format_each: Option<Formatter>,
        before_each: Option<String>,
        terminate_with: Option<String>,
        omit_if_empty: bool,
        uniquify: bool,
    },
    Joined {
        flag: Option<String>,
        values: ArgValues,
        join_with: String,
        map_each: Option<u64>,
        format_each: Option<Formatter>,
        format_joined: Option<Formatter>,
        omit_if_empty: bool,
        uniquify: bool,
    },
}

/// The Starlark `Args` object: the arguments added so far.
pub struct ArgsGen {
    pub arguments: Vec<ArgValue>,
}

/// The result of an expansion step: the command line so far, or the command
/// line as it stood when an error stopped the expansion, with the error.
pub type Expansion = Result<Seq<Seq<char>>, (Seq<Seq<char>>, Error)>;

/// `dest` with `name` pushed if it is present.
pub open spec fn push_opt(dest: Seq<Seq<char>>, name: Option<String>) -> Seq<Seq<char>> {
    match name {
        Some(n) => dest.push(n@),
        None => dest,
    }
}

/// Pushes an optional name and then the formatted value.
pub open spec fn push_arg(dest: Seq<Seq<char>>, name: Option<String>, s: Seq<char>, f: Option<
    Formatter,
>) -> Seq<Seq<char>> {
    push_opt(dest, name).push(apply_fmt(f, s))
}

/// The items of a list returned by `map_each`; each must be a string.
pub open spec fn mapped_list_run(
    dest: Seq<Seq<char>>,
    items: Seq<Item>,
    f: Option<Formatter>,
    before: Option<String>,
) -> Expansion
    decreases items.len(),
{
    if items.len() == 0 {
        Ok(dest)
    } else {
        match mapped_list_run(dest, items.drop_last(), f, before) {
            Err(e) => Err(e),
            Ok(d) => match items.last() {
                Item::Str(x) => Ok(push_arg(d, before, x@, f)),
                _ => Err((d, Error::MapEachInvalidReturn)),
            },
        }
    }
}

/// One element, mapped by `map_each` when an outcome is given.
pub open spec fn elem_step(
    dest: Seq<Seq<char>>,
    x: ItemV,
    m: Option<MapOutcome>,
    f: Option<Formatter>,
    before: Option<String>,
) -> Expansion {
    match m {
        None => if x is NoneValue {
            Err((dest, Error::NoneNotAllowed))
        } else {
            Ok(push_arg(dest, before, to_str(x), f))
        },
        Some(MapOutcome::List(items)) => mapped_list_run(dest, items@, f, before),
        Some(MapOutcome::Str(x)) => Ok(push_arg(dest, before, x@, f)),
        Some(MapOutcome::NoneValue) => Ok(dest),
        Some(MapOutcome::Invalid) => Err((dest, Error::MapEachInvalidReturn)),
        Some(MapOutcome::Failed(msg)) => Err((dest, Error::MapEachFailed(msg))),
    }
}

/// The outcome for element `i`, if elements are mapped.
pub open spec fn outcome_at(ms: Option<Seq<MapOutcome>>, i: int) -> Option<MapOutcome> {
    match ms {
        Some(m) => Some(m[i]),
        None => None,
    }
}

/// All elements in turn, stopping at the first error.
pub open spec fn elems_run(
    dest: Seq<Seq<char>>,
    xs: Seq<ItemV>,
    ms: Option<Seq<MapOutcome>>,
    f: Option<Formatter>,
    before: Option<String>,
) -> Expansion
    decreases xs.len(),
{
    if xs.len() == 0 {
        Ok(dest)
    } else {
        match elems_run(dest, xs.drop_last(), ms, f, before) {
            Err(e) => Err(e),
            Ok(d) => elem_step(d, xs.last(), outcome_at(ms, xs.len() - 1), f, before),
        }
    }
}

/// The elements of the values: list items, or a depset listed in its own
/// order; `None` for values that cannot be expanded.
pub open spec fn elements_spec(values: ArgValues, nodes: Seq<DepsetGen>) -> Option<Seq<ItemV>> {
    match values {
        ArgValues::Items(v) => Some(items_view(v@)),
        ArgValues::Depset(id) => if id < nodes.len() {
            Some(list_spec(nodes, id as int, nodes[id as int].order))
        } else {
            None
        },
        ArgValues::Invalid => None,
    }
}

/// The strings of `parts` separated by `sep`.
pub open spec fn join(parts: Seq<Seq<char>>, sep: Seq<char>) -> Seq<char>
    decreases parts.len(),
{
    if parts.len() == 0 {
        Seq::empty()
    } else if parts.len() == 1 {
        parts[0]
    } else {
        join(parts.drop_last(), sep) + sep + parts.last()
    }
}

/// The mapped outcomes, when `map_each` is set.
pub open spec fn mapped_for(map_each: Option<u64>, ms: Seq<MapOutcome>) -> Option<Seq<MapOutcome>> {
    match map_each {
        Some(_) => Some(ms),
        None => None,
    }
}

/// The end of `add_all` without `uniquify`: the terminator is added when
/// there is something to show, and a lone flag is taken back otherwise.
pub open spec fn finish_all(
    start: int,
    d: Seq<Seq<char>>,
    flag: Option<String>,
    terminate_with: Option<String>,
    omit_if_empty: bool,
) -> Seq<Seq<char>> {
    let want = d.len() > start || !omit_if_empty;
    let d2 = if want {
        push_opt(d, terminate_with)
    } else {
        d
    };
    if !want && flag is Some {
        d2.drop_last()
    } else {
        d2
    }
}

/// Expands one argument onto `cmd`; `ms` are the `map_each` outcomes of its
/// elements.
pub open spec fn arg_spec(
    cmd: Seq<Seq<char>>,
    a: ArgValue,
    nodes: Seq<DepsetGen>,
    ms: Seq<MapOutcome>,
) -> Expansion {
    match a {
        ArgValue::Scalar { arg_name, value, format } => match value {
            None => Ok(push_opt(cmd, arg_name)),
            Some(x) => if x is NoneValue {
                Ok(cmd)
            } else {
                Ok(push_arg(cmd, arg_name, to_str(x@), format))
            },
        },
        ArgValue::All {
            flag,
            values,
            map_each,
            format_each,
            before_each,
            terminate_with,
            omit_if_empty,
            uniquify,
        } => {
            if !uniquify {
                let d1 = push_opt(cmd, flag);
                match elements_spec(values, nodes) {
                    None => Err((d1, Error::ArgumentsMustBeListOrDepset)),
                    Some(xs) => match elems_run(
                        d1,
                        xs,
                        mapped_for(map_each, ms),
                        format_each,
                        before_each,
                    ) {
                        Err(e) => Err(e),
                        Ok(d2) => Ok(
                            finish_all(d1.len() as int, d2, flag, terminate_with, omit_if_empty),
                        ),
                    },
                }
            } else {
                let t1 = push_opt(Seq::empty(), flag);
                match elements_spec(values, nodes) {
                    None => Err((cmd, Error::ArgumentsMustBeListOrDepset)),
                    Some(xs) => match elems_run(
                        t1,
                        xs,
                        mapped_for(map_each, ms),
                        format_each,
                        before_each,
                    ) {
                        Err((_, e)) => Err((cmd, e)),
                        Ok(t2) => if t2.len() > t1.len() || !omit_if_empty {
                            Ok(cmd + dedup(t2))
                        } else {
                            Ok(cmd)
                        },
                    },
                }
            }
        },
        ArgValue::Joined {
            flag,
            values,
            join_with,
            map_each,
            format_each,
            format_joined,
            omit_if_empty,
            uniquify,
        } => match elements_spec(values, nodes) {
            None => Err((cmd, Error::ArgumentsMustBeListOrDepset)),
            Some(xs) => match elems_run(
                Seq::empty(),
                xs,
                mapped_for(map_each, ms),
                format_each,
                None,
            ) {
                Err((_, e)) => Err((cmd, e)),
                Ok(t2) => if t2.len() > 0 || !omit_if_empty {
                    let parts = if uniquify {
                        dedup(t2)
                    } else {
                        t2
                    };
                    Ok(push_opt(cmd, flag).push(apply_fmt(format_joined, join(parts, join_with@))))
                } else {
                    Ok(cmd)
                },
            },
        },
    }
}

/// Expands the arguments `args` in turn onto `cmd`, stopping at the first
/// error; `mapped[i]` holds the `map_each` outcomes of argument `i`.
pub open spec fn args_spec(
    cmd: Seq<Seq<char>>,
    args: Seq<ArgValue>,
    nodes: Seq<DepsetGen>,
    mapped: Seq<Vec<MapOutcome>>,
) -> Expansion
    decreases args.len(),
{
    if args.len() == 0 {
        Ok(cmd)
    } else {
        match args_spec(cmd, args.drop_last(), nodes, mapped) {
            Err(e) => Err(e),
            Ok(c) => arg_spec(c, args.last(), nodes, mapped[args.len() - 1]@),
        }
    }
}

/// The outcomes as a sequence, when given.
pub open spec fn outcomes_view(ms: Option<&Vec<MapOutcome>>) -> Option<Seq<MapOutcome>> {
    match ms {
        Some(m) => Some(m@),
        None => None,
    }
}

/// Whether the outcomes fit the elements: one outcome per element when
/// elements are mapped.
pub open spec fn outcomes_fit(map_each: Option<u64>, xs: Option<Seq<ItemV>>, ms: Seq<MapOutcome>) -> bool {
    map_each is Some ==> (xs matches Some(x) ==> ms.len() == x.len())
}

fn push_opt_exec(dest: &mut Vec<String>, name: &Option<String>)
    ensures
        strs_view(final(dest)@) == push_opt(strs_view(old(dest)@), *name),
{
    if let Some(n) = name {
        dest.push(n.clone());
        assert(strs_view(dest@) =~= strs_view(old(dest)@).push(n@));
    }
}

fn push_arg_exec(dest: &mut Vec<String>, name: &Option<String>, s: &str, f: &Option<Formatter>)
    ensures
        strs_view(final(dest)@) == push_arg(strs_view(old(dest)@), *name, s@, *f),
{
    push_opt_exec(dest, name);
    let v = match f {
        Some(fm) => fm.format(s),
        None => String::from_str(s),
    };
    let ghost before = dest@;
    dest.push(v);
    assert(strs_view(dest@) =~= strs_view(before).push(v@));
}

fn run_mapped_list(
    dest: &mut Vec<String>,
    items: &Vec<Item>,
    f: &Option<Formatter>,
    before: &Option<String>,
) -> (r: Result<(), Error>)
    ensures
        match mapped_list_run(strs_view(old(dest)@), items@, *f, *before) {
            Ok(d) => r is Ok && strs_view(final(dest)@) == d,
            Err((d, e)) => r == Err::<(), Error>(e) && strs_view(final(dest)@) == d,
        },
{
    let ghost d0 = strs_view(dest@);
    let mut i: usize = 0;
    while i < items.len()
        invariant
            i <= items@.len(),
            d0 == strs_view(old(dest)@),
            mapped_list_run(d0, items@.take(i as int), *f, *before) == Ok::<
                Seq<Seq<char>>,
                (Seq<Seq<char>>, Error),
            >(strs_view(dest@)),
        decreases items.len() - i,
    {
        assert(items@.take(i as int + 1).drop_last() =~= items@.take(i as int));
        assert(items@.take(i as int + 1).last() == items@[i as int]);
        match &items[i] {
            Item::Str(x) => {
                push_arg_exec(dest, before, x.as_str(), f);
            },
            _ => {
                proof {
                    assert(mapped_list_run(d0, items@.take(i as int + 1), *f, *before) == Err::<
                        Seq<Seq<char>>,
                        (Seq<Seq<char>>, Error),
                    >((strs_view(dest@), Error::MapEachInvalidReturn)));
                    lemma_mapped_list_prefix_err(d0, items@, *f, *before, i as int + 1);
                }
                return Err(Error::MapEachInvalidReturn);
            },
        }
        i = i + 1;
    }
    assert(items@.take(items@.len() as int) =~= items@);
    Ok(())
}

proof fn lemma_mapped_list_prefix_err(
    d0: Seq<Seq<char>>,
    items: Seq<Item>,
    f: Option<Formatter>,
    before: Option<String>,
    k: int,
)
    requires
        0 <= k <= items.len(),
        mapped_list_run(d0, items.take(k), f, before) is Err,
    ensures
        mapped_list_run(d0, items, f, before) == mapped_list_run(d0, items.take(k), f, before),
    decreases items.len() - k,
{
    if k < items.len() {
        assert(items.take(k + 1).drop_last() =~= items.take(k));
        lemma_mapped_list_prefix_err(d0, items, f, before, k + 1);
    } else {
        assert(items.take(k) =~= items);
    }
}

proof fn lemma_elems_prefix_err(
    d0: Seq<Seq<char>>,
    xs: Seq<ItemV>,
    ms: Option<Seq<MapOutcome>>,
    f: Option<Formatter>,
    before: Option<String>,
    k: int,
)
    requires
        0 <= k <= xs.len(),
        elems_run(d0, xs.take(k), ms, f, before) is Err,
    ensures
        elems_run(d0, xs, ms, f, before) == elems_run(d0, xs.take(k), ms, f, before),
    decreases xs.len() - k,
{
    if k < xs.len() {
        assert(xs.take(k + 1).drop_last() =~= xs.take(k));
        lemma_elems_prefix_err(d0, xs, ms, f, before, k + 1);
    } else {
        assert(xs.take(k) =~= xs);
    }
}

fn run_elems(
    dest: &mut Vec<String>,
    xs: &Vec<Item>,
    ms: Option<&Vec<MapOutcome>>,
    f: &Option<Formatter>,
    before: &Option<String>,
) -> (r: Result<(), Error>)
    requires
        ms matches Some(m) ==> m@.len() == xs@.len(),
    ensures
        match elems_run(strs_view(old(dest)@), items_view(xs@), outcomes_view(ms), *f, *before) {
            Ok(d) => r is Ok && strs_view(final(dest)@) == d,
            Err((d, e)) => r == Err::<(), Error>(e) && strs_view(final(dest)@) == d,
        },
{
    let ghost d0 = strs_view(dest@);
    let ghost xv = items_view(xs@);
    let mut i: usize = 0;
    while i < xs.len()
        invariant
            i <= xs@.len(),
            xv == items_view(xs@),
            d0 == strs_view(old(dest)@),
            ms matches Some(m) ==> m@.len() == xs@.len(),
            elems_run(d0, xv.take(i as int), outcomes_view(ms), *f, *before) == Ok::<
                Seq<Seq<char>>,
                (Seq<Seq<char>>, Error),
            >(strs_view(dest@)),
        decreases xs.len() - i,
    {
        assert(xv.take(i as int + 1).drop_last() =~= xv.take(i as int));
        assert(xv.take(i as int + 1).last() == xs@[i as int]@);
        assert(xv.take(i as int + 1).len() - 1 == i);
        let x = &xs[i];
        let ghost prev = strs_view(dest@);
        let step: Result<(), Error> = match ms {
            None => {
                match x {
                    Item::NoneValue => Err(Error::NoneNotAllowed),
                    _ => {
                        let v = x.to_str();
                        push_arg_exec(dest, before, v.as_str(), f);
                        Ok(())
                    },
                }
            },
            Some(m) => {
                match &m[i] {
                    MapOutcome::List(items) => run_mapped_list(dest, items, f, before),
                    MapOutcome::Str(v) => {
                        push_arg_exec(dest, before, v.as_str(), f);
                        Ok(())
                    },
                    MapOutcome::NoneValue => Ok(()),
                    MapOutcome::Invalid => Err(Error::MapEachInvalidReturn),
                    MapOutcome::Failed(msg) => Err(Error::MapEachFailed(msg.clone())),
                }
            },
        };
        assert(match elem_step(prev, xv[i as int], outcome_at(outcomes_view(ms), i as int), *f, *before) {
            Ok(d) => step is Ok && strs_view(dest@) == d,
            Err((d, e)) => step == Err::<(), Error>(e) && strs_view(dest@) == d,
        });
        match step {
            Ok(()) => {},
            Err(e) => {
                proof {
                    assert(elems_run(d0, xv.take(i as int + 1), outcomes_view(ms), *f, *before)
                        == Err::<Seq<Seq<char>>, (Seq<Seq<char>>, Error)>((strs_view(dest@), e)));
                    lemma_elems_prefix_err(d0, xv, outcomes_view(ms), *f, *before, i as int + 1);
                }
                return Err(e);
            },
        }
        i = i + 1;
    }
    assert(xv.take(xv.len() as int) =~= xv);
    Ok(())
}

/// First-occurrence deduplication of strings.
pub fn dedup_strings(v: &Vec<String>) -> (r: Vec<String>)
    ensures
        strs_view(r@) == dedup(strs_view(v@)),
{
    let ghost sv = strs_view(v@);
    let mut out: Vec<String> = Vec::new();
    let mut i: usize = 0;
    while i < v.len()
        invariant
            i <= v@.len(),
            sv == strs_view(v@),
            strs_view(out@) == crate::seqs::dedup_from(Seq::<Seq<char>>::empty(), sv.take(i as int)),
        decreases v.len() - i,
    {
        proof {
            assert(sv.take(i as int + 1) =~= sv.take(i as int).push(sv[i as int]));
            crate::seqs::lemma_dedup_from_push(Seq::<Seq<char>>::empty(), sv.take(i as int), sv[i as int]);
        }
        if !contains_string(&out, &v[i]) {
            let ghost prev = out@;
            out.push(v[i].clone());
            assert(strs_view(out@) =~= strs_view(prev).push(sv[i as int]));
        }
        i = i + 1;
    }
    assert(sv.take(sv.len() as int) =~= sv);
    out
}

/// Joins strings with a separator.
pub fn join_strings(parts: &Vec<String>, sep: &str) -> (r: String)
    ensures
        r@ == join(strs_view(parts@), sep@),
{
    let ghost pv = strs_view(parts@);
    let mut out = String::new();
    let mut i: usize = 0;
    while i < parts.len()
        invariant
            i <= parts@.len(),
            pv == strs_view(parts@),
            out@ == join(pv.take(i as int), sep@),
        decreases parts.len() - i,
    {
        assert(pv.take(i as int + 1).drop_last() =~= pv.take(i as int));
        if i > 0 {
            out.append(sep);
        }
        out.append(parts[i].as_str());
        proof {
            if i == 0 {
                assert(join(Seq::<Seq<char>>::empty(), sep@) == Seq::<char>::empty());
                assert(pv.take(0) =~= Seq::<Seq<char>>::empty());
                assert(out@ =~= pv[0]);
            }
        }
        i = i + 1;
    }
    assert(pv.take(pv.len() as int) =~= pv);
    out
}

fn clone_items(v: &Vec<Item>) -> (r: Vec<Item>)
    ensures
        r@ == v@,
{
    let mut out: Vec<Item> = Vec::new();
    let mut i: usize = 0;
    while i < v.len()
        invariant
            i <= v@.len(),
            out@ == v@.take(i as int),
        decreases v.len() - i,
    {
        out.push(v[i].clone());
        assert(out@ =~= v@.take(i as int + 1));
        i = i + 1;
    }
    assert(v@.take(v@.len() as int) =~= v@);
    out
}

/// The elements of the values, or `None` when they cannot be expanded.
pub fn elements(values: &ArgValues, store: &DepsetStore) -> (r: Option<Vec<Item>>)
    requires
        store.wf(),
    ensures
        match elements_spec(*values, store.nodes@) {
            Some(xs) => (r matches Some(v) && items_view(v@) == xs),
            None => r is None,
        },
{
    match values {
        ArgValues::Items(v) => Some(clone_items(v)),
        ArgValues::Depset(id) => {
            if *id < store.len() {
                Some(store.to_list(*id))
            } else {
                None
            }
        },
        ArgValues::Invalid => None,
    }
}

/// Whether every argument has one `map_each` outcome per element.
pub open spec fn mapped_fit(args: Seq<ArgValue>, nodes: Seq<DepsetGen>, mapped: Seq<Vec<MapOutcome>>) -> bool {
    &&& mapped.len() == args.len()
    &&& forall|i: int| 0 <= i < args.len() ==> #[trigger] arg_fits(args[i], nodes, mapped[i]@)
}

/// Whether the outcomes fit one argument.
pub open spec fn arg_fits(a: ArgValue, nodes: Seq<DepsetGen>, ms: Seq<MapOutcome>) -> bool {
    match a {
        ArgValue::Scalar { .. } => true,
        ArgValue::All { values, map_each, .. } => outcomes_fit(map_each, elements_spec(values, nodes), ms),
        ArgValue::Joined { values, map_each, .. } => outcomes_fit(map_each, elements_spec(values, nodes), ms),
    }
}

fn opt_outcomes<'a>(map_each: &Option<u64>, ms: &'a Vec<MapOutcome>) -> (r: Option<&'a Vec<MapOutcome>>)
    ensures
        outcomes_view(r) == mapped_for(*map_each, ms@),
{
    match map_each {
        Some(_) => Some(ms),
        None => None,
    }
}

impl ArgValue {
    /// Expands this argument onto `cmd`; `ms` are the `map_each` outcomes of
    /// its elements.
    pub fn expand_onto(&self, cmd: &mut Vec<String>, store: &DepsetStore, ms: &Vec<MapOutcome>) -> (r:
        Result<(), Error>)
        requires
            store.wf(),
            arg_fits(*self, store.nodes@, ms@),
        ensures
            match arg_spec(strs_view(old(cmd)@), *self, store.nodes@, ms@) {
                Ok(d) => r is Ok && strs_view(final(cmd)@) == d,
                Err((d, e)) => r == Err::<(), Error>(e) && strs_view(final(cmd)@) == d,
            },
    {
        match self {
            ArgValue::Scalar { arg_name, value, format } => {
                match value {
                    None => {
                        push_opt_exec(cmd, arg_name);
                    },
                    Some(x) => {
                        match x {
                            Item::NoneValue => {},
                            _ => {
                                let v = x.to_str();
                                push_arg_exec(cmd, arg_name, v.as_str(), format);
                            },
                        }
                    },
                }
                Ok(())
            },
            ArgValue::All {
                flag,
                values,
                map_each,
                format_each,
                before_each,
                terminate_with,
                omit_if_empty,
                uniquify,
            } => {
                if !*uniquify {
                    push_opt_exec(cmd, flag);
                    let start = cmd.len();
                    let xs = match elements(values, store) {
                        Some(xs) => xs,
                        None => {
                            return Err(Error::ArgumentsMustBeListOrDepset);
                        },
                    };
                    let ghost before_run = strs_view(cmd@);
                    let res = run_elems(cmd, &xs, opt_outcomes(map_each, ms), format_each, before_each);
                    match res {
                        Err(e) => {
                            return Err(e);
                        },
                        Ok(()) => {},
                    }
                    proof {
                        lemma_elems_run_grows(before_run, items_view(xs@), mapped_for(*map_each, ms@), *format_each, *before_each);
                    }
                    let want = cmd.len() > start || !*omit_if_empty;
                    if want {
                        push_opt_exec(cmd, terminate_with);
                    }
                    if !want && flag.is_some() {
                        let ghost prev = cmd@;
                        cmd.pop();
                        assert(strs_view(cmd@) =~= strs_view(prev).drop_last());
                    }
                    Ok(())
                } else {
                    let mut temp: Vec<String> = Vec::new();
                    assert(strs_view(temp@) =~= Seq::<Seq<char>>::empty());
                    push_opt_exec(&mut temp, flag);
                    let start = temp.len();
                    let xs = match elements(values, store) {
                        Some(xs) => xs,
                        None => {
                            return Err(Error::ArgumentsMustBeListOrDepset);
                        },
                    };
                    let res = run_elems(&mut temp, &xs, opt_outcomes(map_each, ms), format_each, before_each);
                    match res {
                        Err(e) => {
                            return Err(e);
                        },
                        Ok(()) => {},
                    }
                    if temp.len() > start || !*omit_if_empty {
                        let unique = dedup_strings(&temp);
                        let mut j: usize = 0;
                        let ghost c0 = strs_view(cmd@);
                        while j < unique.len()
                            invariant
                                j <= unique@.len(),
                                strs_view(cmd@) == c0 + strs_view(unique@).take(j as int),
                            decreases unique.len() - j,
                        {
                            let ghost prev = cmd@;
                            cmd.push(unique[j].clone());
                            assert(strs_view(cmd@) =~= strs_view(prev).push(unique@[j as int]@));
                            assert(strs_view(unique@).take(j as int + 1) =~= strs_view(unique@).take(j as int).push(unique@[j as int]@));
                            assert(strs_view(cmd@) =~= c0 + strs_view(unique@).take(j as int + 1));
                            j = j + 1;
                        }
                        assert(strs_view(unique@).take(unique@.len() as int) =~= strs_view(unique@));
                    }
                    Ok(())
                }
            },
            ArgValue::Joined {
                flag,
                values,
                join_with,
                map_each,
                format_each,
                format_joined,
                omit_if_empty,
                uniquify,
            } => {
                let xs = match elements(values, store) {
                    Some(xs) => xs,
                    None => {
                        return Err(Error::ArgumentsMustBeListOrDepset);
                    },
                };
                let mut temp: Vec<String> = Vec::new();
                assert(strs_view(temp@) =~= Seq::<Seq<char>>::empty());
                let no_name: Option<String> = None;
                let res = run_elems(&mut temp, &xs, opt_outcomes(map_each, ms), format_each, &no_name);
                match res {
                    Err(e) => {
                        return Err(e);
                    },
                    Ok(()) => {},
                }
                if temp.len() > 0 || !*omit_if_empty {
                    push_opt_exec(cmd, flag);
                    let joined = if *uniquify {
                        let unique = dedup_strings(&temp);
                        join_strings(&unique, join_with.as_str())
                    } else {
                        join_strings(&temp, join_with.as_str())
                    };
                    let formatted = match format_joined {
                        Some(fj) => fj.format(joined.as_str()),
                        None => joined,
                    };
                    let ghost prev = cmd@;
                    cmd.push(formatted);
                    assert(strs_view(cmd@) =~= strs_view(prev).push(formatted@));
                }
                Ok(())
            },
        }
    }
}

impl ArgsGen {
    /// Creates a new empty `ArgsGen` builder.
    pub fn new() -> (r: ArgsGen)
        ensures
            r.arguments@.len() == 0,
    {
        ArgsGen { arguments: Vec::new() }
    }

    /// Expands the stored arguments onto `command`, in order; `mapped[i]`
    /// holds the `map_each` outcomes of argument `i`. On error, `command`
    /// holds what was expanded before the error.
    pub fn expand_into(
        &self,
        command: &mut Vec<String>,
        store: &DepsetStore,
        mapped: &Vec<Vec<MapOutcome>>,
    ) -> (r: Result<(), Error>)
        requires
            store.wf(),
            mapped_fit(self.arguments@, store.nodes@, mapped@),
        ensures
            match args_spec(strs_view(old(command)@), self.arguments@, store.nodes@, mapped@) {
                Ok(d) => r is Ok && strs_view(final(command)@) == d,
                Err((d, e)) => r == Err::<(), Error>(e) && strs_view(final(command)@) == d,
            },
    {
        let ghost c0 = strs_view(command@);
        let ghost args = self.arguments@;
        let mut i: usize = 0;
        while i < self.arguments.len()
            invariant
                i <= args.len(),
                args == self.arguments@,
                store.wf(),
                mapped_fit(args, store.nodes@, mapped@),
                c0 == strs_view(old(command)@),
                args_spec(c0, args.take(i as int), store.nodes@, mapped@) == Ok::<
                    Seq<Seq<char>>,
                    (Seq<Seq<char>>, Error),
                >(strs_view(command@)),
            decreases args.len() - i,
        {
            assert(args.take(i as int + 1).drop_last() =~= args.take(i as int));
            assert(args.take(i as int + 1).last() == args[i as int]);
            assert(arg_fits(args[i as int], store.nodes@, mapped@[i as int]@));
            let res = self.arguments[i].expand_onto(command, store, &mapped[i]);
            match res {
                Err(e) => {
                    proof {
                        lemma_args_prefix_err(c0, args, store.nodes@, mapped@, i as int + 1);
                    }
                    return Err(e);
                },
                Ok(()) => {},
            }
            i = i + 1;
        }
        assert(args.take(args.len() as int) =~= args);
        Ok(())
    }
}

proof fn lemma_args_prefix_err(
    c0: Seq<Seq<char>>,
    args: Seq<ArgValue>,
    nodes: Seq<DepsetGen>,
    mapped: Seq<Vec<MapOutcome>>,
    k: int,
)
    requires
        0 <= k <= args.len(),
        args_spec(c0, args.take(k), nodes, mapped) is Err,
    ensures
        args_spec(c0, args, nodes, mapped) == args_spec(c0, args.take(k), nodes, mapped),
    decreases args.len() - k,
{
    if k < args.len() {
        assert(args.take(k + 1).drop_last() =~= args.take(k));
        lemma_args_prefix_err(c0, args, nodes, mapped, k + 1);
    } else {
        assert(args.take(k) =~= args);
    }
}

proof fn lemma_mapped_list_grows(d: Seq<Seq<char>>, items: Seq<Item>, f: Option<Formatter>, before: Option<String>)
    ensures
        mapped_list_run(d, items, f, before) matches Ok(d2) ==> d2.len() >= d.len(),
    decreases items.len(),
{
    if items.len() > 0 {
        lemma_mapped_list_grows(d, items.drop_last(), f, before);
    }
}

/// Expanding elements only appends to the command line.
proof fn lemma_elems_run_grows(
    d: Seq<Seq<char>>,
    xs: Seq<ItemV>,
    ms: Option<Seq<MapOutcome>>,
    f: Option<Formatter>,
    before: Option<String>,
)
    ensures
        elems_run(d, xs, ms, f, before) matches Ok(d2) ==> d2.len() >= d.len(),
    decreases xs.len(),
{
    if xs.len() > 0 {
        lemma_elems_run_grows(d, xs.drop_last(), ms, f, before);
        if let Ok(d1) = elems_run(d, xs.drop_last(), ms, f, before) {
            match outcome_at(ms, xs.len() - 1) {
                Some(MapOutcome::List(items)) => {
                    lemma_mapped_list_grows(d1, items@, f, before);
                },
                _ => {},
            }
        }
    }
}

/// A first or second argument of `add_all` / `add_joined`.
pub enum ArgInput {
    Str(String),
    NoneValue,
    Values(ArgValues),
}

/// Whether an optional format string is valid.
pub open spec fn fmt_ok(s: Option<&str>) -> bool {
    match s {
        None => true,
        Some(x) => single_placeholder(x@) is Some,
    }
}

/// Whether `f` is the formatter parsed from the optional format string `s`.
pub open spec fn fmt_from(f: Option<Formatter>, s: Option<&str>) -> bool {
    match s {
        None => f is None,
        Some(x) => (f matches Some(ff) && single_placeholder(x@) matches Some(i) && ff@ == (
            x@.take(i),
            x@.skip(i + 2),
        )),
    }
}

/// Whether `a` holds the same text as `b`.
pub open spec fn opt_str_is(a: Option<String>, b: Option<&str>) -> bool {
    match (a, b) {
        (None, None) => true,
        (Some(x), Some(y)) => x@ == y@,
        _ => false,
    }
}

/// The values that an input stands for.
pub open spec fn input_values(v: ArgInput) -> ArgValues {
    match v {
        ArgInput::Values(x) => x,
        _ => ArgValues::Invalid,
    }
}

/// The error of an invalid format string.
pub open spec fn fmt_error(r: Result<(), Error>, s: Option<&str>) -> bool {
    s matches Some(x) && (r matches Err(Error::InvalidFormatString(m)) && m@ == x@)
}

fn parse_fmt(s: Option<&str>) -> (r: Result<Option<Formatter>, Error>)
    ensures
        match r {
            Ok(f) => fmt_ok(s) && fmt_from(f, s),
            Err(e) => !fmt_ok(s) && (s matches Some(x) && (e matches Error::InvalidFormatString(m)
                && m@ == x@)),
        },
{
    match s {
        None => Ok(None),
        Some(x) => match Formatter::new(x) {
            Ok(f) => Ok(Some(f)),
            Err(e) => Err(e),
        },
    }
}

fn opt_owned(s: Option<&str>) -> (r: Option<String>)
    ensures
        opt_str_is(r, s),
{
    match s {
        None => None,
        Some(x) => Some(String::from_str(x)),
    }
}

impl ArgsGen {
    /// `args.add(arg_name_or_value, value, format = ...)`: adds one argument,
    /// optionally preceded by a flag. An explicit `None` value adds nothing.
    pub fn add(&mut self, arg_name_or_value: Item, value: Option<Item>, format: Option<&str>) -> (r:
        Result<(), Error>)
        ensures
            ({
                let (name, val) = match arg_name_or_value {
                    Item::Str(n) => (Some(n), value),
                    _ => (None, Some(arg_name_or_value)),
                };
                if !(arg_name_or_value is Str) && value is Some {
                    r == Err::<(), Error>(Error::ExpectedAddStringFlag)
                        && final(self).arguments@ == old(self).arguments@
                } else if val matches Some(Item::NoneValue) {
                    r is Ok && final(self).arguments@ == old(self).arguments@
                } else if !fmt_ok(format) {
                    fmt_error(r, format) && final(self).arguments@ == old(self).arguments@
                } else {
                    &&& r is Ok
                    &&& final(self).arguments@.len() == old(self).arguments@.len() + 1
                    &&& final(self).arguments@.drop_last() == old(self).arguments@
                    &&& (final(self).arguments@.last() matches ArgValue::Scalar {
                        arg_name,
                        value: v,
                        format: f,
                    } && arg_name == name && v == val && fmt_from(f, format))
                }
            }),
    {
        let (name, val) = match arg_name_or_value {
            Item::Str(n) => (Some(n), value),
            other => {
                if value.is_some() {
                    return Err(Error::ExpectedAddStringFlag);
                }
                (None, Some(other))
            },
        };
        if let Some(Item::NoneValue) = &val {
            return Ok(());
        }
        let f = match parse_fmt(format) {
            Ok(f) => f,
            Err(e) => {
                return Err(e);
            },
        };
        self.arguments.push(ArgValue::Scalar { arg_name: name, value: val, format: f });
        assert(self.arguments@.drop_last() =~= old(self).arguments@);
        Ok(())
    }

    /// `args.add_all(arg_name_or_values, values, ...)`: adds every element
    /// of a list or depset, optionally preceded by a flag.
    pub fn add_all(
        &mut self,
        arg_name_or_values: ArgInput,
        values: Option<ArgInput>,
        map_each: Option<u64>,
        allow_closure: Option<bool>,
        format_each: Option<&str>,
        before_each: Option<&str>,
        terminate_with: Option<&str>,
        omit_if_empty: bool,
        uniquify: bool,
    ) -> (r: Result<(), Error>)
        ensures
            ({
                let (flag, vals) = match arg_name_or_values {
                    ArgInput::Str(n) => (Some(n), values),
                    _ => (None, Some(arg_name_or_values)),
                };
                if map_each is Some && allow_closure is None {
                    r == Err::<(), Error>(Error::MapEachWithoutAllowClosure)
                        && final(self).arguments@ == old(self).arguments@
                } else if !fmt_ok(format_each) {
                    fmt_error(r, format_each) && final(self).arguments@ == old(self).arguments@
                } else if !(arg_name_or_values is Str) && values is Some {
                    r == Err::<(), Error>(Error::ExpectedAddAllStringFlag)
                        && final(self).arguments@ == old(self).arguments@
                } else if vals is None || vals matches Some(ArgInput::NoneValue) {
                    r is Ok && final(self).arguments@ == old(self).arguments@
                } else {
                    &&& r is Ok
                    &&& final(self).arguments@.len() == old(self).arguments@.len() + 1
                    &&& final(self).arguments@.drop_last() == old(self).arguments@
                    &&& (final(self).arguments@.last() matches ArgValue::All {
                        flag: fl,
                        values: vs,
                        map_each: me,
                        format_each: fe,
                        before_each: be,
                        terminate_with: tw,
                        omit_if_empty: oe,
                        uniquify: u,
                    } && fl == flag && vs == input_values(vals->0) && me == map_each && fmt_from(
                        fe,
                        format_each,
                    ) && opt_str_is(be, before_each) && opt_str_is(tw, terminate_with)
                        && oe == omit_if_empty && u == uniquify)
                }
            }),
    {
        if map_each.is_some() && allow_closure.is_none() {
            return Err(Error::MapEachWithoutAllowClosure);
        }
        let fe = match parse_fmt(format_each) {
            Ok(f) => f,
            Err(e) => {
                return Err(e);
            },
        };
        let (flag, vals) = match arg_name_or_values {
            ArgInput::Str(n) => (Some(n), values),
            other => {
                if values.is_some() {
                    return Err(Error::ExpectedAddAllStringFlag);
                }
                (None, Some(other))
            },
        };
        let vs = match vals {
            None => {
                return Ok(());
            },
            Some(ArgInput::NoneValue) => {
                return Ok(());
            },
            Some(ArgInput::Str(_)) => ArgValues::Invalid,
            Some(ArgInput::Values(v)) => v,
        };
        self.arguments.push(
            ArgValue::All {
                flag,
                values: vs,
                map_each,
                format_each: fe,
                before_each: opt_owned(before_each),
                terminate_with: opt_owned(terminate_with),
                omit_if_empty,
                uniquify,
            },
        );
        assert(self.arguments@.drop_last() =~= old(self).arguments@);
        Ok(())
    }

    /// `args.add_joined(arg_name_or_values, values, join_with = ..., ...)`:
    /// adds the elements of a list or depset joined into one argument,
    /// optionally preceded by a flag.
    pub fn add_joined(
        &mut self,
        arg_name_or_values: ArgInput,
        values: Option<ArgInput>,
        join_with: &str,
        map_each: Option<u64>,
        allow_closure: Option<bool>,
        format_each: Option<&str>,
        format_joined: Option<&str>,
        omit_if_empty: bool,
        uniquify: bool,
    ) -> (r: Result<(), Error>)
        ensures
            ({
                let (flag, vals) = match arg_name_or_values {
                    ArgInput::Str(n) => (Some(n), values),
                    _ => (None, Some(arg_name_or_values)),
                };
                if map_each is Some && allow_closure is None {
                    r == Err::<(), Error>(Error::MapEachWithoutAllowClosure)
                        && final(self).arguments@ == old(self).arguments@
                } else if !(arg_name_or_values is Str) && values is Some {
                    r == Err::<(), Error>(Error::ExpectedAddJoinedStringFlag)
                        && final(self).arguments@ == old(self).arguments@
                } else if vals is None || vals matches Some(ArgInput::NoneValue) {
                    r is Ok && final(self).arguments@ == old(self).arguments@
                } else if !fmt_ok(format_each) {
                    fmt_error(r, format_each) && final(self).arguments@ == old(self).arguments@
                } else if !fmt_ok(format_joined) {
                    fmt_error(r, format_joined) && final(self).arguments@ == old(self).arguments@
                } else {
                    &&& r is Ok
                    &&& final(self).arguments@.len() == old(self).arguments@.len() + 1
                    &&& final(self).arguments@.drop_last() == old(self).arguments@
                    &&& (final(self).arguments@.last() matches ArgValue::Joined {
                        flag: fl,
                        values: vs,
                        join_with: jw,
                        map_each: me,
                        format_each: fe,
                        format_joined: fj,
                        omit_if_empty: oe,
                        uniquify: u,
                    } && fl == flag && vs == input_values(vals->0) && jw@ == join_with@ && me
                        == map_each && fmt_from(fe, format_each) && fmt_from(fj, format_joined)
                        && oe == omit_if_empty && u == uniquify)
                }
            }),
    {
        if map_each.is_some() && allow_closure.is_none() {
            return Err(Error::MapEachWithoutAllowClosure);
        }
        let (flag, vals) = match arg_name_or_values {
            ArgInput::Str(n) => (Some(n), values),
            other => {
                if values.is_some() {
                    return Err(Error::ExpectedAddJoinedStringFlag);
                }
                (None, Some(other))
            },
        };
        let vs = match vals {
            None => {
                return Ok(());
            },
            Some(ArgInput::NoneValue) => {
                return Ok(());
            },
            Some(ArgInput::Str(_)) => ArgValues::Invalid,
            Some(ArgInput::Values(v)) => v,
        };
        let fe = match parse_fmt(format_each) {
            Ok(f) => f,
            Err(e) => {
                return Err(e);
            },
        };
        let fj = match parse_fmt(format_joined) {
            Ok(f) => f,
            Err(e) => {
                return Err(e);
            },
        };
        self.arguments.push(
            ArgValue::Joined {
                flag,
                values: vs,
                join_with: String::from_str(join_with),
                map_each,
                format_each: fe,
                format_joined: fj,
                omit_if_empty,
                uniquify,
            },
        );
        assert(self.arguments@.drop_last() =~= old(self).arguments@);
        Ok(())
    }
}

/// An element of a command line given as a list: a string, or an `Args`
/// object (by its index in the list of `Args` objects at hand).
#[derive(PartialEq, Eq, Debug)]
pub enum ArgsItem {
    Str(String),
    Args(usize),
}

/// The mathematical value of an [`ArgsItem`].
pub enum ArgsItemV {
    Str(Seq<char>),
    Args(usize),
}

impl View for ArgsItem {
    type V = ArgsItemV;

    open spec fn view(&self) -> ArgsItemV {
        match self {
            ArgsItem::Str(s) => ArgsItemV::Str(s@),
            ArgsItem::Args(h) => ArgsItemV::Args(*h),
        }
    }
}

impl DeepView for ArgsItem {
    type V = ArgsItemV;

    open spec fn deep_view(&self) -> ArgsItemV {
        self@
    }
}

impl Clone for ArgsItem {
    fn clone(&self) -> (r: Self)
        ensures
            r@ == self@,
    {
        match self {
            ArgsItem::Str(s) => ArgsItem::Str(s.clone()),
            ArgsItem::Args(h) => ArgsItem::Args(*h),
        }
    }
}

/// A command line given as a list of strings and `Args` objects.
#[derive(PartialEq, Eq, Debug)]
pub struct ArgsSequence(pub Vec<ArgsItem>);

/// Expands the items in turn onto `cmd`: a string is pushed, an `Args`
/// object is expanded; the first error stops. `mapped[k]` holds the
/// `map_each` outcomes of the `Args` object of item `k`.
pub open spec fn sequence_spec(
    cmd: Seq<Seq<char>>,
    items: Seq<ArgsItem>,
    args: Seq<ArgsGen>,
    nodes: Seq<DepsetGen>,
    mapped: Seq<Vec<Vec<MapOutcome>>>,
) -> Expansion
    decreases items.len(),
{
    if items.len() == 0 {
        Ok(cmd)
    } else {
        match sequence_spec(cmd, items.drop_last(), args, nodes, mapped) {
            Err(e) => Err(e),
            Ok(c) => match items.last() {
                ArgsItem::Str(s) => Ok(c.push(s@)),
                ArgsItem::Args(h) => args_spec(c, args[h as int].arguments@, nodes, mapped[items.len() - 1]@),
            },
        }
    }
}

/// Whether each `Args` item names an object at hand and has outcomes that
/// fit it.
pub open spec fn sequence_fits(
    items: Seq<ArgsItem>,
    args: Seq<ArgsGen>,
    nodes: Seq<DepsetGen>,
    mapped: Seq<Vec<Vec<MapOutcome>>>,
) -> bool {
    &&& mapped.len() == items.len()
    &&& forall|k: int|
        0 <= k < items.len() ==> match #[trigger] items[k] {
            ArgsItem::Str(_) => true,
            ArgsItem::Args(h) => h < args.len() && mapped_fit(args[h as int].arguments@, nodes, mapped[k]@),
        }
}

proof fn lemma_sequence_prefix_err(
    items: Seq<ArgsItem>,
    args: Seq<ArgsGen>,
    nodes: Seq<DepsetGen>,
    mapped: Seq<Vec<Vec<MapOutcome>>>,
    k: int,
)
    requires
        0 <= k <= items.len(),
        sequence_spec(Seq::empty(), items.take(k), args, nodes, mapped) is Err,
    ensures
        sequence_spec(Seq::empty(), items, args, nodes, mapped) == sequence_spec(
            Seq::empty(),
            items.take(k),
            args,
            nodes,
            mapped,
        ),
    decreases items.len() - k,
{
    if k < items.len() {
        assert(items.take(k + 1).drop_last() =~= items.take(k));
        lemma_sequence_prefix_err(items, args, nodes, mapped, k + 1);
    } else {
        assert(items.take(k) =~= items);
    }
}

impl ArgsSequence {
    /// Expands the command line: strings as they are, `Args` objects (from
    /// `args`) expanded in place. `mapped[k]` holds the `map_each` outcomes
    /// of item `k`'s `Args` object.
    pub fn expand(
        &self,
        args: &Vec<ArgsGen>,
        store: &DepsetStore,
        mapped: &Vec<Vec<Vec<MapOutcome>>>,
    ) -> (r: Result<Vec<String>, Error>)
        requires
            store.wf(),
            sequence_fits(self.0@, args@, store.nodes@, mapped@),
        ensures
            match sequence_spec(Seq::empty(), self.0@, args@, store.nodes@, mapped@) {
                Ok(d) => r matches Ok(c) && strs_view(c@) == d,
                Err((_, e)) => r == Err::<Vec<String>, Error>(e),
            },
    {
        let ghost items = self.0@;
        let mut command: Vec<String> = Vec::new();
        let mut k: usize = 0;
        assert(items.take(0) =~= Seq::<ArgsItem>::empty());
        assert(strs_view(command@) =~= Seq::<Seq<char>>::empty());
        while k < self.0.len()
            invariant
                k <= items.len(),
                items == self.0@,
                store.wf(),
                sequence_fits(items, args@, store.nodes@, mapped@),
                sequence_spec(Seq::empty(), items.take(k as int), args@, store.nodes@, mapped@) == Ok::<
                    Seq<Seq<char>>,
                    (Seq<Seq<char>>, Error),
                >(strs_view(command@)),
            decreases items.len() - k,
        {
            assert(items.take(k as int + 1).drop_last() =~= items.take(k as int));
            assert(items.take(k as int + 1).last() == items[k as int]);
            match &self.0[k] {
                ArgsItem::Str(s) => {
                    let ghost before = command@;
                    command.push(s.clone());
                    assert(strs_view(command@) =~= strs_view(before).push(s@));
                },
                ArgsItem::Args(h) => {
                    assert(match items[k as int] {
                        ArgsItem::Str(_) => true,
                        ArgsItem::Args(h) => h < args@.len() && mapped_fit(
                            args@[h as int].arguments@,
                            store.nodes@,
                            mapped@[k as int]@,
                        ),
                    });
                    let res = args[*h].expand_into(&mut command, store, &mapped[k]);
                    match res {
                        Err(e) => {
                            proof {
                                lemma_sequence_prefix_err(items, args@, store.nodes@, mapped@, k as int + 1);
                            }
                            return Err(e);
                        },
                        Ok(()) => {},
                    }
                },
            }
            k = k + 1;
        }
        assert(items.take(items.len() as int) =~= items);
        Ok(command)
    }
}


/// The message of a command line error.
pub open spec fn error_message(e: Error) -> Seq<char> {
    match e {
        Error::IterableRequired => "must be an iterable of strings, depsets, or Args objects"@,
        Error::InvalidArgumentType(t) => "arguments must be strings, depsets, or Args objects, got: "@ + t@,
        Error::NotFormattable => "Not formattable"@,
        Error::ArgumentsMustBeListOrDepset => "arguments must be list or depset"@,
        Error::MapEachInvalidReturn => "map_each must return a list[str], str, or None"@,
        Error::MapEachFailed(m) => m@,
        Error::NoneNotAllowed => "None is not allowed unless mapped by map_each"@,
        Error::InvalidFormatString(f) => "Format string must contain exactly one '%s', got: "@ + f@,
        Error::ExpectedArgsObject => "Expected Args object"@,
        Error::ExpectedAddStringFlag => "Expected first argument of add to be a string flag when value is specified"@,
        Error::ExpectedAddAllStringFlag =>
            "Expected first argument of add_all to be a string flag when values is specified"@,
        Error::ExpectedAddJoinedStringFlag =>
            "Expected first argument of add_joined to be a string flag when values is specified"@,
        Error::MapEachWithoutAllowClosure => "map_each was specified without allow_closure"@,
    }
}

fn message_with(prefix: &str, s: &String) -> (r: String)
    ensures
        r@ == prefix@ + s@,
{
    let mut r = String::from_str(prefix);
    r.append(s.as_str());
    r
}

impl Error {
    /// The error's message.
    pub fn message(&self) -> (r: String)
        ensures
            r@ == error_message(*self),
    {
        match self {
            Error::IterableRequired => String::from_str("must be an iterable of strings, depsets, or Args objects"),
            Error::InvalidArgumentType(t) => message_with(
                "arguments must be strings, depsets, or Args objects, got: ",
                t,
            ),
            Error::NotFormattable => String::from_str("Not formattable"),
            Error::ArgumentsMustBeListOrDepset => String::from_str("arguments must be list or depset"),
            Error::MapEachInvalidReturn => String::from_str("map_each must return a list[str], str, or None"),
            Error::MapEachFailed(m) => m.clone(),
            Error::NoneNotAllowed => String::from_str("None is not allowed unless mapped by map_each"),
            Error::InvalidFormatString(f) => message_with(
                "Format string must contain exactly one '%s', got: ",
                f,
            ),
            Error::ExpectedArgsObject => String::from_str("Expected Args object"),
            Error::ExpectedAddStringFlag => String::from_str(
                "Expected first argument of add to be a string flag when value is specified",
            ),
            Error::ExpectedAddAllStringFlag => String::from_str(
                "Expected first argument of add_all to be a string flag when values is specified",
            ),
            Error::ExpectedAddJoinedStringFlag => String::from_str(
                "Expected first argument of add_joined to be a string flag when values is specified",
            ),
            Error::MapEachWithoutAllowClosure => String::from_str("map_each was specified without allow_closure"),
        }
    }
}


/// `a` is a prefix of `b`.
pub open spec fn prefix_of<T>(a: Seq<T>, b: Seq<T>) -> bool {
    a.len() <= b.len() && b.take(a.len() as int) == a
}

/// The command line an expansion ends with, whether it succeeded or not.
pub open spec fn expanded(e: Expansion) -> Seq<Seq<char>> {
    match e {
        Ok(d) => d,
        Err((d, _)) => d,
    }
}

proof fn lemma_prefix_trans<T>(a: Seq<T>, b: Seq<T>, c: Seq<T>)
    requires
        prefix_of(a, b),
        prefix_of(b, c),
    ensures
        prefix_of(a, c),
{
    assert(c.take(a.len() as int) =~= c.take(b.len() as int).take(a.len() as int));
}

proof fn lemma_prefix_push_opt(d: Seq<Seq<char>>, name: Option<String>)
    ensures
        prefix_of(d, push_opt(d, name)),
{
    match name {
        Some(n) => {
            assert(d.push(n@).take(d.len() as int) =~= d);
        },
        None => {
            assert(d.take(d.len() as int) =~= d);
        },
    }
}

proof fn lemma_prefix_push_arg(d: Seq<Seq<char>>, name: Option<String>, s: Seq<char>, f: Option<Formatter>)
    ensures
        prefix_of(d, push_arg(d, name, s, f)),
{
    let d1 = push_opt(d, name);
    lemma_prefix_push_opt(d, name);
    assert(d1.push(apply_fmt(f, s)).take(d1.len() as int) =~= d1);
    lemma_prefix_trans(d, d1, d1.push(apply_fmt(f, s)));
}

proof fn lemma_prefix_refl<T>(d: Seq<T>)
    ensures
        prefix_of(d, d),
{
    assert(d.take(d.len() as int) =~= d);
}

proof fn lemma_mapped_list_prefix(d: Seq<Seq<char>>, items: Seq<Item>, f: Option<Formatter>, before: Option<String>)
    ensures
        prefix_of(d, expanded(mapped_list_run(d, items, f, before))),
    decreases items.len(),
{
    if items.len() == 0 {
        lemma_prefix_refl(d);
    } else {
        lemma_mapped_list_prefix(d, items.drop_last(), f, before);
        match mapped_list_run(d, items.drop_last(), f, before) {
            Err(_) => {},
            Ok(d1) => match items.last() {
                Item::Str(x) => {
                    lemma_prefix_push_arg(d1, before, x@, f);
                    lemma_prefix_trans(d, d1, push_arg(d1, before, x@, f));
                },
                _ => {},
            },
        }
    }
}

proof fn lemma_elems_prefix(
    d: Seq<Seq<char>>,
    xs: Seq<ItemV>,
    ms: Option<Seq<MapOutcome>>,
    f: Option<Formatter>,
    before: Option<String>,
)
    ensures
        prefix_of(d, expanded(elems_run(d, xs, ms, f, before))),
    decreases xs.len(),
{
    if xs.len() == 0 {
        lemma_prefix_refl(d);
    } else {
        lemma_elems_prefix(d, xs.drop_last(), ms, f, before);
        match elems_run(d, xs.drop_last(), ms, f, before) {
            Err(_) => {},
            Ok(d1) => {
                let x = xs.last();
                match outcome_at(ms, xs.len() - 1) {
                    None => {
                        if !(x is NoneValue) {
                            lemma_prefix_push_arg(d1, before, to_str(x), f);
                            lemma_prefix_trans(d, d1, push_arg(d1, before, to_str(x), f));
                        }
                    },
                    Some(MapOutcome::List(items)) => {
                        lemma_mapped_list_prefix(d1, items@, f, before);
                        lemma_prefix_trans(d, d1, expanded(mapped_list_run(d1, items@, f, before)));
                    },
                    Some(MapOutcome::Str(y)) => {
                        lemma_prefix_push_arg(d1, before, y@, f);
                        lemma_prefix_trans(d, d1, push_arg(d1, before, y@, f));
                    },
                    _ => {},
                }
            },
        }
    }
}

proof fn lemma_arg_prefix(cmd: Seq<Seq<char>>, a: ArgValue, nodes: Seq<DepsetGen>, ms: Seq<MapOutcome>)
    ensures
        prefix_of(cmd, expanded(arg_spec(cmd, a, nodes, ms))),
{
    lemma_prefix_refl(cmd);
    match a {
        ArgValue::Scalar { arg_name, value, format } => match value {
            None => {
                lemma_prefix_push_opt(cmd, arg_name);
            },
            Some(x) => {
                if !(x is NoneValue) {
                    lemma_prefix_push_arg(cmd, arg_name, to_str(x@), format);
                }
            },
        },
        ArgValue::All { flag, values, map_each, format_each, before_each, terminate_with, omit_if_empty, uniquify } => {
            if !uniquify {
                let d1 = push_opt(cmd, flag);
                lemma_prefix_push_opt(cmd, flag);
                match elements_spec(values, nodes) {
                    None => {},
                    Some(xs) => {
                        let r = elems_run(d1, xs, mapped_for(map_each, ms), format_each, before_each);
                        lemma_elems_prefix(d1, xs, mapped_for(map_each, ms), format_each, before_each);
                        lemma_prefix_trans(cmd, d1, expanded(r));
                        match r {
                            Err(_) => {},
                            Ok(d2) => {
                                let want = d2.len() > d1.len() || !omit_if_empty;
                                let d3 = if want {
                                    push_opt(d2, terminate_with)
                                } else {
                                    d2
                                };
                                if want {
                                    lemma_prefix_push_opt(d2, terminate_with);
                                    lemma_prefix_trans(cmd, d2, d3);
                                }
                                if !want && flag is Some {
                                    assert(d2 =~= d1);
                                    assert(d3.drop_last() =~= cmd);
                                }
                            },
                        }
                    },
                }
            } else {
                match elements_spec(values, nodes) {
                    None => {},
                    Some(xs) => {
                        let t1 = push_opt(Seq::empty(), flag);
                        match elems_run(t1, xs, mapped_for(map_each, ms), format_each, before_each) {
                            Err(_) => {},
                            Ok(t2) => {
                                assert((cmd + dedup(t2)).take(cmd.len() as int) =~= cmd);
                            },
                        }
                    },
                }
            }
        },
        ArgValue::Joined { flag, values, join_with, map_each, format_each, format_joined, omit_if_empty, uniquify } => {
            match elements_spec(values, nodes) {
                None => {},
                Some(xs) => {
                    match elems_run(Seq::empty(), xs, mapped_for(map_each, ms), format_each, None) {
                        Err(_) => {},
                        Ok(t2) => {
                            if t2.len() > 0 || !omit_if_empty {
                                let parts = if uniquify {
                                    dedup(t2)
                                } else {
                                    t2
                                };
                                let s = apply_fmt(format_joined, join(parts, join_with@));
                                lemma_prefix_push_arg(cmd, flag, join(parts, join_with@), format_joined);
                            }
                        },
                    }
                },
            }
        },
    }
}

/// Law: expanding arguments keeps the command line as it was and only
/// appends to it, whether the expansion succeeds or stops at an error.
pub proof fn lemma_expansion_appends(
    cmd: Seq<Seq<char>>,
    args: Seq<ArgValue>,
    nodes: Seq<DepsetGen>,
    mapped: Seq<Vec<MapOutcome>>,
)
    ensures
        prefix_of(cmd, expanded(args_spec(cmd, args, nodes, mapped))),
    decreases args.len(),
{
    if args.len() == 0 {
        lemma_prefix_refl(cmd);
    } else {
        lemma_expansion_appends(cmd, args.drop_last(), nodes, mapped);
        match args_spec(cmd, args.drop_last(), nodes, mapped) {
            Err(_) => {},
            Ok(c) => {
                lemma_arg_prefix(c, args.last(), nodes, mapped[args.len() - 1]@);
                lemma_prefix_trans(cmd, c, expanded(arg_spec(c, args.last(), nodes, mapped[args.len() - 1]@)));
            },
        }
    }
}

/// Law: a format string is the text before its placeholder, `%s`, and the
/// text after it, so formatting `%s` itself gives the format string back.
pub proof fn lemma_format_placeholder_roundtrip(fmt: Seq<char>)
    requires
        single_placeholder(fmt) is Some,
    ensures
        ({
            let i = single_placeholder(fmt)->Some_0;
            fmt.take(i) + seq!['%', 's'] + fmt.skip(i + 2) == fmt
        }),
{
    let i = single_placeholder(fmt)->Some_0;
    assert(placeholder_at(fmt, i));
    assert(fmt.take(i) + seq!['%', 's'] + fmt.skip(i + 2) =~= fmt);
}

/// Law: with `uniquify`, the values an `add_all` contributes are distinct.
pub proof fn lemma_uniquify_distinct(t: Seq<Seq<char>>)
    ensures
        crate::seqs::distinct(dedup(t)),
{
    assert(crate::seqs::distinct(Seq::<Seq<char>>::empty()));
    crate::seqs::lemma_dedup_from_distinct(Seq::empty(), t);
}

/// `e` with `d` put in front of the command line it ends with.
pub open spec fn shifted(d: Seq<Seq<char>>, e: Expansion) -> Expansion {
    match e {
        Ok(c) => Ok(d + c),
        Err((c, er)) => Err((d + c, er)),
    }
}

proof fn lemma_shift_push_opt(d: Seq<Seq<char>>, c: Seq<Seq<char>>, name: Option<String>)
    ensures
        push_opt(d + c, name) == d + push_opt(c, name),
{
    match name {
        Some(n) => assert((d + c).push(n@) =~= d + c.push(n@)),
        None => {},
    }
}

proof fn lemma_shift_push_arg(d: Seq<Seq<char>>, c: Seq<Seq<char>>, name: Option<String>, s: Seq<char>, f: Option<Formatter>)
    ensures
        push_arg(d + c, name, s, f) == d + push_arg(c, name, s, f),
{
    lemma_shift_push_opt(d, c, name);
    assert((d + push_opt(c, name)).push(apply_fmt(f, s)) =~= d + push_opt(c, name).push(apply_fmt(f, s)));
}

proof fn lemma_shift_mapped_list(d: Seq<Seq<char>>, c: Seq<Seq<char>>, items: Seq<Item>, f: Option<Formatter>, before: Option<String>)
    ensures
        mapped_list_run(d + c, items, f, before) == shifted(d, mapped_list_run(c, items, f, before)),
    decreases items.len(),
{
    if items.len() > 0 {
        lemma_shift_mapped_list(d, c, items.drop_last(), f, before);
        match mapped_list_run(c, items.drop_last(), f, before) {
            Err(_) => {},
            Ok(k) => match items.last() {
                Item::Str(x) => lemma_shift_push_arg(d, k, before, x@, f),
                _ => {},
            },
        }
    }
}

proof fn lemma_shift_elem_step(d: Seq<Seq<char>>, c: Seq<Seq<char>>, x: ItemV, m: Option<MapOutcome>, f: Option<Formatter>, before: Option<String>)
    ensures
        elem_step(d + c, x, m, f, before) == shifted(d, elem_step(c, x, m, f, before)),
{
    match m {
        None => lemma_shift_push_arg(d, c, before, to_str(x), f),
        Some(MapOutcome::List(items)) => lemma_shift_mapped_list(d, c, items@, f, before),
        Some(MapOutcome::Str(y)) => lemma_shift_push_arg(d, c, before, y@, f),
        _ => {},
    }
}

proof fn lemma_shift_elems(d: Seq<Seq<char>>, c: Seq<Seq<char>>, xs: Seq<ItemV>, ms: Option<Seq<MapOutcome>>, f: Option<Formatter>, before: Option<String>)
    ensures
        elems_run(d + c, xs, ms, f, before) == shifted(d, elems_run(c, xs, ms, f, before)),
    decreases xs.len(),
{
    if xs.len() > 0 {
        lemma_shift_elems(d, c, xs.drop_last(), ms, f, before);
        match elems_run(c, xs.drop_last(), ms, f, before) {
            Err(_) => {},
            Ok(k) => lemma_shift_elem_step(d, k, xs.last(), outcome_at(ms, xs.len() - 1), f, before),
        }
    }
}

/// Expanding one argument onto a command line appends to it what expanding
/// the argument alone gives.
proof fn lemma_shift_arg(d: Seq<Seq<char>>, a: ArgValue, nodes: Seq<DepsetGen>, ms: Seq<MapOutcome>)
    ensures
        arg_spec(d, a, nodes, ms) == shifted(d, arg_spec(Seq::empty(), a, nodes, ms)),
{
    let e = Seq::<Seq<char>>::empty();
    assert(d + e =~= d);
    match a {
        ArgValue::Scalar { arg_name, value, format } => match value {
            None => lemma_shift_push_opt(d, e, arg_name),
            Some(x) => if !(x is NoneValue) {
                lemma_shift_push_arg(d, e, arg_name, to_str(x@), format);
            },
        },
        ArgValue::All { flag, values, map_each, format_each, before_each, terminate_with, omit_if_empty, uniquify } => {
            if !uniquify {
                let c1 = push_opt(e, flag);
                lemma_shift_push_opt(d, e, flag);
                match elements_spec(values, nodes) {
                    None => {},
                    Some(xs) => {
                        let mm = mapped_for(map_each, ms);
                        lemma_shift_elems(d, c1, xs, mm, format_each, before_each);
                        lemma_elems_prefix(c1, xs, mm, format_each, before_each);
                        match elems_run(c1, xs, mm, format_each, before_each) {
                            Err(_) => {},
                            Ok(c2) => {
                                let full = d + c2;
                                let start = (d + c1).len() as int;
                                let want = c2.len() > c1.len() || !omit_if_empty;
                                assert((full.len() > start) == (c2.len() > c1.len()));
                                if want {
                                    lemma_shift_push_opt(d, c2, terminate_with);
                                } else if flag is Some {
                                    assert(c2.len() >= 1);
                                    assert(full.drop_last() =~= d + c2.drop_last());
                                }
                            },
                        }
                    },
                }
            } else {
                match elements_spec(values, nodes) {
                    None => {},
                    Some(xs) => {
                        match elems_run(push_opt(e, flag), xs, mapped_for(map_each, ms), format_each, before_each) {
                            Err(_) => {},
                            Ok(t2) => {
                                assert(e + dedup(t2) =~= dedup(t2));
                            },
                        }
                    },
                }
            }
        },
        ArgValue::Joined { flag, values, join_with, map_each, format_each, format_joined, omit_if_empty, uniquify } => {
            match elements_spec(values, nodes) {
                None => {},
                Some(xs) => match elems_run(e, xs, mapped_for(map_each, ms), format_each, None) {
                    Err(_) => {},
                    Ok(t2) => {
                        let parts = if uniquify { dedup(t2) } else { t2 };
                        let v = apply_fmt(format_joined, join(parts, join_with@));
                        lemma_shift_push_opt(d, e, flag);
                        assert((d + push_opt(e, flag)).push(v) =~= d + push_opt(e, flag).push(v));
                    },
                },
            }
        },
    }
}

/// The command lines of expanding each argument alone (as an `Args` holding
/// only that argument), one after another; `None` where one of them fails.
pub open spec fn each_alone(args: Seq<ArgValue>, nodes: Seq<DepsetGen>, mapped: Seq<Vec<MapOutcome>>) -> Option<
    Seq<Seq<char>>,
>
    decreases args.len(),
{
    if args.len() == 0 {
        Some(Seq::empty())
    } else {
        match each_alone(args.drop_last(), nodes, mapped) {
            None => None,
            Some(c) => match arg_spec(Seq::empty(), args.last(), nodes, mapped[args.len() - 1]@) {
                Ok(x) => Some(c + x),
                Err(_) => None,
            },
        }
    }
}

proof fn lemma_args_shift(cmd: Seq<Seq<char>>, args: Seq<ArgValue>, nodes: Seq<DepsetGen>, mapped: Seq<Vec<MapOutcome>>)
    ensures
        args_spec(cmd, args, nodes, mapped) == shifted(cmd, args_spec(Seq::empty(), args, nodes, mapped)),
        args_spec(Seq::empty(), args, nodes, mapped) is Ok <==> each_alone(args, nodes, mapped) is Some,
        each_alone(args, nodes, mapped) matches Some(c) ==> args_spec(Seq::empty(), args, nodes, mapped) == Ok::<
            Seq<Seq<char>>,
            (Seq<Seq<char>>, Error),
        >(c),
    decreases args.len(),
{
    if args.len() == 0 {
        assert(cmd + Seq::<Seq<char>>::empty() =~= cmd);
    } else {
        let t = args.drop_last();
        let m = mapped[args.len() - 1]@;
        lemma_args_shift(cmd, t, nodes, mapped);
        match args_spec(Seq::empty(), t, nodes, mapped) {
            Err((c, e)) => {},
            Ok(c) => {
                lemma_shift_arg(cmd + c, args.last(), nodes, m);
                lemma_shift_arg(c, args.last(), nodes, m);
                match arg_spec(Seq::empty(), args.last(), nodes, m) {
                    Ok(x) => assert(cmd + c + x =~= cmd + (c + x)),
                    Err((x, e)) => assert(cmd + c + x =~= cmd + (c + x)),
                }
            },
        }
    }
}

/// Law: the arguments expand one after another, in the order they were
/// added: expanding them onto a command line appends to it what expanding
/// them onto an empty one gives, and that succeeds exactly when expanding
/// each argument alone (an `Args` holding only it) succeeds, giving those
/// command lines one after another.
pub proof fn lemma_expansion_concatenates(
    cmd: Seq<Seq<char>>,
    args: Seq<ArgValue>,
    nodes: Seq<DepsetGen>,
    mapped: Seq<Vec<MapOutcome>>,
)
    ensures
        args_spec(cmd, args, nodes, mapped) == shifted(cmd, args_spec(Seq::empty(), args, nodes, mapped)),
        args_spec(Seq::empty(), args, nodes, mapped) is Ok <==> each_alone(args, nodes, mapped) is Some,
        each_alone(args, nodes, mapped) matches Some(c) ==> args_spec(Seq::empty(), args, nodes, mapped) == Ok::<
            Seq<Seq<char>>,
            (Seq<Seq<char>>, Error),
        >(c),
        forall|i: int|
            0 <= i < args.len() ==> args_spec(Seq::empty(), seq![args[i]], nodes, seq![mapped[i]]) == arg_spec(
                Seq::empty(),
                #[trigger] args[i],
                nodes,
                mapped[i]@,
            ),
{
    lemma_args_shift(cmd, args, nodes, mapped);
    assert forall|i: int| 0 <= i < args.len() implies args_spec(Seq::empty(), seq![args[i]], nodes, seq![mapped[i]])
        == arg_spec(Seq::empty(), #[trigger] args[i], nodes, mapped[i]@) by {
        let one = seq![args[i]];
        let ms = seq![mapped[i]];
        assert(one.drop_last() =~= Seq::<ArgValue>::empty());
        assert(one.last() == args[i]);
        assert(ms[0] == mapped[i]);
        assert(args_spec(Seq::empty(), one.drop_last(), nodes, ms) == Ok::<Seq<Seq<char>>, (Seq<Seq<char>>, Error)>(
            Seq::empty(),
        ));
        assert(args_spec(Seq::empty(), one, nodes, ms) == arg_spec(Seq::empty(), one.last(), nodes, ms[0]@));
    }
}

/// Law: `add_all` with a flag and `uniquify` keeps the flag: where some value
/// is shown, the expansion appends the first-occurrence deduplication of the
/// flag followed by the formatted values, so its first string is the flag
/// and `uniquify` only removes repeats; where nothing is shown and
/// `omit_if_empty` is set, it appends nothing; an error of a value leaves the
/// command line as it was.
pub proof fn lemma_uniquify_keeps_flag(
    cmd: Seq<Seq<char>>,
    flag: String,
    values: ArgValues,
    map_each: Option<u64>,
    format_each: Option<Formatter>,
    before_each: Option<String>,
    terminate_with: Option<String>,
    omit_if_empty: bool,
    nodes: Seq<DepsetGen>,
    ms: Seq<MapOutcome>,
)
    ensures
        ({
            let a = ArgValue::All {
                flag: Some(flag),
                values,
                map_each,
                format_each,
                before_each,
                terminate_with,
                omit_if_empty,
                uniquify: true,
            };
            match elements_spec(values, nodes) {
                None => arg_spec(cmd, a, nodes, ms) == Err::<Seq<Seq<char>>, (Seq<Seq<char>>, Error)>(
                    (cmd, Error::ArgumentsMustBeListOrDepset),
                ),
                Some(xs) => match elems_run(Seq::empty(), xs, mapped_for(map_each, ms), format_each, before_each) {
                    Err((_, e)) => arg_spec(cmd, a, nodes, ms) == Err::<Seq<Seq<char>>, (Seq<Seq<char>>, Error)>(
                        (cmd, e),
                    ),
                    Ok(vals) => if vals.len() > 0 || !omit_if_empty {
                        &&& arg_spec(cmd, a, nodes, ms) == Ok::<Seq<Seq<char>>, (Seq<Seq<char>>, Error)>(
                            cmd + dedup(seq![flag@] + vals),
                        )
                        &&& arg_spec(cmd, a, nodes, ms) matches Ok(c) && c.len() > cmd.len() && c[cmd.len() as int]
                            == flag@
                    } else {
                        arg_spec(cmd, a, nodes, ms) == Ok::<Seq<Seq<char>>, (Seq<Seq<char>>, Error)>(cmd)
                    },
                },
            }
        }),
{
    let e = Seq::<Seq<char>>::empty();
    let t1 = push_opt(e, Some(flag));
    assert(t1 =~= seq![flag@]);
    assert(t1 + e =~= t1);
    match elements_spec(values, nodes) {
        None => {},
        Some(xs) => {
            let mm = mapped_for(map_each, ms);
            lemma_shift_elems(t1, e, xs, mm, format_each, before_each);
            match elems_run(e, xs, mm, format_each, before_each) {
                Err((_, er)) => {},
                Ok(vals) => {
                    let t2 = t1 + vals;
                    assert(t2 =~= seq![flag@] + vals);
                    assert(t2.len() > t1.len() <==> vals.len() > 0);
                    if vals.len() > 0 || !omit_if_empty {
                        assert(t2[0] == flag@);
                        assert(t2.drop_first() =~= vals);
                        assert(!e.contains(t2[0]));
                        assert(dedup(t2) == crate::seqs::dedup_from(e.push(t2[0]), t2.drop_first()));
                        assert(e.push(t2[0]) =~= seq![flag@]);
                        crate::seqs::lemma_dedup_from_contents(seq![flag@], vals);
                        let d = dedup(t2);
                        assert(d.take(1) == seq![flag@]);
                        assert(d[0] == d.take(1)[0]);
                        let c = cmd + d;
                        assert(c[cmd.len() as int] == d[0]);
                    }
                },
            }
        },
    }
}

} // verus!
