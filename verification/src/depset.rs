//! Depsets: deduplicated, ordered sets of items that share their transitive
//! parts. Depsets live in a [`DepsetStore`] (the heap) and refer to their
//! transitive children by index; a child always has a smaller index than
//! its parent, so the graph is acyclic.
use vstd::prelude::*;

use crate::seqs::{all_in, dedup, dedup_from, distinct};
use crate::types::{contains_item, items_view, File, Item, ItemV};

verus! {

/// The traversal order of a depset. All orders are deterministic.
#[derive(PartialEq, Eq, Structural, Clone, Copy, Debug)]
pub enum Order {
    /// Traversed as postorder; callers should not rely on it.
    Unspecified,
    /// Direct elements left to right, then transitive children left to right.
    Preorder,
    /// Transitive children left to right, then direct elements left to right.
    Postorder,
    /// Reverse postorder.
    Topological,
}

/// The type of the elements of a depset.
#[derive(PartialEq, Eq, Structural, Clone, Copy, Debug)]
pub enum Kind {
    Empty,
    Unknown,
    File,
}

/// Errors raised while building a depset.
#[derive(PartialEq, Eq, Debug)]
pub enum DepsetError {
    /// A transitive argument does not name a depset of the store.
    NotADepset(usize),
    /// Elements of different kinds were mixed.
    KindMismatch { expected: Kind, got: Kind },
    /// A transitive child has an order that differs from the depset's.
    ConflictingOrders { order: Order, child: Order },
    /// An order name that is not one of `default`, `preorder`, `postorder`,
    /// `topological`.
    InvalidOrder(String),
}

/// The kind of a single element.
pub open spec fn item_kind(x: Item) -> Kind {
    if x is File {
        Kind::File
    } else {
        Kind::Unknown
    }
}

/// One depset node.
pub struct DepsetGen {
    pub order: Order,
    /// Deduplicated on creation.
    pub direct: Vec<Item>,
    /// Indices of the transitive children; each is a non-empty depset.
    pub transitive: Vec<usize>,
    /// The kind of all elements.
    pub kind: Kind,
    /// For a depset of exactly one file: that file.
    pub phony: Option<File>,
}

impl Default for DepsetGen {
    fn default() -> (r: Self)
        ensures
            r.order == Order::Unspecified,
            r.direct@.len() == 0,
            r.transitive@.len() == 0,
            r.kind == Kind::Empty,
            r.phony is None,
    {
        DepsetGen {
            order: Order::Unspecified,
            direct: Vec::new(),
            transitive: Vec::new(),
            kind: Kind::Empty,
            phony: None,
        }
    }
}

/// The heap of depsets.
pub struct DepsetStore {
    pub nodes: Vec<DepsetGen>,
}

impl DepsetGen {
    /// Whether this depset holds no element.
    pub open spec fn spec_is_empty(&self) -> bool {
        self.kind == Kind::Empty
    }

    /// Returns the traversal order of this depset.
    pub fn order(&self) -> (r: Order)
        ensures
            r == self.order,
    {
        self.order
    }

    /// Returns the direct elements of this depset.
    pub fn direct(&self) -> (r: &Vec<Item>)
        ensures
            r == &self.direct,
    {
        &self.direct
    }

    /// Returns the indices of the transitive children of this depset.
    pub fn transitive(&self) -> (r: &Vec<usize>)
        ensures
            r == &self.transitive,
    {
        &self.transitive
    }

    /// Returns the element kind of this depset.
    pub fn kind(&self) -> (r: &Kind)
        ensures
            *r == self.kind,
    {
        &self.kind
    }

    /// Returns the single file of a file depset that holds exactly one
    /// element.
    pub fn phony(&self) -> (r: &Option<File>)
        ensures
            *r == self.phony,
    {
        &self.phony
    }

    /// Returns true if this depset has no elements (its kind is Empty).
    pub fn is_empty(&self) -> (r: bool)
        ensures
            r == self.spec_is_empty(),
    {
        self.kind == Kind::Empty
    }
}

/// The structural invariant of the node at index `i`: its transitive
/// children come before it, so the depset graph is acyclic.
pub open spec fn node_wf(nodes: Seq<DepsetGen>, i: int) -> bool {
    forall|k: int|
        0 <= k < nodes[i].transitive@.len() ==> (#[trigger] nodes[i].transitive@[k] as int) < i
}

/// The kind of a single element view.
pub open spec fn itemv_kind(x: ItemV) -> Kind {
    if x is File {
        Kind::File
    } else {
        Kind::Unknown
    }
}

/// The invariant that every depset built by [`DepsetStore::depset`] has:
/// direct elements are distinct and of the depset's kind, transitive
/// children are non-empty and of the same kind, only a depset without
/// elements has kind `Empty`, and the phony file is set exactly for a depset
/// that is one file.
pub open spec fn node_canonical(nodes: Seq<DepsetGen>, i: int) -> bool {
    let n = nodes[i];
    &&& forall|k: int|
        0 <= k < n.transitive@.len() ==> {
            let t = #[trigger] n.transitive@[k];
            &&& (t as int) < i
            &&& !nodes[t as int].spec_is_empty()
            &&& nodes[t as int].kind == n.kind
        }
    &&& distinct(items_view(n.direct@))
    &&& forall|j: int| 0 <= j < n.direct@.len() ==> item_kind(#[trigger] n.direct@[j]) == n.kind
    &&& (n.kind == Kind::Empty <==> (n.direct@.len() == 0 && n.transitive@.len() == 0))
    &&& (n.phony is Some <==> (n.kind == Kind::File && n.direct@.len() == 1
        && n.transitive@.len() == 0))
    &&& (n.phony matches Some(f) ==> n.direct@[0] == Item::File(f))
}

/// The elements of the depset at `id` in traversal order, before
/// deduplication: preorder puts the direct elements first, the other orders
/// put them last.
pub open spec fn flat(nodes: Seq<DepsetGen>, id: int, pre: bool) -> Seq<ItemV>
    decreases id, 1int, 0int,
{
    if 0 <= id < nodes.len() {
        let n = nodes[id];
        let d = items_view(n.direct@);
        let c = flat_children(nodes, id, n.transitive@.len() as int, pre);
        if pre {
            d + c
        } else {
            c + d
        }
    } else {
        Seq::empty()
    }
}

/// The concatenated traversals of the first `k` transitive children of `id`.
pub open spec fn flat_children(nodes: Seq<DepsetGen>, id: int, k: int, pre: bool) -> Seq<ItemV>
    decreases id, 0int, k,
{
    if k <= 0 || !(0 <= id < nodes.len()) || k > nodes[id].transitive@.len() {
        Seq::empty()
    } else {
        let t = nodes[id].transitive@[k - 1] as int;
        let rest = flat_children(nodes, id, k - 1, pre);
        if t < id {
            rest + flat(nodes, t, pre)
        } else {
            rest
        }
    }
}

/// The elements that `to_list` yields for the depset at `id` traversed in
/// `order`.
pub open spec fn list_spec(nodes: Seq<DepsetGen>, id: int, order: Order) -> Seq<ItemV> {
    match order {
        Order::Preorder => dedup(flat(nodes, id, true)),
        Order::Topological => dedup(flat(nodes, id, false)).reverse(),
        _ => dedup(flat(nodes, id, false)),
    }
}

impl DepsetStore {
    /// The store's well-formedness: every node is well formed.
    pub open spec fn wf(&self) -> bool {
        forall|i: int| 0 <= i < self.nodes@.len() ==> node_wf(self.nodes@, i)
    }

    /// Creates an empty store.
    pub fn new() -> (r: DepsetStore)
        ensures
            r.wf(),
            r.nodes@.len() == 0,
    {
        DepsetStore { nodes: Vec::new() }
    }

    /// The number of depsets in the store.
    pub fn len(&self) -> (r: usize)
        ensures
            r == self.nodes@.len(),
    {
        self.nodes.len()
    }

    /// Returns the depset at `id`.
    pub fn get(&self, id: usize) -> (r: &DepsetGen)
        requires
            id < self.nodes@.len(),
        ensures
            *r == self.nodes@[id as int],
    {
        &self.nodes[id]
    }
}

/// Containment in a sequence carries over to any sequence that holds its
/// elements.
proof fn lemma_all_in_mono(s: Seq<ItemV>, a: Seq<ItemV>, b: Seq<ItemV>)
    requires
        all_in(s, a),
        forall|x: ItemV| a.contains(x) ==> b.contains(x),
    ensures
        all_in(s, b),
{
    assert forall|i: int| 0 <= i < s.len() implies b.contains(#[trigger] s[i]) by {
        assert(a.contains(s[i]));
    }
}

/// After deduplicating `s` into `acc`, the result holds every element of `s`.
proof fn lemma_all_in_dedup(acc: Seq<ItemV>, s: Seq<ItemV>)
    ensures
        all_in(s, dedup_from(acc, s)),
        forall|x: ItemV| acc.contains(x) ==> dedup_from(acc, s).contains(x),
{
    crate::seqs::lemma_dedup_from_contents(acc, s);
    assert forall|i: int| 0 <= i < s.len() implies dedup_from(acc, s).contains(#[trigger] s[i]) by {
        assert(s.contains(s[i]));
    }
}

/// Appends the items of `direct` that are not yet in `out`, in order.
fn push_new_items(direct: &Vec<Item>, out: &mut Vec<Item>)
    ensures
        items_view(final(out)@) == dedup_from(items_view(old(out)@), items_view(direct@)),
{
    let ghost out0 = items_view(out@);
    let ghost d = items_view(direct@);
    let mut j: usize = 0;
    while j < direct.len()
        invariant
            j <= direct@.len(),
            d == items_view(direct@),
            items_view(out@) == dedup_from(out0, d.take(j as int)),
        decreases direct.len() - j,
    {
        proof {
            assert(d.take(j as int + 1) =~= d.take(j as int).push(d[j as int]));
            crate::seqs::lemma_dedup_from_push(out0, d.take(j as int), d[j as int]);
        }
        if !contains_item(out, &direct[j]) {
            let x = direct[j].clone();
            let ghost before = out@;
            out.push(x);
            proof {
                assert(items_view(out@) =~= items_view(before).push(x@));
            }
        }
        j = j + 1;
    }
    assert(d.take(direct@.len() as int) =~= d);
}

impl DepsetStore {
    /// Depth-first traversal of the depset at `id` that appends the
    /// elements not yet in `out`; nodes already marked in `visited` are
    /// skipped, which never changes the result because a visited node other
    /// than an ancestor has been traversed completely.
    fn visit(&self, id: usize, pre: bool, visited: &mut Vec<bool>, out: &mut Vec<Item>)
        requires
            self.wf(),
            id < self.nodes@.len(),
            old(visited)@.len() == self.nodes@.len(),
            old(visited)@[id as int],
            forall|v: int|
                0 <= v < id && #[trigger] old(visited)@[v] ==> all_in(
                    flat(self.nodes@, v, pre),
                    items_view(old(out)@),
                ),
        ensures
            items_view(final(out)@) == dedup_from(
                items_view(old(out)@),
                flat(self.nodes@, id as int, pre),
            ),
            final(visited)@.len() == old(visited)@.len(),
            forall|v: int| 0 <= v < old(visited)@.len() && old(visited)@[v] ==> final(visited)@[v],
            forall|v: int|
                0 <= v < final(visited)@.len() && #[trigger] final(visited)@[v] && !old(visited)@[v]
                    ==> v < id && all_in(flat(self.nodes@, v, pre), items_view(final(out)@)),
        decreases id,
    {
        let ghost nodes = self.nodes@;
        let ghost out0 = items_view(out@);
        let ghost visited0 = visited@;
        let node = &self.nodes[id];
        let ghost d = items_view(node.direct@);
        proof {
            assert(node_wf(nodes, id as int));
        }
        if pre {
            push_new_items(&node.direct, out);
        }
        let ghost out1 = items_view(out@);
        proof {
            lemma_all_in_dedup(out0, d);
            assert forall|v: int| 0 <= v < id && #[trigger] visited@[v] implies all_in(
                flat(nodes, v, pre),
                items_view(out@),
            ) by {
                if pre {
                    lemma_all_in_mono(flat(nodes, v, pre), out0, items_view(out@));
                }
            }
        }
        let mut k: usize = 0;
        while k < node.transitive.len()
            invariant
                self.wf(),
                nodes == self.nodes@,
                *node == nodes[id as int],
                node_wf(nodes, id as int),
                id < nodes.len(),
                k <= node.transitive@.len(),
                visited@.len() == nodes.len(),
                visited0.len() == nodes.len(),
                items_view(out@) == dedup_from(out1, flat_children(nodes, id as int, k as int, pre)),
                forall|v: int| 0 <= v < visited0.len() && visited0[v] ==> visited@[v],
                forall|v: int|
                    0 <= v < id && #[trigger] visited@[v] ==> all_in(
                        flat(nodes, v, pre),
                        items_view(out@),
                    ),
                forall|v: int|
                    0 <= v < visited@.len() && #[trigger] visited@[v] && !visited0[v] ==> v < id,
            decreases node.transitive.len() - k,
        {
            let c = node.transitive[k];
            let ghost outk = items_view(out@);
            let ghost vstart = visited@;
            proof {
                assert((c as int) < (id as int));
                crate::seqs::lemma_dedup_from_append(
                    out1,
                    flat_children(nodes, id as int, k as int, pre),
                    flat(nodes, c as int, pre),
                );
                assert(flat_children(nodes, id as int, k as int + 1, pre) == flat_children(
                    nodes,
                    id as int,
                    k as int,
                    pre,
                ) + flat(nodes, c as int, pre));
            }
            if visited[c] {
                proof {
                    crate::seqs::lemma_dedup_from_all_in(outk, flat(nodes, c as int, pre));
                }
            } else {
                visited.set(c, true);
                let ghost vset = visited@;
                self.visit(c, pre, visited, out);
                proof {
                    lemma_all_in_dedup(outk, flat(nodes, c as int, pre));
                    assert forall|v: int| 0 <= v < id && #[trigger] visited@[v] implies all_in(
                        flat(nodes, v, pre),
                        items_view(out@),
                    ) by {
                        if v == c as int {
                        } else if !vset[v] {
                        } else {
                            assert(vstart[v]);
                            lemma_all_in_mono(flat(nodes, v, pre), outk, items_view(out@));
                        }
                    }
                    assert forall|v: int| 0 <= v < visited0.len() && visited0[v] implies visited@[v] by {
                        assert(vstart[v]);
                        assert(vset[v]);
                    }
                    assert forall|v: int|
                        0 <= v < visited@.len() && #[trigger] visited@[v] && !visited0[v] implies v < id by {
                        if !vset[v] {
                        } else if v != c as int {
                            assert(vstart[v]);
                        }
                    }
                }
            }
            k = k + 1;
        }
        if !pre {
            push_new_items(&node.direct, out);
            proof {
                let oc = dedup_from(out1, flat_children(nodes, id as int, node.transitive@.len() as int, pre));
                crate::seqs::lemma_dedup_from_append(
                    out1,
                    flat_children(nodes, id as int, node.transitive@.len() as int, pre),
                    d,
                );
                lemma_all_in_dedup(oc, d);
                assert forall|v: int| 0 <= v < id && #[trigger] visited@[v] implies all_in(
                    flat(nodes, v, pre),
                    items_view(out@),
                ) by {
                    lemma_all_in_mono(flat(nodes, v, pre), oc, items_view(out@));
                }
            }
        } else {
            proof {
                crate::seqs::lemma_dedup_from_append(
                    out0,
                    d,
                    flat_children(nodes, id as int, node.transitive@.len() as int, pre),
                );
            }
        }
    }

    /// Lists the elements of the depset at `id` in the given order, each
    /// element once, at its first position in that order.
    pub fn iter_ordered(&self, id: usize, order: Order) -> (r: Vec<Item>)
        requires
            self.wf(),
            id < self.nodes@.len(),
        ensures
            items_view(r@) == list_spec(self.nodes@, id as int, order),
    {
        let pre = order == Order::Preorder;
        let mut visited: Vec<bool> = Vec::new();
        let mut i: usize = 0;
        while i < self.nodes.len()
            invariant
                i <= self.nodes@.len(),
                visited@.len() == i,
                forall|v: int| 0 <= v < i ==> visited@[v] == (v == id as int),
            decreases self.nodes.len() - i,
        {
            visited.push(i == id);
            i = i + 1;
        }
        let mut out: Vec<Item> = Vec::new();
        proof {
            assert(items_view(out@) =~= Seq::<ItemV>::empty());
        }
        self.visit(id, pre, &mut visited, &mut out);
        if order == Order::Topological {
            let mut rev: Vec<Item> = Vec::new();
            let mut j: usize = out.len();
            while j > 0
                invariant
                    j <= out@.len(),
                    rev@.len() == out@.len() - j,
                    forall|m: int| 0 <= m < rev@.len() ==> rev@[m] == out@[out@.len() - 1 - m],
                decreases j,
            {
                j = j - 1;
                rev.push(out[j].clone());
            }
            proof {
                assert(items_view(rev@) =~= items_view(out@).reverse());
            }
            rev
        } else {
            out
        }
    }

    /// Lists the elements of the depset at `id` in its own order.
    pub fn to_list(&self, id: usize) -> (r: Vec<Item>)
        requires
            self.wf(),
            id < self.nodes@.len(),
        ensures
            items_view(r@) == list_spec(self.nodes@, id as int, self.nodes@[id as int].order),
    {
        let order = self.nodes[id].order;
        self.iter_ordered(id, order)
    }
}

/// The first index in `ts` that does not name a depset of a store with `len`
/// depsets.
pub open spec fn first_invalid(ts: Seq<usize>, len: int) -> Option<usize>
    decreases ts.len(),
{
    if ts.len() == 0 {
        None
    } else {
        match first_invalid(ts.drop_last(), len) {
            Some(t) => Some(t),
            None => if ts.last() >= len {
                Some(ts.last())
            } else {
                None
            },
        }
    }
}

/// Adds an element kind to the kind seen so far.
pub open spec fn kind_step(cur: Kind, k: Kind) -> Result<Kind, DepsetError> {
    if cur == Kind::Empty {
        Ok(k)
    } else if cur == k {
        Ok(cur)
    } else {
        Err(DepsetError::KindMismatch { expected: cur, got: k })
    }
}

/// The kind of a depset whose direct elements are `s`, or the first mismatch.
pub open spec fn kind_scan(s: Seq<ItemV>) -> Result<Kind, DepsetError>
    decreases s.len(),
{
    if s.len() == 0 {
        Ok(Kind::Empty)
    } else {
        match kind_scan(s.drop_last()) {
            Ok(k) => kind_step(k, itemv_kind(s.last())),
            Err(e) => Err(e),
        }
    }
}

/// Adds one transitive child to the state (kind, order, children kept):
/// empty children are dropped, a child must have the same kind, and a child
/// with a specified order must agree with the order specified so far.
pub open spec fn trans_step(nodes: Seq<DepsetGen>, st: (Kind, Order, Seq<usize>), t: usize) -> Result<
    (Kind, Order, Seq<usize>),
    DepsetError,
> {
    let (k, o, kept) = st;
    let n = nodes[t as int];
    if n.kind == Kind::Empty {
        Ok(st)
    } else if k != Kind::Empty && k != n.kind {
        Err(DepsetError::KindMismatch { expected: k, got: n.kind })
    } else if n.order == Order::Unspecified || n.order == o {
        Ok((n.kind, o, kept.push(t)))
    } else if o == Order::Unspecified {
        Ok((n.kind, n.order, kept.push(t)))
    } else {
        Err(DepsetError::ConflictingOrders { order: o, child: n.order })
    }
}

/// The state after the transitive children `ts`.
pub open spec fn trans_scan(
    nodes: Seq<DepsetGen>,
    st: (Kind, Order, Seq<usize>),
    ts: Seq<usize>,
) -> Result<(Kind, Order, Seq<usize>), DepsetError>
    decreases ts.len(),
{
    if ts.len() == 0 {
        Ok(st)
    } else {
        match trans_scan(nodes, st, ts.drop_last()) {
            Ok(st2) => trans_step(nodes, st2, ts.last()),
            Err(e) => Err(e),
        }
    }
}

/// What building a depset from `direct`, `transitive` and `order` yields:
/// the error, or the kind, order and kept children of the new depset (its
/// direct elements are `dedup(direct)`).
pub open spec fn new_depset_spec(
    nodes: Seq<DepsetGen>,
    direct: Seq<ItemV>,
    transitive: Seq<usize>,
    order: Order,
) -> Result<(Kind, Order, Seq<usize>), DepsetError> {
    match first_invalid(transitive, nodes.len() as int) {
        Some(t) => Err(DepsetError::NotADepset(t)),
        None => match kind_scan(dedup(direct)) {
            Err(e) => Err(e),
            Ok(k) => trans_scan(nodes, (k, order, Seq::empty()), transitive),
        },
    }
}

/// Maps an order to the name that Starlark's `depset(order = ...)` accepts
/// for it.
pub open spec fn order_from_name(s: Seq<char>) -> Option<Order> {
    if s == "default"@ {
        Some(Order::Unspecified)
    } else if s == "preorder"@ {
        Some(Order::Preorder)
    } else if s == "postorder"@ {
        Some(Order::Postorder)
    } else if s == "topological"@ {
        Some(Order::Topological)
    } else {
        None
    }
}

impl Order {
    /// Parses the `order` argument of `depset()`.
    pub fn parse(s: &str) -> (r: Result<Order, DepsetError>)
        ensures
            match order_from_name(s@) {
                Some(o) => r == Ok::<Order, DepsetError>(o),
                None => r matches Err(DepsetError::InvalidOrder(x)) && x@ == s@,
            },
    {
        proof {
            reveal_strlit("default");
            reveal_strlit("preorder");
            reveal_strlit("postorder");
            reveal_strlit("topological");
        }
        let owned = String::from_str(s);
        if owned == String::from_str("default") {
            Ok(Order::Unspecified)
        } else if owned == String::from_str("preorder") {
            Ok(Order::Preorder)
        } else if owned == String::from_str("postorder") {
            Ok(Order::Postorder)
        } else if owned == String::from_str("topological") {
            Ok(Order::Topological)
        } else {
            Err(DepsetError::InvalidOrder(owned))
        }
    }
}

impl DepsetStore {
    /// Builds a new depset from its direct elements, its transitive children
    /// and its order, and returns its index. Duplicate direct elements are
    /// dropped, empty children are dropped, all elements must be of one
    /// kind, and a child's specified order must agree with the depset's
    /// (an unspecified order takes the first specified child order).
    pub fn depset(&mut self, direct: Vec<Item>, transitive: Vec<usize>, order: Order) -> (r: Result<
        usize,
        DepsetError,
    >)
        requires
            old(self).wf(),
        ensures
            final(self).wf(),
            match new_depset_spec(old(self).nodes@, items_view(direct@), transitive@, order) {
                Err(e) => r == Err::<usize, DepsetError>(e) && final(self).nodes@ == old(self).nodes@,
                Ok((k, o, kept)) => {
                    &&& r == Ok::<usize, DepsetError>(old(self).nodes@.len() as usize)
                    &&& final(self).nodes@.len() == old(self).nodes@.len() + 1
                    &&& final(self).nodes@.drop_last() == old(self).nodes@
                    &&& {
                        let n = final(self).nodes@.last();
                        &&& n.order == o
                        &&& n.kind == k
                        &&& items_view(n.direct@) == dedup(items_view(direct@))
                        &&& n.transitive@ == kept
                        &&& (n.phony is Some <==> (k == Kind::File && n.direct@.len() == 1
                            && kept.len() == 0))
                        &&& (n.phony matches Some(f) ==> n.direct@[0] == Item::File(f))
                    }
                    &&& (forall|i: int|
                        0 <= i < old(self).nodes@.len() && node_canonical(old(self).nodes@, i)
                            ==> node_canonical(final(self).nodes@, i))
                    &&& node_canonical(final(self).nodes@, old(self).nodes@.len() as int)
                },
            },
    {
        let ghost nodes = self.nodes@;
        let ghost ts = transitive@;
        let len = self.nodes.len();
        // Every transitive argument must name a depset.
        let mut k: usize = 0;
        while k < transitive.len()
            invariant
                k <= ts.len(),
                ts == transitive@,
                len == nodes.len(),
                self.wf(),
                self.nodes@ == nodes,
                first_invalid(ts.take(k as int), len as int) is None,
                forall|m: int| 0 <= m < k ==> (ts[m] as int) < len,
            decreases transitive.len() - k,
        {
            assert(ts.take(k as int + 1).drop_last() =~= ts.take(k as int));
            if transitive[k] >= len {
                assert(ts.take(k as int + 1).last() == ts[k as int]);
                proof {
                    lemma_first_invalid_prefix(ts, len as int, k as int + 1);
                }
                return Err(DepsetError::NotADepset(transitive[k]));
            }
            k = k + 1;
        }
        assert(ts.take(ts.len() as int) =~= ts);
        // Direct elements, deduplicated.
        let mut dd: Vec<Item> = Vec::new();
        proof {
            assert(items_view(dd@) =~= Seq::<ItemV>::empty());
        }
        push_new_items(&direct, &mut dd);
        let ghost ddv = items_view(dd@);
        assert(ddv == dedup(items_view(direct@)));
        proof {
            crate::seqs::lemma_dedup_from_distinct(Seq::<ItemV>::empty(), items_view(direct@));
        }
        // Their kind.
        let mut kind = Kind::Empty;
        let mut j: usize = 0;
        while j < dd.len()
            invariant
                j <= dd@.len(),
                ddv == items_view(dd@),
                ddv == dedup(items_view(direct@)),
                ts == transitive@,
                self.wf(),
                self.nodes@ == nodes,
                first_invalid(ts, nodes.len() as int) is None,
                kind_scan(ddv.take(j as int)) == Ok::<Kind, DepsetError>(kind),
                kind == Kind::Empty <==> j == 0,
                forall|m: int| 0 <= m < j ==> item_kind(#[trigger] dd@[m]) == kind,
            decreases dd.len() - j,
        {
            assert(ddv.take(j as int + 1).drop_last() =~= ddv.take(j as int));
            assert(ddv.take(j as int + 1).last() == dd@[j as int]@);
            let kj = if dd[j].is_file() {
                Kind::File
            } else {
                Kind::Unknown
            };
            assert(itemv_kind(dd@[j as int]@) == kj);
            if kind == Kind::Empty {
                kind = kj;
            } else if kind != kj {
                proof {
                    assert(itemv_kind(dd@[j as int]@) == kj);
                    assert(kind_scan(ddv.take(j as int + 1)) == Err::<Kind, DepsetError>(
                        DepsetError::KindMismatch { expected: kind, got: kj },
                    ));
                    lemma_kind_scan_prefix(ddv, j as int + 1);
                }
                return Err(DepsetError::KindMismatch { expected: kind, got: kj });
            }
            j = j + 1;
        }
        assert(ddv.take(ddv.len() as int) =~= ddv);
        let ghost kind_direct = kind;
        // Transitive children.
        let mut cur_order = order;
        let mut kept: Vec<usize> = Vec::new();
        let mut k: usize = 0;
        while k < transitive.len()
            invariant
                k <= ts.len(),
                ts == transitive@,
                nodes == self.nodes@,
                self.wf(),
                len == nodes.len(),
                first_invalid(ts, nodes.len() as int) is None,
                kind_scan(dedup(items_view(direct@))) == Ok::<Kind, DepsetError>(kind_direct),
                ddv == items_view(dd@),
                ddv == dedup(items_view(direct@)),
                kind_direct == Kind::Empty <==> dd@.len() == 0,
                forall|m: int| 0 <= m < dd@.len() ==> item_kind(#[trigger] dd@[m]) == kind_direct,
                distinct(ddv),
                forall|m: int| 0 <= m < ts.len() ==> (ts[m] as int) < len,
                trans_scan(nodes, (kind_direct, order, Seq::empty()), ts.take(k as int)) == Ok::<
                    (Kind, Order, Seq<usize>),
                    DepsetError,
                >((kind, cur_order, kept@)),
                kind_direct != Kind::Empty ==> kind == kind_direct,
                kind == Kind::Empty ==> kept@.len() == 0,
                kept@.len() == 0 ==> kind == kind_direct,
                forall|m: int|
                    0 <= m < kept@.len() ==> {
                        let t = #[trigger] kept@[m];
                        &&& (t as int) < len
                        &&& nodes[t as int].kind != Kind::Empty
                        &&& nodes[t as int].kind == kind
                    },
            decreases transitive.len() - k,
        {
            let t = transitive[k];
            assert(ts.take(k as int + 1).drop_last() =~= ts.take(k as int));
            assert(ts.take(k as int + 1).last() == t);
            let child = &self.nodes[t];
            if child.kind == Kind::Empty {
            } else if kind != Kind::Empty && kind != child.kind {
                proof {
                    lemma_trans_scan_prefix(nodes, (kind_direct, order, Seq::empty()), ts, k as int + 1);
                }
                return Err(DepsetError::KindMismatch { expected: kind, got: child.kind });
            } else if child.order == Order::Unspecified || child.order == cur_order {
                kind = child.kind;
                kept.push(t);
            } else if cur_order == Order::Unspecified {
                kind = child.kind;
                cur_order = child.order;
                kept.push(t);
            } else {
                proof {
                    lemma_trans_scan_prefix(nodes, (kind_direct, order, Seq::empty()), ts, k as int + 1);
                }
                return Err(DepsetError::ConflictingOrders { order: cur_order, child: child.order });
            }
            k = k + 1;
        }
        assert(ts.take(ts.len() as int) =~= ts);
        let phony = if kind == Kind::File && dd.len() == 1 && kept.len() == 0 {
            match &dd[0] {
                Item::File(f) => Some(f.clone()),
                _ => None,
            }
        } else {
            None
        };
        let node = DepsetGen { order: cur_order, direct: dd, transitive: kept, kind, phony };
        self.nodes.push(node);
        proof {
            let fin = self.nodes@;
            assert(fin.drop_last() =~= nodes);
            assert forall|i: int| 0 <= i < fin.len() implies node_wf(fin, i) by {
                if i < nodes.len() {
                    assert(fin[i] == nodes[i]);
                    assert(node_wf(nodes, i));
                }
            }
            assert forall|i: int| 0 <= i < nodes.len() && node_canonical(nodes, i) implies node_canonical(fin, i) by {
                assert(fin[i] == nodes[i]);
                let n = nodes[i];
                assert forall|m: int| 0 <= m < n.transitive@.len() implies fin[n.transitive@[m] as int] == nodes[n.transitive@[m] as int] by {
                    let t = n.transitive@[m];
                    assert((t as int) < i);
                }
            }
            assert forall|m: int| 0 <= m < kept@.len() implies fin[kept@[m] as int] == nodes[kept@[m] as int] by {
            }
            if kind == Kind::File && dd@.len() == 1 && kept@.len() == 0 {
                assert(item_kind(dd@[0]) == Kind::File);
            }
            assert(new_depset_spec(nodes, items_view(direct@), ts, order) == Ok::<(Kind, Order, Seq<usize>), DepsetError>((kind, cur_order, kept@)));
            let n = fin.last();
            assert(n.order == cur_order);
            assert(n.kind == kind);
            assert(items_view(n.direct@) == dedup(items_view(direct@)));
            assert(n.transitive@ == kept@);
            assert(n.phony is Some <==> (kind == Kind::File && n.direct@.len() == 1 && kept@.len() == 0));
            assert(node_canonical(fin, nodes.len() as int));
        }
        Ok(len)
    }

    /// Adds an empty depset (unspecified order, kind `Empty`) and returns its
    /// index.
    pub fn new_empty_depset(&mut self) -> (r: usize)
        requires
            old(self).wf(),
        ensures
            final(self).wf(),
            r == old(self).nodes@.len(),
            final(self).nodes@.drop_last() == old(self).nodes@,
            final(self).nodes@.len() == old(self).nodes@.len() + 1,
            ({
                let n = final(self).nodes@.last();
                &&& n.order == Order::Unspecified
                &&& n.direct@.len() == 0
                &&& n.transitive@.len() == 0
                &&& n.kind == Kind::Empty
                &&& n.phony is None
            }),
    {
        let ghost nodes = self.nodes@;
        let len = self.nodes.len();
        self.nodes.push(DepsetGen::default());
        proof {
            let fin = self.nodes@;
            assert(fin.drop_last() =~= nodes);
            assert forall|i: int| 0 <= i < fin.len() implies node_wf(fin, i) by {
                if i < nodes.len() {
                    assert(fin[i] == nodes[i]);
                    assert(node_wf(nodes, i));
                }
            }
        }
        len
    }

    /// Builds a depset of files with unspecified order and no transitive
    /// children; its phony file is set when it holds exactly one file. A
    /// depset of no file is of kind `Empty`, so that it reports itself empty.
    pub fn new_file_depset(&mut self, direct: Vec<File>) -> (r: usize)
        requires
            old(self).wf(),
        ensures
            final(self).wf(),
            r == old(self).nodes@.len(),
            final(self).nodes@.drop_last() == old(self).nodes@,
            final(self).nodes@.len() == old(self).nodes@.len() + 1,
            ({
                let n = final(self).nodes@.last();
                &&& n.order == Order::Unspecified
                &&& n.kind == (if direct@.len() == 0 {
                    Kind::Empty
                } else {
                    Kind::File
                })
                &&& n.transitive@.len() == 0
                &&& n.direct@.len() == direct@.len()
                &&& forall|i: int| 0 <= i < direct@.len() ==> n.direct@[i] == Item::File(#[trigger] direct@[i])
                &&& (n.phony is Some <==> direct@.len() == 1)
                &&& (n.phony matches Some(f) ==> f == direct@[0])
            }),
    {
        let ghost nodes = self.nodes@;
        let mut items: Vec<Item> = Vec::new();
        let mut i: usize = 0;
        while i < direct.len()
            invariant
                i <= direct@.len(),
                items@.len() == i,
                forall|m: int| 0 <= m < i ==> items@[m] == Item::File(#[trigger] direct@[m]),
            decreases direct.len() - i,
        {
            items.push(Item::File(direct[i].clone()));
            i = i + 1;
        }
        let phony = if direct.len() == 1 {
            Some(direct[0].clone())
        } else {
            None
        };
        let kind = if direct.len() == 0 {
            Kind::Empty
        } else {
            Kind::File
        };
        let len = self.nodes.len();
        self.nodes.push(
            DepsetGen {
                order: Order::Unspecified,
                direct: items,
                transitive: Vec::new(),
                kind,
                phony,
            },
        );
        proof {
            let fin = self.nodes@;
            assert(fin.drop_last() =~= nodes);
            assert forall|i: int| 0 <= i < fin.len() implies node_wf(fin, i) by {
                if i < nodes.len() {
                    assert(fin[i] == nodes[i]);
                    assert(node_wf(nodes, i));
                }
            }
        }
        len
    }
}

proof fn lemma_first_invalid_prefix(ts: Seq<usize>, len: int, k: int)
    requires
        0 <= k <= ts.len(),
        first_invalid(ts.take(k), len) is Some,
    ensures
        first_invalid(ts, len) == first_invalid(ts.take(k), len),
    decreases ts.len() - k,
{
    if k < ts.len() {
        assert(ts.take(k + 1).drop_last() =~= ts.take(k));
        lemma_first_invalid_prefix(ts, len, k + 1);
    } else {
        assert(ts.take(k) =~= ts);
    }
}

proof fn lemma_kind_scan_prefix(s: Seq<ItemV>, k: int)
    requires
        0 <= k <= s.len(),
        kind_scan(s.take(k)) is Err,
    ensures
        kind_scan(s) == kind_scan(s.take(k)),
    decreases s.len() - k,
{
    if k < s.len() {
        assert(s.take(k + 1).drop_last() =~= s.take(k));
        lemma_kind_scan_prefix(s, k + 1);
    } else {
        assert(s.take(k) =~= s);
    }
}

proof fn lemma_trans_scan_prefix(
    nodes: Seq<DepsetGen>,
    st: (Kind, Order, Seq<usize>),
    ts: Seq<usize>,
    k: int,
)
    requires
        0 <= k <= ts.len(),
        trans_scan(nodes, st, ts.take(k)) is Err,
    ensures
        trans_scan(nodes, st, ts) == trans_scan(nodes, st, ts.take(k)),
    decreases ts.len() - k,
{
    if k < ts.len() {
        assert(ts.take(k + 1).drop_last() =~= ts.take(k));
        lemma_trans_scan_prefix(nodes, st, ts, k + 1);
    } else {
        assert(ts.take(k) =~= ts);
    }
}

impl Order {
    /// The name of the order, as depset messages print it.
    pub fn name(&self) -> (r: String)
        ensures
            r@ == order_name(*self),
    {
        match self {
            Order::Unspecified => String::from_str("unspecified"),
            Order::Preorder => String::from_str("preorder"),
            Order::Postorder => String::from_str("postorder"),
            Order::Topological => String::from_str("topological"),
        }
    }
}

/// The printed name of an order.
pub open spec fn order_name(o: Order) -> Seq<char> {
    match o {
        Order::Unspecified => "unspecified"@,
        Order::Preorder => "preorder"@,
        Order::Postorder => "postorder"@,
        Order::Topological => "topological"@,
    }
}

/// The printed name of a kind.
pub open spec fn kind_name(k: Kind) -> Seq<char> {
    match k {
        Kind::Empty => "empty"@,
        Kind::Unknown => "unknown"@,
        Kind::File => "File"@,
    }
}

impl Kind {
    /// The name of the kind, as depset messages print it.
    pub fn name(&self) -> (r: String)
        ensures
            r@ == kind_name(*self),
    {
        match self {
            Kind::Empty => String::from_str("empty"),
            Kind::Unknown => String::from_str("unknown"),
            Kind::File => String::from_str("File"),
        }
    }
}

/// The message of a depset error.
pub open spec fn depset_error_message(e: DepsetError) -> Seq<char> {
    match e {
        DepsetError::NotADepset(_) => "Expected value of type `depset`"@,
        DepsetError::KindMismatch { expected, got } => "depset elements must be of the same type, expected "@
            + kind_name(expected) + ", got "@ + kind_name(got),
        DepsetError::ConflictingOrders { order, child } => "conflicting orders: depset has order "@
            + order_name(order) + ", but transitive child has order "@ + order_name(child),
        DepsetError::InvalidOrder(s) => "Invalid depset order: "@ + s@,
    }
}

impl DepsetError {
    /// The error's message.
    pub fn message(&self) -> (r: String)
        ensures
            r@ == depset_error_message(*self),
    {
        match self {
            DepsetError::NotADepset(_) => String::from_str("Expected value of type `depset`"),
            DepsetError::KindMismatch { expected, got } => {
                let mut m = String::from_str("depset elements must be of the same type, expected ");
                m.append(expected.name().as_str());
                m.append(", got ");
                m.append(got.name().as_str());
                m
            },
            DepsetError::ConflictingOrders { order, child } => {
                let mut m = String::from_str("conflicting orders: depset has order ");
                m.append(order.name().as_str());
                m.append(", but transitive child has order ");
                m.append(child.name().as_str());
                m
            },
            DepsetError::InvalidOrder(s) => {
                let mut m = String::from_str("Invalid depset order: ");
                m.append(s.as_str());
                m
            },
        }
    }
}

/// The printed form of any depset: its elements are never flattened for
/// printing.
pub fn depset_repr() -> (r: String)
    ensures
        r@ == "depset(...)"@,
{
    String::from_str("depset(...)")
}

/// Law: a depset lists each element at most once, whatever the order.
pub proof fn lemma_list_distinct(nodes: Seq<DepsetGen>, id: int, order: Order)
    ensures
        distinct(list_spec(nodes, id, order)),
{
    crate::seqs::lemma_dedup_from_distinct(Seq::<ItemV>::empty(), flat(nodes, id, true));
    crate::seqs::lemma_dedup_from_distinct(Seq::<ItemV>::empty(), flat(nodes, id, false));
    if order == Order::Topological {
        let d = dedup(flat(nodes, id, false));
        let r = d.reverse();
        assert forall|i: int, j: int| 0 <= i < r.len() && 0 <= j < r.len() && i != j implies r[i] != r[j] by {
            assert(r[i] == d[d.len() - 1 - i]);
            assert(r[j] == d[d.len() - 1 - j]);
        }
    }
}

/// The two traversal shapes visit the same elements.
proof fn lemma_flat_same_contents(nodes: Seq<DepsetGen>, id: int)
    ensures
        forall|x: ItemV| flat(nodes, id, true).contains(x) <==> flat(nodes, id, false).contains(x),
    decreases id, 1int, 0int,
{
    if 0 <= id < nodes.len() {
        let k = nodes[id].transitive@.len() as int;
        lemma_flat_children_same_contents(nodes, id, k);
        let d = items_view(nodes[id].direct@);
        let c1 = flat_children(nodes, id, k, true);
        let c2 = flat_children(nodes, id, k, false);
        assert forall|x: ItemV| (d + c1).contains(x) <==> (c2 + d).contains(x) by {
            lemma_concat_contains(d, c1, x);
            lemma_concat_contains(c2, d, x);
        }
    }
}

proof fn lemma_flat_children_same_contents(nodes: Seq<DepsetGen>, id: int, k: int)
    ensures
        forall|x: ItemV|
            flat_children(nodes, id, k, true).contains(x) <==> flat_children(nodes, id, k, false).contains(x),
    decreases id, 0int, k,
{
    if k <= 0 || !(0 <= id < nodes.len()) || k > nodes[id].transitive@.len() {
    } else {
        let t = nodes[id].transitive@[k - 1] as int;
        lemma_flat_children_same_contents(nodes, id, k - 1);
        if t >= id {
            assert(flat_children(nodes, id, k, true) == flat_children(nodes, id, k - 1, true));
            assert(flat_children(nodes, id, k, false) == flat_children(nodes, id, k - 1, false));
        } else {
            lemma_flat_same_contents(nodes, t);
            assert forall|x: ItemV|
                flat_children(nodes, id, k, true).contains(x) <==> flat_children(nodes, id, k, false).contains(x) by {
                lemma_concat_contains(flat_children(nodes, id, k - 1, true), flat(nodes, t, true), x);
                lemma_concat_contains(flat_children(nodes, id, k - 1, false), flat(nodes, t, false), x);
            }
        }
    }
}

proof fn lemma_concat_contains<T>(a: Seq<T>, b: Seq<T>, x: T)
    ensures
        (a + b).contains(x) <==> (a.contains(x) || b.contains(x)),
{
    if a.contains(x) {
        let i = choose|i: int| 0 <= i < a.len() && a[i] == x;
        assert((a + b)[i] == x);
    }
    if b.contains(x) {
        let i = choose|i: int| 0 <= i < b.len() && b[i] == x;
        assert((a + b)[a.len() + i] == x);
    }
    if (a + b).contains(x) {
        let i = choose|i: int| 0 <= i < (a + b).len() && (a + b)[i] == x;
        if i < a.len() {
            assert(a[i] == x);
        } else {
            assert(b[i - a.len()] == x);
        }
    }
}

/// Law: every order lists the same elements, namely those of the direct
/// parts of the depset and of the depsets it reaches.
pub proof fn lemma_orders_same_elements(nodes: Seq<DepsetGen>, id: int, o1: Order, o2: Order)
    ensures
        forall|x: ItemV| list_spec(nodes, id, o1).contains(x) <==> list_spec(nodes, id, o2).contains(x),
        forall|x: ItemV| list_spec(nodes, id, o1).contains(x) <==> flat(nodes, id, false).contains(x),
{
    lemma_list_contents(nodes, id, o1);
    lemma_list_contents(nodes, id, o2);
}

proof fn lemma_list_contents(nodes: Seq<DepsetGen>, id: int, o: Order)
    ensures
        forall|x: ItemV| list_spec(nodes, id, o).contains(x) <==> flat(nodes, id, false).contains(x),
{
    lemma_flat_same_contents(nodes, id);
    crate::seqs::lemma_dedup_from_contents(Seq::<ItemV>::empty(), flat(nodes, id, true));
    crate::seqs::lemma_dedup_from_contents(Seq::<ItemV>::empty(), flat(nodes, id, false));
    let d = dedup(flat(nodes, id, false));
    assert forall|x: ItemV| d.reverse().contains(x) <==> d.contains(x) by {
        if d.contains(x) {
            let i = choose|i: int| 0 <= i < d.len() && d[i] == x;
            assert(d.reverse()[d.len() - 1 - i] == x);
        }
        if d.reverse().contains(x) {
            let i = choose|i: int| 0 <= i < d.len() && d.reverse()[i] == x;
            assert(d[d.len() - 1 - i] == x);
        }
    }
    assert forall|x: ItemV| list_spec(nodes, id, o).contains(x) <==> flat(nodes, id, false).contains(x) by {
        assert(!Seq::<ItemV>::empty().contains(x));
        match o {
            Order::Preorder => {},
            Order::Topological => {},
            _ => {},
        }
    }
}

/// Law: topological order is the reverse of postorder, and the unspecified
/// order traverses as postorder.
pub proof fn lemma_topological_is_reverse_postorder(nodes: Seq<DepsetGen>, id: int)
    ensures
        list_spec(nodes, id, Order::Topological) == list_spec(nodes, id, Order::Postorder).reverse(),
        list_spec(nodes, id, Order::Unspecified) == list_spec(nodes, id, Order::Postorder),
{
}

/// Law: preorder lists the depset's own direct elements first, in order.
pub proof fn lemma_preorder_direct_first(nodes: Seq<DepsetGen>, id: int)
    requires
        0 <= id < nodes.len(),
    ensures
        ({
            let d = dedup(items_view(nodes[id].direct@));
            let l = list_spec(nodes, id, Order::Preorder);
            d.len() <= l.len() && l.take(d.len() as int) == d
        }),
{
    let d = items_view(nodes[id].direct@);
    let c = flat_children(nodes, id, nodes[id].transitive@.len() as int, true);
    crate::seqs::lemma_dedup_from_append(Seq::<ItemV>::empty(), d, c);
    crate::seqs::lemma_dedup_from_contents(dedup(d), c);
}

/// Every depset of the store was built by [`DepsetStore::depset`].
pub open spec fn all_canonical(nodes: Seq<DepsetGen>) -> bool {
    forall|i: int| 0 <= i < nodes.len() ==> #[trigger] node_canonical(nodes, i)
}

proof fn lemma_canonical_flat(nodes: Seq<DepsetGen>, id: int, pre: bool)
    requires
        all_canonical(nodes),
        0 <= id < nodes.len(),
    ensures
        nodes[id].spec_is_empty() <==> flat(nodes, id, pre).len() == 0,
        forall|j: int| 0 <= j < flat(nodes, id, pre).len() ==> itemv_kind(#[trigger] flat(nodes, id, pre)[j]) == nodes[id].kind,
    decreases id, 1int, 0int,
{
    assert(node_canonical(nodes, id));
    let n = nodes[id];
    let k = n.transitive@.len() as int;
    lemma_canonical_flat_children(nodes, id, k, pre);
    let d = items_view(n.direct@);
    let c = flat_children(nodes, id, k, pre);
    assert forall|j: int| 0 <= j < d.len() implies itemv_kind(#[trigger] d[j]) == n.kind by {
        assert(item_kind(n.direct@[j]) == n.kind);
    }
    let f = flat(nodes, id, pre);
    assert forall|j: int| 0 <= j < f.len() implies itemv_kind(#[trigger] f[j]) == n.kind by {
        if pre {
            if j < d.len() {
                assert(f[j] == d[j]);
            } else {
                assert(f[j] == c[j - d.len()]);
            }
        } else {
            if j < c.len() {
                assert(f[j] == c[j]);
            } else {
                assert(f[j] == d[j - c.len()]);
            }
        }
    }
}

proof fn lemma_canonical_flat_children(nodes: Seq<DepsetGen>, id: int, k: int, pre: bool)
    requires
        all_canonical(nodes),
        0 <= id < nodes.len(),
        0 <= k <= nodes[id].transitive@.len(),
    ensures
        k > 0 ==> flat_children(nodes, id, k, pre).len() > 0,
        forall|j: int|
            0 <= j < flat_children(nodes, id, k, pre).len() ==> itemv_kind(
                #[trigger] flat_children(nodes, id, k, pre)[j],
            ) == nodes[id].kind,
    decreases id, 0int, k,
{
    if k > 0 {
        assert(node_canonical(nodes, id));
        let t = nodes[id].transitive@[k - 1] as int;
        assert(t < id);
        lemma_canonical_flat_children(nodes, id, k - 1, pre);
        lemma_canonical_flat(nodes, t, pre);
        let r = flat_children(nodes, id, k - 1, pre);
        let ft = flat(nodes, t, pre);
        let all = flat_children(nodes, id, k, pre);
        assert(all == r + ft);
        assert forall|j: int| 0 <= j < all.len() implies itemv_kind(#[trigger] all[j]) == nodes[id].kind by {
            if j < r.len() {
                assert(all[j] == r[j]);
            } else {
                assert(all[j] == ft[j - r.len()]);
            }
        }
    }
}

/// Law: a depset built by the constructor is falsy exactly when it lists no
/// element, in any order.
pub proof fn lemma_empty_iff_no_elements(nodes: Seq<DepsetGen>, id: int, order: Order)
    requires
        all_canonical(nodes),
        0 <= id < nodes.len(),
    ensures
        nodes[id].spec_is_empty() <==> list_spec(nodes, id, order).len() == 0,
{
    lemma_canonical_flat(nodes, id, false);
    lemma_list_contents(nodes, id, order);
    let l = list_spec(nodes, id, order);
    let f = flat(nodes, id, false);
    if f.len() > 0 {
        assert(f.contains(f[0]));
        assert(l.contains(f[0]));
    }
    if l.len() > 0 {
        assert(l.contains(l[0]));
    }
}

/// Law: every element that a depset of kind `File` lists is a file, and a
/// depset of kind `Unknown` lists no file.
pub proof fn lemma_kind_of_elements(nodes: Seq<DepsetGen>, id: int, order: Order)
    requires
        all_canonical(nodes),
        0 <= id < nodes.len(),
    ensures
        forall|x: ItemV| #[trigger] list_spec(nodes, id, order).contains(x) ==> itemv_kind(x) == nodes[id].kind,
{
    lemma_canonical_flat(nodes, id, false);
    lemma_list_contents(nodes, id, order);
    assert forall|x: ItemV| #[trigger] list_spec(nodes, id, order).contains(x) implies itemv_kind(x) == nodes[id].kind by {
        let f = flat(nodes, id, false);
        assert(f.contains(x));
        let j = choose|j: int| 0 <= j < f.len() && f[j] == x;
        assert(itemv_kind(f[j]) == nodes[id].kind);
    }
}

/// Law: building a depset keeps every depset of a constructor-built store
/// constructor-built.
pub proof fn lemma_depset_keeps_canonical(old_nodes: Seq<DepsetGen>, new_nodes: Seq<DepsetGen>)
    requires
        all_canonical(old_nodes),
        new_nodes.len() == old_nodes.len() + 1,
        forall|i: int| 0 <= i < old_nodes.len() && node_canonical(old_nodes, i) ==> node_canonical(new_nodes, i),
        node_canonical(new_nodes, old_nodes.len() as int),
    ensures
        all_canonical(new_nodes),
{
    assert forall|i: int| 0 <= i < new_nodes.len() implies #[trigger] node_canonical(new_nodes, i) by {
        if i < old_nodes.len() {
            assert(node_canonical(old_nodes, i));
        }
    }
}

/// Whether the child `t` has elements and a specified order.
pub open spec fn ordered_child(nodes: Seq<DepsetGen>, t: usize) -> bool {
    nodes[t as int].kind != Kind::Empty && nodes[t as int].order != Order::Unspecified
}

proof fn lemma_trans_scan_order(nodes: Seq<DepsetGen>, k0: Kind, order: Order, ts: Seq<usize>)
    requires
        trans_scan(nodes, (k0, order, Seq::empty()), ts) is Ok,
    ensures
        ({
            let o = trans_scan(nodes, (k0, order, Seq::empty()), ts)->Ok_0.1;
            &&& order != Order::Unspecified ==> o == order
            &&& forall|i: int| 0 <= i < ts.len() && #[trigger] ordered_child(nodes, ts[i]) ==> nodes[ts[i] as int].order == o
            &&& o != Order::Unspecified ==> (o == order || exists|i: int| 0 <= i < ts.len() && #[trigger] ordered_child(nodes, ts[i]))
        }),
    decreases ts.len(),
{
    if ts.len() > 0 {
        let pre = ts.drop_last();
        assert(trans_scan(nodes, (k0, order, Seq::empty()), pre) is Ok);
        lemma_trans_scan_order(nodes, k0, order, pre);
        let st2 = trans_scan(nodes, (k0, order, Seq::empty()), pre)->Ok_0;
        let o = trans_scan(nodes, (k0, order, Seq::empty()), ts)->Ok_0.1;
        assert forall|i: int| 0 <= i < ts.len() && #[trigger] ordered_child(nodes, ts[i]) implies nodes[ts[i] as int].order == o by {
            if i < pre.len() {
                assert(pre[i] == ts[i]);
                assert(ordered_child(nodes, pre[i]));
            }
        }
        if o != Order::Unspecified && o != order {
            if st2.1 != Order::Unspecified {
                let j = choose|j: int| 0 <= j < pre.len() && #[trigger] ordered_child(nodes, pre[j]);
                assert(pre[j] == ts[j]);
            } else {
                assert(ordered_child(nodes, ts[ts.len() - 1]));
            }
        }
    }
}

/// Law: the order of a new depset is the one it is given; a depset given no
/// order (`default`) takes the order of its children that have elements and
/// an order, so that it lists its elements in that order, and stays without
/// order where none of them has one. Every such child agrees with the order
/// of the new depset.
pub proof fn lemma_depset_order(nodes: Seq<DepsetGen>, direct: Seq<ItemV>, ts: Seq<usize>, order: Order)
    requires
        new_depset_spec(nodes, direct, ts, order) is Ok,
    ensures
        ({
            let o = new_depset_spec(nodes, direct, ts, order)->Ok_0.1;
            &&& order != Order::Unspecified ==> o == order
            &&& forall|i: int| 0 <= i < ts.len() && #[trigger] ordered_child(nodes, ts[i]) ==> nodes[ts[i] as int].order == o
            &&& order == Order::Unspecified ==> (o != Order::Unspecified <==> exists|i: int|
                0 <= i < ts.len() && #[trigger] ordered_child(nodes, ts[i]))
        }),
{
    let k = kind_scan(dedup(direct))->Ok_0;
    lemma_trans_scan_order(nodes, k, order, ts);
    let o = new_depset_spec(nodes, direct, ts, order)->Ok_0.1;
    if order == Order::Unspecified && o == Order::Unspecified {
        assert forall|i: int| 0 <= i < ts.len() implies !#[trigger] ordered_child(nodes, ts[i]) by {
            if ordered_child(nodes, ts[i]) {
                assert(nodes[ts[i] as int].order == o);
            }
        }
    }
}

} // verus!
