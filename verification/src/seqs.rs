//! Sequence specifications shared by the traversal and expansion code:
//! first-occurrence deduplication and its algebra.
use vstd::prelude::*;

verus! {

/// Appends to `acc`, in order, each element of `s` that is not yet present
/// (in `acc` or earlier in `s`).
pub open spec fn dedup_from<T>(acc: Seq<T>, s: Seq<T>) -> Seq<T>
    decreases s.len(),
{
    if s.len() == 0 {
        acc
    } else {
        let acc2 = if acc.contains(s[0]) { acc } else { acc.push(s[0]) };
        dedup_from(acc2, s.drop_first())
    }
}

/// First-occurrence deduplication of `s`.
pub open spec fn dedup<T>(s: Seq<T>) -> Seq<T> {
    dedup_from(Seq::empty(), s)
}

/// Every element of `s` occurs in `acc`.
pub open spec fn all_in<T>(s: Seq<T>, acc: Seq<T>) -> bool {
    forall|i: int| 0 <= i < s.len() ==> acc.contains(#[trigger] s[i])
}

/// No element occurs twice.
pub open spec fn distinct<T>(s: Seq<T>) -> bool {
    forall|i: int, j: int| 0 <= i < s.len() && 0 <= j < s.len() && i != j ==> s[i] != s[j]
}

/// Appending the elements already present leaves the accumulator unchanged.
pub proof fn lemma_dedup_from_all_in<T>(acc: Seq<T>, s: Seq<T>)
    requires
        all_in(s, acc),
    ensures
        dedup_from(acc, s) == acc,
    decreases s.len(),
{
    if s.len() > 0 {
        assert(acc.contains(s[0]));
        let t = s.drop_first();
        assert forall|i: int| 0 <= i < t.len() implies acc.contains(#[trigger] t[i]) by {
            assert(t[i] == s[i + 1]);
        }
        lemma_dedup_from_all_in(acc, t);
    }
}

/// Deduplicating a concatenation is deduplicating the parts in turn.
pub proof fn lemma_dedup_from_append<T>(acc: Seq<T>, s1: Seq<T>, s2: Seq<T>)
    ensures
        dedup_from(acc, s1 + s2) == dedup_from(dedup_from(acc, s1), s2),
    decreases s1.len(),
{
    if s1.len() == 0 {
        assert(s1 + s2 =~= s2);
    } else {
        let acc2 = if acc.contains(s1[0]) { acc } else { acc.push(s1[0]) };
        assert((s1 + s2).drop_first() =~= s1.drop_first() + s2);
        assert((s1 + s2)[0] == s1[0]);
        lemma_dedup_from_append(acc2, s1.drop_first(), s2);
    }
}

/// Deduplicating one more element.
pub proof fn lemma_dedup_from_push<T>(acc: Seq<T>, s: Seq<T>, x: T)
    ensures
        dedup_from(acc, s.push(x)) == ({
            let d = dedup_from(acc, s);
            if d.contains(x) { d } else { d.push(x) }
        }),
{
    lemma_dedup_from_append(acc, s, seq![x]);
    assert(s.push(x) =~= s + seq![x]);
    let d = dedup_from(acc, s);
    let d2 = if d.contains(x) { d } else { d.push(x) };
    assert(seq![x].drop_first() =~= Seq::<T>::empty());
    assert(seq![x][0] == x);
    assert(dedup_from(d2, seq![x].drop_first()) == d2);
    assert(dedup_from(d, seq![x]) == d2);
}

/// The accumulator is a prefix of the result and the result holds exactly the
/// elements of both inputs.
pub proof fn lemma_dedup_from_contents<T>(acc: Seq<T>, s: Seq<T>)
    ensures
        dedup_from(acc, s).len() >= acc.len(),
        dedup_from(acc, s).take(acc.len() as int) == acc,
        forall|x: T| dedup_from(acc, s).contains(x) <==> (acc.contains(x) || s.contains(x)),
    decreases s.len(),
{
    if s.len() > 0 {
        let acc2 = if acc.contains(s[0]) { acc } else { acc.push(s[0]) };
        let t = s.drop_first();
        lemma_dedup_from_contents(acc2, t);
        let d = dedup_from(acc, s);
        assert(d == dedup_from(acc2, t));
        assert(d.take(acc2.len() as int) == acc2);
        assert(d.take(acc.len() as int) =~= acc2.take(acc.len() as int));
        assert(acc2.take(acc.len() as int) =~= acc);
        assert forall|x: T| d.contains(x) <==> (acc.contains(x) || s.contains(x)) by {
            if !acc.contains(s[0]) {
                assert(acc2[acc.len() as int] == s[0]);
            }
            assert(acc2.contains(s[0]));
            if s.contains(x) && !t.contains(x) {
                let k = choose|k: int| 0 <= k < s.len() && s[k] == x;
                if k > 0 {
                    assert(t[k - 1] == s[k]);
                }
                assert(k == 0);
            }
            if t.contains(x) {
                let k = choose|k: int| 0 <= k < t.len() && t[k] == x;
                assert(s[k + 1] == t[k]);
            }
            if acc2.contains(x) && !acc.contains(x) {
                assert(x == s[0]);
            }
            if acc.contains(x) {
                let k = choose|k: int| 0 <= k < acc.len() && acc[k] == x;
                assert(acc2[k] == x);
            }
        }
    }
}

/// Deduplication keeps a distinct accumulator distinct.
pub proof fn lemma_dedup_from_distinct<T>(acc: Seq<T>, s: Seq<T>)
    requires
        distinct(acc),
    ensures
        distinct(dedup_from(acc, s)),
    decreases s.len(),
{
    if s.len() > 0 {
        let acc2 = if acc.contains(s[0]) { acc } else { acc.push(s[0]) };
        if !acc.contains(s[0]) {
            assert forall|i: int, j: int|
                0 <= i < acc2.len() && 0 <= j < acc2.len() && i != j implies acc2[i] != acc2[j] by {
                if i == acc.len() as int {
                    assert(acc[j] == acc2[j]);
                } else if j == acc.len() as int {
                    assert(acc[i] == acc2[i]);
                }
            }
        }
        lemma_dedup_from_distinct(acc2, s.drop_first());
    }
}

} // verus!
