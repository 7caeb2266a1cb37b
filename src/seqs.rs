//! Lookups and removals on sequences, the shapes the ledger's tables take.

use vstd::prelude::*;

verus! {

/// The index of the last item of `s` that satisfies `p`, or -1 if none does.
pub open spec fn last_match<A>(s: Seq<A>, p: spec_fn(A) -> bool) -> int
    decreases s.len(),
{
    if s.len() == 0 {
        -1
    } else if p(s.last()) {
        s.len() - 1
    } else {
        last_match(s.drop_last(), p)
    }
}

/// The items of `s` that satisfy `p`, in order.
pub open spec fn keep_where<A>(s: Seq<A>, p: spec_fn(A) -> bool) -> Seq<A>
    decreases s.len(),
{
    if s.len() == 0 {
        Seq::empty()
    } else if p(s.last()) {
        keep_where(s.drop_last(), p).push(s.last())
    } else {
        keep_where(s.drop_last(), p)
    }
}

pub proof fn lemma_last_match_take<A>(s: Seq<A>, p: spec_fn(A) -> bool, i: int)
    requires
        0 <= i < s.len(),
    ensures
        last_match(s.take(i + 1), p) == if p(s[i]) {
            i
        } else {
            last_match(s.take(i), p)
        },
{
    assert(s.take(i + 1).drop_last() =~= s.take(i));
}

pub proof fn lemma_keep_where_take<A>(s: Seq<A>, p: spec_fn(A) -> bool, i: int)
    requires
        0 <= i < s.len(),
    ensures
        keep_where(s.take(i + 1), p) == if p(s[i]) {
            keep_where(s.take(i), p).push(s[i])
        } else {
            keep_where(s.take(i), p)
        },
{
    assert(s.take(i + 1).drop_last() =~= s.take(i));
}

/// What `last_match` finds satisfies the test, and when it finds nothing no item does.
pub proof fn lemma_last_match<A>(s: Seq<A>, p: spec_fn(A) -> bool)
    ensures
        -1 <= last_match(s, p) < s.len(),
        last_match(s, p) >= 0 ==> p(s[last_match(s, p)]),
        last_match(s, p) == -1 ==> forall|i: int| 0 <= i < s.len() ==> !p(#[trigger] s[i]),
        forall|i: int| last_match(s, p) < i < s.len() ==> !p(#[trigger] s[i]),
    decreases s.len(),
{
    if s.len() > 0 {
        lemma_last_match(s.drop_last(), p);
        assert forall|i: int| 0 <= i < s.len() - 1 implies s.drop_last()[i] == s[i] by {}
    }
}

/// Every kept item satisfies the test and comes from `s`; every item of `s` that
/// satisfies it is kept.
pub proof fn lemma_keep_where<A>(s: Seq<A>, p: spec_fn(A) -> bool)
    ensures
        keep_where(s, p).len() <= s.len(),
        forall|j: int| 0 <= j < keep_where(s, p).len() ==> p(#[trigger] keep_where(s, p)[j]),
        forall|j: int|
            0 <= j < keep_where(s, p).len() ==> exists|i: int|
                0 <= i < s.len() && s[i] == #[trigger] keep_where(s, p)[j],
        forall|i: int|
            0 <= i < s.len() && p(#[trigger] s[i]) ==> exists|j: int|
                0 <= j < keep_where(s, p).len() && keep_where(s, p)[j] == s[i],
    decreases s.len(),
{
    if s.len() > 0 {
        let t = s.drop_last();
        lemma_keep_where(t, p);
        let k = keep_where(t, p);
        assert forall|j: int| 0 <= j < keep_where(s, p).len() implies exists|i: int|
            0 <= i < s.len() && s[i] == #[trigger] keep_where(s, p)[j] by {
            if j < k.len() {
                let i = choose|i: int| 0 <= i < t.len() && t[i] == k[j];
                assert(s[i] == keep_where(s, p)[j]);
            } else {
                assert(s[s.len() - 1] == keep_where(s, p)[j]);
            }
        }
        assert forall|i: int| 0 <= i < s.len() && p(#[trigger] s[i]) implies exists|j: int|
            0 <= j < keep_where(s, p).len() && keep_where(s, p)[j] == s[i] by {
            if i < s.len() - 1 {
                assert(t[i] == s[i]);
                let j = choose|j: int| 0 <= j < k.len() && k[j] == t[i];
                assert(keep_where(s, p)[j] == s[i]);
            } else {
                assert(keep_where(s, p)[k.len() as int] == s[i]);
            }
        }
    }
}

/// Dropping the one item that fails the test shortens the sequence by one.
pub proof fn lemma_keep_where_one_out<A>(s: Seq<A>, p: spec_fn(A) -> bool, k: int)
    requires
        0 <= k < s.len(),
        !p(s[k]),
        forall|i: int| 0 <= i < s.len() && i != k ==> p(#[trigger] s[i]),
    ensures
        keep_where(s, p).len() == s.len() - 1,
    decreases s.len(),
{
    let t = s.drop_last();
    if k == s.len() - 1 {
        lemma_keep_where_all(t, p);
    } else {
        assert(t[k] == s[k]);
        assert forall|i: int| 0 <= i < t.len() && i != k implies p(#[trigger] t[i]) by {
            assert(t[i] == s[i]);
        }
        lemma_keep_where_one_out(t, p, k);
        assert(p(s[s.len() - 1]));
    }
}

/// When every item passes the test, all are kept.
pub proof fn lemma_keep_where_all<A>(s: Seq<A>, p: spec_fn(A) -> bool)
    requires
        forall|i: int| 0 <= i < s.len() ==> p(#[trigger] s[i]),
    ensures
        keep_where(s, p) == s,
    decreases s.len(),
{
    if s.len() > 0 {
        let t = s.drop_last();
        assert forall|i: int| 0 <= i < t.len() implies p(#[trigger] t[i]) by {
            assert(t[i] == s[i]);
        }
        lemma_keep_where_all(t, p);
        assert(p(s[s.len() - 1]));
        assert(t.push(s.last()) =~= s);
    }
}

/// An index that satisfies the test, with none after it, is the last match.
pub proof fn lemma_last_match_is<A>(s: Seq<A>, p: spec_fn(A) -> bool, k: int)
    requires
        0 <= k < s.len(),
        p(s[k]),
        forall|i: int| k < i < s.len() ==> !p(#[trigger] s[i]),
    ensures
        last_match(s, p) == k,
    decreases s.len(),
{
    if k < s.len() - 1 {
        let t = s.drop_last();
        assert(t[k] == s[k]);
        assert forall|i: int| k < i < t.len() implies !p(#[trigger] t[i]) by {
            assert(t[i] == s[i]);
        }
        assert(!p(s[s.len() - 1]));
        lemma_last_match_is(t, p, k);
    }
}

/// Replacing the last match by another item that passes keeps it the last match.
pub proof fn lemma_last_match_update<A>(s: Seq<A>, p: spec_fn(A) -> bool, x: A)
    requires
        last_match(s, p) >= 0,
        p(x),
    ensures
        last_match(s.update(last_match(s, p), x), p) == last_match(s, p),
{
    let k = last_match(s, p);
    lemma_last_match(s, p);
    let u = s.update(k, x);
    assert forall|i: int| k < i < u.len() implies !p(#[trigger] u[i]) by {
        assert(u[i] == s[i]);
    }
    lemma_last_match_is(u, p, k);
}

/// An item that passes, pushed at the end, is the last match.
pub proof fn lemma_last_match_push<A>(s: Seq<A>, p: spec_fn(A) -> bool, x: A)
    requires
        p(x),
    ensures
        last_match(s.push(x), p) == s.len(),
{
    assert(s.push(x).drop_last() =~= s);
}

} // verus!
