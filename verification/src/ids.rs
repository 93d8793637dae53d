//! Sets of component IDs, listed in ascending order.

use std::collections::{BTreeMap, BTreeSet};

use vstd::prelude::*;

verus! {

broadcast use vstd::std_specs::btree::group_btree_axioms;

/// Whether every element is greater than the ones before it.
pub open spec fn ascending(s: Seq<u64>) -> bool {
    forall|i: int, j: int| 0 <= i < j < s.len() ==> s[i] < s[j]
}

/// The elements of a finite set of IDs, in ascending order.
pub open spec fn in_order(s: Set<u64>) -> Seq<u64> {
    choose|q: Seq<u64>| ascending(q) && q.to_set() == s
}

/// An ascending sequence is the listing of the set of its elements: no other
/// ascending sequence has the same elements.
pub proof fn lemma_in_order(q: Seq<u64>)
    requires
        ascending(q),
    ensures
        in_order(q.to_set()) == q,
{
    let r = in_order(q.to_set());
    assert(ascending(r) && r.to_set() == q.to_set());
    lemma_ascending_unique(q, r);
}

/// Every finite set of IDs has a listing in ascending order.
pub proof fn lemma_has_order(s: Set<u64>)
    requires
        s.finite(),
    ensures
        ascending(in_order(s)),
        in_order(s).to_set() == s,
{
    let q = lemma_listing(s);
    assert(ascending(q) && q.to_set() == s);
}

/// An ascending listing of the set.
proof fn lemma_listing(s: Set<u64>) -> (q: Seq<u64>)
    requires
        s.finite(),
    ensures
        ascending(q),
        q.to_set() == s,
    decreases s.len(),
{
    if s.is_empty() {
        assert(Seq::<u64>::empty().to_set() =~= s);
        Seq::empty()
    } else {
        let most = lemma_greatest(s);
        let q = lemma_listing(s.remove(most));
        let r = q.push(most);
        assert forall|i: int, j: int| 0 <= i < j < r.len() implies r[i] < r[j] by {
            if j == r.len() - 1 {
                assert(q.to_set().contains(q[i]));
                assert(s.remove(most).contains(q[i]));
            }
        }
        assert forall|x: u64| r.to_set().contains(x) <==> s.contains(x) by {
            if r.to_set().contains(x) {
                let k = choose|k: int| 0 <= k < r.len() && r[k] == x;
                if k < q.len() {
                    assert(q.to_set().contains(q[k]));
                    assert(s.remove(most).contains(x));
                }
            }
            if s.contains(x) {
                if x == most {
                    assert(r[r.len() - 1] == x);
                } else {
                    assert(q.to_set().contains(x));
                    let k = choose|k: int| 0 <= k < q.len() && q[k] == x;
                    assert(r[k] == x);
                }
            }
        }
        assert(r.to_set() =~= s);
        r
    }
}

/// The greatest ID of the set.
proof fn lemma_greatest(s: Set<u64>) -> (most: u64)
    requires
        s.finite(),
        !s.is_empty(),
    ensures
        s.contains(most),
        forall|x: u64| s.contains(x) ==> x <= most,
    decreases s.len(),
{
    let one = choose|x: u64| s.contains(x);
    let rest = s.remove(one);
    if rest.is_empty() {
        assert forall|x: u64| s.contains(x) implies x <= one by {
            if x != one {
                assert(rest.contains(x));
            }
        }
        one
    } else {
        let other = lemma_greatest(rest);
        let most = if one < other {
            other
        } else {
            one
        };
        assert forall|x: u64| s.contains(x) implies x <= most by {
            if x != one {
                assert(rest.contains(x));
            }
        }
        most
    }
}

proof fn lemma_ascending_unique(a: Seq<u64>, b: Seq<u64>)
    requires
        ascending(a),
        ascending(b),
        a.to_set() == b.to_set(),
    ensures
        a == b,
    decreases a.len(),
{
    if a.len() == 0 {
        if b.len() > 0 {
            assert(b.to_set().contains(b[0]));
            assert(a.to_set().contains(b[0]));
        }
        assert(a =~= b);
    } else {
        assert(a.to_set().contains(a.last()));
        assert(b.to_set().contains(a.last()));
        let i = choose|i: int| 0 <= i < b.len() && b[i] == a.last();
        assert(b.to_set().contains(b.last()));
        assert(a.to_set().contains(b.last()));
        let j = choose|j: int| 0 <= j < a.len() && a[j] == b.last();
        assert(a.last() == b.last());
        let a1 = a.drop_last();
        let b1 = b.drop_last();
        assert forall|x: u64| a1.to_set().contains(x) <==> b1.to_set().contains(x) by {
            if a1.to_set().contains(x) {
                let k = choose|k: int| 0 <= k < a1.len() && a1[k] == x;
                assert(a[k] == x);
                assert(a.to_set().contains(x));
                assert(b.to_set().contains(x));
                let m = choose|m: int| 0 <= m < b.len() && b[m] == x;
                assert(b1[m] == x);
            }
            if b1.to_set().contains(x) {
                let k = choose|k: int| 0 <= k < b1.len() && b1[k] == x;
                assert(b[k] == x);
                assert(b.to_set().contains(x));
                assert(a.to_set().contains(x));
                let m = choose|m: int| 0 <= m < a.len() && a[m] == x;
                assert(a1[m] == x);
            }
        }
        assert(a1.to_set() =~= b1.to_set());
        lemma_ascending_unique(a1, b1);
        assert(a =~= a1.push(a.last()));
        assert(b =~= b1.push(b.last()));
    }
}

/// Puts `id` in its place among `ids`.
fn place(ids: &mut Vec<u64>, id: u64)
    requires
        ascending(old(ids)@),
        !old(ids)@.contains(id),
    ensures
        ascending(final(ids)@),
        final(ids)@.to_set() == old(ids)@.to_set().insert(id),
{
    let mut at: usize = ids.len();
    while at > 0 && ids[at - 1] > id
        invariant
            at <= ids.len(),
            ascending(ids@),
            forall|k: int| at <= k < ids.len() ==> ids[k] > id,
        decreases at,
    {
        at = at - 1;
    }
    let ghost before = ids@;
    proof {
        if at > 0 {
            assert(before.contains(before[at - 1]));
        }
    }
    ids.insert(at, id);
    proof {
        assert forall|x: u64| ids@.to_set().contains(x) <==> before.to_set().insert(id).contains(x) by {
            if before.contains(x) {
                let k = choose|k: int| 0 <= k < before.len() && before[k] == x;
                if k < at {
                    assert(ids@[k] == x);
                } else {
                    assert(ids@[k + 1] == x);
                }
            }
            if ids@.contains(x) {
                let k = choose|k: int| 0 <= k < ids@.len() && ids@[k] == x;
                if k < at {
                    assert(before[k] == x);
                } else if k > at {
                    assert(before[k - 1] == x);
                }
            }
            assert(ids@[at as int] == id);
        }
        assert(ids@.to_set() =~= before.to_set().insert(id));
    }
}

/// The IDs of `set`, in ascending order.
pub fn sorted(set: &BTreeSet<u64>) -> (ids: Vec<u64>)
    ensures
        ids@ == in_order(set@),
        ascending(ids@),
        ids@.to_set() == set@,
{
    let mut ids: Vec<u64> = Vec::new();
    assert(ids@.to_set() =~= Set::<u64>::empty());
    for id in it: set.iter()
        invariant
            ascending(ids@),
            ids@.to_set() == it.seq().unref().take(it.index()).to_set(),
            it.seq().unref().to_set() == set@,
            it.seq().no_duplicates(),
            it.index() == it.seq().len() ==> ids@.to_set() == set@,
    {
        let ghost all = it.seq().unref();
        let ghost n = it.index();
        proof {
            assert(all[n] == *id);
            if ids@.contains(*id) {
                assert(ids@.to_set().contains(*id));
                let k = choose|k: int| 0 <= k < n && all.take(n)[k] == *id;
                assert(it.seq()[k] == it.seq()[n]);
            }
        }
        place(&mut ids, *id);
        proof {
            lemma_one_more(all, n);
            assert(all.take(all.len() as int) =~= all);
        }
    }
    proof {
        lemma_in_order(ids@);
    }
    ids
}

/// The IDs that `map` has values for, in ascending order.
pub fn keys_of<V>(map: &BTreeMap<u64, V>) -> (ids: Vec<u64>)
    ensures
        ids@ == in_order(map@.dom()),
        ascending(ids@),
        ids@.to_set() == map@.dom(),
{
    let mut ids: Vec<u64> = Vec::new();
    assert(ids@.to_set() =~= Set::<u64>::empty());
    for id in it: map.keys()
        invariant
            ascending(ids@),
            ids@.to_set() == it.seq().unref().take(it.index()).to_set(),
            it.seq().unref().to_set() == map@.dom(),
            it.seq().no_duplicates(),
            it.index() == it.seq().len() ==> ids@.to_set() == map@.dom(),
    {
        let ghost all = it.seq().unref();
        let ghost n = it.index();
        proof {
            assert(all[n] == *id);
            if ids@.contains(*id) {
                assert(ids@.to_set().contains(*id));
                let k = choose|k: int| 0 <= k < n && all.take(n)[k] == *id;
                assert(it.seq()[k] == it.seq()[n]);
            }
        }
        place(&mut ids, *id);
        proof {
            lemma_one_more(all, n);
            assert(all.take(all.len() as int) =~= all);
        }
    }
    proof {
        lemma_in_order(ids@);
    }
    ids
}

/// The elements of a sequence up to and with one, as a set.
pub proof fn lemma_one_more(all: Seq<u64>, n: int)
    requires
        0 <= n < all.len(),
    ensures
        all.take(n + 1).to_set() == all.take(n).to_set().insert(all[n]),
{
    let more = all.take(n + 1);
    assert forall|x: u64| more.to_set().contains(x) <==> all.take(n).to_set().insert(all[n]).contains(
        x,
    ) by {
        if all.take(n).contains(x) {
            let k = choose|k: int| 0 <= k < n && all.take(n)[k] == x;
            assert(more[k] == x);
        }
        if more.contains(x) {
            let k = choose|k: int| 0 <= k < more.len() && more[k] == x;
            if k < n {
                assert(all.take(n)[k] == x);
            }
        }
        assert(more[n] == all[n]);
    }
    assert(more.to_set() =~= all.take(n).to_set().insert(all[n]));
}

/// Whether every ID of `part` is in `whole`.
pub fn is_subset(part: &BTreeSet<u64>, whole: &BTreeSet<u64>) -> (r: bool)
    ensures
        r == part@.subset_of(whole@),
{
    let ids = sorted(part);
    let mut i: usize = 0;
    while i < ids.len()
        invariant
            ids@.to_set() == part@,
            forall|k: int| 0 <= k < i ==> whole@.contains(#[trigger] ids@[k]),
        decreases ids.len() - i,
    {
        if !whole.contains(&ids[i]) {
            proof {
                assert(ids@.to_set().contains(ids@[i as int]));
            }
            return false;
        }
        i = i + 1;
    }
    proof {
        assert forall|x: u64| part@.contains(x) implies whole@.contains(x) by {
            assert(ids@.to_set().contains(x));
            let k = choose|k: int| 0 <= k < ids@.len() && ids@[k] == x;
            assert(whole@.contains(ids@[k]));
        }
    }
    true
}

/// Whether two listings agree up to place `n`, where the first ends or has the
/// lower ID.
pub open spec fn parts_at(a: Seq<u64>, b: Seq<u64>, n: int) -> bool {
    &&& 0 <= n <= a.len()
    &&& n < b.len()
    &&& forall|i: int| 0 <= i < n ==> #[trigger] a[i] == b[i]
    &&& n == a.len() || a[n] < b[n]
}

/// Whether one listing comes before another: it ends or has the lower ID at the
/// first place where they differ.
pub open spec fn listed_before(a: Seq<u64>, b: Seq<u64>) -> bool {
    exists|n: int| #[trigger] parts_at(a, b, n)
}

/// No listing comes before itself.
pub proof fn lemma_not_before_itself(a: Seq<u64>)
    ensures
        !listed_before(a, a),
{
}

/// What comes before a listing comes before all that come after it.
pub proof fn lemma_before_the_next(a: Seq<u64>, b: Seq<u64>, c: Seq<u64>)
    requires
        listed_before(a, b),
        listed_before(b, c),
    ensures
        listed_before(a, c),
{
    let n = choose|n: int| #[trigger] parts_at(a, b, n);
    let m = choose|m: int| #[trigger] parts_at(b, c, m);
    let k = if n < m {
        n
    } else {
        m
    };
    assert forall|i: int| 0 <= i < k implies #[trigger] a[i] == c[i] by {
        assert(a[i] == b[i]);
        assert(b[i] == c[i]);
    }
    if n < m {
        assert(b[n] == c[n]);
    } else if m < n {
        assert(a[m] == b[m]);
    }
    assert(parts_at(a, c, k));
}

/// How one listing stands to another.
#[derive(Clone, Copy, Debug, PartialEq, Eq, Structural)]
pub enum Place {
    /// It comes before the other.
    Before,
    /// It is the other.
    Same,
    /// It comes after the other.
    After,
}

/// How one listing stands to another.
pub fn place_of(a: &Vec<u64>, b: &Vec<u64>) -> (r: Place)
    ensures
        match r {
            Place::Before => listed_before(a@, b@),
            Place::Same => a@ == b@,
            Place::After => listed_before(b@, a@),
        },
{
    let mut n: usize = 0;
    while n < a.len() && n < b.len()
        invariant
            n <= a.len(),
            n <= b.len(),
            forall|i: int| 0 <= i < n ==> #[trigger] a@[i] == b@[i],
        decreases a.len() - n,
    {
        if a[n] < b[n] {
            assert(parts_at(a@, b@, n as int));
            return Place::Before;
        }
        if b[n] < a[n] {
            assert(parts_at(b@, a@, n as int));
            return Place::After;
        }
        n = n + 1;
    }
    if n < b.len() {
        assert(parts_at(a@, b@, n as int));
        Place::Before
    } else if n < a.len() {
        assert(parts_at(b@, a@, n as int));
        Place::After
    } else {
        assert(a@ =~= b@);
        Place::Same
    }
}

}
