//! Bounds of a metric, and how they combine.
//!
//! A set of bounds allows the values that lie within one of them. Components in
//! parallel add their bounds; components in series share them. Adding two
//! numbers rounds, so the sum of two numbers is handed in.

use vstd::prelude::*;

use crate::client::proto;
use crate::logical_meter::exact::{law_order_is_that_of_the_numbers, number};
use crate::single::Single;

verus! {

/// A range of values: from `lower`, where there is one, to `upper`, where there
/// is one.
#[derive(Clone, Copy, Debug, PartialEq)]
pub struct Bounds {
    lower: Option<Single>,
    upper: Option<Single>,
}

impl Bounds {
    /// The least value, where there is one.
    pub closed spec fn spec_lower(self) -> Option<Single> {
        self.lower
    }

    /// The greatest value, where there is one.
    pub closed spec fn spec_upper(self) -> Option<Single> {
        self.upper
    }

    /// The bounds with the given ends.
    pub closed spec fn from_ends(lower: Option<Single>, upper: Option<Single>) -> Self {
        Bounds { lower, upper }
    }

    /// The bounds from `lower` to `upper`.
    pub fn new(lower: Option<Single>, upper: Option<Single>) -> (r: Self)
        ensures
            r == Bounds::from_ends(lower, upper),
            r.spec_lower() == lower,
            r.spec_upper() == upper,
    {
        Bounds { lower, upper }
    }

    /// The least value, where there is one.
    pub fn lower(&self) -> (r: Option<Single>)
        ensures
            r == self.spec_lower(),
    {
        self.lower
    }

    /// The greatest value, where there is one.
    pub fn upper(&self) -> (r: Option<Single>)
        ensures
            r == self.spec_upper(),
    {
        self.upper
    }

    /// Whether both ends, as far as there are any, are numbers.
    pub open spec fn in_numbers(self) -> bool {
        &&& self.spec_lower() matches Some(l) ==> !l.spec_is_nan()
        &&& self.spec_upper() matches Some(u) ==> !u.spec_is_nan()
    }

    /// Whether `value` lies within the bounds.
    pub open spec fn allows(self, value: Single) -> bool {
        &&& self.spec_lower() matches Some(l) ==> l.spec_le(value)
        &&& self.spec_upper() matches Some(u) ==> value.spec_le(u)
    }

    /// What both bounds allow, where they meet.
    pub open spec fn shared(self, other: Self) -> Option<Self> {
        let lower = match (self.spec_lower(), other.spec_lower()) {
            (Some(a), Some(b)) => Some(a.spec_max(b)),
            (Some(a), None) => Some(a),
            (None, b) => b,
        };
        let upper = match (self.spec_upper(), other.spec_upper()) {
            (Some(a), Some(b)) => Some(a.spec_min(b)),
            (Some(a), None) => Some(a),
            (None, b) => b,
        };
        match (lower, upper) {
            (Some(l), Some(u)) => if u.spec_lt(l) {
                None
            } else {
                Some(Bounds::from_ends(lower, upper))
            },
            _ => Some(Bounds::from_ends(lower, upper)),
        }
    }

    /// What both bounds allow, where they meet.
    pub fn intersect(&self, other: &Self) -> (r: Option<Self>)
        ensures
            r == self.shared(*other),
    {
        let lower = match (self.lower, other.lower) {
            (Some(a), Some(b)) => Some(a.max(b)),
            (Some(a), None) => Some(a),
            (None, b) => b,
        };
        let upper = match (self.upper, other.upper) {
            (Some(a), Some(b)) => Some(a.min(b)),
            (Some(a), None) => Some(a),
            (None, b) => b,
        };
        match (lower, upper) {
            (Some(l), Some(u)) => {
                if u.lt(l) {
                    return None;
                }
            },
            _ => {},
        }
        Some(Bounds { lower, upper })
    }

    /// Whether `self` begins after `other` does.
    pub open spec fn begins_after(self, other: Self) -> bool {
        match (other.spec_lower(), self.spec_lower()) {
            (Some(a), Some(b)) => a.spec_lt(b),
            (None, Some(_)) => true,
            (_, None) => false,
        }
    }

    fn starts_after(&self, other: &Self) -> (r: bool)
        ensures
            r == self.begins_after(*other),
    {
        match (other.lower, self.lower) {
            (Some(a), Some(b)) => a.lt(b),
            (None, Some(_)) => true,
            (_, None) => false,
        }
    }

    /// Whether bounds that begin no earlier than `self` begin within it.
    pub open spec fn reaches(self, other: Self) -> bool {
        match (self.spec_upper(), other.spec_lower()) {
            (Some(u), Some(l)) => l.spec_le(u),
            _ => true,
        }
    }

    fn extends_to(&self, other: &Self) -> (r: bool)
        ensures
            r == self.reaches(*other),
    {
        match (self.upper, other.lower) {
            (Some(u), Some(l)) => l.le(u),
            _ => true,
        }
    }

    /// The bounds from the lower end of `self` to the greater upper end.
    pub open spec fn joined_with(self, other: Self) -> Self {
        let upper = match (self.spec_upper(), other.spec_upper()) {
            (Some(a), Some(b)) => Some(a.spec_max(b)),
            _ => None,
        };
        Bounds::from_ends(self.spec_lower(), upper)
    }

    fn join(&self, other: &Self) -> (r: Self)
        ensures
            r == self.joined_with(*other),
    {
        let upper = match (self.upper, other.upper) {
            (Some(a), Some(b)) => Some(a.max(b)),
            _ => None,
        };
        Bounds { lower: self.lower, upper }
    }
}

/// Bounds have the ends that they are made of.
pub proof fn law_bounds_have_their_ends(lower: Option<Single>, upper: Option<Single>)
    ensures
        Bounds::from_ends(lower, upper).spec_lower() == lower,
        Bounds::from_ends(lower, upper).spec_upper() == upper,
{
}

/// Bounds are told apart by their ends alone.
pub proof fn law_bounds_are_their_ends(bounds: Bounds)
    ensures
        bounds == Bounds::from_ends(bounds.spec_lower(), bounds.spec_upper()),
{
}

/// The bounds that a component reports.
pub open spec fn reported(bounds: proto::Bounds) -> Bounds {
    Bounds::from_ends(bounds.lower, bounds.upper)
}

/// The bounds that a component reports.
pub fn from_reported(bounds: &proto::Bounds) -> (r: Bounds)
    ensures
        r == reported(*bounds),
{
    Bounds::new(bounds.lower, bounds.upper)
}

/// Bounds as the API takes them. An end that is open is left out.
pub open spec fn api_bounds(bounds: Bounds) -> proto::Bounds {
    proto::Bounds { lower: bounds.spec_lower(), upper: bounds.spec_upper() }
}

/// Bounds as the API takes them. An end that is open is left out.
pub fn to_api(bounds: &Bounds) -> (r: proto::Bounds)
    ensures
        r == api_bounds(*bounds),
{
    proto::Bounds { lower: bounds.lower(), upper: bounds.upper() }
}

/// Bounds that go to the API and come back are the same.
pub proof fn law_bounds_survive_the_api(bounds: Bounds)
    ensures
        reported(api_bounds(bounds)) == bounds,
{
}

/// Whether one of `set` allows `value`.
pub open spec fn any_allows(set: Seq<Bounds>, value: Single) -> bool {
    exists|i: int| 0 <= i < set.len() && (#[trigger] set[i]).allows(value)
}

/// What `a` shares with each of `set`, as far as they meet.
pub open spec fn shared_with_each(a: Bounds, set: Seq<Bounds>) -> Seq<Bounds>
    decreases set.len(),
{
    if set.len() == 0 {
        Seq::empty()
    } else {
        let rest = shared_with_each(a, set.drop_last());
        match a.shared(set.last()) {
            Some(b) => rest.push(b),
            None => rest,
        }
    }
}

/// What each of `a` shares with each of `b`, as far as they meet.
pub open spec fn in_series(a: Seq<Bounds>, b: Seq<Bounds>) -> Seq<Bounds>
    decreases a.len(),
{
    if a.len() == 0 {
        Seq::empty()
    } else {
        in_series(a.drop_last(), b) + shared_with_each(a.last(), b)
    }
}

/// The bounds of components in series: what both sets allow.
pub fn intersect_bounds_sets(a: &Vec<Bounds>, b: &Vec<Bounds>) -> (r: Vec<Bounds>)
    ensures
        r@ == in_series(a@, b@),
{
    let mut r: Vec<Bounds> = Vec::new();
    let mut i: usize = 0;
    while i < a.len()
        invariant
            i <= a.len(),
            r@ == in_series(a@.take(i as int), b@),
        decreases a.len() - i,
    {
        let ghost before = r@;
        let mut j: usize = 0;
        assert(before + shared_with_each(a@[i as int], b@.take(0)) =~= before);
        while j < b.len()
            invariant
                i < a.len(),
                j <= b.len(),
                r@ == before + shared_with_each(a@[i as int], b@.take(j as int)),
            decreases b.len() - j,
        {
            assert(b@.take(j + 1).drop_last() =~= b@.take(j as int));
            match a[i].intersect(&b[j]) {
                Some(shared) => {
                    r.push(shared);
                    assert(r@ =~= before + shared_with_each(a@[i as int], b@.take(j + 1)));
                },
                None => {},
            }
            j = j + 1;
        }
        assert(b@.take(b@.len() as int) =~= b@);
        assert(a@.take(i + 1).drop_last() =~= a@.take(i as int));
        i = i + 1;
    }
    assert(a@.take(a@.len() as int) =~= a@);
    r
}

/// Whether `plus` can be called on any two numbers, and gives the same sum for
/// the same numbers.
pub open spec fn is_sum<F: Fn(Single, Single) -> Single>(plus: F) -> bool {
    &&& forall|a: Single, b: Single| #[trigger] call_requires(plus, (a, b))
    &&& forall|a: Single, b: Single, r: Single, s: Single| #[trigger]
        call_ensures(plus, (a, b), r) && #[trigger] call_ensures(plus, (a, b), s) ==> r == s
}

/// The sum that `plus` gives.
pub open spec fn sum_of<F: Fn(Single, Single) -> Single>(plus: F, a: Single, b: Single) -> Single {
    choose|r: Single| call_ensures(plus, (a, b), r)
}

/// The sum of two ends, where there are two.
pub open spec fn ends_sum<F: Fn(Single, Single) -> Single>(
    plus: F,
    a: Option<Single>,
    b: Option<Single>,
) -> Option<Single> {
    match (a, b) {
        (Some(x), Some(y)) => Some(sum_of(plus, x, y)),
        _ => None,
    }
}

/// The bounds of two components in parallel.
pub open spec fn bounds_sum<F: Fn(Single, Single) -> Single>(plus: F, a: Bounds, b: Bounds) -> Bounds {
    Bounds::from_ends(
        ends_sum(plus, a.spec_lower(), b.spec_lower()),
        ends_sum(plus, a.spec_upper(), b.spec_upper()),
    )
}

fn add_ends<F: Fn(Single, Single) -> Single>(
    plus: &F,
    a: Option<Single>,
    b: Option<Single>,
) -> (r: Option<Single>)
    requires
        is_sum(*plus),
    ensures
        r == ends_sum(*plus, a, b),
{
    match (a, b) {
        (Some(x), Some(y)) => Some(plus(x, y)),
        _ => None,
    }
}

fn add_bounds<F: Fn(Single, Single) -> Single>(plus: &F, a: &Bounds, b: &Bounds) -> (r: Bounds)
    requires
        is_sum(*plus),
    ensures
        r == bounds_sum(*plus, *a, *b),
{
    Bounds::new(add_ends(plus, a.lower, b.lower), add_ends(plus, a.upper, b.upper))
}

/// The sums of `a` and each of `set`.
pub open spec fn sums_with_each<F: Fn(Single, Single) -> Single>(
    plus: F,
    a: Bounds,
    set: Seq<Bounds>,
) -> Seq<Bounds> {
    set.map_values(|b: Bounds| bounds_sum(plus, a, b))
}

/// The sums of each of `a` and each of `b`.
pub open spec fn all_sums<F: Fn(Single, Single) -> Single>(
    plus: F,
    a: Seq<Bounds>,
    b: Seq<Bounds>,
) -> Seq<Bounds>
    decreases a.len(),
{
    if a.len() == 0 {
        Seq::empty()
    } else {
        all_sums(plus, a.drop_last(), b) + sums_with_each(plus, a.last(), b)
    }
}

/// How many of `set`, which is ordered by the lower ends, stay in front of `b`.
pub open spec fn place_of(set: Seq<Bounds>, b: Bounds) -> nat
    decreases set.len(),
{
    if set.len() == 0 {
        0
    } else if set.last().begins_after(b) {
        place_of(set.drop_last(), b)
    } else {
        set.len()
    }
}

/// The bounds in the order of their lower ends; those with equal ones in the
/// order in which they came.
pub open spec fn by_lower(set: Seq<Bounds>) -> Seq<Bounds>
    decreases set.len(),
{
    if set.len() == 0 {
        Seq::empty()
    } else {
        let rest = by_lower(set.drop_last());
        rest.insert(place_of(rest, set.last()) as int, set.last())
    }
}

/// The bounds of an ordered set, those that overlap joined into one.
pub open spec fn joined(set: Seq<Bounds>) -> Seq<Bounds>
    decreases set.len(),
{
    if set.len() == 0 {
        Seq::empty()
    } else {
        let rest = joined(set.drop_last());
        if rest.len() > 0 && rest.last().reaches(set.last()) {
            rest.drop_last().push(rest.last().joined_with(set.last()))
        } else {
            rest.push(set.last())
        }
    }
}

/// The bounds of components in parallel: the sums of their bounds, those that
/// overlap joined. A set without bounds adds nothing.
pub open spec fn in_parallel<F: Fn(Single, Single) -> Single>(
    plus: F,
    a: Seq<Bounds>,
    b: Seq<Bounds>,
) -> Seq<Bounds> {
    if a.len() == 0 {
        b
    } else if b.len() == 0 {
        a
    } else {
        joined(by_lower(all_sums(plus, a, b)))
    }
}

proof fn lemma_place(set: Seq<Bounds>, b: Bounds)
    ensures
        place_of(set, b) <= set.len(),
    decreases set.len(),
{
    if set.len() > 0 {
        lemma_place(set.drop_last(), b);
    }
}

fn put_in_place(set: &mut Vec<Bounds>, b: Bounds)
    ensures
        final(set)@ == old(set)@.insert(place_of(old(set)@, b) as int, b),
{
    let mut at: usize = set.len();
    assert(set@.take(set@.len() as int) =~= set@);
    while at > 0 && set[at - 1].starts_after(&b)
        invariant
            at <= set.len(),
            set@ == old(set)@,
            place_of(set@, b) == place_of(set@.take(at as int), b),
        decreases at,
    {
        assert(set@.take(at as int).drop_last() =~= set@.take(at - 1));
        at = at - 1;
    }
    proof {
        lemma_place(set@, b);
    }
    set.insert(at, b);
}

fn join_overlapping(set: &Vec<Bounds>) -> (r: Vec<Bounds>)
    ensures
        r@ == joined(set@),
{
    let mut r: Vec<Bounds> = Vec::new();
    let mut i: usize = 0;
    while i < set.len()
        invariant
            i <= set.len(),
            r@ == joined(set@.take(i as int)),
        decreases set.len() - i,
    {
        assert(set@.take(i + 1).drop_last() =~= set@.take(i as int));
        let ghost before = r@;
        let n = r.len();
        if n > 0 && r[n - 1].extends_to(&set[i]) {
            let wider = r[n - 1].join(&set[i]);
            r.set(n - 1, wider);
            assert(r@ =~= before.drop_last().push(wider));
        } else {
            r.push(set[i]);
        }
        i = i + 1;
    }
    assert(set@.take(set@.len() as int) =~= set@);
    r
}

fn copy_set(set: &Vec<Bounds>) -> (r: Vec<Bounds>)
    ensures
        r@ == set@,
{
    let mut r: Vec<Bounds> = Vec::new();
    let mut i: usize = 0;
    while i < set.len()
        invariant
            i <= set.len(),
            r@ == set@.take(i as int),
        decreases set.len() - i,
    {
        r.push(set[i]);
        assert(r@ =~= set@.take(i + 1));
        i = i + 1;
    }
    assert(set@.take(set@.len() as int) =~= set@);
    r
}

/// The bounds of components in parallel.
pub fn combine_parallel_sets<F: Fn(Single, Single) -> Single>(
    a: &Vec<Bounds>,
    b: &Vec<Bounds>,
    plus: &F,
) -> (r: Vec<Bounds>)
    requires
        is_sum(*plus),
    ensures
        r@ == in_parallel(*plus, a@, b@),
{
    if a.len() == 0 {
        return copy_set(b);
    }
    if b.len() == 0 {
        return copy_set(a);
    }
    let mut ordered: Vec<Bounds> = Vec::new();
    let ghost mut sums: Seq<Bounds> = Seq::empty();
    let mut i: usize = 0;
    while i < a.len()
        invariant
            i <= a.len(),
            is_sum(*plus),
            sums == all_sums(*plus, a@.take(i as int), b@),
            ordered@ == by_lower(sums),
        decreases a.len() - i,
    {
        let ghost before = sums;
        let mut j: usize = 0;
        assert(before + sums_with_each(*plus, a@[i as int], b@.take(0)) =~= before);
        while j < b.len()
            invariant
                i < a.len(),
                j <= b.len(),
                is_sum(*plus),
                sums == before + sums_with_each(*plus, a@[i as int], b@.take(j as int)),
                ordered@ == by_lower(sums),
            decreases b.len() - j,
        {
            let one = add_bounds(plus, &a[i], &b[j]);
            put_in_place(&mut ordered, one);
            proof {
                let more = sums.push(one);
                assert(more.drop_last() =~= sums);
                assert(more =~= before + sums_with_each(*plus, a@[i as int], b@.take(j + 1)));
                sums = more;
            }
            j = j + 1;
        }
        assert(b@.take(b@.len() as int) =~= b@);
        assert(a@.take(i + 1).drop_last() =~= a@.take(i as int));
        i = i + 1;
    }
    assert(a@.take(a@.len() as int) =~= a@);
    join_overlapping(&ordered)
}

/// Whether the ends of all bounds are numbers.
pub open spec fn all_in_numbers(set: Seq<Bounds>) -> bool {
    forall|i: int| 0 <= i < set.len() ==> (#[trigger] set[i]).in_numbers()
}

/// Bounds share what both allow.
pub proof fn law_shared_bounds_allow_what_both_allow(a: Bounds, b: Bounds, value: Single)
    requires
        a.in_numbers(),
        b.in_numbers(),
        !value.spec_is_nan(),
    ensures
        (a.shared(b) matches Some(c) && c.allows(value)) <==> a.allows(value) && b.allows(value),
{
}

proof fn lemma_shared_with_each(a: Bounds, set: Seq<Bounds>, value: Single)
    requires
        a.in_numbers(),
        all_in_numbers(set),
        !value.spec_is_nan(),
    ensures
        any_allows(shared_with_each(a, set), value) <==> a.allows(value) && any_allows(set, value),
    decreases set.len(),
{
    if set.len() > 0 {
        let front = set.drop_last();
        let rest = shared_with_each(a, front);
        let all = shared_with_each(a, set);
        assert forall|i: int| 0 <= i < front.len() implies (#[trigger] front[i]).in_numbers() by {
            assert(front[i] == set[i]);
        }
        lemma_shared_with_each(a, front, value);
        law_shared_bounds_allow_what_both_allow(a, set.last(), value);
        if any_allows(all, value) {
            let i = choose|i: int| 0 <= i < all.len() && (#[trigger] all[i]).allows(value);
            if i < rest.len() {
                assert(rest[i].allows(value));
                let k = choose|k: int| 0 <= k < front.len() && (#[trigger] front[k]).allows(value);
                assert(set[k].allows(value));
            } else {
                assert(set[set.len() - 1].allows(value));
            }
        }
        if a.allows(value) && any_allows(set, value) {
            let k = choose|k: int| 0 <= k < set.len() && (#[trigger] set[k]).allows(value);
            if k < front.len() {
                assert(front[k].allows(value));
                let i = choose|i: int| 0 <= i < rest.len() && (#[trigger] rest[i]).allows(value);
                assert(all[i].allows(value));
            } else {
                assert(all[all.len() - 1].allows(value));
            }
        }
    }
}

proof fn lemma_either_allows(a: Seq<Bounds>, b: Seq<Bounds>, value: Single)
    ensures
        any_allows(a + b, value) <==> any_allows(a, value) || any_allows(b, value),
{
    let c = a + b;
    if any_allows(c, value) {
        let i = choose|i: int| 0 <= i < c.len() && (#[trigger] c[i]).allows(value);
        if i < a.len() {
            assert(a[i].allows(value));
        } else {
            assert(b[i - a.len()].allows(value));
        }
    }
    if any_allows(a, value) {
        let i = choose|i: int| 0 <= i < a.len() && (#[trigger] a[i]).allows(value);
        assert(c[i].allows(value));
    }
    if any_allows(b, value) {
        let i = choose|i: int| 0 <= i < b.len() && (#[trigger] b[i]).allows(value);
        assert(c[i + a.len()].allows(value));
    }
}

/// Components in series allow what both sides allow.
pub proof fn law_series_allows_what_both_allow(a: Seq<Bounds>, b: Seq<Bounds>, value: Single)
    requires
        all_in_numbers(a),
        all_in_numbers(b),
        !value.spec_is_nan(),
    ensures
        any_allows(in_series(a, b), value) <==> any_allows(a, value) && any_allows(b, value),
    decreases a.len(),
{
    if a.len() > 0 {
        let front = a.drop_last();
        assert forall|i: int| 0 <= i < front.len() implies (#[trigger] front[i]).in_numbers() by {
            assert(front[i] == a[i]);
        }
        law_series_allows_what_both_allow(front, b, value);
        lemma_shared_with_each(a.last(), b, value);
        lemma_either_allows(in_series(front, b), shared_with_each(a.last(), b), value);
        if any_allows(a, value) {
            let i = choose|i: int| 0 <= i < a.len() && (#[trigger] a[i]).allows(value);
            if i < front.len() {
                assert(front[i].allows(value));
            }
        }
        if any_allows(front, value) {
            let i = choose|i: int| 0 <= i < front.len() && (#[trigger] front[i]).allows(value);
            assert(a[i].allows(value));
        }
        if a.last().allows(value) {
            assert(a[a.len() - 1].allows(value));
        }
    }
}

/// A side without bounds leaves nothing in series, whatever the other allows.
pub proof fn law_series_needs_both_sides(set: Seq<Bounds>)
    ensures
        in_series(Seq::empty(), set) == Seq::<Bounds>::empty(),
        in_series(set, Seq::empty()) == Seq::<Bounds>::empty(),
    decreases set.len(),
{
    if set.len() > 0 {
        law_series_needs_both_sides(set.drop_last());
        assert(in_series(set, Seq::empty()) =~= Seq::<Bounds>::empty());
    }
}

/// Whether the bounds are in the order of their lower ends.
pub open spec fn ordered(set: Seq<Bounds>) -> bool {
    forall|i: int, j: int| 0 <= i < j < set.len() ==> !(#[trigger] set[i]).begins_after(#[trigger] set[j])
}

proof fn lemma_place_splits(set: Seq<Bounds>, b: Bounds)
    requires
        all_in_numbers(set),
        b.in_numbers(),
        ordered(set),
    ensures
        place_of(set, b) <= set.len(),
        forall|i: int| 0 <= i < place_of(set, b) ==> !(#[trigger] set[i]).begins_after(b),
        forall|i: int| place_of(set, b) <= i < set.len() ==> (#[trigger] set[i]).begins_after(b),
    decreases set.len(),
{
    if set.len() > 0 {
        let front = set.drop_last();
        assert forall|i: int| 0 <= i < front.len() implies (#[trigger] front[i]).in_numbers() by {
            assert(front[i] == set[i]);
        }
        assert forall|i: int, j: int| 0 <= i < j < front.len() implies !(#[trigger] front[i]).begins_after(
            #[trigger] front[j],
        ) by {
            assert(!set[i].begins_after(set[j]));
        }
        lemma_place_splits(front, b);
        let n = place_of(set, b);
        if set.last().begins_after(b) {
            assert forall|i: int| 0 <= i < n implies !(#[trigger] set[i]).begins_after(b) by {
                assert(front[i] == set[i]);
            }
            assert forall|i: int| n <= i < set.len() implies (#[trigger] set[i]).begins_after(b) by {
                if i < front.len() {
                    assert(front[i] == set[i]);
                }
            }
        } else {
            assert forall|i: int| 0 <= i < n implies !(#[trigger] set[i]).begins_after(b) by {
                if i < front.len() {
                    assert(!set[i].begins_after(set[set.len() - 1]));
                    assert(set[set.len() - 1].in_numbers() && set[i].in_numbers());
                }
            }
        }
    }
}

proof fn lemma_by_lower(set: Seq<Bounds>, value: Single)
    requires
        all_in_numbers(set),
    ensures
        ordered(by_lower(set)),
        all_in_numbers(by_lower(set)),
        any_allows(by_lower(set), value) <==> any_allows(set, value),
    decreases set.len(),
{
    if set.len() > 0 {
        let front = set.drop_last();
        let last = set.last();
        let rest = by_lower(front);
        let all = by_lower(set);
        assert forall|i: int| 0 <= i < front.len() implies (#[trigger] front[i]).in_numbers() by {
            assert(front[i] == set[i]);
        }
        assert(set[set.len() - 1].in_numbers());
        lemma_by_lower(front, value);
        lemma_place_splits(rest, last);
        let n = place_of(rest, last) as int;
        assert forall|i: int| 0 <= i < all.len() implies #[trigger] all[i] == (if i < n {
            rest[i]
        } else if i == n {
            last
        } else {
            rest[i - 1]
        }) by {}
        assert forall|i: int, j: int| 0 <= i < j < all.len() implies !(#[trigger] all[i]).begins_after(
            #[trigger] all[j],
        ) by {
            if i < n && j > n {
                assert(!rest[i].begins_after(rest[j - 1]));
            } else if i < n && j < n {
                assert(!rest[i].begins_after(rest[j]));
            } else if i > n {
                assert(!rest[i - 1].begins_after(rest[j - 1]));
            } else if i == n {
                assert(rest[j - 1].begins_after(last));
            }
        }
        if any_allows(all, value) {
            let i = choose|i: int| 0 <= i < all.len() && (#[trigger] all[i]).allows(value);
            if i < n {
                assert(rest[i].allows(value));
            } else if i > n {
                assert(rest[i - 1].allows(value));
            } else {
                assert(set[set.len() - 1].allows(value));
            }
            if any_allows(front, value) {
                let k = choose|k: int| 0 <= k < front.len() && (#[trigger] front[k]).allows(value);
                assert(set[k].allows(value));
            }
        }
        if any_allows(set, value) {
            let k = choose|k: int| 0 <= k < set.len() && (#[trigger] set[k]).allows(value);
            if k < front.len() {
                assert(front[k].allows(value));
                let i = choose|i: int| 0 <= i < rest.len() && (#[trigger] rest[i]).allows(value);
                if i < n {
                    assert(all[i].allows(value));
                } else {
                    assert(all[i + 1].allows(value));
                }
            } else {
                assert(all[n].allows(value));
            }
        }
    }
}

proof fn lemma_joined(set: Seq<Bounds>, value: Single)
    requires
        all_in_numbers(set),
        ordered(set),
        !value.spec_is_nan(),
    ensures
        all_in_numbers(joined(set)),
        any_allows(joined(set), value) <==> any_allows(set, value),
        set.len() > 0 ==> joined(set).len() > 0 && !joined(set).last().begins_after(set.last()),
        forall|i: int|
            0 <= i < joined(set).len() - 1 ==> !(#[trigger] joined(set)[i]).reaches(
                joined(set)[i + 1],
            ),
    decreases set.len(),
{
    if set.len() > 0 {
        let front = set.drop_last();
        let last = set.last();
        let rest = joined(front);
        let all = joined(set);
        assert forall|i: int| 0 <= i < front.len() implies (#[trigger] front[i]).in_numbers() by {
            assert(front[i] == set[i]);
        }
        assert(set[set.len() - 1].in_numbers());
        assert forall|i: int, j: int| 0 <= i < j < front.len() implies !(#[trigger] front[i]).begins_after(
            #[trigger] front[j],
        ) by {
            assert(!set[i].begins_after(set[j]));
        }
        lemma_joined(front, value);
        if front.len() > 0 {
            assert(!set[set.len() - 2].begins_after(set[set.len() - 1]));
            assert(front.last() == set[set.len() - 2]);
            assert(rest[rest.len() - 1].in_numbers());
            assert(front[front.len() - 1].in_numbers());
            assert(!rest.last().begins_after(last));
        }
        lemma_either_allows(front, seq![last], value);
        assert(set =~= front + seq![last]);
        assert(any_allows(seq![last], value) <==> last.allows(value)) by {
            if last.allows(value) {
                assert(seq![last][0].allows(value));
            }
        }
        if rest.len() > 0 && rest.last().reaches(last) {
            let head = rest.drop_last();
            let wide = rest.last().joined_with(last);
            assert(rest =~= head + seq![rest.last()]);
            assert(all =~= head + seq![wide]);
            lemma_either_allows(head, seq![rest.last()], value);
            lemma_either_allows(head, seq![wide], value);
            assert(any_allows(seq![wide], value) <==> wide.allows(value)) by {
                if wide.allows(value) {
                    assert(seq![wide][0].allows(value));
                }
            }
            assert(any_allows(seq![rest.last()], value) <==> rest.last().allows(value)) by {
                if rest.last().allows(value) {
                    assert(seq![rest.last()][0].allows(value));
                }
            }
            assert(wide.in_numbers());
            assert(wide.allows(value) <==> rest.last().allows(value) || last.allows(value));
            assert forall|i: int| 0 <= i < all.len() implies (#[trigger] all[i]).in_numbers() by {
                if i < head.len() {
                    assert(all[i] == rest[i]);
                }
            }
            assert forall|i: int| 0 <= i < all.len() - 1 implies !(#[trigger] all[i]).reaches(
                all[i + 1],
            ) by {
                assert(all[i] == rest[i]);
                assert(!rest[i].reaches(rest[i + 1]));
                if i + 1 == head.len() {
                    assert(all[i + 1] == wide);
                } else {
                    assert(all[i + 1] == rest[i + 1]);
                }
            }
        } else {
            assert(all =~= rest + seq![last]);
            lemma_either_allows(rest, seq![last], value);
            assert forall|i: int| 0 <= i < all.len() implies (#[trigger] all[i]).in_numbers() by {
                if i < rest.len() {
                    assert(all[i] == rest[i]);
                }
            }
            assert forall|i: int| 0 <= i < all.len() - 1 implies !(#[trigger] all[i]).reaches(
                all[i + 1],
            ) by {
                assert(all[i] == rest[i]);
                if i + 1 < rest.len() {
                    assert(!rest[i].reaches(rest[i + 1]));
                    assert(all[i + 1] == rest[i + 1]);
                }
            }
        }
    }
}

/// Joining overlapping bounds changes nothing in what they allow, and leaves
/// none that overlap.
pub proof fn law_joining_keeps_what_is_allowed(set: Seq<Bounds>, value: Single)
    requires
        all_in_numbers(set),
        !value.spec_is_nan(),
    ensures
        any_allows(joined(by_lower(set)), value) <==> any_allows(set, value),
        forall|i: int|
            0 <= i < joined(by_lower(set)).len() - 1 ==> !(#[trigger] joined(by_lower(set))[i]).reaches(
                joined(by_lower(set))[i + 1],
            ),
{
    lemma_by_lower(set, value);
    lemma_joined(by_lower(set), value);
}

/// A set without bounds adds nothing in parallel.
pub proof fn law_parallel_with_nothing<F: Fn(Single, Single) -> Single>(plus: F, set: Seq<Bounds>)
    ensures
        in_parallel(plus, Seq::empty(), set) == set,
        in_parallel(plus, set, Seq::empty()) == set,
{
}

/// Two components with one range each add their ends.
pub proof fn law_parallel_ranges_add<F: Fn(Single, Single) -> Single>(
    plus: F,
    a: Bounds,
    b: Bounds,
)
    ensures
        in_parallel(plus, seq![a], seq![b]) == seq![bounds_sum(plus, a, b)],
{
    reveal_with_fuel(all_sums, 2);
    reveal_with_fuel(by_lower, 2);
    reveal_with_fuel(joined, 2);
    let c = bounds_sum(plus, a, b);
    assert(seq![a].drop_last() =~= Seq::<Bounds>::empty());
    assert(all_sums(plus, seq![a], seq![b]) =~= seq![c]);
    assert(seq![c].drop_last() =~= Seq::<Bounds>::empty());
    assert(by_lower(seq![c]) =~= seq![c]);
    assert(joined(seq![c]) =~= seq![c]);
}

/// The bounds of two components in parallel are added end by end: an end of the
/// sum is the sum of the two ends, and open where one of them is.
pub proof fn law_bounds_add_end_by_end<F: Fn(Single, Single) -> Single>(
    plus: F,
    a: Bounds,
    b: Bounds,
    x: Single,
    y: Single,
    sum: Single,
)
    requires
        is_sum(plus),
        call_ensures(plus, (x, y), sum),
    ensures
        a.spec_lower() == Some(x) && b.spec_lower() == Some(y) ==> bounds_sum(
            plus,
            a,
            b,
        ).spec_lower() == Some(sum),
        a.spec_upper() == Some(x) && b.spec_upper() == Some(y) ==> bounds_sum(
            plus,
            a,
            b,
        ).spec_upper() == Some(sum),
        bounds_sum(plus, a, b).spec_lower() is None <==> a.spec_lower() is None
            || b.spec_lower() is None,
        bounds_sum(plus, a, b).spec_upper() is None <==> a.spec_upper() is None
            || b.spec_upper() is None,
{
    assert(call_ensures(plus, (x, y), sum_of(plus, x, y)));
}

/// Whether one of `set` is the sum of one of `a` and one of `b`.
pub open spec fn is_pair_sum<F: Fn(Single, Single) -> Single>(
    plus: F,
    a: Seq<Bounds>,
    b: Seq<Bounds>,
    sum: Bounds,
) -> bool {
    exists|i: int, j: int|
        0 <= i < a.len() && 0 <= j < b.len() && sum == bounds_sum(
            plus,
            #[trigger] a[i],
            #[trigger] b[j],
        )
}

/// Every one of `a` is added to every one of `b`, and there are no other sums.
pub proof fn law_all_pairs_are_added<F: Fn(Single, Single) -> Single>(
    plus: F,
    a: Seq<Bounds>,
    b: Seq<Bounds>,
    sum: Bounds,
)
    ensures
        all_sums(plus, a, b).contains(sum) <==> is_pair_sum(plus, a, b, sum),
    decreases a.len(),
{
    if a.len() > 0 {
        let front = a.drop_last();
        let n = a.len() - 1;
        let some = all_sums(plus, front, b);
        let more = sums_with_each(plus, a.last(), b);
        let all = all_sums(plus, a, b);
        law_all_pairs_are_added(plus, front, b, sum);
        if all.contains(sum) {
            let k = choose|k: int| 0 <= k < all.len() && all[k] == sum;
            if k < some.len() {
                assert(some[k] == sum);
                assert(some.contains(sum));
                let (i, j) = choose|i: int, j: int|
                    0 <= i < front.len() && 0 <= j < b.len() && sum == bounds_sum(
                        plus,
                        #[trigger] front[i],
                        #[trigger] b[j],
                    );
                assert(sum == bounds_sum(plus, a[i], b[j]));
            } else {
                let j = k - some.len();
                assert(more[j] == bounds_sum(plus, a[n], b[j]));
            }
        }
        if is_pair_sum(plus, a, b, sum) {
            let (i, j) = choose|i: int, j: int|
                0 <= i < a.len() && 0 <= j < b.len() && sum == bounds_sum(
                    plus,
                    #[trigger] a[i],
                    #[trigger] b[j],
                );
            if i < n {
                assert(sum == bounds_sum(plus, front[i], b[j]));
                assert(some.contains(sum));
                let k = choose|k: int| 0 <= k < some.len() && some[k] == sum;
                assert(all[k] == sum);
            } else {
                assert(more[j] == sum);
                assert(all[some.len() + j] == sum);
            }
        }
    }
}

/// Components in parallel allow a value where the sum of bounds of the one and
/// bounds of the other does, and there alone. What they allow is told in bounds
/// that are apart.
pub proof fn law_parallel_allows_what_some_sum_allows<F: Fn(Single, Single) -> Single>(
    plus: F,
    a: Seq<Bounds>,
    b: Seq<Bounds>,
    value: Single,
)
    requires
        a.len() > 0,
        b.len() > 0,
        all_in_numbers(all_sums(plus, a, b)),
        !value.spec_is_nan(),
    ensures
        any_allows(in_parallel(plus, a, b), value) <==> exists|i: int, j: int|
            0 <= i < a.len() && 0 <= j < b.len() && bounds_sum(
                plus,
                #[trigger] a[i],
                #[trigger] b[j],
            ).allows(value),
        forall|k: int|
            0 <= k < in_parallel(plus, a, b).len() - 1 ==> !(#[trigger] in_parallel(
                plus,
                a,
                b,
            )[k]).reaches(in_parallel(plus, a, b)[k + 1]),
{
    let sums = all_sums(plus, a, b);
    law_joining_keeps_what_is_allowed(sums, value);
    if any_allows(sums, value) {
        let k = choose|k: int| 0 <= k < sums.len() && (#[trigger] sums[k]).allows(value);
        assert(sums.contains(sums[k]));
        law_all_pairs_are_added(plus, a, b, sums[k]);
        let (i, j) = choose|i: int, j: int|
            0 <= i < a.len() && 0 <= j < b.len() && sums[k] == bounds_sum(
                plus,
                #[trigger] a[i],
                #[trigger] b[j],
            );
        assert(bounds_sum(plus, a[i], b[j]).allows(value));
    }
    if exists|i: int, j: int|
        0 <= i < a.len() && 0 <= j < b.len() && bounds_sum(
            plus,
            #[trigger] a[i],
            #[trigger] b[j],
        ).allows(value) {
        let (i, j) = choose|i: int, j: int|
            0 <= i < a.len() && 0 <= j < b.len() && bounds_sum(
                plus,
                #[trigger] a[i],
                #[trigger] b[j],
            ).allows(value);
        let sum = bounds_sum(plus, a[i], b[j]);
        assert(is_pair_sum(plus, a, b, sum));
        law_all_pairs_are_added(plus, a, b, sum);
        let k = choose|k: int| 0 <= k < sums.len() && sums[k] == sum;
        assert(sums[k].allows(value));
    }
}

/// Bounds that do not meet share nothing, and bounds that do share something that
/// each of them allows in full: the greater lower end and the lesser upper end.
pub proof fn law_shared_bounds_are_the_inner_ends(a: Bounds, b: Bounds)
    requires
        a.in_numbers(),
        b.in_numbers(),
    ensures
        a.shared(b) matches Some(c) ==> {
            &&& c.in_numbers()
            &&& c.spec_lower() is Some <==> a.spec_lower() is Some || b.spec_lower() is Some
            &&& c.spec_upper() is Some <==> a.spec_upper() is Some || b.spec_upper() is Some
            &&& c.spec_lower() matches Some(l) ==> (a.spec_lower() == Some(l) || b.spec_lower()
                == Some(l)) && (a.spec_lower() matches Some(x) ==> x.spec_le(l)) && (
            b.spec_lower() matches Some(y) ==> y.spec_le(l))
            &&& c.spec_upper() matches Some(u) ==> (a.spec_upper() == Some(u) || b.spec_upper()
                == Some(u)) && (a.spec_upper() matches Some(x) ==> u.spec_le(x)) && (
            b.spec_upper() matches Some(y) ==> u.spec_le(y))
            &&& c.spec_lower() matches Some(l) ==> c.spec_upper() matches Some(u) ==> l.spec_le(u)
        },
        a.shared(b) is None <==> exists|l: Single, u: Single|
            #![trigger u.spec_lt(l)]
            (a.spec_lower() == Some(l) || b.spec_lower() == Some(l)) && (a.spec_upper() == Some(u)
                || b.spec_upper() == Some(u)) && u.spec_lt(l) && (a.spec_lower() matches Some(x)
                ==> x.spec_le(l)) && (b.spec_lower() matches Some(y) ==> y.spec_le(l)) && (
            a.spec_upper() matches Some(x) ==> u.spec_le(x)) && (b.spec_upper() matches Some(y)
                ==> u.spec_le(y)),
{
    let lower = match (a.spec_lower(), b.spec_lower()) {
        (Some(x), Some(y)) => Some(x.spec_max(y)),
        (Some(x), None) => Some(x),
        (None, y) => y,
    };
    let upper = match (a.spec_upper(), b.spec_upper()) {
        (Some(x), Some(y)) => Some(x.spec_min(y)),
        (Some(x), None) => Some(x),
        (None, y) => y,
    };
    if let (Some(l), Some(u)) = (lower, upper) {
        assert(u.spec_lt(l) || l.spec_le(u));
    }
}

/// Of bounds that were put together, whatever one allows is less than whatever the
/// next one allows: bounds that touch are made one.
pub proof fn law_joined_bounds_lie_apart(set: Seq<Bounds>, k: int, value: Single, next: Single)
    requires
        all_in_numbers(set),
        0 <= k < joined(by_lower(set)).len() - 1,
        joined(by_lower(set))[k].allows(value),
        joined(by_lower(set))[k + 1].allows(next),
    ensures
        value.spec_lt(next),
{
    let one = Single { bits: 0 };
    law_joining_keeps_what_is_allowed(set, one);
    assert(!joined(by_lower(set))[k].reaches(joined(by_lower(set))[k + 1]));
}

/// Bounds allow what is not below their lower end and not above their upper end.
/// An end that is open allows everything on its side.
pub proof fn law_bounds_allow_what_lies_between(bounds: Bounds, value: Single)
    requires
        number(value) is Some,
        bounds.spec_lower() matches Some(l) ==> number(l) is Some,
        bounds.spec_upper() matches Some(u) ==> number(u) is Some,
    ensures
        bounds.allows(value) <==> {
            &&& bounds.spec_lower() matches Some(l) ==> number(l)->0 <= number(value)->0
            &&& bounds.spec_upper() matches Some(u) ==> number(value)->0 <= number(u)->0
        },
{
    if let Some(l) = bounds.spec_lower() {
        law_order_is_that_of_the_numbers(l, value);
    }
    if let Some(u) = bounds.spec_upper() {
        law_order_is_that_of_the_numbers(value, u);
    }
}

proof fn lemma_shared_with_more(a: Bounds, x: Seq<Bounds>, y: Seq<Bounds>)
    ensures
        shared_with_each(a, x + y) == shared_with_each(a, x) + shared_with_each(a, y),
    decreases y.len(),
{
    if y.len() == 0 {
        assert(x + y =~= x);
        assert(shared_with_each(a, x) + shared_with_each(a, y) =~= shared_with_each(a, x));
    } else {
        lemma_shared_with_more(a, x, y.drop_last());
        assert((x + y).drop_last() =~= x + y.drop_last());
        assert((x + y).last() == y.last());
        assert(shared_with_each(a, x + y) =~= shared_with_each(a, x) + shared_with_each(a, y));
    }
}

/// Bounds in series are what each of one side shares with each of the other, in
/// the order of the first side and then of the second: taking a side in two parts
/// gives the same, and one with one gives what the two share.
pub proof fn law_series_goes_through_all_pairs(
    x: Seq<Bounds>,
    y: Seq<Bounds>,
    set: Seq<Bounds>,
    a: Bounds,
    b: Bounds,
)
    ensures
        in_series(x + y, set) == in_series(x, set) + in_series(y, set),
        in_series(seq![a], x + y) == in_series(seq![a], x) + in_series(seq![a], y),
        in_series(seq![a], seq![b]) == (match a.shared(b) {
            Some(c) => seq![c],
            None => Seq::empty(),
        }),
    decreases y.len(),
{
    reveal_with_fuel(in_series, 2);
    reveal_with_fuel(shared_with_each, 2);
    assert(seq![a].drop_last() =~= Seq::<Bounds>::empty());
    assert(seq![b].drop_last() =~= Seq::<Bounds>::empty());
    lemma_shared_with_more(a, x, y);
    assert(in_series(seq![a], x + y) =~= shared_with_each(a, x + y));
    assert(in_series(seq![a], x) =~= shared_with_each(a, x));
    assert(in_series(seq![a], y) =~= shared_with_each(a, y));
    assert(in_series(seq![a], seq![b]) =~= shared_with_each(a, seq![b]));
    assert(shared_with_each(a, seq![b]) =~= match a.shared(b) {
        Some(c) => seq![c],
        None => Seq::empty(),
    });
    if y.len() == 0 {
        assert(x + y =~= x);
        assert(in_series(x, set) + in_series(y, set) =~= in_series(x, set));
    } else {
        law_series_goes_through_all_pairs(x, y.drop_last(), set, a, b);
        assert((x + y).drop_last() =~= x + y.drop_last());
        assert((x + y).last() == y.last());
        assert(in_series(x + y, set) =~= in_series(x, set) + in_series(y, set));
    }
}

}
