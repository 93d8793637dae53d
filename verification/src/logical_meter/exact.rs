//! What expressions are worth in exact arithmetic.
//!
//! The formula engine computes with rounding. What it computes is told here as it
//! would be without: over the real numbers.

use frequenz_microgrid_formula_engine as engine;
use vstd::arithmetic::power2::{lemma2_to64, lemma_pow2_pos, lemma_pow2_unfold, pow2};
use vstd::prelude::*;

use crate::logical_meter::expr::Tree;
use crate::single::{Single, INFINITY_BITS, ONE_BITS, SIGN_BIT, ZERO_BITS};

verus! {

/// Two to the power of `n`.
pub open spec fn two_to(n: int) -> real {
    if n >= 0 {
        pow2(n as nat) as real
    } else {
        (1 as real) / (pow2((-n) as nat) as real)
    }
}

/// The magnitude of a number with the given bits, which have no sign: eight bits
/// of exponent, then 23 of fraction.
pub open spec fn magnitude_of(bits: int) -> real {
    let exponent = bits / 0x80_0000;
    let fraction = bits % 0x80_0000;
    if exponent == 0 {
        (fraction as real) * two_to(-149)
    } else {
        ((fraction + 0x80_0000) as real) * two_to(exponent - 150)
    }
}

/// The number that the bits stand for; none for what is not finite.
pub open spec fn number(single: Single) -> Option<real> {
    if single.spec_magnitude() >= INFINITY_BITS {
        None
    } else if single.bits >= SIGN_BIT {
        Some(-magnitude_of(single.spec_magnitude()))
    } else {
        Some(magnitude_of(single.spec_magnitude()))
    }
}

/// One value added to another, or taken from it, where there are two.
pub open spec fn added(op: engine::SumOp, a: Option<real>, b: Option<real>) -> Option<real> {
    match (a, b) {
        (Some(x), Some(y)) => match op {
            engine::SumOp::Add => Some(x + y),
            engine::SumOp::Sub => Some(x - y),
            _ => None,
        },
        _ => None,
    }
}

/// One value multiplied or divided by another, where there are two. Nothing can be
/// divided by zero.
pub open spec fn scaled(op: engine::ProductOp, a: Option<real>, b: Option<real>) -> Option<real> {
    match (a, b) {
        (Some(x), Some(y)) => match op {
            engine::ProductOp::Mul => Some(x * y),
            engine::ProductOp::Div => if y == 0 as real {
                None
            } else {
                Some(x / y)
            },
            _ => None,
        },
        _ => None,
    }
}

/// The greater of two numbers.
pub open spec fn greater(x: real, y: real) -> real {
    if x > y {
        x
    } else {
        y
    }
}

/// The lesser of two numbers.
pub open spec fn lesser(x: real, y: real) -> real {
    if x < y {
        x
    } else {
        y
    }
}

/// Whether `r` is the square root of `x`.
pub open spec fn is_root(r: real, x: real) -> bool {
    r >= 0 as real && r * r == x
}

/// The sum of the values that there are.
pub open spec fn sum_of_present(values: Seq<Option<real>>) -> real
    decreases values.len(),
{
    if values.len() == 0 {
        0 as real
    } else {
        sum_of_present(values.drop_last()) + (match values.last() {
            Some(x) => x,
            None => 0 as real,
        })
    }
}

/// How many values there are.
pub open spec fn count_of_present(values: Seq<Option<real>>) -> nat
    decreases values.len(),
{
    if values.len() == 0 {
        0
    } else {
        count_of_present(values.drop_last()) + (if values.last() is Some {
            1nat
        } else {
            0
        })
    }
}

/// The value of a call of `function` on `values`.
pub open spec fn call_value(function: engine::Function, values: Seq<Option<real>>) -> Option<real>
    decreases values.len(),
{
    if values.len() == 0 {
        None
    } else {
        let last = values.last();
        let front = values.drop_last();
        match function {
            engine::Function::Coalesce => match call_value(function, front) {
                Some(x) => Some(x),
                None => last,
            },
            engine::Function::Min => if front.len() == 0 {
                last
            } else {
                match (call_value(function, front), last) {
                    (Some(x), Some(y)) => Some(lesser(x, y)),
                    _ => None,
                }
            },
            engine::Function::Max => if front.len() == 0 {
                last
            } else {
                match (call_value(function, front), last) {
                    (Some(x), Some(y)) => Some(greater(x, y)),
                    _ => None,
                }
            },
            engine::Function::Avg => if count_of_present(values) == 0 {
                None
            } else {
                Some(sum_of_present(values) / (count_of_present(values) as real))
            },
            _ => match last {
                Some(x) => if exists|r: real| is_root(r, x) {
                    Some(choose|r: real| is_root(r, x))
                } else {
                    None
                },
                None => None,
            },
        }
    }
}

/// What an expression is worth, where its components read what `read` says. A
/// value that is missing makes what needs it missing.
pub open spec fn exact<K>(tree: Tree<K>, read: spec_fn(K) -> Option<real>) -> Option<real>
    decreases tree,
{
    match tree {
        Tree::Constant(value) => match value {
            Some(single) => number(single),
            None => None,
        },
        Tree::Neg(inner) => match exact(*inner, read) {
            Some(x) => Some(-x),
            None => None,
        },
        Tree::Sum { first, terms } => exact_sum(exact(*first, read), terms, read),
        Tree::Product { first, factors } => exact_product(exact(*first, read), factors, read),
        Tree::Function { function, args } => call_value(function, exact_all(args, read)),
        Tree::Component(key) => read(key),
    }
}

/// What each of the expressions is worth.
pub open spec fn exact_all<K>(args: Seq<Tree<K>>, read: spec_fn(K) -> Option<real>) -> Seq<
    Option<real>,
>
    decreases args,
{
    if args.len() == 0 {
        Seq::empty()
    } else {
        exact_all(args.subrange(0, args.len() - 1), read).push(exact(args[args.len() - 1], read))
    }
}

/// A value with the terms of a sum applied to it, from left to right.
pub open spec fn exact_sum<K>(
    start: Option<real>,
    terms: Seq<(engine::SumOp, Tree<K>)>,
    read: spec_fn(K) -> Option<real>,
) -> Option<real>
    decreases terms,
{
    if terms.len() == 0 {
        start
    } else {
        added(
            terms[terms.len() - 1].0,
            exact_sum(start, terms.subrange(0, terms.len() - 1), read),
            exact(terms[terms.len() - 1].1, read),
        )
    }
}

/// A value with the factors of a product applied to it, from left to right.
pub open spec fn exact_product<K>(
    start: Option<real>,
    factors: Seq<(engine::ProductOp, Tree<K>)>,
    read: spec_fn(K) -> Option<real>,
) -> Option<real>
    decreases factors,
{
    if factors.len() == 0 {
        start
    } else {
        scaled(
            factors[factors.len() - 1].0,
            exact_product(start, factors.subrange(0, factors.len() - 1), read),
            exact(factors[factors.len() - 1].1, read),
        )
    }
}

/// The bits of zero and one stand for zero and one.
pub proof fn law_bits_of_zero_and_one()
    ensures
        number(Single { bits: ZERO_BITS }) == Some(0 as real),
        number(Single { bits: ONE_BITS }) == Some(1 as real),
{
    vstd::arithmetic::power2::lemma2_to64();
    assert(two_to(-23) == (1 as real) / (0x80_0000 as real));
    assert((0x80_0000 as real) * ((1 as real) / (0x80_0000 as real)) == 1 as real);
    assert((0 as real) * two_to(-149) == 0 as real);
}

/// `plus` and `minus` add and subtract.
pub proof fn law_sums_are_sums<K>(a: Tree<K>, b: Tree<K>, read: spec_fn(K) -> Option<real>)
    ensures
        exact(a.plus(b), read) == added(engine::SumOp::Add, exact(a, read), exact(b, read)),
        exact(a.minus(b), read) == added(engine::SumOp::Sub, exact(a, read), exact(b, read)),
{
    lemma_summed(engine::SumOp::Add, a, b, read);
    lemma_summed(engine::SumOp::Sub, a, b, read);
}

proof fn lemma_summed<K>(
    op: engine::SumOp,
    a: Tree<K>,
    b: Tree<K>,
    read: spec_fn(K) -> Option<real>,
)
    ensures
        exact(a.summed(op, b), read) == added(op, exact(a, read), exact(b, read)),
{
    let none = Seq::<(engine::SumOp, Tree<K>)>::empty();
    if let Tree::Sum { first, terms } = a {
        let more = terms.push((op, b));
        let start = exact(*first, read);
        assert(more.subrange(0, more.len() - 1) =~= terms);
        assert(a.summed(op, b) == (Tree::Sum { first, terms: more }));
        assert(exact_sum(start, more, read) == added(op, exact(a, read), exact(b, read)));
    } else {
        let one = seq![(op, b)];
        let first = Box::new(a);
        assert(a.summed(op, b) == (Tree::Sum { first, terms: one }));
        assert(exact(a.summed(op, b), read) == exact_sum(exact(a, read), one, read));
        assert(one.subrange(0, 0) =~= none);
        assert(exact_sum(exact(a, read), none, read) == exact(a, read));
        assert(exact_sum(exact(a, read), one, read) == added(op, exact(a, read), exact(b, read)));
    }
}

/// `times` and `over` multiply and divide.
pub proof fn law_products_are_products<K>(a: Tree<K>, b: Tree<K>, read: spec_fn(K) -> Option<real>)
    ensures
        exact(a.times(b), read) == scaled(engine::ProductOp::Mul, exact(a, read), exact(b, read)),
        exact(a.over(b), read) == scaled(engine::ProductOp::Div, exact(a, read), exact(b, read)),
{
    lemma_multiplied(engine::ProductOp::Mul, a, b, read);
    lemma_multiplied(engine::ProductOp::Div, a, b, read);
}

proof fn lemma_multiplied<K>(
    op: engine::ProductOp,
    a: Tree<K>,
    b: Tree<K>,
    read: spec_fn(K) -> Option<real>,
)
    ensures
        exact(a.multiplied(op, b), read) == scaled(op, exact(a, read), exact(b, read)),
{
    let none = Seq::<(engine::ProductOp, Tree<K>)>::empty();
    if let Tree::Product { first, factors } = a {
        let more = factors.push((op, b));
        let start = exact(*first, read);
        assert(more.subrange(0, more.len() - 1) =~= factors);
        assert(a.multiplied(op, b) == (Tree::Product { first, factors: more }));
        assert(exact_product(start, more, read) == scaled(op, exact(a, read), exact(b, read)));
    } else {
        let one = seq![(op, b)];
        let first = Box::new(a);
        assert(a.multiplied(op, b) == (Tree::Product { first, factors: one }));
        assert(exact(a.multiplied(op, b), read) == exact_product(exact(a, read), one, read));
        assert(one.subrange(0, 0) =~= none);
        assert(exact_product(exact(a, read), none, read) == exact(a, read));
        assert(exact_product(exact(a, read), one, read) == scaled(op, exact(a, read), exact(b, read)));
    }
}

/// Whether the expression is no call of `function`.
pub open spec fn no_call_of<K>(tree: Tree<K>, function: engine::Function) -> bool {
    tree matches Tree::Function { function: own, .. } ==> own != function
}

proof fn lemma_called<K>(
    function: engine::Function,
    a: Tree<K>,
    b: Tree<K>,
    read: spec_fn(K) -> Option<real>,
)
    requires
        no_call_of(a, function),
        no_call_of(b, function),
    ensures
        exact(a.called_with(function, b), read) == call_value(
            function,
            seq![exact(a, read), exact(b, read)],
        ),
{
    let args = a.args_of(function) + b.args_of(function);
    assert(args =~= seq![a, b]);
    assert(args.subrange(0, 1) =~= seq![a]);
    assert(seq![a].subrange(0, 0) =~= Seq::<Tree<K>>::empty());
    reveal_with_fuel(exact, 2);
    reveal_with_fuel(exact_all, 4);
    assert(exact_all(args, read) =~= seq![exact(a, read), exact(b, read)]);
}

/// The functions of two expressions that are no calls of the same function.
pub proof fn law_calls_of_two<K>(a: Tree<K>, b: Tree<K>, read: spec_fn(K) -> Option<real>)
    ensures
        no_call_of(a, engine::Function::Coalesce) && no_call_of(b, engine::Function::Coalesce)
            ==> exact(a.coalesce(b), read) == (if exact(a, read) is Some {
            exact(a, read)
        } else {
            exact(b, read)
        }),
        no_call_of(a, engine::Function::Max) && no_call_of(b, engine::Function::Max) ==> exact(
            a.max(b),
            read,
        ) == (match (exact(a, read), exact(b, read)) {
            (Some(x), Some(y)) => Some(greater(x, y)),
            _ => None,
        }),
        no_call_of(a, engine::Function::Min) && no_call_of(b, engine::Function::Min) ==> exact(
            a.min(b),
            read,
        ) == (match (exact(a, read), exact(b, read)) {
            (Some(x), Some(y)) => Some(lesser(x, y)),
            _ => None,
        }),
{
    reveal_with_fuel(call_value, 3);
    let two = seq![exact(a, read), exact(b, read)];
    assert(two.drop_last() =~= seq![exact(a, read)]);
    assert(two.drop_last().drop_last() =~= Seq::<Option<real>>::empty());
    if no_call_of(a, engine::Function::Coalesce) && no_call_of(b, engine::Function::Coalesce) {
        lemma_called(engine::Function::Coalesce, a, b, read);
    }
    if no_call_of(a, engine::Function::Max) && no_call_of(b, engine::Function::Max) {
        lemma_called(engine::Function::Max, a, b, read);
    }
    if no_call_of(a, engine::Function::Min) && no_call_of(b, engine::Function::Min) {
        lemma_called(engine::Function::Min, a, b, read);
    }
}

proof fn lemma_two_to(n: int)
    ensures
        two_to(n) > 0 as real,
        two_to(n + 1) == two_to(n) + two_to(n),
{
    if n >= 0 {
        lemma_pow2_pos(n as nat);
        lemma_pow2_unfold((n + 1) as nat);
        assert(pow2((n + 1) as nat) == pow2(n as nat) + pow2(n as nat));
    } else {
        let m = (-n) as nat;
        lemma_pow2_pos(m);
        lemma_pow2_unfold(m);
        lemma_pow2_pos((m - 1) as nat);
        let half = pow2((m - 1) as nat) as real;
        let whole = pow2(m) as real;
        assert(whole == half + half);
        lemma_halves(half, whole);
        assert(two_to(n) == (1 as real) / whole);
        if n == -1 {
            lemma2_to64();
            assert(half == 1 as real);
            assert((1 as real) / half == 1 as real) by (nonlinear_arith)
                requires
                    half == 1 as real,
            ;
        }
    }
}

proof fn lemma_halves(half: real, whole: real)
    by (nonlinear_arith)
    requires
        half > 0 as real,
        whole == half + half,
    ensures
        (1 as real) / whole > 0 as real,
        (1 as real) / half == (1 as real) / whole + (1 as real) / whole,
{
}

proof fn lemma_next_magnitude(bits: int)
    requires
        0 <= bits,
    ensures
        magnitude_of(bits) < magnitude_of(bits + 1),
{
    let exponent = bits / 0x80_0000;
    let fraction = bits % 0x80_0000;
    lemma_two_to(-149);
    lemma_two_to(exponent - 150);
    let step = two_to(exponent - 150);
    if fraction + 1 < 0x80_0000 {
        assert((bits + 1) / 0x80_0000 == exponent);
        assert((bits + 1) % 0x80_0000 == fraction + 1);
        if exponent == 0 {
            lemma_one_more(fraction, two_to(-149));
        } else {
            lemma_one_more(fraction + 0x80_0000, step);
        }
    } else {
        assert((bits + 1) / 0x80_0000 == exponent + 1);
        assert((bits + 1) % 0x80_0000 == 0);
        assert(exponent + 1 - 150 == (exponent - 150) + 1);
        if exponent == 0 {
            lemma_one_more(fraction, two_to(-149));
        } else {
            lemma_one_more(fraction + 0x80_0000, step);
            lemma_twice(0x80_0000, step);
        }
    }
}

proof fn lemma_one_more(n: int, step: real)
    by (nonlinear_arith)
    requires
        step > 0 as real,
    ensures
        (n as real) * step < ((n + 1) as real) * step,
{
}

proof fn lemma_twice(n: int, step: real)
    by (nonlinear_arith)
    ensures
        ((n + n) as real) * step == (n as real) * (step + step),
{
}

proof fn lemma_magnitudes_ascend(a: int, b: int)
    requires
        0 <= a < b,
    ensures
        magnitude_of(a) < magnitude_of(b),
    decreases b - a,
{
    lemma_next_magnitude(b - 1);
    if a < b - 1 {
        lemma_magnitudes_ascend(a, b - 1);
    }
}

proof fn lemma_magnitude_is_not_negative(bits: int)
    requires
        0 <= bits,
    ensures
        magnitude_of(0) == 0 as real,
        magnitude_of(bits) >= 0 as real,
{
    assert(magnitude_of(0) == 0 as real) by (nonlinear_arith)
        requires
            magnitude_of(0) == (0 as real) * two_to(-149),
    ;
    if bits > 0 {
        lemma_magnitudes_ascend(0, bits);
    }
}

/// Bits are compared as the numbers that they stand for.
pub proof fn law_order_is_that_of_the_numbers(a: Single, b: Single)
    requires
        number(a) is Some,
        number(b) is Some,
    ensures
        a.spec_lt(b) <==> number(a)->0 < number(b)->0,
        a.spec_le(b) <==> number(a)->0 <= number(b)->0,
        a.is_equal(b) <==> number(a)->0 == number(b)->0,
{
    let x = a.spec_magnitude();
    let y = b.spec_magnitude();
    lemma_magnitude_is_not_negative(x);
    lemma_magnitude_is_not_negative(y);
    if x < y {
        lemma_magnitudes_ascend(x, y);
    }
    if y < x {
        lemma_magnitudes_ascend(y, x);
    }
    if x > 0 {
        lemma_magnitudes_ascend(0, x);
    }
    if y > 0 {
        lemma_magnitudes_ascend(0, y);
    }
}

/// The greater of two numbers has the greater value, and the lesser the lesser.
pub proof fn law_max_and_min_are_those_of_the_numbers(a: Single, b: Single)
    requires
        number(a) is Some,
        number(b) is Some,
    ensures
        number(a.spec_max(b)) == Some(greater(number(a)->0, number(b)->0)),
        number(a.spec_min(b)) == Some(lesser(number(a)->0, number(b)->0)),
{
    law_order_is_that_of_the_numbers(a, b);
    law_order_is_that_of_the_numbers(b, a);
}

/// Without its sign a number is as far from zero, and not below it.
pub proof fn law_magnitude_is_the_absolute_value(a: Single, unsigned: Single)
    requires
        number(a) is Some,
        unsigned.bits == a.spec_magnitude(),
    ensures
        number(unsigned) is Some,
        number(unsigned)->0 >= 0 as real,
        number(unsigned)->0 == number(a)->0 || number(unsigned)->0 == -number(a)->0,
{
    lemma_magnitude_is_not_negative(a.spec_magnitude());
}

/// `AVG` of two is their mean, and where only one has a value, that value; `AVG` of
/// one is that one.
pub proof fn law_averages_are_means<K>(a: Tree<K>, b: Tree<K>, read: spec_fn(K) -> Option<real>)
    ensures
        exact(a.avg(seq![b]), read) == (match (exact(a, read), exact(b, read)) {
            (Some(x), Some(y)) => Some((x + y) / (2 as real)),
            (Some(x), None) => Some(x),
            (None, Some(y)) => Some(y),
            (None, None) => None,
        }),
        exact(a.avg(Seq::empty()), read) == exact(a, read),
{
    let x = exact(a, read);
    let y = exact(b, read);
    let args = seq![a] + seq![b];
    let one = seq![a] + Seq::<Tree<K>>::empty();
    assert(one =~= seq![a]);
    assert(args.subrange(0, 1) =~= seq![a]);
    lemma_one_value(a, read);
    assert(args[1] == b);
    assert(exact_all(args, read) =~= seq![x, y]);
    assert(exact(a.avg(seq![b]), read) == call_value(engine::Function::Avg, seq![x, y]));
    assert(exact(a.avg(Seq::empty()), read) == call_value(engine::Function::Avg, seq![x]));
    lemma_mean(x, y);
    if let Some(v) = x {
        lemma_over_one(v);
    }
    if let Some(v) = y {
        lemma_over_one(v);
    }
}

proof fn lemma_over_one(v: real)
    by (nonlinear_arith)
    ensures
        v / (1 as real) == v,
{
}

proof fn lemma_one_value<K>(a: Tree<K>, read: spec_fn(K) -> Option<real>)
    ensures
        exact_all(seq![a], read) == seq![exact(a, read)],
{
    let one = seq![a];
    assert(one.subrange(0, 0) =~= Seq::<Tree<K>>::empty());
    assert(exact_all(one.subrange(0, 0), read) =~= Seq::<Option<real>>::empty());
    assert(exact_all(one, read) =~= seq![exact(a, read)]);
}

proof fn lemma_mean(x: Option<real>, y: Option<real>)
    ensures
        sum_of_present(seq![x, y]) == (match x {
            Some(v) => v,
            None => 0 as real,
        }) + (match y {
            Some(v) => v,
            None => 0 as real,
        }),
        count_of_present(seq![x, y]) == (if x is Some {
            1nat
        } else {
            0
        }) + (if y is Some {
            1nat
        } else {
            0
        }),
        sum_of_present(seq![x]) == (match x {
            Some(v) => v,
            None => 0 as real,
        }),
        count_of_present(seq![x]) == (if x is Some {
            1nat
        } else {
            0
        }),
{
    reveal_with_fuel(sum_of_present, 3);
    reveal_with_fuel(count_of_present, 3);
    assert(seq![x, y].drop_last() =~= seq![x]);
    assert(seq![x].drop_last() =~= Seq::<Option<real>>::empty());
}

}
