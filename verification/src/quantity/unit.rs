//! How quantities are written: the unit that fits the value, and no zeros at the
//! end.

use vstd::prelude::*;

use crate::single::Single;

verus! {

/// How many decimals are written where nothing else is asked for.
pub const DEFAULT_PRECISION: usize = 3;

/// A unit of a quantity.
pub struct Unit {
    /// The name of the unit.
    pub name: &'static str,
    /// How many base units it makes.
    pub scale: Single,
}

/// The place of the unit that fits a value, among units in ascending order: the
/// first one for a value up to it, and for others the last one that the value
/// reaches.
///
/// What is not a number has the last unit.
pub open spec fn fitting(units: Seq<Unit>, magnitude: Single) -> int {
    if magnitude.spec_le(units[0].scale) {
        0
    } else {
        first_range(units, magnitude, 0)
    }
}

/// The first place from `at` on whose unit the value reaches and whose next unit
/// it does not, or the last place.
pub open spec fn first_range(units: Seq<Unit>, magnitude: Single, at: int) -> int
    decreases units.len() - at,
{
    if at >= units.len() - 1 {
        units.len() - 1
    } else if units[at].scale.spec_le(magnitude) && magnitude.spec_lt(units[at + 1].scale) {
        at
    } else {
        first_range(units, magnitude, at + 1)
    }
}

/// The place of the unit that fits a value.
pub fn fitting_unit(units: &Vec<Unit>, magnitude: Single) -> (at: usize)
    requires
        units.len() > 0,
    ensures
        at < units.len(),
        at == fitting(units@, magnitude),
{
    if magnitude.le(units[0].scale) {
        return 0;
    }
    let mut at: usize = 0;
    while at < units.len() - 1
        invariant
            units.len() > 0,
            at <= units.len() - 1,
            !magnitude.spec_le(units@[0].scale),
            first_range(units@, magnitude, 0) == first_range(units@, magnitude, at as int),
        decreases units.len() - at,
    {
        if units[at].scale.le(magnitude) && magnitude.lt(units[at + 1].scale) {
            return at;
        }
        at = at + 1;
    }
    at
}

/// Whether each unit makes more base units than the one before it.
pub open spec fn ascending_units(units: Seq<Unit>) -> bool {
    &&& units.len() > 0
    &&& forall|i: int| 0 <= i < units.len() ==> !(#[trigger] units[i]).scale.spec_is_nan()
    &&& forall|i: int, j: int|
        0 <= i < j < units.len() ==> (#[trigger] units[i]).scale.spec_lt((#[trigger] units[j]).scale)
}

/// Among units in ascending order, the one that fits a number is the greatest
/// that the number reaches, or the first where it reaches none.
pub proof fn law_the_fitting_unit_is_the_greatest_reached(units: Seq<Unit>, magnitude: Single)
    requires
        ascending_units(units),
        !magnitude.spec_is_nan(),
    ensures
        ({
            let at = fitting(units, magnitude);
            &&& 0 <= at < units.len()
            &&& at > 0 ==> units[at].scale.spec_le(magnitude)
            &&& forall|i: int|
                at < i < units.len() ==> !(#[trigger] units[i]).scale.spec_le(magnitude)
        }),
{
    if !magnitude.spec_le(units[0].scale) {
        lemma_first_range(units, magnitude, 0);
    }
}

proof fn lemma_first_range(units: Seq<Unit>, magnitude: Single, at: int)
    requires
        ascending_units(units),
        !magnitude.spec_is_nan(),
        0 <= at < units.len(),
        units[at].scale.spec_le(magnitude),
    ensures
        ({
            let r = first_range(units, magnitude, at);
            &&& at <= r < units.len()
            &&& units[r].scale.spec_le(magnitude)
            &&& forall|i: int|
                r < i < units.len() ==> !(#[trigger] units[i]).scale.spec_le(magnitude)
        }),
    decreases units.len() - at,
{
    if at < units.len() - 1 && !magnitude.spec_lt(units[at + 1].scale) {
        lemma_first_range(units, magnitude, at + 1);
    }
}

/// `text` without the zeros at its end.
pub open spec fn without_zeros(text: Seq<char>) -> Seq<char>
    decreases text.len(),
{
    if text.len() > 0 && text.last() == '0' {
        without_zeros(text.drop_last())
    } else {
        text
    }
}

/// `text` without the point at its end.
pub open spec fn without_point(text: Seq<char>) -> Seq<char> {
    if text.len() > 0 && text.last() == '.' {
        text.drop_last()
    } else {
        text
    }
}

/// A number in decimal, without zeros that say nothing: those at the end, behind
/// the point.
pub open spec fn trimmed(text: Seq<char>) -> Seq<char> {
    if text.contains('.') {
        without_point(without_zeros(text))
    } else {
        without_point(text)
    }
}

/// Trimming takes nothing but zeros and then a point off the end of a number.
pub proof fn law_trimming_takes_zeros_and_a_point(text: Seq<char>)
    ensures
        ({
            let kept = trimmed(text);
            &&& kept.len() <= text.len()
            &&& kept == text.take(kept.len() as int)
            &&& forall|i: int|
                kept.len() <= i < text.len() ==> #[trigger] text[i] == '0' || (i == kept.len()
                    && text[i] == '.')
        }),
{
    lemma_without_zeros(text);
    assert(text.take(text.len() as int) =~= text);
    assert(trimmed(text) =~= text.take(trimmed(text).len() as int));
}

proof fn lemma_without_zeros(text: Seq<char>)
    ensures
        without_zeros(text).len() <= text.len(),
        without_zeros(text) == text.take(without_zeros(text).len() as int),
        forall|i: int|
            without_zeros(text).len() <= i < text.len() ==> #[trigger] text[i] == '0',
    decreases text.len(),
{
    if text.len() > 0 && text.last() == '0' {
        let front = text.drop_last();
        lemma_without_zeros(front);
        assert(without_zeros(text) =~= text.take(without_zeros(text).len() as int));
        assert forall|i: int|
            without_zeros(text).len() <= i < text.len() implies #[trigger] text[i] == '0' by {
            if i < front.len() {
                assert(front[i] == '0');
            }
        }
    } else {
        assert(text.take(text.len() as int) =~= text);
    }
}

fn has_point(text: &str) -> (r: bool)
    ensures
        r == text@.contains('.'),
{
    let n = text.unicode_len();
    let mut i: usize = 0;
    while i < n
        invariant
            i <= n,
            n == text@.len(),
            forall|k: int| 0 <= k < i ==> text@[k] != '.',
        decreases n - i,
    {
        if text.get_char(i) == '.' {
            assert(text@[i as int] == '.');
            return true;
        }
        i = i + 1;
    }
    false
}

/// A number in decimal, without zeros that say nothing.
pub fn format_float(text: &str) -> (r: String)
    ensures
        r@ == trimmed(text@),
{
    let mut end = text.unicode_len();
    if has_point(text) {
        assert(text@.take(end as int) =~= text@);
        while end > 0 && text.get_char(end - 1) == '0'
            invariant
                end <= text@.len(),
                without_zeros(text@) == without_zeros(text@.take(end as int)),
            decreases end,
        {
            assert(text@.take(end as int).drop_last() =~= text@.take(end - 1));
            end = end - 1;
        }
    }
    let ghost before = text@.take(end as int);
    assert(text@.contains('.') ==> before == without_zeros(text@));
    if end > 0 && text.get_char(end - 1) == '.' {
        end = end - 1;
        assert(text@.take(end as int) =~= before.drop_last());
    }
    assert(text@.subrange(0, end as int) =~= text@.take(end as int));
    let r = text.substring_char(0, end);
    String::from_str(r)
}

/// Writes a value in the unit that fits it. `over` divides numbers, and `render`
/// writes a number in decimal with the given number of decimals.
pub fn in_fitting_unit<F: Fn(Single, Single) -> Single, R: Fn(Single, usize) -> String>(
    value: Single,
    units: &Vec<Unit>,
    precision: Option<usize>,
    over: &F,
    render: &R,
) -> (text: String)
    requires
        units.len() > 0,
        forall|a: Single, b: Single| #[trigger] call_requires(*over, (a, b)),
        forall|a: Single, n: usize| #[trigger] call_requires(*render, (a, n)),
    ensures
        is_written(value, units@, precision, *over, *render, text@),
{
    let unit = &units[fitting_unit(units, value.abs())];
    let decimals = match precision {
        Some(n) => n,
        None => DEFAULT_PRECISION,
    };
    let scaled = over(value, unit.scale);
    let number = render(scaled, decimals);
    let mut text = format_float(number.as_str());
    text.append(" ");
    text.append(unit.name);
    proof {
        assert(rendered_in(*unit, value, decimals, *over, *render, scaled, number));
        assert(is_in_unit(*unit, value, decimals, *over, *render, text@));
        let magnitude = Single { bits: value.spec_magnitude() as u32 };
        assert(*unit == units@[fitting(units@, magnitude)]);
    }
    text
}

/// Whether `number` is what `render` writes of `value` in the given unit, which
/// is `scaled`.
pub open spec fn rendered_in<F: Fn(Single, Single) -> Single, R: Fn(Single, usize) -> String>(
    unit: Unit,
    value: Single,
    decimals: usize,
    over: F,
    render: R,
    scaled: Single,
    number: String,
) -> bool {
    call_ensures(over, (value, unit.scale), scaled) && call_ensures(
        render,
        (scaled, decimals),
        number,
    )
}

/// Whether `text` is how `value` is written in the given unit: the number,
/// trimmed, a space, and the name of the unit.
pub open spec fn is_in_unit<F: Fn(Single, Single) -> Single, R: Fn(Single, usize) -> String>(
    unit: Unit,
    value: Single,
    decimals: usize,
    over: F,
    render: R,
    text: Seq<char>,
) -> bool {
    exists|scaled: Single, number: String| #[trigger]
        rendered_in(unit, value, decimals, over, render, scaled, number) && text == trimmed(
            number@,
        ) + " "@ + unit.name@
}

/// Whether `text` is how `value` is written: in the unit that fits it.
pub open spec fn is_written<F: Fn(Single, Single) -> Single, R: Fn(Single, usize) -> String>(
    value: Single,
    units: Seq<Unit>,
    precision: Option<usize>,
    over: F,
    render: R,
    text: Seq<char>,
) -> bool {
    let magnitude = Single { bits: value.spec_magnitude() as u32 };
    let decimals = match precision {
        Some(n) => n,
        None => DEFAULT_PRECISION,
    };
    is_in_unit(units[fitting(units, magnitude)], value, decimals, over, render, text)
}

/// Trimming leaves no zero at the end of decimals, and no point at the end, and a
/// text without a point as it is.
pub proof fn law_trimming_leaves_nothing_to_trim(text: Seq<char>)
    requires
        forall|i: int, j: int|
            0 <= i < j < text.len() ==> !(#[trigger] text[i] == '.' && #[trigger] text[j] == '.'),
    ensures
        ({
            let kept = trimmed(text);
            &&& kept.len() > 0 ==> kept.last() != '.'
            &&& kept.contains('.') ==> kept.last() != '0'
            &&& !text.contains('.') ==> kept == text
        }),
{
    lemma_without_zeros(text);
    lemma_no_zero_is_left(text);
    let kept = trimmed(text);
    law_trimming_takes_zeros_and_a_point(text);
    if text.contains('.') {
        let bare = without_zeros(text);
        if bare.len() > 0 && bare.last() == '.' {
            assert(text[bare.len() - 1] == '.');
            if kept.contains('.') {
                let i = choose|i: int| 0 <= i < kept.len() && kept[i] == '.';
                assert(text[i] == '.');
            }
        }
    } else if text.len() > 0 && text.last() == '.' {
        assert(text.contains(text.last()));
    }
}

proof fn lemma_no_zero_is_left(text: Seq<char>)
    ensures
        without_zeros(text).len() > 0 ==> without_zeros(text).last() != '0',
    decreases text.len(),
{
    if text.len() > 0 && text.last() == '0' {
        lemma_no_zero_is_left(text.drop_last());
    }
}

/// What is not a number is written in the last unit.
pub proof fn law_what_is_no_number_has_the_last_unit(units: Seq<Unit>, magnitude: Single)
    requires
        units.len() > 0,
        magnitude.spec_is_nan(),
    ensures
        fitting(units, magnitude) == units.len() - 1,
{
    lemma_last_range(units, magnitude, 0);
}

proof fn lemma_last_range(units: Seq<Unit>, magnitude: Single, at: int)
    requires
        magnitude.spec_is_nan(),
        0 <= at < units.len(),
    ensures
        first_range(units, magnitude, at) == units.len() - 1,
    decreases units.len() - at,
{
    if at < units.len() - 1 {
        lemma_last_range(units, magnitude, at + 1);
    }
}

}
