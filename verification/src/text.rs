//! Text of numbers and sets of IDs, for messages.

use std::collections::BTreeSet;

use vstd::prelude::*;

use crate::ids;

verus! {

/// The decimal digit `d`, for `d` below ten.
pub open spec fn digit(d: int) -> char {
    (('0' as int) + d) as char
}

/// `n` in decimal, without leading zeros.
pub open spec fn decimal(n: nat) -> Seq<char>
    decreases n,
{
    if n < 10 {
        seq![digit(n as int)]
    } else {
        decimal(n / 10).push(digit((n % 10) as int))
    }
}

/// The IDs `q`, separated by commas.
pub open spec fn listed(q: Seq<u64>) -> Seq<char>
    decreases q.len(),
{
    if q.len() == 0 {
        Seq::empty()
    } else if q.len() == 1 {
        decimal(q[0] as nat)
    } else {
        listed(q.drop_last()) + ", "@ + decimal(q.last() as nat)
    }
}

/// A set of IDs in ascending order, in braces.
pub open spec fn id_set(s: Set<u64>) -> Seq<char> {
    "{"@ + listed(ids::in_order(s)) + "}"@
}

fn digit_text(d: u64) -> (t: &'static str)
    requires
        d < 10,
    ensures
        t@ == seq![digit(d as int)],
{
    proof {
        reveal_strlit("0");
        reveal_strlit("1");
        reveal_strlit("2");
        reveal_strlit("3");
        reveal_strlit("4");
        reveal_strlit("5");
        reveal_strlit("6");
        reveal_strlit("7");
        reveal_strlit("8");
        reveal_strlit("9");
    }
    let t = if d == 0 {
        "0"
    } else if d == 1 {
        "1"
    } else if d == 2 {
        "2"
    } else if d == 3 {
        "3"
    } else if d == 4 {
        "4"
    } else if d == 5 {
        "5"
    } else if d == 6 {
        "6"
    } else if d == 7 {
        "7"
    } else if d == 8 {
        "8"
    } else {
        "9"
    };
    assert(t@ =~= seq![digit(d as int)]);
    t
}

/// Appends `n` in decimal.
pub fn push_decimal(text: &mut String, n: u64)
    ensures
        final(text)@ == old(text)@ + decimal(n as nat),
    decreases n,
{
    if n < 10 {
        text.append(digit_text(n));
    } else {
        push_decimal(text, n / 10);
        text.append(digit_text(n % 10));
        assert(text@ =~= old(text)@ + decimal(n as nat));
    }
}

/// Appends a set of IDs, in ascending order and in braces.
pub fn push_id_set(text: &mut String, set: &BTreeSet<u64>)
    ensures
        final(text)@ == old(text)@ + id_set(set@),
{
    let all = ids::sorted(set);
    text.append("{");
    let ghost start = text@;
    let mut i: usize = 0;
    while i < all.len()
        invariant
            i <= all.len(),
            text@ == start + listed(all@.take(i as int)),
        decreases all.len() - i,
    {
        if i > 0 {
            text.append(", ");
        }
        push_decimal(text, all[i]);
        proof {
            let more = all@.take(i + 1);
            assert(more.drop_last() =~= all@.take(i as int));
            assert(text@ =~= start + listed(more));
        }
        i = i + 1;
    }
    assert(all@.take(all.len() as int) =~= all@);
    text.append("}");
    assert(text@ =~= old(text)@ + id_set(set@));
}

/// `name` without `prefix` in front of it, or as it is, where it has no such
/// prefix.
pub open spec fn without_prefix(name: Seq<char>, prefix: Seq<char>) -> Seq<char> {
    if prefix.len() <= name.len() && name.take(prefix.len() as int) == prefix {
        name.skip(prefix.len() as int)
    } else {
        name
    }
}

/// `name` without `prefix` in front of it, or as it is, where it has no such
/// prefix.
pub fn strip_prefix<'a>(name: &'a str, prefix: &str) -> (r: &'a str)
    ensures
        r@ == without_prefix(name@, prefix@),
{
    let n = name.unicode_len();
    let p = prefix.unicode_len();
    if p > n {
        return name;
    }
    let mut i: usize = 0;
    while i < p
        invariant
            i <= p <= n,
            n == name@.len(),
            p == prefix@.len(),
            forall|k: int| 0 <= k < i ==> name@[k] == prefix@[k],
        decreases p - i,
    {
        if name.get_char(i) != prefix.get_char(i) {
            assert(name@.take(p as int)[i as int] != prefix@[i as int]);
            return name;
        }
        i = i + 1;
    }
    assert(name@.take(p as int) =~= prefix@);
    assert(name@.subrange(p as int, n as int) =~= name@.skip(p as int));
    name.substring_char(p, n)
}

/// The number that decimal digits stand for, the last one for the units.
pub open spec fn number_of(text: Seq<char>) -> int
    decreases text.len(),
{
    if text.len() == 0 {
        0
    } else {
        10 * number_of(text.drop_last()) + (text.last() as int - '0' as int)
    }
}

/// A number in decimal reads back as that number. It is made of digits alone, and
/// begins with a zero only where it is zero.
pub proof fn law_decimals_read_back(n: nat)
    ensures
        number_of(decimal(n)) == n,
        decimal(n).len() > 0,
        forall|i: int| 0 <= i < decimal(n).len() ==> '0' <= #[trigger] decimal(n)[i] <= '9',
        decimal(n)[0] == '0' ==> n == 0 && decimal(n).len() == 1,
    decreases n,
{
    reveal_with_fuel(number_of, 2);
    if n < 10 {
        assert(decimal(n).drop_last() =~= Seq::<char>::empty());
    } else {
        law_decimals_read_back(n / 10);
        let front = decimal(n / 10);
        assert(decimal(n).drop_last() =~= front);
        assert(decimal(n)[0] == front[0]);
        assert forall|i: int| 0 <= i < decimal(n).len() implies '0' <= #[trigger] decimal(n)[i]
            <= '9' by {
            if i < front.len() {
                assert(decimal(n)[i] == front[i]);
            }
        }
    }
}

/// A list of IDs is what is listed of its first part, a comma and what is listed
/// of the rest; one ID is listed in decimal, and no ID as nothing.
pub proof fn law_lists_are_joined_by_commas(a: Seq<u64>, b: Seq<u64>, id: u64)
    ensures
        a.len() > 0 && b.len() > 0 ==> listed(a + b) == listed(a) + seq![',', ' '] + listed(b),
        listed(seq![id]) == decimal(id as nat),
        listed(Seq::empty()) == Seq::<char>::empty(),
    decreases b.len(),
{
    reveal_strlit(", ");
    assert(", "@ =~= seq![',', ' ']);
    if a.len() > 0 && b.len() > 0 {
        let front = b.drop_last();
        assert((a + b).drop_last() =~= a + front);
        assert((a + b).last() == b.last());
        if b.len() == 1 {
            assert(a + front =~= a);
            assert(listed(a + b) =~= listed(a) + seq![',', ' '] + listed(b));
        } else {
            law_lists_are_joined_by_commas(a, front, id);
            assert(listed(a + b) =~= listed(a) + seq![',', ' '] + listed(b));
        }
    }
}

/// A set of IDs is written with braces around the list of its IDs, each once and
/// each below the next.
pub proof fn law_sets_are_lists_in_braces(set: Set<u64>, list: Seq<u64>)
    requires
        list.to_set() == set,
        forall|i: int, j: int| 0 <= i < j < list.len() ==> list[i] < list[j],
    ensures
        id_set(set) == seq!['{'] + listed(list) + seq!['}'],
{
    reveal_strlit("{");
    reveal_strlit("}");
    assert("{"@ =~= seq!['{']);
    assert("}"@ =~= seq!['}']);
    ids::lemma_in_order(list);
}

/// What comes of taking a prefix off a name gives the name with the prefix back in
/// front, or is the name, which then does not begin with the prefix.
pub proof fn law_a_prefix_is_taken_off_once(name: Seq<char>, prefix: Seq<char>)
    ensures
        ({
            let rest = without_prefix(name, prefix);
            prefix + rest == name || (rest == name && forall|tail: Seq<char>|
                #[trigger] (prefix + tail) != name)
        }),
        without_prefix(prefix + name, prefix) == name,
{
    let rest = without_prefix(name, prefix);
    if prefix.len() <= name.len() && name.take(prefix.len() as int) == prefix {
        assert(prefix + rest =~= name);
    } else {
        assert forall|tail: Seq<char>| #[trigger] (prefix + tail) != name by {
            if prefix + tail == name {
                assert((prefix + tail).take(prefix.len() as int) =~= prefix);
            }
        }
    }
    assert((prefix + name).take(prefix.len() as int) =~= prefix);
    assert((prefix + name).skip(prefix.len() as int) =~= name);
}

}
