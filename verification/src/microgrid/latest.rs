//! The value that a channel sent last, for receivers that come late.

use vstd::prelude::*;

verus! {

/// Remembers the value that was sent last.
///
/// A value is sent only where it differs from the one before it, and a receiver
/// that comes late is handed the last one at once.
#[derive(Clone, Debug)]
pub struct Latest<T> {
    current: Option<T>,
}

impl<T> Latest<T> {
    /// The value that was sent last.
    pub closed spec fn spec_current(&self) -> Option<T> {
        self.current
    }

    /// Nothing was sent.
    pub fn new() -> (r: Self)
        ensures
            r.spec_current() is None,
    {
        Latest { current: None }
    }

    /// What a receiver that comes now is handed first: the value that was sent
    /// last.
    pub fn replay(&self) -> (r: Option<&T>)
        ensures
            match r {
                Some(value) => self.spec_current() == Some(*value),
                None => self.spec_current() is None,
            },
    {
        match &self.current {
            Some(value) => Some(value),
            None => None,
        }
    }

    /// Takes the next value, and tells whether it is to be sent: it is, unless
    /// `is_same` finds it to be the one that was sent last.
    pub fn offer<F: Fn(&T, &T) -> bool>(&mut self, value: T, is_same: &F) -> (sent: bool)
        requires
            forall|a: T, b: T| #[trigger] call_requires(*is_same, (&a, &b)),
        ensures
            old(self).spec_current() matches Some(last) ==> call_ensures(
                *is_same,
                (&last, &value),
                !sent,
            ),
            old(self).spec_current() is None ==> sent,
            final(self).spec_current() == last_sent(old(self).spec_current(), value, sent),
    {
        let sent = match &self.current {
            Some(last) => !is_same(last, &value),
            None => true,
        };
        if sent {
            self.current = Some(value);
        }
        sent
    }
}

/// What was sent last, once `value` was offered: `value` where it was sent.
pub open spec fn last_sent<T>(before: Option<T>, value: T, sent: bool) -> Option<T> {
    if sent {
        Some(value)
    } else {
        before
    }
}

/// What was sent last, after values that were offered one after the other, each
/// with whether it was sent.
pub open spec fn last_sent_of_all<T>(offers: Seq<(T, bool)>) -> Option<T>
    decreases offers.len(),
{
    if offers.len() == 0 {
        None
    } else {
        last_sent(last_sent_of_all(offers.drop_last()), offers.last().0, offers.last().1)
    }
}

/// A receiver that comes late is handed the value that was sent last: the one at
/// `n`, where it was sent and nothing was sent after it.
pub proof fn law_late_receivers_see_the_latest<T>(offers: Seq<(T, bool)>, n: int)
    requires
        0 <= n < offers.len(),
        offers[n].1,
        forall|i: int| n < i < offers.len() ==> !(#[trigger] offers[i]).1,
    ensures
        last_sent_of_all(offers) == Some(offers[n].0),
    decreases offers.len(),
{
    if n < offers.len() - 1 {
        assert(!offers[offers.len() - 1].1);
        let front = offers.drop_last();
        assert forall|i: int| n < i < front.len() implies !(#[trigger] front[i]).1 by {
            assert(!offers[i].1);
        }
        law_late_receivers_see_the_latest(front, n);
    }
}

/// Where nothing was sent, a receiver that comes late is handed nothing.
pub proof fn law_nothing_to_see_before_the_first<T>(offers: Seq<(T, bool)>)
    requires
        forall|i: int| 0 <= i < offers.len() ==> !(#[trigger] offers[i]).1,
    ensures
        last_sent_of_all(offers) is None,
    decreases offers.len(),
{
    if offers.len() > 0 {
        let front = offers.drop_last();
        assert(!offers[offers.len() - 1].1);
        assert forall|i: int| 0 <= i < front.len() implies !(#[trigger] front[i]).1 by {
            assert(!offers[i].1);
        }
        law_nothing_to_see_before_the_first(front);
    }
}

}
