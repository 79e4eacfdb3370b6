//! A quota tracker that warns through a caller-supplied messenger as the
//! tracked value approaches its maximum.  Which warning a value provokes
//! is decided by a verified function with an exact contract; only the
//! delivery goes through the caller's messenger.

use vstd::prelude::*;

verus! {

/// The outgoing channel for warnings.  Implementations belong to callers;
/// nothing is assumed about what `send` does.
pub trait Messenger {
    fn send(&self, msg: &str);
}

/// How close a value is to its quota.
#[derive(Clone, Copy, Debug, PartialEq, Eq, Structural)]
pub enum QuotaLevel {
    /// Below three quarters of the quota: nothing to say.
    Fine,
    /// At or above three quarters of the quota.
    Warning,
    /// At or above nine tenths of the quota.
    Urgent,
    /// At or above the quota itself.
    Over,
}

/// The level a value reaches against a quota, with the thresholds compared
/// exactly in integers: the value is at a fraction p/q of the quota when
/// `value * q >= max * p`.  A zero quota puts any nonzero value over it; a
/// zero value against a zero quota is no ratio at all and stays `Fine`.
pub open spec fn quota_level(value: usize, max: usize) -> QuotaLevel {
    if max == 0 {
        if value > 0 {
            QuotaLevel::Over
        } else {
            QuotaLevel::Fine
        }
    } else if value >= max {
        QuotaLevel::Over
    } else if value * 10 >= max * 9 {
        QuotaLevel::Urgent
    } else if value * 4 >= max * 3 {
        QuotaLevel::Warning
    } else {
        QuotaLevel::Fine
    }
}

/// Computes `quota_level` on machine integers.
pub fn level_for(value: usize, max: usize) -> (r: QuotaLevel)
    ensures
        r == quota_level(value, max),
{
    let v = value as u128;
    let m = max as u128;
    if max == 0 {
        if value > 0 {
            QuotaLevel::Over
        } else {
            QuotaLevel::Fine
        }
    } else if value >= max {
        QuotaLevel::Over
    } else if v * 10 >= m * 9 {
        proof {
            assert(value * 10 == v * 10 && max * 9 == m * 9);
        }
        QuotaLevel::Urgent
    } else if v * 4 >= m * 3 {
        proof {
            assert(value * 10 == v * 10 && max * 9 == m * 9);
            assert(value * 4 == v * 4 && max * 3 == m * 3);
        }
        QuotaLevel::Warning
    } else {
        proof {
            assert(value * 10 == v * 10 && max * 9 == m * 9);
            assert(value * 4 == v * 4 && max * 3 == m * 3);
        }
        QuotaLevel::Fine
    }
}

/// The exact message a level provokes, `None` below the warning line.
/// `set_value` hands a level's message, and nothing else, to the
/// messenger.
pub fn quota_message(level: QuotaLevel) -> (r: Option<&'static str>)
    ensures
        level == QuotaLevel::Over ==> (r matches Some(m) && m@ == "Error: You are over your quota!"@),
        level == QuotaLevel::Urgent ==> (r matches Some(m) && m@
            == "Urgent warning: You've used up over 90% of your quota!"@),
        level == QuotaLevel::Warning ==> (r matches Some(m) && m@
            == "Warning: You've used up over 75% of your quota!"@),
        level == QuotaLevel::Fine ==> r is None,
{
    match level {
        QuotaLevel::Over => Some("Error: You are over your quota!"),
        QuotaLevel::Urgent => Some("Urgent warning: You've used up over 90% of your quota!"),
        QuotaLevel::Warning => Some("Warning: You've used up over 75% of your quota!"),
        QuotaLevel::Fine => None,
    }
}

pub struct LimitTracker<'a, T: Messenger> {
    messenger: &'a T,
    value: usize,
    max: usize,
}

impl<'a, T: Messenger> LimitTracker<'a, T> {
    /// The tracked value.
    pub closed spec fn value(self) -> usize {
        self.value
    }

    /// The quota.
    pub closed spec fn max(self) -> usize {
        self.max
    }

    /// The messenger warnings go to.
    pub closed spec fn messenger(self) -> &'a T {
        self.messenger
    }

    pub fn new(messenger: &'a T, max: usize) -> (t: LimitTracker<'a, T>)
        ensures
            t.value() == 0,
            t.max() == max,
            t.messenger() == messenger,
    {
        LimitTracker { messenger, value: 0, max }
    }

    /// Records the new value and, when `quota_level` says so, sends that
    /// level's `quota_message` — and no other text — to the messenger: an
    /// error at or over the quota, an urgent warning at nine tenths, a
    /// warning at three quarters, nothing below that.
    pub fn set_value(&mut self, value: usize)
        ensures
            final(self).value() == value,
            final(self).max() == old(self).max(),
            final(self).messenger() == old(self).messenger(),
    {
        self.value = value;
        match quota_message(level_for(value, self.max)) {
            Some(msg) => self.messenger.send(msg),
            None => {},
        }
    }
}

} // verus!
