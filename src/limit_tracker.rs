//! Tracks how much of a quota is used, and warns through a messenger as the
//! use nears or passes the quota.

use vstd::prelude::*;

verus! {

/// Where warnings go; callers supply their own.
pub trait Messenger {
    fn send(&self, msg: &str);
}

/// How close a value has come to its quota.
#[derive(Debug, Clone, Copy, PartialEq, Eq, Structural)]
pub enum QuotaWarning {
    /// At least 75% of the quota.
    Warning,
    /// At least 90% of the quota.
    Urgent,
    /// The whole quota or more.
    OverQuota,
}

/// The warning owed for `value` against quota `max`, comparing the ratio
/// `value / max` with 1, 0.9 and 0.75 exactly.  With a zero quota any
/// positive value is over it, and a zero value warrants nothing.
pub open spec fn quota_level(value: int, max: int) -> Option<QuotaWarning> {
    if max == 0 {
        if value > 0 {
            Some(QuotaWarning::OverQuota)
        } else {
            None
        }
    } else if value >= max {
        Some(QuotaWarning::OverQuota)
    } else if 10 * value >= 9 * max {
        Some(QuotaWarning::Urgent)
    } else if 4 * value >= 3 * max {
        Some(QuotaWarning::Warning)
    } else {
        None
    }
}

/// The warning owed for `value` against quota `max`, if any.
pub fn quota_warning(value: usize, max: usize) -> (r: Option<QuotaWarning>)
    ensures
        r == quota_level(value as int, max as int),
{
    let v = value as u128;
    let m = max as u128;
    if m == 0 {
        if v > 0 {
            Some(QuotaWarning::OverQuota)
        } else {
            None
        }
    } else if v >= m {
        Some(QuotaWarning::OverQuota)
    } else if 10 * v >= 9 * m {
        Some(QuotaWarning::Urgent)
    } else if 4 * v >= 3 * m {
        Some(QuotaWarning::Warning)
    } else {
        None
    }
}

impl QuotaWarning {
    /// The text sent for this warning.
    pub fn message(&self) -> (r: &'static str)
        ensures
            *self == QuotaWarning::OverQuota ==> r@ == "Error: You are over your quota!"@,
            *self == QuotaWarning::Urgent ==> r@
                == "Urgent warning: You've used up over 90% of your quota!"@,
            *self == QuotaWarning::Warning ==> r@
                == "Warning: You've used up over 75% of your quota!"@,
    {
        match self {
            QuotaWarning::OverQuota => "Error: You are over your quota!",
            QuotaWarning::Urgent => "Urgent warning: You've used up over 90% of your quota!",
            QuotaWarning::Warning => "Warning: You've used up over 75% of your quota!",
        }
    }
}

pub struct LimitTracker<'a, T: Messenger> {
    messenger: &'a T,
    value: usize,
    max: usize,
}

impl<'a, T: Messenger> LimitTracker<'a, T> {
    pub closed spec fn spec_value(&self) -> usize {
        self.value
    }

    pub closed spec fn spec_max(&self) -> usize {
        self.max
    }

    /// A tracker for quota `max`, with nothing used yet.
    pub fn new(messenger: &'a T, max: usize) -> (r: LimitTracker<'a, T>)
        ensures
            r.spec_value() == 0,
            r.spec_max() == max,
    {
        LimitTracker { messenger, value: 0, max }
    }

    /// Records `value` as the amount used, and sends the message of
    /// `quota_warning(value, max)` when there is one.
    pub fn set_value(&mut self, value: usize)
        ensures
            final(self).spec_value() == value,
            final(self).spec_max() == old(self).spec_max(),
    {
        self.value = value;
        match quota_warning(self.value, self.max) {
            Some(w) => self.messenger.send(w.message()),
            None => {},
        }
    }
}

} // verus!
