//! Temporal offsets: classification of q temporal values and the exact
//! calendar arithmetic behind the month conversion.
//!
//! q stores temporal values as offsets from the epoch 2000-01-01T00:00:00:
//! nanoseconds (timestamp, timespan), months, days, minutes, seconds or
//! milliseconds.  A calendar library turns these into dates and durations in
//! the unverified layer; what is verified here is the classification of the
//! sentinels (null, the two infinities, the clamping thresholds) and the
//! year/month decomposition.

use vstd::prelude::*;
use crate::qnull_base;

verus! {

/// Nanoseconds in one day.
pub const ONE_DAY_NANOS: i64 = 86400000000000;

/// Milliseconds in one day.
pub const ONE_DAY_MILLIS: i64 = 86400000;

/// Months between 1970-01 and the q epoch 2000-01.
pub const KDB_MONTH_OFFSET: i32 = 360;

/// Days between 1970-01-01 and the q epoch 2000-01-01.
pub const KDB_DAY_OFFSET: i32 = 10957;

/// Nanoseconds between 1970-01-01T00:00:00 and the q epoch.
pub const KDB_TIMESTAMP_OFFSET: i64 = 946684800000000000;

/// A month count at or below this is clamped to negative infinity (the
/// calendar library's lower bound).
pub const MONTH_NEG_INF_THRESHOLD: i32 = -3171072;

/// A month count at or above this is clamped to positive infinity (the
/// calendar library's upper bound).
pub const MONTH_POS_INF_THRESHOLD: i32 = 3121728;

/// A day count at or below this is clamped to negative infinity.
pub const DATE_NEG_INF_THRESHOLD: i32 = -96476615;

/// A day count at or above this is clamped to positive infinity.
pub const DATE_POS_INF_THRESHOLD: i32 = 95015644;

/// Classification of a temporal offset.
#[derive(Debug, Clone, Copy, PartialEq, Eq, Structural)]
pub enum TemporalValue {
    /// The null sentinel.
    Null,
    /// Below the representable range.
    NegativeInfinity,
    /// Above the representable range.
    PositiveInfinity,
    /// An ordinary in-range offset.
    Finite,
}

/// Classify a q month offset (months since 2000-01).
pub fn classify_month(months: i32) -> (r: TemporalValue)
    ensures
        r == (if months == qnull_base::I {
            TemporalValue::Null
        } else if months <= MONTH_NEG_INF_THRESHOLD {
            TemporalValue::NegativeInfinity
        } else if months >= MONTH_POS_INF_THRESHOLD {
            TemporalValue::PositiveInfinity
        } else {
            TemporalValue::Finite
        }),
{
    if months == qnull_base::I {
        TemporalValue::Null
    } else if months <= MONTH_NEG_INF_THRESHOLD {
        TemporalValue::NegativeInfinity
    } else if months >= MONTH_POS_INF_THRESHOLD {
        TemporalValue::PositiveInfinity
    } else {
        TemporalValue::Finite
    }
}

/// Classify a q date offset (days since 2000-01-01).
pub fn classify_date(days: i32) -> (r: TemporalValue)
    ensures
        r == (if days == qnull_base::I {
            TemporalValue::Null
        } else if days <= DATE_NEG_INF_THRESHOLD {
            TemporalValue::NegativeInfinity
        } else if days >= DATE_POS_INF_THRESHOLD {
            TemporalValue::PositiveInfinity
        } else {
            TemporalValue::Finite
        }),
{
    if days == qnull_base::I {
        TemporalValue::Null
    } else if days <= DATE_NEG_INF_THRESHOLD {
        TemporalValue::NegativeInfinity
    } else if days >= DATE_POS_INF_THRESHOLD {
        TemporalValue::PositiveInfinity
    } else {
        TemporalValue::Finite
    }
}

/// Year and month (1 to 12) of a non-negative q month offset:
/// `2000 + months / 12` and `1 + months % 12`.
pub fn month_to_year_month(months: i32) -> (r: (i32, i32))
    requires
        0 <= months < MONTH_POS_INF_THRESHOLD,
    ensures
        r.0 == 2000 + months / 12,
        r.1 == 1 + months % 12,
        1 <= r.1 <= 12,
        r.0 * 12 + (r.1 - 1) == 24000 + months,
{
    let y = 2000 + months / 12;
    let m = 1 + months % 12;
    proof {
        vstd::arithmetic::div_mod::lemma_fundamental_div_mod(months as int, 12);
    }
    (y, m)
}

} // verus!
