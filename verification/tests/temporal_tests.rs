//! Temporal classification and calendar arithmetic.

use kdb_codec::temporal::{classify_date, classify_month, month_to_year_month, TemporalValue,
    DATE_NEG_INF_THRESHOLD, DATE_POS_INF_THRESHOLD, MONTH_NEG_INF_THRESHOLD,
    MONTH_POS_INF_THRESHOLD};

#[test]
fn month_classification() {
    assert_eq!(classify_month(i32::MIN), TemporalValue::Null);
    assert_eq!(classify_month(MONTH_NEG_INF_THRESHOLD), TemporalValue::NegativeInfinity);
    assert_eq!(classify_month(MONTH_POS_INF_THRESHOLD), TemporalValue::PositiveInfinity);
    assert_eq!(classify_month(0), TemporalValue::Finite);
    assert_eq!(classify_month(288), TemporalValue::Finite);
}

#[test]
fn date_classification() {
    assert_eq!(classify_date(i32::MIN), TemporalValue::Null);
    assert_eq!(classify_date(DATE_NEG_INF_THRESHOLD), TemporalValue::NegativeInfinity);
    assert_eq!(classify_date(DATE_POS_INF_THRESHOLD), TemporalValue::PositiveInfinity);
    assert_eq!(classify_date(8780), TemporalValue::Finite);
}

#[test]
fn month_decomposition() {
    // 288 months after 2000-01 is 2024-01
    assert_eq!(month_to_year_month(288), (2024, 1));
    // 287 months after 2000-01 is 2023-12
    assert_eq!(month_to_year_month(287), (2023, 12));
    assert_eq!(month_to_year_month(0), (2000, 1));
    assert_eq!(month_to_year_month(11), (2000, 12));
}
