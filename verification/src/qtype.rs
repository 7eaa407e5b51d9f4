//! Type codes of q objects as they appear on the wire.
//!
//! Negative codes denote atoms, the matching positive codes denote typed
//! lists, and the codes from 98 upward denote containers and function-like
//! objects.  Any code outside this closed set is rejected by the
//! deserializer.

use vstd::prelude::*;

verus! {

pub const BOOL_ATOM: i8 = -1;
pub const GUID_ATOM: i8 = -2;
pub const BYTE_ATOM: i8 = -4;
pub const SHORT_ATOM: i8 = -5;
pub const INT_ATOM: i8 = -6;
pub const LONG_ATOM: i8 = -7;
pub const REAL_ATOM: i8 = -8;
pub const FLOAT_ATOM: i8 = -9;
pub const CHAR: i8 = -10;
pub const SYMBOL_ATOM: i8 = -11;
pub const TIMESTAMP_ATOM: i8 = -12;
pub const MONTH_ATOM: i8 = -13;
pub const DATE_ATOM: i8 = -14;
pub const DATETIME_ATOM: i8 = -15;
pub const TIMESPAN_ATOM: i8 = -16;
pub const MINUTE_ATOM: i8 = -17;
pub const SECOND_ATOM: i8 = -18;
pub const TIME_ATOM: i8 = -19;
pub const ENUM_ATOM: i8 = -20;

pub const COMPOUND_LIST: i8 = 0;
pub const BOOL_LIST: i8 = 1;
pub const GUID_LIST: i8 = 2;
pub const BYTE_LIST: i8 = 4;
pub const SHORT_LIST: i8 = 5;
pub const INT_LIST: i8 = 6;
pub const LONG_LIST: i8 = 7;
pub const REAL_LIST: i8 = 8;
pub const FLOAT_LIST: i8 = 9;
pub const STRING: i8 = 10;
pub const SYMBOL_LIST: i8 = 11;
pub const TIMESTAMP_LIST: i8 = 12;
pub const MONTH_LIST: i8 = 13;
pub const DATE_LIST: i8 = 14;
pub const DATETIME_LIST: i8 = 15;
pub const TIMESPAN_LIST: i8 = 16;
pub const MINUTE_LIST: i8 = 17;
pub const SECOND_LIST: i8 = 18;
pub const TIME_LIST: i8 = 19;
pub const ENUM_LIST: i8 = 20;

pub const TABLE: i8 = 98;
pub const DICTIONARY: i8 = 99;
pub const LAMBDA: i8 = 100;
/// The generic null `(::)` travels as a unary primitive with id 0, so it
/// shares the code 101 with [`UNARY_PRIMITIVE`].
pub const NULL: i8 = 101;
pub const UNARY_PRIMITIVE: i8 = 101;
pub const BINARY_PRIMITIVE: i8 = 102;
pub const PROJECTION: i8 = 104;
pub const COMPOSITION: i8 = 105;
pub const EACH: i8 = 106;
pub const OVER: i8 = 107;
pub const SCAN: i8 = 108;
pub const EACH_PRIOR: i8 = 109;
pub const EACH_LEFT: i8 = 110;
pub const EACH_RIGHT: i8 = 111;
pub const FOREIGN: i8 = 112;
pub const SORTED_DICTIONARY: i8 = 127;
pub const ERROR: i8 = -128;

} // verus!
