//! Deserialization of K values: the q `-9!` direction.
//!
//! Every decoding function is proved to return only values `k` whose
//! serialization [`ser`] is exactly the byte span it consumed — whenever
//! the decoder accepts a frame, re-encoding the result reproduces the
//! frame byte for byte.  On top of that, every decoded value respects the
//! configured list-size budget ([`lists_bounded`]) and nesting budget
//! ([`kheight`]), and decoding never allocates for a length claim above the
//! budget: the length checks run before the element loops.

use vstd::prelude::*;
use vstd::utf8::{encode_utf8, valid_utf8};
use vstd::string::StringExecFns;
use crate::endian::{uint_bytes, uint_value, read_uint, pow256, lemma_pow256_8,
    lemma_uint_bytes_of_value};
use crate::error::Error;
use crate::qtype;
use crate::qattribute;
use crate::serialize::{ser, ser_sym, ser_seq_from, ser_uints_from, ser_guids_from, ser_syms_from,
    lemma_ser_seq_push, lemma_ser_uints_push, lemma_ser_guids_push, lemma_ser_syms_push,
    lemma_ser_items_eq_ser_seq, u64s_of_i16, u64s_of_i32, u64s_of_i64, u64s_of_u32};
use crate::types::{K, KValue, wf, kheight, kheight_items, lemma_kheight_items_le, lists_bounded,
    lemma_lists_bounded_mono};

verus! {

broadcast use vstd::array::group_array_axioms;

/// Default ceiling on a declared list length.
pub const MAX_LIST_SIZE: usize = 100000000;

/// Default ceiling on nesting depth.
pub const MAX_RECURSION_DEPTH: usize = 100;

/// What every successful decode guarantees: the value is well-formed, its
/// serialization is exactly the consumed byte span `[start, next)`, and its
/// lists respect `max_list_size`.
pub open spec fn decoded(
    bytes: Seq<u8>,
    start: int,
    e: u8,
    max_list_size: int,
    k: K,
    next: int,
) -> bool {
    &&& wf(k)
    &&& 0 <= start < next <= bytes.len()
    &&& ser(k, e) == bytes.subrange(start, next)
    &&& lists_bounded(k, max_list_size as nat)
}

/// `j` is the position of the first 0x00 byte at or after `start`.
pub open spec fn first_nul_at(bytes: Seq<u8>, start: int, j: int) -> bool {
    start <= j < bytes.len() && bytes[j] == 0 && (forall|i: int| start <= i < j ==> bytes[i] != 0)
}

/// The closed set of recognized type codes.
pub open spec fn is_recognized_qtype(qt: i8) -> bool {
    ||| (crate::qtype::ERROR <= qt <= crate::qtype::ENUM_LIST && qt != -3 && qt != 3 && qt
        != -127 && !(crate::qtype::ERROR < qt < crate::qtype::ENUM_ATOM))
    ||| qt == crate::qtype::TABLE
    ||| qt == crate::qtype::DICTIONARY
    ||| crate::qtype::LAMBDA <= qt <= crate::qtype::FOREIGN && qt != 103
    ||| qt == crate::qtype::SORTED_DICTIONARY
}

/// Payload width of a fixed-width atom (including the one-byte unary and
/// binary primitives), or `None` for every other code.
pub open spec fn fixed_atom_width(qt: i8) -> Option<int> {
    if qt == crate::qtype::BOOL_ATOM || qt == crate::qtype::BYTE_ATOM || qt == crate::qtype::CHAR
        || qt == crate::qtype::UNARY_PRIMITIVE || qt == crate::qtype::BINARY_PRIMITIVE {
        Some(1)
    } else if qt == crate::qtype::SHORT_ATOM {
        Some(2)
    } else if qt == crate::qtype::INT_ATOM || qt == crate::qtype::MONTH_ATOM || qt
        == crate::qtype::DATE_ATOM || qt == crate::qtype::MINUTE_ATOM || qt
        == crate::qtype::SECOND_ATOM || qt == crate::qtype::TIME_ATOM || qt
        == crate::qtype::REAL_ATOM {
        Some(4)
    } else if qt == crate::qtype::LONG_ATOM || qt == crate::qtype::TIMESTAMP_ATOM || qt
        == crate::qtype::TIMESPAN_ATOM || qt == crate::qtype::FLOAT_ATOM || qt
        == crate::qtype::DATETIME_ATOM {
        Some(8)
    } else if qt == crate::qtype::GUID_ATOM {
        Some(16)
    } else {
        None
    }
}

/// Element width of a fixed-width list, or `None` for every other code
/// (strings, symbol lists, enum lists and containers have variable-width
/// elements).
pub open spec fn fixed_list_width(qt: i8) -> Option<int> {
    if qt == crate::qtype::BOOL_LIST || qt == crate::qtype::BYTE_LIST {
        Some(1)
    } else if qt == crate::qtype::SHORT_LIST {
        Some(2)
    } else if qt == crate::qtype::INT_LIST || qt == crate::qtype::MONTH_LIST || qt
        == crate::qtype::DATE_LIST || qt == crate::qtype::MINUTE_LIST || qt
        == crate::qtype::SECOND_LIST || qt == crate::qtype::TIME_LIST || qt
        == crate::qtype::REAL_LIST {
        Some(4)
    } else if qt == crate::qtype::LONG_LIST || qt == crate::qtype::TIMESTAMP_LIST || qt
        == crate::qtype::TIMESPAN_LIST || qt == crate::qtype::FLOAT_LIST || qt
        == crate::qtype::DATETIME_LIST {
        Some(8)
    } else if qt == crate::qtype::GUID_LIST {
        Some(16)
    } else {
        None
    }
}

/// Position of the first 0x00 byte at or after `i` (or the end of the
/// data).
pub open spec fn nul_from(bytes: Seq<u8>, i: int) -> int
    decreases bytes.len() - i,
{
    if i < 0 || i >= bytes.len() {
        bytes.len() as int
    } else if bytes[i] == 0 {
        i
    } else {
        nul_from(bytes, i + 1)
    }
}

pub proof fn lemma_nul_from(bytes: Seq<u8>, i: int)
    requires
        0 <= i <= bytes.len(),
    ensures
        i <= nul_from(bytes, i) <= bytes.len(),
        nul_from(bytes, i) < bytes.len() ==> bytes[nul_from(bytes, i)] == 0,
        forall|j: int| i <= j < nul_from(bytes, i) ==> bytes[j] != 0,
    decreases bytes.len() - i,
{
    if i < bytes.len() && bytes[i] != 0 {
        lemma_nul_from(bytes, i + 1);
    }
}

/// End position after `count` consecutive null-terminated UTF-8 symbols
/// starting at `start`, or `None` when one of them is missing its
/// terminator or is not UTF-8.
pub open spec fn dec_syms(bytes: Seq<u8>, start: int, count: int) -> Option<int>
    decreases count,
{
    if count <= 0 {
        Some(start)
    } else {
        let nl = nul_from(bytes, start);
        if 0 <= start && nl < bytes.len() && valid_utf8(bytes.subrange(start, nl)) {
            dec_syms(bytes, nl + 1, count - 1)
        } else {
            None
        }
    }
}

/// A sufficient condition for decode success: the number of bytes a
/// decodable value occupies at `cursor`, within the list budget and with
/// `budget` nesting levels left.  Conservative where the format is
/// heuristic or built by inspection: the dictionary, table, lambda and
/// function codes give `None`, which claims nothing about them.
pub open spec fn dec_len(bytes: Seq<u8>, cursor: int, e: u8, max_list: int, budget: int)
    -> Option<int>
    decreases budget, 0int, 0int,
{
    if budget <= 0 || cursor < 0 || cursor >= bytes.len() {
        None
    } else {
        let qt = bytes[cursor] as i8;
        if fixed_atom_width(qt) is Some {
            let w = fixed_atom_width(qt).unwrap();
            if cursor + 1 + w <= bytes.len() {
                Some(1 + w)
            } else {
                None
            }
        } else if fixed_list_width(qt) is Some {
            let w = fixed_list_width(qt).unwrap();
            let size = uint_value(bytes.subrange(cursor + 2, cursor + 6), e);
            if cursor + 6 <= bytes.len() && size <= max_list && size * w <= usize::MAX && size
                * w <= bytes.len() - (cursor + 6) {
                Some((6 + size * w) as int)
            } else {
                None
            }
        } else if qt == crate::qtype::SYMBOL_ATOM || qt == crate::qtype::ERROR {
            let nl = nul_from(bytes, cursor + 1);
            if nl < bytes.len() && valid_utf8(bytes.subrange(cursor + 1, nl)) {
                Some(nl + 1 - cursor)
            } else {
                None
            }
        } else if qt == crate::qtype::STRING {
            let size = uint_value(bytes.subrange(cursor + 2, cursor + 6), e);
            if cursor + 6 <= bytes.len() && size <= max_list && size <= bytes.len() - (cursor
                + 6) && valid_utf8(bytes.subrange(cursor + 6, cursor + 6 + size)) {
                Some((6 + size) as int)
            } else {
                None
            }
        } else if qt == crate::qtype::ENUM_ATOM {
            let nl = nul_from(bytes, cursor + 1);
            if nl < bytes.len() && valid_utf8(bytes.subrange(cursor + 1, nl)) && bytes.len() - (
            nl + 1) >= 4 {
                Some(nl + 5 - cursor)
            } else {
                None
            }
        } else if qt == crate::qtype::ENUM_LIST {
            let size = uint_value(bytes.subrange(cursor + 2, cursor + 6), e);
            let nl = nul_from(bytes, cursor + 6);
            if cursor + 6 <= bytes.len() && size <= max_list && nl < bytes.len() && valid_utf8(
                bytes.subrange(cursor + 6, nl),
            ) && 4 * size <= bytes.len() - (nl + 1) {
                Some((nl + 1 + 4 * size - cursor) as int)
            } else {
                None
            }
        } else if qt == crate::qtype::SYMBOL_LIST {
            let size = uint_value(bytes.subrange(cursor + 2, cursor + 6), e);
            if cursor + 6 <= bytes.len() && size <= max_list && size <= bytes.len() - (cursor
                + 6) && dec_syms(bytes, cursor + 6, size as int) is Some {
                Some(dec_syms(bytes, cursor + 6, size as int).unwrap() - cursor)
            } else {
                None
            }
        } else if qt == crate::qtype::COMPOUND_LIST {
            let size = uint_value(bytes.subrange(cursor + 2, cursor + 6), e);
            if cursor + 6 <= bytes.len() && size <= max_list && size <= bytes.len() - (cursor
                + 6) && dec_items(bytes, cursor + 6, e, max_list, budget - 1, size as int)
                is Some {
                Some(
                    dec_items(bytes, cursor + 6, e, max_list, budget - 1, size as int).unwrap()
                        - cursor,
                )
            } else {
                None
            }
        } else {
            None
        }
    }
}

/// End position after `count` consecutive decodable values starting at
/// `start`, each within `budget` nesting levels.
pub open spec fn dec_items(
    bytes: Seq<u8>,
    start: int,
    e: u8,
    max_list: int,
    budget: int,
    count: int,
) -> Option<int>
    decreases budget, 1int, count,
{
    if count <= 0 {
        Some(start)
    } else {
        match dec_len(bytes, start, e, max_list, budget) {
            Some(n) => dec_items(bytes, start + n, e, max_list, budget, count - 1),
            None => None,
        }
    }
}

/// Length of the run of nested compound-list headers at `cursor`: each
/// level's header is complete, declares at least one element within the
/// list budget and the available data, and its first element starts
/// another such header.  A run longer than the remaining recursion budget
/// is owed a `MaxDepthExceeded` error.
pub open spec fn compound_chain(bytes: Seq<u8>, cursor: int, e: u8, max_list: int) -> nat
    decreases bytes.len() - cursor,
{
    if 0 <= cursor && cursor + 6 <= bytes.len() && bytes[cursor]
        == crate::qtype::COMPOUND_LIST as u8 && 1 <= uint_value(
        bytes.subrange(cursor + 2, cursor + 6),
        e,
    ) <= max_list && uint_value(bytes.subrange(cursor + 2, cursor + 6), e) <= bytes.len() - (
    cursor + 6) {
        (1 + compound_chain(bytes, cursor + 6, e, max_list)) as nat
    } else {
        0
    }
}

/// A fixed-width list at `cursor` whose header and whole payload are
/// present and within the list budget: on such input decoding is owed to
/// succeed.
pub open spec fn flat_list_decodable(bytes: Seq<u8>, cursor: int, e: u8, max_list_size: int)
    -> bool {
    match fixed_list_width(bytes[cursor] as i8) {
        Some(w) => {
            let size = uint_value(bytes.subrange(cursor + 2, cursor + 6), e);
            &&& cursor + 6 <= bytes.len()
            &&& size <= max_list_size
            &&& size * w <= usize::MAX
            &&& size * w <= bytes.len() - (cursor + 6)
        },
        None => false,
    }
}

/// Relies on std's `String::from_utf8`: it succeeds exactly on valid UTF-8
/// input and the resulting string's UTF-8 encoding is the input bytes.
#[verifier::external_body]
pub(crate) fn string_from_utf8(bytes: Vec<u8>) -> (r: Option<String>)
    ensures
        r is Some <==> valid_utf8(bytes@),
        r matches Some(s) ==> encode_utf8(s@) == bytes@,
{
    String::from_utf8(bytes).ok()
}

/// Copy the byte range `[start, end)` out of a slice.
fn bytes_range_to_vec(bytes: &[u8], start: usize, end: usize) -> (r: Vec<u8>)
    requires
        start <= end <= bytes@.len(),
    ensures
        r@ == bytes@.subrange(start as int, end as int),
{
    let mut r: Vec<u8> = Vec::new();
    let mut i: usize = start;
    while i < end
        invariant
            start <= i <= end <= bytes@.len(),
            r@ =~= bytes@.subrange(start as int, i as int),
        decreases end - i,
    {
        r.push(bytes[i]);
        proof {
            assert(bytes@.subrange(start as int, i + 1) =~= bytes@.subrange(
                start as int,
                i as int,
            ).push(bytes@[i as int]));
        }
        i = i + 1;
    }
    r
}

/// Position of the first 0x00 at or after `start`.
fn find_nul(bytes: &[u8], start: usize) -> (r: Option<usize>)
    requires
        start <= bytes@.len(),
    ensures
        match r {
            Some(i) => start <= i < bytes@.len() && bytes@[i as int] == 0 && (forall|j: int|
                start <= j < i ==> bytes@[j] != 0),
            None => forall|j: int| start <= j < bytes@.len() ==> bytes@[j] != 0,
        },
{
    let mut i: usize = start;
    while i < bytes.len()
        invariant
            start <= i <= bytes@.len(),
            forall|j: int| start <= j < i ==> bytes@[j] != 0,
        decreases bytes@.len() - i,
    {
        if bytes[i] == 0 {
            return Some(i);
        }
        i = i + 1;
    }
    None
}

/// Read the attribute byte and the 4-byte element count of a list, refusing
/// counts above `max_list_size` before anything is allocated.
pub fn get_attribute_and_size(bytes: &[u8], cursor: usize, e: u8, max_list_size: usize) -> (r:
    Result<(i8, usize, usize), Error>)
    requires
        cursor <= bytes@.len(),
    ensures
        r matches Err(er) ==> crate::error::is_deserialization_error(er),
        cursor + 5 <= bytes@.len() && uint_value(bytes@.subrange(cursor + 1, cursor + 5), e)
            <= max_list_size ==> r is Ok,
        match r {
            Ok((attr, size, next)) => {
                &&& cursor + 5 <= bytes@.len()
                &&& next == cursor + 5
                &&& attr as u8 == bytes@[cursor as int]
                &&& size as nat == uint_value(bytes@.subrange(cursor + 1, cursor + 5), e)
                &&& size <= max_list_size
            },
            Err(er) => {
                &&& cursor + 5 > bytes@.len() || uint_value(
                    bytes@.subrange(cursor + 1, cursor + 5),
                    e,
                ) > max_list_size
                &&& cursor + 5 > bytes@.len() ==> er == (Error::InsufficientData {
                    needed: 5,
                    available: (bytes@.len() - cursor) as usize,
                })
                &&& cursor + 5 <= bytes@.len() ==> er == (Error::ListTooLarge {
                    size: uint_value(bytes@.subrange(cursor + 1, cursor + 5), e) as usize,
                    max: max_list_size,
                })
            },
        },
{
    if bytes.len() - cursor < 5 {
        return Err(Error::InsufficientData { needed: 5, available: bytes.len() - cursor });
    }
    let attribute = #[verifier::truncate] (bytes[cursor] as i8);
    proof {
        lemma_pow256_8();
        let b0 = bytes@[cursor as int];
        assert(attribute as u8 == b0) by (bit_vector)
            requires
                attribute == b0 as i8,
        ;
    }
    let size_u64 = read_uint(bytes, cursor + 1, 4, e);
    if size_u64 > max_list_size as u64 {
        return Err(Error::ListTooLarge { size: size_u64 as usize, max: max_list_size });
    }
    Ok((attribute, size_u64 as usize, cursor + 5))
}

/// Decode a fixed-width signed-integer atom of 2, 4 or 8 bytes.
fn deserialize_int_atom(bytes: &[u8], cursor: usize, e: u8, qt: i8, w: usize) -> (r: Result<
    (K, usize),
    Error,
>)
    requires
        1 <= cursor <= bytes@.len(),
        bytes@[cursor - 1] == qt as u8,
        (w == 2 && qt == qtype::SHORT_ATOM) || (w == 4 && (qt == qtype::INT_ATOM || qt
            == qtype::MONTH_ATOM || qt == qtype::DATE_ATOM || qt == qtype::MINUTE_ATOM || qt
            == qtype::SECOND_ATOM || qt == qtype::TIME_ATOM)) || (w == 8 && (qt == qtype::LONG_ATOM
            || qt == qtype::TIMESTAMP_ATOM || qt == qtype::TIMESPAN_ATOM)),
    ensures
        r matches Err(er) ==> crate::error::is_deserialization_error(er),
        r matches Ok((k, next)) ==> decoded(bytes@, cursor - 1, e, 0, k, next as int)
            && k.attribute == qattribute::NONE && kheight(k) == 1 && next == cursor + w,
        cursor + w <= bytes@.len() ==> r is Ok,
        r matches Err(er) ==> cursor + w > bytes@.len() && er == (Error::InsufficientData {
            needed: w,
            available: (bytes@.len() - cursor) as usize,
        }),
{
    if bytes.len() - cursor < w {
        return Err(Error::InsufficientData { needed: w, available: bytes.len() - cursor });
    }
    proof {
        lemma_pow256_8();
    }
    let v = read_uint(bytes, cursor, w, e);
    let ghost span = bytes@.subrange(cursor as int, (cursor + w) as int);
    proof {
        lemma_uint_bytes_of_value(span, e);
    }
    let k = if w == 2 {
        let x = #[verifier::truncate] (v as u16) as i16;
        proof {
            assert(((x as u16) as u64) == v) by (bit_vector)
                requires
                    v < 0x10000 && x == (v as u16) as i16,
            ;
        }
        K { qtype: qt, attribute: qattribute::NONE, value: KValue::Short(x) }
    } else if w == 4 {
        let x = #[verifier::truncate] (v as u32) as i32;
        proof {
            assert(((x as u32) as u64) == v) by (bit_vector)
                requires
                    v < 0x100000000 && x == (v as u32) as i32,
            ;
        }
        K { qtype: qt, attribute: qattribute::NONE, value: KValue::Int(x) }
    } else {
        let x = #[verifier::truncate] (v as i64);
        proof {
            assert((x as u64) == v) by (bit_vector)
                requires
                    x == v as i64,
            ;
        }
        K { qtype: qt, attribute: qattribute::NONE, value: KValue::Long(x) }
    };
    proof {
        assert(ser(k, e) =~= bytes@.subrange(cursor - 1, (cursor + w) as int));
    }
    Ok((k, cursor + w))
}

/// Decode a real or float/datetime atom as its IEEE-754 bit pattern.
fn deserialize_float_atom(bytes: &[u8], cursor: usize, e: u8, qt: i8, w: usize) -> (r: Result<
    (K, usize),
    Error,
>)
    requires
        1 <= cursor <= bytes@.len(),
        bytes@[cursor - 1] == qt as u8,
        (w == 4 && qt == qtype::REAL_ATOM) || (w == 8 && (qt == qtype::FLOAT_ATOM || qt
            == qtype::DATETIME_ATOM)),
    ensures
        r matches Err(er) ==> crate::error::is_deserialization_error(er),
        r matches Ok((k, next)) ==> decoded(bytes@, cursor - 1, e, 0, k, next as int)
            && k.attribute == qattribute::NONE && kheight(k) == 1 && next == cursor + w,
        cursor + w <= bytes@.len() ==> r is Ok,
        r matches Err(er) ==> cursor + w > bytes@.len() && er == (Error::InsufficientData {
            needed: w,
            available: (bytes@.len() - cursor) as usize,
        }),
{
    if bytes.len() - cursor < w {
        return Err(Error::InsufficientData { needed: w, available: bytes.len() - cursor });
    }
    proof {
        lemma_pow256_8();
    }
    let v = read_uint(bytes, cursor, w, e);
    let ghost span = bytes@.subrange(cursor as int, (cursor + w) as int);
    proof {
        lemma_uint_bytes_of_value(span, e);
    }
    let k = if w == 4 {
        let x = #[verifier::truncate] (v as u32);
        proof {
            assert((x as u64) == v) by (bit_vector)
                requires
                    v < 0x100000000 && x == v as u32,
            ;
        }
        K { qtype: qt, attribute: qattribute::NONE, value: KValue::Real(x) }
    } else {
        K { qtype: qt, attribute: qattribute::NONE, value: KValue::Float(v) }
    };
    proof {
        assert(ser(k, e) =~= bytes@.subrange(cursor - 1, (cursor + w) as int));
    }
    Ok((k, cursor + w))
}

pub fn deserialize_bool(bytes: &[u8], cursor: usize, e: u8) -> (r: Result<(K, usize), Error>)
    requires
        1 <= cursor <= bytes@.len(),
        bytes@[cursor - 1] == qtype::BOOL_ATOM as u8,
    ensures
        r matches Err(er) ==> crate::error::is_deserialization_error(er),
        r matches Ok((k, next)) ==> decoded(bytes@, cursor - 1, e, 0, k, next as int)
            && kheight(k) == 1 && next == cursor + 1,
        cursor + 1 <= bytes@.len() ==> r is Ok,
        r matches Err(er) ==> cursor + 1 > bytes@.len() && er == (Error::InsufficientData {
            needed: 1,
            available: 0,
        }),
{
    if bytes.len() - cursor < 1 {
        return Err(Error::InsufficientData { needed: 1, available: 0 });
    }
    let k = K {
        qtype: qtype::BOOL_ATOM,
        attribute: qattribute::NONE,
        value: KValue::Byte(bytes[cursor]),
    };
    proof {
        assert(ser(k, e) =~= bytes@.subrange(cursor - 1, cursor + 1));
    }
    Ok((k, cursor + 1))
}

pub fn deserialize_byte(bytes: &[u8], cursor: usize, e: u8) -> (r: Result<(K, usize), Error>)
    requires
        1 <= cursor <= bytes@.len(),
        bytes@[cursor - 1] == qtype::BYTE_ATOM as u8,
    ensures
        r matches Err(er) ==> crate::error::is_deserialization_error(er),
        r matches Ok((k, next)) ==> decoded(bytes@, cursor - 1, e, 0, k, next as int)
            && kheight(k) == 1 && next == cursor + 1,
        cursor + 1 <= bytes@.len() ==> r is Ok,
        r matches Err(er) ==> cursor + 1 > bytes@.len() && er == (Error::InsufficientData {
            needed: 1,
            available: 0,
        }),
{
    if bytes.len() - cursor < 1 {
        return Err(Error::InsufficientData { needed: 1, available: 0 });
    }
    let k = K {
        qtype: qtype::BYTE_ATOM,
        attribute: qattribute::NONE,
        value: KValue::Byte(bytes[cursor]),
    };
    proof {
        assert(ser(k, e) =~= bytes@.subrange(cursor - 1, cursor + 1));
    }
    Ok((k, cursor + 1))
}

fn deserialize_char(bytes: &[u8], cursor: usize, e: u8) -> (r: Result<(K, usize), Error>)
    requires
        1 <= cursor <= bytes@.len(),
        bytes@[cursor - 1] == qtype::CHAR as u8,
    ensures
        r matches Err(er) ==> crate::error::is_deserialization_error(er),
        r matches Ok((k, next)) ==> decoded(bytes@, cursor - 1, e, 0, k, next as int)
            && kheight(k) == 1 && next == cursor + 1,
        cursor + 1 <= bytes@.len() ==> r is Ok,
        r matches Err(er) ==> cursor + 1 > bytes@.len() && er == (Error::InsufficientData {
            needed: 1,
            available: 0,
        }),
{
    if bytes.len() - cursor < 1 {
        return Err(Error::InsufficientData { needed: 1, available: 0 });
    }
    let k = K { qtype: qtype::CHAR, attribute: qattribute::NONE, value: KValue::Byte(bytes[cursor]) };
    proof {
        assert(ser(k, e) =~= bytes@.subrange(cursor - 1, cursor + 1));
    }
    Ok((k, cursor + 1))
}

pub fn deserialize_guid(bytes: &[u8], cursor: usize, e: u8) -> (r: Result<(K, usize), Error>)
    requires
        1 <= cursor <= bytes@.len(),
        bytes@[cursor - 1] == qtype::GUID_ATOM as u8,
    ensures
        r matches Err(er) ==> crate::error::is_deserialization_error(er),
        r matches Ok((k, next)) ==> decoded(bytes@, cursor - 1, e, 0, k, next as int)
            && kheight(k) == 1 && next == cursor + 16,
        cursor + 16 <= bytes@.len() ==> r is Ok,
        r matches Err(er) ==> cursor + 16 > bytes@.len() && er == (Error::InsufficientData {
            needed: 16,
            available: (bytes@.len() - cursor) as usize,
        }),
{
    if bytes.len() - cursor < 16 {
        return Err(Error::InsufficientData { needed: 16, available: bytes.len() - cursor });
    }
    let g = read_guid(bytes, cursor);
    let k = K { qtype: qtype::GUID_ATOM, attribute: qattribute::NONE, value: KValue::Guid(g) };
    proof {
        assert(ser(k, e) =~= bytes@.subrange(cursor - 1, cursor + 16));
    }
    Ok((k, cursor + 16))
}

/// Copy 16 bytes at `cursor` into a GUID.
fn read_guid(bytes: &[u8], cursor: usize) -> (g: [u8; 16])
    requires
        cursor + 16 <= bytes@.len(),
    ensures
        g@ == bytes@.subrange(cursor as int, cursor + 16),
{
    let mut g: [u8; 16] = [0u8; 16];
    let blen: usize = bytes.len();
    let mut j: usize = 0;
    while j < 16
        invariant
            j <= 16,
            cursor + 16 <= blen == bytes@.len(),
            g@.len() == 16,
            forall|t: int| 0 <= t < j ==> g@[t] == bytes@[cursor + t],
        decreases 16 - j,
    {
        g.set(j, bytes[cursor + j]);
        j = j + 1;
    }
    proof {
        assert(g@ =~= bytes@.subrange(cursor as int, cursor + 16));
    }
    g
}

pub fn deserialize_symbol(bytes: &[u8], cursor: usize, e: u8) -> (r: Result<(K, usize), Error>)
    requires
        1 <= cursor <= bytes@.len(),
        bytes@[cursor - 1] == qtype::SYMBOL_ATOM as u8,
    ensures
        r matches Err(er) ==> crate::error::is_deserialization_error(er),
        r matches Ok((k, next)) ==> decoded(bytes@, cursor - 1, e, 0, k, next as int)
            && kheight(k) == 1,
        r matches Ok((k, next)) ==> next == nul_from(bytes@, cursor as int) + 1,
        (forall|j: int| cursor <= j < bytes@.len() ==> bytes@[j] != 0) ==> (r matches Err(er)
            && er is MissingNullTerminator),
        forall|j: int|
            #![trigger first_nul_at(bytes@, cursor as int, j)]
            first_nul_at(bytes@, cursor as int, j) ==> if valid_utf8(
                bytes@.subrange(cursor as int, j),
            ) {
                r is Ok
            } else {
                r matches Err(er) && er is InvalidUtf8
            },
{
    let (s, next) = match read_sym(bytes, cursor) {
        Ok(p) => p,
        Err(err) => {
            return Err(err);
        },
    };
    let k = K { qtype: qtype::SYMBOL_ATOM, attribute: qattribute::NONE, value: KValue::Symbol(s) };
    proof {
        assert(ser(k, e) =~= bytes@.subrange(cursor - 1, next as int));
    }
    Ok((k, next))
}

/// Read a null-terminated UTF-8 string at `cursor`.
fn read_sym(bytes: &[u8], cursor: usize) -> (r: Result<(String, usize), Error>)
    requires
        cursor <= bytes@.len(),
    ensures
        r matches Err(er) ==> crate::error::is_deserialization_error(er),
        r matches Ok((s, next)) ==> cursor < next <= bytes@.len() && ser_sym(s@)
            == bytes@.subrange(cursor as int, next as int) && first_nul_at(
            bytes@,
            cursor as int,
            next - 1,
        ) && next == nul_from(bytes@, cursor as int) + 1,
        (forall|j: int| cursor <= j < bytes@.len() ==> bytes@[j] != 0) ==> (r matches Err(er)
            && er is MissingNullTerminator),
        forall|j: int|
            #![trigger first_nul_at(bytes@, cursor as int, j)]
            first_nul_at(bytes@, cursor as int, j) ==> if valid_utf8(
                bytes@.subrange(cursor as int, j),
            ) {
                r is Ok
            } else {
                r matches Err(er) && er is InvalidUtf8
            },
{
    let blen: usize = bytes.len();
    let nul = match find_nul(bytes, cursor) {
        Some(i) => i,
        None => {
            return Err(Error::MissingNullTerminator);
        },
    };
    proof {
        assert(nul < blen);
        lemma_nul_from(bytes@, cursor as int);
        assert(nul as int == nul_from(bytes@, cursor as int)) by {
            let nf = nul_from(bytes@, cursor as int);
            if nf < nul {
                assert(bytes@[nf] != 0);
            }
            if nul < nf {
                assert(bytes@[nul as int] != 0);
            }
        };
    }
    let content = bytes_range_to_vec(bytes, cursor, nul);
    let ghost content_view = content@;
    let s = match string_from_utf8(content) {
        Some(s) => s,
        None => {
            return Err(Error::InvalidUtf8);
        },
    };
    proof {
        assert(ser_sym(s@) =~= bytes@.subrange(cursor as int, nul + 1));
    }
    Ok((s, nul + 1))
}

/// Decode a bool or byte list: a raw byte payload.
fn deserialize_raw_list(bytes: &[u8], cursor: usize, e: u8, max_list_size: usize, qt: i8) -> (r:
    Result<(K, usize), Error>)
    requires
        1 <= cursor <= bytes@.len(),
        qt == qtype::BOOL_LIST || qt == qtype::BYTE_LIST,
        bytes@[cursor - 1] == qt as u8,
    ensures
        r matches Err(er) ==> crate::error::is_deserialization_error(er),
        r matches Ok((k, next)) ==> decoded(bytes@, cursor - 1, e, max_list_size as int, k, next as int)
            && kheight(k) == 1,
        ({
            let size = uint_value(bytes@.subrange(cursor + 1, cursor + 5), e);
            &&& (cursor + 5 > bytes@.len()) ==> (r matches Err(er) && er is InsufficientData)
            &&& (cursor + 5 <= bytes@.len() && size > max_list_size) ==> (r matches Err(er)
                && er is ListTooLarge)
            &&& (cursor + 5 <= bytes@.len() && size <= max_list_size && size > bytes@.len() - (
            cursor + 5)) ==> (r matches Err(er) && er is InsufficientData)
            &&& (cursor + 5 <= bytes@.len() && size <= max_list_size && size <= bytes@.len() - (
            cursor + 5)) ==> r is Ok
            &&& r matches Ok((k, next)) ==> next == cursor + 5 + size
        }),
{
    let (attribute, size, cur) = match get_attribute_and_size(bytes, cursor, e, max_list_size) {
        Ok(t) => t,
        Err(er) => {
            return Err(er);
        },
    };
    if size > bytes.len() - cur {
        return Err(Error::InsufficientData { needed: size, available: bytes.len() - cur });
    }
    proof {
        lemma_pow256_8();
        lemma_uint_bytes_of_value(bytes@.subrange(cursor + 1, cursor + 5), e);
    }
    let list = bytes_range_to_vec(bytes, cur, cur + size);
    let k = K { qtype: qt, attribute, value: KValue::ByteList(list) };
    proof {
        assert(ser(k, e) =~= bytes@.subrange(cursor - 1, (cur + size) as int));
    }
    Ok((k, cur + size))
}

/// Decode a short list.
#[verifier::loop_isolation(false)]
fn deserialize_short_list(bytes: &[u8], cursor: usize, e: u8, max_list_size: usize) -> (r: Result<
    (K, usize),
    Error,
>)
    requires
        1 <= cursor <= bytes@.len(),
        bytes@[cursor - 1] == qtype::SHORT_LIST as u8,
    ensures
        r matches Err(er) ==> crate::error::is_deserialization_error(er),
        r matches Ok((k, next)) ==> decoded(bytes@, cursor - 1, e, max_list_size as int, k, next as int)
            && kheight(k) == 1,
        ({
            let size = uint_value(bytes@.subrange(cursor + 1, cursor + 5), e);
            &&& (cursor + 5 > bytes@.len()) ==> (r matches Err(er) && er is InsufficientData)
            &&& (cursor + 5 <= bytes@.len() && size > max_list_size) ==> (r matches Err(er)
                && er is ListTooLarge)
            &&& (cursor + 5 <= bytes@.len() && size <= max_list_size && size * 2 > usize::MAX)
                ==> (r matches Err(er) && er is SizeOverflow)
            &&& (cursor + 5 <= bytes@.len() && size <= max_list_size && size * 2 <= usize::MAX
                && size * 2 > bytes@.len() - (cursor + 5)) ==> (r matches Err(er) && er
                is InsufficientData)
            &&& (cursor + 5 <= bytes@.len() && size <= max_list_size && size * 2 <= usize::MAX
                && size * 2 <= bytes@.len() - (cursor + 5)) ==> r is Ok
            &&& r matches Ok((k, next)) ==> next == cursor + 5 + size * 2
        }),
{
    let (attribute, size, cur) = match get_attribute_and_size(bytes, cursor, e, max_list_size) {
        Ok(t) => t,
        Err(er) => {
            return Err(er);
        },
    };
    proof {
        vstd::arithmetic::div_mod::lemma_fundamental_div_mod(usize::MAX as int, 2);
    }
    if size > usize::MAX / 2 {
        return Err(Error::SizeOverflow);
    }
    let byte_count = size * 2;
    if byte_count > bytes.len() - cur {
        return Err(Error::InsufficientData { needed: byte_count, available: bytes.len() - cur });
    }
    proof {
        lemma_pow256_8();
        lemma_uint_bytes_of_value(bytes@.subrange(cursor + 1, cursor + 5), e);
    }
    let mut list: Vec<i16> = Vec::new();
    let mut i: usize = 0;
    while i < size
        invariant
            i <= size,
            list@.len() == i,
            ser_uints_from(u64s_of_i16(list@), 2, 0, e) =~= bytes@.subrange(
                cur as int,
                cur + 2 * (i as int),
            ),
        decreases size - i,
    {
        let v = read_uint(bytes, cur + 2 * i, 2, e);
        let x = #[verifier::truncate] (v as u16) as i16;
        proof {
            assert(((x as u16) as u64) == v) by (bit_vector)
                requires
                    v < 0x10000 && x == (v as u16) as i16,
            ;
            lemma_uint_bytes_of_value(
                bytes@.subrange(cur + 2 * (i as int), cur + 2 * (i as int) + 2),
                e,
            );
            lemma_ser_uints_push(u64s_of_i16(list@), 2, (x as u16) as u64, 0, e);
            assert(u64s_of_i16(list@.push(x)) =~= u64s_of_i16(list@).push((x as u16) as u64));
            assert(bytes@.subrange(cur as int, cur + 2 * (i as int) + 2) =~= bytes@.subrange(
                cur as int,
                cur + 2 * (i as int),
            ) + bytes@.subrange(cur + 2 * (i as int), cur + 2 * (i as int) + 2));
        }
        list.push(x);
        i = i + 1;
    }
    let k = K { qtype: qtype::SHORT_LIST, attribute, value: KValue::ShortList(list) };
    proof {
        assert(ser(k, e) =~= bytes@.subrange(cursor - 1, (cur + byte_count) as int));
    }
    Ok((k, cur + byte_count))
}

/// Decode any 4-byte integer list (int, month, date, minute, second, time).
#[verifier::loop_isolation(false)]
fn deserialize_int_list(bytes: &[u8], cursor: usize, e: u8, max_list_size: usize, qt: i8) -> (r:
    Result<(K, usize), Error>)
    requires
        1 <= cursor <= bytes@.len(),
        qt == qtype::INT_LIST || qt == qtype::MONTH_LIST || qt == qtype::DATE_LIST || qt
            == qtype::MINUTE_LIST || qt == qtype::SECOND_LIST || qt == qtype::TIME_LIST,
        bytes@[cursor - 1] == qt as u8,
    ensures
        r matches Err(er) ==> crate::error::is_deserialization_error(er),
        r matches Ok((k, next)) ==> decoded(bytes@, cursor - 1, e, max_list_size as int, k, next as int)
            && kheight(k) == 1,
        ({
            let size = uint_value(bytes@.subrange(cursor + 1, cursor + 5), e);
            &&& (cursor + 5 > bytes@.len()) ==> (r matches Err(er) && er is InsufficientData)
            &&& (cursor + 5 <= bytes@.len() && size > max_list_size) ==> (r matches Err(er)
                && er is ListTooLarge)
            &&& (cursor + 5 <= bytes@.len() && size <= max_list_size && size * 4 > usize::MAX)
                ==> (r matches Err(er) && er is SizeOverflow)
            &&& (cursor + 5 <= bytes@.len() && size <= max_list_size && size * 4 <= usize::MAX
                && size * 4 > bytes@.len() - (cursor + 5)) ==> (r matches Err(er) && er
                is InsufficientData)
            &&& (cursor + 5 <= bytes@.len() && size <= max_list_size && size * 4 <= usize::MAX
                && size * 4 <= bytes@.len() - (cursor + 5)) ==> r is Ok
            &&& r matches Ok((k, next)) ==> next == cursor + 5 + size * 4
        }),
{
    let (attribute, size, cur) = match get_attribute_and_size(bytes, cursor, e, max_list_size) {
        Ok(t) => t,
        Err(er) => {
            return Err(er);
        },
    };
    proof {
        vstd::arithmetic::div_mod::lemma_fundamental_div_mod(usize::MAX as int, 4);
    }
    if size > usize::MAX / 4 {
        return Err(Error::SizeOverflow);
    }
    let byte_count = size * 4;
    if byte_count > bytes.len() - cur {
        return Err(Error::InsufficientData { needed: byte_count, available: bytes.len() - cur });
    }
    proof {
        lemma_pow256_8();
        lemma_uint_bytes_of_value(bytes@.subrange(cursor + 1, cursor + 5), e);
    }
    let mut list: Vec<i32> = Vec::new();
    let mut i: usize = 0;
    while i < size
        invariant
            i <= size,
            list@.len() == i,
            ser_uints_from(u64s_of_i32(list@), 4, 0, e) =~= bytes@.subrange(
                cur as int,
                cur + 4 * (i as int),
            ),
        decreases size - i,
    {
        let v = read_uint(bytes, cur + 4 * i, 4, e);
        let x = #[verifier::truncate] (v as u32) as i32;
        proof {
            assert(((x as u32) as u64) == v) by (bit_vector)
                requires
                    v < 0x100000000 && x == (v as u32) as i32,
            ;
            lemma_uint_bytes_of_value(
                bytes@.subrange(cur + 4 * (i as int), cur + 4 * (i as int) + 4),
                e,
            );
            lemma_ser_uints_push(u64s_of_i32(list@), 4, (x as u32) as u64, 0, e);
            assert(u64s_of_i32(list@.push(x)) =~= u64s_of_i32(list@).push((x as u32) as u64));
            assert(bytes@.subrange(cur as int, cur + 4 * (i as int) + 4) =~= bytes@.subrange(
                cur as int,
                cur + 4 * (i as int),
            ) + bytes@.subrange(cur + 4 * (i as int), cur + 4 * (i as int) + 4));
        }
        list.push(x);
        i = i + 1;
    }
    let k = K { qtype: qt, attribute, value: KValue::IntList(list) };
    proof {
        assert(ser(k, e) =~= bytes@.subrange(cursor - 1, (cur + byte_count) as int));
    }
    Ok((k, cur + byte_count))
}

/// Decode any 8-byte integer list (long, timestamp, timespan).
#[verifier::loop_isolation(false)]
fn deserialize_long_list(bytes: &[u8], cursor: usize, e: u8, max_list_size: usize, qt: i8) -> (r:
    Result<(K, usize), Error>)
    requires
        1 <= cursor <= bytes@.len(),
        qt == qtype::LONG_LIST || qt == qtype::TIMESTAMP_LIST || qt == qtype::TIMESPAN_LIST,
        bytes@[cursor - 1] == qt as u8,
    ensures
        r matches Err(er) ==> crate::error::is_deserialization_error(er),
        r matches Ok((k, next)) ==> decoded(bytes@, cursor - 1, e, max_list_size as int, k, next as int)
            && kheight(k) == 1,
        ({
            let size = uint_value(bytes@.subrange(cursor + 1, cursor + 5), e);
            &&& (cursor + 5 > bytes@.len()) ==> (r matches Err(er) && er is InsufficientData)
            &&& (cursor + 5 <= bytes@.len() && size > max_list_size) ==> (r matches Err(er)
                && er is ListTooLarge)
            &&& (cursor + 5 <= bytes@.len() && size <= max_list_size && size * 8 > usize::MAX)
                ==> (r matches Err(er) && er is SizeOverflow)
            &&& (cursor + 5 <= bytes@.len() && size <= max_list_size && size * 8 <= usize::MAX
                && size * 8 > bytes@.len() - (cursor + 5)) ==> (r matches Err(er) && er
                is InsufficientData)
            &&& (cursor + 5 <= bytes@.len() && size <= max_list_size && size * 8 <= usize::MAX
                && size * 8 <= bytes@.len() - (cursor + 5)) ==> r is Ok
            &&& r matches Ok((k, next)) ==> next == cursor + 5 + size * 8
        }),
{
    let (attribute, size, cur) = match get_attribute_and_size(bytes, cursor, e, max_list_size) {
        Ok(t) => t,
        Err(er) => {
            return Err(er);
        },
    };
    proof {
        vstd::arithmetic::div_mod::lemma_fundamental_div_mod(usize::MAX as int, 8);
    }
    if size > usize::MAX / 8 {
        return Err(Error::SizeOverflow);
    }
    let byte_count = size * 8;
    if byte_count > bytes.len() - cur {
        return Err(Error::InsufficientData { needed: byte_count, available: bytes.len() - cur });
    }
    proof {
        lemma_pow256_8();
        lemma_uint_bytes_of_value(bytes@.subrange(cursor + 1, cursor + 5), e);
    }
    let mut list: Vec<i64> = Vec::new();
    let mut i: usize = 0;
    while i < size
        invariant
            i <= size,
            list@.len() == i,
            ser_uints_from(u64s_of_i64(list@), 8, 0, e) =~= bytes@.subrange(
                cur as int,
                cur + 8 * (i as int),
            ),
        decreases size - i,
    {
        let v = read_uint(bytes, cur + 8 * i, 8, e);
        let x = #[verifier::truncate] (v as i64);
        proof {
            assert((x as u64) == v) by (bit_vector)
                requires
                    x == v as i64,
            ;
            lemma_uint_bytes_of_value(
                bytes@.subrange(cur + 8 * (i as int), cur + 8 * (i as int) + 8),
                e,
            );
            lemma_ser_uints_push(u64s_of_i64(list@), 8, x as u64, 0, e);
            assert(u64s_of_i64(list@.push(x)) =~= u64s_of_i64(list@).push(x as u64));
            assert(bytes@.subrange(cur as int, cur + 8 * (i as int) + 8) =~= bytes@.subrange(
                cur as int,
                cur + 8 * (i as int),
            ) + bytes@.subrange(cur + 8 * (i as int), cur + 8 * (i as int) + 8));
        }
        list.push(x);
        i = i + 1;
    }
    let k = K { qtype: qt, attribute, value: KValue::LongList(list) };
    proof {
        assert(ser(k, e) =~= bytes@.subrange(cursor - 1, (cur + byte_count) as int));
    }
    Ok((k, cur + byte_count))
}

/// Decode a real list (4-byte IEEE-754 bit patterns).
#[verifier::loop_isolation(false)]
fn deserialize_real_list(bytes: &[u8], cursor: usize, e: u8, max_list_size: usize) -> (r: Result<
    (K, usize),
    Error,
>)
    requires
        1 <= cursor <= bytes@.len(),
        bytes@[cursor - 1] == qtype::REAL_LIST as u8,
    ensures
        r matches Err(er) ==> crate::error::is_deserialization_error(er),
        r matches Ok((k, next)) ==> decoded(bytes@, cursor - 1, e, max_list_size as int, k, next as int)
            && kheight(k) == 1,
        ({
            let size = uint_value(bytes@.subrange(cursor + 1, cursor + 5), e);
            &&& (cursor + 5 > bytes@.len()) ==> (r matches Err(er) && er is InsufficientData)
            &&& (cursor + 5 <= bytes@.len() && size > max_list_size) ==> (r matches Err(er)
                && er is ListTooLarge)
            &&& (cursor + 5 <= bytes@.len() && size <= max_list_size && size * 4 > usize::MAX)
                ==> (r matches Err(er) && er is SizeOverflow)
            &&& (cursor + 5 <= bytes@.len() && size <= max_list_size && size * 4 <= usize::MAX
                && size * 4 > bytes@.len() - (cursor + 5)) ==> (r matches Err(er) && er
                is InsufficientData)
            &&& (cursor + 5 <= bytes@.len() && size <= max_list_size && size * 4 <= usize::MAX
                && size * 4 <= bytes@.len() - (cursor + 5)) ==> r is Ok
            &&& r matches Ok((k, next)) ==> next == cursor + 5 + size * 4
        }),
{
    let (attribute, size, cur) = match get_attribute_and_size(bytes, cursor, e, max_list_size) {
        Ok(t) => t,
        Err(er) => {
            return Err(er);
        },
    };
    proof {
        vstd::arithmetic::div_mod::lemma_fundamental_div_mod(usize::MAX as int, 4);
    }
    if size > usize::MAX / 4 {
        return Err(Error::SizeOverflow);
    }
    let byte_count = size * 4;
    if byte_count > bytes.len() - cur {
        return Err(Error::InsufficientData { needed: byte_count, available: bytes.len() - cur });
    }
    proof {
        lemma_pow256_8();
        lemma_uint_bytes_of_value(bytes@.subrange(cursor + 1, cursor + 5), e);
    }
    let mut list: Vec<u32> = Vec::new();
    let mut i: usize = 0;
    while i < size
        invariant
            i <= size,
            list@.len() == i,
            ser_uints_from(u64s_of_u32(list@), 4, 0, e) =~= bytes@.subrange(
                cur as int,
                cur + 4 * (i as int),
            ),
        decreases size - i,
    {
        let v = read_uint(bytes, cur + 4 * i, 4, e);
        let x = #[verifier::truncate] (v as u32);
        proof {
            assert((x as u64) == v) by (bit_vector)
                requires
                    v < 0x100000000 && x == v as u32,
            ;
            lemma_uint_bytes_of_value(
                bytes@.subrange(cur + 4 * (i as int), cur + 4 * (i as int) + 4),
                e,
            );
            lemma_ser_uints_push(u64s_of_u32(list@), 4, x as u64, 0, e);
            assert(u64s_of_u32(list@.push(x)) =~= u64s_of_u32(list@).push(x as u64));
            assert(bytes@.subrange(cur as int, cur + 4 * (i as int) + 4) =~= bytes@.subrange(
                cur as int,
                cur + 4 * (i as int),
            ) + bytes@.subrange(cur + 4 * (i as int), cur + 4 * (i as int) + 4));
        }
        list.push(x);
        i = i + 1;
    }
    let k = K { qtype: qtype::REAL_LIST, attribute, value: KValue::RealList(list) };
    proof {
        assert(ser(k, e) =~= bytes@.subrange(cursor - 1, (cur + byte_count) as int));
    }
    Ok((k, cur + byte_count))
}

/// Decode a float or datetime list (8-byte IEEE-754 bit patterns).
#[verifier::loop_isolation(false)]
fn deserialize_float_list(bytes: &[u8], cursor: usize, e: u8, max_list_size: usize, qt: i8) -> (r:
    Result<(K, usize), Error>)
    requires
        1 <= cursor <= bytes@.len(),
        qt == qtype::FLOAT_LIST || qt == qtype::DATETIME_LIST,
        bytes@[cursor - 1] == qt as u8,
    ensures
        r matches Err(er) ==> crate::error::is_deserialization_error(er),
        r matches Ok((k, next)) ==> decoded(bytes@, cursor - 1, e, max_list_size as int, k, next as int)
            && kheight(k) == 1,
        ({
            let size = uint_value(bytes@.subrange(cursor + 1, cursor + 5), e);
            &&& (cursor + 5 > bytes@.len()) ==> (r matches Err(er) && er is InsufficientData)
            &&& (cursor + 5 <= bytes@.len() && size > max_list_size) ==> (r matches Err(er)
                && er is ListTooLarge)
            &&& (cursor + 5 <= bytes@.len() && size <= max_list_size && size * 8 > usize::MAX)
                ==> (r matches Err(er) && er is SizeOverflow)
            &&& (cursor + 5 <= bytes@.len() && size <= max_list_size && size * 8 <= usize::MAX
                && size * 8 > bytes@.len() - (cursor + 5)) ==> (r matches Err(er) && er
                is InsufficientData)
            &&& (cursor + 5 <= bytes@.len() && size <= max_list_size && size * 8 <= usize::MAX
                && size * 8 <= bytes@.len() - (cursor + 5)) ==> r is Ok
            &&& r matches Ok((k, next)) ==> next == cursor + 5 + size * 8
        }),
{
    let (attribute, size, cur) = match get_attribute_and_size(bytes, cursor, e, max_list_size) {
        Ok(t) => t,
        Err(er) => {
            return Err(er);
        },
    };
    proof {
        vstd::arithmetic::div_mod::lemma_fundamental_div_mod(usize::MAX as int, 8);
    }
    if size > usize::MAX / 8 {
        return Err(Error::SizeOverflow);
    }
    let byte_count = size * 8;
    if byte_count > bytes.len() - cur {
        return Err(Error::InsufficientData { needed: byte_count, available: bytes.len() - cur });
    }
    proof {
        lemma_pow256_8();
        lemma_uint_bytes_of_value(bytes@.subrange(cursor + 1, cursor + 5), e);
    }
    let mut list: Vec<u64> = Vec::new();
    let mut i: usize = 0;
    while i < size
        invariant
            i <= size,
            list@.len() == i,
            ser_uints_from(list@, 8, 0, e) =~= bytes@.subrange(cur as int, cur + 8 * (i as int)),
        decreases size - i,
    {
        let v = read_uint(bytes, cur + 8 * i, 8, e);
        proof {
            lemma_uint_bytes_of_value(
                bytes@.subrange(cur + 8 * (i as int), cur + 8 * (i as int) + 8),
                e,
            );
            lemma_ser_uints_push(list@, 8, v, 0, e);
            assert(bytes@.subrange(cur as int, cur + 8 * (i as int) + 8) =~= bytes@.subrange(
                cur as int,
                cur + 8 * (i as int),
            ) + bytes@.subrange(cur + 8 * (i as int), cur + 8 * (i as int) + 8));
        }
        list.push(v);
        i = i + 1;
    }
    let k = K { qtype: qt, attribute, value: KValue::FloatList(list) };
    proof {
        assert(ser(k, e) =~= bytes@.subrange(cursor - 1, (cur + byte_count) as int));
    }
    Ok((k, cur + byte_count))
}

/// Decode a GUID list.
#[verifier::loop_isolation(false)]
pub fn deserialize_guid_list_sync(bytes: &[u8], cursor: usize, e: u8, max_list_size: usize) -> (r:
    Result<(K, usize), Error>)
    requires
        1 <= cursor <= bytes@.len(),
        bytes@[cursor - 1] == qtype::GUID_LIST as u8,
    ensures
        r matches Err(er) ==> crate::error::is_deserialization_error(er),
        r matches Ok((k, next)) ==> decoded(bytes@, cursor - 1, e, max_list_size as int, k, next as int)
            && kheight(k) == 1,
        ({
            let size = uint_value(bytes@.subrange(cursor + 1, cursor + 5), e);
            &&& (cursor + 5 > bytes@.len()) ==> (r matches Err(er) && er is InsufficientData)
            &&& (cursor + 5 <= bytes@.len() && size > max_list_size) ==> (r matches Err(er)
                && er is ListTooLarge)
            &&& (cursor + 5 <= bytes@.len() && size <= max_list_size && size * 16 > usize::MAX)
                ==> (r matches Err(er) && er is SizeOverflow)
            &&& (cursor + 5 <= bytes@.len() && size <= max_list_size && size * 16 <= usize::MAX
                && size * 16 > bytes@.len() - (cursor + 5)) ==> (r matches Err(er) && er
                is InsufficientData)
            &&& (cursor + 5 <= bytes@.len() && size <= max_list_size && size * 16 <= usize::MAX
                && size * 16 <= bytes@.len() - (cursor + 5)) ==> r is Ok
            &&& r matches Ok((k, next)) ==> next == cursor + 5 + size * 16
        }),
{
    let (attribute, size, cur) = match get_attribute_and_size(bytes, cursor, e, max_list_size) {
        Ok(t) => t,
        Err(er) => {
            return Err(er);
        },
    };
    proof {
        vstd::arithmetic::div_mod::lemma_fundamental_div_mod(usize::MAX as int, 16);
    }
    if size > usize::MAX / 16 {
        return Err(Error::SizeOverflow);
    }
    let byte_count = size * 16;
    if byte_count > bytes.len() - cur {
        return Err(Error::InsufficientData { needed: byte_count, available: bytes.len() - cur });
    }
    proof {
        lemma_pow256_8();
        lemma_uint_bytes_of_value(bytes@.subrange(cursor + 1, cursor + 5), e);
    }
    let mut list: Vec<[u8; 16]> = Vec::new();
    let mut i: usize = 0;
    while i < size
        invariant
            i <= size,
            list@.len() == i,
            ser_guids_from(list@, 0) =~= bytes@.subrange(cur as int, cur + 16 * (i as int)),
        decreases size - i,
    {
        let g = read_guid(bytes, cur + 16 * i);
        proof {
            lemma_ser_guids_push(list@, g, 0);
            assert(bytes@.subrange(cur as int, cur + 16 * (i as int) + 16) =~= bytes@.subrange(
                cur as int,
                cur + 16 * (i as int),
            ) + bytes@.subrange(cur + 16 * (i as int), cur + 16 * (i as int) + 16));
        }
        list.push(g);
        i = i + 1;
    }
    let k = K { qtype: qtype::GUID_LIST, attribute, value: KValue::GuidList(list) };
    proof {
        assert(ser(k, e) =~= bytes@.subrange(cursor - 1, (cur + byte_count) as int));
    }
    Ok((k, cur + byte_count))
}

/// Decode a string (char vector), validating UTF-8.
fn deserialize_string(bytes: &[u8], cursor: usize, e: u8, max_list_size: usize) -> (r: Result<
    (K, usize),
    Error,
>)
    requires
        1 <= cursor <= bytes@.len(),
        bytes@[cursor - 1] == qtype::STRING as u8,
    ensures
        r matches Err(er) ==> crate::error::is_deserialization_error(er),
        r matches Ok((k, next)) ==> decoded(bytes@, cursor - 1, e, max_list_size as int, k, next as int)
            && kheight(k) == 1,
        ({
            let size = uint_value(bytes@.subrange(cursor + 1, cursor + 5), e);
            &&& (cursor + 5 > bytes@.len()) ==> (r matches Err(er) && er is InsufficientData)
            &&& (cursor + 5 <= bytes@.len() && size > max_list_size) ==> (r matches Err(er)
                && er is ListTooLarge)
            &&& (cursor + 5 <= bytes@.len() && size <= max_list_size && size > bytes@.len() - (
            cursor + 5)) ==> (r matches Err(er) && er is InsufficientData)
            &&& (cursor + 5 <= bytes@.len() && size <= max_list_size && size <= bytes@.len() - (
            cursor + 5) && !valid_utf8(bytes@.subrange(cursor + 5, cursor + 5 + size))) ==> (
            r matches Err(er) && er is InvalidUtf8)
            &&& (cursor + 5 <= bytes@.len() && size <= max_list_size && size <= bytes@.len() - (
            cursor + 5) && valid_utf8(bytes@.subrange(cursor + 5, cursor + 5 + size))) ==> r
                is Ok
            &&& r matches Ok((k, next)) ==> next == cursor + 5 + size
        }),
{
    let (attribute, size, cur) = match get_attribute_and_size(bytes, cursor, e, max_list_size) {
        Ok(t) => t,
        Err(er) => {
            return Err(er);
        },
    };
    if size > bytes.len() - cur {
        return Err(Error::InsufficientData { needed: size, available: bytes.len() - cur });
    }
    proof {
        lemma_pow256_8();
        lemma_uint_bytes_of_value(bytes@.subrange(cursor + 1, cursor + 5), e);
    }
    let content = bytes_range_to_vec(bytes, cur, cur + size);
    let s = match string_from_utf8(content) {
        Some(s) => s,
        None => {
            return Err(Error::InvalidUtf8);
        },
    };
    let k = K { qtype: qtype::STRING, attribute, value: KValue::Symbol(s) };
    proof {
        assert(ser(k, e) =~= bytes@.subrange(cursor - 1, (cur + size) as int));
    }
    Ok((k, cur + size))
}

/// Decode a symbol list.  Each symbol needs at least its terminating byte,
/// so a count beyond the remaining input fails before anything is allocated.
#[verifier::loop_isolation(false)]
pub fn deserialize_symbol_list_sync(bytes: &[u8], cursor: usize, e: u8, max_list_size: usize) -> (r:
    Result<(K, usize), Error>)
    requires
        1 <= cursor <= bytes@.len(),
        bytes@[cursor - 1] == qtype::SYMBOL_LIST as u8,
    ensures
        r matches Err(er) ==> crate::error::is_deserialization_error(er),
        r matches Ok((k, next)) ==> decoded(bytes@, cursor - 1, e, max_list_size as int, k, next as int)
            && kheight(k) == 1,
        ({
            let size = uint_value(bytes@.subrange(cursor + 1, cursor + 5), e);
            &&& (cursor + 5 > bytes@.len()) ==> (r matches Err(er) && er is InsufficientData)
            &&& (cursor + 5 <= bytes@.len() && size > max_list_size) ==> (r matches Err(er)
                && er is ListTooLarge)
            &&& (cursor + 5 <= bytes@.len() && size <= max_list_size && size > bytes@.len() - (
            cursor + 5)) ==> (r matches Err(er) && er is InsufficientData)
            &&& (cursor + 5 <= bytes@.len() && size <= max_list_size && size <= bytes@.len() - (
            cursor + 5) && dec_syms(bytes@, cursor + 5, size as int) is Some) ==> (r matches Ok(
                (k, next),
            ) && next == dec_syms(bytes@, cursor + 5, size as int).unwrap())
        }),
{
    let (attribute, size, start) = match get_attribute_and_size(bytes, cursor, e, max_list_size) {
        Ok(t) => t,
        Err(er) => {
            return Err(er);
        },
    };
    if size > bytes.len() - start {
        return Err(Error::InsufficientData { needed: size, available: bytes.len() - start });
    }
    proof {
        lemma_pow256_8();
        lemma_uint_bytes_of_value(bytes@.subrange(cursor + 1, cursor + 5), e);
    }
    let mut list: Vec<String> = Vec::new();
    let mut cur: usize = start;
    let mut i: usize = 0;
    while i < size
        invariant
            i <= size,
            start <= cur <= bytes@.len(),
            list@.len() == i,
            ser_syms_from(list@, 0) =~= bytes@.subrange(start as int, cur as int),
            dec_syms(bytes@, start as int, size as int) is Some ==> dec_syms(
                bytes@,
                cur as int,
                size - i,
            ) == dec_syms(bytes@, start as int, size as int),
        decreases size - i,
    {
        proof {
            lemma_nul_from(bytes@, cur as int);
            let nl = nul_from(bytes@, cur as int);
            if nl < bytes@.len() {
                assert(first_nul_at(bytes@, cur as int, nl));
            }
        }
        let (s, next) = match read_sym(bytes, cur) {
            Ok(p) => p,
            Err(er) => {
                proof {
                    if dec_syms(bytes@, start as int, size as int) is Some {
                        assert(dec_syms(bytes@, cur as int, size - i) is Some);
                        assert(false);
                    }
                }
                return Err(er);
            },
        };
        proof {
            lemma_ser_syms_push(list@, s, 0);
            assert(bytes@.subrange(start as int, next as int) =~= bytes@.subrange(
                start as int,
                cur as int,
            ) + bytes@.subrange(cur as int, next as int));
        }
        list.push(s);
        cur = next;
        i = i + 1;
    }
    let k = K { qtype: qtype::SYMBOL_LIST, attribute, value: KValue::SymbolList(list) };
    proof {
        assert(ser(k, e) =~= bytes@.subrange(cursor - 1, cur as int));
    }
    Ok((k, cur))
}

/// Decode an enum atom: a null-terminated domain name and a 4-byte index.
fn deserialize_enum_atom(bytes: &[u8], cursor: usize, e: u8) -> (r: Result<(K, usize), Error>)
    requires
        1 <= cursor <= bytes@.len(),
        bytes@[cursor - 1] == qtype::ENUM_ATOM as u8,
    ensures
        r matches Err(er) ==> crate::error::is_deserialization_error(er),
        r matches Ok((k, next)) ==> decoded(bytes@, cursor - 1, e, 0, k, next as int)
            && kheight(k) == 1,
        (forall|j: int| cursor <= j < bytes@.len() ==> bytes@[j] != 0) ==> (r matches Err(er)
            && er is MissingNullTerminator),
        forall|j: int|
            #![trigger first_nul_at(bytes@, cursor as int, j)]
            (first_nul_at(bytes@, cursor as int, j) && !valid_utf8(
                bytes@.subrange(cursor as int, j),
            )) ==> (r matches Err(er) && er is InvalidUtf8),
        forall|j: int|
            #![trigger first_nul_at(bytes@, cursor as int, j)]
            (first_nul_at(bytes@, cursor as int, j) && valid_utf8(
                bytes@.subrange(cursor as int, j),
            ) && bytes@.len() - (j + 1) < 4) ==> (r matches Err(er) && er
                == (Error::InsufficientData {
                needed: 4,
                available: (bytes@.len() - (j + 1)) as usize,
            })),
        forall|j: int|
            #![trigger first_nul_at(bytes@, cursor as int, j)]
            (first_nul_at(bytes@, cursor as int, j) && valid_utf8(
                bytes@.subrange(cursor as int, j),
            ) && bytes@.len() - (j + 1) >= 4) ==> r is Ok,
        r matches Ok((k, next)) ==> next == nul_from(bytes@, cursor as int) + 5,
{
    let (domain, cur) = match read_sym(bytes, cursor) {
        Ok(p) => p,
        Err(er) => {
            return Err(er);
        },
    };
    if bytes.len() - cur < 4 {
        return Err(Error::InsufficientData { needed: 4, available: bytes.len() - cur });
    }
    proof {
        lemma_pow256_8();
    }
    let v = read_uint(bytes, cur, 4, e);
    let x = #[verifier::truncate] (v as u32) as i32;
    proof {
        assert(((x as u32) as u64) == v) by (bit_vector)
            requires
                v < 0x100000000 && x == (v as u32) as i32,
        ;
        lemma_uint_bytes_of_value(bytes@.subrange(cur as int, cur + 4), e);
    }
    let k = K {
        qtype: qtype::ENUM_ATOM,
        attribute: qattribute::NONE,
        value: KValue::Enum(domain, x),
    };
    proof {
        assert(ser(k, e) =~= bytes@.subrange(cursor - 1, cur + 4));
    }
    Ok((k, cur + 4))
}

/// Decode an enum list: attribute, count, a null-terminated domain name and
/// the 4-byte indices.
#[verifier::loop_isolation(false)]
fn deserialize_enum_list(bytes: &[u8], cursor: usize, e: u8, max_list_size: usize) -> (r: Result<
    (K, usize),
    Error,
>)
    requires
        1 <= cursor <= bytes@.len(),
        bytes@[cursor - 1] == qtype::ENUM_LIST as u8,
    ensures
        r matches Err(er) ==> crate::error::is_deserialization_error(er),
        r matches Ok((k, next)) ==> decoded(bytes@, cursor - 1, e, max_list_size as int, k, next as int)
            && kheight(k) == 1,
        ({
            let size = uint_value(bytes@.subrange(cursor + 1, cursor + 5), e);
            let nl = nul_from(bytes@, cursor + 5);
            (cursor + 5 <= bytes@.len() && size <= max_list_size && nl < bytes@.len()
                && valid_utf8(bytes@.subrange(cursor + 5, nl)) && 4 * size <= bytes@.len() - (nl
                + 1)) ==> (r matches Ok((k, next)) && next == nl + 1 + 4 * size)
        }),
{
    let (attribute, size, after_hdr) = match get_attribute_and_size(bytes, cursor, e, max_list_size) {
        Ok(t) => t,
        Err(er) => {
            return Err(er);
        },
    };
    let blen: usize = bytes.len();
    proof {
        lemma_nul_from(bytes@, after_hdr as int);
        let nl = nul_from(bytes@, after_hdr as int);
        if nl < bytes@.len() {
            assert(first_nul_at(bytes@, after_hdr as int, nl));
        }
        vstd::arithmetic::div_mod::lemma_fundamental_div_mod(usize::MAX as int, 4);
        assert(bytes@.len() == blen);
    }
    let (domain, cur) = match read_sym(bytes, after_hdr) {
        Ok(p) => p,
        Err(er) => {
            return Err(er);
        },
    };
    if size > usize::MAX / 4 {
        return Err(Error::SizeOverflow);
    }
    let byte_count = size * 4;
    if byte_count > bytes.len() - cur {
        return Err(Error::InsufficientData { needed: byte_count, available: bytes.len() - cur });
    }
    proof {
        lemma_pow256_8();
        lemma_uint_bytes_of_value(bytes@.subrange(cursor + 1, cursor + 5), e);
    }
    let mut list: Vec<i32> = Vec::new();
    let mut i: usize = 0;
    while i < size
        invariant
            i <= size,
            list@.len() == i,
            ser_uints_from(u64s_of_i32(list@), 4, 0, e) =~= bytes@.subrange(
                cur as int,
                cur + 4 * (i as int),
            ),
        decreases size - i,
    {
        let v = read_uint(bytes, cur + 4 * i, 4, e);
        let x = #[verifier::truncate] (v as u32) as i32;
        proof {
            assert(((x as u32) as u64) == v) by (bit_vector)
                requires
                    v < 0x100000000 && x == (v as u32) as i32,
            ;
            lemma_uint_bytes_of_value(
                bytes@.subrange(cur + 4 * (i as int), cur + 4 * (i as int) + 4),
                e,
            );
            lemma_ser_uints_push(u64s_of_i32(list@), 4, (x as u32) as u64, 0, e);
            assert(u64s_of_i32(list@.push(x)) =~= u64s_of_i32(list@).push((x as u32) as u64));
            assert(bytes@.subrange(cur as int, cur + 4 * (i as int) + 4) =~= bytes@.subrange(
                cur as int,
                cur + 4 * (i as int),
            ) + bytes@.subrange(cur + 4 * (i as int), cur + 4 * (i as int) + 4));
        }
        list.push(x);
        i = i + 1;
    }
    let k = K { qtype: qtype::ENUM_LIST, attribute, value: KValue::EnumList(domain, list) };
    proof {
        assert(ser(k, e) =~= bytes@.subrange(cursor - 1, (cur + byte_count) as int));
    }
    Ok((k, cur + byte_count))
}

/// Decode the generic null (unary primitive id 0) or an opaque unary
/// primitive.
pub fn deserialize_null(bytes: &[u8], cursor: usize, e: u8) -> (r: Result<(K, usize), Error>)
    requires
        1 <= cursor <= bytes@.len(),
        bytes@[cursor - 1] == qtype::UNARY_PRIMITIVE as u8,
    ensures
        r matches Err(er) ==> crate::error::is_deserialization_error(er),
        r matches Ok((k, next)) ==> decoded(bytes@, cursor - 1, e, 0, k, next as int) && kheight(k)
            == 1 && next == cursor + 1,
        cursor + 1 <= bytes@.len() ==> r is Ok,
        r matches Err(er) ==> cursor + 1 > bytes@.len() && er == (Error::InsufficientData {
            needed: 1,
            available: 0,
        }),
{
    if bytes.len() - cursor < 1 {
        return Err(Error::InsufficientData { needed: 1, available: 0 });
    }
    let id = bytes[cursor];
    if id == 0 {
        let k = K { qtype: qtype::NULL, attribute: qattribute::NONE, value: KValue::Null };
        proof {
            assert(ser(k, e) =~= bytes@.subrange(cursor - 1, cursor + 1));
        }
        Ok((k, cursor + 1))
    } else {
        let mut payload: Vec<u8> = Vec::new();
        payload.push(id);
        let k = K {
            qtype: qtype::UNARY_PRIMITIVE,
            attribute: qattribute::NONE,
            value: KValue::Opaque(payload),
        };
        proof {
            assert(ser(k, e) =~= bytes@.subrange(cursor - 1, cursor + 1));
        }
        Ok((k, cursor + 1))
    }
}

/// Decode a fixed-size opaque function payload (binary primitive).
fn deserialize_fixed_payload_opaque(bytes: &[u8], cursor: usize, e: u8, qt: i8, payload_len: usize)
    -> (r: Result<(K, usize), Error>)
    requires
        1 <= cursor <= bytes@.len(),
        qt == qtype::BINARY_PRIMITIVE && payload_len == 1,
        bytes@[cursor - 1] == qt as u8,
    ensures
        r matches Err(er) ==> crate::error::is_deserialization_error(er),
        r matches Ok((k, next)) ==> decoded(bytes@, cursor - 1, e, 0, k, next as int) && kheight(k)
            == 1 && next == cursor + payload_len,
        cursor + payload_len <= bytes@.len() ==> r is Ok,
        r matches Err(er) ==> cursor + payload_len > bytes@.len() && er
            == (Error::InsufficientData {
            needed: payload_len,
            available: (bytes@.len() - cursor) as usize,
        }),
{
    if payload_len > bytes.len() - cursor {
        return Err(Error::InsufficientData {
            needed: payload_len,
            available: bytes.len() - cursor,
        });
    }
    let payload = bytes_range_to_vec(bytes, cursor, cursor + payload_len);
    let k = K { qtype: qt, attribute: qattribute::NONE, value: KValue::Opaque(payload) };
    proof {
        assert(ser(k, e) =~= bytes@.subrange(cursor - 1, (cursor + payload_len) as int));
    }
    Ok((k, cursor + payload_len))
}

/// Decode the error atom: a null-terminated UTF-8 message.
fn deserialize_error(bytes: &[u8], cursor: usize, e: u8) -> (r: Result<(K, usize), Error>)
    requires
        1 <= cursor <= bytes@.len(),
        bytes@[cursor - 1] == qtype::ERROR as u8,
    ensures
        r matches Err(er) ==> crate::error::is_deserialization_error(er),
        r matches Ok((k, next)) ==> decoded(bytes@, cursor - 1, e, 0, k, next as int) && kheight(k)
            == 1,
        r matches Ok((k, next)) ==> next == nul_from(bytes@, cursor as int) + 1,
        (forall|j: int| cursor <= j < bytes@.len() ==> bytes@[j] != 0) ==> (r matches Err(er)
            && er is MissingNullTerminator),
        forall|j: int|
            #![trigger first_nul_at(bytes@, cursor as int, j)]
            first_nul_at(bytes@, cursor as int, j) ==> if valid_utf8(
                bytes@.subrange(cursor as int, j),
            ) {
                r is Ok
            } else {
                r matches Err(er) && er is InvalidUtf8
            },
{
    let (msg, next) = match read_sym(bytes, cursor) {
        Ok(p) => p,
        Err(er) => {
            return Err(er);
        },
    };
    let k = K { qtype: qtype::ERROR, attribute: qattribute::NONE, value: KValue::Symbol(msg) };
    proof {
        assert(ser(k, e) =~= bytes@.subrange(cursor - 1, next as int));
    }
    Ok((k, next))
}

/// Decode a compound list: recursively decoded children.  A count beyond
/// the remaining input (each child needs at least its type byte) fails
/// before anything is allocated.
#[verifier::loop_isolation(false)]
pub fn deserialize_compound_list_sync(
    bytes: &[u8],
    cursor: usize,
    e: u8,
    depth: usize,
    max_list_size: usize,
    max_recursion_depth: usize,
) -> (r: Result<(K, usize), Error>)
    requires
        1 <= cursor <= bytes@.len(),
        bytes@[cursor - 1] == qtype::COMPOUND_LIST as u8,
        max_recursion_depth < usize::MAX,
    ensures
        r matches Err(er) ==> crate::error::is_deserialization_error(er),
        r matches Ok((k, next)) ==> decoded(bytes@, cursor - 1, e, max_list_size as int, k, next as int)
            && kheight(k) + depth <= max_recursion_depth + 2 && depth <= max_recursion_depth,
        depth > max_recursion_depth ==> (r matches Err(er) && er == (Error::MaxDepthExceeded {
            depth,
            max: max_recursion_depth,
        })),
        depth <= max_recursion_depth ==> ({
            let size = uint_value(bytes@.subrange(cursor + 1, cursor + 5), e);
            &&& (cursor + 5 > bytes@.len()) ==> (r matches Err(er) && er is InsufficientData)
            &&& (cursor + 5 <= bytes@.len() && size > max_list_size) ==> (r matches Err(er)
                && er is ListTooLarge)
            &&& (cursor + 5 <= bytes@.len() && size <= max_list_size && size > bytes@.len() - (
            cursor + 5)) ==> (r matches Err(er) && er is InsufficientData)
            &&& (cursor + 5 <= bytes@.len() && size <= max_list_size && size <= bytes@.len() - (
            cursor + 5) && dec_items(
                bytes@,
                cursor + 5,
                e,
                max_list_size as int,
                max_recursion_depth - depth,
                size as int,
            ) is Some) ==> (r matches Ok((k, next)) && next == dec_items(
                bytes@,
                cursor + 5,
                e,
                max_list_size as int,
                max_recursion_depth - depth,
                size as int,
            ).unwrap())
        }),
        (depth <= max_recursion_depth && depth + compound_chain(
            bytes@,
            cursor - 1,
            e,
            max_list_size as int,
        ) > max_recursion_depth) ==> (r matches Err(er) && er is MaxDepthExceeded),
    decreases bytes@.len() - cursor, 1int,
{
    if depth > max_recursion_depth {
        return Err(Error::MaxDepthExceeded { depth, max: max_recursion_depth });
    }
    let ghost chain_hyp = depth + compound_chain(bytes@, cursor - 1, e, max_list_size as int)
        > max_recursion_depth;
    let (attribute, size, start) = match get_attribute_and_size(bytes, cursor, e, max_list_size) {
        Ok(t) => t,
        Err(er) => {
            proof {
                if chain_hyp {
                    assert(false);
                }
            }
            return Err(er);
        },
    };
    if size > bytes.len() - start {
        proof {
            if chain_hyp {
                assert(false);
            }
        }
        return Err(Error::InsufficientData { needed: size, available: bytes.len() - start });
    }
    proof {
        lemma_pow256_8();
        lemma_uint_bytes_of_value(bytes@.subrange(cursor + 1, cursor + 5), e);
    }
    let ghost items_target = dec_items(
        bytes@,
        start as int,
        e,
        max_list_size as int,
        max_recursion_depth - depth,
        size as int,
    );
    let mut list: Vec<K> = Vec::new();
    let mut cur: usize = start;
    let mut i: usize = 0;
    while i < size
        invariant
            i <= size,
            start <= cur <= bytes@.len(),
            list@.len() == i,
            ser_seq_from(list@, 0, e) =~= bytes@.subrange(start as int, cur as int),
            forall|j: int|
                0 <= j < i ==> wf(#[trigger] list@[j]) && lists_bounded(
                    list@[j],
                    max_list_size as nat,
                ) && kheight(list@[j]) + depth + 1 <= max_recursion_depth + 2,
            items_target is Some ==> dec_items(
                bytes@,
                cur as int,
                e,
                max_list_size as int,
                max_recursion_depth - depth,
                size - i,
            ) == items_target,
            chain_hyp ==> (i == 0 && cur == start),
        decreases size - i,
    {
        let (child, next) = match deserialize_bytes_sync(
            bytes,
            cur,
            e,
            depth + 1,
            max_list_size,
            max_recursion_depth,
        ) {
            Ok(t) => t,
            Err(er) => {
                proof {
                    if items_target is Some {
                        assert(dec_items(
                            bytes@,
                            cur as int,
                            e,
                            max_list_size as int,
                            max_recursion_depth - depth,
                            size - i,
                        ) is Some);
                        assert(dec_len(
                            bytes@,
                            cur as int,
                            e,
                            max_list_size as int,
                            max_recursion_depth - depth,
                        ) is Some);
                        assert(false);
                    }
                    if chain_hyp {
                        assert(compound_chain(bytes@, cursor - 1, e, max_list_size as int) == 1
                            + compound_chain(bytes@, start as int, e, max_list_size as int));
                        assert(er is MaxDepthExceeded);
                    }
                }
                return Err(er);
            },
        };
        proof {
            if chain_hyp {
                assert(compound_chain(bytes@, cursor - 1, e, max_list_size as int) == 1
                    + compound_chain(bytes@, start as int, e, max_list_size as int));
                assert(false);
            }
        }
        proof {
            lemma_ser_seq_push(list@, child, 0, e);
            assert(bytes@.subrange(start as int, next as int) =~= bytes@.subrange(
                start as int,
                cur as int,
            ) + bytes@.subrange(cur as int, next as int));
        }
        list.push(child);
        cur = next;
        i = i + 1;
    }
    proof {
        if chain_hyp {
            assert(false);
        }
    }
    let k = K { qtype: qtype::COMPOUND_LIST, attribute, value: KValue::CompoundList(list) };
    proof {
        assert(k.children() == k.value->CompoundList_0@);
        lemma_ser_items_eq_ser_seq(k, 0, e);
        assert(ser(k, e) =~= bytes@.subrange(cursor - 1, cur as int));
        lemma_kheight_items_le(k, 0, (max_recursion_depth + 1 - depth) as nat);
    }
    Ok((k, cur))
}

/// Decode a dictionary or sorted dictionary: a keys object followed by a
/// values object.  The pair determines the type code; input whose leading
/// code disagrees with its shape is rejected, so that re-encoding a decoded
/// dictionary reproduces the input bytes.
#[verifier::loop_isolation(false)]
pub fn deserialize_dictionary_sync(
    bytes: &[u8],
    cursor: usize,
    e: u8,
    depth: usize,
    max_list_size: usize,
    max_recursion_depth: usize,
) -> (r: Result<(K, usize), Error>)
    requires
        1 <= cursor <= bytes@.len(),
        max_recursion_depth < usize::MAX,
    ensures
        r matches Err(er) ==> crate::error::is_deserialization_error(er),
        r matches Ok((k, next)) ==> decoded(bytes@, cursor - 1, e, max_list_size as int, k, next as int)
            && kheight(k) + depth <= max_recursion_depth + 2 && depth <= max_recursion_depth,
        depth > max_recursion_depth ==> (r matches Err(er) && er == (Error::MaxDepthExceeded {
            depth,
            max: max_recursion_depth,
        })),
        ({
            let d1 = dec_len(bytes@, cursor as int, e, max_list_size as int, max_recursion_depth
                - depth);
            &&& depth <= max_recursion_depth
            &&& d1 is Some
            &&& dec_len(
                bytes@,
                cursor + d1.unwrap(),
                e,
                max_list_size as int,
                max_recursion_depth - depth,
            ) is Some
        }) ==> ({
            let d1 = dec_len(bytes@, cursor as int, e, max_list_size as int, max_recursion_depth
                - depth);
            let d2 = dec_len(
                bytes@,
                cursor + d1.unwrap(),
                e,
                max_list_size as int,
                max_recursion_depth - depth,
            );
            ||| (r matches Ok((k, next)) && next == cursor + d1.unwrap() + d2.unwrap())
            ||| (r matches Err(er) && er is DeserializationError)
        }),
    decreases bytes@.len() - cursor, 1int,
{
    if depth > max_recursion_depth {
        return Err(Error::MaxDepthExceeded { depth, max: max_recursion_depth });
    }
    let (keys, c2) = match deserialize_bytes_sync(
        bytes,
        cursor,
        e,
        depth + 1,
        max_list_size,
        max_recursion_depth,
    ) {
        Ok(t) => t,
        Err(er) => {
            return Err(er);
        },
    };
    let (values, c3) = match deserialize_bytes_sync(
        bytes,
        c2,
        e,
        depth + 1,
        max_list_size,
        max_recursion_depth,
    ) {
        Ok(t) => t,
        Err(er) => {
            return Err(er);
        },
    };
    let d = match K::new_dictionary(keys, values) {
        Ok(d) => d,
        Err(_) => {
            return Err(Error::DeserializationError(String::from_str(
                "failed to build dictionary: keys and values have different lengths",
            )));
        },
    };
    if (#[verifier::truncate] (d.get_type() as u8)) != bytes[cursor - 1] {
        return Err(Error::DeserializationError(String::from_str(
            "dictionary type code does not match its contents",
        )));
    }
    proof {
        let b0 = bytes@[cursor - 1];
        let qt = d.qtype;
        assert(qt as u8 == b0) by (bit_vector)
            requires
                b0 == qt as u8,
        ;
        assert(ser(d, e) =~= bytes@.subrange(cursor - 1, c3 as int));
        lemma_kheight_items_le(d, 0, (max_recursion_depth + 1 - depth) as nat);
    }
    Ok((d, c3))
}

/// Decode a table: attribute byte, dictionary marker, then the column
/// dictionary, whose keys must be a symbol list and whose values must be a
/// compound list.
#[verifier::loop_isolation(false)]
pub fn deserialize_table_sync(
    bytes: &[u8],
    cursor: usize,
    e: u8,
    depth: usize,
    max_list_size: usize,
    max_recursion_depth: usize,
) -> (r: Result<(K, usize), Error>)
    requires
        1 <= cursor <= bytes@.len(),
        bytes@[cursor - 1] == qtype::TABLE as u8,
        max_recursion_depth < usize::MAX,
    ensures
        r matches Err(er) ==> crate::error::is_deserialization_error(er),
        r matches Ok((k, next)) ==> decoded(bytes@, cursor - 1, e, max_list_size as int, k, next as int)
            && kheight(k) + depth <= max_recursion_depth + 2 && depth <= max_recursion_depth,
        depth > max_recursion_depth ==> (r matches Err(er) && er == (Error::MaxDepthExceeded {
            depth,
            max: max_recursion_depth,
        })),
        (depth <= max_recursion_depth && cursor + 2 > bytes@.len()) ==> (r matches Err(er) && er
            == (Error::InsufficientData {
            needed: 2,
            available: (bytes@.len() - cursor) as usize,
        })),
        (depth <= max_recursion_depth && cursor + 2 <= bytes@.len() && bytes@[cursor + 1]
            != qtype::DICTIONARY as u8) ==> (r matches Err(er) && er is DeserializationError),
        ({
            let d1 = dec_len(bytes@, cursor + 2, e, max_list_size as int, max_recursion_depth
                - depth - 1);
            &&& depth < max_recursion_depth
            &&& cursor + 2 <= bytes@.len()
            &&& bytes@[cursor + 1] == qtype::DICTIONARY as u8
            &&& d1 is Some
            &&& dec_len(
                bytes@,
                cursor + 2 + d1.unwrap(),
                e,
                max_list_size as int,
                max_recursion_depth - depth - 1,
            ) is Some
        }) ==> (r is Ok || (r matches Err(er) && er is DeserializationError)),
    decreases bytes@.len() - cursor, 1int,
{
    if depth > max_recursion_depth {
        return Err(Error::MaxDepthExceeded { depth, max: max_recursion_depth });
    }
    if bytes.len() - cursor < 2 {
        return Err(Error::InsufficientData { needed: 2, available: bytes.len() - cursor });
    }
    let attribute = #[verifier::truncate] (bytes[cursor] as i8);
    if bytes[cursor + 1] != (qtype::DICTIONARY as u8) {
        return Err(Error::DeserializationError(String::from_str(
            "invalid table dictionary marker",
        )));
    }
    let (d, c2) = match deserialize_dictionary_sync(
        bytes,
        cursor + 2,
        e,
        depth + 1,
        max_list_size,
        max_recursion_depth,
    ) {
        Ok(t) => t,
        Err(er) => {
            return Err(er);
        },
    };
    let shape_ok = match &d.value {
        KValue::CompoundList(pair) => pair.len() == 2 && pair[0].get_type() == qtype::SYMBOL_LIST
            && pair[1].get_type() == qtype::COMPOUND_LIST,
        _ => false,
    };
    if !shape_ok {
        return Err(Error::DeserializationError(String::from_str(
            "invalid table shape: expected symbol-list keys and compound-list columns",
        )));
    }
    proof {
        let b1 = bytes@[cursor + 1];
        let qt = d.qtype;
        assert(ser(d, e)[0] == qt as u8);
        assert(bytes@.subrange(cursor + 1, c2 as int)[0] == b1);
        assert(qt == qtype::DICTIONARY) by (bit_vector)
            requires
                qt as u8 == b1 && b1 == qtype::DICTIONARY as u8,
        ;
        let a0 = bytes@[cursor as int];
        assert(attribute as u8 == a0) by (bit_vector)
            requires
                attribute == a0 as i8,
        ;
    }
    let k = K { qtype: qtype::TABLE, attribute, value: KValue::Table(Box::new(d)) };
    proof {
        assert(ser(k, e) =~= bytes@.subrange(cursor - 1, c2 as int));
    }
    Ok((k, c2))
}

/// Decode a lambda: a null-terminated context and a char-vector body.
#[verifier::loop_isolation(false)]
#[verifier::rlimit(60)]
pub fn deserialize_lambda_sync(
    bytes: &[u8],
    cursor: usize,
    e: u8,
    depth: usize,
    max_list_size: usize,
    max_recursion_depth: usize,
) -> (r: Result<(K, usize), Error>)
    requires
        1 <= cursor <= bytes@.len(),
        bytes@[cursor - 1] == qtype::LAMBDA as u8,
        max_recursion_depth < usize::MAX,
    ensures
        r matches Err(er) ==> crate::error::is_deserialization_error(er),
        r matches Ok((k, next)) ==> decoded(bytes@, cursor - 1, e, max_list_size as int, k, next as int)
            && kheight(k) + depth <= max_recursion_depth + 2 && depth <= max_recursion_depth,
        depth > max_recursion_depth ==> (r matches Err(er) && er == (Error::MaxDepthExceeded {
            depth,
            max: max_recursion_depth,
        })),
        (depth <= max_recursion_depth && (forall|j: int|
            cursor <= j < bytes@.len() ==> bytes@[j] != 0)) ==> (r matches Err(er) && er
            is MissingNullTerminator),
        forall|j: int|
            #![trigger first_nul_at(bytes@, cursor as int, j)]
            (depth <= max_recursion_depth && first_nul_at(bytes@, cursor as int, j)
                && !valid_utf8(bytes@.subrange(cursor as int, j))) ==> (r matches Err(er) && er
                is InvalidUtf8),
        ({
            let nl = nul_from(bytes@, cursor as int);
            &&& depth <= max_recursion_depth
            &&& nl < bytes@.len()
            &&& valid_utf8(bytes@.subrange(cursor as int, nl))
            &&& dec_len(bytes@, nl + 1, e, max_list_size as int, max_recursion_depth - depth)
                is Some
        }) ==> (r is Ok || (r matches Err(er) && er is DeserializationError)),
    decreases bytes@.len() - cursor, 1int,
{
    if depth > max_recursion_depth {
        return Err(Error::MaxDepthExceeded { depth, max: max_recursion_depth });
    }
    let ghost nl = nul_from(bytes@, cursor as int);
    let ghost lam_hyp = nl < bytes@.len() && valid_utf8(bytes@.subrange(cursor as int, nl))
        && dec_len(bytes@, nl + 1, e, max_list_size as int, max_recursion_depth - depth) is Some;
    proof {
        lemma_nul_from(bytes@, cursor as int);
        if lam_hyp {
            assert(first_nul_at(bytes@, cursor as int, nl));
        }
    }
    let (context, cur) = match read_sym(bytes, cursor) {
        Ok(p) => p,
        Err(er) => {
            proof {
                if lam_hyp {
                    assert(false);
                }
            }
            return Err(er);
        },
    };
    let (body_k, c2) = match deserialize_bytes_sync(
        bytes,
        cur,
        e,
        depth + 1,
        max_list_size,
        max_recursion_depth,
    ) {
        Ok(t) => t,
        Err(er) => {
            proof {
                if lam_hyp {
                    assert(cur == nl + 1);
                    assert(false);
                }
            }
            return Err(er);
        },
    };
    if body_k.get_type() != qtype::STRING || body_k.get_attribute() != qattribute::NONE {
        return Err(Error::DeserializationError(String::from_str(
            "invalid lambda body (expected a plain char vector)",
        )));
    }
    let ghost bk = body_k;
    let body = match body_k.value {
        KValue::Symbol(s) => s,
        _ => {
            return Err(Error::DeserializationError(String::from_str(
                "invalid lambda body (expected a plain char vector)",
            )));
        },
    };
    let k = K {
        qtype: qtype::LAMBDA,
        attribute: qattribute::NONE,
        value: KValue::Lambda(context, body),
    };
    proof {
        assert(ser(bk, e) =~= seq![qtype::STRING as u8, 0u8] + crate::endian::uint_bytes(
            encode_utf8(body@).len(),
            4,
            e,
        ) + encode_utf8(body@));
        assert(ser(k, e) =~= seq![qtype::LAMBDA as u8] + ser_sym(context@) + ser(bk, e));
        assert(bytes@.subrange(cursor - 1, c2 as int) =~= seq![bytes@[cursor - 1]]
            + bytes@.subrange(cursor as int, cur as int) + bytes@.subrange(
            cur as int,
            c2 as int,
        ));
        assert(ser(k, e) =~= bytes@.subrange(cursor - 1, c2 as int));
    }
    Ok((k, c2))
}

/// Decode the counted-children span of an opaque function payload; `None`
/// when any child fails.
#[verifier::loop_isolation(false)]
fn try_children(
    bytes: &[u8],
    cursor: usize,
    e: u8,
    depth: usize,
    max_list_size: usize,
    max_recursion_depth: usize,
    count: usize,
) -> (r: Option<usize>)
    requires
        cursor <= bytes@.len(),
        max_recursion_depth < usize::MAX,
        depth <= max_recursion_depth,
    ensures
        r matches Some(next) ==> cursor <= next <= bytes@.len(),
        dec_items(
            bytes@,
            cursor as int,
            e,
            max_list_size as int,
            max_recursion_depth - depth,
            count as int,
        ) is Some ==> (r matches Some(next) && next == dec_items(
            bytes@,
            cursor as int,
            e,
            max_list_size as int,
            max_recursion_depth - depth,
            count as int,
        ).unwrap()),
    decreases bytes@.len() - cursor, 1int,
{
    let ghost items_target = dec_items(
        bytes@,
        cursor as int,
        e,
        max_list_size as int,
        max_recursion_depth - depth,
        count as int,
    );
    let mut cur: usize = cursor;
    let mut i: usize = 0;
    while i < count
        invariant
            i <= count,
            cursor <= cur <= bytes@.len(),
            items_target is Some ==> dec_items(
                bytes@,
                cur as int,
                e,
                max_list_size as int,
                max_recursion_depth - depth,
                count - i,
            ) == items_target,
        decreases count - i,
    {
        match deserialize_bytes_sync(bytes, cur, e, depth + 1, max_list_size, max_recursion_depth) {
            Ok((_child, next)) => {
                cur = next;
            },
            Err(_) => {
                proof {
                    if items_target is Some {
                        assert(dec_items(
                            bytes@,
                            cur as int,
                            e,
                            max_list_size as int,
                            max_recursion_depth - depth,
                            count - i,
                        ) is Some);
                        assert(dec_len(
                            bytes@,
                            cur as int,
                            e,
                            max_list_size as int,
                            max_recursion_depth - depth,
                        ) is Some);
                        assert(false);
                    }
                }
                return None;
            },
        }
        i = i + 1;
    }
    proof {
        if items_target is Some {
            assert(dec_items(
                bytes@,
                cur as int,
                e,
                max_list_size as int,
                max_recursion_depth - depth,
                0,
            ) == Some(cur as int));
        }
    }
    Some(cur)
}

/// Decode a projection: an i32 child count followed by that many values;
/// the consumed span is preserved verbatim.
#[verifier::loop_isolation(false)]
pub fn deserialize_projection_opaque(
    bytes: &[u8],
    cursor: usize,
    e: u8,
    depth: usize,
    max_list_size: usize,
    max_recursion_depth: usize,
) -> (r: Result<(K, usize), Error>)
    requires
        1 <= cursor <= bytes@.len(),
        bytes@[cursor - 1] == qtype::PROJECTION as u8,
        max_recursion_depth < usize::MAX,
    ensures
        r matches Err(er) ==> crate::error::is_deserialization_error(er),
        r matches Ok((k, next)) ==> decoded(bytes@, cursor - 1, e, max_list_size as int, k, next as int)
            && kheight(k) + depth <= max_recursion_depth + 2 && depth <= max_recursion_depth,
        depth > max_recursion_depth ==> (r matches Err(er) && er == (Error::MaxDepthExceeded {
            depth,
            max: max_recursion_depth,
        })),
        ({
            let cnt = uint_value(bytes@.subrange(cursor as int, cursor + 4), e);
            &&& depth <= max_recursion_depth
            &&& cursor + 4 <= bytes@.len()
            &&& cnt < 0x80000000
            &&& dec_items(
                bytes@,
                cursor + 4,
                e,
                max_list_size as int,
                max_recursion_depth - depth,
                cnt as int,
            ) is Some
        }) ==> ({
            let cnt = uint_value(bytes@.subrange(cursor as int, cursor + 4), e);
            r matches Ok((k, next)) && next == dec_items(
                bytes@,
                cursor + 4,
                e,
                max_list_size as int,
                max_recursion_depth - depth,
                cnt as int,
            ).unwrap()
        }),
    decreases bytes@.len() - cursor, 1int,
{
    if depth > max_recursion_depth {
        return Err(Error::MaxDepthExceeded { depth, max: max_recursion_depth });
    }
    let ghost cnt = uint_value(bytes@.subrange(cursor as int, cursor + 4), e);
    let ghost proj_hyp = cursor + 4 <= bytes@.len() && cnt < 0x80000000 && dec_items(
        bytes@,
        cursor + 4,
        e,
        max_list_size as int,
        max_recursion_depth - depth,
        cnt as int,
    ) is Some;
    if bytes.len() - cursor < 4 {
        return Err(Error::InsufficientData { needed: 4, available: bytes.len() - cursor });
    }
    proof {
        lemma_pow256_8();
    }
    let n_u64 = read_uint(bytes, cursor, 4, e);
    let n = #[verifier::truncate] (n_u64 as u32) as i32;
    if n < 0 {
        proof {
            if proj_hyp {
                assert((n_u64 as u32) as i32 >= 0) by (bit_vector)
                    requires
                        n_u64 < 0x80000000u64,
                ;
                assert(false);
            }
        }
        return Err(Error::DeserializationError(String::from_str(
            "invalid projection count (negative)",
        )));
    }
    let count = n as usize;
    proof {
        if proj_hyp {
            assert(count == n_u64) by (bit_vector)
                requires
                    n == (n_u64 as u32) as i32,
                    count == n as usize,
                    n_u64 < 0x80000000u64,
                    n >= 0,
            ;
        }
    }
    let ghost items_target = dec_items(
        bytes@,
        cursor + 4,
        e,
        max_list_size as int,
        max_recursion_depth - depth,
        count as int,
    );
    let mut cur: usize = cursor + 4;
    let mut i: usize = 0;
    while i < count
        invariant
            i <= count,
            cursor + 4 <= cur <= bytes@.len(),
            proj_hyp ==> (items_target is Some && dec_items(
                bytes@,
                cur as int,
                e,
                max_list_size as int,
                max_recursion_depth - depth,
                count - i,
            ) == items_target),
        decreases count - i,
    {
        match deserialize_bytes_sync(bytes, cur, e, depth + 1, max_list_size, max_recursion_depth) {
            Ok((_child, next)) => {
                cur = next;
            },
            Err(er) => {
                proof {
                    if proj_hyp {
                        assert(dec_items(
                            bytes@,
                            cur as int,
                            e,
                            max_list_size as int,
                            max_recursion_depth - depth,
                            count - i,
                        ) is Some);
                        assert(dec_len(
                            bytes@,
                            cur as int,
                            e,
                            max_list_size as int,
                            max_recursion_depth - depth,
                        ) is Some);
                        assert(false);
                    }
                }
                return Err(er);
            },
        }
        i = i + 1;
    }
    proof {
        if proj_hyp {
            assert(dec_items(
                bytes@,
                cur as int,
                e,
                max_list_size as int,
                max_recursion_depth - depth,
                0,
            ) == Some(cur as int));
        }
    }
    let payload = bytes_range_to_vec(bytes, cursor, cur);
    let k = K { qtype: qtype::PROJECTION, attribute: qattribute::NONE, value: KValue::Opaque(payload) };
    proof {
        assert(ser(k, e) =~= bytes@.subrange(cursor - 1, cur as int));
    }
    Ok((k, cur))
}

/// Decode a composition or foreign object.  The counted form
/// (`i32` count then that many values) is attempted first; when it does not
/// parse, a fixed number of values is read.  Either way the consumed span
/// is preserved verbatim.
#[verifier::loop_isolation(false)]
pub fn deserialize_counted_or_fixed_arity_opaque(
    bytes: &[u8],
    cursor: usize,
    e: u8,
    depth: usize,
    max_list_size: usize,
    max_recursion_depth: usize,
    outer_qtype: i8,
    fallback_arity: usize,
) -> (r: Result<(K, usize), Error>)
    requires
        1 <= cursor <= bytes@.len(),
        outer_qtype == qtype::COMPOSITION || outer_qtype == qtype::FOREIGN,
        bytes@[cursor - 1] == outer_qtype as u8,
        max_recursion_depth < usize::MAX,
    ensures
        r matches Err(er) ==> crate::error::is_deserialization_error(er),
        r matches Ok((k, next)) ==> decoded(bytes@, cursor - 1, e, max_list_size as int, k, next as int)
            && kheight(k) + depth <= max_recursion_depth + 2 && depth <= max_recursion_depth,
        depth > max_recursion_depth ==> (r matches Err(er) && er == (Error::MaxDepthExceeded {
            depth,
            max: max_recursion_depth,
        })),
        ({
            let cnt = uint_value(bytes@.subrange(cursor as int, cursor + 4), e);
            &&& depth <= max_recursion_depth
            &&& cursor + 4 <= bytes@.len()
            &&& cnt < 0x80000000
            &&& cnt <= max_list_size
            &&& dec_items(
                bytes@,
                cursor + 4,
                e,
                max_list_size as int,
                max_recursion_depth - depth,
                cnt as int,
            ) is Some
        }) ==> ({
            let cnt = uint_value(bytes@.subrange(cursor as int, cursor + 4), e);
            r matches Ok((k, next)) && next == dec_items(
                bytes@,
                cursor + 4,
                e,
                max_list_size as int,
                max_recursion_depth - depth,
                cnt as int,
            ).unwrap()
        }),
    decreases bytes@.len() - cursor, 1int,
{
    if depth > max_recursion_depth {
        return Err(Error::MaxDepthExceeded { depth, max: max_recursion_depth });
    }
    let ghost cnt = uint_value(bytes@.subrange(cursor as int, cursor + 4), e);
    let ghost cf_hyp = cursor + 4 <= bytes@.len() && cnt < 0x80000000 && cnt <= max_list_size
        && dec_items(
        bytes@,
        cursor + 4,
        e,
        max_list_size as int,
        max_recursion_depth - depth,
        cnt as int,
    ) is Some;
    // counted form first
    if bytes.len() - cursor >= 4 {
        proof {
            lemma_pow256_8();
        }
        let n_u64 = read_uint(bytes, cursor, 4, e);
        let n = #[verifier::truncate] (n_u64 as u32) as i32;
        proof {
            if cf_hyp {
                assert(n >= 0 && n as usize == n_u64) by (bit_vector)
                    requires
                        n == (n_u64 as u32) as i32,
                        n_u64 < 0x80000000u64,
                ;
            }
        }
        if n >= 0 && (n as usize) <= max_list_size {
            match try_children(
                bytes,
                cursor + 4,
                e,
                depth,
                max_list_size,
                max_recursion_depth,
                n as usize,
            ) {
                Some(next) => {
                    let payload = bytes_range_to_vec(bytes, cursor, next);
                    let k = K {
                        qtype: outer_qtype,
                        attribute: qattribute::NONE,
                        value: KValue::Opaque(payload),
                    };
                    proof {
                        assert(ser(k, e) =~= bytes@.subrange(cursor - 1, next as int));
                    }
                    return Ok((k, next));
                },
                None => {
                    proof {
                        if cf_hyp {
                            assert(false);
                        }
                    }
                },
            }
        }
    }
    proof {
        if cf_hyp {
            assert(false);
        }
    }
    // fall back to a fixed number of values
    let mut cur: usize = cursor;
    let mut i: usize = 0;
    while i < fallback_arity
        invariant
            i <= fallback_arity,
            cursor <= cur <= bytes@.len(),
        decreases fallback_arity - i,
    {
        match deserialize_bytes_sync(bytes, cur, e, depth + 1, max_list_size, max_recursion_depth) {
            Ok((_child, next)) => {
                cur = next;
            },
            Err(er) => {
                return Err(er);
            },
        }
        i = i + 1;
    }
    let payload = bytes_range_to_vec(bytes, cursor, cur);
    let k = K { qtype: outer_qtype, attribute: qattribute::NONE, value: KValue::Opaque(payload) };
    proof {
        assert(ser(k, e) =~= bytes@.subrange(cursor - 1, cur as int));
    }
    Ok((k, cur))
}

/// Decode a derived function carrying exactly one inner value
/// (each, each-prior, each-left, over); the consumed span is preserved
/// verbatim.
#[verifier::loop_isolation(false)]
pub fn deserialize_single_inner_opaque(
    bytes: &[u8],
    cursor: usize,
    e: u8,
    depth: usize,
    max_list_size: usize,
    max_recursion_depth: usize,
    outer_qtype: i8,
) -> (r: Result<(K, usize), Error>)
    requires
        1 <= cursor <= bytes@.len(),
        outer_qtype == qtype::EACH || outer_qtype == qtype::EACH_PRIOR || outer_qtype
            == qtype::EACH_LEFT || outer_qtype == qtype::OVER,
        bytes@[cursor - 1] == outer_qtype as u8,
        max_recursion_depth < usize::MAX,
    ensures
        r matches Err(er) ==> crate::error::is_deserialization_error(er),
        r matches Ok((k, next)) ==> decoded(bytes@, cursor - 1, e, max_list_size as int, k, next as int)
            && kheight(k) + depth <= max_recursion_depth + 2 && depth <= max_recursion_depth,
        depth > max_recursion_depth ==> (r matches Err(er) && er == (Error::MaxDepthExceeded {
            depth,
            max: max_recursion_depth,
        })),
        (depth <= max_recursion_depth && dec_len(
            bytes@,
            cursor as int,
            e,
            max_list_size as int,
            max_recursion_depth - depth,
        ) is Some) ==> (r matches Ok((k, next)) && next == cursor + dec_len(
            bytes@,
            cursor as int,
            e,
            max_list_size as int,
            max_recursion_depth - depth,
        ).unwrap()),
    decreases bytes@.len() - cursor, 1int,
{
    if depth > max_recursion_depth {
        return Err(Error::MaxDepthExceeded { depth, max: max_recursion_depth });
    }
    let (_inner, next) = match deserialize_bytes_sync(
        bytes,
        cursor,
        e,
        depth + 1,
        max_list_size,
        max_recursion_depth,
    ) {
        Ok(t) => t,
        Err(er) => {
            return Err(er);
        },
    };
    let payload = bytes_range_to_vec(bytes, cursor, next);
    let k = K { qtype: outer_qtype, attribute: qattribute::NONE, value: KValue::Opaque(payload) };
    proof {
        assert(ser(k, e) =~= bytes@.subrange(cursor - 1, next as int));
    }
    Ok((k, next))
}

/// Decode a derived function carrying a one-byte marker and one inner value
/// (scan, each-right); the consumed span is preserved verbatim.
#[verifier::loop_isolation(false)]
pub fn deserialize_marker_inner_opaque(
    bytes: &[u8],
    cursor: usize,
    e: u8,
    depth: usize,
    max_list_size: usize,
    max_recursion_depth: usize,
    outer_qtype: i8,
) -> (r: Result<(K, usize), Error>)
    requires
        1 <= cursor <= bytes@.len(),
        outer_qtype == qtype::SCAN || outer_qtype == qtype::EACH_RIGHT,
        bytes@[cursor - 1] == outer_qtype as u8,
        max_recursion_depth < usize::MAX,
    ensures
        r matches Err(er) ==> crate::error::is_deserialization_error(er),
        r matches Ok((k, next)) ==> decoded(bytes@, cursor - 1, e, max_list_size as int, k, next as int)
            && kheight(k) + depth <= max_recursion_depth + 2 && depth <= max_recursion_depth,
        depth > max_recursion_depth ==> (r matches Err(er) && er == (Error::MaxDepthExceeded {
            depth,
            max: max_recursion_depth,
        })),
        (depth <= max_recursion_depth && cursor < bytes@.len() && dec_len(
            bytes@,
            cursor + 1,
            e,
            max_list_size as int,
            max_recursion_depth - depth,
        ) is Some) ==> (r matches Ok((k, next)) && next == cursor + 1 + dec_len(
            bytes@,
            cursor + 1,
            e,
            max_list_size as int,
            max_recursion_depth - depth,
        ).unwrap()),
    decreases bytes@.len() - cursor, 1int,
{
    if depth > max_recursion_depth {
        return Err(Error::MaxDepthExceeded { depth, max: max_recursion_depth });
    }
    if bytes.len() - cursor < 1 {
        return Err(Error::InsufficientData { needed: 1, available: 0 });
    }
    let (_inner, next) = match deserialize_bytes_sync(
        bytes,
        cursor + 1,
        e,
        depth + 1,
        max_list_size,
        max_recursion_depth,
    ) {
        Ok(t) => t,
        Err(er) => {
            return Err(er);
        },
    };
    let payload = bytes_range_to_vec(bytes, cursor, next);
    let k = K { qtype: outer_qtype, attribute: qattribute::NONE, value: KValue::Opaque(payload) };
    proof {
        assert(ser(k, e) =~= bytes@.subrange(cursor - 1, next as int));
    }
    Ok((k, next))
}

/// Decode one K value at `cursor`: dispatch on the type code.
#[verifier::loop_isolation(false)]
#[verifier::rlimit(100)]
pub(crate) fn deserialize_bytes_sync(
    bytes: &[u8],
    cursor: usize,
    e: u8,
    depth: usize,
    max_list_size: usize,
    max_recursion_depth: usize,
) -> (r: Result<(K, usize), Error>)
    requires
        cursor <= bytes@.len(),
        max_recursion_depth < usize::MAX,
    ensures
        r matches Err(er) ==> crate::error::is_deserialization_error(er),
        r matches Ok((k, next)) ==> decoded(bytes@, cursor as int, e, max_list_size as int, k, next as int)
            && kheight(k) + depth <= max_recursion_depth + 2 && depth <= max_recursion_depth,
        depth > max_recursion_depth ==> (r matches Err(er) && er == (Error::MaxDepthExceeded {
            depth,
            max: max_recursion_depth,
        })),
        (depth <= max_recursion_depth && cursor >= bytes@.len()) ==> (r matches Err(er) && er
            == (Error::InsufficientData { needed: 1, available: 0 })),
        (depth <= max_recursion_depth && cursor < bytes@.len() && !is_recognized_qtype(
            bytes@[cursor as int] as i8,
        )) ==> (r matches Err(er) && er == Error::InvalidType(bytes@[cursor as int] as i8)),
        (depth <= max_recursion_depth && cursor < bytes@.len() && (fixed_atom_width(
            bytes@[cursor as int] as i8,
        ) matches Some(w) && cursor + 1 + w <= bytes@.len())) ==> r is Ok,
        (depth <= max_recursion_depth && cursor < bytes@.len() && flat_list_decodable(
            bytes@,
            cursor as int,
            e,
            max_list_size as int,
        )) ==> r is Ok,
        dec_len(bytes@, cursor as int, e, max_list_size as int, max_recursion_depth + 1 - depth)
            matches Some(n) ==> (r matches Ok((k, next)) && next == cursor + n),
        (depth <= max_recursion_depth && depth + compound_chain(
            bytes@,
            cursor as int,
            e,
            max_list_size as int,
        ) > max_recursion_depth) ==> (r matches Err(er) && er is MaxDepthExceeded),
    decreases bytes@.len() - cursor, 0int,
{
    if depth > max_recursion_depth {
        return Err(Error::MaxDepthExceeded { depth, max: max_recursion_depth });
    }
    if cursor >= bytes.len() {
        return Err(Error::InsufficientData { needed: 1, available: 0 });
    }
    let qt = #[verifier::truncate] (bytes[cursor] as i8);
    proof {
        let b0 = bytes@[cursor as int];
        assert(qt as u8 == b0) by (bit_vector)
            requires
                qt == b0 as i8,
        ;
    }
    let cur = cursor + 1;
    let r = if qt == qtype::BOOL_ATOM {
        deserialize_bool(bytes, cur, e)
    } else if qt == qtype::GUID_ATOM {
        deserialize_guid(bytes, cur, e)
    } else if qt == qtype::BYTE_ATOM {
        deserialize_byte(bytes, cur, e)
    } else if qt == qtype::SHORT_ATOM {
        deserialize_int_atom(bytes, cur, e, qt, 2)
    } else if qt == qtype::INT_ATOM || qt == qtype::MONTH_ATOM || qt == qtype::DATE_ATOM || qt
        == qtype::MINUTE_ATOM || qt == qtype::SECOND_ATOM || qt == qtype::TIME_ATOM {
        deserialize_int_atom(bytes, cur, e, qt, 4)
    } else if qt == qtype::LONG_ATOM || qt == qtype::TIMESTAMP_ATOM || qt == qtype::TIMESPAN_ATOM {
        deserialize_int_atom(bytes, cur, e, qt, 8)
    } else if qt == qtype::REAL_ATOM {
        deserialize_float_atom(bytes, cur, e, qt, 4)
    } else if qt == qtype::FLOAT_ATOM || qt == qtype::DATETIME_ATOM {
        deserialize_float_atom(bytes, cur, e, qt, 8)
    } else if qt == qtype::CHAR {
        deserialize_char(bytes, cur, e)
    } else if qt == qtype::SYMBOL_ATOM {
        deserialize_symbol(bytes, cur, e)
    } else if qt == qtype::ENUM_ATOM {
        deserialize_enum_atom(bytes, cur, e)
    } else if qt == qtype::COMPOUND_LIST {
        deserialize_compound_list_sync(bytes, cur, e, depth, max_list_size, max_recursion_depth)
    } else if qt == qtype::BOOL_LIST || qt == qtype::BYTE_LIST {
        let rr = deserialize_raw_list(bytes, cur, e, max_list_size, qt);
        proof {
            if flat_list_decodable(bytes@, cursor as int, e, max_list_size as int) {
                let size = uint_value(bytes@.subrange(cursor + 2, cursor + 6), e);
                assert(fixed_list_width(bytes@[cursor as int] as i8) == Some(1int));
                assert(size * 1 == size) by (nonlinear_arith);
                assert(rr is Ok);
            }
        }
        rr
    } else if qt == qtype::GUID_LIST {
        let rr = deserialize_guid_list_sync(bytes, cur, e, max_list_size);
        proof {
            assert(flat_list_decodable(bytes@, cursor as int, e, max_list_size as int) ==> rr
                is Ok);
        }
        rr
    } else if qt == qtype::SHORT_LIST {
        let rr = deserialize_short_list(bytes, cur, e, max_list_size);
        proof {
            assert(flat_list_decodable(bytes@, cursor as int, e, max_list_size as int) ==> rr
                is Ok);
        }
        rr
    } else if qt == qtype::INT_LIST || qt == qtype::MONTH_LIST || qt == qtype::DATE_LIST || qt
        == qtype::MINUTE_LIST || qt == qtype::SECOND_LIST || qt == qtype::TIME_LIST {
        let rr = deserialize_int_list(bytes, cur, e, max_list_size, qt);
        proof {
            assert(flat_list_decodable(bytes@, cursor as int, e, max_list_size as int) ==> rr
                is Ok);
        }
        rr
    } else if qt == qtype::LONG_LIST || qt == qtype::TIMESTAMP_LIST || qt == qtype::TIMESPAN_LIST {
        let rr = deserialize_long_list(bytes, cur, e, max_list_size, qt);
        proof {
            assert(flat_list_decodable(bytes@, cursor as int, e, max_list_size as int) ==> rr
                is Ok);
        }
        rr
    } else if qt == qtype::REAL_LIST {
        let rr = deserialize_real_list(bytes, cur, e, max_list_size);
        proof {
            assert(flat_list_decodable(bytes@, cursor as int, e, max_list_size as int) ==> rr
                is Ok);
        }
        rr
    } else if qt == qtype::FLOAT_LIST || qt == qtype::DATETIME_LIST {
        let rr = deserialize_float_list(bytes, cur, e, max_list_size, qt);
        proof {
            assert(flat_list_decodable(bytes@, cursor as int, e, max_list_size as int) ==> rr
                is Ok);
        }
        rr
    } else if qt == qtype::STRING {
        deserialize_string(bytes, cur, e, max_list_size)
    } else if qt == qtype::SYMBOL_LIST {
        deserialize_symbol_list_sync(bytes, cur, e, max_list_size)
    } else if qt == qtype::ENUM_LIST {
        deserialize_enum_list(bytes, cur, e, max_list_size)
    } else if qt == qtype::TABLE {
        deserialize_table_sync(bytes, cur, e, depth, max_list_size, max_recursion_depth)
    } else if qt == qtype::DICTIONARY || qt == qtype::SORTED_DICTIONARY {
        deserialize_dictionary_sync(bytes, cur, e, depth, max_list_size, max_recursion_depth)
    } else if qt == qtype::LAMBDA {
        deserialize_lambda_sync(bytes, cur, e, depth, max_list_size, max_recursion_depth)
    } else if qt == qtype::UNARY_PRIMITIVE {
        deserialize_null(bytes, cur, e)
    } else if qt == qtype::BINARY_PRIMITIVE {
        deserialize_fixed_payload_opaque(bytes, cur, e, qt, 1)
    } else if qt == qtype::PROJECTION {
        deserialize_projection_opaque(bytes, cur, e, depth, max_list_size, max_recursion_depth)
    } else if qt == qtype::COMPOSITION {
        deserialize_counted_or_fixed_arity_opaque(
            bytes,
            cur,
            e,
            depth,
            max_list_size,
            max_recursion_depth,
            qt,
            2,
        )
    } else if qt == qtype::EACH || qt == qtype::EACH_PRIOR || qt == qtype::EACH_LEFT || qt
        == qtype::OVER {
        deserialize_single_inner_opaque(bytes, cur, e, depth, max_list_size, max_recursion_depth, qt)
    } else if qt == qtype::SCAN || qt == qtype::EACH_RIGHT {
        deserialize_marker_inner_opaque(bytes, cur, e, depth, max_list_size, max_recursion_depth, qt)
    } else if qt == qtype::FOREIGN {
        deserialize_counted_or_fixed_arity_opaque(
            bytes,
            cur,
            e,
            depth,
            max_list_size,
            max_recursion_depth,
            qt,
            3,
        )
    } else if qt == qtype::ERROR {
        deserialize_error(bytes, cur, e)
    } else {
        Err(Error::InvalidType(qt))
    };
    proof {
        if r is Ok {
            let (k, next) = r->Ok_0;
            if lists_bounded(k, 0) {
                lemma_lists_bounded_mono(k, 0, max_list_size as nat);
            }
        }
        let budget = max_recursion_depth + 1 - depth;
        let dl = dec_len(bytes@, cursor as int, e, max_list_size as int, budget);
        if dl is Some {
            let n = dl.unwrap();
            assert(qt == bytes@[cursor as int] as i8);
            if qt == qtype::SYMBOL_ATOM || qt == qtype::ERROR || qt == qtype::ENUM_ATOM {
                lemma_nul_from(bytes@, cur as int);
                let nl = nul_from(bytes@, cur as int);
                assert(first_nul_at(bytes@, cur as int, nl));
            }
            if qt == qtype::BOOL_LIST || qt == qtype::BYTE_LIST {
                let size = uint_value(bytes@.subrange(cursor + 2, cursor + 6), e);
                assert(size * 1 == size) by (nonlinear_arith);
            }
            assert(r matches Ok((k, next)) && next == cursor + n);
        }
        let ch = compound_chain(bytes@, cursor as int, e, max_list_size as int);
        if depth <= max_recursion_depth && depth + ch > max_recursion_depth {
            assert(ch > 0);
            assert(qt == qtype::COMPOUND_LIST);
            assert(r matches Err(er) && er is MaxDepthExceeded);
        }
    }
    r
}

/// Decode one K value from the start of `bytes` (trailing bytes ignored).
pub fn q_ipc_decode_sync(
    bytes: &[u8],
    encode: u8,
    max_list_size: usize,
    max_recursion_depth: usize,
) -> (r: Result<K, Error>)
    requires
        max_recursion_depth < usize::MAX,
    ensures
        r matches Err(er) ==> crate::error::is_deserialization_error(er),
        r matches Ok(k) ==> wf(k) && lists_bounded(k, max_list_size as nat) && kheight(k)
            <= max_recursion_depth + 2 && (exists|n: int|
            0 < n <= bytes@.len() && ser(k, encode) == #[trigger] bytes@.subrange(0, n)),
        bytes@.len() == 0 ==> (r matches Err(er) && er == (Error::InsufficientData {
            needed: 1,
            available: 0,
        })),
        (bytes@.len() > 0 && !is_recognized_qtype(bytes@[0] as i8)) ==> (r matches Err(er) && er
            == Error::InvalidType(bytes@[0] as i8)),
        (bytes@.len() > 0 && (fixed_atom_width(bytes@[0] as i8) matches Some(w) && 1 + w
            <= bytes@.len())) ==> r is Ok,
        dec_len(bytes@, 0, encode, max_list_size as int, max_recursion_depth + 1)
            is Some ==> r is Ok,
        compound_chain(bytes@, 0, encode, max_list_size as int) > max_recursion_depth ==> (
        r matches Err(er) && er is MaxDepthExceeded),
{
    match deserialize_bytes_sync(bytes, 0, encode, 0, max_list_size, max_recursion_depth) {
        Ok((k, next)) => {
            proof {
                assert(ser(k, encode) == bytes@.subrange(0, next as int));
            }
            Ok(k)
        },
        Err(er) => Err(er),
    }
}

/// The serialized payload of a symbol atom — the bytes between the type
/// code and the terminating 0x00 — is valid UTF-8.  Together with the
/// decoder's contract (a decoded value's serialization is byte-exactly the
/// consumed span), this says that a symbol span whose bytes are not valid
/// UTF-8 can never decode to a K value: the decoder answers
/// `Err(InvalidUtf8)` instead.
pub proof fn lemma_symbol_payload_valid_utf8(k: K, e: u8)
    requires
        k.qtype == crate::qtype::SYMBOL_ATOM,
        k.value is Symbol,
    ensures
        ser(k, e) == seq![k.qtype as u8] + encode_utf8(k.value->Symbol_0@) + seq![0u8],
        valid_utf8(encode_utf8(k.value->Symbol_0@)),
{
    vstd::utf8::encode_utf8_valid_utf8(k.value->Symbol_0@);
    assert(ser(k, e) =~= seq![k.qtype as u8] + encode_utf8(k.value->Symbol_0@) + seq![0u8]);
}

impl K {
    /// Decode a K value in the manner of q's `-9!`, with the default list
    /// and recursion budgets.
    pub fn q_ipc_decode(bytes: &[u8], encode: u8) -> (r: Result<K, Error>)
        ensures
        r matches Err(er) ==> crate::error::is_deserialization_error(er),
            r matches Ok(k) ==> wf(k) && lists_bounded(k, MAX_LIST_SIZE as nat) && kheight(k)
                <= MAX_RECURSION_DEPTH + 2 && (exists|n: int|
                0 < n <= bytes@.len() && ser(k, encode) == #[trigger] bytes@.subrange(0, n)),
            bytes@.len() == 0 ==> (r matches Err(er) && er == (Error::InsufficientData {
                needed: 1,
                available: 0,
            })),
            (bytes@.len() > 0 && !is_recognized_qtype(bytes@[0] as i8)) ==> (r matches Err(er)
                && er == Error::InvalidType(bytes@[0] as i8)),
            (bytes@.len() > 0 && (fixed_atom_width(bytes@[0] as i8) matches Some(w) && 1 + w
                <= bytes@.len())) ==> r is Ok,
            dec_len(bytes@, 0, encode, MAX_LIST_SIZE as int, MAX_RECURSION_DEPTH + 1)
                is Some ==> r is Ok,
            compound_chain(bytes@, 0, encode, MAX_LIST_SIZE as int) > MAX_RECURSION_DEPTH ==> (
            r matches Err(er) && er is MaxDepthExceeded),
    {
        q_ipc_decode_sync(bytes, encode, MAX_LIST_SIZE, MAX_RECURSION_DEPTH)
    }
}

} // verus!
