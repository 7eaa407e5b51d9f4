//! Serialization of K values: the q `-8!` byte representation.
//!
//! [`ser`] is the specification of the byte format, written over the byte
//! order selected by the frame's encoding byte; [`serialize_q`] and
//! [`K::q_ipc_encode`] are proved to emit exactly `ser`.  The deserializer's
//! contract refers to the same function, which makes the two byte-exact
//! inverses of each other on every frame this crate accepts.

use vstd::prelude::*;
use vstd::utf8::encode_utf8;
use crate::endian::{uint_bytes, write_uint, lemma_pow256_8, pow256};
use crate::qtype;
use crate::types::{K, KValue, wf};

verus! {

broadcast use vstd::std_specs::vec::axiom_vec_index_decreases;

/// Byte order of the frames this crate emits: little-endian, the native
/// order of the supported targets.
pub const ENCODING: u8 = 1;

/// Short elements as their 2-byte unsigned images.
pub open spec fn u64s_of_i16(v: Seq<i16>) -> Seq<u64> {
    v.map_values(|x: i16| (x as u16) as u64)
}

/// Int elements as their 4-byte unsigned images.
pub open spec fn u64s_of_i32(v: Seq<i32>) -> Seq<u64> {
    v.map_values(|x: i32| (x as u32) as u64)
}

/// Long elements as their 8-byte unsigned images.
pub open spec fn u64s_of_i64(v: Seq<i64>) -> Seq<u64> {
    v.map_values(|x: i64| x as u64)
}

/// Real elements (IEEE-754 bits) widened to u64.
pub open spec fn u64s_of_u32(v: Seq<u32>) -> Seq<u64> {
    v.map_values(|x: u32| x as u64)
}

/// The tail of a fixed-width integer list payload, from element `i` on:
/// each element as `w` bytes in the byte order selected by `e`.
pub open spec fn ser_uints_from(v: Seq<u64>, w: nat, i: int, e: u8) -> Seq<u8>
    decreases v.len() - i,
{
    if i < 0 || i >= v.len() {
        Seq::empty()
    } else {
        uint_bytes(v[i] as nat, w, e) + ser_uints_from(v, w, i + 1, e)
    }
}

/// The tail of a GUID list payload: 16 raw bytes per element.
pub open spec fn ser_guids_from(v: Seq<[u8; 16]>, i: int) -> Seq<u8>
    decreases v.len() - i,
{
    if i < 0 || i >= v.len() {
        Seq::empty()
    } else {
        v[i]@ + ser_guids_from(v, i + 1)
    }
}

/// One symbol on the wire: its UTF-8 bytes and a terminating 0x00.
pub open spec fn ser_sym(s: Seq<char>) -> Seq<u8> {
    encode_utf8(s) + seq![0u8]
}

/// The tail of a symbol list payload.
pub open spec fn ser_syms_from(v: Seq<String>, i: int) -> Seq<u8>
    decreases v.len() - i,
{
    if i < 0 || i >= v.len() {
        Seq::empty()
    } else {
        ser_sym(v[i]@) + ser_syms_from(v, i + 1)
    }
}

/// The q `-8!` byte representation of a K value, in the byte order selected
/// by `e` (0: big-endian, otherwise little-endian).
pub open spec fn ser(k: K, e: u8) -> Seq<u8>
    decreases k, 1nat, 0nat,
{
    match k.value {
        KValue::Byte(b) => seq![k.qtype as u8, b],
        KValue::Guid(g) => seq![k.qtype as u8] + g@,
        KValue::Short(x) => seq![k.qtype as u8] + uint_bytes((x as u16) as nat, 2, e),
        KValue::Int(x) => seq![k.qtype as u8] + uint_bytes((x as u32) as nat, 4, e),
        KValue::Long(x) => seq![k.qtype as u8] + uint_bytes((x as u64) as nat, 8, e),
        KValue::Real(b) => seq![k.qtype as u8] + uint_bytes(b as nat, 4, e),
        KValue::Float(b) => seq![k.qtype as u8] + uint_bytes(b as nat, 8, e),
        KValue::Symbol(s) => if k.qtype == qtype::STRING {
            seq![k.qtype as u8, k.attribute as u8] + uint_bytes(encode_utf8(s@).len(), 4, e)
                + encode_utf8(s@)
        } else {
            seq![k.qtype as u8] + ser_sym(s@)
        },
        KValue::Enum(d, x) => seq![k.qtype as u8] + ser_sym(d@) + uint_bytes(
            (x as u32) as nat,
            4,
            e,
        ),
        KValue::ByteList(v) => seq![k.qtype as u8, k.attribute as u8] + uint_bytes(v@.len(), 4, e)
            + v@,
        KValue::GuidList(v) => seq![k.qtype as u8, k.attribute as u8] + uint_bytes(v@.len(), 4, e)
            + ser_guids_from(v@, 0),
        KValue::ShortList(v) => seq![k.qtype as u8, k.attribute as u8] + uint_bytes(
            v@.len(),
            4,
            e,
        ) + ser_uints_from(u64s_of_i16(v@), 2, 0, e),
        KValue::IntList(v) => seq![k.qtype as u8, k.attribute as u8] + uint_bytes(v@.len(), 4, e)
            + ser_uints_from(u64s_of_i32(v@), 4, 0, e),
        KValue::LongList(v) => seq![k.qtype as u8, k.attribute as u8] + uint_bytes(v@.len(), 4, e)
            + ser_uints_from(u64s_of_i64(v@), 8, 0, e),
        KValue::RealList(v) => seq![k.qtype as u8, k.attribute as u8] + uint_bytes(v@.len(), 4, e)
            + ser_uints_from(u64s_of_u32(v@), 4, 0, e),
        KValue::FloatList(v) => seq![k.qtype as u8, k.attribute as u8] + uint_bytes(v@.len(), 4, e)
            + ser_uints_from(v@, 8, 0, e),
        KValue::SymbolList(v) => seq![k.qtype as u8, k.attribute as u8] + uint_bytes(
            v@.len(),
            4,
            e,
        ) + ser_syms_from(v@, 0),
        KValue::EnumList(d, v) => seq![k.qtype as u8, k.attribute as u8] + uint_bytes(
            v@.len(),
            4,
            e,
        ) + ser_sym(d@) + ser_uints_from(u64s_of_i32(v@), 4, 0, e),
        KValue::CompoundList(v) => if k.qtype == qtype::COMPOUND_LIST {
            seq![k.qtype as u8, k.attribute as u8] + uint_bytes(v@.len(), 4, e) + ser_items_from(
                k,
                0,
                e,
            )
        } else if v@.len() == 2 {
            // dictionary or sorted dictionary: keys then values
            seq![k.qtype as u8] + ser(v@[0], e) + ser(v@[1], e)
        } else {
            // not well-formed; no such value is ever serialized
            seq![k.qtype as u8]
        },
        KValue::Table(d) => seq![k.qtype as u8, k.attribute as u8] + ser(*d, e),
        KValue::Lambda(c, b) => seq![k.qtype as u8] + ser_sym(c@) + seq![
            qtype::STRING as u8,
            0u8,
        ] + uint_bytes(encode_utf8(b@).len(), 4, e) + encode_utf8(b@),
        KValue::Opaque(p) => seq![k.qtype as u8] + p@,
        KValue::Null => seq![k.qtype as u8, 0u8],
    }
}

/// The serializations of the children of a compound list, from child `i` on.
pub open spec fn ser_items_from(parent: K, i: int, e: u8) -> Seq<u8>
    decreases parent, 0nat, parent.children().len() - i,
{
    if i < 0 || i >= parent.children().len() {
        Seq::empty()
    } else {
        ser(parent.children()[i], e) + ser_items_from(parent, i + 1, e)
    }
}

/// The serializations of a sequence of K values, from element `i` on.
/// Equal to [`ser_items_from`] on a compound list's children
/// ([`lemma_ser_items_eq_ser_seq`]), but usable without the parent value.
pub open spec fn ser_seq_from(s: Seq<K>, i: int, e: u8) -> Seq<u8>
    decreases s.len() - i,
{
    if i < 0 || i >= s.len() {
        Seq::empty()
    } else {
        ser(s[i], e) + ser_seq_from(s, i + 1, e)
    }
}

pub proof fn lemma_ser_items_eq_ser_seq(parent: K, i: int, e: u8)
    ensures
        ser_items_from(parent, i, e) == ser_seq_from(parent.children(), i, e),
    decreases parent.children().len() - i,
{
    if 0 <= i < parent.children().len() {
        lemma_ser_items_eq_ser_seq(parent, i + 1, e);
    }
}

/// Appending one element extends a fixed-width list payload at the end.
pub proof fn lemma_ser_uints_push(v: Seq<u64>, w: nat, x: u64, i: int, e: u8)
    requires
        0 <= i <= v.len(),
    ensures
        ser_uints_from(v.push(x), w, i, e) == ser_uints_from(v, w, i, e) + uint_bytes(
            x as nat,
            w,
            e,
        ),
    decreases v.len() - i,
{
    let vp = v.push(x);
    if i < v.len() {
        lemma_ser_uints_push(v, w, x, i + 1, e);
        assert(vp[i] == v[i]);
        assert(ser_uints_from(vp, w, i, e) == uint_bytes(vp[i] as nat, w, e) + ser_uints_from(
            vp,
            w,
            i + 1,
            e,
        ));
        assert((uint_bytes(v[i] as nat, w, e) + ser_uints_from(v, w, i + 1, e)) + uint_bytes(
            x as nat,
            w,
            e,
        ) =~= uint_bytes(v[i] as nat, w, e) + (ser_uints_from(v, w, i + 1, e) + uint_bytes(
            x as nat,
            w,
            e,
        )));
    } else {
        assert(vp[i] == x);
        assert(ser_uints_from(vp, w, i + 1, e) =~= Seq::<u8>::empty());
        assert(ser_uints_from(vp, w, i, e) =~= uint_bytes(x as nat, w, e));
        assert(ser_uints_from(v, w, i, e) + uint_bytes(x as nat, w, e) =~= uint_bytes(
            x as nat,
            w,
            e,
        ));
    }
}

/// Appending one GUID extends a GUID list payload at the end.
pub proof fn lemma_ser_guids_push(v: Seq<[u8; 16]>, x: [u8; 16], i: int)
    requires
        0 <= i <= v.len(),
    ensures
        ser_guids_from(v.push(x), i) == ser_guids_from(v, i) + x@,
    decreases v.len() - i,
{
    let vp = v.push(x);
    if i < v.len() {
        lemma_ser_guids_push(v, x, i + 1);
        assert(vp[i] == v[i]);
        assert((v[i]@ + ser_guids_from(v, i + 1)) + x@ =~= v[i]@ + (ser_guids_from(v, i + 1)
            + x@));
    } else {
        assert(vp[i] == x);
        assert(ser_guids_from(vp, i + 1) =~= Seq::<u8>::empty());
        assert(ser_guids_from(vp, i) =~= x@);
        assert(ser_guids_from(v, i) + x@ =~= x@);
    }
}

/// Appending one symbol extends a symbol list payload at the end.
pub proof fn lemma_ser_syms_push(v: Seq<String>, x: String, i: int)
    requires
        0 <= i <= v.len(),
    ensures
        ser_syms_from(v.push(x), i) == ser_syms_from(v, i) + ser_sym(x@),
    decreases v.len() - i,
{
    let vp = v.push(x);
    if i < v.len() {
        lemma_ser_syms_push(v, x, i + 1);
        assert(vp[i] == v[i]);
        assert((ser_sym(v[i]@) + ser_syms_from(v, i + 1)) + ser_sym(x@) =~= ser_sym(v[i]@) + (
        ser_syms_from(v, i + 1) + ser_sym(x@)));
    } else {
        assert(vp[i] == x);
        assert(ser_syms_from(vp, i + 1) =~= Seq::<u8>::empty());
        assert(ser_syms_from(vp, i) =~= ser_sym(x@));
        assert(ser_syms_from(v, i) + ser_sym(x@) =~= ser_sym(x@));
    }
}

/// Appending one value extends a compound list payload at the end.
pub proof fn lemma_ser_seq_push(s: Seq<K>, x: K, i: int, e: u8)
    requires
        0 <= i <= s.len(),
    ensures
        ser_seq_from(s.push(x), i, e) == ser_seq_from(s, i, e) + ser(x, e),
    decreases s.len() - i,
{
    let sp = s.push(x);
    if i < s.len() {
        lemma_ser_seq_push(s, x, i + 1, e);
        assert(sp[i] == s[i]);
        assert((ser(s[i], e) + ser_seq_from(s, i + 1, e)) + ser(x, e) =~= ser(s[i], e) + (
        ser_seq_from(s, i + 1, e) + ser(x, e)));
    } else {
        assert(sp[i] == x);
        assert(ser_seq_from(sp, i + 1, e) =~= Seq::<u8>::empty());
        assert(ser_seq_from(sp, i, e) =~= ser(x, e));
        assert(ser_seq_from(s, i, e) + ser(x, e) =~= ser(x, e));
    }
}

/// Append the two-byte list prefix (type code and attribute) and the 4-byte
/// element count.
fn write_list_header(stream: &mut Vec<u8>, qt: i8, attr: i8, len: usize)
    requires
        len <= u32::MAX,
    ensures
        final(stream)@ == old(stream)@ + seq![qt as u8, attr as u8] + uint_bytes(
            len as nat,
            4,
            ENCODING,
        ),
{
    let ghost base = stream@;
    stream.push(#[verifier::truncate] (qt as u8));
    stream.push(#[verifier::truncate] (attr as u8));
    proof {
        lemma_pow256_8();
    }
    write_uint(stream, len as u64, 4, ENCODING);
    proof {
        assert(stream@ =~= base + seq![qt as u8, attr as u8] + uint_bytes(
            len as nat,
            4,
            ENCODING,
        ));
    }
}

/// Append a symbol: UTF-8 bytes and the terminating 0x00.
fn write_sym(stream: &mut Vec<u8>, s: &str)
    ensures
        final(stream)@ == old(stream)@ + ser_sym(s@),
{
    let ghost base = stream@;
    push_bytes(stream, s.as_bytes());
    stream.push(0);
    proof {
        assert(stream@ =~= base + ser_sym(s@));
    }
}

/// Serialize one K value onto `stream`, exactly as [`ser`] describes.
#[verifier::loop_isolation(false)]
#[verifier::rlimit(100)]
fn serialize_q(obj: &K, stream: &mut Vec<u8>)
    requires
        wf(*obj),
    ensures
        final(stream)@ == old(stream)@ + ser(*obj, ENCODING),
    decreases *obj,
{
    let ghost base = stream@;
    match &obj.value {
        KValue::Byte(b) => {
            stream.push(#[verifier::truncate] (obj.qtype as u8));
            stream.push(*b);
            proof {
                assert(stream@ =~= base + ser(*obj, ENCODING));
            }
        },
        KValue::Guid(g) => {
            stream.push(#[verifier::truncate] (obj.qtype as u8));
            push_bytes(stream, g.as_slice());
            proof {
                assert(stream@ =~= base + ser(*obj, ENCODING));
            }
        },
        KValue::Short(x) => {
            stream.push(#[verifier::truncate] (obj.qtype as u8));
            proof {
                lemma_pow256_8();
            }
            write_uint(stream, (*x as u16) as u64, 2, ENCODING);
            proof {
                assert(stream@ =~= base + ser(*obj, ENCODING));
            }
        },
        KValue::Int(x) => {
            stream.push(#[verifier::truncate] (obj.qtype as u8));
            proof {
                lemma_pow256_8();
            }
            write_uint(stream, (*x as u32) as u64, 4, ENCODING);
            proof {
                assert(stream@ =~= base + ser(*obj, ENCODING));
            }
        },
        KValue::Long(x) => {
            stream.push(#[verifier::truncate] (obj.qtype as u8));
            proof {
                lemma_pow256_8();
            }
            write_uint(stream, *x as u64, 8, ENCODING);
            proof {
                assert(stream@ =~= base + ser(*obj, ENCODING));
            }
        },
        KValue::Real(b) => {
            stream.push(#[verifier::truncate] (obj.qtype as u8));
            proof {
                lemma_pow256_8();
            }
            write_uint(stream, *b as u64, 4, ENCODING);
            proof {
                assert(stream@ =~= base + ser(*obj, ENCODING));
            }
        },
        KValue::Float(b) => {
            stream.push(#[verifier::truncate] (obj.qtype as u8));
            proof {
                lemma_pow256_8();
            }
            write_uint(stream, *b, 8, ENCODING);
            proof {
                assert(stream@ =~= base + ser(*obj, ENCODING));
            }
        },
        KValue::Symbol(s) => {
            if obj.qtype == qtype::STRING {
                let bytes = s.as_str().as_bytes();
                write_list_header(stream, obj.qtype, obj.attribute, bytes.len());
                push_bytes(stream, bytes);
                proof {
                    assert(stream@ =~= base + ser(*obj, ENCODING));
                }
            } else {
                stream.push(#[verifier::truncate] (obj.qtype as u8));
                write_sym(stream, s.as_str());
                proof {
                    assert(stream@ =~= base + ser(*obj, ENCODING));
                }
            }
        },
        KValue::Enum(d, x) => {
            stream.push(#[verifier::truncate] (obj.qtype as u8));
            write_sym(stream, d.as_str());
            proof {
                lemma_pow256_8();
            }
            write_uint(stream, (*x as u32) as u64, 4, ENCODING);
            proof {
                assert(stream@ =~= base + ser(*obj, ENCODING));
            }
        },
        KValue::ByteList(v) => {
            write_list_header(stream, obj.qtype, obj.attribute, v.len());
            push_bytes(stream, v.as_slice());
            proof {
                assert(stream@ =~= base + ser(*obj, ENCODING));
            }
        },
        KValue::GuidList(v) => {
            write_list_header(stream, obj.qtype, obj.attribute, v.len());
            let mut i: usize = 0;
            while i < v.len()
                invariant
                    i <= v@.len(),
                    stream@ + ser_guids_from(v@, i as int) =~= base + ser(*obj, ENCODING),
                decreases v@.len() - i,
            {
                push_bytes(stream, v[i].as_slice());
                i = i + 1;
            }
        },
        KValue::ShortList(v) => {
            write_list_header(stream, obj.qtype, obj.attribute, v.len());
            proof {
                lemma_pow256_8();
            }
            let mut i: usize = 0;
            while i < v.len()
                invariant
                    i <= v@.len(),
                    stream@ + ser_uints_from(u64s_of_i16(v@), 2, i as int, ENCODING) =~= base
                        + ser(*obj, ENCODING),
                decreases v@.len() - i,
            {
                proof {
                    assert(u64s_of_i16(v@)[i as int] == (v@[i as int] as u16) as u64);
                }
                write_uint(stream, (v[i] as u16) as u64, 2, ENCODING);
                i = i + 1;
            }
        },
        KValue::IntList(v) => {
            write_list_header(stream, obj.qtype, obj.attribute, v.len());
            proof {
                lemma_pow256_8();
            }
            let mut i: usize = 0;
            while i < v.len()
                invariant
                    i <= v@.len(),
                    stream@ + ser_uints_from(u64s_of_i32(v@), 4, i as int, ENCODING) =~= base
                        + ser(*obj, ENCODING),
                decreases v@.len() - i,
            {
                proof {
                    assert(u64s_of_i32(v@)[i as int] == (v@[i as int] as u32) as u64);
                }
                write_uint(stream, (v[i] as u32) as u64, 4, ENCODING);
                i = i + 1;
            }
        },
        KValue::LongList(v) => {
            write_list_header(stream, obj.qtype, obj.attribute, v.len());
            proof {
                lemma_pow256_8();
            }
            let mut i: usize = 0;
            while i < v.len()
                invariant
                    i <= v@.len(),
                    stream@ + ser_uints_from(u64s_of_i64(v@), 8, i as int, ENCODING) =~= base
                        + ser(*obj, ENCODING),
                decreases v@.len() - i,
            {
                proof {
                    assert(u64s_of_i64(v@)[i as int] == v@[i as int] as u64);
                }
                write_uint(stream, v[i] as u64, 8, ENCODING);
                i = i + 1;
            }
        },
        KValue::RealList(v) => {
            write_list_header(stream, obj.qtype, obj.attribute, v.len());
            proof {
                lemma_pow256_8();
            }
            let mut i: usize = 0;
            while i < v.len()
                invariant
                    i <= v@.len(),
                    stream@ + ser_uints_from(u64s_of_u32(v@), 4, i as int, ENCODING) =~= base
                        + ser(*obj, ENCODING),
                decreases v@.len() - i,
            {
                proof {
                    assert(u64s_of_u32(v@)[i as int] == v@[i as int] as u64);
                }
                write_uint(stream, v[i] as u64, 4, ENCODING);
                i = i + 1;
            }
        },
        KValue::FloatList(v) => {
            write_list_header(stream, obj.qtype, obj.attribute, v.len());
            proof {
                lemma_pow256_8();
            }
            let mut i: usize = 0;
            while i < v.len()
                invariant
                    i <= v@.len(),
                    stream@ + ser_uints_from(v@, 8, i as int, ENCODING) =~= base + ser(
                        *obj,
                        ENCODING,
                    ),
                decreases v@.len() - i,
            {
                write_uint(stream, v[i], 8, ENCODING);
                i = i + 1;
            }
        },
        KValue::SymbolList(v) => {
            write_list_header(stream, obj.qtype, obj.attribute, v.len());
            let mut i: usize = 0;
            while i < v.len()
                invariant
                    i <= v@.len(),
                    stream@ + ser_syms_from(v@, i as int) =~= base + ser(*obj, ENCODING),
                decreases v@.len() - i,
            {
                write_sym(stream, v[i].as_str());
                i = i + 1;
            }
        },
        KValue::EnumList(d, v) => {
            write_list_header(stream, obj.qtype, obj.attribute, v.len());
            write_sym(stream, d.as_str());
            proof {
                lemma_pow256_8();
            }
            let mut i: usize = 0;
            while i < v.len()
                invariant
                    i <= v@.len(),
                    stream@ + ser_uints_from(u64s_of_i32(v@), 4, i as int, ENCODING) =~= base
                        + ser(*obj, ENCODING),
                decreases v@.len() - i,
            {
                proof {
                    assert(u64s_of_i32(v@)[i as int] == (v@[i as int] as u32) as u64);
                }
                write_uint(stream, (v[i] as u32) as u64, 4, ENCODING);
                i = i + 1;
            }
        },
        KValue::CompoundList(v) => {
            if obj.qtype == qtype::COMPOUND_LIST {
                write_list_header(stream, obj.qtype, obj.attribute, v.len());
                let mut i: usize = 0;
                while i < v.len()
                    invariant
                        i <= v@.len(),
                        stream@ + ser_items_from(*obj, i as int, ENCODING) =~= base + ser(
                            *obj,
                            ENCODING,
                        ),
                    decreases v@.len() - i,
                {
                    proof {
                        assert(obj.children() =~= v@);
                        assert(decreases_to!(*obj => v@[i as int]));
                    }
                    serialize_q(&v[i], stream);
                    i = i + 1;
                }
            } else {
                // dictionary or sorted dictionary
                stream.push(#[verifier::truncate] (obj.qtype as u8));
                proof {
                    assert(decreases_to!(*obj => v@[0int]));
                    assert(decreases_to!(*obj => v@[1int]));
                }
                serialize_q(&v[0], stream);
                serialize_q(&v[1], stream);
                proof {
                    assert(stream@ =~= base + ser(*obj, ENCODING));
                }
            }
        },
        KValue::Table(d) => {
            stream.push(#[verifier::truncate] (obj.qtype as u8));
            stream.push(#[verifier::truncate] (obj.attribute as u8));
            serialize_q(&**d, stream);
            proof {
                assert(stream@ =~= base + ser(*obj, ENCODING));
            }
        },
        KValue::Lambda(c, b) => {
            stream.push(#[verifier::truncate] (obj.qtype as u8));
            write_sym(stream, c.as_str());
            let bytes = b.as_str().as_bytes();
            write_list_header(stream, qtype::STRING, 0, bytes.len());
            push_bytes(stream, bytes);
            proof {
                assert(stream@ =~= base + ser(*obj, ENCODING));
            }
        },
        KValue::Opaque(p) => {
            stream.push(#[verifier::truncate] (obj.qtype as u8));
            push_bytes(stream, p.as_slice());
            proof {
                assert(stream@ =~= base + ser(*obj, ENCODING));
            }
        },
        KValue::Null => {
            stream.push(#[verifier::truncate] (obj.qtype as u8));
            stream.push(0);
            proof {
                assert(stream@ =~= base + ser(*obj, ENCODING));
            }
        },
    }
}

impl K {
    /// Serialize in the manner of q's `-8!`, without the 8-byte message
    /// header.  The result is exactly [`ser`] of this value.
    pub fn q_ipc_encode(&self) -> (r: Vec<u8>)
        requires
            wf(*self),
        ensures
            r@ == ser(*self, ENCODING),
    {
        let mut stream: Vec<u8> = Vec::new();
        serialize_q(self, &mut stream);
        proof {
            assert(Seq::<u8>::empty() + ser(*self, ENCODING) =~= ser(*self, ENCODING));
        }
        stream
    }
}

/// Append the bytes of a slice.
pub fn push_bytes(dst: &mut Vec<u8>, src: &[u8])
    ensures
        final(dst)@ == old(dst)@ + src@,
{
    let ghost base = dst@;
    let mut i: usize = 0;
    while i < src.len()
        invariant
            i <= src@.len(),
            dst@ =~= base + src@.take(i as int),
        decreases src@.len() - i,
    {
        dst.push(src[i]);
        proof {
            assert(src@.take(i + 1) =~= src@.take(i as int).push(src@[i as int]));
        }
        i = i + 1;
    }
    proof {
        assert(src@.take(src@.len() as int) =~= src@);
    }
}

} // verus!
