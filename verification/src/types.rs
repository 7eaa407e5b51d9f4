//! The K value model: q's attribute-tagged union.
//!
//! A [`K`] is a triple of a type code, an attribute byte and a payload.
//! [`wf`] states the agreement between the type code and the payload arm
//! (and the machine bounds that the wire format imposes); every constructor
//! establishes it and every operation of the crate preserves it.
//!
//! Floating-point payloads (real, float, datetime) are carried as their
//! IEEE-754 bit patterns (`u32`/`u64`), which is exactly what travels on the
//! wire; temporal payloads are carried as their q-epoch offsets.

use vstd::prelude::*;
use vstd::string::StringExecFns;
use vstd::std_specs::vec::axiom_vec_index_decreases;
use crate::error::Error;
use crate::qtype;
use crate::qattribute;

verus! {

broadcast use axiom_vec_index_decreases;

/// q byte.
pub type G = u8;

/// q short.
pub type H = i16;

/// q int.
pub type I = i32;

/// q long.
pub type J = i64;

/// q symbol.
pub type S = String;

/// q GUID.
pub type U = [u8; 16];

/// The payload of a K value.  One arm can serve several type codes that
/// share a representation (for example every 4-byte integer atom uses
/// `Int`); [`wf`] says which codes go with which arm.
#[derive(Debug)]
pub enum KValue {
    /// Bool, byte and char atoms: the raw wire byte.
    Byte(u8),
    Guid([u8; 16]),
    Short(i16),
    Int(i32),
    Long(i64),
    /// Real atom as IEEE-754 bits.
    Real(u32),
    /// Float and datetime atoms as IEEE-754 bits.
    Float(u64),
    /// Symbol atom, char vector (string) and error message.
    Symbol(String),
    /// Enum atom: domain name and index.
    Enum(String, i32),
    /// Bool list and byte list.
    ByteList(Vec<u8>),
    GuidList(Vec<[u8; 16]>),
    ShortList(Vec<i16>),
    IntList(Vec<i32>),
    LongList(Vec<i64>),
    RealList(Vec<u32>),
    FloatList(Vec<u64>),
    SymbolList(Vec<String>),
    /// Enum list: domain name and indices.
    EnumList(String, Vec<i32>),
    /// Compound list, dictionary and sorted dictionary (the latter two hold
    /// exactly the keys object and the values object).
    CompoundList(Vec<K>),
    /// Table: the underlying column dictionary.
    Table(Box<K>),
    /// Lambda: context and body.
    Lambda(String, String),
    /// Function-like objects kept as the exact byte span that was decoded.
    Opaque(Vec<u8>),
    /// The generic null `(::)`.
    Null,
}

/// A q object.
#[derive(Debug)]
pub struct K {
    pub qtype: i8,
    pub attribute: i8,
    pub value: KValue,
}

/// Agreement between the type code of a K value and its payload arm,
/// together with the bounds that the 4-byte wire length fields impose.
pub open spec fn wf(k: K) -> bool
    decreases k,
{
    match k.value {
        KValue::Byte(_) => k.qtype == qtype::BOOL_ATOM || k.qtype == qtype::BYTE_ATOM || k.qtype
            == qtype::CHAR,
        KValue::Guid(_) => k.qtype == qtype::GUID_ATOM,
        KValue::Short(_) => k.qtype == qtype::SHORT_ATOM,
        KValue::Int(_) => k.qtype == qtype::INT_ATOM || k.qtype == qtype::MONTH_ATOM || k.qtype
            == qtype::DATE_ATOM || k.qtype == qtype::MINUTE_ATOM || k.qtype == qtype::SECOND_ATOM
            || k.qtype == qtype::TIME_ATOM,
        KValue::Long(_) => k.qtype == qtype::LONG_ATOM || k.qtype == qtype::TIMESTAMP_ATOM
            || k.qtype == qtype::TIMESPAN_ATOM,
        KValue::Real(_) => k.qtype == qtype::REAL_ATOM,
        KValue::Float(_) => k.qtype == qtype::FLOAT_ATOM || k.qtype == qtype::DATETIME_ATOM,
        KValue::Symbol(s) => k.qtype == qtype::SYMBOL_ATOM || k.qtype == qtype::ERROR || (k.qtype
            == qtype::STRING && vstd::utf8::encode_utf8(s@).len() <= u32::MAX),
        KValue::Enum(_, _) => k.qtype == qtype::ENUM_ATOM,
        KValue::ByteList(v) => (k.qtype == qtype::BOOL_LIST || k.qtype == qtype::BYTE_LIST)
            && v@.len() <= u32::MAX,
        KValue::GuidList(v) => k.qtype == qtype::GUID_LIST && v@.len() <= u32::MAX,
        KValue::ShortList(v) => k.qtype == qtype::SHORT_LIST && v@.len() <= u32::MAX,
        KValue::IntList(v) => (k.qtype == qtype::INT_LIST || k.qtype == qtype::MONTH_LIST
            || k.qtype == qtype::DATE_LIST || k.qtype == qtype::MINUTE_LIST || k.qtype
            == qtype::SECOND_LIST || k.qtype == qtype::TIME_LIST) && v@.len() <= u32::MAX,
        KValue::LongList(v) => (k.qtype == qtype::LONG_LIST || k.qtype == qtype::TIMESTAMP_LIST
            || k.qtype == qtype::TIMESPAN_LIST) && v@.len() <= u32::MAX,
        KValue::RealList(v) => k.qtype == qtype::REAL_LIST && v@.len() <= u32::MAX,
        KValue::FloatList(v) => (k.qtype == qtype::FLOAT_LIST || k.qtype == qtype::DATETIME_LIST)
            && v@.len() <= u32::MAX,
        KValue::SymbolList(v) => k.qtype == qtype::SYMBOL_LIST && v@.len() <= u32::MAX,
        KValue::EnumList(_, v) => k.qtype == qtype::ENUM_LIST && v@.len() <= u32::MAX,
        KValue::CompoundList(v) => {
            if k.qtype == qtype::COMPOUND_LIST {
                v@.len() <= u32::MAX && (forall|i: int|
                    0 <= i < v@.len() ==> wf(#[trigger] v@[i]))
            } else if k.qtype == qtype::DICTIONARY {
                v@.len() == 2 && wf(v@[0]) && wf(v@[1]) && !(v@[0].qtype == qtype::TABLE
                    && v@[1].qtype == qtype::TABLE) && ((v@[0].is_list_like()
                    && v@[1].is_list_like()) ==> v@[0].spec_len() == v@[1].spec_len())
            } else if k.qtype == qtype::SORTED_DICTIONARY {
                v@.len() == 2 && wf(v@[0]) && wf(v@[1]) && v@[0].qtype == qtype::TABLE
                    && v@[1].qtype == qtype::TABLE
            } else {
                false
            }
        },
        KValue::Table(d) => k.qtype == qtype::TABLE && d.qtype == qtype::DICTIONARY && wf(*d)
            && (match d.value {
            KValue::CompoundList(cs) => cs@.len() == 2 && cs@[0].qtype == qtype::SYMBOL_LIST
                && cs@[1].qtype == qtype::COMPOUND_LIST,
            _ => false,
        }),
        KValue::Lambda(_, b) => k.qtype == qtype::LAMBDA && vstd::utf8::encode_utf8(b@).len()
            <= u32::MAX,
        KValue::Opaque(p) => (k.qtype == qtype::UNARY_PRIMITIVE && p@.len() == 1 && p@[0] != 0)
            || (k.qtype == qtype::BINARY_PRIMITIVE && p@.len() == 1) || k.qtype
            == qtype::PROJECTION || k.qtype == qtype::COMPOSITION || k.qtype == qtype::EACH
            || k.qtype == qtype::OVER || k.qtype == qtype::SCAN || k.qtype == qtype::EACH_PRIOR
            || k.qtype == qtype::EACH_LEFT || k.qtype == qtype::EACH_RIGHT || k.qtype
            == qtype::FOREIGN,
        KValue::Null => k.qtype == qtype::NULL,
    }
}

/// Structural equivalence of two K values: equal type codes, attributes and
/// payload contents.  (Spec-level `==` on exec containers is finer than
/// content equality, so copies are related by `k_eq` instead.)
pub open spec fn k_eq(a: K, b: K) -> bool
    decreases a,
{
    a.qtype == b.qtype && a.attribute == b.attribute && match (a.value, b.value) {
        (KValue::Byte(x), KValue::Byte(y)) => x == y,
        (KValue::Guid(x), KValue::Guid(y)) => x@ == y@,
        (KValue::Short(x), KValue::Short(y)) => x == y,
        (KValue::Int(x), KValue::Int(y)) => x == y,
        (KValue::Long(x), KValue::Long(y)) => x == y,
        (KValue::Real(x), KValue::Real(y)) => x == y,
        (KValue::Float(x), KValue::Float(y)) => x == y,
        (KValue::Symbol(x), KValue::Symbol(y)) => x@ == y@,
        (KValue::Enum(d1, x), KValue::Enum(d2, y)) => d1@ == d2@ && x == y,
        (KValue::ByteList(x), KValue::ByteList(y)) => x@ == y@,
        (KValue::GuidList(x), KValue::GuidList(y)) => x@.len() == y@.len() && (forall|i: int|
            0 <= i < x@.len() ==> (#[trigger] x@[i])@ == y@[i]@),
        (KValue::ShortList(x), KValue::ShortList(y)) => x@ == y@,
        (KValue::IntList(x), KValue::IntList(y)) => x@ == y@,
        (KValue::LongList(x), KValue::LongList(y)) => x@ == y@,
        (KValue::RealList(x), KValue::RealList(y)) => x@ == y@,
        (KValue::FloatList(x), KValue::FloatList(y)) => x@ == y@,
        (KValue::SymbolList(x), KValue::SymbolList(y)) => x@.len() == y@.len() && (forall|i: int|
            0 <= i < x@.len() ==> (#[trigger] x@[i])@ == y@[i]@),
        (KValue::EnumList(d1, x), KValue::EnumList(d2, y)) => d1@ == d2@ && x@ == y@,
        (KValue::CompoundList(x), KValue::CompoundList(y)) => x@.len() == y@.len() && (forall|
            i: int,
        |
            0 <= i < x@.len() ==> k_eq(#[trigger] x@[i], y@[i])),
        (KValue::Table(x), KValue::Table(y)) => k_eq(*x, *y),
        (KValue::Lambda(c1, b1), KValue::Lambda(c2, b2)) => c1@ == c2@ && b1@ == b2@,
        (KValue::Opaque(x), KValue::Opaque(y)) => x@ == y@,
        (KValue::Null, KValue::Null) => true,
        _ => false,
    }
}

/// Nesting height of a K value: atoms are 1, a container is one more than
/// its deepest child.  The deserializer guarantees that a decoded value's
/// height stays within the recursion budget.
pub open spec fn kheight(k: K) -> nat
    decreases k, 1nat, 0nat,
{
    match k.value {
        KValue::CompoundList(_) => 1 + kheight_items(k, 0),
        KValue::Table(d) => 1 + kheight(*d),
        _ => 1,
    }
}

/// Greatest height among the children of a compound list, from child `i` on.
pub open spec fn kheight_items(parent: K, i: int) -> nat
    decreases parent, 0nat, parent.children().len() - i,
{
    if i < 0 || i >= parent.children().len() {
        0
    } else {
        let h = kheight(parent.children()[i]);
        let rest = kheight_items(parent, i + 1);
        if h > rest {
            h
        } else {
            rest
        }
    }
}

/// A bound on the heights of all children gives a bound on their maximum.
pub proof fn lemma_kheight_items_le(parent: K, i: int, b: nat)
    requires
        forall|j: int|
            i <= j < parent.children().len() ==> kheight(#[trigger] parent.children()[j]) <= b,
    ensures
        kheight_items(parent, i) <= b,
    decreases parent.children().len() - i,
{
    if 0 <= i < parent.children().len() {
        lemma_kheight_items_le(parent, i + 1, b);
    }
}

/// Every length-prefixed list inside `k` has at most `max` elements (and
/// every length-prefixed character payload at most `max` bytes).  The
/// deserializer guarantees this for the configured `max_list_size`.
pub open spec fn lists_bounded(k: K, max: nat) -> bool
    decreases k,
{
    match k.value {
        KValue::Symbol(s) => k.qtype == qtype::STRING ==> vstd::utf8::encode_utf8(s@).len() <= max,
        KValue::ByteList(v) => v@.len() <= max,
        KValue::GuidList(v) => v@.len() <= max,
        KValue::ShortList(v) => v@.len() <= max,
        KValue::IntList(v) => v@.len() <= max,
        KValue::LongList(v) => v@.len() <= max,
        KValue::RealList(v) => v@.len() <= max,
        KValue::FloatList(v) => v@.len() <= max,
        KValue::SymbolList(v) => v@.len() <= max,
        KValue::EnumList(_, v) => v@.len() <= max,
        KValue::CompoundList(v) => (k.qtype == qtype::COMPOUND_LIST ==> v@.len() <= max) && (
        forall|i: int| 0 <= i < v@.len() ==> lists_bounded(#[trigger] v@[i], max)),
        KValue::Table(d) => lists_bounded(*d, max),
        KValue::Lambda(_, b) => vstd::utf8::encode_utf8(b@).len() <= max,
        _ => true,
    }
}

/// A list bound carries up to any larger bound.
pub proof fn lemma_lists_bounded_mono(k: K, m1: nat, m2: nat)
    requires
        m1 <= m2,
        lists_bounded(k, m1),
    ensures
        lists_bounded(k, m2),
    decreases k,
{
    match k.value {
        KValue::CompoundList(v) => {
            assert forall|i: int| 0 <= i < v@.len() implies lists_bounded(#[trigger] v@[i], m2) by {
                lemma_lists_bounded_mono(v@[i], m1, m2);
            };
        },
        KValue::Table(d) => {
            lemma_lists_bounded_mono(*d, m1, m2);
        },
        _ => {},
    }
}

impl K {
    /// The elements of a compound list, or the keys/values pair of a
    /// dictionary.
    pub open spec fn children(self) -> Seq<K> {
        match self.value {
            KValue::CompoundList(v) => v@,
            _ => Seq::empty(),
        }
    }

    /// The column dictionary under a table.
    pub open spec fn table_dict(self) -> K
        recommends
            self.value is Table,
    {
        match self.value {
            KValue::Table(d) => *d,
            _ => self,
        }
    }

    /// Number of elements of a list-like value (atoms count as 1).
    pub open spec fn spec_len(self) -> nat {
        match self.value {
            KValue::ByteList(v) => v@.len(),
            KValue::GuidList(v) => v@.len(),
            KValue::ShortList(v) => v@.len(),
            KValue::IntList(v) => v@.len(),
            KValue::LongList(v) => v@.len(),
            KValue::RealList(v) => v@.len(),
            KValue::FloatList(v) => v@.len(),
            KValue::SymbolList(v) => v@.len(),
            KValue::EnumList(_, v) => v@.len(),
            KValue::CompoundList(v) => v@.len(),
            KValue::Symbol(s) => vstd::utf8::encode_utf8(s@).len(),
            _ => 1,
        }
    }

    /// Whether this value carries a meaningful element count.
    pub open spec fn is_list_like(self) -> bool {
        match self.value {
            KValue::ByteList(_) => true,
            KValue::GuidList(_) => true,
            KValue::ShortList(_) => true,
            KValue::IntList(_) => true,
            KValue::LongList(_) => true,
            KValue::RealList(_) => true,
            KValue::FloatList(_) => true,
            KValue::SymbolList(_) => true,
            KValue::EnumList(_, _) => true,
            KValue::CompoundList(_) => true,
            _ => false,
        }
    }

    pub fn get_type(&self) -> (r: i8)
        ensures
            r == self.qtype,
    {
        self.qtype
    }

    pub fn get_attribute(&self) -> (r: i8)
        ensures
            r == self.attribute,
    {
        self.attribute
    }

    /// Number of elements of a list-like value (atoms count as 1; a symbol
    /// or string counts its characters).
    pub fn len(&self) -> (r: usize)
        ensures
            r == self.spec_len(),
    {
        match &self.value {
            KValue::ByteList(v) => v.len(),
            KValue::GuidList(v) => v.len(),
            KValue::ShortList(v) => v.len(),
            KValue::IntList(v) => v.len(),
            KValue::LongList(v) => v.len(),
            KValue::RealList(v) => v.len(),
            KValue::FloatList(v) => v.len(),
            KValue::SymbolList(v) => v.len(),
            KValue::EnumList(_, v) => v.len(),
            KValue::CompoundList(v) => v.len(),
            KValue::Symbol(s) => s.as_str().as_bytes().len(),
            _ => 1,
        }
    }

    /// Executable well-formedness test: decides [`wf`] at run time, for
    /// callers outside verified code (the transport layer tests a payload
    /// before encoding it).
    #[verifier::loop_isolation(false)]
    pub fn is_well_formed(&self) -> (r: bool)
        ensures
            r == wf(*self),
        decreases *self,
    {
        match &self.value {
            KValue::Byte(_) => self.qtype == qtype::BOOL_ATOM || self.qtype == qtype::BYTE_ATOM
                || self.qtype == qtype::CHAR,
            KValue::Guid(_) => self.qtype == qtype::GUID_ATOM,
            KValue::Short(_) => self.qtype == qtype::SHORT_ATOM,
            KValue::Int(_) => self.qtype == qtype::INT_ATOM || self.qtype == qtype::MONTH_ATOM
                || self.qtype == qtype::DATE_ATOM || self.qtype == qtype::MINUTE_ATOM
                || self.qtype == qtype::SECOND_ATOM || self.qtype == qtype::TIME_ATOM,
            KValue::Long(_) => self.qtype == qtype::LONG_ATOM || self.qtype
                == qtype::TIMESTAMP_ATOM || self.qtype == qtype::TIMESPAN_ATOM,
            KValue::Real(_) => self.qtype == qtype::REAL_ATOM,
            KValue::Float(_) => self.qtype == qtype::FLOAT_ATOM || self.qtype
                == qtype::DATETIME_ATOM,
            KValue::Symbol(s) => self.qtype == qtype::SYMBOL_ATOM || self.qtype == qtype::ERROR
                || (self.qtype == qtype::STRING && s.as_str().as_bytes().len()
                <= 0xffffffffusize),
            KValue::Enum(_, _) => self.qtype == qtype::ENUM_ATOM,
            KValue::ByteList(v) => (self.qtype == qtype::BOOL_LIST || self.qtype
                == qtype::BYTE_LIST) && v.len() <= 0xffffffffusize,
            KValue::GuidList(v) => self.qtype == qtype::GUID_LIST && v.len() <= 0xffffffffusize,
            KValue::ShortList(v) => self.qtype == qtype::SHORT_LIST && v.len()
                <= 0xffffffffusize,
            KValue::IntList(v) => (self.qtype == qtype::INT_LIST || self.qtype
                == qtype::MONTH_LIST || self.qtype == qtype::DATE_LIST || self.qtype
                == qtype::MINUTE_LIST || self.qtype == qtype::SECOND_LIST || self.qtype
                == qtype::TIME_LIST) && v.len() <= 0xffffffffusize,
            KValue::LongList(v) => (self.qtype == qtype::LONG_LIST || self.qtype
                == qtype::TIMESTAMP_LIST || self.qtype == qtype::TIMESPAN_LIST) && v.len()
                <= 0xffffffffusize,
            KValue::RealList(v) => self.qtype == qtype::REAL_LIST && v.len() <= 0xffffffffusize,
            KValue::FloatList(v) => (self.qtype == qtype::FLOAT_LIST || self.qtype
                == qtype::DATETIME_LIST) && v.len() <= 0xffffffffusize,
            KValue::SymbolList(v) => self.qtype == qtype::SYMBOL_LIST && v.len()
                <= 0xffffffffusize,
            KValue::EnumList(_, v) => self.qtype == qtype::ENUM_LIST && v.len()
                <= 0xffffffffusize,
            KValue::CompoundList(v) => {
                if self.qtype == qtype::COMPOUND_LIST {
                    if v.len() > 0xffffffffusize {
                        return false;
                    }
                    let mut i: usize = 0;
                    while i < v.len()
                        invariant
                            i <= v@.len(),
                            forall|j: int| 0 <= j < i ==> wf(#[trigger] v@[j]),
                        decreases v@.len() - i,
                    {
                        proof {
                            assert(decreases_to!(*self => v@[i as int]));
                        }
                        if !v[i].is_well_formed() {
                            return false;
                        }
                        i = i + 1;
                    }
                    true
                } else if self.qtype == qtype::DICTIONARY {
                    if v.len() != 2 {
                        return false;
                    }
                    proof {
                        assert(decreases_to!(*self => v@[0int]));
                        assert(decreases_to!(*self => v@[1int]));
                    }
                    if !v[0].is_well_formed() || !v[1].is_well_formed() {
                        return false;
                    }
                    if v[0].get_type() == qtype::TABLE && v[1].get_type() == qtype::TABLE {
                        return false;
                    }
                    if v[0].has_length() && v[1].has_length() && v[0].len() != v[1].len() {
                        return false;
                    }
                    true
                } else if self.qtype == qtype::SORTED_DICTIONARY {
                    if v.len() != 2 {
                        return false;
                    }
                    proof {
                        assert(decreases_to!(*self => v@[0int]));
                        assert(decreases_to!(*self => v@[1int]));
                    }
                    v[0].is_well_formed() && v[1].is_well_formed() && v[0].get_type()
                        == qtype::TABLE && v[1].get_type() == qtype::TABLE
                } else {
                    false
                }
            },
            KValue::Table(d) => {
                if self.qtype != qtype::TABLE || d.get_type() != qtype::DICTIONARY {
                    return false;
                }
                if !(&**d).is_well_formed() {
                    return false;
                }
                match &(**d).value {
                    KValue::CompoundList(cs) => cs.len() == 2 && cs[0].get_type()
                        == qtype::SYMBOL_LIST && cs[1].get_type() == qtype::COMPOUND_LIST,
                    _ => false,
                }
            },
            KValue::Lambda(_, b) => self.qtype == qtype::LAMBDA && b.as_str().as_bytes().len()
                <= 0xffffffffusize,
            KValue::Opaque(p) => (self.qtype == qtype::UNARY_PRIMITIVE && p.len() == 1 && p[0]
                != 0) || (self.qtype == qtype::BINARY_PRIMITIVE && p.len() == 1) || self.qtype
                == qtype::PROJECTION || self.qtype == qtype::COMPOSITION || self.qtype
                == qtype::EACH || self.qtype == qtype::OVER || self.qtype == qtype::SCAN
                || self.qtype == qtype::EACH_PRIOR || self.qtype == qtype::EACH_LEFT
                || self.qtype == qtype::EACH_RIGHT || self.qtype == qtype::FOREIGN,
            KValue::Null => self.qtype == qtype::NULL,
        }
    }

    /// Structural copy; the result is `k_eq` to the original.
    #[verifier::loop_isolation(false)]
    pub fn deep_copy(&self) -> (r: K)
        ensures
            k_eq(r, *self),
        decreases *self,
    {
        let qt = self.qtype;
        let at = self.attribute;
        match &self.value {
            KValue::Byte(x) => K { qtype: qt, attribute: at, value: KValue::Byte(*x) },
            KValue::Guid(x) => K { qtype: qt, attribute: at, value: KValue::Guid(*x) },
            KValue::Short(x) => K { qtype: qt, attribute: at, value: KValue::Short(*x) },
            KValue::Int(x) => K { qtype: qt, attribute: at, value: KValue::Int(*x) },
            KValue::Long(x) => K { qtype: qt, attribute: at, value: KValue::Long(*x) },
            KValue::Real(x) => K { qtype: qt, attribute: at, value: KValue::Real(*x) },
            KValue::Float(x) => K { qtype: qt, attribute: at, value: KValue::Float(*x) },
            KValue::Symbol(s) => K { qtype: qt, attribute: at, value: KValue::Symbol(s.clone()) },
            KValue::Enum(d, x) => K {
                qtype: qt,
                attribute: at,
                value: KValue::Enum(d.clone(), *x),
            },
            KValue::ByteList(v) => K { qtype: qt, attribute: at, value: KValue::ByteList(copy_vec(v)) },
            KValue::GuidList(v) => K {
                qtype: qt,
                attribute: at,
                value: KValue::GuidList(copy_vec(v)),
            },
            KValue::ShortList(v) => K {
                qtype: qt,
                attribute: at,
                value: KValue::ShortList(copy_vec(v)),
            },
            KValue::IntList(v) => K { qtype: qt, attribute: at, value: KValue::IntList(copy_vec(v)) },
            KValue::LongList(v) => K {
                qtype: qt,
                attribute: at,
                value: KValue::LongList(copy_vec(v)),
            },
            KValue::RealList(v) => K {
                qtype: qt,
                attribute: at,
                value: KValue::RealList(copy_vec(v)),
            },
            KValue::FloatList(v) => K {
                qtype: qt,
                attribute: at,
                value: KValue::FloatList(copy_vec(v)),
            },
            KValue::SymbolList(v) => K {
                qtype: qt,
                attribute: at,
                value: KValue::SymbolList(copy_vec_string(v)),
            },
            KValue::EnumList(d, v) => K {
                qtype: qt,
                attribute: at,
                value: KValue::EnumList(d.clone(), copy_vec(v)),
            },
            KValue::CompoundList(v) => {
                let mut out: Vec<K> = Vec::new();
                let mut i: usize = 0;
                while i < v.len()
                    invariant
                        i <= v@.len(),
                        out@.len() == i,
                        forall|j: int| 0 <= j < i ==> k_eq(#[trigger] out@[j], v@[j]),
                        v@ == self.value->CompoundList_0@,
                    decreases v@.len() - i,
                {
                    proof {
                        assert(decreases_to!(*self => v@[i as int]));
                    }
                    let c = v[i].deep_copy();
                    out.push(c);
                    i = i + 1;
                }
                K { qtype: qt, attribute: at, value: KValue::CompoundList(out) }
            },
            KValue::Table(d) => {
                let inner = (&**d).deep_copy();
                K { qtype: qt, attribute: at, value: KValue::Table(Box::new(inner)) }
            },
            KValue::Lambda(c, b) => K {
                qtype: qt,
                attribute: at,
                value: KValue::Lambda(c.clone(), b.clone()),
            },
            KValue::Opaque(p) => K { qtype: qt, attribute: at, value: KValue::Opaque(copy_vec(p)) },
            KValue::Null => K { qtype: qt, attribute: at, value: KValue::Null },
        }
    }
}

impl K {
    pub fn new(qt: i8, attribute: i8, value: KValue) -> (r: K)
        ensures
            r == (K { qtype: qt, attribute, value }),
    {
        K { qtype: qt, attribute, value }
    }

    pub fn new_bool(b: bool) -> (r: K)
        ensures
            r.qtype == qtype::BOOL_ATOM && r.attribute == qattribute::NONE,
            r.value == KValue::Byte(if b { 1u8 } else { 0u8 }),
            wf(r),
    {
        K {
            qtype: qtype::BOOL_ATOM,
            attribute: qattribute::NONE,
            value: KValue::Byte(if b { 1 } else { 0 }),
        }
    }

    pub fn new_guid(g: [u8; 16]) -> (r: K)
        ensures
            r.qtype == qtype::GUID_ATOM && r.attribute == qattribute::NONE,
            r.value == KValue::Guid(g),
            wf(r),
    {
        K { qtype: qtype::GUID_ATOM, attribute: qattribute::NONE, value: KValue::Guid(g) }
    }

    pub fn new_byte(b: u8) -> (r: K)
        ensures
            r.qtype == qtype::BYTE_ATOM && r.attribute == qattribute::NONE,
            r.value == KValue::Byte(b),
            wf(r),
    {
        K { qtype: qtype::BYTE_ATOM, attribute: qattribute::NONE, value: KValue::Byte(b) }
    }

    /// q chars are single bytes on the wire, so the argument must be a
    /// one-byte character.
    pub fn new_char(c: char) -> (r: K)
        requires
            c as u32 <= 255,
        ensures
            r.qtype == qtype::CHAR && r.attribute == qattribute::NONE,
            r.value == KValue::Byte(c as u8),
            wf(r),
    {
        K { qtype: qtype::CHAR, attribute: qattribute::NONE, value: KValue::Byte(c as u8) }
    }

    pub fn new_short(h: i16) -> (r: K)
        ensures
            r.qtype == qtype::SHORT_ATOM && r.attribute == qattribute::NONE,
            r.value == KValue::Short(h),
            wf(r),
    {
        K { qtype: qtype::SHORT_ATOM, attribute: qattribute::NONE, value: KValue::Short(h) }
    }

    pub fn new_int(i: i32) -> (r: K)
        ensures
            r.qtype == qtype::INT_ATOM && r.attribute == qattribute::NONE,
            r.value == KValue::Int(i),
            wf(r),
    {
        K { qtype: qtype::INT_ATOM, attribute: qattribute::NONE, value: KValue::Int(i) }
    }

    pub fn new_long(j: i64) -> (r: K)
        ensures
            r.qtype == qtype::LONG_ATOM && r.attribute == qattribute::NONE,
            r.value == KValue::Long(j),
            wf(r),
    {
        K { qtype: qtype::LONG_ATOM, attribute: qattribute::NONE, value: KValue::Long(j) }
    }

    /// Real atom from its IEEE-754 bit pattern.
    pub fn new_real(bits: u32) -> (r: K)
        ensures
            r.qtype == qtype::REAL_ATOM && r.attribute == qattribute::NONE,
            r.value == KValue::Real(bits),
            wf(r),
    {
        K { qtype: qtype::REAL_ATOM, attribute: qattribute::NONE, value: KValue::Real(bits) }
    }

    /// Float atom from its IEEE-754 bit pattern.
    pub fn new_float(bits: u64) -> (r: K)
        ensures
            r.qtype == qtype::FLOAT_ATOM && r.attribute == qattribute::NONE,
            r.value == KValue::Float(bits),
            wf(r),
    {
        K { qtype: qtype::FLOAT_ATOM, attribute: qattribute::NONE, value: KValue::Float(bits) }
    }

    pub fn new_symbol(s: String) -> (r: K)
        ensures
            r.qtype == qtype::SYMBOL_ATOM && r.attribute == qattribute::NONE,
            r.value == KValue::Symbol(s),
            wf(r),
    {
        K { qtype: qtype::SYMBOL_ATOM, attribute: qattribute::NONE, value: KValue::Symbol(s) }
    }

    pub fn new_string(s: String, attribute: i8) -> (r: K)
        requires
            vstd::utf8::encode_utf8(s@).len() <= u32::MAX,
        ensures
            r.qtype == qtype::STRING && r.attribute == attribute,
            r.value == KValue::Symbol(s),
            wf(r),
    {
        K { qtype: qtype::STRING, attribute, value: KValue::Symbol(s) }
    }

    pub fn new_error(msg: String) -> (r: K)
        ensures
            r.qtype == qtype::ERROR && r.attribute == qattribute::NONE,
            r.value == KValue::Symbol(msg),
            wf(r),
    {
        K { qtype: qtype::ERROR, attribute: qattribute::NONE, value: KValue::Symbol(msg) }
    }

    pub fn new_enum(domain: String, index: i32) -> (r: K)
        ensures
            r.qtype == qtype::ENUM_ATOM && r.attribute == qattribute::NONE,
            r.value == KValue::Enum(domain, index),
            wf(r),
    {
        K { qtype: qtype::ENUM_ATOM, attribute: qattribute::NONE, value: KValue::Enum(domain, index) }
    }

    /// Timestamp atom: nanoseconds since the q epoch 2000-01-01T00:00:00.
    pub fn new_timestamp(nanos: i64) -> (r: K)
        ensures
            r.qtype == qtype::TIMESTAMP_ATOM && r.attribute == qattribute::NONE,
            r.value == KValue::Long(nanos),
            wf(r),
    {
        K { qtype: qtype::TIMESTAMP_ATOM, attribute: qattribute::NONE, value: KValue::Long(nanos) }
    }

    /// Month atom: months since 2000-01.
    pub fn new_month(months: i32) -> (r: K)
        ensures
            r.qtype == qtype::MONTH_ATOM && r.attribute == qattribute::NONE,
            r.value == KValue::Int(months),
            wf(r),
    {
        K { qtype: qtype::MONTH_ATOM, attribute: qattribute::NONE, value: KValue::Int(months) }
    }

    /// Date atom: days since 2000-01-01.
    pub fn new_date(days: i32) -> (r: K)
        ensures
            r.qtype == qtype::DATE_ATOM && r.attribute == qattribute::NONE,
            r.value == KValue::Int(days),
            wf(r),
    {
        K { qtype: qtype::DATE_ATOM, attribute: qattribute::NONE, value: KValue::Int(days) }
    }

    /// Datetime atom: fractional days since the q epoch, as IEEE-754 bits.
    pub fn new_datetime(bits: u64) -> (r: K)
        ensures
            r.qtype == qtype::DATETIME_ATOM && r.attribute == qattribute::NONE,
            r.value == KValue::Float(bits),
            wf(r),
    {
        K { qtype: qtype::DATETIME_ATOM, attribute: qattribute::NONE, value: KValue::Float(bits) }
    }

    /// Timespan atom: nanoseconds.
    pub fn new_timespan(nanos: i64) -> (r: K)
        ensures
            r.qtype == qtype::TIMESPAN_ATOM && r.attribute == qattribute::NONE,
            r.value == KValue::Long(nanos),
            wf(r),
    {
        K { qtype: qtype::TIMESPAN_ATOM, attribute: qattribute::NONE, value: KValue::Long(nanos) }
    }

    /// Minute atom: minutes.
    pub fn new_minute(minutes: i32) -> (r: K)
        ensures
            r.qtype == qtype::MINUTE_ATOM && r.attribute == qattribute::NONE,
            r.value == KValue::Int(minutes),
            wf(r),
    {
        K { qtype: qtype::MINUTE_ATOM, attribute: qattribute::NONE, value: KValue::Int(minutes) }
    }

    /// Second atom: seconds.
    pub fn new_second(seconds: i32) -> (r: K)
        ensures
            r.qtype == qtype::SECOND_ATOM && r.attribute == qattribute::NONE,
            r.value == KValue::Int(seconds),
            wf(r),
    {
        K { qtype: qtype::SECOND_ATOM, attribute: qattribute::NONE, value: KValue::Int(seconds) }
    }

    /// Time atom: milliseconds.
    pub fn new_time(millis: i32) -> (r: K)
        ensures
            r.qtype == qtype::TIME_ATOM && r.attribute == qattribute::NONE,
            r.value == KValue::Int(millis),
            wf(r),
    {
        K { qtype: qtype::TIME_ATOM, attribute: qattribute::NONE, value: KValue::Int(millis) }
    }

    pub fn new_bool_list(list: Vec<bool>, attribute: i8) -> (r: K)
        requires
            list@.len() <= u32::MAX,
        ensures
            r.qtype == qtype::BOOL_LIST && r.attribute == attribute,
            r.value matches KValue::ByteList(v) && v@.len() == list@.len() && (forall|i: int|
                0 <= i < list@.len() ==> v@[i] == (if list@[i] { 1u8 } else { 0u8 })),
            wf(r),
    {
        let mut bytes: Vec<u8> = Vec::new();
        let mut i: usize = 0;
        while i < list.len()
            invariant
                i <= list@.len(),
                bytes@.len() == i,
                forall|j: int| 0 <= j < i ==> bytes@[j] == (if list@[j] { 1u8 } else { 0u8 }),
            decreases list@.len() - i,
        {
            bytes.push(if list[i] { 1 } else { 0 });
            i = i + 1;
        }
        K { qtype: qtype::BOOL_LIST, attribute, value: KValue::ByteList(bytes) }
    }

    pub fn new_byte_list(list: Vec<u8>, attribute: i8) -> (r: K)
        requires
            list@.len() <= u32::MAX,
        ensures
            r.qtype == qtype::BYTE_LIST && r.attribute == attribute,
            r.value == KValue::ByteList(list),
            wf(r),
    {
        K { qtype: qtype::BYTE_LIST, attribute, value: KValue::ByteList(list) }
    }

    pub fn new_guid_list(list: Vec<[u8; 16]>, attribute: i8) -> (r: K)
        requires
            list@.len() <= u32::MAX,
        ensures
            r.qtype == qtype::GUID_LIST && r.attribute == attribute,
            r.value == KValue::GuidList(list),
            wf(r),
    {
        K { qtype: qtype::GUID_LIST, attribute, value: KValue::GuidList(list) }
    }

    pub fn new_short_list(list: Vec<i16>, attribute: i8) -> (r: K)
        requires
            list@.len() <= u32::MAX,
        ensures
            r.qtype == qtype::SHORT_LIST && r.attribute == attribute,
            r.value == KValue::ShortList(list),
            wf(r),
    {
        K { qtype: qtype::SHORT_LIST, attribute, value: KValue::ShortList(list) }
    }

    pub fn new_int_list(list: Vec<i32>, attribute: i8) -> (r: K)
        requires
            list@.len() <= u32::MAX,
        ensures
            r.qtype == qtype::INT_LIST && r.attribute == attribute,
            r.value == KValue::IntList(list),
            wf(r),
    {
        K { qtype: qtype::INT_LIST, attribute, value: KValue::IntList(list) }
    }

    pub fn new_long_list(list: Vec<i64>, attribute: i8) -> (r: K)
        requires
            list@.len() <= u32::MAX,
        ensures
            r.qtype == qtype::LONG_LIST && r.attribute == attribute,
            r.value == KValue::LongList(list),
            wf(r),
    {
        K { qtype: qtype::LONG_LIST, attribute, value: KValue::LongList(list) }
    }

    /// Real list from IEEE-754 bit patterns.
    pub fn new_real_list(list: Vec<u32>, attribute: i8) -> (r: K)
        requires
            list@.len() <= u32::MAX,
        ensures
            r.qtype == qtype::REAL_LIST && r.attribute == attribute,
            r.value == KValue::RealList(list),
            wf(r),
    {
        K { qtype: qtype::REAL_LIST, attribute, value: KValue::RealList(list) }
    }

    /// Float list from IEEE-754 bit patterns.
    pub fn new_float_list(list: Vec<u64>, attribute: i8) -> (r: K)
        requires
            list@.len() <= u32::MAX,
        ensures
            r.qtype == qtype::FLOAT_LIST && r.attribute == attribute,
            r.value == KValue::FloatList(list),
            wf(r),
    {
        K { qtype: qtype::FLOAT_LIST, attribute, value: KValue::FloatList(list) }
    }

    pub fn new_symbol_list(list: Vec<String>, attribute: i8) -> (r: K)
        requires
            list@.len() <= u32::MAX,
        ensures
            r.qtype == qtype::SYMBOL_LIST && r.attribute == attribute,
            r.value == KValue::SymbolList(list),
            wf(r),
    {
        K { qtype: qtype::SYMBOL_LIST, attribute, value: KValue::SymbolList(list) }
    }

    pub fn new_enum_list(domain: String, list: Vec<i32>, attribute: i8) -> (r: K)
        requires
            list@.len() <= u32::MAX,
        ensures
            r.qtype == qtype::ENUM_LIST && r.attribute == attribute,
            r.value == KValue::EnumList(domain, list),
            wf(r),
    {
        K { qtype: qtype::ENUM_LIST, attribute, value: KValue::EnumList(domain, list) }
    }

    /// Timestamp list: nanoseconds since the q epoch.
    pub fn new_timestamp_list(list: Vec<i64>, attribute: i8) -> (r: K)
        requires
            list@.len() <= u32::MAX,
        ensures
            r.qtype == qtype::TIMESTAMP_LIST && r.attribute == attribute,
            r.value == KValue::LongList(list),
            wf(r),
    {
        K { qtype: qtype::TIMESTAMP_LIST, attribute, value: KValue::LongList(list) }
    }

    /// Month list: months since 2000-01.
    pub fn new_month_list(list: Vec<i32>, attribute: i8) -> (r: K)
        requires
            list@.len() <= u32::MAX,
        ensures
            r.qtype == qtype::MONTH_LIST && r.attribute == attribute,
            r.value == KValue::IntList(list),
            wf(r),
    {
        K { qtype: qtype::MONTH_LIST, attribute, value: KValue::IntList(list) }
    }

    /// Date list: days since 2000-01-01.
    pub fn new_date_list(list: Vec<i32>, attribute: i8) -> (r: K)
        requires
            list@.len() <= u32::MAX,
        ensures
            r.qtype == qtype::DATE_LIST && r.attribute == attribute,
            r.value == KValue::IntList(list),
            wf(r),
    {
        K { qtype: qtype::DATE_LIST, attribute, value: KValue::IntList(list) }
    }

    /// Datetime list from IEEE-754 bit patterns.
    pub fn new_datetime_list(list: Vec<u64>, attribute: i8) -> (r: K)
        requires
            list@.len() <= u32::MAX,
        ensures
            r.qtype == qtype::DATETIME_LIST && r.attribute == attribute,
            r.value == KValue::FloatList(list),
            wf(r),
    {
        K { qtype: qtype::DATETIME_LIST, attribute, value: KValue::FloatList(list) }
    }

    /// Timespan list: nanoseconds.
    pub fn new_timespan_list(list: Vec<i64>, attribute: i8) -> (r: K)
        requires
            list@.len() <= u32::MAX,
        ensures
            r.qtype == qtype::TIMESPAN_LIST && r.attribute == attribute,
            r.value == KValue::LongList(list),
            wf(r),
    {
        K { qtype: qtype::TIMESPAN_LIST, attribute, value: KValue::LongList(list) }
    }

    /// Minute list: minutes.
    pub fn new_minute_list(list: Vec<i32>, attribute: i8) -> (r: K)
        requires
            list@.len() <= u32::MAX,
        ensures
            r.qtype == qtype::MINUTE_LIST && r.attribute == attribute,
            r.value == KValue::IntList(list),
            wf(r),
    {
        K { qtype: qtype::MINUTE_LIST, attribute, value: KValue::IntList(list) }
    }

    /// Second list: seconds.
    pub fn new_second_list(list: Vec<i32>, attribute: i8) -> (r: K)
        requires
            list@.len() <= u32::MAX,
        ensures
            r.qtype == qtype::SECOND_LIST && r.attribute == attribute,
            r.value == KValue::IntList(list),
            wf(r),
    {
        K { qtype: qtype::SECOND_LIST, attribute, value: KValue::IntList(list) }
    }

    /// Time list: milliseconds.
    pub fn new_time_list(list: Vec<i32>, attribute: i8) -> (r: K)
        requires
            list@.len() <= u32::MAX,
        ensures
            r.qtype == qtype::TIME_LIST && r.attribute == attribute,
            r.value == KValue::IntList(list),
            wf(r),
    {
        K { qtype: qtype::TIME_LIST, attribute, value: KValue::IntList(list) }
    }

    pub fn new_compound_list(list: Vec<K>) -> (r: K)
        requires
            list@.len() <= u32::MAX,
            forall|i: int| 0 <= i < list@.len() ==> wf(#[trigger] list@[i]),
        ensures
            r.qtype == qtype::COMPOUND_LIST && r.attribute == qattribute::NONE,
            r.value == KValue::CompoundList(list),
            wf(r),
    {
        K { qtype: qtype::COMPOUND_LIST, attribute: qattribute::NONE, value: KValue::CompoundList(list) }
    }

    pub fn new_lambda(context: String, body: String) -> (r: K)
        requires
            vstd::utf8::encode_utf8(body@).len() <= u32::MAX,
        ensures
            r.qtype == qtype::LAMBDA && r.attribute == qattribute::NONE,
            r.value == KValue::Lambda(context, body),
            wf(r),
    {
        K { qtype: qtype::LAMBDA, attribute: qattribute::NONE, value: KValue::Lambda(context, body) }
    }

    /// The generic null `(::)`.
    pub fn new_null() -> (r: K)
        ensures
            r.qtype == qtype::NULL && r.attribute == qattribute::NONE,
            r.value == KValue::Null,
            wf(r),
    {
        K { qtype: qtype::NULL, attribute: qattribute::NONE, value: KValue::Null }
    }

    /// Build a dictionary from a keys object and a values object.  Two
    /// tables make a sorted dictionary (keyed table); otherwise the result is
    /// a plain dictionary, refused when both sides are lists of different
    /// lengths.
    pub fn new_dictionary(keys: K, values: K) -> (r: Result<K, Error>)
        requires
            wf(keys),
            wf(values),
        ensures
            match r {
                Ok(d) => {
                    &&& wf(d)
                    &&& d.attribute == qattribute::NONE
                    &&& d.children().len() == 2
                    &&& d.children()[0] == keys
                    &&& d.children()[1] == values
                    &&& d.qtype == (if keys.qtype == qtype::TABLE && values.qtype == qtype::TABLE {
                        qtype::SORTED_DICTIONARY
                    } else {
                        qtype::DICTIONARY
                    })
                },
                Err(_) => {
                    &&& !(keys.qtype == qtype::TABLE && values.qtype == qtype::TABLE)
                    &&& keys.is_list_like()
                    &&& values.is_list_like()
                    &&& keys.spec_len() != values.spec_len()
                },
            },
    {
        let both_tables = keys.get_type() == qtype::TABLE && values.get_type() == qtype::TABLE;
        if !both_tables && keys.has_length() && values.has_length() && keys.len() != values.len() {
            return Err(Error::DeserializationError(String::from_str(
                "dictionary keys and values have different lengths",
            )));
        }
        let qt = if both_tables {
            qtype::SORTED_DICTIONARY
        } else {
            qtype::DICTIONARY
        };
        let mut pair: Vec<K> = Vec::new();
        pair.push(keys);
        pair.push(values);
        Ok(K { qtype: qt, attribute: qattribute::NONE, value: KValue::CompoundList(pair) })
    }

    /// Turn a dictionary whose keys are a symbol list and whose values are a
    /// compound list into a table.
    pub fn flip(self) -> (r: Result<K, Error>)
        requires
            wf(self),
        ensures
            match r {
                Ok(t) => {
                    &&& wf(t)
                    &&& t.qtype == qtype::TABLE
                    &&& t.attribute == qattribute::NONE
                    &&& t.table_dict() == self
                    &&& self.qtype == qtype::DICTIONARY
                },
                Err(_) => !(self.qtype == qtype::DICTIONARY && self.children()[0].qtype
                    == qtype::SYMBOL_LIST && self.children()[1].qtype == qtype::COMPOUND_LIST),
            },
    {
        if self.get_type() != qtype::DICTIONARY {
            return Err(Error::invalid_operation("flip", self.get_type()));
        }
        let ok = match &self.value {
            KValue::CompoundList(pair) => pair[0].get_type() == qtype::SYMBOL_LIST
                && pair[1].get_type() == qtype::COMPOUND_LIST,
            _ => false,
        };
        if !ok {
            return Err(Error::invalid_operation("flip", qtype::DICTIONARY));
        }
        Ok(K { qtype: qtype::TABLE, attribute: qattribute::NONE, value: KValue::Table(Box::new(self)) })
    }

    /// Whether this value carries a meaningful element count.
    pub fn has_length(&self) -> (r: bool)
        ensures
            r == self.is_list_like(),
    {
        match &self.value {
            KValue::ByteList(_) => true,
            KValue::GuidList(_) => true,
            KValue::ShortList(_) => true,
            KValue::IntList(_) => true,
            KValue::LongList(_) => true,
            KValue::RealList(_) => true,
            KValue::FloatList(_) => true,
            KValue::SymbolList(_) => true,
            KValue::EnumList(_, _) => true,
            KValue::CompoundList(_) => true,
            _ => false,
        }
    }

    pub fn get_bool(&self) -> (r: Result<bool, Error>)
        ensures
            match r {
                Ok(b) => self.qtype == qtype::BOOL_ATOM && (self.value matches KValue::Byte(x)
                    && b == (x != 0)),
                Err(_) => self.qtype != qtype::BOOL_ATOM || !(self.value is Byte),
            },
    {
        match &self.value {
            KValue::Byte(x) if self.qtype == qtype::BOOL_ATOM => Ok(*x != 0),
            _ => Err(Error::invalid_operation("get_bool", self.qtype)),
        }
    }

    pub fn get_byte(&self) -> (r: Result<u8, Error>)
        ensures
            match r {
                Ok(b) => self.value == KValue::Byte(b),
                Err(_) => !(self.value is Byte),
            },
    {
        match &self.value {
            KValue::Byte(x) => Ok(*x),
            _ => Err(Error::invalid_operation("get_byte", self.qtype)),
        }
    }

    pub fn get_guid(&self) -> (r: Result<[u8; 16], Error>)
        ensures
            match r {
                Ok(g) => self.value == KValue::Guid(g),
                Err(_) => !(self.value is Guid),
            },
    {
        match &self.value {
            KValue::Guid(g) => Ok(*g),
            _ => Err(Error::invalid_operation("get_guid", self.qtype)),
        }
    }

    pub fn get_short(&self) -> (r: Result<i16, Error>)
        ensures
            match r {
                Ok(h) => self.value == KValue::Short(h),
                Err(_) => !(self.value is Short),
            },
    {
        match &self.value {
            KValue::Short(h) => Ok(*h),
            _ => Err(Error::invalid_operation("get_short", self.qtype)),
        }
    }

    /// The payload of any 4-byte integer atom, including the index of an
    /// enum atom.
    pub fn get_int(&self) -> (r: Result<i32, Error>)
        ensures
            match r {
                Ok(i) => (self.value matches KValue::Int(x) && x == i) || (self.value matches
                    KValue::Enum(_, x) && x == i),
                Err(_) => !(self.value is Int) && !(self.value is Enum),
            },
    {
        match &self.value {
            KValue::Int(i) => Ok(*i),
            KValue::Enum(_, i) => Ok(*i),
            _ => Err(Error::invalid_operation("get_int", self.qtype)),
        }
    }

    pub fn get_long(&self) -> (r: Result<i64, Error>)
        ensures
            match r {
                Ok(j) => self.value == KValue::Long(j),
                Err(_) => !(self.value is Long),
            },
    {
        match &self.value {
            KValue::Long(j) => Ok(*j),
            _ => Err(Error::invalid_operation("get_long", self.qtype)),
        }
    }

    /// IEEE-754 bit pattern of a real atom.
    pub fn get_real(&self) -> (r: Result<u32, Error>)
        ensures
            match r {
                Ok(b) => self.value == KValue::Real(b),
                Err(_) => !(self.value is Real),
            },
    {
        match &self.value {
            KValue::Real(b) => Ok(*b),
            _ => Err(Error::invalid_operation("get_real", self.qtype)),
        }
    }

    /// IEEE-754 bit pattern of a float or datetime atom.
    pub fn get_float(&self) -> (r: Result<u64, Error>)
        ensures
            match r {
                Ok(b) => self.value == KValue::Float(b),
                Err(_) => !(self.value is Float),
            },
    {
        match &self.value {
            KValue::Float(b) => Ok(*b),
            _ => Err(Error::invalid_operation("get_float", self.qtype)),
        }
    }

    pub fn get_symbol(&self) -> (r: Result<&str, Error>)
        ensures
            match r {
                Ok(s) => self.qtype == qtype::SYMBOL_ATOM && (self.value matches KValue::Symbol(
                    x,
                ) && s@ == x@),
                Err(_) => self.qtype != qtype::SYMBOL_ATOM || !(self.value is Symbol),
            },
    {
        match &self.value {
            KValue::Symbol(s) if self.qtype == qtype::SYMBOL_ATOM => Ok(s.as_str()),
            _ => Err(Error::invalid_operation("get_symbol", self.qtype)),
        }
    }

    /// The characters of a string or of an error message.
    pub fn as_string(&self) -> (r: Result<&str, Error>)
        ensures
            match r {
                Ok(s) => (self.qtype == qtype::STRING || self.qtype == qtype::ERROR) && (
                self.value matches KValue::Symbol(x) && s@ == x@),
                Err(_) => !((self.qtype == qtype::STRING || self.qtype == qtype::ERROR)
                    && self.value is Symbol),
            },
    {
        match &self.value {
            KValue::Symbol(s) if self.qtype == qtype::STRING || self.qtype == qtype::ERROR => Ok(
                s.as_str(),
            ),
            _ => Err(Error::invalid_operation("as_string", self.qtype)),
        }
    }

    /// Context and body of a lambda.
    pub fn as_lambda(&self) -> (r: Result<(&str, &str), Error>)
        ensures
            match r {
                Ok(p) => self.value matches KValue::Lambda(c, b) && p.0@ == c@ && p.1@ == b@,
                Err(_) => !(self.value is Lambda),
            },
    {
        match &self.value {
            KValue::Lambda(c, b) => Ok((c.as_str(), b.as_str())),
            _ => Err(Error::invalid_operation("as_lambda", self.qtype)),
        }
    }

    /// The column dictionary under a table.
    pub fn get_dictionary(&self) -> (r: Result<&K, Error>)
        ensures
            match r {
                Ok(d) => self.value is Table && *d == self.table_dict(),
                Err(_) => !(self.value is Table),
            },
    {
        match &self.value {
            KValue::Table(d) => Ok(&**d),
            _ => Err(Error::invalid_operation("get_dictionary", self.qtype)),
        }
    }

    pub fn as_vec_byte(&self) -> (r: Result<&Vec<u8>, Error>)
        ensures
            match r {
                Ok(v) => self.value == KValue::ByteList(*v),
                Err(_) => !(self.value is ByteList),
            },
    {
        match &self.value {
            KValue::ByteList(v) => Ok(v),
            _ => Err(Error::invalid_operation("as_vec_byte", self.qtype)),
        }
    }

    pub fn as_vec_guid(&self) -> (r: Result<&Vec<[u8; 16]>, Error>)
        ensures
            match r {
                Ok(v) => self.value == KValue::GuidList(*v),
                Err(_) => !(self.value is GuidList),
            },
    {
        match &self.value {
            KValue::GuidList(v) => Ok(v),
            _ => Err(Error::invalid_operation("as_vec_guid", self.qtype)),
        }
    }

    pub fn as_vec_short(&self) -> (r: Result<&Vec<i16>, Error>)
        ensures
            match r {
                Ok(v) => self.value == KValue::ShortList(*v),
                Err(_) => !(self.value is ShortList),
            },
    {
        match &self.value {
            KValue::ShortList(v) => Ok(v),
            _ => Err(Error::invalid_operation("as_vec_short", self.qtype)),
        }
    }

    /// The elements of any 4-byte integer list, including the indices of an
    /// enum list.
    pub fn as_vec_int(&self) -> (r: Result<&Vec<i32>, Error>)
        ensures
            match r {
                Ok(v) => self.value == KValue::IntList(*v) || (self.value matches KValue::EnumList(
                    _,
                    x,
                ) && x == *v),
                Err(_) => !(self.value is IntList) && !(self.value is EnumList),
            },
    {
        match &self.value {
            KValue::IntList(v) => Ok(v),
            KValue::EnumList(_, v) => Ok(v),
            _ => Err(Error::invalid_operation("as_vec_int", self.qtype)),
        }
    }

    pub fn as_vec_long(&self) -> (r: Result<&Vec<i64>, Error>)
        ensures
            match r {
                Ok(v) => self.value == KValue::LongList(*v),
                Err(_) => !(self.value is LongList),
            },
    {
        match &self.value {
            KValue::LongList(v) => Ok(v),
            _ => Err(Error::invalid_operation("as_vec_long", self.qtype)),
        }
    }

    /// IEEE-754 bit patterns of a real list.
    pub fn as_vec_real(&self) -> (r: Result<&Vec<u32>, Error>)
        ensures
            match r {
                Ok(v) => self.value == KValue::RealList(*v),
                Err(_) => !(self.value is RealList),
            },
    {
        match &self.value {
            KValue::RealList(v) => Ok(v),
            _ => Err(Error::invalid_operation("as_vec_real", self.qtype)),
        }
    }

    /// IEEE-754 bit patterns of a float or datetime list.
    pub fn as_vec_float(&self) -> (r: Result<&Vec<u64>, Error>)
        ensures
            match r {
                Ok(v) => self.value == KValue::FloatList(*v),
                Err(_) => !(self.value is FloatList),
            },
    {
        match &self.value {
            KValue::FloatList(v) => Ok(v),
            _ => Err(Error::invalid_operation("as_vec_float", self.qtype)),
        }
    }

    pub fn as_vec_symbol(&self) -> (r: Result<&Vec<String>, Error>)
        ensures
            match r {
                Ok(v) => self.value == KValue::SymbolList(*v),
                Err(_) => !(self.value is SymbolList),
            },
    {
        match &self.value {
            KValue::SymbolList(v) => Ok(v),
            _ => Err(Error::invalid_operation("as_vec_symbol", self.qtype)),
        }
    }

    /// The elements of a compound list, or the keys/values pair of a
    /// dictionary.
    pub fn as_vec_k(&self) -> (r: Result<&Vec<K>, Error>)
        ensures
            match r {
                Ok(v) => self.value == KValue::CompoundList(*v),
                Err(_) => !(self.value is CompoundList),
            },
    {
        match &self.value {
            KValue::CompoundList(v) => Ok(v),
            _ => Err(Error::invalid_operation("as_vec_k", self.qtype)),
        }
    }
}

impl Clone for K {
    /// Structural copy; the result is `k_eq` to the original.
    fn clone(&self) -> (r: K)
        ensures
            k_eq(r, *self),
    {
        self.deep_copy()
    }
}

/// Element-for-element copy of a vector of `Copy` values.
fn copy_vec<T: Copy>(v: &Vec<T>) -> (r: Vec<T>)
    ensures
        r@ == v@,
{
    let mut r: Vec<T> = Vec::new();
    let mut i: usize = 0;
    while i < v.len()
        invariant
            i <= v@.len(),
            r@ =~= v@.take(i as int),
        decreases v@.len() - i,
    {
        r.push(v[i]);
        proof {
            assert(v@.take(i + 1) =~= v@.take(i as int).push(v@[i as int]));
        }
        i = i + 1;
    }
    proof {
        assert(v@.take(v@.len() as int) =~= v@);
    }
    r
}

/// Copy of a vector of strings, element views preserved.
fn copy_vec_string(v: &Vec<String>) -> (r: Vec<String>)
    ensures
        r@.len() == v@.len(),
        forall|i: int| 0 <= i < v@.len() ==> (#[trigger] r@[i])@ == v@[i]@,
{
    let mut r: Vec<String> = Vec::new();
    let mut i: usize = 0;
    while i < v.len()
        invariant
            i <= v@.len(),
            r@.len() == i,
            forall|j: int| 0 <= j < i ==> (#[trigger] r@[j])@ == v@[j]@,
        decreases v@.len() - i,
    {
        r.push(v[i].clone());
        i = i + 1;
    }
    r
}

} // verus!
