//! Positional, key and column access for K containers.
//!
//! Dictionaries are indexed by position (0 = keys, 1 = values) or looked up
//! by key; tables are accessed by column name.  Every lookup states exactly
//! which element is returned (the first match) and, for the mutating
//! variants, how the new container relates to the old one.

use vstd::prelude::*;
use vstd::string::StringExecFns;
use crate::error::Error;
use crate::qtype;
use crate::types::{K, KValue};

verus! {

/// Whether element `j` of the `keys` list equals the `target` key.
/// Symbol, long, int and float (bit-for-bit) keys are supported; an enum
/// atom matches an int key by its index.
pub open spec fn key_at_matches(keys: K, target: K, j: int) -> bool {
    match keys.value {
        KValue::SymbolList(v) => 0 <= j < v@.len() && target.qtype == qtype::SYMBOL_ATOM && (
        target.value matches KValue::Symbol(s) && v@[j]@ == s@),
        KValue::LongList(v) => 0 <= j < v@.len() && (target.value matches KValue::Long(x) && v@[j]
            == x),
        KValue::IntList(v) => 0 <= j < v@.len() && ((target.value matches KValue::Int(x) && v@[j]
            == x) || (target.value matches KValue::Enum(_, x) && v@[j] == x)),
        KValue::FloatList(v) => 0 <= j < v@.len() && (target.value matches KValue::Float(b)
            && v@[j] == b),
        _ => false,
    }
}

/// Element `j` is the first match of `target` in the `keys` list.
pub open spec fn first_key_match_at(keys: K, target: K, j: int) -> bool {
    key_at_matches(keys, target, j) && (forall|i: int| 0 <= i < j ==> !key_at_matches(keys, target, i))
}

/// Whether an owned element can be extracted at index `i` of this list:
/// the index is inside a typed or compound list.
pub open spec fn element_extractable(list: K, i: int) -> bool {
    match list.value {
        KValue::LongList(v) => 0 <= i < v@.len(),
        KValue::IntList(v) => 0 <= i < v@.len(),
        KValue::ShortList(v) => 0 <= i < v@.len(),
        KValue::ByteList(v) => 0 <= i < v@.len(),
        KValue::FloatList(v) => 0 <= i < v@.len(),
        KValue::RealList(v) => 0 <= i < v@.len(),
        KValue::SymbolList(v) => 0 <= i < v@.len(),
        KValue::CompoundList(v) => 0 <= i < v@.len(),
        _ => false,
    }
}

/// Whether `set_value` can store `nv` at index `i` of the value list
/// `vals`: the index is inside the list and the replacement's payload
/// matches the list's element type.
pub open spec fn replacement_accepted(vals: K, nv: K, i: int) -> bool {
    match vals.value {
        KValue::LongList(v) => 0 <= i < v@.len() && nv.value is Long,
        KValue::IntList(v) => 0 <= i < v@.len() && (nv.value is Int || nv.value is Enum),
        KValue::ShortList(v) => 0 <= i < v@.len() && nv.value is Short,
        KValue::ByteList(v) => 0 <= i < v@.len() && nv.value is Byte,
        KValue::FloatList(v) => 0 <= i < v@.len() && nv.value is Float,
        KValue::RealList(v) => 0 <= i < v@.len() && nv.value is Real,
        KValue::SymbolList(v) => 0 <= i < v@.len() && nv.qtype == crate::qtype::SYMBOL_ATOM
            && nv.value is Symbol,
        KValue::CompoundList(v) => 0 <= i < v@.len(),
        _ => false,
    }
}

/// Relation between a dictionary's old value list, a replacement value and
/// the new value list after `set_value` stored the replacement at index
/// `i`: the list type is kept and only element `i` changes.
pub open spec fn set_element_at(oldvals: K, nv: K, newvals: K, i: int) -> bool {
    match (oldvals.value, newvals.value) {
        (KValue::LongList(a), KValue::LongList(b)) => nv.value matches KValue::Long(x) && b@
            == a@.update(i, x),
        (KValue::IntList(a), KValue::IntList(b)) => (nv.value matches KValue::Int(x) && b@
            == a@.update(i, x)) || (nv.value matches KValue::Enum(_, x) && b@ == a@.update(i, x)),
        (KValue::ShortList(a), KValue::ShortList(b)) => nv.value matches KValue::Short(x) && b@
            == a@.update(i, x),
        (KValue::ByteList(a), KValue::ByteList(b)) => nv.value matches KValue::Byte(x) && b@
            == a@.update(i, x),
        (KValue::FloatList(a), KValue::FloatList(b)) => nv.value matches KValue::Float(x) && b@
            == a@.update(i, x),
        (KValue::RealList(a), KValue::RealList(b)) => nv.value matches KValue::Real(x) && b@
            == a@.update(i, x),
        (KValue::SymbolList(a), KValue::SymbolList(b)) => nv.qtype == qtype::SYMBOL_ATOM && (
        nv.value matches KValue::Symbol(s) && b@.len() == a@.len() && 0 <= i < a@.len()
            && b@[i]@ == s@ && (forall|j: int| 0 <= j < a@.len() && j != i ==> b@[j] == a@[j])),
        (KValue::CompoundList(a), KValue::CompoundList(b)) => b@ == a@.update(i, nv),
        _ => false,
    }
}

impl K {
    /// Find the first index of `target` in this key list.  `Err` means no
    /// element matches (in particular when the key-list type or the key
    /// type is unsupported).
    #[verifier::loop_isolation(false)]
    pub fn find_key_index(&self, target: &K) -> (r: Result<usize, Error>)
        ensures
            match r {
                Ok(i) => key_at_matches(*self, *target, i as int) && (forall|j: int|
                    0 <= j < i ==> !key_at_matches(*self, *target, j)),
                Err(_) => forall|j: int| !key_at_matches(*self, *target, j),
            },
    {
        match &self.value {
            KValue::SymbolList(v) => {
                match &target.value {
                    KValue::Symbol(s) if target.qtype == qtype::SYMBOL_ATOM => {
                        let mut i: usize = 0;
                        while i < v.len()
                            invariant
                                i <= v@.len(),
                                forall|j: int| 0 <= j < i ==> !key_at_matches(*self, *target, j),
                                self.value == KValue::SymbolList(*v),
                                target.value == KValue::Symbol(*s),
                            decreases v@.len() - i,
                        {
                            if v[i].eq(s) {
                                return Ok(i);
                            }
                            i = i + 1;
                        }
                        Err(Error::NoSuchColumn(s.clone()))
                    },
                    _ => Err(Error::invalid_operation("find_key_index", self.qtype)),
                }
            },
            KValue::LongList(v) => {
                match &target.value {
                    KValue::Long(x) => {
                        let mut i: usize = 0;
                        while i < v.len()
                            invariant
                                i <= v@.len(),
                                forall|j: int| 0 <= j < i ==> !key_at_matches(*self, *target, j),
                                self.value == KValue::LongList(*v),
                                target.value == KValue::Long(*x),
                            decreases v@.len() - i,
                        {
                            if v[i] == *x {
                                return Ok(i);
                            }
                            i = i + 1;
                        }
                        Err(Error::NoSuchColumn(String::from_str("key not found")))
                    },
                    _ => Err(Error::invalid_operation("find_key_index", self.qtype)),
                }
            },
            KValue::IntList(v) => {
                let x = match target.get_int() {
                    Ok(x) => x,
                    Err(er) => {
                        return Err(er);
                    },
                };
                let mut i: usize = 0;
                while i < v.len()
                    invariant
                        i <= v@.len(),
                        forall|j: int| 0 <= j < i ==> !key_at_matches(*self, *target, j),
                        self.value == KValue::IntList(*v),
                        (target.value matches KValue::Int(y) && y == x) || (target.value matches
                            KValue::Enum(_, y) && y == x),
                    decreases v@.len() - i,
                {
                    if v[i] == x {
                        return Ok(i);
                    }
                    i = i + 1;
                }
                Err(Error::NoSuchColumn(String::from_str("key not found")))
            },
            KValue::FloatList(v) => {
                match &target.value {
                    KValue::Float(b) => {
                        let mut i: usize = 0;
                        while i < v.len()
                            invariant
                                i <= v@.len(),
                                forall|j: int| 0 <= j < i ==> !key_at_matches(*self, *target, j),
                                self.value == KValue::FloatList(*v),
                                target.value == KValue::Float(*b),
                            decreases v@.len() - i,
                        {
                            if v[i] == *b {
                                return Ok(i);
                            }
                            i = i + 1;
                        }
                        Err(Error::NoSuchColumn(String::from_str("key not found")))
                    },
                    _ => Err(Error::invalid_operation("find_key_index", self.qtype)),
                }
            },
            _ => Err(Error::invalid_operation("find_key_index", self.qtype)),
        }
    }

    /// Element of a dictionary or compound list by position (for a
    /// dictionary, 0 is the keys object and 1 the values object).
    pub fn try_index(&self, idx: usize) -> (r: Result<&K, Error>)
        ensures
            match r {
                Ok(c) => self.value matches KValue::CompoundList(v) && idx < v@.len() && *c
                    == v@[idx as int],
                Err(e) => !(self.value is CompoundList) || (self.value matches
                    KValue::CompoundList(v) && idx >= v@.len()),
            },
    {
        match &self.value {
            KValue::CompoundList(v) => {
                if idx < v.len() {
                    Ok(&v[idx])
                } else {
                    Err(Error::index_out_of_bounds(v.len(), idx))
                }
            },
            _ => Err(Error::invalid_operation("try_index", self.qtype)),
        }
    }

    /// Mutable element of a dictionary or compound list by position.
    pub fn try_index_mut(&mut self, idx: usize) -> (r: Result<&mut K, Error>)
        ensures
            match r {
                Ok(c) => {
                    &&& old(self).value matches KValue::CompoundList(v) && idx < v@.len() && *c
                        == v@[idx as int]
                    &&& final(self).qtype == old(self).qtype
                    &&& final(self).attribute == old(self).attribute
                    &&& final(self).children() == old(self).children().update(
                        idx as int,
                        *final(c),
                    )
                    &&& final(self).value is CompoundList
                },
                Err(_) => *final(self) == *old(self) && (!(old(self).value is CompoundList) || (old(
                    self,
                ).value matches KValue::CompoundList(v) && idx >= v@.len())),
            },
    {
        match &mut self.value {
            KValue::CompoundList(v) => {
                if idx < v.len() {
                    Ok(&mut v[idx])
                } else {
                    let l = v.len();
                    Err(Error::index_out_of_bounds(l, idx))
                }
            },
            _ => Err(Error::invalid_operation("try_index_mut", self.qtype)),
        }
    }

    /// Column of a table by name: the value at the first matching column
    /// name.
    pub fn get_column(&self, column: &str) -> (r: Result<&K, Error>)
        ensures
            match r {
                Ok(c) => self.qtype == qtype::TABLE && (self.table_dict().children()[0].value
                    matches KValue::SymbolList(names) && self.table_dict().children()[1].value
                    matches KValue::CompoundList(cols) && (exists|i: int|
                    0 <= i < names@.len() && i < cols@.len() && (#[trigger] names@[i])@ == column@
                        && *c == cols@[i])),
                Err(_) => !(self.qtype == qtype::TABLE && (self.value matches KValue::Table(d)
                    && (d.value matches KValue::CompoundList(pair) && pair@.len() >= 2 && (
                pair@[0].value matches KValue::SymbolList(names) && (pair@[1].value matches
                    KValue::CompoundList(cols) && (exists|i: int|
                    0 <= i < names@.len() && i < cols@.len() && (#[trigger] names@[i])@
                        == column@)))))),
            },
    {
        self.get_column_impl(column)
    }

    /// Column of a table by name; one lookup under two customary names.
    pub fn try_column(&self, column: &str) -> (r: Result<&K, Error>)
        ensures
            match r {
                Ok(c) => self.qtype == qtype::TABLE && (self.table_dict().children()[0].value
                    matches KValue::SymbolList(names) && self.table_dict().children()[1].value
                    matches KValue::CompoundList(cols) && (exists|i: int|
                    0 <= i < names@.len() && i < cols@.len() && (#[trigger] names@[i])@ == column@
                        && *c == cols@[i])),
                Err(_) => !(self.qtype == qtype::TABLE && (self.value matches KValue::Table(d)
                    && (d.value matches KValue::CompoundList(pair) && pair@.len() >= 2 && (
                pair@[0].value matches KValue::SymbolList(names) && (pair@[1].value matches
                    KValue::CompoundList(cols) && (exists|i: int|
                    0 <= i < names@.len() && i < cols@.len() && (#[trigger] names@[i])@
                        == column@)))))),
            },
    {
        self.get_column_impl(column)
    }

    #[verifier::loop_isolation(false)]
    fn get_column_impl(&self, column: &str) -> (r: Result<&K, Error>)
        ensures
            match r {
                Ok(c) => self.qtype == qtype::TABLE && (self.table_dict().children()[0].value
                    matches KValue::SymbolList(names) && self.table_dict().children()[1].value
                    matches KValue::CompoundList(cols) && (exists|i: int|
                    0 <= i < names@.len() && i < cols@.len() && (#[trigger] names@[i])@ == column@
                        && *c == cols@[i])),
                Err(_) => !(self.qtype == qtype::TABLE && (self.value matches KValue::Table(d)
                    && (d.value matches KValue::CompoundList(pair) && pair@.len() >= 2 && (
                pair@[0].value matches KValue::SymbolList(names) && (pair@[1].value matches
                    KValue::CompoundList(cols) && (exists|i: int|
                    0 <= i < names@.len() && i < cols@.len() && (#[trigger] names@[i])@
                        == column@)))))),
            },
    {
        if self.get_type() != qtype::TABLE {
            return Err(Error::invalid_operation("get_column", self.qtype));
        }
        let d = match &self.value {
            KValue::Table(d) => &**d,
            _ => {
                return Err(Error::invalid_operation("get_column", self.qtype));
            },
        };
        let pair = match &d.value {
            KValue::CompoundList(pair) => pair,
            _ => {
                return Err(Error::invalid_operation("get_column", self.qtype));
            },
        };
        if pair.len() < 2 {
            return Err(Error::invalid_operation("get_column", self.qtype));
        }
        let names = match &pair[0].value {
            KValue::SymbolList(names) => names,
            _ => {
                return Err(Error::invalid_operation("get_column", self.qtype));
            },
        };
        let cols = match &pair[1].value {
            KValue::CompoundList(cols) => cols,
            _ => {
                return Err(Error::invalid_operation("get_column", self.qtype));
            },
        };
        let target = String::from_str(column);
        let mut i: usize = 0;
        while i < names.len()
            invariant
                i <= names@.len(),
                target@ == column@,
                self.qtype == qtype::TABLE,
                self.table_dict().children()[0].value == KValue::SymbolList(*names),
                self.table_dict().children()[1].value == KValue::CompoundList(*cols),
                forall|j: int| 0 <= j < i ==> (#[trigger] names@[j])@ != column@,
            decreases names@.len() - i,
        {
            if names[i].eq(&target) {
                if i < cols.len() {
                    return Ok(&cols[i]);
                } else {
                    return Err(Error::index_out_of_bounds(cols.len(), i));
                }
            }
            i = i + 1;
        }
        Err(Error::NoSuchColumn(target))
    }

    /// Mutable column of a table by name.
    pub fn get_mut_column(&mut self, column: &str) -> (r: Result<&mut K, Error>)
        ensures
            match r {
                Ok(c) => {
                    &&& old(self).qtype == qtype::TABLE
                    &&& (old(self).table_dict().children()[0].value matches KValue::SymbolList(
                        names,
                    ) && old(self).table_dict().children()[1].value matches KValue::CompoundList(
                        cols,
                    ) && (exists|i: int|
                        0 <= i < names@.len() && i < cols@.len() && (#[trigger] names@[i])@
                            == column@ && *c == cols@[i] && final(self).qtype == qtype::TABLE
                            && final(self).table_dict().children()[0]
                            == old(self).table_dict().children()[0]
                            && final(self).table_dict().children()[1].children()
                            == cols@.update(i, *final(c))))
                },
                Err(_) => *final(self) == *old(self) && !(old(self).qtype == qtype::TABLE && (
                old(self).value matches KValue::Table(d) && (d.value matches
                    KValue::CompoundList(pair) && pair@.len() >= 2 && (pair@[0].value matches
                    KValue::SymbolList(names) && (pair@[1].value matches KValue::CompoundList(
                    cols,
                ) && (exists|i: int|
                    0 <= i < names@.len() && i < cols@.len() && (#[trigger] names@[i])@
                        == column@)))))),
            },
    {
        self.get_mut_column_impl(column)
    }

    /// Mutable column of a table by name; one lookup under two customary names.
    pub fn try_column_mut(&mut self, column: &str) -> (r: Result<&mut K, Error>)
        ensures
            match r {
                Ok(c) => {
                    &&& old(self).qtype == qtype::TABLE
                    &&& (old(self).table_dict().children()[0].value matches KValue::SymbolList(
                        names,
                    ) && old(self).table_dict().children()[1].value matches KValue::CompoundList(
                        cols,
                    ) && (exists|i: int|
                        0 <= i < names@.len() && i < cols@.len() && (#[trigger] names@[i])@
                            == column@ && *c == cols@[i] && final(self).qtype == qtype::TABLE
                            && final(self).table_dict().children()[0]
                            == old(self).table_dict().children()[0]
                            && final(self).table_dict().children()[1].children()
                            == cols@.update(i, *final(c))))
                },
                Err(_) => *final(self) == *old(self) && !(old(self).qtype == qtype::TABLE && (
                old(self).value matches KValue::Table(d) && (d.value matches
                    KValue::CompoundList(pair) && pair@.len() >= 2 && (pair@[0].value matches
                    KValue::SymbolList(names) && (pair@[1].value matches KValue::CompoundList(
                    cols,
                ) && (exists|i: int|
                    0 <= i < names@.len() && i < cols@.len() && (#[trigger] names@[i])@
                        == column@)))))),
            },
    {
        self.get_mut_column_impl(column)
    }

    fn get_mut_column_impl(&mut self, column: &str) -> (r: Result<&mut K, Error>)
        ensures
            match r {
                Ok(c) => {
                    &&& old(self).qtype == qtype::TABLE
                    &&& (old(self).table_dict().children()[0].value matches KValue::SymbolList(
                        names,
                    ) && old(self).table_dict().children()[1].value matches KValue::CompoundList(
                        cols,
                    ) && (exists|i: int|
                        0 <= i < names@.len() && i < cols@.len() && (#[trigger] names@[i])@
                            == column@ && *c == cols@[i] && final(self).qtype == qtype::TABLE
                            && final(self).table_dict().children()[0]
                            == old(self).table_dict().children()[0]
                            && final(self).table_dict().children()[1].children()
                            == cols@.update(i, *final(c))))
                },
                Err(_) => *final(self) == *old(self) && !(old(self).qtype == qtype::TABLE && (
                old(self).value matches KValue::Table(d) && (d.value matches
                    KValue::CompoundList(pair) && pair@.len() >= 2 && (pair@[0].value matches
                    KValue::SymbolList(names) && (pair@[1].value matches KValue::CompoundList(
                    cols,
                ) && (exists|i: int|
                    0 <= i < names@.len() && i < cols@.len() && (#[trigger] names@[i])@
                        == column@)))))),
            },
    {
        // locate the column first, without touching the structure
        let idx: usize;
        let found = self.find_column_index(column);
        match found {
            Some(i) => {
                idx = i;
            },
            None => {
                return Err(Error::NoSuchColumn(String::from_str(column)));
            },
        }
        match &mut self.value {
            KValue::Table(d) => {
                match &mut (**d).value {
                    KValue::CompoundList(pair) => {
                        if pair.len() >= 2 {
                            let vals = &mut pair[1];
                            match &mut vals.value {
                                KValue::CompoundList(cols) => {
                                    if idx < cols.len() {
                                        return Ok(&mut cols[idx]);
                                    }
                                },
                                _ => {},
                            }
                        }
                    },
                    _ => {},
                }
            },
            _ => {},
        }
        Err(Error::NoSuchColumn(String::from_str(column)))
    }

    /// Look up a value by key in a dictionary with compound-list values:
    /// the value at the first matching key.
    #[verifier::loop_isolation(false)]
    pub fn try_find(&self, key: &K) -> (r: Result<&K, Error>)
        ensures
            match r {
                Ok(c) => (self.qtype == qtype::DICTIONARY || self.qtype
                    == qtype::SORTED_DICTIONARY) && (self.value matches KValue::CompoundList(pair)
                    && pair@.len() >= 2 && (pair@[1].value matches KValue::CompoundList(vals) && (
                exists|i: int|
                    #![trigger key_at_matches(pair@[0], *key, i)]
                    {
                        &&& first_key_match_at(pair@[0], *key, i)
                        &&& 0 <= i < vals@.len()
                        &&& *c == vals@[i]
                    }))),
                Err(_) => !((self.qtype == qtype::DICTIONARY || self.qtype
                    == qtype::SORTED_DICTIONARY) && (self.value matches KValue::CompoundList(pair)
                    && pair@.len() >= 2 && (pair@[1].value matches KValue::CompoundList(vals) && (
                exists|i: int|
                    #![trigger key_at_matches(pair@[0], *key, i)]
                    first_key_match_at(pair@[0], *key, i) && 0 <= i < vals@.len())))),
            },
    {
        if self.get_type() != qtype::DICTIONARY && self.get_type() != qtype::SORTED_DICTIONARY {
            return Err(Error::invalid_operation("try_find", self.qtype));
        }
        let pair = match &self.value {
            KValue::CompoundList(pair) => pair,
            _ => {
                return Err(Error::invalid_operation("try_find", self.qtype));
            },
        };
        if pair.len() < 2 {
            return Err(Error::invalid_operation("try_find", self.qtype));
        }
        let i = match pair[0].find_key_index(key) {
            Ok(i) => i,
            Err(er) => {
                return Err(er);
            },
        };
        let vals = match &pair[1].value {
            KValue::CompoundList(vals) => vals,
            _ => {
                return Err(Error::invalid_operation("try_find", pair[1].get_type()));
            },
        };
        if i < vals.len() {
            Ok(&vals[i])
        } else {
            Err(Error::index_out_of_bounds(vals.len(), i))
        }
    }

    /// Internal alias used by positional lookup paths.
    pub fn find_value(&self, key: &K) -> (r: Result<&K, Error>)
        ensures
            match r {
                Ok(c) => (self.qtype == qtype::DICTIONARY || self.qtype
                    == qtype::SORTED_DICTIONARY) && (self.value matches KValue::CompoundList(pair)
                    && pair@.len() >= 2 && (pair@[1].value matches KValue::CompoundList(vals) && (
                exists|i: int|
                    #![trigger key_at_matches(pair@[0], *key, i)]
                    {
                        &&& key_at_matches(pair@[0], *key, i)
                        &&& forall|j: int| 0 <= j < i ==> !key_at_matches(pair@[0], *key, j)
                        &&& 0 <= i < vals@.len()
                        &&& *c == vals@[i]
                    }))),
                Err(_) => !((self.qtype == qtype::DICTIONARY || self.qtype
                    == qtype::SORTED_DICTIONARY) && (self.value matches KValue::CompoundList(pair)
                    && pair@.len() >= 2 && (pair@[1].value matches KValue::CompoundList(vals) && (
                exists|i: int|
                    #![trigger key_at_matches(pair@[0], *key, i)]
                    first_key_match_at(pair@[0], *key, i) && 0 <= i < vals@.len())))),
            },
    {
        self.try_find(key)
    }

    /// Mutable lookup by key in a dictionary with compound-list values.
    #[verifier::loop_isolation(false)]
    pub fn try_find_mut(&mut self, key: &K) -> (r: Result<&mut K, Error>)
        ensures
            match r {
                Ok(c) => (old(self).qtype == qtype::DICTIONARY || old(self).qtype
                    == qtype::SORTED_DICTIONARY) && (old(self).value matches
                    KValue::CompoundList(pair) && pair@.len() >= 2 && (pair@[1].value matches
                    KValue::CompoundList(vals) && (exists|i: int|
                    #![trigger key_at_matches(pair@[0], *key, i)]
                    {
                        &&& key_at_matches(pair@[0], *key, i)
                        &&& forall|j: int| 0 <= j < i ==> !key_at_matches(pair@[0], *key, j)
                        &&& 0 <= i < vals@.len()
                        &&& *c == vals@[i]
                        &&& final(self).qtype == old(self).qtype
                        &&& final(self).attribute == old(self).attribute
                        &&& final(self).children().len() == pair@.len()
                        &&& final(self).children()[0] == pair@[0]
                        &&& final(self).children()[1].qtype == pair@[1].qtype
                        &&& final(self).children()[1].attribute == pair@[1].attribute
                        &&& final(self).children()[1].children() == vals@.update(i, *final(c))
                    }))),
                Err(_) => *final(self) == *old(self) && !((old(self).qtype == qtype::DICTIONARY
                    || old(self).qtype == qtype::SORTED_DICTIONARY) && (old(self).value matches
                    KValue::CompoundList(pair) && pair@.len() >= 2 && (pair@[1].value matches
                    KValue::CompoundList(vals) && (exists|i: int|
                    #![trigger key_at_matches(pair@[0], *key, i)]
                    first_key_match_at(pair@[0], *key, i) && 0 <= i < vals@.len())))),
            },
    {
        if self.get_type() != qtype::DICTIONARY && self.get_type() != qtype::SORTED_DICTIONARY {
            return Err(Error::invalid_operation("try_find_mut", self.qtype));
        }
        let i: usize;
        {
            let pair = match &self.value {
                KValue::CompoundList(pair) => pair,
                _ => {
                    return Err(Error::invalid_operation("try_find_mut", self.qtype));
                },
            };
            if pair.len() < 2 {
                return Err(Error::invalid_operation("try_find_mut", self.qtype));
            }
            i = match pair[0].find_key_index(key) {
                Ok(i) => i,
                Err(er) => {
                    return Err(er);
                },
            };
            match &pair[1].value {
                KValue::CompoundList(vals) => {
                    if i >= vals.len() {
                        return Err(Error::index_out_of_bounds(vals.len(), i));
                    }
                },
                _ => {
                    return Err(Error::invalid_operation("try_find_mut", pair[1].get_type()));
                },
            }
        }
        match &mut self.value {
            KValue::CompoundList(pair) => {
                let vals_k = &mut pair[1];
                match &mut vals_k.value {
                    KValue::CompoundList(vals) => {
                        if i < vals.len() {
                            return Ok(&mut vals[i]);
                        }
                    },
                    _ => {},
                }
            },
            _ => {},
        }
        Err(Error::invalid_operation("try_find_mut", qtype::DICTIONARY))
    }

    /// Internal alias used by positional lookup paths.
    pub fn find_value_mut(&mut self, key: &K) -> (r: Result<&mut K, Error>)
        ensures
            match r {
                Ok(c) => (old(self).qtype == qtype::DICTIONARY || old(self).qtype
                    == qtype::SORTED_DICTIONARY) && (old(self).value matches
                    KValue::CompoundList(pair) && pair@.len() >= 2 && (pair@[1].value matches
                    KValue::CompoundList(vals) && (exists|i: int|
                    #![trigger key_at_matches(pair@[0], *key, i)]
                    {
                        &&& key_at_matches(pair@[0], *key, i)
                        &&& forall|j: int| 0 <= j < i ==> !key_at_matches(pair@[0], *key, j)
                        &&& 0 <= i < vals@.len()
                        &&& *c == vals@[i]
                        &&& final(self).qtype == old(self).qtype
                        &&& final(self).attribute == old(self).attribute
                        &&& final(self).children().len() == pair@.len()
                        &&& final(self).children()[0] == pair@[0]
                        &&& final(self).children()[1].qtype == pair@[1].qtype
                        &&& final(self).children()[1].attribute == pair@[1].attribute
                        &&& final(self).children()[1].children() == vals@.update(i, *final(c))
                    }))),
                Err(_) => *final(self) == *old(self) && !((old(self).qtype == qtype::DICTIONARY
                    || old(self).qtype == qtype::SORTED_DICTIONARY) && (old(self).value matches
                    KValue::CompoundList(pair) && pair@.len() >= 2 && (pair@[1].value matches
                    KValue::CompoundList(vals) && (exists|i: int|
                    #![trigger key_at_matches(pair@[0], *key, i)]
                    first_key_match_at(pair@[0], *key, i) && 0 <= i < vals@.len())))),
            },
    {
        self.try_find_mut(key)
    }

    /// Extract element `index` of any list as an owned K value: typed lists
    /// produce the matching atom, a compound list a structural copy of the
    /// element.
    pub fn get_list_element_at(&self, index: usize) -> (r: Result<K, Error>)
        ensures
            match r {
                Ok(k) => match self.value {
                    KValue::LongList(v) => index < v@.len() && k.qtype == qtype::LONG_ATOM
                        && k.value == KValue::Long(v@[index as int]),
                    KValue::IntList(v) => index < v@.len() && k.qtype == qtype::INT_ATOM && k.value
                        == KValue::Int(v@[index as int]),
                    KValue::ShortList(v) => index < v@.len() && k.qtype == qtype::SHORT_ATOM
                        && k.value == KValue::Short(v@[index as int]),
                    KValue::ByteList(v) => index < v@.len() && k.qtype == qtype::BYTE_ATOM
                        && k.value == KValue::Byte(v@[index as int]),
                    KValue::FloatList(v) => index < v@.len() && k.qtype == qtype::FLOAT_ATOM
                        && k.value == KValue::Float(v@[index as int]),
                    KValue::RealList(v) => index < v@.len() && k.qtype == qtype::REAL_ATOM
                        && k.value == KValue::Real(v@[index as int]),
                    KValue::SymbolList(v) => index < v@.len() && k.qtype == qtype::SYMBOL_ATOM && (
                    k.value matches KValue::Symbol(s) && s@ == v@[index as int]@),
                    KValue::CompoundList(v) => index < v@.len() && crate::types::k_eq(
                        k,
                        v@[index as int],
                    ),
                    _ => false,
                },
                Err(_) => !element_extractable(*self, index as int),
            },
    {
        match &self.value {
            KValue::LongList(v) => {
                if index < v.len() {
                    Ok(K::new_long(v[index]))
                } else {
                    Err(Error::index_out_of_bounds(v.len(), index))
                }
            },
            KValue::IntList(v) => {
                if index < v.len() {
                    Ok(K::new_int(v[index]))
                } else {
                    Err(Error::index_out_of_bounds(v.len(), index))
                }
            },
            KValue::ShortList(v) => {
                if index < v.len() {
                    Ok(K::new_short(v[index]))
                } else {
                    Err(Error::index_out_of_bounds(v.len(), index))
                }
            },
            KValue::ByteList(v) => {
                if index < v.len() {
                    Ok(K::new_byte(v[index]))
                } else {
                    Err(Error::index_out_of_bounds(v.len(), index))
                }
            },
            KValue::FloatList(v) => {
                if index < v.len() {
                    Ok(K::new_float(v[index]))
                } else {
                    Err(Error::index_out_of_bounds(v.len(), index))
                }
            },
            KValue::RealList(v) => {
                if index < v.len() {
                    Ok(K::new_real(v[index]))
                } else {
                    Err(Error::index_out_of_bounds(v.len(), index))
                }
            },
            KValue::SymbolList(v) => {
                if index < v.len() {
                    Ok(K::new_symbol(v[index].clone()))
                } else {
                    Err(Error::index_out_of_bounds(v.len(), index))
                }
            },
            KValue::CompoundList(v) => {
                if index < v.len() {
                    Ok(v[index].deep_copy())
                } else {
                    Err(Error::index_out_of_bounds(v.len(), index))
                }
            },
            _ => Err(Error::invalid_operation("get_list_element_at", self.qtype)),
        }
    }

    /// Look up a value by key in a dictionary, returning an owned value;
    /// works with typed value lists (producing the matching atom) as well
    /// as compound value lists.
    pub fn try_find_owned(&self, key: &K) -> (r: Result<K, Error>)
        ensures
            match r {
                Ok(k) => (self.qtype == qtype::DICTIONARY || self.qtype
                    == qtype::SORTED_DICTIONARY) && (self.value matches KValue::CompoundList(pair)
                    && pair@.len() >= 2 && (exists|i: int|
                    #![trigger key_at_matches(pair@[0], *key, i)]
                    {
                        &&& key_at_matches(pair@[0], *key, i)
                        &&& forall|j: int| 0 <= j < i ==> !key_at_matches(pair@[0], *key, j)
                        &&& match pair@[1].value {
                            KValue::LongList(v) => i < v@.len() && k.qtype == qtype::LONG_ATOM
                                && k.value == KValue::Long(v@[i]),
                            KValue::IntList(v) => i < v@.len() && k.qtype == qtype::INT_ATOM
                                && k.value == KValue::Int(v@[i]),
                            KValue::ShortList(v) => i < v@.len() && k.qtype == qtype::SHORT_ATOM
                                && k.value == KValue::Short(v@[i]),
                            KValue::ByteList(v) => i < v@.len() && k.qtype == qtype::BYTE_ATOM
                                && k.value == KValue::Byte(v@[i]),
                            KValue::FloatList(v) => i < v@.len() && k.qtype == qtype::FLOAT_ATOM
                                && k.value == KValue::Float(v@[i]),
                            KValue::RealList(v) => i < v@.len() && k.qtype == qtype::REAL_ATOM
                                && k.value == KValue::Real(v@[i]),
                            KValue::SymbolList(v) => i < v@.len() && k.qtype == qtype::SYMBOL_ATOM
                                && (k.value matches KValue::Symbol(s) && s@ == v@[i]@),
                            KValue::CompoundList(v) => i < v@.len() && crate::types::k_eq(
                                k,
                                v@[i],
                            ),
                            _ => false,
                        }
                    })),
                Err(_) => !((self.qtype == qtype::DICTIONARY || self.qtype
                    == qtype::SORTED_DICTIONARY) && (self.value matches KValue::CompoundList(pair)
                    && pair@.len() >= 2 && (exists|i: int|
                    #![trigger key_at_matches(pair@[0], *key, i)]
                    first_key_match_at(pair@[0], *key, i) && element_extractable(pair@[1], i)))),
            },
    {
        if self.get_type() != qtype::DICTIONARY && self.get_type() != qtype::SORTED_DICTIONARY {
            return Err(Error::invalid_operation("try_find_owned", self.qtype));
        }
        let pair = match &self.value {
            KValue::CompoundList(pair) => pair,
            _ => {
                return Err(Error::invalid_operation("try_find_owned", self.qtype));
            },
        };
        if pair.len() < 2 {
            return Err(Error::invalid_operation("try_find_owned", self.qtype));
        }
        let i = match pair[0].find_key_index(key) {
            Ok(i) => i,
            Err(er) => {
                return Err(er);
            },
        };
        pair[1].get_list_element_at(i)
    }

    /// Replace the value at `key` in a dictionary, keeping the value list's
    /// type: a typed value list accepts only an atom of the matching type,
    /// a compound value list accepts any value.
    pub fn set_value(&mut self, key: &K, new_value: K) -> (r: Result<(), Error>)
        ensures
            match r {
                Ok(_) => (old(self).qtype == qtype::DICTIONARY || old(self).qtype
                    == qtype::SORTED_DICTIONARY) && (old(self).value matches
                    KValue::CompoundList(pair) && pair@.len() >= 2 && (exists|i: int|
                    #![trigger key_at_matches(pair@[0], *key, i)]
                    {
                        &&& key_at_matches(pair@[0], *key, i)
                        &&& forall|j: int| 0 <= j < i ==> !key_at_matches(pair@[0], *key, j)
                        &&& final(self).qtype == old(self).qtype
                        &&& final(self).attribute == old(self).attribute
                        &&& final(self).children().len() == pair@.len()
                        &&& final(self).children()[0] == pair@[0]
                        &&& final(self).children()[1].qtype == pair@[1].qtype
                        &&& final(self).children()[1].attribute == pair@[1].attribute
                        &&& set_element_at(pair@[1], new_value, final(self).children()[1], i)
                    })),
                Err(_) => *final(self) == *old(self) && !((old(self).qtype == qtype::DICTIONARY
                    || old(self).qtype == qtype::SORTED_DICTIONARY) && (old(self).value matches
                    KValue::CompoundList(pair) && pair@.len() >= 2 && (exists|i: int|
                    #![trigger key_at_matches(pair@[0], *key, i)]
                    first_key_match_at(pair@[0], *key, i) && replacement_accepted(
                        pair@[1],
                        new_value,
                        i,
                    )))),
            },
    {
        if self.get_type() != qtype::DICTIONARY && self.get_type() != qtype::SORTED_DICTIONARY {
            return Err(Error::invalid_operation("set_value", self.qtype));
        }
        let i: usize;
        {
            let pair = match &self.value {
                KValue::CompoundList(pair) => pair,
                _ => {
                    return Err(Error::invalid_operation("set_value", self.qtype));
                },
            };
            if pair.len() < 2 {
                return Err(Error::invalid_operation("set_value", self.qtype));
            }
            i = match pair[0].find_key_index(key) {
                Ok(i) => i,
                Err(er) => {
                    return Err(er);
                },
            };
            // validate the replacement against the value list before any
            // mutable borrow, so that failure leaves the dictionary intact
            let vals = &pair[1];
            let ok = match &vals.value {
                KValue::LongList(v) => new_value.get_long().is_ok() && i < v.len(),
                KValue::IntList(v) => new_value.get_int().is_ok() && i < v.len(),
                KValue::ShortList(v) => new_value.get_short().is_ok() && i < v.len(),
                KValue::ByteList(v) => new_value.get_byte().is_ok() && i < v.len(),
                KValue::FloatList(v) => new_value.get_float().is_ok() && i < v.len(),
                KValue::RealList(v) => new_value.get_real().is_ok() && i < v.len(),
                KValue::SymbolList(v) => new_value.get_symbol().is_ok() && i < v.len(),
                KValue::CompoundList(v) => i < v.len(),
                _ => false,
            };
            if !ok {
                return Err(Error::invalid_operation("set_value", vals.get_type()));
            }
        }
        match &mut self.value {
            KValue::CompoundList(pair) => {
                let vals_k = &mut pair[1];
                match &mut vals_k.value {
                    KValue::LongList(v) => {
                        match new_value.get_long() {
                            Ok(x) => {
                                v.set(i, x);
                                Ok(())
                            },
                            Err(er) => Err(er),
                        }
                    },
                    KValue::IntList(v) => {
                        match new_value.get_int() {
                            Ok(x) => {
                                v.set(i, x);
                                Ok(())
                            },
                            Err(er) => Err(er),
                        }
                    },
                    KValue::ShortList(v) => {
                        match new_value.get_short() {
                            Ok(x) => {
                                v.set(i, x);
                                Ok(())
                            },
                            Err(er) => Err(er),
                        }
                    },
                    KValue::ByteList(v) => {
                        match new_value.get_byte() {
                            Ok(x) => {
                                v.set(i, x);
                                Ok(())
                            },
                            Err(er) => Err(er),
                        }
                    },
                    KValue::FloatList(v) => {
                        match new_value.get_float() {
                            Ok(x) => {
                                v.set(i, x);
                                Ok(())
                            },
                            Err(er) => Err(er),
                        }
                    },
                    KValue::RealList(v) => {
                        match new_value.get_real() {
                            Ok(x) => {
                                v.set(i, x);
                                Ok(())
                            },
                            Err(er) => Err(er),
                        }
                    },
                    KValue::SymbolList(v) => {
                        match new_value.get_symbol() {
                            Ok(x) => {
                                v.set(i, x.to_owned());
                                Ok(())
                            },
                            Err(er) => Err(er),
                        }
                    },
                    KValue::CompoundList(v) => {
                        v.set(i, new_value);
                        Ok(())
                    },
                    _ => Err(Error::invalid_operation("set_value", qtype::DICTIONARY)),
                }
            },
            _ => Err(Error::invalid_operation("set_value", qtype::DICTIONARY)),
        }
    }

    /// Index of the first column whose name is `column`, when this is a
    /// table with symbol-list names and compound-list columns.
    #[verifier::loop_isolation(false)]
    fn find_column_index(&self, column: &str) -> (r: Option<usize>)
        ensures
            match r {
                Some(i) => self.qtype == qtype::TABLE && (self.table_dict().children()[0].value
                    matches KValue::SymbolList(names) && self.table_dict().children()[1].value
                    matches KValue::CompoundList(cols) && 0 <= i < names@.len() && (i as int)
                    < cols@.len() && names@[i as int]@ == column@ && (forall|j: int|
                    0 <= j < i ==> (#[trigger] names@[j])@ != column@)),
                None => !(self.qtype == qtype::TABLE && (self.value matches KValue::Table(d)
                    && (d.value matches KValue::CompoundList(pair) && pair@.len() >= 2 && (
                pair@[0].value matches KValue::SymbolList(names) && (pair@[1].value matches
                    KValue::CompoundList(cols) && (exists|i: int|
                    0 <= i < names@.len() && i < cols@.len() && (#[trigger] names@[i])@
                        == column@)))))),
            },
    {
        if self.get_type() != qtype::TABLE {
            return None;
        }
        let d = match &self.value {
            KValue::Table(d) => &**d,
            _ => {
                return None;
            },
        };
        let pair = match &d.value {
            KValue::CompoundList(pair) => pair,
            _ => {
                return None;
            },
        };
        if pair.len() < 2 {
            return None;
        }
        let names = match &pair[0].value {
            KValue::SymbolList(names) => names,
            _ => {
                return None;
            },
        };
        let cols_len = match &pair[1].value {
            KValue::CompoundList(cols) => cols.len(),
            _ => {
                return None;
            },
        };
        let target = String::from_str(column);
        let mut i: usize = 0;
        while i < names.len()
            invariant
                i <= names@.len(),
                target@ == column@,
                self.qtype == qtype::TABLE,
                self.table_dict().children()[0].value == KValue::SymbolList(*names),
                self.table_dict().children()[1].value is CompoundList,
                cols_len == self.table_dict().children()[1].children().len(),
                forall|j: int| 0 <= j < i ==> (#[trigger] names@[j])@ != column@,
            decreases names@.len() - i,
        {
            if names[i].eq(&target) {
                if i < cols_len {
                    return Some(i);
                } else {
                    return None;
                }
            }
            i = i + 1;
        }
        None
    }
}

} // verus!
