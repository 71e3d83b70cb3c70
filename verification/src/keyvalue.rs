use vstd::prelude::*;

verus! {

// ---Key-or-Value Slot Type---------------------------------------------

#[derive(PartialEq, Eq, Structural, Copy, Clone, Debug)]
pub enum KeyTypes {
    KeyType,
    KeyTombStone,
    KeyEmpty,
}

/// A tagged key slot: the tag says whether the slot carries a key, was
/// never filled, or is retired; the payload is present exactly when the
/// tag says so.
pub struct Key<T> {
    pub _keytype: KeyTypes,
    pub _key: Option<T>,
}

impl<T> Key<T> {
    /// The payload is present if and only if the tag is `KeyType`.
    pub open spec fn wf(&self) -> bool {
        (self._keytype is KeyType) <==> (self._key is Some)
    }

    pub fn new(k: T) -> (r: Key<T>)
        ensures
            r._keytype is KeyType,
            r._key == Some(k),
            r.wf(),
    {
        Key { _keytype: KeyTypes::KeyType, _key: Some(k) }
    }

    pub fn new_empty() -> (r: Key<T>)
        ensures
            r._keytype is KeyEmpty,
            r._key is None,
            r.wf(),
    {
        Key { _keytype: KeyTypes::KeyEmpty, _key: None }
    }

    pub fn new_tombstone() -> (r: Key<T>)
        ensures
            r._keytype is KeyTombStone,
            r._key is None,
            r.wf(),
    {
        Key { _keytype: KeyTypes::KeyTombStone, _key: None }
    }

    pub fn is_empty(&self) -> (r: bool)
        ensures
            r == (self._keytype is KeyEmpty),
    {
        match self._keytype {
            KeyTypes::KeyEmpty => true,
            _ => false,
        }
    }

    pub fn is_tombstone(&self) -> (r: bool)
        ensures
            r == (self._keytype is KeyTombStone),
    {
        match self._keytype {
            KeyTypes::KeyTombStone => true,
            _ => false,
        }
    }

    pub fn keytype(&self) -> (r: KeyTypes)
        ensures
            r == self._keytype,
    {
        self._keytype
    }

    pub fn get_key(&self) -> (k: &T)
        requires
            self._key is Some,
        ensures
            *k == self._key->0,
    {
        match &self._key {
            Some(k) => k,
            None => vstd::pervasive::unreached(),
        }
    }
}

#[derive(PartialEq, Eq, Structural, Copy, Clone, Debug)]
pub enum ValueTypes {
    ValueType,
    ValueTombStone,
    ValueEmpty,
}

/// A tagged value slot: a live value, a tombstone, or an empty cell,
/// with a prime flag that freezes the slot during migration.
pub struct Value<T> {
    pub _valuetype: ValueTypes,
    pub _value: Option<T>,
    pub _is_prime: bool,
}

impl<T> Value<T> {
    /// The payload is present if and only if the tag is `ValueType`.
    pub open spec fn wf(&self) -> bool {
        (self._valuetype is ValueType) <==> (self._value is Some)
    }

    pub fn new(v: T) -> (r: Value<T>)
        ensures
            r._valuetype is ValueType,
            r._value == Some(v),
            !r._is_prime,
            r.wf(),
    {
        Value { _valuetype: ValueTypes::ValueType, _value: Some(v), _is_prime: false }
    }

    pub fn new_empty() -> (r: Value<T>)
        ensures
            r._valuetype is ValueEmpty,
            r._value is None,
            !r._is_prime,
            r.wf(),
    {
        Value { _valuetype: ValueTypes::ValueEmpty, _value: None, _is_prime: false }
    }

    pub fn new_tombstone() -> (r: Value<T>)
        ensures
            r._valuetype is ValueTombStone,
            r._value is None,
            !r._is_prime,
            r.wf(),
    {
        Value { _valuetype: ValueTypes::ValueTombStone, _value: None, _is_prime: false }
    }

    pub fn new_tombprime() -> (r: Value<T>)
        ensures
            r._valuetype is ValueTombStone,
            r._value is None,
            r._is_prime,
            r.wf(),
    {
        Value { _valuetype: ValueTypes::ValueTombStone, _value: None, _is_prime: true }
    }

    pub fn new_prime(v: T) -> (r: Value<T>)
        ensures
            r._valuetype is ValueType,
            r._value == Some(v),
            r._is_prime,
            r.wf(),
    {
        Value { _valuetype: ValueTypes::ValueType, _value: Some(v), _is_prime: true }
    }

    pub fn is_empty(&self) -> (r: bool)
        requires
            self.wf(),
        ensures
            r == (self._valuetype is ValueEmpty),
    {
        match self._valuetype {
            ValueTypes::ValueEmpty => true,
            _ => false,
        }
    }

    pub fn is_tombstone(&self) -> (r: bool)
        ensures
            r == (self._valuetype is ValueTombStone),
    {
        match self._valuetype {
            ValueTypes::ValueTombStone => true,
            _ => false,
        }
    }

    pub fn is_prime(&self) -> (r: bool)
        ensures
            r == self._is_prime,
    {
        self._is_prime
    }

    pub fn is_tombprime(&self) -> (r: bool)
        ensures
            r == (self._is_prime && self._valuetype is ValueTombStone),
    {
        self.is_prime() && self.is_tombstone()
    }

    /// The primed copy of an unprimed slot; consumes the slot so the
    /// payload moves rather than being shared.
    pub fn get_prime(self) -> (r: Value<T>)
        requires
            !self._is_prime,
        ensures
            r._valuetype == self._valuetype,
            r._value == self._value,
            r._is_prime,
    {
        Value { _valuetype: self._valuetype, _value: self._value, _is_prime: true }
    }

    /// The unprimed copy of a primed slot; consumes the slot.
    pub fn get_unprime(self) -> (r: Value<T>)
        requires
            self._is_prime,
        ensures
            r._valuetype == self._valuetype,
            r._value == self._value,
            !r._is_prime,
    {
        Value { _valuetype: self._valuetype, _value: self._value, _is_prime: false }
    }

    pub fn valuetype(&self) -> (r: ValueTypes)
        ensures
            r == self._valuetype,
    {
        self._valuetype
    }

    pub fn get_value(&self) -> (v: &Option<T>)
        ensures
            *v == self._value,
    {
        &self._value
    }
}

} // verus!
