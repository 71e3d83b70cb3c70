use vstd::prelude::*;
use vstd::pervasive::unreached;

verus! {

/// What one key cell holds once a holder has been installed: a key, or
/// the tombstone that retires the slot for the rest of its generation.
#[derive(PartialEq, Hash, Debug)]
pub enum KeyHolder<T> {
    Key(T),
    Tombstone,
}

impl<T> KeyHolder<T> {
    pub fn is_tombstone(&self) -> (r: bool)
        ensures
            r == (self is Tombstone),
    {
        match self {
            KeyHolder::Tombstone => true,
            KeyHolder::Key(_) => false,
        }
    }
}

/// What one value cell holds: a live value, a tombstone marking logical
/// deletion, or a primed form of either. A primed holder freezes the
/// slot: no further write is legal in its table generation.
#[derive(PartialEq, Hash, Debug)]
pub enum ValueHolder<T> {
    Value(T),
    Tombstone,
    Prime(Box<ValueHolder<T>>),
}

impl<T> ValueHolder<T> {
    /// A holder is well formed when priming is never nested.
    pub open spec fn holder_wf(&self) -> bool {
        match self {
            ValueHolder::Prime(inner) => !((**inner) is Prime),
            _ => true,
        }
    }

    /// True of `Tombstone` and of the primed tombstone.
    pub open spec fn spec_is_tombstone(&self) -> bool {
        match self {
            ValueHolder::Tombstone => true,
            ValueHolder::Prime(inner) => (**inner) is Tombstone,
            ValueHolder::Value(_) => false,
        }
    }

    pub fn is_tombstone(&self) -> (r: bool)
        ensures
            r == self.spec_is_tombstone(),
    {
        match self {
            ValueHolder::Tombstone => true,
            ValueHolder::Prime(inner) => match &**inner {
                ValueHolder::Tombstone => true,
                _ => false,
            },
            ValueHolder::Value(_) => false,
        }
    }

    pub fn is_prime(&self) -> (r: bool)
        ensures
            r == (self is Prime),
    {
        match self {
            ValueHolder::Prime(_) => true,
            _ => false,
        }
    }

    /// The value held, read through at most one level of priming.
    pub open spec fn spec_value(&self) -> T {
        match self {
            ValueHolder::Value(v) => *v,
            ValueHolder::Prime(inner) => (**inner)->Value_0,
            ValueHolder::Tombstone => arbitrary(),
        }
    }

    pub fn value(&self) -> (v: &T)
        requires
            self matches ValueHolder::Value(_) || (self matches ValueHolder::Prime(inner)
                && (**inner) matches ValueHolder::Value(_)),
        ensures
            *v == self.spec_value(),
    {
        match self {
            ValueHolder::Value(v) => v,
            ValueHolder::Prime(inner) => match &**inner {
                ValueHolder::Value(v) => v,
                _ => unreached(),
            },
            _ => unreached(),
        }
    }

    /// Consumes a boxed `Value` or `Tombstone`, returning its primed form.
    pub fn to_prime(boxed: Box<ValueHolder<T>>) -> (r: ValueHolder<T>)
        requires
            !((*boxed) is Prime),
        ensures
            r == ValueHolder::Prime(boxed),
    {
        ValueHolder::Prime(boxed)
    }

    /// Consumes a `Prime`, returning the boxed `Value` or `Tombstone` inside.
    pub fn unwrap_prime(val: ValueHolder<T>) -> (r: Box<ValueHolder<T>>)
        requires
            val is Prime,
        ensures
            val == ValueHolder::Prime(r),
    {
        match val {
            ValueHolder::Prime(boxed) => boxed,
            _ => unreached(),
        }
    }
}

} // verus!
