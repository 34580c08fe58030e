//! Arguments that may be given bare or wrapped in an `Option`.

use vstd::prelude::*;

verus! {

/// A value handed to a builder either as it is or as an `Option` of it.
pub trait IntoOption<V>: Sized {
    /// The `Option` that the value stands for.
    spec fn as_option(self) -> Option<V>;

    /// Turns the value into that `Option`.
    fn into_option(self) -> (r: Option<V>)
        ensures
            r == self.as_option(),
    ;
}

impl<V> IntoOption<V> for Option<V> {
    open spec fn as_option(self) -> Option<V> {
        self
    }

    fn into_option(self) -> (r: Option<V>) {
        self
    }
}

impl IntoOption<String> for String {
    open spec fn as_option(self) -> Option<String> {
        Some(self)
    }

    fn into_option(self) -> (r: Option<String>) {
        Some(self)
    }
}

impl IntoOption<u16> for u16 {
    open spec fn as_option(self) -> Option<u16> {
        Some(self)
    }

    fn into_option(self) -> (r: Option<u16>) {
        Some(self)
    }
}

impl IntoOption<i32> for i32 {
    open spec fn as_option(self) -> Option<i32> {
        Some(self)
    }

    fn into_option(self) -> (r: Option<i32>) {
        Some(self)
    }
}

/// The characters of an optional text.
pub open spec fn text_of(s: Option<String>) -> Option<Seq<char>> {
    match s {
        Some(t) => Some(t@),
        None => None,
    }
}

/// A copy of an optional text.
pub fn copy_text(s: &Option<String>) -> (r: Option<String>)
    ensures
        text_of(r) == text_of(*s),
{
    match s {
        Some(t) => Some(t.clone()),
        None => None,
    }
}

/// Whether two optional texts hold the same characters.
pub fn same_text(a: &Option<String>, b: &Option<String>) -> (r: bool)
    ensures
        r == (text_of(*a) == text_of(*b)),
{
    match (a, b) {
        (Some(x), Some(y)) => *x == *y,
        (None, None) => true,
        _ => false,
    }
}

} // verus!
