//! Phantom-typed class-name identifiers.
//!
//! A name is only ever compared to names of the same entity kind; the type
//! parameter partitions the identifier namespace at compile time and holds
//! no data.

use core::marker::PhantomData;
use vstd::prelude::*;

verus! {

/// A typed identifier for one entity kind. Its view is the identifier text.
#[derive(Debug)]
pub struct ClassName<T>(String, PhantomData<T>);

impl<T> View for ClassName<T> {
    type V = Seq<char>;

    closed spec fn view(&self) -> Seq<char> {
        self.0@
    }
}

impl<T> ClassName<T> {
    pub fn new(name: String) -> (r: Self)
        ensures
            r@ == name@,
    {
        ClassName(name, PhantomData)
    }

    pub fn as_str(&self) -> (r: &str)
        ensures
            r@ == self@,
    {
        self.0.as_str()
    }

    pub fn duplicate(&self) -> (r: Self)
        ensures
            r@ == self@,
    {
        ClassName(self.0.clone(), PhantomData)
    }
}

impl<T> PartialEq for ClassName<T> {
    /// Plain string equality on the underlying identifier.
    fn eq(&self, other: &Self) -> (r: bool) {
        self.0 == other.0
    }
}

impl<T> vstd::std_specs::cmp::PartialEqSpecImpl for ClassName<T> {
    open spec fn obeys_eq_spec() -> bool {
        true
    }

    open spec fn eq_spec(&self, other: &Self) -> bool {
        self@ == other@
    }
}

} // verus!
