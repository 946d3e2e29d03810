//! Small shared utilities: the site language tag, and the explicit counter
//! that dispenses unique ids for generated DOM elements.

use vstd::prelude::*;

verus! {

/// The language a page declares.
pub enum Language {
    English,
    CUSTOM { tag: String },
}

impl Language {
    /// The language tag emitted into the page's `lang` attribute.
    pub fn as_rfc5646_tag(&self) -> (r: &str)
        ensures
            r@ == spec_language_tag(*self),
    {
        match self {
            Language::English => "en",
            Language::CUSTOM { tag } => tag.as_str(),
        }
    }
}

pub open spec fn spec_language_tag(l: Language) -> Seq<char> {
    match l {
        Language::English => "en"@,
        Language::CUSTOM { tag } => tag@,
    }
}

/// Dispenses the next unique id from an explicit counter.
pub fn next_unique_id(counter: &mut u64) -> (r: u64)
    requires
        *old(counter) < u64::MAX,
    ensures
        r == *old(counter),
        *final(counter) == *old(counter) + 1,
{
    let id = *counter;
    *counter = *counter + 1;
    id
}

/// Chaining helpers on vectors.
pub trait VecExt<T>: Sized {
    fn push_chain(self, value: T) -> Self;

    fn extend_chain(self, other: Vec<T>) -> Self;
}

impl<T> VecExt<T> for Vec<T> {
    /// Pushes and hands the vector back.
    fn push_chain(self, value: T) -> (r: Self)
        ensures
            r@ == self@.push(value),
    {
        let mut this = self;
        this.push(value);
        this
    }

    /// Appends another vector's items in order and hands the vector back.
    fn extend_chain(self, other: Vec<T>) -> (r: Self)
        ensures
            r@ == self@ + other@,
    {
        let mut this = self;
        let mut rest = other;
        this.append(&mut rest);
        this
    }
}

} // verus!
