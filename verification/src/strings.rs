//! Shared container primitives: embedded strings, arrays and nullable
//! relative pointers, in the friendly in-memory form the library works on.
//!
//! On disk these are offset-based (a relative pointer of 16, 32 or 64 bits,
//! an array as pointer plus count, a string as NUL-terminated bytes).  In
//! memory the library keeps the pointed-to value itself; an offset of zero
//! becomes `None`.

use vstd::prelude::*;

verus! {

/// A string stored behind a 64-bit relative pointer, NUL-terminated on disk.
#[derive(Clone)]
pub struct SsbhString {
    pub text: String,
}

impl View for SsbhString {
    type V = Seq<char>;

    open spec fn view(&self) -> Seq<char> {
        self.text@
    }
}

impl SsbhString {
    /// Wraps the given text.
    pub fn new(s: &str) -> (r: Self)
        ensures
            r@ == s@,
    {
        SsbhString { text: s.to_owned() }
    }

    /// The text, when it is valid unicode; this in-memory form always is.
    pub fn to_str(&self) -> (r: Option<&str>)
        ensures
            r matches Some(s) && s@ == self@,
    {
        Some(self.text.as_str())
    }

    /// A copy of the text; decoding is lossless for this in-memory form.
    pub fn to_string_lossy(&self) -> (r: String)
        ensures
            r@ == self@,
    {
        self.text.clone()
    }
}

/// A string whose on-disk target is aligned to 8 bytes; otherwise as [`SsbhString`].
#[derive(Clone)]
pub struct SsbhString8 {
    pub text: String,
}

impl View for SsbhString8 {
    type V = Seq<char>;

    open spec fn view(&self) -> Seq<char> {
        self.text@
    }
}

impl SsbhString8 {
    /// Wraps the given text.
    pub fn new(s: &str) -> (r: Self)
        ensures
            r@ == s@,
    {
        SsbhString8 { text: s.to_owned() }
    }

    /// The text, when it is valid unicode; this in-memory form always is.
    pub fn to_str(&self) -> (r: Option<&str>)
        ensures
            r matches Some(s) && s@ == self@,
    {
        Some(self.text.as_str())
    }

    /// A copy of the text.
    pub fn to_string_lossy(&self) -> (r: String)
        ensures
            r@ == self@,
    {
        self.text.clone()
    }
}

/// An embedded array: on disk a 64-bit relative pointer and a 64-bit count.
pub struct SsbhArray<T> {
    pub elements: Vec<T>,
}

impl<T> SsbhArray<T> {
    /// Wraps the given elements.
    pub fn new(elements: Vec<T>) -> (r: Self)
        ensures
            r.elements == elements,
    {
        SsbhArray { elements }
    }
}

/// A nullable 64-bit relative pointer; `None` stands for offset zero.
pub struct RelPtr64<T> {
    pub value: Option<T>,
}

impl<T> RelPtr64<T> {
    /// A pointer to the given value.
    pub fn new(value: T) -> (r: Self)
        ensures
            r.value == Some(value),
    {
        RelPtr64 { value: Some(value) }
    }

    /// The null pointer.
    pub fn null() -> (r: Self)
        ensures
            r.value is None,
    {
        RelPtr64 { value: None }
    }

    /// The target, if the pointer is not null.
    pub fn as_ref(&self) -> (r: Option<&T>)
        ensures
            match r {
                Some(v) => self.value matches Some(w) && v == w,
                None => self.value is None,
            },
    {
        match &self.value {
            Some(v) => Some(v),
            None => None,
        }
    }
}

/// A nullable absolute 64-bit pointer, as the mesh-extension format uses.
pub struct Ptr64<T> {
    pub value: Option<T>,
}

impl<T> Ptr64<T> {
    /// A pointer to the given value.
    pub fn new(value: T) -> (r: Self)
        ensures
            r.value == Some(value),
    {
        Ptr64 { value: Some(value) }
    }

    /// The null pointer.
    pub fn null() -> (r: Self)
        ensures
            r.value is None,
    {
        Ptr64 { value: None }
    }

    /// The target, if the pointer is not null.
    pub fn as_ref(&self) -> (r: Option<&T>)
        ensures
            match r {
                Some(v) => self.value matches Some(w) && v == w,
                None => self.value is None,
            },
    {
        match &self.value {
            Some(v) => Some(v),
            None => None,
        }
    }
}

} // verus!
