//! The string buffers that cross the component boundary: a
//! byte-string pair and a wide (16-bit unit) pair, each with an
//! abstract buffer type that callees fill through out-parameters and
//! an owning concrete type over it.
use vstd::prelude::*;
use vstd::slice::slice_to_vec;

verus! {

/// An abstract byte string: the view a method takes or fills through
/// an out-parameter.
pub struct nsACString {
    data: Vec<u8>,
}

impl View for nsACString {
    type V = Seq<u8>;

    closed spec fn view(&self) -> Seq<u8> {
        self.data@
    }
}

impl nsACString {
    /// The bytes held.
    pub fn as_slice(&self) -> (r: &[u8])
        ensures
            r@ == self@,
    {
        self.data.as_slice()
    }

    /// Number of bytes held.
    pub fn len(&self) -> (n: usize)
        ensures
            n == self@.len(),
    {
        self.data.len()
    }

    /// Replace the contents with a copy of `s`: the write a callee
    /// performs through a string out-parameter.
    pub fn assign(&mut self, s: &[u8])
        ensures
            final(self)@ == s@,
    {
        self.data = slice_to_vec(s);
    }
}

/// An owning byte string.
pub struct nsCString(nsACString);

impl View for nsCString {
    type V = Seq<u8>;

    closed spec fn view(&self) -> Seq<u8> {
        self.0@
    }
}

impl nsCString {
    /// An empty owning byte string.
    pub fn new_empty() -> (r: nsCString)
        ensures
            r@ == Seq::<u8>::empty(),
    {
        nsCString(nsACString { data: Vec::new() })
    }

    /// An owning byte string holding a copy of `s`.
    pub fn from_slice(s: &[u8]) -> (r: nsCString)
        ensures
            r@ == s@,
    {
        nsCString(nsACString { data: slice_to_vec(s) })
    }

    /// Borrow the abstract string, to pass where a callee reads one.
    pub fn as_aptr(&self) -> (r: &nsACString)
        ensures
            r@ == self@,
    {
        &self.0
    }

    /// Borrow the abstract string mutably, to pass where a callee
    /// fills one in.
    pub fn as_aptr_mut(&mut self) -> (r: &mut nsACString)
        ensures
            r@ == old(self)@,
            final(self)@ == final(r)@,
    {
        &mut self.0
    }

    /// The bytes held.
    pub fn as_slice(&self) -> (r: &[u8])
        ensures
            r@ == self@,
    {
        self.0.as_slice()
    }
}

/// An abstract wide string of 16-bit units: the view a method takes
/// or fills through an out-parameter.
pub struct nsAString {
    data: Vec<u16>,
}

impl View for nsAString {
    type V = Seq<u16>;

    closed spec fn view(&self) -> Seq<u16> {
        self.data@
    }
}

impl nsAString {
    /// The units held.
    pub fn as_slice(&self) -> (r: &[u16])
        ensures
            r@ == self@,
    {
        self.data.as_slice()
    }

    /// Number of units held.
    pub fn len(&self) -> (n: usize)
        ensures
            n == self@.len(),
    {
        self.data.len()
    }

    /// Replace the contents with a copy of `s`.
    pub fn assign(&mut self, s: &[u16])
        ensures
            final(self)@ == s@,
    {
        self.data = slice_to_vec(s);
    }
}

/// An owning wide string.
pub struct nsString(nsAString);

impl View for nsString {
    type V = Seq<u16>;

    closed spec fn view(&self) -> Seq<u16> {
        self.0@
    }
}

impl nsString {
    /// An empty owning wide string.
    pub fn new_empty() -> (r: nsString)
        ensures
            r@ == Seq::<u16>::empty(),
    {
        nsString(nsAString { data: Vec::new() })
    }

    /// An owning wide string holding a copy of `s`.
    pub fn from_slice(s: &[u16]) -> (r: nsString)
        ensures
            r@ == s@,
    {
        nsString(nsAString { data: slice_to_vec(s) })
    }

    /// Borrow the abstract string, to pass where a callee reads one.
    pub fn as_aptr(&self) -> (r: &nsAString)
        ensures
            r@ == self@,
    {
        &self.0
    }

    /// Borrow the abstract string mutably, to pass where a callee
    /// fills one in.
    pub fn as_aptr_mut(&mut self) -> (r: &mut nsAString)
        ensures
            r@ == old(self)@,
            final(self)@ == final(r)@,
    {
        &mut self.0
    }

    /// The units held.
    pub fn as_slice(&self) -> (r: &[u16])
        ensures
            r@ == self@,
    {
        self.0.as_slice()
    }
}

} // verus!
