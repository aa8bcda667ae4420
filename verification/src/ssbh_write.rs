//! The container serialisation trait: types append their byte
//! representation to a buffer while a monotonic data pointer tracks the
//! next free byte for deferred, pointed-to payloads.

use vstd::prelude::*;

verus! {

/// A type that knows its packed little-endian byte form.
///
/// `ssbh_write` appends exactly [`SsbhWrite::repr`] to the buffer and never
/// moves the data pointer backwards.  A type whose record embeds relative
/// pointers first advances the pointer past itself — to at least the
/// current position plus its own reported size — so deferred payloads land
/// behind it; see the `Option` and `Vec` impls.  Plain scalars leave the
/// pointer untouched.
pub trait SsbhWrite: Sized {
    /// The byte representation.
    spec fn repr(&self) -> Seq<u8>;

    /// The byte size the type reports for array strides.
    spec fn spec_size(&self) -> int;

    /// The alignment the type reports.
    spec fn spec_align() -> int;

    /// Appends the byte representation, keeping the data pointer monotone.
    fn ssbh_write(&self, writer: &mut Vec<u8>, data_ptr: &mut u64)
        ensures
            final(writer)@ == old(writer)@ + self.repr(),
            *final(data_ptr) >= *old(data_ptr),
    ;

    /// The offset in bytes between successive elements in an array of this
    /// type, including padding.
    fn size_in_bytes(&self) -> (r: u64)
        ensures
            0 <= self.spec_size() <= u64::MAX ==> r as int == self.spec_size(),
    ;

    /// The alignment for pointers to this type.
    fn alignment_in_bytes() -> (r: u64)
        ensures
            r as int == Self::spec_align(),
    ;

    /// Appends the byte representation, starting a fresh data pointer.
    fn write(&self, writer: &mut Vec<u8>)
        ensures
            final(writer)@ == old(writer)@ + self.repr(),
    {
        let mut data_ptr: u64 = 0;
        self.ssbh_write(writer, &mut data_ptr);
    }
}

impl SsbhWrite for () {
    open spec fn repr(&self) -> Seq<u8> {
        Seq::empty()
    }

    open spec fn spec_size(&self) -> int {
        0
    }

    open spec fn spec_align() -> int {
        1
    }

    fn ssbh_write(&self, writer: &mut Vec<u8>, data_ptr: &mut u64)
        ensures
            *final(data_ptr) == *old(data_ptr),
    {
        proof {
            assert(final(writer)@ =~= old(writer)@ + self.repr());
        }
    }

    fn size_in_bytes(&self) -> u64 {
        0
    }

    fn alignment_in_bytes() -> u64 {
        1
    }
}

impl SsbhWrite for u8 {
    open spec fn repr(&self) -> Seq<u8> {
        seq![*self]
    }

    open spec fn spec_size(&self) -> int {
        1
    }

    open spec fn spec_align() -> int {
        1
    }

    fn ssbh_write(&self, writer: &mut Vec<u8>, data_ptr: &mut u64)
        ensures
            *final(data_ptr) == *old(data_ptr),
    {
        writer.push(*self);
        proof {
            assert(final(writer)@ =~= old(writer)@ + self.repr());
        }
    }

    fn size_in_bytes(&self) -> u64 {
        1
    }

    fn alignment_in_bytes() -> u64 {
        1
    }
}

impl SsbhWrite for u16 {
    open spec fn repr(&self) -> Seq<u8> {
        seq![(*self % 0x100) as u8, (*self / 0x100) as u8]
    }

    open spec fn spec_size(&self) -> int {
        2
    }

    open spec fn spec_align() -> int {
        2
    }

    fn ssbh_write(&self, writer: &mut Vec<u8>, data_ptr: &mut u64)
        ensures
            *final(data_ptr) == *old(data_ptr),
    {
        writer.push((*self % 0x100) as u8);
        writer.push((*self / 0x100) as u8);
        proof {
            assert(final(writer)@ =~= old(writer)@ + self.repr());
        }
    }

    fn size_in_bytes(&self) -> u64 {
        2
    }

    fn alignment_in_bytes() -> u64 {
        2
    }
}

impl SsbhWrite for u32 {
    open spec fn repr(&self) -> Seq<u8> {
        seq![
            (*self % 0x100) as u8,
            (*self / 0x100 % 0x100) as u8,
            (*self / 0x10000 % 0x100) as u8,
            (*self / 0x1000000) as u8,
        ]
    }

    open spec fn spec_size(&self) -> int {
        4
    }

    open spec fn spec_align() -> int {
        4
    }

    fn ssbh_write(&self, writer: &mut Vec<u8>, data_ptr: &mut u64)
        ensures
            *final(data_ptr) == *old(data_ptr),
    {
        writer.push((*self % 0x100) as u8);
        writer.push((*self / 0x100 % 0x100) as u8);
        writer.push((*self / 0x10000 % 0x100) as u8);
        writer.push((*self / 0x1000000) as u8);
        proof {
            assert(final(writer)@ =~= old(writer)@ + self.repr());
        }
    }

    fn size_in_bytes(&self) -> u64 {
        4
    }

    fn alignment_in_bytes() -> u64 {
        4
    }
}

impl SsbhWrite for u64 {
    open spec fn repr(&self) -> Seq<u8> {
        seq![
            (*self % 0x100) as u8,
            (*self / 0x100 % 0x100) as u8,
            (*self / 0x10000 % 0x100) as u8,
            (*self / 0x1000000 % 0x100) as u8,
            (*self / 0x100000000 % 0x100) as u8,
            (*self / 0x10000000000 % 0x100) as u8,
            (*self / 0x1000000000000 % 0x100) as u8,
            (*self / 0x100000000000000) as u8,
        ]
    }

    open spec fn spec_size(&self) -> int {
        8
    }

    open spec fn spec_align() -> int {
        8
    }

    fn ssbh_write(&self, writer: &mut Vec<u8>, data_ptr: &mut u64)
        ensures
            *final(data_ptr) == *old(data_ptr),
    {
        writer.push((*self % 0x100) as u8);
        writer.push((*self / 0x100 % 0x100) as u8);
        writer.push((*self / 0x10000 % 0x100) as u8);
        writer.push((*self / 0x1000000 % 0x100) as u8);
        writer.push((*self / 0x100000000 % 0x100) as u8);
        writer.push((*self / 0x10000000000 % 0x100) as u8);
        writer.push((*self / 0x1000000000000 % 0x100) as u8);
        writer.push((*self / 0x100000000000000) as u8);
        proof {
            assert(final(writer)@ =~= old(writer)@ + self.repr());
        }
    }

    fn size_in_bytes(&self) -> u64 {
        8
    }

    fn alignment_in_bytes() -> u64 {
        8
    }
}

/// The concatenated representations of the first `k` elements.
pub open spec fn seq_repr<T: SsbhWrite>(s: Seq<T>, k: int) -> Seq<u8>
    decreases k,
{
    if k <= 0 {
        Seq::empty()
    } else {
        seq_repr(s, k - 1) + s[k - 1].repr()
    }
}

impl<T: SsbhWrite> SsbhWrite for Option<T> {
    /// A present value writes itself; an absent one writes nothing.
    open spec fn repr(&self) -> Seq<u8> {
        match self {
            Some(v) => v.repr(),
            None => Seq::empty(),
        }
    }

    open spec fn spec_size(&self) -> int {
        match self {
            Some(v) => v.spec_size(),
            None => 0,
        }
    }

    open spec fn spec_align() -> int {
        T::spec_align()
    }

    fn ssbh_write(&self, writer: &mut Vec<u8>, data_ptr: &mut u64)
        ensures
            self is None ==> *final(data_ptr) == *old(data_ptr),
            (self is Some && 0 <= self.spec_size() && old(writer)@.len() + self.spec_size()
                <= u64::MAX) ==> *final(data_ptr) >= old(writer)@.len() + self.spec_size(),
    {
        match self {
            Some(v) => {
                // The data pointer must point past this value.
                let pos = writer.len() as u64;
                let sz = v.size_in_bytes();
                if sz <= u64::MAX - pos && *data_ptr < pos + sz {
                    *data_ptr = pos + sz;
                }
                v.ssbh_write(writer, data_ptr);
            },
            None => {
                proof {
                    assert(final(writer)@ =~= old(writer)@ + self.repr());
                }
            },
        }
    }

    fn size_in_bytes(&self) -> u64 {
        match self {
            Some(v) => v.size_in_bytes(),
            None => 0,
        }
    }

    fn alignment_in_bytes() -> u64 {
        T::alignment_in_bytes()
    }
}

impl<T: SsbhWrite> SsbhWrite for Vec<T> {
    /// The elements' representations, concatenated.
    open spec fn repr(&self) -> Seq<u8> {
        seq_repr(self@, self@.len() as int)
    }

    /// Every element is assumed to take the first element's stride.
    open spec fn spec_size(&self) -> int {
        if self@.len() == 0 {
            0
        } else {
            self@.len() * self@[0].spec_size()
        }
    }

    open spec fn spec_align() -> int {
        T::spec_align()
    }

    fn ssbh_write(&self, writer: &mut Vec<u8>, data_ptr: &mut u64)
        ensures
            (0 <= self.spec_size() && old(writer)@.len() + self.spec_size() <= u64::MAX)
                ==> *final(data_ptr) >= old(writer)@.len() + self.spec_size(),
    {
        // The data pointer must point past the whole array.
        let pos = writer.len() as u64;
        let sz = self.size_in_bytes();
        if sz <= u64::MAX - pos && *data_ptr < pos + sz {
            *data_ptr = pos + sz;
        }
        let ghost writer_start = writer@;
        let ghost dp_start = *data_ptr;
        let n = self.len();
        for i in 0..n
            invariant
                n == self@.len(),
                writer@ == writer_start + seq_repr(self@, i as int),
                *data_ptr >= dp_start,
        {
            self[i].ssbh_write(writer, data_ptr);
        }
        proof {
            assert(final(writer)@ =~= old(writer)@ + self.repr());
        }
    }

    fn size_in_bytes(&self) -> (r: u64)
        ensures
            0 <= self.spec_size() <= u64::MAX ==> r as int == self.spec_size(),
    {
        if self.len() == 0 {
            0
        } else {
            let elem = self[0].size_in_bytes();
            let count = self.len();
            proof {
                assert((count as int) * (elem as int) < 0x100000000000000000000000000000000int)
                    by (nonlinear_arith)
                    requires
                        0 <= count < 0x10000000000000000,
                        0 <= elem < 0x10000000000000000,
                ;
                let n = self@.len() as int;
                let es = self@[0].spec_size();
                assert(n >= 1 && 0 <= n * es <= 0xffffffffffffffff ==> 0 <= es && es <= n * es)
                    by (nonlinear_arith);
            }
            #[verifier::truncate] (((count as u128) * (elem as u128)) as u64)
        }
    }

    fn alignment_in_bytes() -> u64 {
        T::alignment_in_bytes()
    }
}

} // verus!
