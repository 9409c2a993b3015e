//! Fixed-length mutable byte storage, the single owner of the bytes that
//! typed views read and write.

use vstd::prelude::*;

verus! {

/// Raised when the byte storage for a new buffer cannot be reserved. Fatal to
/// that construction attempt; no partially constructed buffer is observable.
#[derive(Debug, Clone, Copy, PartialEq, Eq, Structural)]
pub struct AllocError;

/// Fixed-length, zero-initialized at creation, mutable contiguous byte
/// storage. A buffer never changes length after creation. Views write into
/// it directly; a write through one view of a buffer is visible to every
/// other view of the same bytes.
#[derive(Debug)]
pub struct ArrayBuffer {
    bytes: Vec<u8>,
}

impl View for ArrayBuffer {
    type V = Seq<u8>;

    closed spec fn view(&self) -> Seq<u8> {
        self.bytes@
    }
}

impl Default for ArrayBuffer {
    /// The canonical zero-length buffer; never fails.
    fn default() -> (r: Self)
        ensures
            r@ == Seq::<u8>::empty(),
    {
        ArrayBuffer { bytes: Vec::new() }
    }
}

impl ArrayBuffer {
    /// Allocates `size` zero-initialized bytes. Fails with [`AllocError`]
    /// exactly when the storage reservation cannot be satisfied.
    pub fn new(size: usize) -> (r: Result<Self, AllocError>)
        ensures
            match r {
                Ok(b) => b@.len() == size && forall|i: int| 0 <= i < size ==> b@[i] == 0u8,
                Err(_) => true,
            },
    {
        let mut v: Vec<u8> = Vec::new();
        if v.try_reserve(size).is_err() {
            return Err(AllocError);
        }
        let mut i: usize = 0;
        while i < size
            invariant
                i <= size,
                v@.len() == i,
                forall|j: int| 0 <= j < i ==> v@[j] == 0u8,
            decreases size - i,
        {
            v.push(0u8);
            i = i + 1;
        }
        Ok(ArrayBuffer { bytes: v })
    }

    /// The raw byte storage, for read access.
    pub fn slice(&self) -> (r: &[u8])
        ensures
            r@ == self@,
    {
        self.bytes.as_slice()
    }

    /// A buffer's length always fits the machine's size type.
    pub proof fn lemma_len_fits(&self)
        ensures
            self@.len() <= usize::MAX,
    {
        vstd::std_specs::vec::axiom_spec_len(&self.bytes);
    }

    /// The length of the buffer in bytes.
    pub fn len(&self) -> (r: usize)
        ensures
            r == self@.len(),
    {
        self.bytes.len()
    }

    /// The byte at position `i`.
    pub fn read_byte(&self, i: usize) -> (r: u8)
        requires
            i < self@.len(),
        ensures
            r == self@[i as int],
    {
        self.bytes[i]
    }

    /// Overwrites the byte at position `i`; every other byte is untouched.
    pub fn write_byte(&mut self, i: usize, b: u8)
        requires
            i < old(self)@.len(),
        ensures
            final(self)@ == old(self)@.update(i as int, b),
    {
        self.bytes[i] = b;
    }
}

} // verus!
