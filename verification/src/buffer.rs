//! The text buffer: an editable, addressable sequence of bytes.
//!
//! Every other component addresses the document through byte offsets into this
//! buffer; it is mutated only through replace-range edits, so that each edit
//! can be recorded and reversed by the undo engine.

use vstd::prelude::*;
use vstd::slice::slice_to_vec;

verus! {

/// An editable sequence of bytes, exposing length, byte-range slicing and
/// replace-range mutation.
pub struct TextBuffer {
    bytes: Vec<u8>,
}

impl View for TextBuffer {
    type V = Seq<u8>;

    closed spec fn view(&self) -> Seq<u8> {
        self.bytes@
    }
}

impl TextBuffer {
    /// An empty buffer.
    pub fn new() -> (r: TextBuffer)
        ensures
            r@ == Seq::<u8>::empty(),
    {
        TextBuffer { bytes: Vec::new() }
    }

    /// A buffer holding exactly the given bytes.
    pub fn from_bytes(bytes: Vec<u8>) -> (r: TextBuffer)
        ensures
            r@ == bytes@,
    {
        TextBuffer { bytes }
    }

    /// Total length in bytes.
    pub fn len(&self) -> (r: usize)
        ensures
            r == self@.len(),
    {
        self.bytes.len()
    }

    /// The byte at offset `i`.
    pub fn byte_at(&self, i: usize) -> (r: u8)
        requires
            i < self@.len(),
        ensures
            r == self@[i as int],
    {
        self.bytes[i]
    }

    /// A copy of the bytes in `[start, end)`.
    pub fn slice_bytes(&self, start: usize, end: usize) -> (r: Vec<u8>)
        requires
            start <= end <= self@.len(),
        ensures
            r@ == self@.subrange(start as int, end as int),
    {
        slice_to_vec(&self.bytes[start..end])
    }

    /// The whole content as a byte vector.
    pub fn to_vec(&self) -> (r: Vec<u8>)
        ensures
            r@ == self@,
    {
        let r = self.slice_bytes(0, self.len());
        assert(r@ =~= self@);
        r
    }

    /// Borrows the whole content as a byte slice.
    pub fn as_bytes(&self) -> (r: &Vec<u8>)
        ensures
            r@ == self@,
    {
        &self.bytes
    }

    /// Replaces the bytes in `[start, end)` with `insert`: the one mutation
    /// primitive. Insertion is an empty range, deletion an empty `insert`.
    pub fn replace_range(&mut self, start: usize, end: usize, insert: &[u8])
        requires
            start <= end <= old(self)@.len(),
        ensures
            final(self)@ == old(self)@.take(start as int) + insert@ + old(self)@.skip(end as int),
    {
        let n = self.bytes.len();
        let m = insert.len();
        let mut out: Vec<u8> = Vec::new();
        let mut i: usize = 0;
        while i < start
            invariant
                i <= start <= end <= n,
                n == self.bytes@.len(),
                m == insert@.len(),
                out@ == self.bytes@.subrange(0, i as int),
            decreases start - i,
        {
            out.push(self.bytes[i]);
            assert(out@ =~= self.bytes@.subrange(0, i + 1));
            i = i + 1;
        }
        let mut j: usize = 0;
        while j < m
            invariant
                j <= m,
                start <= end <= n,
                n == self.bytes@.len(),
                m == insert@.len(),
                out@ == self.bytes@.subrange(0, start as int) + insert@.subrange(0, j as int),
            decreases m - j,
        {
            out.push(insert[j]);
            assert(out@ =~= self.bytes@.subrange(0, start as int) + insert@.subrange(
                0,
                j + 1,
            ));
            j = j + 1;
        }
        let mut k: usize = end;
        while k < n
            invariant
                end <= k <= n,
                start <= end,
                n == self.bytes@.len(),
                m == insert@.len(),
                out@ == self.bytes@.subrange(0, start as int) + insert@ + self.bytes@.subrange(
                    end as int,
                    k as int,
                ),
            decreases n - k,
        {
            out.push(self.bytes[k]);
            assert(out@ =~= self.bytes@.subrange(0, start as int) + insert@
                + self.bytes@.subrange(end as int, k + 1));
            k = k + 1;
        }
        assert(insert@.subrange(0, m as int) =~= insert@);
        assert(out@ =~= self.bytes@.take(start as int) + insert@ + self.bytes@.skip(end as int));
        self.bytes = out;
    }
}

} // verus!
