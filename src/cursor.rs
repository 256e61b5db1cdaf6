use vstd::prelude::*;

verus! {

/// The unsigned little-endian integer held in the two bytes at `at`.
pub open spec fn le_u16(b: Seq<u8>, at: int) -> int {
    b[at] + 256 * b[at + 1]
}

/// The unsigned little-endian integer held in the four bytes at `at`.
pub open spec fn le_u32(b: Seq<u8>, at: int) -> int {
    le_u16(b, at) + 65536 * le_u16(b, at + 2)
}

/// The two's-complement little-endian integer held in the four bytes at `at`.
pub open spec fn le_i32(b: Seq<u8>, at: int) -> int {
    if le_u32(b, at) < 0x8000_0000 {
        le_u32(b, at)
    } else {
        le_u32(b, at) - 0x1_0000_0000
    }
}

/// A position in a byte buffer that moves forward by the width of each field
/// read at it.
pub struct Cursor {
    pub pos: usize,
}

impl Cursor {
    pub fn new(pos: usize) -> (r: Cursor)
        ensures
            r.pos == pos,
    {
        Cursor { pos }
    }

    pub fn read_u16_le(&mut self, bytes: &[u8]) -> (r: u16)
        requires
            old(self).pos + 2 <= bytes@.len(),
        ensures
            r as int == le_u16(bytes@, old(self).pos as int),
            final(self).pos == old(self).pos + 2,
    {
        let lo = bytes[self.pos] as u16;
        let hi = bytes[self.pos + 1] as u16;
        self.pos = self.pos + 2;
        lo + 256 * hi
    }

    pub fn read_u32_le(&mut self, bytes: &[u8]) -> (r: u32)
        requires
            old(self).pos + 4 <= bytes@.len(),
        ensures
            r as int == le_u32(bytes@, old(self).pos as int),
            final(self).pos == old(self).pos + 4,
    {
        let lo = self.read_u16_le(bytes) as u32;
        let hi = self.read_u16_le(bytes) as u32;
        lo + 65536 * hi
    }

    pub fn read_i32_le(&mut self, bytes: &[u8]) -> (r: i32)
        requires
            old(self).pos + 4 <= bytes@.len(),
        ensures
            r as int == le_i32(bytes@, old(self).pos as int),
            final(self).pos == old(self).pos + 4,
    {
        let v = self.read_u32_le(bytes);
        if v < 0x8000_0000 {
            v as i32
        } else {
            (v as i64 - 0x1_0000_0000i64) as i32
        }
    }
}

/// The `N` bytes of `bytes` that start at `start`, as an array.
pub fn take_array<const N: usize>(bytes: &[u8], start: usize) -> (r: [u8; N])
    requires
        start + N <= bytes@.len(),
    ensures
        r@ == bytes@.subrange(start as int, start + N),
{
    let mut r: [u8; N] = [0u8; N];
    let mut i: usize = 0;
    while i < N
        invariant
            start + N <= bytes.len(),
            i <= N,
            r@.len() == N,
            forall|k: int| 0 <= k < i ==> r@[k] == bytes@[start + k],
        decreases N - i,
    {
        r[i] = bytes[start + i];
        i = i + 1;
    }
    assert(r@ =~= bytes@.subrange(start as int, start + N));
    r
}

} // verus!
