//! Byte-level layout of a page: little-endian field codecs, the fixed
//! 18-byte header, and the page invariant.
//!
//! A page is exactly [`PAGE_SIZE`] bytes, split into four zones, in order:
//! the header (bytes `0..18`), the directory (bytes `18..lower`, growing
//! upward), free space (`lower..higher`), and the tuple area
//! (`higher..PAGE_SIZE`, growing downward).

use vstd::prelude::*;

verus! {

/// Size in bytes of every page; files are exactly one page.
pub const PAGE_SIZE: usize = 8192;

/// Byte offset of the `lsn` header field (unsigned 64-bit).
pub const LSN_OFFSET: usize = 0;

/// Byte offset of the `checksum` header field (unsigned 16-bit, never verified).
pub const CHECKSUM_OFFSET: usize = 8;

/// Byte offset of the `flags` header field (unsigned 16-bit, opaque).
pub const FLAGS_OFFSET: usize = 10;

/// Byte offset of the `lower` header field: the end of the directory.
pub const LOWER_OFFSET: usize = 12;

/// Byte offset of the `higher` header field: the start of the tuple area.
pub const HIGHER_OFFSET: usize = 14;

/// Byte offset of the `special_space` header field (reserved).
pub const SPECIAL_SPACE_OFFSET: usize = 16;

/// First byte past the fixed header; the directory starts here.
pub const HEADER_SIZE: usize = 18;

/// The value of the little-endian unsigned 16-bit field stored at `off`.
pub open spec fn spec_u16_at(p: Seq<u8>, off: int) -> int {
    p[off] + 0x100 * p[off + 1]
}

/// The value of the little-endian unsigned 32-bit field stored at `off`.
pub open spec fn spec_u32_at(p: Seq<u8>, off: int) -> int {
    p[off] + 0x100 * p[off + 1] + 0x1_0000 * p[off + 2] + 0x100_0000 * p[off + 3]
}

/// The value of the little-endian unsigned 64-bit field stored at `off`.
pub open spec fn spec_u64_at(p: Seq<u8>, off: int) -> int {
    p[off] + 0x100 * p[off + 1] + 0x1_0000 * p[off + 2] + 0x100_0000 * p[off + 3] + 0x1_0000_0000
        * p[off + 4] + 0x100_0000_0000 * p[off + 5] + 0x1_0000_0000_0000 * p[off + 6]
        + 0x100_0000_0000_0000 * p[off + 7]
}

/// The `lower` boundary recorded in the page's header.
pub open spec fn page_lower(p: Seq<u8>) -> int {
    spec_u16_at(p, LOWER_OFFSET as int)
}

/// The `higher` boundary recorded in the page's header.
pub open spec fn page_higher(p: Seq<u8>) -> int {
    spec_u16_at(p, HIGHER_OFFSET as int)
}

/// The page invariant: full size, and the two boundaries order the four
/// zones, with a directory made of whole two-byte entries.
pub open spec fn page_header_wf(p: Seq<u8>) -> bool {
    &&& p.len() == PAGE_SIZE
    &&& HEADER_SIZE <= page_lower(p)
    &&& page_lower(p) <= page_higher(p)
    &&& page_higher(p) <= PAGE_SIZE
    &&& (page_lower(p) - HEADER_SIZE) % 2 == 0
}

/// Read the little-endian unsigned 16-bit field stored at `off`.
pub fn read_u16(p: &Vec<u8>, off: usize) -> (r: u16)
    requires
        off + 2 <= p@.len(),
    ensures
        r as int == spec_u16_at(p@, off as int),
{
    let n: usize = p.len();
    let lo = p[off];
    let hi = p[off + 1];
    (lo as u16) + (hi as u16) * 0x100
}

/// Read the little-endian unsigned 32-bit field stored at `off`.
pub fn read_u32(p: &Vec<u8>, off: usize) -> (r: u32)
    requires
        off + 4 <= p@.len(),
    ensures
        r as int == spec_u32_at(p@, off as int),
{
    let n: usize = p.len();
    let b0 = p[off] as u32;
    let b1 = p[off + 1] as u32;
    let b2 = p[off + 2] as u32;
    let b3 = p[off + 3] as u32;
    b0 + b1 * 0x100 + b2 * 0x1_0000 + b3 * 0x100_0000
}

/// Read the little-endian unsigned 64-bit field stored at `off`.
pub fn read_u64(p: &Vec<u8>, off: usize) -> (r: u64)
    requires
        off + 8 <= p@.len(),
    ensures
        r as int == spec_u64_at(p@, off as int),
{
    let n: usize = p.len();
    let b0 = p[off] as u64;
    let b1 = p[off + 1] as u64;
    let b2 = p[off + 2] as u64;
    let b3 = p[off + 3] as u64;
    let b4 = p[off + 4] as u64;
    let b5 = p[off + 5] as u64;
    let b6 = p[off + 6] as u64;
    let b7 = p[off + 7] as u64;
    b0 + b1 * 0x100 + b2 * 0x1_0000 + b3 * 0x100_0000 + b4 * 0x1_0000_0000 + b5 * 0x100_0000_0000
        + b6 * 0x1_0000_0000_0000 + b7 * 0x100_0000_0000_0000
}

/// Write `v` as a little-endian unsigned 16-bit field at `off`; no other
/// byte of the page changes.
pub fn write_u16(p: &mut Vec<u8>, off: usize, v: u16)
    requires
        off + 2 <= old(p)@.len(),
    ensures
        final(p)@.len() == old(p)@.len(),
        spec_u16_at(final(p)@, off as int) == v as int,
        forall|i: int|
            0 <= i < old(p)@.len() && !(off <= i < off + 2) ==> final(p)@[i] == old(p)@[i],
{
    proof {
        assert(v == (v & 0xff) + 0x100 * (v >> 8) && (v & 0xff) < 0x100 && (v >> 8) < 0x100)
            by (bit_vector);
    }
    let n: usize = p.len();
    p[off] = (v & 0xff) as u8;
    p[off + 1] = (v >> 8) as u8;
}

/// Write `v` as a little-endian unsigned 32-bit field at `off`; no other
/// byte of the page changes.
pub fn write_u32(p: &mut Vec<u8>, off: usize, v: u32)
    requires
        off + 4 <= old(p)@.len(),
    ensures
        final(p)@.len() == old(p)@.len(),
        spec_u32_at(final(p)@, off as int) == v as int,
        forall|i: int|
            0 <= i < old(p)@.len() && !(off <= i < off + 4) ==> final(p)@[i] == old(p)@[i],
{
    proof {
        assert(v == (v & 0xff) + 0x100 * ((v >> 8) & 0xff) + 0x1_0000 * ((v >> 16) & 0xff)
            + 0x100_0000 * (v >> 24) && (v & 0xff) < 0x100 && ((v >> 8) & 0xff) < 0x100 && ((v
            >> 16) & 0xff) < 0x100 && (v >> 24) < 0x100) by (bit_vector);
    }
    let n: usize = p.len();
    p[off] = (v & 0xff) as u8;
    p[off + 1] = ((v >> 8) & 0xff) as u8;
    p[off + 2] = ((v >> 16) & 0xff) as u8;
    p[off + 3] = (v >> 24) as u8;
}

/// Write `v` as a little-endian unsigned 64-bit field at `off`; no other
/// byte of the page changes.
pub fn write_u64(p: &mut Vec<u8>, off: usize, v: u64)
    requires
        off + 8 <= old(p)@.len(),
    ensures
        final(p)@.len() == old(p)@.len(),
        spec_u64_at(final(p)@, off as int) == v as int,
        forall|i: int|
            0 <= i < old(p)@.len() && !(off <= i < off + 8) ==> final(p)@[i] == old(p)@[i],
{
    proof {
        assert(v == (v & 0xff) + 0x100 * ((v >> 8) & 0xff) + 0x1_0000 * ((v >> 16) & 0xff)
            + 0x100_0000 * ((v >> 24) & 0xff) + 0x1_0000_0000 * ((v >> 32) & 0xff)
            + 0x100_0000_0000 * ((v >> 40) & 0xff) + 0x1_0000_0000_0000 * ((v >> 48) & 0xff)
            + 0x100_0000_0000_0000 * (v >> 56) && (v & 0xff) < 0x100 && ((v >> 8) & 0xff) < 0x100
            && ((v >> 16) & 0xff) < 0x100 && ((v >> 24) & 0xff) < 0x100 && ((v >> 32) & 0xff)
            < 0x100 && ((v >> 40) & 0xff) < 0x100 && ((v >> 48) & 0xff) < 0x100 && (v >> 56)
            < 0x100) by (bit_vector);
    }
    let n: usize = p.len();
    p[off] = (v & 0xff) as u8;
    p[off + 1] = ((v >> 8) & 0xff) as u8;
    p[off + 2] = ((v >> 16) & 0xff) as u8;
    p[off + 3] = ((v >> 24) & 0xff) as u8;
    p[off + 4] = ((v >> 32) & 0xff) as u8;
    p[off + 5] = ((v >> 40) & 0xff) as u8;
    p[off + 6] = ((v >> 48) & 0xff) as u8;
    p[off + 7] = (v >> 56) as u8;
}

/// Copy `bytes` into the page starting at `off`; no other byte changes.
pub fn copy_in(p: &mut Vec<u8>, off: usize, bytes: &Vec<u8>)
    requires
        off + bytes@.len() <= old(p)@.len(),
    ensures
        final(p)@.len() == old(p)@.len(),
        final(p)@.subrange(off as int, off + bytes@.len()) == bytes@,
        forall|i: int|
            0 <= i < old(p)@.len() && !(off <= i < off + bytes@.len()) ==> final(p)@[i] == old(
                p,
            )@[i],
{
    let n = bytes.len();
    let pn: usize = p.len();
    let mut j: usize = 0;
    while j < n
        invariant
            n == bytes@.len(),
            off + n <= pn,
            pn == p@.len(),
            j <= n,
            p@.len() == old(p)@.len(),
            forall|i: int| 0 <= i < j ==> p@[off + i] == bytes@[i],
            forall|i: int| 0 <= i < p@.len() && !(off <= i < off + n) ==> p@[i] == old(p)@[i],
        decreases n - j,
    {
        p[off + j] = bytes[j];
        j = j + 1;
    }
    assert(final(p)@.subrange(off as int, off + bytes@.len()) =~= bytes@);
}

/// Copy `len` bytes out of the page starting at `off`.
pub fn copy_out(p: &Vec<u8>, off: usize, len: usize) -> (r: Vec<u8>)
    requires
        off + len <= p@.len(),
    ensures
        r@ == p@.subrange(off as int, off + len),
{
    let pn: usize = p.len();
    let mut r: Vec<u8> = Vec::new();
    let mut j: usize = 0;
    while j < len
        invariant
            off + len <= pn,
            pn == p@.len(),
            j <= len,
            r@.len() == j,
            forall|i: int| 0 <= i < j ==> r@[i] == p@[off + i],
        decreases len - j,
    {
        r.push(p[off + j]);
        j = j + 1;
    }
    assert(r@ =~= p@.subrange(off as int, off + len));
    r
}

/// The two bytes of `v` in little-endian order.
pub open spec fn u16_le(v: u16) -> Seq<u8> {
    seq![(v & 0xff) as u8, (v >> 8) as u8]
}

/// The four bytes of `v` in little-endian order.
pub open spec fn u32_le(v: u32) -> Seq<u8> {
    seq![
        (v & 0xff) as u8,
        ((v >> 8) & 0xff) as u8,
        ((v >> 16) & 0xff) as u8,
        ((v >> 24) & 0xff) as u8,
    ]
}

/// A 16-bit field read where `v`'s little-endian bytes lie gives back `v`.
pub proof fn lemma_u16_le_at(p: Seq<u8>, off: int, v: u16)
    requires
        0 <= off,
        off + 2 <= p.len(),
        p.subrange(off, off + 2) == u16_le(v),
    ensures
        spec_u16_at(p, off) == v as int,
{
    assert(p[off] == p.subrange(off, off + 2)[0]);
    assert(p[off + 1] == p.subrange(off, off + 2)[1]);
    assert((v & 0xff) + 0x100 * (v >> 8) == v && (v & 0xff) < 0x100 && (v >> 8) < 0x100)
        by (bit_vector);
}

/// A 32-bit field read where `v`'s little-endian bytes lie gives back `v`.
pub proof fn lemma_u32_le_at(p: Seq<u8>, off: int, v: u32)
    requires
        0 <= off,
        off + 4 <= p.len(),
        p.subrange(off, off + 4) == u32_le(v),
    ensures
        spec_u32_at(p, off) == v as int,
{
    assert(p[off] == p.subrange(off, off + 4)[0]);
    assert(p[off + 1] == p.subrange(off, off + 4)[1]);
    assert(p[off + 2] == p.subrange(off, off + 4)[2]);
    assert(p[off + 3] == p.subrange(off, off + 4)[3]);
    assert((v & 0xff) + 0x100 * ((v >> 8) & 0xff) + 0x1_0000 * ((v >> 16) & 0xff) + 0x100_0000 * ((
    v >> 24) & 0xff) == v && (v & 0xff) < 0x100 && ((v >> 8) & 0xff) < 0x100 && ((v >> 16) & 0xff)
        < 0x100 && ((v >> 24) & 0xff) < 0x100) by (bit_vector);
}

/// Append `v`'s two little-endian bytes to a byte buffer.
pub fn push_u16(data: &mut Vec<u8>, v: u16)
    ensures
        final(data)@ == old(data)@ + u16_le(v),
{
    data.push((v & 0xff) as u8);
    data.push((v >> 8) as u8);
    assert(final(data)@ =~= old(data)@ + u16_le(v));
}

/// Append `v`'s four little-endian bytes to a byte buffer.
pub fn push_u32(data: &mut Vec<u8>, v: u32)
    ensures
        final(data)@ == old(data)@ + u32_le(v),
{
    data.push((v & 0xff) as u8);
    data.push(((v >> 8) & 0xff) as u8);
    data.push(((v >> 16) & 0xff) as u8);
    data.push(((v >> 24) & 0xff) as u8);
    assert(final(data)@ =~= old(data)@ + u32_le(v));
}

/// The six fixed-width fields of a page's header, stored little-endian at
/// fixed offsets. `lsn`, `checksum`, `flags` and `special_space` are
/// persisted but otherwise inert; only the allocator mutates `lower` and
/// `higher` after page creation.
pub struct PageHeader {
    pub lsn: u64,
    pub checksum: u16,
    pub flags: u16,
    pub lower: u16,
    pub higher: u16,
    pub special_space: u16,
}

impl PageHeader {
    /// True when the page's first bytes hold exactly these field values.
    pub open spec fn stored_in(self, p: Seq<u8>) -> bool {
        &&& self.lsn as int == spec_u64_at(p, LSN_OFFSET as int)
        &&& self.checksum as int == spec_u16_at(p, CHECKSUM_OFFSET as int)
        &&& self.flags as int == spec_u16_at(p, FLAGS_OFFSET as int)
        &&& self.lower as int == spec_u16_at(p, LOWER_OFFSET as int)
        &&& self.higher as int == spec_u16_at(p, HIGHER_OFFSET as int)
        &&& self.special_space as int == spec_u16_at(p, SPECIAL_SPACE_OFFSET as int)
    }

    /// Decode the header fields from a page's first bytes. No validation is
    /// performed: any prefix of at least [`HEADER_SIZE`] bytes decodes.
    pub fn decode(p: &Vec<u8>) -> (h: PageHeader)
        requires
            p@.len() >= HEADER_SIZE,
        ensures
            h.stored_in(p@),
    {
        PageHeader {
            lsn: read_u64(p, LSN_OFFSET),
            checksum: read_u16(p, CHECKSUM_OFFSET),
            flags: read_u16(p, FLAGS_OFFSET),
            lower: read_u16(p, LOWER_OFFSET),
            higher: read_u16(p, HIGHER_OFFSET),
            special_space: read_u16(p, SPECIAL_SPACE_OFFSET),
        }
    }

    /// Encode the fields at their fixed offsets; every byte from
    /// [`HEADER_SIZE`] on is left unchanged.
    pub fn encode(self, p: &mut Vec<u8>)
        requires
            old(p)@.len() >= HEADER_SIZE,
        ensures
            final(p)@.len() == old(p)@.len(),
            self.stored_in(final(p)@),
            forall|i: int| HEADER_SIZE <= i < old(p)@.len() ==> final(p)@[i] == old(p)@[i],
    {
        write_u64(p, LSN_OFFSET, self.lsn);
        write_u16(p, CHECKSUM_OFFSET, self.checksum);
        write_u16(p, FLAGS_OFFSET, self.flags);
        write_u16(p, LOWER_OFFSET, self.lower);
        write_u16(p, HIGHER_OFFSET, self.higher);
        write_u16(p, SPECIAL_SPACE_OFFSET, self.special_space);
    }
}

} // verus!
