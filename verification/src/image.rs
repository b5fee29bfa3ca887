//! The mapped image as a byte sequence.
//!
//! The loader maps the executable image somewhere in memory; the relocators
//! read and rewrite machine words inside it. This module models the image as
//! a vector of bytes and provides verified little-endian word access at byte
//! offsets, specified against the codec in `vstd::bytes`.

use vstd::prelude::*;
use vstd::bytes::spec_u16_from_le_bytes;
use vstd::bytes::spec_u32_from_le_bytes;
use vstd::bytes::spec_u32_to_le_bytes;
use vstd::bytes::spec_u64_from_le_bytes;
use vstd::bytes::spec_u64_to_le_bytes;
use vstd::bytes::u16_from_le_bytes;
use vstd::bytes::u32_from_le_bytes;
use vstd::bytes::u32_to_le_bytes;
use vstd::bytes::u64_from_le_bytes;
use vstd::bytes::u64_to_le_bytes;
use vstd::pervasive::VecAdditionalExecFns;
use vstd::slice::slice_subrange;

verus! {

/// `s` with the bytes `bs` stored at offset `off`; everything else unchanged.
pub open spec fn store_bytes(s: Seq<u8>, off: int, bs: Seq<u8>) -> Seq<u8> {
    Seq::new(s.len(), |i: int| if off <= i < off + bs.len() { bs[i - off] } else { s[i] })
}

/// Read the little-endian 64-bit word at byte offset `off`.
pub fn read_u64_le(image: &Vec<u8>, off: usize) -> (r: u64)
    requires
        off + 8 <= image@.len(),
    ensures
        r == spec_u64_from_le_bytes(image@.subrange(off as int, off as int + 8)),
{
    let n = image.len();
    let window = slice_subrange(image.as_slice(), off, off + 8);
    u64_from_le_bytes(window)
}

/// Write `v` at byte offset `off` as a little-endian 64-bit word.
pub fn write_u64_le(image: &mut Vec<u8>, off: usize, v: u64)
    requires
        off + 8 <= old(image)@.len(),
    ensures
        final(image)@ == store_bytes(old(image)@, off as int, spec_u64_to_le_bytes(v)),
{
    let n = image.len();
    let encoded = u64_to_le_bytes(v);
    let mut k: usize = 0;
    while k < 8
        invariant
            off + 8 <= n,
            n <= usize::MAX,
            off + 8 <= old(image)@.len(),
            image@.len() == old(image)@.len(),
            encoded@ == spec_u64_to_le_bytes(v),
            encoded@.len() == 8,
            k <= 8,
            forall|i: int|
                0 <= i < image@.len() && !(off <= i < off + k) ==> image@[i] == old(image)@[i],
            forall|i: int| off <= i < off + k ==> image@[i] == encoded@[i - off],
        decreases 8 - k,
    {
        image.set(off + k, encoded[k]);
        k = k + 1;
    }
    proof {
        assert(image@ =~= store_bytes(old(image)@, off as int, spec_u64_to_le_bytes(v)));
    }
}

/// Read the little-endian 16-bit word at byte offset `off`.
pub fn read_u16_le(image: &Vec<u8>, off: usize) -> (r: u16)
    requires
        off + 2 <= image@.len(),
    ensures
        r == spec_u16_from_le_bytes(image@.subrange(off as int, off as int + 2)),
{
    let n = image.len();
    let window = slice_subrange(image.as_slice(), off, off + 2);
    u16_from_le_bytes(window)
}

/// Read the little-endian 32-bit word at byte offset `off`.
pub fn read_u32_le(image: &Vec<u8>, off: usize) -> (r: u32)
    requires
        off + 4 <= image@.len(),
    ensures
        r == spec_u32_from_le_bytes(image@.subrange(off as int, off as int + 4)),
{
    let n = image.len();
    let window = slice_subrange(image.as_slice(), off, off + 4);
    u32_from_le_bytes(window)
}

/// Write `v` at byte offset `off` as a little-endian 32-bit word.
pub fn write_u32_le(image: &mut Vec<u8>, off: usize, v: u32)
    requires
        off + 4 <= old(image)@.len(),
    ensures
        final(image)@ == store_bytes(old(image)@, off as int, spec_u32_to_le_bytes(v)),
{
    let n = image.len();
    let encoded = u32_to_le_bytes(v);
    let mut k: usize = 0;
    while k < 4
        invariant
            off + 4 <= n,
            n <= usize::MAX,
            off + 4 <= old(image)@.len(),
            image@.len() == old(image)@.len(),
            encoded@ == spec_u32_to_le_bytes(v),
            encoded@.len() == 4,
            k <= 4,
            forall|i: int|
                0 <= i < image@.len() && !(off <= i < off + k) ==> image@[i] == old(image)@[i],
            forall|i: int| off <= i < off + k ==> image@[i] == encoded@[i - off],
        decreases 4 - k,
    {
        image.set(off + k, encoded[k]);
        k = k + 1;
    }
    proof {
        assert(image@ =~= store_bytes(old(image)@, off as int, spec_u32_to_le_bytes(v)));
    }
}

} // verus!
