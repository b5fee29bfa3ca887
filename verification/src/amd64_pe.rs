//! Self-relocation for the 64-bit PE path.
//!
//! A PE image carries base relocations as a list of blocks, one per 4 KiB
//! page. A block holds the page's address offset within the image and a list
//! of 16-bit entries, each packing a kind in its top four bits and a
//! page-relative offset in its low twelve. The only kinds emitted for the
//! images this path loads are the padding kind (no fixup), the 32-bit
//! absolute-address kind and the 64-bit absolute-address kind. A fixup adds
//! the load delta — actual load base minus link-time base — to the word
//! stored at the target, at the entry's declared width.
//!
//! The block list is first flattened into single fixups and validated; a
//! malformed list (an unknown kind, a target outside the image) leaves the
//! image unchanged and reports the fault, which is bootstrap-fatal.

use vstd::prelude::*;
use vstd::bytes::lemma_auto_spec_u32_to_from_le_bytes;
use vstd::bytes::lemma_auto_spec_u64_to_from_le_bytes;
use vstd::bytes::spec_u32_from_le_bytes;
use vstd::bytes::spec_u32_to_le_bytes;
use vstd::bytes::spec_u64_from_le_bytes;
use vstd::bytes::spec_u64_to_le_bytes;
use crate::amd64_elf::wrap_add64;
use crate::fatal::RelocError;
use crate::i686_elf::wrap_add32;
use vstd::bytes::spec_u16_from_le_bytes;
use crate::image::read_u16_le;
use crate::image::read_u32_le;
use crate::image::read_u64_le;
use crate::image::store_bytes;
use crate::image::write_u32_le;
use crate::image::write_u64_le;

verus! {

/// Padding entry: no fixup, present only to align a block.
pub const IMAGE_REL_BASED_ABSOLUTE: u16 = 0;

/// Add the low 32 bits of the delta to the 32-bit word at the target.
pub const IMAGE_REL_BASED_HIGHLOW: u16 = 3;

/// Add the whole 64-bit delta to the 64-bit word at the target.
pub const IMAGE_REL_BASED_DIR64: u16 = 10;

/// One block of the base-relocation list: a 4 KiB page's worth of entries.
#[derive(Debug)]
pub struct BaseRelocBlock {
    /// Byte offset of the page this block covers, within the image.
    pub page_rva: u32,
    /// Packed entries: kind in the top 4 bits, page offset in the low 12.
    pub entries: Vec<u16>,
}

/// One decoded fixup: an image offset and the width of the addition.
#[derive(PartialEq, Eq, Structural, Clone, Copy, Debug)]
pub struct Fixup {
    /// Byte offset of the fixup target within the image.
    pub rva: u64,
    /// True for a 64-bit addition, false for a 32-bit one.
    pub wide: bool,
}

/// The kind packed in an entry's top 4 bits.
pub open spec fn entry_kind(e: u16) -> u16 {
    e / 0x1000
}

/// The page-relative offset packed in an entry's low 12 bits.
pub open spec fn entry_page_offset(e: u16) -> u16 {
    e % 0x1000
}

pub open spec fn entry_kind_supported(e: u16) -> bool {
    entry_kind(e) == IMAGE_REL_BASED_ABSOLUTE || entry_kind(e) == IMAGE_REL_BASED_HIGHLOW
        || entry_kind(e) == IMAGE_REL_BASED_DIR64
}

/// Every entry of every block carries a supported kind.
pub open spec fn blocks_kinds_ok(bs: Seq<BaseRelocBlock>) -> bool {
    forall|j: int, k: int|
        0 <= j < bs.len() && 0 <= k < (#[trigger] bs[j]).entries@.len() ==> entry_kind_supported(
            #[trigger] bs[j].entries@[k],
        )
}

/// The fixups one entry stands for: none for padding, one otherwise.
pub open spec fn entry_fixups(page_rva: u32, e: u16) -> Seq<Fixup> {
    if entry_kind(e) == IMAGE_REL_BASED_HIGHLOW {
        seq![Fixup { rva: (page_rva + entry_page_offset(e)) as u64, wide: false }]
    } else if entry_kind(e) == IMAGE_REL_BASED_DIR64 {
        seq![Fixup { rva: (page_rva + entry_page_offset(e)) as u64, wide: true }]
    } else {
        Seq::<Fixup>::empty()
    }
}

/// The fixups of one block's entries, first to last.
pub open spec fn block_fixups(page_rva: u32, es: Seq<u16>) -> Seq<Fixup>
    decreases es.len(),
{
    if es.len() == 0 {
        Seq::<Fixup>::empty()
    } else {
        entry_fixups(page_rva, es[0]) + block_fixups(page_rva, es.subrange(1, es.len() as int))
    }
}

/// The fixups of the whole block list, block by block.
pub open spec fn blocks_fixups(bs: Seq<BaseRelocBlock>) -> Seq<Fixup>
    decreases bs.len(),
{
    if bs.len() == 0 {
        Seq::<Fixup>::empty()
    } else {
        block_fixups(bs[0].page_rva, bs[0].entries@) + blocks_fixups(bs.subrange(1, bs.len() as int))
    }
}

/// The width in bytes of the word a fixup rewrites.
pub open spec fn fixup_width(f: Fixup) -> int {
    if f.wide {
        8
    } else {
        4
    }
}

/// The fixup's whole target lies within an image of length `len`.
pub open spec fn fixup_in_bounds(f: Fixup, len: nat) -> bool {
    f.rva + fixup_width(f) <= len
}

pub open spec fn fixups_in_bounds(fs: Seq<Fixup>, len: nat) -> bool {
    forall|j: int| 0 <= j < fs.len() ==> fixup_in_bounds(#[trigger] fs[j], len)
}

/// The low 32 bits of the delta, the amount a 32-bit fixup adds.
pub open spec fn delta_low32(delta: u64) -> u32 {
    (delta % 0x1_0000_0000) as u32
}

/// The image after one fixup: the delta added to the stored word, at the
/// entry's declared width, and nothing else changed.
pub open spec fn apply_fixup(s: Seq<u8>, delta: u64, f: Fixup) -> Seq<u8> {
    if f.wide {
        store_bytes(
            s,
            f.rva as int,
            spec_u64_to_le_bytes(
                wrap_add64(
                    spec_u64_from_le_bytes(s.subrange(f.rva as int, f.rva as int + 8)),
                    delta,
                ),
            ),
        )
    } else {
        store_bytes(
            s,
            f.rva as int,
            spec_u32_to_le_bytes(
                wrap_add32(
                    spec_u32_from_le_bytes(s.subrange(f.rva as int, f.rva as int + 4)),
                    delta_low32(delta),
                ),
            ),
        )
    }
}

/// The image after all fixups of `fs`, applied first to last.
pub open spec fn pe_relocated(s: Seq<u8>, delta: u64, fs: Seq<Fixup>) -> Seq<u8>
    decreases fs.len(),
{
    if fs.len() == 0 {
        s
    } else {
        pe_relocated(apply_fixup(s, delta, fs[0]), delta, fs.subrange(1, fs.len() as int))
    }
}

/// The target byte range of fixup `f` includes image offset `i`.
pub open spec fn pe_covers(f: Fixup, i: int) -> bool {
    f.rva <= i < f.rva + fixup_width(f)
}

/// Some fixup of `fs` has image offset `i` in its target range.
pub open spec fn pe_covered_by_some(fs: Seq<Fixup>, i: int) -> bool {
    exists|j: int| 0 <= j < fs.len() && pe_covers(#[trigger] fs[j], i)
}

/// No two fixups' target ranges overlap.
pub open spec fn pe_ranges_disjoint(fs: Seq<Fixup>) -> bool {
    forall|j: int, k: int|
        0 <= j < k < fs.len() ==> (#[trigger] fs[j]).rva + fixup_width(fs[j]) <= (#[trigger] fs[k]).rva
            || fs[k].rva + fixup_width(fs[k]) <= fs[j].rva
}

/// The bytes one fixup must leave at its target: the original word there,
/// plus the delta, at the fixup's own width.
pub open spec fn fixed_up_bytes(s: Seq<u8>, delta: u64, f: Fixup) -> Seq<u8> {
    if f.wide {
        spec_u64_to_le_bytes(
            wrap_add64(spec_u64_from_le_bytes(s.subrange(f.rva as int, f.rva as int + 8)), delta),
        )
    } else {
        spec_u32_to_le_bytes(
            wrap_add32(
                spec_u32_from_le_bytes(s.subrange(f.rva as int, f.rva as int + 4)),
                delta_low32(delta),
            ),
        )
    }
}

pub proof fn lemma_pe_relocated_len(s: Seq<u8>, delta: u64, fs: Seq<Fixup>)
    ensures
        pe_relocated(s, delta, fs).len() == s.len(),
    decreases fs.len(),
{
    if fs.len() > 0 {
        lemma_pe_relocated_len(apply_fixup(s, delta, fs[0]), delta, fs.subrange(1, fs.len() as int));
    }
}

/// Appending one fixup applies it after all the others.
pub proof fn lemma_pe_relocated_push(s: Seq<u8>, delta: u64, fs: Seq<Fixup>, f: Fixup)
    ensures
        pe_relocated(s, delta, fs.push(f)) == apply_fixup(pe_relocated(s, delta, fs), delta, f),
    decreases fs.len(),
{
    if fs.len() == 0 {
        assert(fs.push(f)[0] == f);
        assert(fs.push(f).subrange(1, 1) =~= Seq::<Fixup>::empty());
        assert(pe_relocated(s, delta, fs.push(f)) == pe_relocated(
            apply_fixup(s, delta, f),
            delta,
            Seq::<Fixup>::empty(),
        ));
        assert(pe_relocated(s, delta, fs) == s);
    } else {
        let tail = fs.subrange(1, fs.len() as int);
        assert(fs.push(f)[0] == fs[0]);
        assert(fs.push(f).subrange(1, fs.len() as int + 1) =~= tail.push(f));
        assert(pe_relocated(s, delta, fs.push(f)) == pe_relocated(
            apply_fixup(s, delta, fs[0]),
            delta,
            tail.push(f),
        ));
        lemma_pe_relocated_push(apply_fixup(s, delta, fs[0]), delta, tail, f);
        assert(pe_relocated(s, delta, fs) == pe_relocated(apply_fixup(s, delta, fs[0]), delta, tail));
    }
}

/// PE relocation correctness, stated byte by byte: with no overlap among
/// the targets, every fixup results in exactly one delta addition at its
/// own declared width — a 32-bit delta is never applied to a 64-bit slot
/// nor the other way round — and every byte outside all targets is
/// untouched.
pub proof fn lemma_pe_relocated_pointwise(s: Seq<u8>, delta: u64, fs: Seq<Fixup>)
    requires
        fixups_in_bounds(fs, s.len()),
        pe_ranges_disjoint(fs),
    ensures
        pe_relocated(s, delta, fs).len() == s.len(),
        forall|j: int, i: int|
            0 <= j < fs.len() && #[trigger] pe_covers(fs[j], i) ==> pe_relocated(s, delta, fs)[i]
                == fixed_up_bytes(s, delta, fs[j])[i - fs[j].rva],
        forall|i: int|
            0 <= i < s.len() && !pe_covered_by_some(fs, i) ==> #[trigger] pe_relocated(
                s,
                delta,
                fs,
            )[i] == s[i],
    decreases fs.len(),
{
    lemma_pe_relocated_len(s, delta, fs);
    lemma_auto_spec_u32_to_from_le_bytes();
    lemma_auto_spec_u64_to_from_le_bytes();
    if fs.len() > 0 {
        let f0 = fs[0];
        let s1 = apply_fixup(s, delta, f0);
        let tail = fs.subrange(1, fs.len() as int);
        assert(s1.len() == s.len());
        assert forall|j: int| 0 <= j < tail.len() implies fixup_in_bounds(
            #[trigger] tail[j],
            s1.len(),
        ) by {
            assert(tail[j] == fs[j + 1]);
        }
        lemma_pe_relocated_pointwise(s1, delta, tail);
        let r = pe_relocated(s, delta, fs);
        assert(r == pe_relocated(s1, delta, tail));

        // A fixup disjoint from `f0` reads the same word in `s1` as in `s`.
        assert forall|j: int| 1 <= j < fs.len() implies fixed_up_bytes(s1, delta, #[trigger] fs[j])
            == fixed_up_bytes(s, delta, fs[j]) by {
            let f = fs[j];
            assert(s1.subrange(f.rva as int, f.rva as int + fixup_width(f)) =~= s.subrange(
                f.rva as int,
                f.rva as int + fixup_width(f),
            ));
            if f.wide {
                assert(s1.subrange(f.rva as int, f.rva as int + 8) == s.subrange(
                    f.rva as int,
                    f.rva as int + 8,
                ));
            } else {
                assert(s1.subrange(f.rva as int, f.rva as int + 4) == s.subrange(
                    f.rva as int,
                    f.rva as int + 4,
                ));
            }
        }

        assert forall|j: int, i: int|
            0 <= j < fs.len() && #[trigger] pe_covers(fs[j], i) implies r[i] == fixed_up_bytes(
            s,
            delta,
            fs[j],
        )[i - fs[j].rva] by {
            if j == 0 {
                assert(!pe_covered_by_some(tail, i)) by {
                    if pe_covered_by_some(tail, i) {
                        let k = choose|k: int|
                            0 <= k < tail.len() && pe_covers(#[trigger] tail[k], i);
                        assert(tail[k] == fs[k + 1]);
                    }
                }
                assert(r[i] == s1[i]);
                assert(s1[i] == fixed_up_bytes(s, delta, f0)[i - f0.rva]);
            } else {
                assert(tail[j - 1] == fs[j]);
                assert(pe_covers(tail[j - 1], i));
                assert(r[i] == fixed_up_bytes(s1, delta, fs[j])[i - fs[j].rva]);
            }
        }

        assert forall|i: int|
            0 <= i < s.len() && !pe_covered_by_some(fs, i) implies #[trigger] r[i] == s[i] by {
            assert(!pe_covers(fs[0], i));
            assert(!pe_covered_by_some(tail, i)) by {
                if pe_covered_by_some(tail, i) {
                    let k = choose|k: int| 0 <= k < tail.len() && pe_covers(#[trigger] tail[k], i);
                    assert(tail[k] == fs[k + 1]);
                    assert(pe_covered_by_some(fs, i));
                }
            }
            assert(r[i] == s1[i]);
            assert(s1[i] == s[i]);
        }
    }
}

/// After relocation, every listed word decodes to its link-time value
/// moved by exactly the load delta, at its own width: every fixed-up
/// address reference is consistent with the actual runtime base, whatever
/// that base is.
pub proof fn lemma_pe_relocated_targets_resolve(s: Seq<u8>, delta: u64, fs: Seq<Fixup>)
    requires
        fixups_in_bounds(fs, s.len()),
        pe_ranges_disjoint(fs),
    ensures
        forall|j: int|
            0 <= j < fs.len() && (#[trigger] fs[j]).wide ==> spec_u64_from_le_bytes(
                pe_relocated(s, delta, fs).subrange(fs[j].rva as int, fs[j].rva as int + 8),
            ) == wrap_add64(
                spec_u64_from_le_bytes(s.subrange(fs[j].rva as int, fs[j].rva as int + 8)),
                delta,
            ),
        forall|j: int|
            0 <= j < fs.len() && !(#[trigger] fs[j]).wide ==> spec_u32_from_le_bytes(
                pe_relocated(s, delta, fs).subrange(fs[j].rva as int, fs[j].rva as int + 4),
            ) == wrap_add32(
                spec_u32_from_le_bytes(s.subrange(fs[j].rva as int, fs[j].rva as int + 4)),
                delta_low32(delta),
            ),
{
    lemma_pe_relocated_pointwise(s, delta, fs);
    lemma_auto_spec_u32_to_from_le_bytes();
    lemma_auto_spec_u64_to_from_le_bytes();
    let r = pe_relocated(s, delta, fs);
    assert forall|j: int| 0 <= j < fs.len() implies r.subrange(
        (#[trigger] fs[j]).rva as int,
        fs[j].rva as int + fixup_width(fs[j]),
    ) == fixed_up_bytes(s, delta, fs[j]) by {
        let f = fs[j];
        assert forall|i: int| f.rva <= i < f.rva + fixup_width(f) implies r[i] == fixed_up_bytes(
            s,
            delta,
            f,
        )[i - f.rva] by {
            assert(pe_covers(fs[j], i));
        }
        assert(r.subrange(f.rva as int, f.rva as int + fixup_width(f)) =~= fixed_up_bytes(
            s,
            delta,
            f,
        ));
    }
    assert forall|j: int| 0 <= j < fs.len() && !(#[trigger] fs[j]).wide implies
        spec_u32_from_le_bytes(r.subrange(fs[j].rva as int, fs[j].rva as int + 4)) == wrap_add32(
        spec_u32_from_le_bytes(s.subrange(fs[j].rva as int, fs[j].rva as int + 4)),
        delta_low32(delta),
    ) by {
        let f = fs[j];
        let w = wrap_add32(
            spec_u32_from_le_bytes(s.subrange(f.rva as int, f.rva as int + 4)),
            delta_low32(delta),
        );
        assert(r.subrange(f.rva as int, f.rva as int + 4) == spec_u32_to_le_bytes(w));
        assert(spec_u32_from_le_bytes(spec_u32_to_le_bytes(w)) == w);
    }
    assert forall|j: int| 0 <= j < fs.len() && (#[trigger] fs[j]).wide implies
        spec_u64_from_le_bytes(r.subrange(fs[j].rva as int, fs[j].rva as int + 8)) == wrap_add64(
        spec_u64_from_le_bytes(s.subrange(fs[j].rva as int, fs[j].rva as int + 8)),
        delta,
    ) by {
        let f = fs[j];
        let w = wrap_add64(
            spec_u64_from_le_bytes(s.subrange(f.rva as int, f.rva as int + 8)),
            delta,
        );
        assert(r.subrange(f.rva as int, f.rva as int + 8) == spec_u64_to_le_bytes(w));
        assert(spec_u64_from_le_bytes(spec_u64_to_le_bytes(w)) == w);
    }
}

/// Flatten the block list into single fixups, validating every entry's
/// kind. The image is untouched here; an unknown kind is reported and is
/// bootstrap-fatal to the caller.
pub fn collect_fixups(blocks: &Vec<BaseRelocBlock>) -> (r: Result<Vec<Fixup>, RelocError>)
    ensures
        r is Ok <==> blocks_kinds_ok(blocks@),
        r matches Ok(fs) ==> fs@ == blocks_fixups(blocks@),
        r is Err ==> r == Err::<Vec<Fixup>, RelocError>(RelocError::UnsupportedKind),
{
    let mut out: Vec<Fixup> = Vec::new();
    let mut i: usize = 0;
    proof {
        assert(blocks@.subrange(0, 0) =~= Seq::<BaseRelocBlock>::empty());
    }
    while i < blocks.len()
        invariant
            i <= blocks@.len(),
            out@ == blocks_fixups(blocks@.subrange(0, i as int)),
            forall|j: int, k: int|
                0 <= j < i && 0 <= k < (#[trigger] blocks@[j]).entries@.len()
                    ==> entry_kind_supported(#[trigger] blocks@[j].entries@[k]),
        decreases blocks@.len() - i,
    {
        let block = &blocks[i];
        let page_rva = block.page_rva;
        let mut k: usize = 0;
        proof {
            assert(block.entries@.subrange(0, 0) =~= Seq::<u16>::empty());
        }
        while k < block.entries.len()
            invariant
                i < blocks@.len(),
                k <= block.entries@.len(),
                block == blocks@[i as int],
                page_rva == block.page_rva,
                out@ == blocks_fixups(blocks@.subrange(0, i as int)) + block_fixups(
                    page_rva,
                    block.entries@.subrange(0, k as int),
                ),
                forall|m: int| 0 <= m < k ==> entry_kind_supported(#[trigger] block.entries@[m]),
            decreases block.entries@.len() - k,
        {
            let e = block.entries[k];
            let kind = e / 0x1000;
            let page_offset = e % 0x1000;
            if kind == IMAGE_REL_BASED_HIGHLOW {
                out.push(Fixup { rva: page_rva as u64 + page_offset as u64, wide: false });
            } else if kind == IMAGE_REL_BASED_DIR64 {
                out.push(Fixup { rva: page_rva as u64 + page_offset as u64, wide: true });
            } else if kind != IMAGE_REL_BASED_ABSOLUTE {
                return Err(RelocError::UnsupportedKind);
            }
            proof {
                let es = block.entries@;
                assert(es.subrange(0, k + 1) =~= es.subrange(0, k as int).push(es[k as int]));
                lemma_block_fixups_push(page_rva, es.subrange(0, k as int), es[k as int]);
            }
            k = k + 1;
        }
        proof {
            let es = block.entries@;
            assert(es.subrange(0, es.len() as int) =~= es);
            assert(blocks@.subrange(0, i + 1) =~= blocks@.subrange(0, i as int).push(
                blocks@[i as int],
            ));
            lemma_blocks_fixups_push(blocks@.subrange(0, i as int), blocks@[i as int]);
        }
        i = i + 1;
    }
    proof {
        assert(blocks@.subrange(0, blocks@.len() as int) =~= blocks@);
    }
    Ok(out)
}

/// Appending one entry to a block appends its fixups.
pub proof fn lemma_block_fixups_push(page_rva: u32, es: Seq<u16>, e: u16)
    ensures
        block_fixups(page_rva, es.push(e)) == block_fixups(page_rva, es) + entry_fixups(
            page_rva,
            e,
        ),
    decreases es.len(),
{
    if es.len() == 0 {
        assert(es.push(e)[0] == e);
        assert(es.push(e).subrange(1, 1) =~= Seq::<u16>::empty());
        assert(block_fixups(page_rva, Seq::<u16>::empty()) == Seq::<Fixup>::empty());
        assert(block_fixups(page_rva, es.push(e)) =~= block_fixups(page_rva, es) + entry_fixups(
            page_rva,
            e,
        ));
    } else {
        let tail = es.subrange(1, es.len() as int);
        assert(es.push(e)[0] == es[0]);
        assert(es.push(e).subrange(1, es.len() as int + 1) =~= tail.push(e));
        lemma_block_fixups_push(page_rva, tail, e);
        assert(block_fixups(page_rva, es.push(e)) =~= block_fixups(page_rva, es) + entry_fixups(
            page_rva,
            e,
        ));
    }
}

/// Appending one block to the list appends its fixups.
pub proof fn lemma_blocks_fixups_push(bs: Seq<BaseRelocBlock>, b: BaseRelocBlock)
    ensures
        blocks_fixups(bs.push(b)) == blocks_fixups(bs) + block_fixups(b.page_rva, b.entries@),
    decreases bs.len(),
{
    if bs.len() == 0 {
        assert(bs.push(b)[0] == b);
        assert(bs.push(b).subrange(1, 1) =~= Seq::<BaseRelocBlock>::empty());
        assert(blocks_fixups(bs.push(b)) == block_fixups(b.page_rva, b.entries@) + blocks_fixups(
            Seq::<BaseRelocBlock>::empty(),
        ));
        assert(blocks_fixups(Seq::<BaseRelocBlock>::empty()) == Seq::<Fixup>::empty());
        assert(blocks_fixups(bs) == Seq::<Fixup>::empty());
        assert(blocks_fixups(bs.push(b)) =~= blocks_fixups(bs) + block_fixups(
            b.page_rva,
            b.entries@,
        ));
    } else {
        let tail = bs.subrange(1, bs.len() as int);
        assert(bs.push(b)[0] == bs[0]);
        assert(bs.push(b).subrange(1, bs.len() as int + 1) =~= tail.push(b));
        assert(blocks_fixups(bs.push(b)) == block_fixups(bs[0].page_rva, bs[0].entries@)
            + blocks_fixups(tail.push(b)));
        lemma_blocks_fixups_push(tail, b);
        assert(blocks_fixups(bs) == block_fixups(bs[0].page_rva, bs[0].entries@) + blocks_fixups(
            tail,
        ));
        assert(blocks_fixups(bs.push(b)) =~= blocks_fixups(bs) + block_fixups(
            b.page_rva,
            b.entries@,
        ));
    }
}

/// A parsed block without its container: the page offset and the packed
/// entries, as the byte-level walk recovers them.
pub open spec fn abs_blocks(bs: Seq<BaseRelocBlock>) -> Seq<(u32, Seq<u16>)> {
    bs.map_values(|b: BaseRelocBlock| (b.page_rva, b.entries@))
}

/// The `n` consecutive 16-bit entries stored from byte offset `off` on.
pub open spec fn pe_block_entries_at(s: Seq<u8>, off: int, n: nat) -> Seq<u16>
    decreases n,
{
    if n == 0 {
        Seq::<u16>::empty()
    } else {
        seq![spec_u16_from_le_bytes(s.subrange(off, off + 2))] + pe_block_entries_at(
            s,
            off + 2,
            (n - 1) as nat,
        )
    }
}

/// A table of `n` entries is the table of `n - 1` entries plus the last.
pub proof fn lemma_pe_block_entries_at_snoc(s: Seq<u8>, off: int, n: nat)
    requires
        n > 0,
    ensures
        pe_block_entries_at(s, off, n) == pe_block_entries_at(s, off, (n - 1) as nat).push(
            spec_u16_from_le_bytes(s.subrange(off + 2 * (n - 1), off + 2 * (n - 1) + 2)),
        ),
    decreases n,
{
    if n == 1 {
        assert(pe_block_entries_at(s, off + 2, 0) == Seq::<u16>::empty());
        assert(pe_block_entries_at(s, off, 0) == Seq::<u16>::empty());
        assert(pe_block_entries_at(s, off, 1) == seq![
            spec_u16_from_le_bytes(s.subrange(off, off + 2)),
        ] + Seq::<u16>::empty());
        assert(pe_block_entries_at(s, off, 1) =~= pe_block_entries_at(s, off, 0).push(
            spec_u16_from_le_bytes(s.subrange(off, off + 2)),
        ));
    } else {
        lemma_pe_block_entries_at_snoc(s, off + 2, (n - 1) as nat);
        assert(pe_block_entries_at(s, off, n) =~= pe_block_entries_at(s, off, (n - 1) as nat).push(
            spec_u16_from_le_bytes(s.subrange(off + 2 * (n - 1), off + 2 * (n - 1) + 2)),
        ));
    }
}

/// The blocks the byte-level walk recovers from `size` bytes at `off`: each
/// block is an 8-byte header — the page offset, then the block's own byte
/// size, entries included — followed by its packed entries. A header that
/// does not fit, a block size below the header's own, an odd block size or
/// a block sticking out of its region makes the whole list malformed.
pub open spec fn parse_blocks_spec(s: Seq<u8>, off: int, size: int) -> Option<Seq<(u32, Seq<u16>)>>
    decreases size,
{
    if size == 0 {
        Some(Seq::<(u32, Seq<u16>)>::empty())
    } else if size < 8 || off < 0 || off + size > s.len() {
        None
    } else {
        let page_rva = spec_u32_from_le_bytes(s.subrange(off, off + 4));
        let block_size = spec_u32_from_le_bytes(s.subrange(off + 4, off + 8)) as int;
        if block_size < 8 || block_size % 2 != 0 || block_size > size {
            None
        } else {
            match parse_blocks_spec(s, off + block_size, size - block_size) {
                Some(rest) => Some(
                    seq![(page_rva, pe_block_entries_at(s, off + 8, ((block_size - 8) / 2) as nat))]
                        + rest,
                ),
                None => None,
            }
        }
    }
}

/// Walk the base-relocation region the Platform Data names — `size` bytes
/// at byte offset `off` of the image — into its blocks. A malformed region
/// leaves nothing behind and is bootstrap-fatal to the caller.
pub fn parse_blocks(image: &Vec<u8>, off: u64, size: u64) -> (r: Result<
    Vec<BaseRelocBlock>,
    RelocError,
>)
    ensures
        r is Ok <==> parse_blocks_spec(image@, off as int, size as int) is Some,
        r matches Ok(bs) ==> Some(abs_blocks(bs@)) == parse_blocks_spec(
            image@,
            off as int,
            size as int,
        ),
        r is Err ==> r == Err::<Vec<BaseRelocBlock>, RelocError>(RelocError::MalformedTable),
{
    let image_len = image.len();
    let mut out: Vec<BaseRelocBlock> = Vec::new();
    let mut off_cur: u64 = off;
    let mut remaining: u64 = size;
    proof {
        assert(abs_blocks(out@) =~= Seq::<(u32, Seq<u16>)>::empty());
    }
    while remaining > 0
        invariant
            image_len == image@.len(),
            parse_blocks_spec(image@, off as int, size as int) == (match parse_blocks_spec(
                image@,
                off_cur as int,
                remaining as int,
            ) {
                Some(rest) => Some(abs_blocks(out@) + rest),
                None => None::<Seq<(u32, Seq<u16>)>>,
            }),
        decreases remaining,
    {
        if remaining < 8 || off_cur > u64::MAX - remaining || off_cur + remaining > image_len
            as u64 {
            return Err(RelocError::MalformedTable);
        }
        let page_rva = read_u32_le(image, off_cur as usize);
        let block_size = read_u32_le(image, (off_cur + 4) as usize) as u64;
        if block_size < 8 || block_size % 2 != 0 || block_size > remaining {
            return Err(RelocError::MalformedTable);
        }
        let count = (block_size - 8) / 2;
        let mut entries: Vec<u16> = Vec::new();
        let mut k: u64 = 0;
        proof {
            assert(entries@ =~= pe_block_entries_at(image@, off_cur as int + 8, 0));
        }
        while k < count
            invariant
                k <= count,
                count == (block_size - 8) / 2,
                block_size % 2 == 0,
                8 <= block_size <= remaining,
                off_cur + remaining <= image_len,
                image_len == image@.len(),
                entries@ == pe_block_entries_at(image@, off_cur as int + 8, k as nat),
            decreases count - k,
        {
            proof {
                assert(2 * ((block_size - 8) / 2) == block_size - 8) by {
                    vstd::arithmetic::div_mod::lemma_fundamental_div_mod(
                        block_size as int - 8,
                        2,
                    );
                }
            }
            let e = read_u16_le(image, (off_cur + 8 + 2 * k) as usize);
            entries.push(e);
            proof {
                lemma_pe_block_entries_at_snoc(image@, off_cur as int + 8, (k + 1) as nat);
            }
            k = k + 1;
        }
        let ghost out_pre = out@;
        out.push(BaseRelocBlock { page_rva, entries });
        proof {
            assert(abs_blocks(out@) =~= abs_blocks(out_pre).push(
                (page_rva, pe_block_entries_at(image@, off_cur as int + 8, count as nat)),
            ));
            let head = (page_rva, pe_block_entries_at(image@, off_cur as int + 8, count as nat));
            match parse_blocks_spec(image@, off_cur as int + block_size as int, remaining as int
                - block_size as int) {
                Some(rest) => {
                    assert(parse_blocks_spec(image@, off_cur as int, remaining as int)
                        == Some(seq![head] + rest));
                    assert(abs_blocks(out_pre) + (seq![head] + rest) =~= abs_blocks(out@) + rest);
                },
                None => {
                    assert(parse_blocks_spec(image@, off_cur as int, remaining as int) is None);
                },
            }
        }
        off_cur = off_cur + block_size;
        remaining = remaining - block_size;
    }
    proof {
        assert(parse_blocks_spec(image@, off_cur as int, 0) == Some(Seq::<(u32, Seq<u16>)>::empty()));
        assert(abs_blocks(out@) + Seq::<(u32, Seq<u16>)>::empty() =~= abs_blocks(out@));
    }
    Ok(out)
}

/// The fixups of a parsed block list, block by block.
pub open spec fn blocks_fixups_abs(bs: Seq<(u32, Seq<u16>)>) -> Seq<Fixup>
    decreases bs.len(),
{
    if bs.len() == 0 {
        Seq::<Fixup>::empty()
    } else {
        block_fixups(bs[0].0, bs[0].1) + blocks_fixups_abs(bs.subrange(1, bs.len() as int))
    }
}

/// Every entry of every parsed block carries a supported kind.
pub open spec fn blocks_kinds_ok_abs(bs: Seq<(u32, Seq<u16>)>) -> bool {
    forall|j: int, k: int|
        0 <= j < bs.len() && 0 <= k < (#[trigger] bs[j]).1.len() ==> entry_kind_supported(
            #[trigger] bs[j].1[k],
        )
}

/// A block list and its parsed form stand for the same fixups and the same
/// kinds.
pub proof fn lemma_blocks_fixups_abs(bs: Seq<BaseRelocBlock>)
    ensures
        blocks_fixups_abs(abs_blocks(bs)) == blocks_fixups(bs),
        blocks_kinds_ok_abs(abs_blocks(bs)) <==> blocks_kinds_ok(bs),
    decreases bs.len(),
{
    let abs = abs_blocks(bs);
    if bs.len() > 0 {
        let tail = bs.subrange(1, bs.len() as int);
        lemma_blocks_fixups_abs(tail);
        assert(abs.subrange(1, abs.len() as int) =~= abs_blocks(tail));
        assert(abs[0] == (bs[0].page_rva, bs[0].entries@));
        assert(blocks_fixups_abs(abs) == block_fixups(bs[0].page_rva, bs[0].entries@)
            + blocks_fixups_abs(abs_blocks(tail)));
    }
    if blocks_kinds_ok(bs) {
        assert forall|j: int, k: int|
            0 <= j < abs.len() && 0 <= k < (#[trigger] abs[j]).1.len() implies
            entry_kind_supported(#[trigger] abs[j].1[k]) by {
            assert(abs[j] == (bs[j].page_rva, bs[j].entries@));
            assert(entry_kind_supported(bs[j].entries@[k]));
        }
    }
    if blocks_kinds_ok_abs(abs) {
        assert forall|j: int, k: int|
            0 <= j < bs.len() && 0 <= k < (#[trigger] bs[j]).entries@.len() implies
            entry_kind_supported(#[trigger] bs[j].entries@[k]) by {
            assert(abs[j] == (bs[j].page_rva, bs[j].entries@));
            assert(entry_kind_supported(abs[j].1[k]));
        }
    }
}

/// Walk the base-relocation region the Platform Data names — `size` bytes
/// of blocks at byte offset `off` — and add the load delta to every listed
/// word, at each entry's declared width. Any inconsistency — a malformed
/// region, an unknown kind, a target outside the image — leaves the image
/// unchanged and is bootstrap-fatal to the caller.
pub fn relocate_region(image: &mut Vec<u8>, delta: u64, off: u64, size: u64) -> (r: Result<
    (),
    RelocError,
>)
    ensures
        r is Ok <==> ({
            match parse_blocks_spec(old(image)@, off as int, size as int) {
                Some(bs) => blocks_kinds_ok_abs(bs) && fixups_in_bounds(
                    blocks_fixups_abs(bs),
                    old(image)@.len(),
                ),
                None => false,
            }
        }),
        r is Ok ==> final(image)@ == pe_relocated(
            old(image)@,
            delta,
            blocks_fixups_abs(parse_blocks_spec(old(image)@, off as int, size as int)->Some_0),
        ),
        r is Err ==> final(image)@ == old(image)@,
        parse_blocks_spec(old(image)@, off as int, size as int) is None ==> r == Err::<
            (),
            RelocError,
        >(RelocError::MalformedTable),
{
    let blocks = match parse_blocks(image, off, size) {
        Ok(bs) => bs,
        Err(e) => {
            return Err(e);
        },
    };
    proof {
        lemma_blocks_fixups_abs(blocks@);
    }
    relocate(image, delta, &blocks)
}

/// Apply the flattened fixups in order. Targets are validated first: on a
/// fault the image is unchanged.
pub fn apply_fixups(image: &mut Vec<u8>, delta: u64, fixups: &Vec<Fixup>) -> (r: Result<
    (),
    RelocError,
>)
    ensures
        r is Ok <==> fixups_in_bounds(fixups@, old(image)@.len()),
        r is Ok ==> final(image)@ == pe_relocated(old(image)@, delta, fixups@),
        r is Err ==> final(image)@ == old(image)@ && r == Err::<(), RelocError>(
            RelocError::TargetOutOfBounds,
        ),
{
    let n = image.len();
    let ghost len = image@.len();
    let mut j: usize = 0;
    while j < fixups.len()
        invariant
            n == len,
            image@ == old(image)@,
            len == old(image)@.len(),
            j <= fixups@.len(),
            forall|k: int| 0 <= k < j ==> fixup_in_bounds(#[trigger] fixups@[k], len),
        decreases fixups@.len() - j,
    {
        let f = &fixups[j];
        let width: u64 = if f.wide {
            8
        } else {
            4
        };
        if f.rva > u64::MAX - width || f.rva + width > n as u64 {
            return Err(RelocError::TargetOutOfBounds);
        }
        j = j + 1;
    }
    proof {
        assert(fixups@.subrange(0, 0) =~= Seq::<Fixup>::empty());
    }
    let mut j: usize = 0;
    while j < fixups.len()
        invariant
            image@.len() == len,
            n == len,
            len == old(image)@.len(),
            j <= fixups@.len(),
            fixups_in_bounds(fixups@, len),
            image@ == pe_relocated(old(image)@, delta, fixups@.subrange(0, j as int)),
        decreases fixups@.len() - j,
    {
        let f = &fixups[j];
        proof {
            lemma_pe_relocated_len(old(image)@, delta, fixups@.subrange(0, j as int));
        }
        if f.wide {
            let word = read_u64_le(image, f.rva as usize);
            let fixed = word.wrapping_add(delta);
            write_u64_le(image, f.rva as usize, fixed);
            proof {
                assert(fixed == wrap_add64(word, delta));
            }
        } else {
            let word = read_u32_le(image, f.rva as usize);
            let low = (delta % 0x1_0000_0000) as u32;
            let fixed = word.wrapping_add(low);
            write_u32_le(image, f.rva as usize, fixed);
            proof {
                assert(low == delta_low32(delta));
                assert(fixed == wrap_add32(word, delta_low32(delta)));
            }
        }
        proof {
            assert(fixups@.subrange(0, j + 1) =~= fixups@.subrange(0, j as int).push(
                fixups@[j as int],
            ));
            lemma_pe_relocated_push(
                old(image)@,
                delta,
                fixups@.subrange(0, j as int),
                fixups@[j as int],
            );
        }
        j = j + 1;
    }
    proof {
        assert(fixups@.subrange(0, fixups@.len() as int) =~= fixups@);
    }
    Ok(())
}

/// Walk the base-relocation block list and add the load delta to every
/// listed word, at each entry's declared width. Every entry is applied
/// exactly once, and the walk itself runs exactly once per process: a
/// second run would add the delta a second time. A malformed list leaves
/// the image unchanged and the fault is bootstrap-fatal to the caller.
pub fn relocate(image: &mut Vec<u8>, delta: u64, blocks: &Vec<BaseRelocBlock>) -> (r: Result<
    (),
    RelocError,
>)
    ensures
        r is Ok <==> blocks_kinds_ok(blocks@) && fixups_in_bounds(
            blocks_fixups(blocks@),
            old(image)@.len(),
        ),
        r is Ok ==> final(image)@ == pe_relocated(old(image)@, delta, blocks_fixups(blocks@)),
        r is Err ==> final(image)@ == old(image)@ && r == Err::<(), RelocError>(
            if !blocks_kinds_ok(blocks@) {
                RelocError::UnsupportedKind
            } else {
                RelocError::TargetOutOfBounds
            },
        ),
{
    let fixups = match collect_fixups(blocks) {
        Ok(fs) => fs,
        Err(e) => {
            return Err(e);
        },
    };
    apply_fixups(image, delta, &fixups)
}

} // verus!
