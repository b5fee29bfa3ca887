//! Self-relocation for the 32-bit ELF path.
//!
//! The 32-bit System V variant of the relocator in `amd64_elf`: entries name
//! 4-byte targets, and the fixed-up addresses are 32 bits wide. The position
//! of the relocation table is recovered with the help of a tiny routine that
//! returns its own placement (see `start`); the application of the table,
//! modelled here, is otherwise the same as on the 64-bit path.

use vstd::prelude::*;
use vstd::bytes::lemma_auto_spec_u32_to_from_le_bytes;
use vstd::bytes::spec_u32_from_le_bytes;
use vstd::bytes::spec_u32_to_le_bytes;
use crate::fatal::RelocError;
use crate::image::read_u32_le;
use crate::image::store_bytes;
use crate::image::write_u32_le;

verus! {

/// The single supported relocation kind on this path, as in `amd64_elf`.
pub const R_RELATIVE_32: u32 = 8;

/// One entry of the 32-bit relocation table.
#[derive(PartialEq, Eq, Structural, Clone, Copy, Debug)]
pub struct RelaEntry32 {
    /// Byte offset of the 4-byte fixup target within the image.
    pub offset: u32,
    /// Relocation kind; only `R_RELATIVE_32` is supported.
    pub kind: u32,
    /// Constant added to the load base to form the written address.
    pub addend: u32,
}

/// `a + b` modulo 2^32.
pub open spec fn wrap_add32(a: u32, b: u32) -> u32 {
    if a + b > u32::MAX {
        (a + b - 0x1_0000_0000) as u32
    } else {
        (a + b) as u32
    }
}

pub open spec fn entry32_ok(e: RelaEntry32, len: nat) -> bool {
    e.kind == R_RELATIVE_32 && e.offset + 4 <= len
}

pub open spec fn entries32_ok(es: Seq<RelaEntry32>, len: nat) -> bool {
    forall|j: int| 0 <= j < es.len() ==> entry32_ok(#[trigger] es[j], len)
}

/// The image after one 4-byte fixup.
pub open spec fn apply_entry32(s: Seq<u8>, base: u32, e: RelaEntry32) -> Seq<u8> {
    store_bytes(s, e.offset as int, spec_u32_to_le_bytes(wrap_add32(base, e.addend)))
}

/// The image after all fixups of `es`, applied first to last.
pub open spec fn relocated32(s: Seq<u8>, base: u32, es: Seq<RelaEntry32>) -> Seq<u8>
    decreases es.len(),
{
    if es.len() == 0 {
        s
    } else {
        relocated32(apply_entry32(s, base, es[0]), base, es.subrange(1, es.len() as int))
    }
}

/// The tag ending a dynamic section.
pub const DT_NULL_32: u32 = 0;

/// The dynamic tag naming the relocation table's placement.
pub const DT_RELA_32: u32 = 7;

/// The dynamic tag naming the relocation table's byte size.
pub const DT_RELASZ_32: u32 = 8;

/// The (tag, value) pair stored at byte offset `off` of the image; the
/// 32-bit dynamic section packs each pair into 8 bytes.
pub open spec fn dyn32_entry_at(s: Seq<u8>, off: int) -> (u32, u32) {
    (
        spec_u32_from_le_bytes(s.subrange(off, off + 4)),
        spec_u32_from_le_bytes(s.subrange(off + 4, off + 8)),
    )
}

/// The value the dynamic section at `off` gives for `tag`, as on the
/// 64-bit path but over 8-byte pairs.
pub open spec fn dyn32_lookup(s: Seq<u8>, off: int, tag: u32) -> Option<u32>
    decreases s.len() - off,
{
    if off < 0 || off + 8 > s.len() {
        None
    } else if dyn32_entry_at(s, off).0 == DT_NULL_32 {
        None
    } else if dyn32_entry_at(s, off).0 == tag {
        Some(dyn32_entry_at(s, off).1)
    } else {
        dyn32_lookup(s, off + 8, tag)
    }
}

/// Walk the 32-bit dynamic section at byte offset `dynamic_offset` for the
/// first pair carrying `tag`.
pub fn find_dynamic_tag32(image: &Vec<u8>, dynamic_offset: u32, tag: u32) -> (r: Option<u32>)
    ensures
        r == dyn32_lookup(image@, dynamic_offset as int, tag),
{
    let n = image.len();
    if dynamic_offset as u64 > n as u64 {
        return None;
    }
    let mut off = dynamic_offset as usize;
    while n - off >= 8
        invariant
            off <= n,
            n == image@.len(),
            dyn32_lookup(image@, dynamic_offset as int, tag) == dyn32_lookup(
                image@,
                off as int,
                tag,
            ),
        decreases n - off,
    {
        let t = read_u32_le(image, off);
        let v = read_u32_le(image, off + 4);
        if t == DT_NULL_32 {
            return None;
        }
        if t == tag {
            return Some(v);
        }
        off = off + 8;
    }
    None
}

/// The entry stored at byte offset `off`: the 4-byte target offset, the
/// info word whose low byte is the kind, and the 4-byte addend.
pub open spec fn rela32_entry_at(s: Seq<u8>, off: int) -> RelaEntry32 {
    RelaEntry32 {
        offset: spec_u32_from_le_bytes(s.subrange(off, off + 4)),
        kind: (spec_u32_from_le_bytes(s.subrange(off + 4, off + 8)) % 0x100) as u32,
        addend: spec_u32_from_le_bytes(s.subrange(off + 8, off + 12)),
    }
}

/// The `n` consecutive 12-byte entries stored from byte offset `off` on.
pub open spec fn rela32_table_at(s: Seq<u8>, off: int, n: nat) -> Seq<RelaEntry32>
    decreases n,
{
    if n == 0 {
        Seq::<RelaEntry32>::empty()
    } else {
        seq![rela32_entry_at(s, off)] + rela32_table_at(s, off + 12, (n - 1) as nat)
    }
}

/// A table of `n` entries is the table of `n - 1` entries plus the last.
pub proof fn lemma_rela32_table_at_snoc(s: Seq<u8>, off: int, n: nat)
    requires
        n > 0,
    ensures
        rela32_table_at(s, off, n) == rela32_table_at(s, off, (n - 1) as nat).push(
            rela32_entry_at(s, off + 12 * (n - 1)),
        ),
    decreases n,
{
    if n == 1 {
        assert(rela32_table_at(s, off + 12, 0) == Seq::<RelaEntry32>::empty());
        assert(rela32_table_at(s, off, 1) =~= rela32_table_at(s, off, 0).push(
            rela32_entry_at(s, off),
        ));
    } else {
        lemma_rela32_table_at_snoc(s, off + 12, (n - 1) as nat);
        assert(rela32_table_at(s, off, n) =~= rela32_table_at(s, off, (n - 1) as nat).push(
            rela32_entry_at(s, off + 12 * (n - 1)),
        ));
    }
}

/// The relocation metadata names a table the image actually holds.
pub open spec fn rela32_region_ok(len: nat, off: u32, size: u32) -> bool {
    size % 12 == 0 && off + size <= len
}

/// Read the 32-bit relocation table: `size` bytes of 12-byte entries at
/// byte offset `off`. Metadata naming bytes outside the image, or a size
/// that is no whole number of entries, is a malformed table.
pub fn parse_rela32_table(image: &Vec<u8>, off: u32, size: u32) -> (r: Result<
    Vec<RelaEntry32>,
    RelocError,
>)
    ensures
        r is Ok <==> rela32_region_ok(image@.len(), off, size),
        r matches Ok(t) ==> t@ == rela32_table_at(image@, off as int, (size / 12) as nat),
        r is Err ==> r == Err::<Vec<RelaEntry32>, RelocError>(RelocError::MalformedTable),
{
    let image_len = image.len();
    if size % 12 != 0 || off as u64 + size as u64 > image_len as u64 {
        return Err(RelocError::MalformedTable);
    }
    let count = size / 12;
    let mut out: Vec<RelaEntry32> = Vec::new();
    let mut k: u32 = 0;
    while k < count
        invariant
            k <= count,
            count == size / 12,
            size % 12 == 0,
            image_len == image@.len(),
            off + size <= image_len,
            out@.len() == k,
            out@ == rela32_table_at(image@, off as int, k as nat),
        decreases count - k,
    {
        proof {
            assert(12 * (size / 12) == size) by {
                vstd::arithmetic::div_mod::lemma_fundamental_div_mod(size as int, 12);
            }
            assert(off + 12 * k + 12 <= off + 12 * count);
        }
        let entry_off = (off as u64 + 12 * k as u64) as usize;
        let target = read_u32_le(image, entry_off);
        let info = read_u32_le(image, entry_off + 4);
        let kind = info % 0x100;
        proof {
            assert(kind == rela32_entry_at(image@, entry_off as int).kind);
        }
        out.push(RelaEntry32 { offset: target, kind, addend: read_u32_le(image, entry_off + 8) });
        proof {
            lemma_rela32_table_at_snoc(image@, off as int, (k + 1) as nat);
        }
        k = k + 1;
    }
    Ok(out)
}

/// What the dynamic section at `dyn_off` says about the relocation table.
pub open spec fn rela32_region_of_dynamic(s: Seq<u8>, dyn_off: int) -> Option<(u32, u32)> {
    match (dyn32_lookup(s, dyn_off, DT_RELA_32), dyn32_lookup(s, dyn_off, DT_RELASZ_32)) {
        (Some(off), Some(size)) => Some((off, size)),
        _ => None,
    }
}

/// The relocator of the 32-bit ELF path: locate the relocation table
/// through the dynamic section's tags, read its entries, and apply every
/// fixup for load base `base`. Any inconsistency leaves the image
/// unchanged and is bootstrap-fatal to the caller.
pub fn relocate_from_dynamic(image: &mut Vec<u8>, base: u32, dynamic_offset: u32) -> (r: Result<
    (),
    RelocError,
>)
    ensures
        r is Ok <==> ({
            match rela32_region_of_dynamic(old(image)@, dynamic_offset as int) {
                Some(region) => rela32_region_ok(old(image)@.len(), region.0, region.1)
                    && entries32_ok(
                    rela32_table_at(old(image)@, region.0 as int, (region.1 / 12) as nat),
                    old(image)@.len(),
                ),
                None => false,
            }
        }),
        r matches Ok(u) ==> ({
            let region = rela32_region_of_dynamic(old(image)@, dynamic_offset as int)->Some_0;
            final(image)@ == relocated32(
                old(image)@,
                base,
                rela32_table_at(old(image)@, region.0 as int, (region.1 / 12) as nat),
            )
        }),
        r is Err ==> final(image)@ == old(image)@,
        rela32_region_of_dynamic(old(image)@, dynamic_offset as int) is None ==> r == Err::<
            (),
            RelocError,
        >(RelocError::MalformedTable),
{
    let rela_off = match find_dynamic_tag32(image, dynamic_offset, DT_RELA_32) {
        Some(v) => v,
        None => {
            return Err(RelocError::MalformedTable);
        },
    };
    let rela_size = match find_dynamic_tag32(image, dynamic_offset, DT_RELASZ_32) {
        Some(v) => v,
        None => {
            return Err(RelocError::MalformedTable);
        },
    };
    let table = match parse_rela32_table(image, rela_off, rela_size) {
        Ok(t) => t,
        Err(e) => {
            return Err(e);
        },
    };
    relocate(image, base, &table)
}

/// The fault reported for the first entry of `es` that is not applicable.
pub open spec fn first_error32(es: Seq<RelaEntry32>, len: nat) -> RelocError
    recommends
        !entries32_ok(es, len),
    decreases es.len(),
{
    if es.len() == 0 {
        RelocError::UnsupportedKind
    } else if es[0].kind != R_RELATIVE_32 {
        RelocError::UnsupportedKind
    } else if !(es[0].offset + 4 <= len) {
        RelocError::TargetOutOfBounds
    } else {
        first_error32(es.subrange(1, es.len() as int), len)
    }
}

/// If all the entries up to `j` are applicable and entry `j` is not, the
/// reported fault is entry `j`'s.
pub proof fn lemma_first_error32_at(es: Seq<RelaEntry32>, len: nat, j: int)
    requires
        0 <= j < es.len(),
        forall|k: int| 0 <= k < j ==> entry32_ok(#[trigger] es[k], len),
        !entry32_ok(es[j], len),
    ensures
        first_error32(es, len) == if es[j].kind != R_RELATIVE_32 {
            RelocError::UnsupportedKind
        } else {
            RelocError::TargetOutOfBounds
        },
    decreases j,
{
    if j > 0 {
        let tail = es.subrange(1, es.len() as int);
        assert(forall|k: int| 0 <= k < j - 1 ==> entry32_ok(#[trigger] tail[k], len));
        lemma_first_error32_at(tail, len, j - 1);
    }
}

/// The target byte range of entry `e` includes image offset `i`.
pub open spec fn covers32(e: RelaEntry32, i: int) -> bool {
    e.offset <= i < e.offset + 4
}

/// Some entry of `es` has image offset `i` in its target range.
pub open spec fn covered32_by_some(es: Seq<RelaEntry32>, i: int) -> bool {
    exists|j: int| 0 <= j < es.len() && covers32(#[trigger] es[j], i)
}

/// No two entries' target ranges overlap.
pub open spec fn ranges32_disjoint(es: Seq<RelaEntry32>) -> bool {
    forall|j: int, k: int|
        0 <= j < k < es.len() ==> (#[trigger] es[j]).offset + 4 <= (#[trigger] es[k]).offset
            || es[k].offset + 4 <= es[j].offset
}

/// The little-endian 32-bit word stored at entry `e`'s target in image `s`.
pub open spec fn target_word32(s: Seq<u8>, e: RelaEntry32) -> u32 {
    spec_u32_from_le_bytes(s.subrange(e.offset as int, e.offset as int + 4))
}

pub proof fn lemma_relocated32_len(s: Seq<u8>, base: u32, es: Seq<RelaEntry32>)
    ensures
        relocated32(s, base, es).len() == s.len(),
    decreases es.len(),
{
    if es.len() > 0 {
        lemma_relocated32_len(apply_entry32(s, base, es[0]), base, es.subrange(1, es.len() as int));
    }
}

/// Appending one entry to the table applies its fixup after all the others.
pub proof fn lemma_relocated32_push(s: Seq<u8>, base: u32, es: Seq<RelaEntry32>, e: RelaEntry32)
    ensures
        relocated32(s, base, es.push(e)) == apply_entry32(relocated32(s, base, es), base, e),
    decreases es.len(),
{
    if es.len() == 0 {
        assert(es.push(e)[0] == e);
        assert(es.push(e).subrange(1, 1) =~= Seq::<RelaEntry32>::empty());
        assert(relocated32(s, base, es.push(e)) == relocated32(
            apply_entry32(s, base, e),
            base,
            Seq::<RelaEntry32>::empty(),
        ));
        assert(relocated32(s, base, es) == s);
    } else {
        let tail = es.subrange(1, es.len() as int);
        assert(es.push(e)[0] == es[0]);
        assert(es.push(e).subrange(1, es.len() as int + 1) =~= tail.push(e));
        assert(relocated32(s, base, es.push(e)) == relocated32(
            apply_entry32(s, base, es[0]),
            base,
            tail.push(e),
        ));
        lemma_relocated32_push(apply_entry32(s, base, es[0]), base, tail, e);
        assert(relocated32(s, base, es) == relocated32(apply_entry32(s, base, es[0]), base, tail));
    }
}

/// Relocation correctness on the 32-bit path, stated byte by byte.
pub proof fn lemma_relocated32_pointwise(s: Seq<u8>, base: u32, es: Seq<RelaEntry32>)
    requires
        entries32_ok(es, s.len()),
        ranges32_disjoint(es),
    ensures
        relocated32(s, base, es).len() == s.len(),
        forall|j: int, i: int|
            0 <= j < es.len() && #[trigger] covers32(es[j], i) ==> relocated32(s, base, es)[i]
                == spec_u32_to_le_bytes(wrap_add32(base, es[j].addend))[i - es[j].offset],
        forall|i: int|
            0 <= i < s.len() && !covered32_by_some(es, i) ==> #[trigger] relocated32(
                s,
                base,
                es,
            )[i] == s[i],
    decreases es.len(),
{
    lemma_relocated32_len(s, base, es);
    lemma_auto_spec_u32_to_from_le_bytes();
    if es.len() > 0 {
        let e0 = es[0];
        let s1 = apply_entry32(s, base, e0);
        let tail = es.subrange(1, es.len() as int);
        assert(s1.len() == s.len());
        lemma_relocated32_pointwise(s1, base, tail);
        let r = relocated32(s, base, es);
        assert(r == relocated32(s1, base, tail));

        assert forall|j: int, i: int|
            0 <= j < es.len() && #[trigger] covers32(es[j], i) implies r[i]
            == spec_u32_to_le_bytes(wrap_add32(base, es[j].addend))[i - es[j].offset] by {
            if j == 0 {
                assert(!covered32_by_some(tail, i)) by {
                    if covered32_by_some(tail, i) {
                        let k = choose|k: int|
                            0 <= k < tail.len() && covers32(#[trigger] tail[k], i);
                        assert(tail[k] == es[k + 1]);
                    }
                }
                assert(r[i] == s1[i]);
                assert(s1[i] == spec_u32_to_le_bytes(wrap_add32(base, e0.addend))[i - e0.offset]);
            } else {
                assert(tail[j - 1] == es[j]);
                assert(covers32(tail[j - 1], i));
            }
        }

        assert forall|i: int|
            0 <= i < s.len() && !covered32_by_some(es, i) implies #[trigger] r[i] == s[i] by {
            assert(!covers32(es[0], i));
            assert(!covered32_by_some(tail, i)) by {
                if covered32_by_some(tail, i) {
                    let k = choose|k: int| 0 <= k < tail.len() && covers32(#[trigger] tail[k], i);
                    assert(tail[k] == es[k + 1]);
                    assert(covered32_by_some(es, i));
                }
            }
            assert(r[i] == s1[i]);
            assert(s1[i] == s[i]);
        }
    }
}

/// After relocation, every fixed-up location decodes to the actual load
/// base plus the entry's addend, whatever the base.
pub proof fn lemma_relocated32_targets_resolve(s: Seq<u8>, base: u32, es: Seq<RelaEntry32>)
    requires
        entries32_ok(es, s.len()),
        ranges32_disjoint(es),
    ensures
        forall|j: int|
            0 <= j < es.len() ==> target_word32(relocated32(s, base, es), #[trigger] es[j])
                == wrap_add32(base, es[j].addend),
{
    lemma_relocated32_pointwise(s, base, es);
    lemma_auto_spec_u32_to_from_le_bytes();
    let r = relocated32(s, base, es);
    assert forall|j: int|
        0 <= j < es.len() implies target_word32(r, #[trigger] es[j]) == wrap_add32(
        base,
        es[j].addend,
    ) by {
        let e = es[j];
        let w = wrap_add32(base, e.addend);
        assert forall|i: int| e.offset <= i < e.offset + 4 implies r[i] == spec_u32_to_le_bytes(w)[i
            - e.offset] by {
            assert(covers32(es[j], i));
        }
        assert(r.subrange(e.offset as int, e.offset as int + 4) =~= spec_u32_to_le_bytes(w));
    }
}

/// Order independence on the 32-bit path: two tables listing the same
/// fixups, in any order, relocate an image to the same bytes.
pub proof fn lemma_relocated32_order_independent(
    s: Seq<u8>,
    base: u32,
    es1: Seq<RelaEntry32>,
    es2: Seq<RelaEntry32>,
)
    requires
        entries32_ok(es1, s.len()),
        ranges32_disjoint(es1),
        entries32_ok(es2, s.len()),
        ranges32_disjoint(es2),
        es1.to_multiset() == es2.to_multiset(),
    ensures
        relocated32(s, base, es1) == relocated32(s, base, es2),
{
    broadcast use vstd::seq_lib::group_to_multiset_ensures;

    lemma_relocated32_pointwise(s, base, es1);
    lemma_relocated32_pointwise(s, base, es2);
    let r1 = relocated32(s, base, es1);
    let r2 = relocated32(s, base, es2);
    assert forall|i: int| 0 <= i < s.len() implies r1[i] == r2[i] by {
        if covered32_by_some(es1, i) {
            let j = choose|j: int| 0 <= j < es1.len() && covers32(#[trigger] es1[j], i);
            assert(es1.contains(es1[j]));
            assert(es2.to_multiset().count(es1[j]) > 0);
            assert(es2.contains(es1[j]));
            let k = choose|k: int| 0 <= k < es2.len() && es2[k] == es1[j];
            assert(covers32(es2[k], i));
        } else {
            assert(!covered32_by_some(es2, i)) by {
                if covered32_by_some(es2, i) {
                    let k = choose|k: int| 0 <= k < es2.len() && covers32(#[trigger] es2[k], i);
                    assert(es2.contains(es2[k]));
                    assert(es1.to_multiset().count(es2[k]) > 0);
                    assert(es1.contains(es2[k]));
                    let j = choose|j: int| 0 <= j < es1.len() && es1[j] == es2[k];
                    assert(covers32(es1[j], i));
                }
            }
        }
    }
    assert(r1 =~= r2);
}

/// Rewrite every address-valued location listed in `table` for load base
/// `base`, as `amd64_elf::relocate` does on the 64-bit path. A malformed
/// table leaves the image unchanged and is fatal to the caller.
pub fn relocate(image: &mut Vec<u8>, base: u32, table: &Vec<RelaEntry32>) -> (r: Result<
    (),
    RelocError,
>)
    ensures
        r is Ok <==> entries32_ok(table@, old(image)@.len()),
        r is Ok ==> final(image)@ == relocated32(old(image)@, base, table@),
        r is Err ==> final(image)@ == old(image)@ && r == Err::<(), RelocError>(
            first_error32(table@, old(image)@.len()),
        ),
{
    let n = image.len();
    let ghost len = image@.len();
    let mut j: usize = 0;
    while j < table.len()
        invariant
            n == len,
            image@ == old(image)@,
            len == old(image)@.len(),
            j <= table@.len(),
            forall|k: int| 0 <= k < j ==> entry32_ok(#[trigger] table@[k], len),
        decreases table@.len() - j,
    {
        let e = &table[j];
        if e.kind != R_RELATIVE_32 {
            proof {
                lemma_first_error32_at(table@, len, j as int);
            }
            return Err(RelocError::UnsupportedKind);
        }
        if e.offset as u64 + 4 > n as u64 {
            proof {
                lemma_first_error32_at(table@, len, j as int);
            }
            return Err(RelocError::TargetOutOfBounds);
        }
        j = j + 1;
    }
    proof {
        assert(table@.subrange(0, 0) =~= Seq::<RelaEntry32>::empty());
    }
    let mut j: usize = 0;
    while j < table.len()
        invariant
            image@.len() == len,
            n == len,
            len == old(image)@.len(),
            j <= table@.len(),
            entries32_ok(table@, len),
            image@ == relocated32(old(image)@, base, table@.subrange(0, j as int)),
        decreases table@.len() - j,
    {
        let e = &table[j];
        let w = base.wrapping_add(e.addend);
        proof {
            lemma_relocated32_len(old(image)@, base, table@.subrange(0, j as int));
        }
        write_u32_le(image, e.offset as usize, w);
        proof {
            assert(table@.subrange(0, j + 1) =~= table@.subrange(0, j as int).push(
                table@[j as int],
            ));
            lemma_relocated32_push(old(image)@, base, table@.subrange(0, j as int), table@[j as int]);
            assert(w == wrap_add32(base, e.addend));
        }
        j = j + 1;
    }
    proof {
        assert(table@.subrange(0, table@.len() as int) =~= table@);
    }
    Ok(())
}

} // verus!
