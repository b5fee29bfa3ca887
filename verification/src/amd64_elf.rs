//! Self-relocation for the 64-bit ELF path.
//!
//! A position-independent executable carries a `.rela`-style table of
//! relocation entries. For the one relocation kind emitted for such output
//! (the absolute-address kind, `R_RELATIVE`), the fixup writes
//! `load_base + addend` as a little-endian 64-bit word at `load_base +
//! offset`. The relocator here works on the image modelled as a byte vector:
//! the target location is the byte offset within the image and the written
//! word is the absolute runtime address.
//!
//! The table is validated before any byte is rewritten, so a malformed table
//! (an unsupported kind, or a target outside the image) leaves the image
//! unchanged and reports the first fault; the real system treats that as a
//! bootstrap-fatal condition.

use vstd::prelude::*;
use vstd::bytes::lemma_auto_spec_u64_to_from_le_bytes;
use vstd::bytes::spec_u64_from_le_bytes;
use vstd::bytes::spec_u64_to_le_bytes;
use crate::fatal::RelocError;
use crate::image::read_u64_le;
use crate::image::store_bytes;
use crate::image::write_u64_le;

verus! {

broadcast use vstd::seq_lib::group_to_multiset_ensures;

/// The single relocation kind emitted for position-independent executables
/// on this path: write the load base plus the addend at the target.
pub const R_RELATIVE: u32 = 8;

/// One entry of a `.rela`-style relocation table.
#[derive(PartialEq, Eq, Structural, Clone, Copy, Debug)]
pub struct RelaEntry {
    /// Byte offset of the fixup target within the image.
    pub offset: u64,
    /// Relocation kind; only `R_RELATIVE` is supported.
    pub kind: u32,
    /// Constant added to the load base to form the written address.
    pub addend: u64,
}

/// `a + b` modulo 2^64, the arithmetic addresses are fixed up with.
pub open spec fn wrap_add64(a: u64, b: u64) -> u64 {
    if a + b > u64::MAX {
        (a + b - 0x1_0000_0000_0000_0000) as u64
    } else {
        (a + b) as u64
    }
}

/// The entry's kind is one the relocator implements.
pub open spec fn entry_supported(e: RelaEntry) -> bool {
    e.kind == R_RELATIVE
}

/// The entry's whole 8-byte target lies within an image of length `len`.
pub open spec fn entry_in_bounds(e: RelaEntry, len: nat) -> bool {
    e.offset + 8 <= len
}

pub open spec fn entry_ok(e: RelaEntry, len: nat) -> bool {
    entry_supported(e) && entry_in_bounds(e, len)
}

pub open spec fn entries_ok(es: Seq<RelaEntry>, len: nat) -> bool {
    forall|j: int| 0 <= j < es.len() ==> entry_ok(#[trigger] es[j], len)
}

/// The image after one fixup: `base + addend`, stored at the entry's target.
pub open spec fn apply_entry(s: Seq<u8>, base: u64, e: RelaEntry) -> Seq<u8> {
    store_bytes(s, e.offset as int, spec_u64_to_le_bytes(wrap_add64(base, e.addend)))
}

/// The image after all fixups of `es`, applied first to last.
pub open spec fn relocated(s: Seq<u8>, base: u64, es: Seq<RelaEntry>) -> Seq<u8>
    decreases es.len(),
{
    if es.len() == 0 {
        s
    } else {
        relocated(apply_entry(s, base, es[0]), base, es.subrange(1, es.len() as int))
    }
}

/// The fault reported for the first entry of `es` that is not applicable.
pub open spec fn first_error(es: Seq<RelaEntry>, len: nat) -> RelocError
    recommends
        !entries_ok(es, len),
    decreases es.len(),
{
    if es.len() == 0 {
        RelocError::UnsupportedKind
    } else if !entry_supported(es[0]) {
        RelocError::UnsupportedKind
    } else if !entry_in_bounds(es[0], len) {
        RelocError::TargetOutOfBounds
    } else {
        first_error(es.subrange(1, es.len() as int), len)
    }
}

/// The target byte range of entry `e` includes image offset `i`.
pub open spec fn covers(e: RelaEntry, i: int) -> bool {
    e.offset <= i < e.offset + 8
}

/// Some entry of `es` has image offset `i` in its target range.
pub open spec fn covered_by_some(es: Seq<RelaEntry>, i: int) -> bool {
    exists|j: int| 0 <= j < es.len() && covers(#[trigger] es[j], i)
}

/// No two entries' target ranges overlap.
pub open spec fn ranges_disjoint(es: Seq<RelaEntry>) -> bool {
    forall|j: int, k: int|
        0 <= j < k < es.len() ==> (#[trigger] es[j]).offset + 8 <= (#[trigger] es[k]).offset
            || es[k].offset + 8 <= es[j].offset
}

/// The little-endian 64-bit word stored at entry `e`'s target in image `s`.
pub open spec fn target_word(s: Seq<u8>, e: RelaEntry) -> u64 {
    spec_u64_from_le_bytes(s.subrange(e.offset as int, e.offset as int + 8))
}

pub proof fn lemma_relocated_len(s: Seq<u8>, base: u64, es: Seq<RelaEntry>)
    ensures
        relocated(s, base, es).len() == s.len(),
    decreases es.len(),
{
    if es.len() > 0 {
        lemma_relocated_len(apply_entry(s, base, es[0]), base, es.subrange(1, es.len() as int));
    }
}

/// Appending one entry to the table applies its fixup after all the others.
pub proof fn lemma_relocated_push(s: Seq<u8>, base: u64, es: Seq<RelaEntry>, e: RelaEntry)
    ensures
        relocated(s, base, es.push(e)) == apply_entry(relocated(s, base, es), base, e),
    decreases es.len(),
{
    if es.len() == 0 {
        assert(es.push(e)[0] == e);
        assert(es.push(e).subrange(1, 1) =~= Seq::<RelaEntry>::empty());
        assert(relocated(s, base, es.push(e)) == relocated(
            apply_entry(s, base, e),
            base,
            Seq::<RelaEntry>::empty(),
        ));
        assert(relocated(apply_entry(s, base, e), base, Seq::<RelaEntry>::empty()) == apply_entry(
            s,
            base,
            e,
        ));
        assert(relocated(s, base, es) == s);
    } else {
        let tail = es.subrange(1, es.len() as int);
        assert(es.push(e)[0] == es[0]);
        assert(es.push(e).subrange(1, es.len() as int + 1) =~= tail.push(e));
        assert(relocated(s, base, es.push(e)) == relocated(
            apply_entry(s, base, es[0]),
            base,
            tail.push(e),
        ));
        lemma_relocated_push(apply_entry(s, base, es[0]), base, tail, e);
        assert(relocated(s, base, es) == relocated(apply_entry(s, base, es[0]), base, tail));
    }
}

/// If all the entries up to `j` are applicable and entry `j` is not, the
/// reported fault is entry `j`'s.
pub proof fn lemma_first_error_at(es: Seq<RelaEntry>, len: nat, j: int)
    requires
        0 <= j < es.len(),
        forall|k: int| 0 <= k < j ==> entry_ok(#[trigger] es[k], len),
        !entry_ok(es[j], len),
    ensures
        first_error(es, len) == if !entry_supported(es[j]) {
            RelocError::UnsupportedKind
        } else {
            RelocError::TargetOutOfBounds
        },
    decreases j,
{
    if j > 0 {
        let tail = es.subrange(1, es.len() as int);
        assert(forall|k: int| 0 <= k < j - 1 ==> entry_ok(#[trigger] tail[k], len));
        lemma_first_error_at(tail, len, j - 1);
    }
}

/// Relocation correctness, stated byte by byte: with no overlap among the
/// targets, every target range holds the fixed-up address of its own entry
/// — whatever the entry's position in the table — and every byte outside
/// all target ranges is untouched.
pub proof fn lemma_relocated_pointwise(s: Seq<u8>, base: u64, es: Seq<RelaEntry>)
    requires
        entries_ok(es, s.len()),
        ranges_disjoint(es),
    ensures
        relocated(s, base, es).len() == s.len(),
        forall|j: int, i: int|
            0 <= j < es.len() && #[trigger] covers(es[j], i) ==> relocated(s, base, es)[i]
                == spec_u64_to_le_bytes(wrap_add64(base, es[j].addend))[i - es[j].offset],
        forall|i: int|
            0 <= i < s.len() && !covered_by_some(es, i) ==> #[trigger] relocated(s, base, es)[i]
                == s[i],
    decreases es.len(),
{
    lemma_relocated_len(s, base, es);
    lemma_auto_spec_u64_to_from_le_bytes();
    if es.len() > 0 {
        let e0 = es[0];
        let s1 = apply_entry(s, base, e0);
        let tail = es.subrange(1, es.len() as int);
        assert(s1.len() == s.len());
        assert(entries_ok(tail, s1.len()));
        assert(ranges_disjoint(tail));
        lemma_relocated_pointwise(s1, base, tail);
        let r = relocated(s, base, es);
        assert(r == relocated(s1, base, tail));

        assert forall|j: int, i: int|
            0 <= j < es.len() && #[trigger] covers(es[j], i) implies r[i] == spec_u64_to_le_bytes(
            wrap_add64(base, es[j].addend),
        )[i - es[j].offset] by {
            if j == 0 {
                assert(!covered_by_some(tail, i)) by {
                    if covered_by_some(tail, i) {
                        let k = choose|k: int| 0 <= k < tail.len() && covers(#[trigger] tail[k], i);
                        assert(tail[k] == es[k + 1]);
                    }
                }
                assert(r[i] == s1[i]);
                assert(s1[i] == spec_u64_to_le_bytes(wrap_add64(base, e0.addend))[i - e0.offset]);
            } else {
                assert(tail[j - 1] == es[j]);
                assert(covers(tail[j - 1], i));
            }
        }

        assert forall|i: int|
            0 <= i < s.len() && !covered_by_some(es, i) implies #[trigger] r[i] == s[i] by {
            assert(!covers(es[0], i));
            assert(!covered_by_some(tail, i)) by {
                if covered_by_some(tail, i) {
                    let k = choose|k: int| 0 <= k < tail.len() && covers(#[trigger] tail[k], i);
                    assert(tail[k] == es[k + 1]);
                    assert(covered_by_some(es, i));
                }
            }
            assert(r[i] == s1[i]);
            assert(s1[i] == s[i]);
        }
    }
}

/// After relocation, every fixed-up location decodes to the actual load
/// base plus the entry's addend: each global data reference resolves to an
/// address consistent with the image's runtime base, whatever that base is.
pub proof fn lemma_relocated_targets_resolve(s: Seq<u8>, base: u64, es: Seq<RelaEntry>)
    requires
        entries_ok(es, s.len()),
        ranges_disjoint(es),
    ensures
        forall|j: int|
            0 <= j < es.len() ==> target_word(relocated(s, base, es), #[trigger] es[j])
                == wrap_add64(base, es[j].addend),
{
    lemma_relocated_pointwise(s, base, es);
    lemma_auto_spec_u64_to_from_le_bytes();
    let r = relocated(s, base, es);
    assert forall|j: int|
        0 <= j < es.len() implies target_word(r, #[trigger] es[j]) == wrap_add64(
        base,
        es[j].addend,
    ) by {
        let e = es[j];
        let w = wrap_add64(base, e.addend);
        assert forall|i: int| e.offset <= i < e.offset + 8 implies r[i] == spec_u64_to_le_bytes(w)[i
            - e.offset] by {
            assert(covers(es[j], i));
        }
        assert(r.subrange(e.offset as int, e.offset as int + 8) =~= spec_u64_to_le_bytes(w));
    }
}

/// Order independence: two tables that list the same fixups, in any order,
/// relocate an image to the same bytes (the targets do not overlap, so no
/// entry can observe another's write).
pub proof fn lemma_relocated_order_independent(
    s: Seq<u8>,
    base: u64,
    es1: Seq<RelaEntry>,
    es2: Seq<RelaEntry>,
)
    requires
        entries_ok(es1, s.len()),
        ranges_disjoint(es1),
        entries_ok(es2, s.len()),
        ranges_disjoint(es2),
        es1.to_multiset() == es2.to_multiset(),
    ensures
        relocated(s, base, es1) == relocated(s, base, es2),
{
    lemma_relocated_pointwise(s, base, es1);
    lemma_relocated_pointwise(s, base, es2);
    let r1 = relocated(s, base, es1);
    let r2 = relocated(s, base, es2);
    assert forall|i: int| 0 <= i < s.len() implies r1[i] == r2[i] by {
        if covered_by_some(es1, i) {
            let j = choose|j: int| 0 <= j < es1.len() && covers(#[trigger] es1[j], i);
            assert(es1.contains(es1[j]));
            assert(es2.to_multiset().count(es1[j]) > 0);
            assert(es2.contains(es1[j]));
            let k = choose|k: int| 0 <= k < es2.len() && es2[k] == es1[j];
            assert(covers(es2[k], i));
        } else {
            assert(!covered_by_some(es2, i)) by {
                if covered_by_some(es2, i) {
                    let k = choose|k: int| 0 <= k < es2.len() && covers(#[trigger] es2[k], i);
                    assert(es2.contains(es2[k]));
                    assert(es1.to_multiset().count(es2[k]) > 0);
                    assert(es1.contains(es2[k]));
                    let j = choose|j: int| 0 <= j < es1.len() && es1[j] == es2[k];
                    assert(covers(es1[j], i));
                }
            }
        }
    }
    assert(r1 =~= r2);
}

/// The tag ending a dynamic section.
pub const DT_NULL: u64 = 0;

/// The dynamic tag naming the relocation table's placement.
pub const DT_RELA: u64 = 7;

/// The dynamic tag naming the relocation table's byte size.
pub const DT_RELASZ: u64 = 8;

/// The (tag, value) pair stored at byte offset `off` of the image.
pub open spec fn dyn_entry_at(s: Seq<u8>, off: int) -> (u64, u64) {
    (
        spec_u64_from_le_bytes(s.subrange(off, off + 8)),
        spec_u64_from_le_bytes(s.subrange(off + 8, off + 16)),
    )
}

/// The value the dynamic section at `off` gives for `tag`: pairs are read
/// in order until the tag is found, the section ends, or the pairs run off
/// the image.
pub open spec fn dyn_lookup(s: Seq<u8>, off: int, tag: u64) -> Option<u64>
    decreases s.len() - off,
{
    if off < 0 || off + 16 > s.len() {
        None
    } else if dyn_entry_at(s, off).0 == DT_NULL {
        None
    } else if dyn_entry_at(s, off).0 == tag {
        Some(dyn_entry_at(s, off).1)
    } else {
        dyn_lookup(s, off + 16, tag)
    }
}

/// Walk the dynamic section at byte offset `dynamic_offset` for the first
/// pair carrying `tag`. Reaching the terminating tag, or running off the
/// image, finds nothing.
pub fn find_dynamic_tag(image: &Vec<u8>, dynamic_offset: u64, tag: u64) -> (r: Option<u64>)
    ensures
        r == dyn_lookup(image@, dynamic_offset as int, tag),
{
    let n = image.len();
    if dynamic_offset > n as u64 {
        return None;
    }
    let mut off = dynamic_offset as usize;
    while n - off >= 16
        invariant
            off <= n,
            n == image@.len(),
            dyn_lookup(image@, dynamic_offset as int, tag) == dyn_lookup(image@, off as int, tag),
        decreases n - off,
    {
        let t = read_u64_le(image, off);
        let v = read_u64_le(image, off + 8);
        if t == DT_NULL {
            return None;
        }
        if t == tag {
            return Some(v);
        }
        off = off + 16;
    }
    None
}

/// The entry stored at byte offset `off` of the image: target offset, then
/// the info word whose low half is the kind, then the addend.
pub open spec fn rela_entry_at(s: Seq<u8>, off: int) -> RelaEntry {
    RelaEntry {
        offset: spec_u64_from_le_bytes(s.subrange(off, off + 8)),
        kind: (spec_u64_from_le_bytes(s.subrange(off + 8, off + 16)) % 0x1_0000_0000) as u32,
        addend: spec_u64_from_le_bytes(s.subrange(off + 16, off + 24)),
    }
}

/// The `n` consecutive 24-byte entries stored from byte offset `off` on.
pub open spec fn rela_table_at(s: Seq<u8>, off: int, n: nat) -> Seq<RelaEntry>
    decreases n,
{
    if n == 0 {
        Seq::<RelaEntry>::empty()
    } else {
        seq![rela_entry_at(s, off)] + rela_table_at(s, off + 24, (n - 1) as nat)
    }
}

/// The relocation metadata names a table the image actually holds: a whole
/// number of 24-byte entries, all of them inside the image.
pub open spec fn rela_region_ok(len: nat, off: u64, size: u64) -> bool {
    size % 24 == 0 && off + size <= len
}

/// Read the relocation table the image's metadata points at: `size` bytes
/// of 24-byte entries at byte offset `off`. Metadata naming bytes outside
/// the image, or a size that is no whole number of entries, is reported as
/// a malformed table — bootstrap-fatal to the caller.
pub fn parse_rela_table(image: &Vec<u8>, off: u64, size: u64) -> (r: Result<
    Vec<RelaEntry>,
    RelocError,
>)
    ensures
        r is Ok <==> rela_region_ok(image@.len(), off, size),
        r matches Ok(t) ==> t@ == rela_table_at(image@, off as int, (size / 24) as nat),
        r is Err ==> r == Err::<Vec<RelaEntry>, RelocError>(RelocError::MalformedTable),
{
    let image_len = image.len();
    if size % 24 != 0 || off > u64::MAX - size || off + size > image_len as u64 {
        return Err(RelocError::MalformedTable);
    }
    let count = size / 24;
    let mut out: Vec<RelaEntry> = Vec::new();
    let mut k: u64 = 0;
    while k < count
        invariant
            k <= count,
            count == size / 24,
            size % 24 == 0,
            image_len == image@.len(),
            off + size <= image_len,
            out@.len() == k,
            out@ == rela_table_at(image@, off as int, k as nat),
        decreases count - k,
    {
        proof {
            assert(24 * (size / 24) == size) by {
                vstd::arithmetic::div_mod::lemma_fundamental_div_mod(size as int, 24);
            }
            assert(off + 24 * k + 24 <= off + 24 * count);
        }
        let entry_off = (off + 24 * k) as usize;
        let target = read_u64_le(image, entry_off);
        let info = read_u64_le(image, entry_off + 8);
        let addend = read_u64_le(image, entry_off + 16);
        proof {
            assert(info & 0xffff_ffff == info % 0x1_0000_0000 && info & 0xffff_ffff
                <= 0xffff_ffffu64) by (bit_vector);
        }
        let kind = (info & 0xffff_ffff) as u32;
        proof {
            assert(kind == rela_entry_at(image@, entry_off as int).kind);
        }
        out.push(RelaEntry { offset: target, kind, addend });
        proof {
            lemma_rela_table_at_snoc(image@, off as int, (k + 1) as nat);
        }
        k = k + 1;
    }
    Ok(out)
}

/// A table of `n` entries is the table of `n - 1` entries plus the last.
pub proof fn lemma_rela_table_at_snoc(s: Seq<u8>, off: int, n: nat)
    requires
        n > 0,
    ensures
        rela_table_at(s, off, n) == rela_table_at(s, off, (n - 1) as nat).push(
            rela_entry_at(s, off + 24 * (n - 1)),
        ),
    decreases n,
{
    if n == 1 {
        assert(rela_table_at(s, off + 24, 0) == Seq::<RelaEntry>::empty());
        assert(rela_table_at(s, off, 1) =~= rela_table_at(s, off, 0).push(rela_entry_at(s, off)));
    } else {
        lemma_rela_table_at_snoc(s, off + 24, (n - 1) as nat);
        assert(rela_table_at(s, off, n) =~= rela_table_at(s, off, (n - 1) as nat).push(
            rela_entry_at(s, off + 24 * (n - 1)),
        ));
    }
}

/// Locate the relocation table from the image's own metadata, read it and
/// apply every fixup for load base `base`: what the ELF path's relocator
/// does, given the dynamic section's table placement. Any inconsistency —
/// metadata pointing outside the image, an unsupported relocation kind, a
/// fixup target outside the image — leaves the image unchanged and is
/// bootstrap-fatal to the caller.
pub fn relocate_in_image(image: &mut Vec<u8>, base: u64, rela_off: u64, rela_size: u64) -> (r:
    Result<(), RelocError>)
    ensures
        r is Ok <==> rela_region_ok(old(image)@.len(), rela_off, rela_size) && entries_ok(
            rela_table_at(old(image)@, rela_off as int, (rela_size / 24) as nat),
            old(image)@.len(),
        ),
        r is Ok ==> final(image)@ == relocated(
            old(image)@,
            base,
            rela_table_at(old(image)@, rela_off as int, (rela_size / 24) as nat),
        ),
        r is Err ==> final(image)@ == old(image)@,
{
    let table = match parse_rela_table(image, rela_off, rela_size) {
        Ok(t) => t,
        Err(e) => {
            return Err(e);
        },
    };
    relocate(image, base, &table)
}

/// What the dynamic section at `dyn_off` says about the relocation table:
/// its placement and byte size, where the section names both.
pub open spec fn rela_region_of_dynamic(s: Seq<u8>, dyn_off: int) -> Option<(u64, u64)> {
    match (dyn_lookup(s, dyn_off, DT_RELA), dyn_lookup(s, dyn_off, DT_RELASZ)) {
        (Some(off), Some(size)) => Some((off, size)),
        _ => None,
    }
}

/// The relocator of the 64-bit ELF path: locate the relocation table
/// through the dynamic section's tags, read its entries, and apply every
/// fixup for load base `base`. A dynamic section that does not name the
/// table, metadata pointing outside the image, an unsupported relocation
/// kind or a fixup target outside the image all leave the image unchanged;
/// each is bootstrap-fatal to the caller.
pub fn relocate_from_dynamic(image: &mut Vec<u8>, base: u64, dynamic_offset: u64) -> (r: Result<
    (),
    RelocError,
>)
    ensures
        r is Ok <==> ({
            match rela_region_of_dynamic(old(image)@, dynamic_offset as int) {
                Some(region) => rela_region_ok(old(image)@.len(), region.0, region.1)
                    && entries_ok(
                    rela_table_at(old(image)@, region.0 as int, (region.1 / 24) as nat),
                    old(image)@.len(),
                ),
                None => false,
            }
        }),
        r matches Ok(u) ==> ({
            let region = rela_region_of_dynamic(old(image)@, dynamic_offset as int)->Some_0;
            final(image)@ == relocated(
                old(image)@,
                base,
                rela_table_at(old(image)@, region.0 as int, (region.1 / 24) as nat),
            )
        }),
        r is Err ==> final(image)@ == old(image)@,
        rela_region_of_dynamic(old(image)@, dynamic_offset as int) is None ==> r == Err::<
            (),
            RelocError,
        >(RelocError::MalformedTable),
{
    let rela_off = match find_dynamic_tag(image, dynamic_offset, DT_RELA) {
        Some(v) => v,
        None => {
            return Err(RelocError::MalformedTable);
        },
    };
    let rela_size = match find_dynamic_tag(image, dynamic_offset, DT_RELASZ) {
        Some(v) => v,
        None => {
            return Err(RelocError::MalformedTable);
        },
    };
    relocate_in_image(image, base, rela_off, rela_size)
}

/// Rewrite every address-valued location listed in `table` so that it holds
/// the actual runtime address `base + addend` instead of the link-time one.
///
/// The table is checked first: if any entry carries an unsupported kind or
/// a target outside the image, the image is left unchanged and the first
/// fault is reported — a bootstrap-fatal condition for the caller.
pub fn relocate(image: &mut Vec<u8>, base: u64, table: &Vec<RelaEntry>) -> (r: Result<
    (),
    RelocError,
>)
    ensures
        r is Ok <==> entries_ok(table@, old(image)@.len()),
        r is Ok ==> final(image)@ == relocated(old(image)@, base, table@),
        r is Err ==> final(image)@ == old(image)@ && r == Err::<(), RelocError>(
            first_error(table@, old(image)@.len()),
        ),
{
    let n = image.len();
    let ghost len = image@.len();
    let mut j: usize = 0;
    while j < table.len()
        invariant
            n == len,
            image@ == old(image)@,
            len == old(image)@.len(),
            j <= table@.len(),
            forall|k: int| 0 <= k < j ==> entry_ok(#[trigger] table@[k], len),
        decreases table@.len() - j,
    {
        let e = &table[j];
        if e.kind != R_RELATIVE {
            proof {
                lemma_first_error_at(table@, len, j as int);
            }
            return Err(RelocError::UnsupportedKind);
        }
        if e.offset > u64::MAX - 8 || e.offset + 8 > n as u64 {
            proof {
                lemma_first_error_at(table@, len, j as int);
            }
            return Err(RelocError::TargetOutOfBounds);
        }
        j = j + 1;
    }
    proof {
        assert(table@.subrange(0, 0) =~= Seq::<RelaEntry>::empty());
    }
    let mut j: usize = 0;
    while j < table.len()
        invariant
            image@.len() == len,
            n == len,
            len == old(image)@.len(),
            j <= table@.len(),
            entries_ok(table@, len),
            image@ == relocated(old(image)@, base, table@.subrange(0, j as int)),
        decreases table@.len() - j,
    {
        let e = &table[j];
        let w = base.wrapping_add(e.addend);
        proof {
            lemma_relocated_len(old(image)@, base, table@.subrange(0, j as int));
        }
        write_u64_le(image, e.offset as usize, w);
        proof {
            assert(table@.subrange(0, j + 1) =~= table@.subrange(0, j as int).push(table@[j as int]));
            lemma_relocated_push(old(image)@, base, table@.subrange(0, j as int), table@[j as int]);
            assert(w == wrap_add64(base, e.addend));
        }
        j = j + 1;
    }
    proof {
        assert(table@.subrange(0, table@.len() as int) =~= table@);
    }
    Ok(())
}

} // verus!
