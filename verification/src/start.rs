//! The entry trampolines.
//!
//! The trampoline is the literal first code executed: it runs with no
//! prior stack frame and no calling-convention prologue, so it must itself
//! align the stack, recover the image's true load base from what the
//! loader supplied, invoke the relocator before anything touches global
//! data, and tail into runtime initialisation, which never returns.
//!
//! One function models each supported (architecture, ABI, loader-format)
//! combination: 64-bit System V over ELF, Microsoft x64 over PE, and
//! 32-bit System V over ELF. Each takes the loader-supplied values as
//! plain integers, the mapped image as bytes and the user program as
//! actions, and returns what the hardware variant leaves behind: the
//! aligned stack pointer, the recovered load base, the relocated image
//! and the run's outcome.

use vstd::prelude::*;
use crate::amd64_elf;
use crate::amd64_elf::entries_ok;
use crate::amd64_elf::rela_region_of_dynamic;
use crate::amd64_elf::rela_region_ok;
use crate::amd64_elf::rela_table_at;
use crate::amd64_elf::relocated;
use crate::amd64_pe;
use crate::amd64_pe::blocks_fixups_abs;
use crate::amd64_pe::blocks_kinds_ok_abs;
use crate::amd64_pe::fixups_in_bounds;
use crate::amd64_pe::parse_blocks_spec;
use crate::amd64_pe::pe_relocated;
use crate::fatal::RelocError;
use crate::i686_elf;
use crate::i686_elf::entries32_ok;
use crate::i686_elf::rela32_region_of_dynamic;
use crate::i686_elf::rela32_region_ok;
use crate::i686_elf::rela32_table_at;
use crate::i686_elf::relocated32;
use crate::i686_elf::wrap_add32;
use crate::runtime::Action;
use crate::runtime::RunResult;
use crate::runtime::Runtime;
use crate::runtime::initial_sim;
use crate::runtime::run_spec;
use crate::runtime::sim_of;
use crate::runtime::start_rust;

verus! {

/// `a - b` modulo 2^64, the load delta of a moved PE image.
pub open spec fn wrap_sub64(a: u64, b: u64) -> u64 {
    if a - b < 0 {
        (a - b + 0x1_0000_0000_0000_0000) as u64
    } else {
        (a - b) as u64
    }
}

/// The loader-produced record the PE and ELF paths read through the
/// service table: padding before the image, the link-time base, where the
/// relocation metadata lies, and the stack-commit flag bit.
#[derive(PartialEq, Eq, Structural, Clone, Copy, Debug)]
pub struct PlatformData {
    /// Flag bits; bit 0 set means the loader pre-committed the stack.
    pub flags: u64,
    /// Consumed-but-unused bytes the loader placed before the image.
    pub leading_unused_bytes: u64,
    /// The image's link-time base address.
    pub image_base: u64,
    /// Byte offset of the relocation table within the image.
    pub reloc_offset: u64,
    /// Byte size of the relocation table.
    pub reloc_size: u64,
}

/// The loader-supplied service function table, reduced to what the
/// trampolines read: the primary argument slot and the platform record.
#[derive(PartialEq, Eq, Structural, Clone, Copy, Debug)]
pub struct ServiceTable {
    /// Slot 0: the raw startup argument, or the image's placement address.
    pub arg: u64,
    /// The platform data record the table points to.
    pub platform_data: PlatformData,
}

/// What a trampoline leaves behind before runtime initialisation takes
/// over.
#[derive(PartialEq, Eq, Structural, Clone, Copy, Debug)]
pub struct BootReport {
    /// The stack pointer after the trampoline forced ABI alignment.
    pub aligned_sp: u64,
    /// The recovered runtime load base of the image.
    pub load_base: u64,
    /// Whether the stack probe was patched into a plain return because
    /// the loader already committed the stack pages.
    pub probe_disabled: bool,
}

/// Force the stack pointer to the 16-byte alignment the 64-bit System V
/// ABI requires before a call.
pub fn align_stack_sysv64(sp: u64) -> (r: u64)
    ensures
        r == sp - sp % 16,
        r % 16 == 0,
        r <= sp,
        sp - r < 16,
{
    let r = sp & 0xffff_ffff_ffff_fff0;
    proof {
        assert(sp & 0xffff_ffff_ffff_fff0 == sp - sp % 16) by (bit_vector);
        assert((sp - sp % 16) % 16 == 0) by (bit_vector);
    }
    r
}

/// Force the stack pointer to 32-byte alignment and carve the 32-byte
/// shadow space the Microsoft x64 ABI requires before a call.
pub fn align_stack_ms64(sp: u64) -> (r: u64)
    requires
        sp >= 64,
    ensures
        r == sp - sp % 32 - 32,
        r % 16 == 0,
        r < sp,
{
    let masked = sp & 0xffff_ffff_ffff_ffe0;
    proof {
        assert(sp & 0xffff_ffff_ffff_ffe0 == sp - sp % 32) by (bit_vector);
        assert(sp >= 64 ==> (sp - sp % 32) % 32 == 0 && sp - sp % 32 >= 32) by (bit_vector);
    }
    masked - 32
}

/// Force the stack pointer to the 16-byte alignment the 32-bit System V
/// ABI requires before a call.
pub fn align_stack_i686(sp: u32) -> (r: u32)
    ensures
        r == sp - sp % 16,
        r % 16 == 0,
        r <= sp,
{
    let r = sp & 0xffff_fff0;
    proof {
        assert(sp & 0xffff_fff0 == sp - sp % 16) by (bit_vector);
        assert((sp - sp % 16) % 16 == 0) by (bit_vector);
    }
    r
}

/// The 64-bit System V ELF entry: align the stack, recover the load base
/// by stripping the loader's leading unused bytes from the table's first
/// slot, locate the relocation table through the dynamic section at
/// `dynamic_offset`, relocate the image for that base, then run runtime
/// initialisation. Malformed relocation metadata is bootstrap-fatal before
/// anything else runs.
pub fn start_amd64_elf(
    sp: u64,
    table: &ServiceTable,
    image: &mut Vec<u8>,
    dynamic_offset: u64,
    program: &Vec<Action>,
    heap_pages: usize,
) -> (r: Result<(BootReport, Runtime, RunResult), RelocError>)
    requires
        table.platform_data.leading_unused_bytes <= table.arg,
        heap_pages <= usize::MAX / 4096 - 1,
    ensures
        r is Ok <==> ({
            match rela_region_of_dynamic(old(image)@, dynamic_offset as int) {
                Some(region) => rela_region_ok(old(image)@.len(), region.0, region.1)
                    && entries_ok(
                    rela_table_at(old(image)@, region.0 as int, (region.1 / 24) as nat),
                    old(image)@.len(),
                ),
                None => false,
            }
        }),
        r matches Ok(t) ==> ({
            let region = rela_region_of_dynamic(old(image)@, dynamic_offset as int)->Some_0;
            &&& t.0.aligned_sp == sp - sp % 16
            &&& t.0.load_base == table.arg - table.platform_data.leading_unused_bytes
            &&& !t.0.probe_disabled
            &&& final(image)@ == relocated(
                old(image)@,
                t.0.load_base,
                rela_table_at(old(image)@, region.0 as int, (region.1 / 24) as nat),
            )
            &&& t.1.wf()
            &&& sim_of(t.1) == run_spec(initial_sim(heap_pages), program@).0
            &&& t.2 == run_spec(initial_sim(heap_pages), program@).1
        }),
        r is Err ==> final(image)@ == old(image)@,
{
    let aligned_sp = align_stack_sysv64(sp);
    let load_base = table.arg - table.platform_data.leading_unused_bytes;
    match amd64_elf::relocate_from_dynamic(image, load_base, dynamic_offset) {
        Ok(()) => (),
        Err(e) => {
            return Err(e);
        },
    }
    let (heap, result) = start_rust(program, heap_pages);
    Ok((BootReport { aligned_sp, load_base, probe_disabled: false }, heap, result))
}

/// The base-relocation region's placement within the image, as the PE
/// trampoline computes it: the Platform Data offset, shifted by the
/// loader's leading unused bytes.
pub open spec fn pe_reloc_region_offset(table: ServiceTable) -> int {
    table.platform_data.reloc_offset + table.platform_data.leading_unused_bytes
}

/// The Microsoft x64 PE entry: align the stack with shadow space, recover
/// the load base by stripping the leading unused bytes from the image's
/// placement address, patch the stack probe into a plain return when the
/// loader already committed the stack, walk the base-relocation blocks the
/// Platform Data names and apply the load delta, then run runtime
/// initialisation. Malformed relocation metadata is bootstrap-fatal before
/// anything else runs.
pub fn start_amd64_pe(
    sp: u64,
    table: &ServiceTable,
    image: &mut Vec<u8>,
    program: &Vec<Action>,
    heap_pages: usize,
) -> (r: Result<(BootReport, Runtime, RunResult), RelocError>)
    requires
        sp >= 64,
        table.platform_data.leading_unused_bytes <= table.arg,
        table.platform_data.reloc_offset + table.platform_data.leading_unused_bytes <= u64::MAX,
        heap_pages <= usize::MAX / 4096 - 1,
    ensures
        r is Ok <==> ({
            match parse_blocks_spec(
                old(image)@,
                pe_reloc_region_offset(*table),
                table.platform_data.reloc_size as int,
            ) {
                Some(bs) => blocks_kinds_ok_abs(bs) && fixups_in_bounds(
                    blocks_fixups_abs(bs),
                    old(image)@.len(),
                ),
                None => false,
            }
        }),
        r matches Ok(t) ==> ({
            let bs = parse_blocks_spec(
                old(image)@,
                pe_reloc_region_offset(*table),
                table.platform_data.reloc_size as int,
            )->Some_0;
            &&& t.0.aligned_sp == sp - sp % 32 - 32
            &&& t.0.load_base == table.arg - table.platform_data.leading_unused_bytes
            &&& (t.0.probe_disabled <==> table.platform_data.flags % 2 == 1)
            &&& final(image)@ == pe_relocated(
                old(image)@,
                wrap_sub64(t.0.load_base, table.platform_data.image_base),
                blocks_fixups_abs(bs),
            )
            &&& t.1.wf()
            &&& sim_of(t.1) == run_spec(initial_sim(heap_pages), program@).0
            &&& t.2 == run_spec(initial_sim(heap_pages), program@).1
        }),
        r is Err ==> final(image)@ == old(image)@,
{
    let aligned_sp = align_stack_ms64(sp);
    let load_base = table.arg - table.platform_data.leading_unused_bytes;
    let delta = load_base.wrapping_sub(table.platform_data.image_base);
    let flags = table.platform_data.flags;
    let probe_disabled = flags & 1 == 1;
    let region_offset = table.platform_data.reloc_offset
        + table.platform_data.leading_unused_bytes;
    proof {
        assert(flags & 1 == flags % 2) by (bit_vector);
        assert(delta == wrap_sub64(load_base, table.platform_data.image_base));
    }
    match amd64_pe::relocate_region(image, delta, region_offset, table.platform_data.reloc_size) {
        Ok(()) => (),
        Err(e) => {
            return Err(e);
        },
    }
    let (heap, result) = start_rust(program, heap_pages);
    Ok((BootReport { aligned_sp, load_base, probe_disabled }, heap, result))
}

/// The 32-bit System V ELF entry: align the stack, recover the load base
/// from the table's first slot and the leading unused byte count, locate
/// the dynamic section by adding its link-time placement — learned from a
/// helper routine that returns its own address — to the load base, then
/// relocate and run runtime initialisation.
pub fn start_i686_elf(
    sp: u32,
    arg: u32,
    leading_unused_bytes: u32,
    link_dynamic: u32,
    image: &mut Vec<u8>,
    program: &Vec<Action>,
    heap_pages: usize,
) -> (r: Result<(u32, u32, u32, Runtime, RunResult), RelocError>)
    requires
        leading_unused_bytes <= arg,
        heap_pages <= usize::MAX / 4096 - 1,
    ensures
        r is Ok <==> ({
            match rela32_region_of_dynamic(old(image)@, link_dynamic as int) {
                Some(region) => rela32_region_ok(old(image)@.len(), region.0, region.1)
                    && entries32_ok(
                    rela32_table_at(old(image)@, region.0 as int, (region.1 / 12) as nat),
                    old(image)@.len(),
                ),
                None => false,
            }
        }),
        r matches Ok(t) ==> ({
            let region = rela32_region_of_dynamic(old(image)@, link_dynamic as int)->Some_0;
            &&& t.0 == sp - sp % 16
            &&& t.1 == arg - leading_unused_bytes
            &&& t.2 == wrap_add32((arg - leading_unused_bytes) as u32, link_dynamic)
            &&& final(image)@ == relocated32(
                old(image)@,
                t.1,
                rela32_table_at(old(image)@, region.0 as int, (region.1 / 12) as nat),
            )
            &&& t.3.wf()
            &&& sim_of(t.3) == run_spec(initial_sim(heap_pages), program@).0
            &&& t.4 == run_spec(initial_sim(heap_pages), program@).1
        }),
        r is Err ==> final(image)@ == old(image)@,
{
    let aligned_sp = align_stack_i686(sp);
    let load_base = arg - leading_unused_bytes;
    let dynamic_addr = load_base.wrapping_add(link_dynamic);
    proof {
        assert(dynamic_addr == wrap_add32(load_base, link_dynamic));
    }
    match i686_elf::relocate_from_dynamic(image, load_base, link_dynamic) {
        Ok(()) => (),
        Err(e) => {
            return Err(e);
        },
    }
    let (heap, result) = start_rust(program, heap_pages);
    Ok((aligned_sp, load_base, dynamic_addr, heap, result))
}

} // verus!
