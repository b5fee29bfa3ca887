use basm::fatal::FatalReason;
use basm::runtime::{Action, RunResult};
use basm::start::{BootReport, PlatformData, ServiceTable};

fn zeros(n: usize) -> Vec<u8> {
    let mut v = Vec::new();
    while v.len() < n {
        v.push(0u8);
    }
    v
}

/// Lay one 24-byte `.rela` entry into the image at `at`.
fn put_rela_entry(image: &mut [u8], at: usize, offset: u64, kind: u64, addend: u64) {
    image[at..at + 8].copy_from_slice(&offset.to_le_bytes());
    image[at + 8..at + 16].copy_from_slice(&kind.to_le_bytes());
    image[at + 16..at + 24].copy_from_slice(&addend.to_le_bytes());
}

/// Lay a dynamic section at `at` naming a relocation table: a DT_RELA
/// pair, a DT_RELASZ pair and the terminating pair.
fn put_dynamic(image: &mut [u8], at: usize, rela_off: u64, rela_size: u64) {
    image[at..at + 8].copy_from_slice(&7u64.to_le_bytes());
    image[at + 8..at + 16].copy_from_slice(&rela_off.to_le_bytes());
    image[at + 16..at + 24].copy_from_slice(&8u64.to_le_bytes());
    image[at + 24..at + 32].copy_from_slice(&rela_size.to_le_bytes());
    image[at + 32..at + 48].copy_from_slice(&[0u8; 16]);
}

fn elf_table(arg: u64, leading: u64) -> ServiceTable {
    ServiceTable {
        arg,
        platform_data: PlatformData {
            flags: 0,
            leading_unused_bytes: leading,
            image_base: 0,
            reloc_offset: 0,
            reloc_size: 0,
        },
    }
}

#[test]
fn end_to_end_elf64_boot_runs_program_and_exits_zero() {
    // A minimal user program: obtain a small buffer, store a known byte
    // pattern, and return, which exits with status 0.
    let program = vec![
        Action::Allocate { size: 16 },
        Action::Write { region: 0, offset: 0, value: 0xde },
        Action::Write { region: 0, offset: 1, value: 0xad },
        Action::Write { region: 0, offset: 2, value: 0xbe },
        Action::Write { region: 0, offset: 3, value: 0xef },
    ];
    let mut image = zeros(96);
    // the dynamic section at 48 names one relocation entry, held at 24
    put_rela_entry(&mut image, 24, 8, 8, 0x100);
    put_dynamic(&mut image, 48, 24, 24);
    let table = elf_table(0x5555_6000, 0x1000);
    let r = basm::start::start_amd64_elf(0x7fff_ffff_e123, &table, &mut image, 48, &program, 4);
    let (report, heap, result) = r.unwrap();
    // the trampoline aligned the stack and recovered the true load base
    assert_eq!(report.aligned_sp % 16, 0);
    assert_eq!(report.aligned_sp, 0x7fff_ffff_e120);
    assert_eq!(report.load_base, 0x5555_5000);
    assert!(!report.probe_disabled);
    // the image was relocated for that base before anything else ran
    assert_eq!(&image[8..16], &0x5555_5100u64.to_le_bytes());
    // the program ran to completion and exit was invoked once with 0
    assert_eq!(result, RunResult::Exited { status: 0 });
    // the buffer holds the pattern, and fresh memory around it is zero
    assert_eq!(heap.regions.len(), 1);
    let (base, size) = heap.regions[0];
    assert_eq!(size, 16);
    assert_eq!(&heap.arena[base..base + 4], &[0xde, 0xad, 0xbe, 0xef]);
    assert_eq!(heap.arena[base + 4], 0);
}

#[test]
fn elf64_boot_halts_on_malformed_relocations() {
    let program = vec![Action::Allocate { size: 8 }];
    let table = elf_table(0x9000, 0);
    // an entry whose 8-byte target sticks out past the image end
    let mut image = zeros(96);
    put_rela_entry(&mut image, 0, 92, 8, 0);
    put_dynamic(&mut image, 24, 0, 24);
    let expected = image.clone();
    let r = basm::start::start_amd64_elf(0x10_0000, &table, &mut image, 24, &program, 2);
    assert!(r.is_err());
    assert_eq!(image, expected);
    // metadata that is no whole number of entries is refused untouched
    let mut image = zeros(96);
    put_dynamic(&mut image, 24, 0, 23);
    let expected = image.clone();
    let r = basm::start::start_amd64_elf(0x10_0000, &table, &mut image, 24, &program, 2);
    assert!(r.is_err());
    assert_eq!(image, expected);
    // a dynamic section that never names the table is refused untouched
    let mut image = zeros(96);
    let expected = image.clone();
    let r = basm::start::start_amd64_elf(0x10_0000, &table, &mut image, 24, &program, 2);
    assert!(r.is_err());
    assert_eq!(image, expected);
}

#[test]
fn boot_reports_allocation_failure_as_fatal() {
    // The program asks for more than the heap holds: the run must halt in
    // the allocation-failure stub and never reach the exit service.
    let program = vec![Action::Allocate { size: 10 * 4096 }];
    // a dynamic section naming an empty relocation table
    let mut image = zeros(64);
    put_dynamic(&mut image, 8, 0, 0);
    let table = elf_table(0x9000, 0);
    let r = basm::start::start_amd64_elf(0x10_0000, &table, &mut image, 8, &program, 2);
    let (_, _, result) = r.unwrap();
    assert_eq!(result, RunResult::Fatal { reason: FatalReason::AllocationFailure });
}

#[test]
fn boot_reports_wild_store_as_logic_fault() {
    let program = vec![
        Action::Allocate { size: 8 },
        Action::Write { region: 0, offset: 8, value: 1 },
    ];
    let mut image = zeros(64);
    put_dynamic(&mut image, 8, 0, 0);
    let table = elf_table(0x9000, 0);
    let r = basm::start::start_amd64_elf(0x10_0000, &table, &mut image, 8, &program, 2);
    let (_, _, result) = r.unwrap();
    assert_eq!(result, RunResult::Fatal { reason: FatalReason::LogicFault });
}

#[test]
fn end_to_end_pe_boot_applies_delta_and_reads_stack_flag() {
    let program = vec![Action::Allocate { size: 32 }];
    let mut image = zeros(0x80);
    image[0x10..0x18].copy_from_slice(&0x1_4000_1000u64.to_le_bytes());
    // one base-relocation block at 0x20 + 0x40 leading bytes: the page at
    // offset 0, a 10-byte block, one wide entry naming the word at 0x10
    image[0x60..0x64].copy_from_slice(&0u32.to_le_bytes());
    image[0x64..0x68].copy_from_slice(&10u32.to_le_bytes());
    image[0x68..0x6a].copy_from_slice(&((10u16 << 12) | 0x10).to_le_bytes());
    let table = ServiceTable {
        arg: 0x1_8000_0040,
        platform_data: PlatformData {
            flags: 1,
            leading_unused_bytes: 0x40,
            image_base: 0x1_4000_0000,
            reloc_offset: 0x20,
            reloc_size: 10,
        },
    };
    let r = basm::start::start_amd64_pe(0x200_0000, &table, &mut image, &program, 4);
    let (report, _, result): (BootReport, _, _) = r.unwrap();
    assert_eq!(report.load_base, 0x1_8000_0000);
    // the loader pre-committed the stack, so the probe was patched out
    assert!(report.probe_disabled);
    assert_eq!(report.aligned_sp, 0x200_0000 - 32);
    // the listed word moved by exactly the load delta
    let delta = 0x1_8000_0000u64 - 0x1_4000_0000u64;
    let mut w = [0u8; 8];
    w.copy_from_slice(&image[0x10..0x18]);
    assert_eq!(u64::from_le_bytes(w), 0x1_4000_1000u64 + delta);
    assert_eq!(result, RunResult::Exited { status: 0 });
}

#[test]
fn end_to_end_i686_boot_relocates_and_finds_dynamic_section() {
    let program = vec![Action::Allocate { size: 4 }];
    let mut image = zeros(64);
    // 32-bit dynamic section at 16: the table lies at 40 and is 12 bytes
    image[16..20].copy_from_slice(&7u32.to_le_bytes());
    image[20..24].copy_from_slice(&40u32.to_le_bytes());
    image[24..28].copy_from_slice(&8u32.to_le_bytes());
    image[28..32].copy_from_slice(&12u32.to_le_bytes());
    image[32..40].copy_from_slice(&[0u8; 8]);
    // one 12-byte entry: fix the word at 4 to the base plus 0x30
    image[40..44].copy_from_slice(&4u32.to_le_bytes());
    image[44..48].copy_from_slice(&8u32.to_le_bytes());
    image[48..52].copy_from_slice(&0x30u32.to_le_bytes());
    let r = basm::start::start_i686_elf(
        0xbfff_f00c,
        0x0804_9000,
        0x1000,
        16,
        &mut image,
        &program,
        2,
    );
    let (aligned_sp, load_base, dynamic_addr, _, result) = r.unwrap();
    assert_eq!(aligned_sp, 0xbfff_f000);
    assert_eq!(load_base, 0x0804_8000);
    assert_eq!(dynamic_addr, 0x0804_8010);
    assert_eq!(&image[4..8], &0x0804_8030u32.to_le_bytes());
    assert_eq!(result, RunResult::Exited { status: 0 });
}

#[test]
fn stack_alignment_for_each_abi() {
    assert_eq!(basm::start::align_stack_sysv64(0x1007), 0x1000);
    assert_eq!(basm::start::align_stack_sysv64(0x1000), 0x1000);
    assert_eq!(basm::start::align_stack_ms64(0x1018), 0x1000 - 32);
    assert_eq!(basm::start::align_stack_ms64(0x1040), 0x1040 - 32);
    assert_eq!(basm::start::align_stack_i686(0xffff_100c), 0xffff_1000);
}
