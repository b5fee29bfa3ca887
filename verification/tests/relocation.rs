use basm::amd64_elf::{RelaEntry, R_RELATIVE};
use basm::amd64_pe::{BaseRelocBlock, Fixup};
use basm::fatal::RelocError;
use basm::i686_elf::RelaEntry32;

fn zeros(n: usize) -> Vec<u8> {
    let mut v = Vec::new();
    while v.len() < n {
        v.push(0u8);
    }
    v
}

#[test]
fn elf64_writes_expected_pattern_at_each_target() {
    let mut image = zeros(48);
    let base: u64 = 0x7f00_0000_1000;
    let table = vec![
        RelaEntry { offset: 0, kind: R_RELATIVE, addend: 0x10 },
        RelaEntry { offset: 16, kind: R_RELATIVE, addend: 0x1122_3344_5566_7788 },
        RelaEntry { offset: 40, kind: R_RELATIVE, addend: 0 },
    ];
    let r = basm::amd64_elf::relocate(&mut image, base, &table);
    assert_eq!(r, Ok(()));
    assert_eq!(&image[0..8], &(base + 0x10).to_le_bytes());
    assert_eq!(&image[16..24], &base.wrapping_add(0x1122_3344_5566_7788).to_le_bytes());
    assert_eq!(&image[40..48], &base.to_le_bytes());
    // untouched bytes stay zero
    assert_eq!(&image[8..16], &[0u8; 8]);
    assert_eq!(&image[24..40], &[0u8; 16]);
}

#[test]
fn elf64_entries_are_order_independent() {
    let base: u64 = 0x5000_0000;
    let e1 = RelaEntry { offset: 0, kind: R_RELATIVE, addend: 1 };
    let e2 = RelaEntry { offset: 8, kind: R_RELATIVE, addend: 2 };
    let e3 = RelaEntry { offset: 16, kind: R_RELATIVE, addend: 3 };
    let mut a = zeros(24);
    let mut b = zeros(24);
    assert_eq!(basm::amd64_elf::relocate(&mut a, base, &vec![e1, e2, e3]), Ok(()));
    assert_eq!(basm::amd64_elf::relocate(&mut b, base, &vec![e3, e1, e2]), Ok(()));
    assert_eq!(a, b);
}

#[test]
fn elf64_result_tracks_any_load_base() {
    let entry = RelaEntry { offset: 8, kind: R_RELATIVE, addend: 0x40 };
    for base in [0x1000u64, 0x7fff_0000, 0xdead_b000] {
        let mut image = zeros(16);
        assert_eq!(basm::amd64_elf::relocate(&mut image, base, &vec![entry]), Ok(()));
        let mut word = [0u8; 8];
        word.copy_from_slice(&image[8..16]);
        assert_eq!(u64::from_le_bytes(word), base + 0x40);
    }
}

#[test]
fn elf64_unsupported_kind_is_fatal_and_leaves_image_alone() {
    let mut image = zeros(16);
    let table = vec![RelaEntry { offset: 0, kind: 7, addend: 0 }];
    let r = basm::amd64_elf::relocate(&mut image, 0x1000, &table);
    assert_eq!(r, Err(RelocError::UnsupportedKind));
    assert_eq!(image, zeros(16));
}

#[test]
fn elf64_target_outside_image_is_fatal_and_leaves_image_alone() {
    let mut image = zeros(16);
    let good = RelaEntry { offset: 0, kind: R_RELATIVE, addend: 0 };
    let bad = RelaEntry { offset: 9, kind: R_RELATIVE, addend: 0 };
    let r = basm::amd64_elf::relocate(&mut image, 0x1000, &vec![good, bad]);
    assert_eq!(r, Err(RelocError::TargetOutOfBounds));
    assert_eq!(image, zeros(16));
}

#[test]
fn elf32_writes_expected_pattern() {
    let mut image = zeros(12);
    let base: u32 = 0x0804_8000;
    let table = vec![
        RelaEntry32 { offset: 0, kind: 8, addend: 0x20 },
        RelaEntry32 { offset: 8, kind: 8, addend: 0xffff_fff0 },
    ];
    let r = basm::i686_elf::relocate(&mut image, base, &table);
    assert_eq!(r, Ok(()));
    assert_eq!(&image[0..4], &(base + 0x20).to_le_bytes());
    assert_eq!(&image[8..12], &base.wrapping_add(0xffff_fff0).to_le_bytes());
    assert_eq!(&image[4..8], &[0u8; 4]);
}

#[test]
fn elf32_rejects_unsupported_kind() {
    let mut image = zeros(8);
    let table = vec![RelaEntry32 { offset: 0, kind: 1, addend: 0 }];
    let r = basm::i686_elf::relocate(&mut image, 0x1000, &table);
    assert_eq!(r, Err(RelocError::UnsupportedKind));
    assert_eq!(image, zeros(8));
}

#[test]
fn pe_blocks_apply_one_delta_each_at_declared_width() {
    // Two blocks spanning two 4 KiB pages; one 64-bit slot, one 32-bit slot
    // per page, plus a padding entry that must change nothing.
    let mut image = zeros(0x2040);
    image[0x10..0x18].copy_from_slice(&0x4000_1000u64.to_le_bytes());
    image[0x20..0x24].copy_from_slice(&0x4000_2000u32.to_le_bytes());
    image[0x1008..0x1010].copy_from_slice(&0x4000_3000u64.to_le_bytes());
    let blocks = vec![
        BaseRelocBlock {
            page_rva: 0,
            entries: vec![(10 << 12) | 0x10, (3 << 12) | 0x20, 0],
        },
        BaseRelocBlock { page_rva: 0x1000, entries: vec![(10 << 12) | 0x08] },
    ];
    let delta: u64 = 0x0000_0001_0000_0500;
    let r = basm::amd64_pe::relocate(&mut image, delta, &blocks);
    assert_eq!(r, Ok(()));
    let mut w = [0u8; 8];
    w.copy_from_slice(&image[0x10..0x18]);
    assert_eq!(u64::from_le_bytes(w), 0x4000_1000u64.wrapping_add(delta));
    let mut h = [0u8; 4];
    h.copy_from_slice(&image[0x20..0x24]);
    // the 32-bit slot takes only the low half of the delta, never the wide one
    assert_eq!(u32::from_le_bytes(h), 0x4000_2000u32.wrapping_add(delta as u32));
    w.copy_from_slice(&image[0x1008..0x1010]);
    assert_eq!(u64::from_le_bytes(w), 0x4000_3000u64.wrapping_add(delta));
    // the padding entry and everything unlisted stayed put
    assert_eq!(&image[0..0x10], &zeros(0x10)[..]);
    assert_eq!(&image[0x24..0x1008], &zeros(0x1008 - 0x24)[..]);
}

#[test]
fn pe_unknown_kind_is_fatal_and_leaves_image_alone() {
    let mut image = zeros(0x40);
    let blocks = vec![BaseRelocBlock { page_rva: 0, entries: vec![(5 << 12) | 0x10] }];
    let r = basm::amd64_pe::relocate(&mut image, 0x1000, &blocks);
    assert_eq!(r, Err(RelocError::UnsupportedKind));
    assert_eq!(image, zeros(0x40));
}

#[test]
fn pe_target_outside_image_is_fatal_and_leaves_image_alone() {
    let mut image = zeros(0x20);
    let blocks = vec![BaseRelocBlock { page_rva: 0, entries: vec![(10 << 12) | 0x1c] }];
    let r = basm::amd64_pe::relocate(&mut image, 0x1000, &blocks);
    assert_eq!(r, Err(RelocError::TargetOutOfBounds));
    assert_eq!(image, zeros(0x20));
}

#[test]
fn pe_parse_blocks_walks_headers_and_entries() {
    let mut image = zeros(0x40);
    // first block: page 0x1000, 12 bytes, two entries
    image[0x08..0x0c].copy_from_slice(&0x1000u32.to_le_bytes());
    image[0x0c..0x10].copy_from_slice(&12u32.to_le_bytes());
    image[0x10..0x12].copy_from_slice(&((3u16 << 12) | 0x14).to_le_bytes());
    image[0x12..0x14].copy_from_slice(&((10u16 << 12) | 0x20).to_le_bytes());
    // second block: page 0x3000, 10 bytes, one entry
    image[0x14..0x18].copy_from_slice(&0x3000u32.to_le_bytes());
    image[0x18..0x1c].copy_from_slice(&10u32.to_le_bytes());
    image[0x1c..0x1e].copy_from_slice(&((10u16 << 12) | 0xff0).to_le_bytes());
    let blocks = basm::amd64_pe::parse_blocks(&image, 0x08, 22).unwrap();
    assert_eq!(blocks.len(), 2);
    assert_eq!(blocks[0].page_rva, 0x1000);
    assert_eq!(blocks[0].entries, vec![(3 << 12) | 0x14, (10 << 12) | 0x20]);
    assert_eq!(blocks[1].page_rva, 0x3000);
    assert_eq!(blocks[1].entries, vec![(10 << 12) | 0xff0]);
    // a block size below its own header is malformed
    image[0x0c..0x10].copy_from_slice(&6u32.to_le_bytes());
    let r = basm::amd64_pe::parse_blocks(&image, 0x08, 22);
    assert_eq!(r.unwrap_err(), RelocError::MalformedTable);
    // a region cut short in the middle of a block is malformed
    image[0x0c..0x10].copy_from_slice(&12u32.to_le_bytes());
    let r = basm::amd64_pe::parse_blocks(&image, 0x08, 16);
    assert_eq!(r.unwrap_err(), RelocError::MalformedTable);
}

#[test]
fn pe_collect_fixups_flattens_blocks_in_order() {
    let blocks = vec![
        BaseRelocBlock { page_rva: 0x1000, entries: vec![0, (3 << 12) | 0x14, (10 << 12) | 0x20] },
        BaseRelocBlock { page_rva: 0x3000, entries: vec![(10 << 12) | 0xff0] },
    ];
    let fixups = basm::amd64_pe::collect_fixups(&blocks).unwrap();
    assert_eq!(
        fixups,
        vec![
            Fixup { rva: 0x1014, wide: false },
            Fixup { rva: 0x1020, wide: true },
            Fixup { rva: 0x3ff0, wide: true },
        ]
    );
}

#[test]
fn elf64_parse_reads_table_fields() {
    let mut image = zeros(56);
    image[8..16].copy_from_slice(&0x20u64.to_le_bytes());
    image[16..24].copy_from_slice(&0xabcd_0000_0008u64.to_le_bytes());
    image[24..32].copy_from_slice(&0x99u64.to_le_bytes());
    image[32..40].copy_from_slice(&0x28u64.to_le_bytes());
    image[40..48].copy_from_slice(&8u64.to_le_bytes());
    image[48..56].copy_from_slice(&0x7u64.to_le_bytes());
    let table = basm::amd64_elf::parse_rela_table(&image, 8, 48).unwrap();
    assert_eq!(
        table,
        vec![
            // the kind is the info word's low half; the rest is ignored
            RelaEntry { offset: 0x20, kind: 8, addend: 0x99 },
            RelaEntry { offset: 0x28, kind: 8, addend: 0x7 },
        ]
    );
}

#[test]
fn elf64_parse_rejects_bad_metadata() {
    let image = zeros(56);
    // a size that is no whole number of entries
    let r = basm::amd64_elf::parse_rela_table(&image, 8, 30);
    assert_eq!(r, Err(RelocError::MalformedTable));
    // a table sticking out past the image end
    let r = basm::amd64_elf::parse_rela_table(&image, 40, 24);
    assert_eq!(r, Err(RelocError::MalformedTable));
}

#[test]
fn elf64_dynamic_scan_skips_unrelated_tags_and_stops_at_null() {
    let mut image = zeros(96);
    // (tag, value) pairs: an unrelated tag, the table placement, the table
    // size, the terminator, then garbage past the end marker
    image[0..8].copy_from_slice(&21u64.to_le_bytes());
    image[8..16].copy_from_slice(&0x1234u64.to_le_bytes());
    image[16..24].copy_from_slice(&7u64.to_le_bytes());
    image[24..32].copy_from_slice(&0x40u64.to_le_bytes());
    image[32..40].copy_from_slice(&8u64.to_le_bytes());
    image[40..48].copy_from_slice(&48u64.to_le_bytes());
    image[48..64].copy_from_slice(&[0u8; 16]);
    image[64..72].copy_from_slice(&7u64.to_le_bytes());
    image[72..80].copy_from_slice(&0x9999u64.to_le_bytes());
    assert_eq!(basm::amd64_elf::find_dynamic_tag(&image, 0, 7), Some(0x40));
    assert_eq!(basm::amd64_elf::find_dynamic_tag(&image, 0, 8), Some(48));
    // a tag only written after the terminator is never found
    assert_eq!(basm::amd64_elf::find_dynamic_tag(&image, 48, 7), None);
    // a scan that runs off the image finds nothing
    assert_eq!(basm::amd64_elf::find_dynamic_tag(&image, 90, 7), None);
}

#[test]
fn word_access_round_trips() {
    let mut image = zeros(16);
    basm::image::write_u64_le(&mut image, 3, 0x0102_0304_0506_0708);
    assert_eq!(basm::image::read_u64_le(&image, 3), 0x0102_0304_0506_0708);
    basm::image::write_u32_le(&mut image, 12, 0xaabb_ccdd);
    assert_eq!(basm::image::read_u32_le(&image, 12), 0xaabb_ccdd);
    assert_eq!(image[0], 0);
    assert_eq!(&image[3..11], &0x0102_0304_0506_0708u64.to_le_bytes());
}
