use basm::chkstk::chkstk;
use basm::fatal::FatalReason;
use basm::malloc::{PageProvider, System};
use basm::traits::PrimUint;

#[test]
fn backend_round_trip_grants_then_releases() {
    let system = System::new();
    let mut provider = PageProvider::new(8);
    for size in [1usize, 16, 4095, 4096, 4097] {
        let (addr, granted, flags) = system.allocate(&mut provider, size);
        assert!(addr != 0);
        assert_eq!(addr % 4096, 0);
        assert!(granted >= size);
        assert_eq!(flags, 0);
        assert!(system.free(&mut provider, addr, granted));
    }
}

#[test]
fn backend_exhaustion_returns_null_and_zero() {
    let system = System::new();
    let mut provider = PageProvider::new(2);
    // larger than the whole arena: refused outright, nothing granted
    let r = system.allocate(&mut provider, 3 * 4096);
    assert_eq!(r, (0, 0, 0));
    // a zero-byte request is refused too
    assert_eq!(system.allocate(&mut provider, 0), (0, 0, 0));
    // fill the arena, then watch the next request fail cleanly
    let (a1, _, _) = system.allocate(&mut provider, 2 * 4096);
    assert!(a1 != 0);
    let r = system.allocate(&mut provider, 1);
    assert_eq!(r, (0, 0, 0));
    // a failed request did not disturb the live grant
    assert!(system.free(&mut provider, a1, 2 * 4096));
}

#[test]
fn backend_free_rejects_unknown_base() {
    let system = System::new();
    let mut provider = PageProvider::new(4);
    let (addr, _, _) = system.allocate(&mut provider, 100);
    assert!(!system.free(&mut provider, addr + 4096, 100));
    assert!(!system.free(&mut provider, 0, 0));
    assert!(system.free(&mut provider, addr, 100));
    // releasing the same region twice fails the second time
    assert!(!system.free(&mut provider, addr, 100));
}

#[test]
fn backend_descriptive_surface() {
    let system = System::new();
    assert_eq!(system.remap(4096, 16, 32, true), 0);
    assert!(!system.free_part(4096, 32, 16));
    assert!(!system.can_release_part(0));
    assert!(system.allocates_zeros());
    assert_eq!(system.page_size(), 4096);
}

#[test]
fn stack_probe_zero_depth_touches_once() {
    let sp: u64 = 0x7fff_ffff_0000;
    assert_eq!(chkstk(sp, 0), vec![sp]);
}

#[test]
fn stack_probe_single_page() {
    let sp: u64 = 0x7fff_ffff_0000;
    assert_eq!(chkstk(sp, 4096), vec![sp - 4096, sp - 4096]);
}

#[test]
fn stack_probe_pages_plus_remainder_descends_without_skipping() {
    let sp: u64 = 0x7fff_ffff_0000;
    let touched = chkstk(sp, 4096 * 3 + 500);
    assert_eq!(touched, vec![sp - 4096, sp - 8192, sp - 12288, sp - 12788]);
    for pair in touched.windows(2) {
        assert!(pair[1] < pair[0]);
        assert!(pair[0] - pair[1] <= 4096);
    }
}

#[test]
fn stack_probe_small_depth_touches_full_depth() {
    let sp: u64 = 0x1_0000;
    assert_eq!(chkstk(sp, 500), vec![sp - 500]);
}

#[test]
fn fatal_stubs_name_their_reasons() {
    assert_eq!(basm::fatal::logic_fault(), FatalReason::LogicFault);
    assert_eq!(basm::fatal::alloc_fail(), FatalReason::AllocationFailure);
    assert_eq!(basm::fatal::rust_eh_personality(), FatalReason::UnwindAttempt);
    assert_eq!(basm::fatal::unwind_resume(), FatalReason::UnwindAttempt);
    assert_eq!(basm::fatal::cxx_frame_handler(), FatalReason::UnwindAttempt);
}

#[test]
fn prim_uint_is_zero() {
    assert!(PrimUint::is_zero(0u8));
    assert!(!PrimUint::is_zero(5u64));
    assert!(PrimUint::is_zero(0u128));
}

#[test]
fn prim_uint_trailing_zeros() {
    assert_eq!(<u8 as PrimUint>::trailing_zeros(0), 8);
    assert_eq!(<u8 as PrimUint>::trailing_zeros(1), 0);
    assert_eq!(<u8 as PrimUint>::trailing_zeros(8), 3);
    assert_eq!(<u8 as PrimUint>::trailing_zeros(0x80), 7);
    assert_eq!(<u16 as PrimUint>::trailing_zeros(0), 16);
    assert_eq!(<u32 as PrimUint>::trailing_zeros(0x100), 8);
    assert_eq!(<u64 as PrimUint>::trailing_zeros(0), 64);
    assert_eq!(<u64 as PrimUint>::trailing_zeros(1 << 63), 63);
    assert_eq!(<u128 as PrimUint>::trailing_zeros(0), 128);
    assert_eq!(<u128 as PrimUint>::trailing_zeros(1u128 << 100), 100);
    assert_eq!(<usize as PrimUint>::trailing_zeros(0), usize::BITS as usize);
    assert_eq!(<usize as PrimUint>::trailing_zeros(4096), 12);
}

#[test]
fn prim_uint_wrapping_sub() {
    assert_eq!(<u8 as PrimUint>::wrapping_sub(5, 3), 2);
    assert_eq!(<u8 as PrimUint>::wrapping_sub(0, 1), 255);
    assert_eq!(<u32 as PrimUint>::wrapping_sub(0, 1), u32::MAX);
    assert_eq!(<u64 as PrimUint>::wrapping_sub(3, 5), u64::MAX - 1);
    assert_eq!(<u128 as PrimUint>::wrapping_sub(0, 1), u128::MAX);
    assert_eq!(<usize as PrimUint>::wrapping_sub(0, 1), usize::MAX);
}
