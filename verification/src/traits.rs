//! The unsigned-integer capability trait the numeric routines build on.
//!
//! The generic algorithms layered above the allocator abstract over the
//! primitive unsigned widths through one trait; only the operations those
//! routines actually need are required. Each operation's contract is
//! stated over the value as a natural number, so a generic caller can
//! reason about any width uniformly.

use vstd::prelude::*;
use vstd::arithmetic::power2::pow2;
use vstd::arithmetic::power2::lemma_pow2_adds;
use vstd::arithmetic::power2::lemma_pow2_strictly_increases;
use vstd::arithmetic::power2::lemma2_to64;
use vstd::arithmetic::div_mod::lemma_fundamental_div_mod;

verus! {

/// The number of low zero bits of a positive value: none if it is odd,
/// one more than its half's otherwise.
pub open spec fn stz_pos(n: nat) -> nat
    decreases n,
{
    if n == 0 {
        0
    } else if n % 2 == 1 {
        0
    } else {
        1 + stz_pos(n / 2)
    }
}

/// `a - b`, wrapped into `[0, m)`; the meaning of wrapping subtraction
/// for values below `m`.
pub open spec fn sub_mod(a: nat, b: nat, m: nat) -> nat
    recommends
        a < m,
        b < m,
{
    if a >= b {
        (a - b) as nat
    } else {
        (a + m - b) as nat
    }
}

/// A positive value is divisible by two exactly `stz_pos` times.
pub proof fn lemma_stz_pos_le(n: nat)
    requires
        n > 0,
    ensures
        pow2(stz_pos(n)) <= n,
    decreases n,
{
    lemma2_to64();
    if n % 2 != 1 {
        lemma_stz_pos_le(n / 2);
        lemma_pow2_adds(1, stz_pos(n / 2));
        lemma_fundamental_div_mod(n as int, 2);
    }
}

/// A positive value below `2^w` has fewer than `w` trailing zeros.
pub proof fn lemma_stz_pos_fits(n: nat, w: nat)
    requires
        0 < n < pow2(w),
    ensures
        stz_pos(n) < w,
{
    lemma_stz_pos_le(n);
    if stz_pos(n) > w {
        lemma_pow2_strictly_increases(w, stz_pos(n));
    }
}

/// The capability surface of a primitive unsigned integer, as the numeric
/// routines need it. `as_nat` is the value itself; `width` and `modulus`
/// are the type's bit width and `2^width`.
pub trait PrimUint: Sized + Copy {
    spec fn as_nat(self) -> nat;

    spec fn width() -> nat;

    spec fn modulus() -> nat;

    /// Whether the value is zero.
    fn is_zero(self) -> (r: bool)
        ensures
            r <==> self.as_nat() == 0,
    ;

    /// The number of low zero bits, as a value of the same type; the full
    /// bit width for zero.
    fn trailing_zeros(self) -> (r: Self)
        ensures
            self.as_nat() == 0 ==> r.as_nat() == Self::width(),
            self.as_nat() != 0 ==> r.as_nat() == stz_pos(self.as_nat()),
    ;

    /// Subtraction modulo `2^width`.
    fn wrapping_sub(self, rhs: Self) -> (r: Self)
        ensures
            r.as_nat() == sub_mod(self.as_nat(), rhs.as_nat(), Self::modulus()),
    ;
}

impl PrimUint for u8 {
    open spec fn as_nat(self) -> nat {
        self as nat
    }

    open spec fn width() -> nat {
        8
    }

    open spec fn modulus() -> nat {
        0x100
    }

    fn is_zero(self) -> (r: bool) {
        self == 0
    }

    fn trailing_zeros(self) -> (r: u8) {
        if self == 0 {
            return 8;
        }
        proof {
            lemma2_to64();
            lemma_stz_pos_fits(self as nat, 8);
        }
        let mut n = self;
        let mut c: u8 = 0;
        while n % 2 == 0
            invariant
                n > 0,
                stz_pos(self as nat) == c + stz_pos(n as nat),
                stz_pos(self as nat) < 8,
                c <= stz_pos(self as nat),
            decreases n,
        {
            proof {
                assert(stz_pos(n as nat) == 1 + stz_pos((n / 2) as nat));
            }
            n = n / 2;
            c = c + 1;
        }
        c
    }

    fn wrapping_sub(self, rhs: u8) -> (r: u8) {
        self.wrapping_sub(rhs)
    }
}

impl PrimUint for u16 {
    open spec fn as_nat(self) -> nat {
        self as nat
    }

    open spec fn width() -> nat {
        16
    }

    open spec fn modulus() -> nat {
        0x1_0000
    }

    fn is_zero(self) -> (r: bool) {
        self == 0
    }

    fn trailing_zeros(self) -> (r: u16) {
        if self == 0 {
            return 16;
        }
        proof {
            lemma2_to64();
            lemma_stz_pos_fits(self as nat, 16);
        }
        let mut n = self;
        let mut c: u16 = 0;
        while n % 2 == 0
            invariant
                n > 0,
                stz_pos(self as nat) == c + stz_pos(n as nat),
                stz_pos(self as nat) < 16,
                c <= stz_pos(self as nat),
            decreases n,
        {
            proof {
                assert(stz_pos(n as nat) == 1 + stz_pos((n / 2) as nat));
            }
            n = n / 2;
            c = c + 1;
        }
        c
    }

    fn wrapping_sub(self, rhs: u16) -> (r: u16) {
        self.wrapping_sub(rhs)
    }
}

impl PrimUint for u32 {
    open spec fn as_nat(self) -> nat {
        self as nat
    }

    open spec fn width() -> nat {
        32
    }

    open spec fn modulus() -> nat {
        0x1_0000_0000
    }

    fn is_zero(self) -> (r: bool) {
        self == 0
    }

    fn trailing_zeros(self) -> (r: u32) {
        if self == 0 {
            return 32;
        }
        proof {
            lemma2_to64();
            lemma_stz_pos_fits(self as nat, 32);
        }
        let mut n = self;
        let mut c: u32 = 0;
        while n % 2 == 0
            invariant
                n > 0,
                stz_pos(self as nat) == c + stz_pos(n as nat),
                stz_pos(self as nat) < 32,
                c <= stz_pos(self as nat),
            decreases n,
        {
            proof {
                assert(stz_pos(n as nat) == 1 + stz_pos((n / 2) as nat));
            }
            n = n / 2;
            c = c + 1;
        }
        c
    }

    fn wrapping_sub(self, rhs: u32) -> (r: u32) {
        self.wrapping_sub(rhs)
    }
}

impl PrimUint for u64 {
    open spec fn as_nat(self) -> nat {
        self as nat
    }

    open spec fn width() -> nat {
        64
    }

    open spec fn modulus() -> nat {
        0x1_0000_0000_0000_0000
    }

    fn is_zero(self) -> (r: bool) {
        self == 0
    }

    fn trailing_zeros(self) -> (r: u64) {
        if self == 0 {
            return 64;
        }
        proof {
            lemma2_to64();
            lemma_stz_pos_fits(self as nat, 64);
        }
        let mut n = self;
        let mut c: u64 = 0;
        while n % 2 == 0
            invariant
                n > 0,
                stz_pos(self as nat) == c + stz_pos(n as nat),
                stz_pos(self as nat) < 64,
                c <= stz_pos(self as nat),
            decreases n,
        {
            proof {
                assert(stz_pos(n as nat) == 1 + stz_pos((n / 2) as nat));
            }
            n = n / 2;
            c = c + 1;
        }
        c
    }

    fn wrapping_sub(self, rhs: u64) -> (r: u64) {
        self.wrapping_sub(rhs)
    }
}

impl PrimUint for u128 {
    open spec fn as_nat(self) -> nat {
        self as nat
    }

    open spec fn width() -> nat {
        128
    }

    open spec fn modulus() -> nat {
        pow2(128)
    }

    fn is_zero(self) -> (r: bool) {
        self == 0
    }

    fn trailing_zeros(self) -> (r: u128) {
        if self == 0 {
            return 128;
        }
        proof {
            lemma2_to64();
            lemma_pow2_adds(64, 64);
            assert((self as nat) < pow2(128));
            lemma_stz_pos_fits(self as nat, 128);
        }
        let mut n = self;
        let mut c: u128 = 0;
        while n % 2 == 0
            invariant
                n > 0,
                stz_pos(self as nat) == c + stz_pos(n as nat),
                stz_pos(self as nat) < 128,
                c <= stz_pos(self as nat),
            decreases n,
        {
            proof {
                assert(stz_pos(n as nat) == 1 + stz_pos((n / 2) as nat));
            }
            n = n / 2;
            c = c + 1;
        }
        c
    }

    fn wrapping_sub(self, rhs: u128) -> (r: u128) {
        proof {
            lemma2_to64();
            lemma_pow2_adds(64, 64);
            assert(pow2(128) == 0x1_0000_0000_0000_0000 * 0x1_0000_0000_0000_0000);
        }
        self.wrapping_sub(rhs)
    }
}

impl PrimUint for usize {
    open spec fn as_nat(self) -> nat {
        self as nat
    }

    open spec fn width() -> nat {
        if usize::MAX == 0xffff_ffff {
            32
        } else {
            64
        }
    }

    open spec fn modulus() -> nat {
        usize::MAX as nat + 1
    }

    fn is_zero(self) -> (r: bool) {
        self == 0
    }

    fn trailing_zeros(self) -> (r: usize) {
        let width: usize = if usize::MAX as u64 == 0xffff_ffff {
            32
        } else {
            64
        };
        if self == 0 {
            return width;
        }
        proof {
            lemma2_to64();
            lemma_stz_pos_fits(self as nat, Self::width());
        }
        let mut n = self;
        let mut c: usize = 0;
        while n % 2 == 0
            invariant
                n > 0,
                stz_pos(self as nat) == c + stz_pos(n as nat),
                stz_pos(self as nat) < Self::width(),
                c <= stz_pos(self as nat),
            decreases n,
        {
            proof {
                assert(stz_pos(n as nat) == 1 + stz_pos((n / 2) as nat));
            }
            n = n / 2;
            c = c + 1;
        }
        c
    }

    fn wrapping_sub(self, rhs: usize) -> (r: usize) {
        self.wrapping_sub(rhs)
    }
}

} // verus!
