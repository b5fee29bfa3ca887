//! The allocator backend and its page provider.
//!
//! The general-purpose allocator that serves the program is a well-known
//! boundary-tag design treated as a black box; the platform-specific part
//! is the backend below it, which requests and releases whole pages. The
//! operating system's raw mapping primitive is modelled here as a
//! [`PageProvider`] over a finite page arena: grants are page-aligned,
//! page-granular, carved from the arena in address order and tracked until
//! released, and a provider with too little room left refuses the request —
//! which is how exhaustion is simulated. The [`System`] backend exposes the
//! capability surface the general allocator needs on top of that provider,
//! with the behaviour of a backend that can release only whole regions and
//! cannot resize in place.

use vstd::prelude::*;
use vstd::arithmetic::div_mod::lemma_fundamental_div_mod;
use vstd::arithmetic::div_mod::lemma_round_down;

verus! {

/// The page granularity of the provider and of the backend.
pub const PAGE_SIZE: usize = 4096;

/// `size` rounded up to a whole number of 4 KiB pages.
pub open spec fn round_up_to_page(size: int) -> int {
    ((size + 4095) / 4096) * 4096
}

/// Rounding up to a page stays within any page-aligned budget that holds
/// the plain size.
pub proof fn lemma_round_up_to_page(size: int, avail: int)
    requires
        0 <= size,
        0 <= avail,
        size <= avail,
        avail % 4096 == 0,
    ensures
        size <= round_up_to_page(size),
        round_up_to_page(size) % 4096 == 0,
        round_up_to_page(size) <= avail,
        size > 0 ==> round_up_to_page(size) > 0,
{
    let q = (size + 4095) / 4096;
    lemma_fundamental_div_mod(size + 4095, 4096);
    assert(round_up_to_page(size) == q * 4096);
    assert(size <= q * 4096);
    assert((q * 4096) % 4096 == 0) by {
        vstd::arithmetic::div_mod::lemma_mod_multiples_basic(q, 4096);
    }
    assert(q * 4096 <= avail) by {
        lemma_round_down(avail, 4095, 4096);
        assert(avail == 4096 * ((avail + 4095) / 4096));
        assert(size + 4095 <= avail + 4095);
        vstd::arithmetic::div_mod::lemma_div_is_ordered(size + 4095, avail + 4095, 4096);
    }
}

/// The operating system's reserve-and-commit / release primitive, modelled
/// as a finite arena of pages. Addresses start above the first page so that
/// no grant is ever at address zero; `next` is the lowest never-granted
/// address and `live` lists the granted, not-yet-released regions.
pub struct PageProvider {
    /// Lowest address never handed out; the next grant starts here.
    pub next: usize,
    /// One past the last usable address: grants never reach past it.
    pub limit: usize,
    /// Granted and not yet released regions, as (base, length) pairs.
    pub live: Vec<(usize, usize)>,
}

impl PageProvider {
    /// The provider's invariant: everything page-aligned, every live
    /// region inside the already-carved part of the arena, no overlap.
    pub open spec fn wf(self) -> bool {
        &&& self.next % 4096 == 0
        &&& self.limit % 4096 == 0
        &&& 4096 <= self.next <= self.limit
        &&& forall|i: int|
            0 <= i < self.live@.len() ==> {
                &&& (#[trigger] self.live@[i]).0 % 4096 == 0
                &&& self.live@[i].1 % 4096 == 0
                &&& self.live@[i].1 > 0
                &&& 4096 <= self.live@[i].0
                &&& self.live@[i].0 + self.live@[i].1 <= self.next
            }
        &&& forall|i: int, j: int|
            0 <= i < j < self.live@.len() ==> (#[trigger] self.live@[i]).0 + self.live@[i].1 <= (
            #[trigger] self.live@[j]).0 || self.live@[j].0 + self.live@[j].1 <= self.live@[i].0
    }

    /// A request of `size` bytes fits in what is left of the arena.
    pub open spec fn can_grant(self, size: usize) -> bool {
        size > 0 && round_up_to_page(size as int) <= self.limit - self.next
    }

    /// Some live region was granted at base address `addr`.
    pub open spec fn has_region(self, addr: usize) -> bool {
        exists|i: int| 0 <= i < self.live@.len() && (#[trigger] self.live@[i]).0 == addr
    }

    /// A fresh provider over an arena of `capacity_pages` pages.
    pub fn new(capacity_pages: usize) -> (p: PageProvider)
        requires
            capacity_pages <= usize::MAX / 4096 - 1,
        ensures
            p.wf(),
            p.next == 4096,
            p.limit == 4096 + capacity_pages * 4096,
            p.live@.len() == 0,
    {
        PageProvider { next: 4096, limit: 4096 + capacity_pages * 4096, live: Vec::new() }
    }

    /// Reserve and commit a fresh region of at least `size` bytes: the
    /// grant is page-aligned, page-granular, zero-filled by the modelled
    /// system, and refused outright when the arena cannot hold it.
    pub fn acquire(&mut self, size: usize) -> (r: Option<(usize, usize)>)
        requires
            old(self).wf(),
        ensures
            final(self).wf(),
            r is Some <==> old(self).can_grant(size),
            r matches Some(g) ==> {
                &&& g.0 == old(self).next
                &&& g.0 % 4096 == 0
                &&& g.0 >= 4096
                &&& g.1 == round_up_to_page(size as int)
                &&& g.1 >= size
                &&& final(self).next == old(self).next + g.1
                &&& final(self).limit == old(self).limit
                &&& final(self).live@ == old(self).live@.push(g)
            },
            r is None ==> *final(self) == *old(self),
    {
        if size == 0 {
            return None;
        }
        let avail = self.limit - self.next;
        if size > avail {
            proof {
                lemma_fundamental_div_mod(size as int + 4095, 4096);
                assert(size <= round_up_to_page(size as int));
            }
            return None;
        }
        proof {
            lemma_round_up_to_page(size as int, avail as int);
        }
        let q = size / 4096;
        let rest = size % 4096;
        let granted = if rest == 0 {
            q * 4096
        } else {
            q * 4096 + 4096
        };
        proof {
            lemma_fundamental_div_mod(size as int, 4096);
            lemma_fundamental_div_mod(size as int + 4095, 4096);
            assert(granted == round_up_to_page(size as int));
        }
        let addr = self.next;
        self.next = self.next + granted;
        self.live.push((addr, granted));
        Some((addr, granted))
    }

    /// Release the whole region granted at base `addr`. Succeeds exactly
    /// when such a region is live, and removes only it.
    pub fn release(&mut self, addr: usize) -> (r: bool)
        requires
            old(self).wf(),
        ensures
            final(self).wf(),
            r <==> old(self).has_region(addr),
            !r ==> *final(self) == *old(self),
            r ==> exists|i: int|
                {
                    &&& 0 <= i < old(self).live@.len()
                    &&& (#[trigger] old(self).live@[i]).0 == addr
                    &&& final(self).live@ == old(self).live@.remove(i)
                },
            final(self).next == old(self).next,
            final(self).limit == old(self).limit,
    {
        let mut i: usize = 0;
        while i < self.live.len()
            invariant
                old(self).wf(),
                *self == *old(self),
                i <= self.live@.len(),
                forall|k: int| 0 <= k < i ==> (#[trigger] self.live@[k]).0 != addr,
            decreases self.live@.len() - i,
        {
            if self.live[i].0 == addr {
                self.live.remove(i);
                proof {
                    let pre = old(self).live@;
                    assert(self.live@ == pre.remove(i as int));
                    assert forall|a: int| 0 <= a < self.live@.len() implies {
                        &&& (#[trigger] self.live@[a]).0 % 4096 == 0
                        &&& self.live@[a].1 % 4096 == 0
                        &&& self.live@[a].1 > 0
                        &&& 4096 <= self.live@[a].0
                        &&& self.live@[a].0 + self.live@[a].1 <= self.next
                    } by {
                        if a < i {
                            assert(self.live@[a] == pre[a]);
                        } else {
                            assert(self.live@[a] == pre[a + 1]);
                        }
                    }
                    assert forall|a: int, b: int|
                        0 <= a < b < self.live@.len() implies (#[trigger] self.live@[a]).0
                        + self.live@[a].1 <= (#[trigger] self.live@[b]).0 || self.live@[b].0
                        + self.live@[b].1 <= self.live@[a].0 by {
                        let oa: int = if a < i { a } else { a + 1 };
                        let ob: int = if b < i { b } else { b + 1 };
                        assert(self.live@[a] == pre[oa]);
                        assert(self.live@[b] == pre[ob]);
                    }
                }
                return true;
            }
            i = i + 1;
        }
        false
    }
}

/// The allocator backend for the PE path: page-granular grants through the
/// provider, whole-region release, no in-place resize, no partial release.
pub struct System {
    _priv: (),
}

impl System {
    pub fn new() -> (s: System) {
        System { _priv: () }
    }

    /// Request a region of at least `size` bytes from the page provider.
    /// On success the returned address is the grant's page-aligned base and
    /// the returned size is the requested one (the grant itself is at least
    /// as large); on exhaustion the result is a null address and zero size,
    /// never a partially valid grant, and the provider is untouched.
    pub fn allocate(&self, provider: &mut PageProvider, size: usize) -> (r: (usize, usize, u32))
        requires
            old(provider).wf(),
        ensures
            final(provider).wf(),
            r.2 == 0,
            r.0 != 0 <==> old(provider).can_grant(size),
            old(provider).can_grant(size) ==> {
                &&& r.0 == old(provider).next
                &&& r.0 % 4096 == 0
                &&& r.0 >= 4096
                &&& r.1 == size
                &&& final(provider).next == old(provider).next + round_up_to_page(size as int)
                &&& final(provider).limit == old(provider).limit
                &&& final(provider).live@ == old(provider).live@.push(
                    (r.0, round_up_to_page(size as int) as usize),
                )
            },
            !old(provider).can_grant(size) ==> r == (0usize, 0usize, 0u32) && *final(provider)
                == *old(provider),
    {
        match provider.acquire(size) {
            Some(grant) => (grant.0, size, 0),
            None => (0, 0, 0),
        }
    }

    /// In-place or relocating resize is unsupported: always null, so the
    /// caller falls back to allocate-copy-release.
    pub fn remap(&self, ptr: usize, oldsize: usize, newsize: usize, can_move: bool) -> (r: usize)
        ensures
            r == 0,
    {
        let _ = (ptr, oldsize, newsize, can_move);
        0
    }

    /// Releasing only the tail of a region is unsupported.
    pub fn free_part(&self, ptr: usize, oldsize: usize, newsize: usize) -> (r: bool)
        ensures
            !r,
    {
        let _ = (ptr, oldsize, newsize);
        false
    }

    /// Return a whole granted region to the provider. The platform releases
    /// exactly what was acquired: the call succeeds exactly when `ptr` is
    /// the base of a live grant, whatever size the caller passes.
    pub fn free(&self, provider: &mut PageProvider, ptr: usize, size: usize) -> (r: bool)
        requires
            old(provider).wf(),
        ensures
            final(provider).wf(),
            r <==> old(provider).has_region(ptr),
            !r ==> *final(provider) == *old(provider),
            r ==> exists|i: int|
                {
                    &&& 0 <= i < old(provider).live@.len()
                    &&& (#[trigger] old(provider).live@[i]).0 == ptr
                    &&& final(provider).live@ == old(provider).live@.remove(i)
                },
    {
        let _ = size;
        provider.release(ptr)
    }

    /// The platform cannot release part of a region.
    pub fn can_release_part(&self, flags: u32) -> (r: bool)
        ensures
            !r,
    {
        let _ = flags;
        false
    }

    /// Freshly committed pages arrive zero-filled.
    pub fn allocates_zeros(&self) -> (r: bool)
        ensures
            r,
    {
        true
    }

    /// The platform's page granularity.
    pub fn page_size(&self) -> (r: usize)
        ensures
            r == 4096,
    {
        PAGE_SIZE
    }
}

/// Backend round trip: whatever was acquired can be released at once.
/// A successful grant hands back a non-null, page-aligned base and at
/// least the requested size, and the grant's base is then a live region,
/// so an immediate whole-region release of it succeeds.
pub proof fn lemma_backend_round_trip(
    pre: PageProvider,
    post: PageProvider,
    size: usize,
    r: (usize, usize, u32),
)
    requires
        pre.wf(),
        pre.can_grant(size),
        r.0 == pre.next,
        r.1 == size,
        post.live@ == pre.live@.push((r.0, round_up_to_page(size as int) as usize)),
    ensures
        r.0 != 0,
        r.0 % 4096 == 0,
        r.1 >= size,
        post.has_region(r.0),
{
    assert(post.live@[post.live@.len() - 1].0 == r.0);
}

} // verus!
