//! The stack probe for lazily committed stacks.
//!
//! The PE loader's ABI commits stack memory one guard page at a time: a
//! function whose frame exceeds one page must touch every 4 KiB boundary
//! between the current stack pointer and its full frame depth, in descending
//! address order, before moving the stack pointer. Skipping a page would
//! fault on an unmapped, non-guard page and crash unrecoverably.
//!
//! The probe routine is modelled here by the sequence of addresses it
//! touches: one word per page boundary, walked strictly downward, with one
//! final touch at the full requested depth. When the requested depth is an
//! exact page multiple the final touch repeats the last boundary — the real
//! routine does the same.

use vstd::prelude::*;

verus! {

/// The addresses the probe's page-walking loop touches, entered with at
/// least one full page still to cover: one touch per 4 KiB step, and a
/// final touch at the full depth.
pub open spec fn probe_loop(sp: int, rem: int) -> Seq<int>
    recommends
        rem >= 4096,
    decreases rem,
{
    if rem - 4096 > 4096 {
        seq![sp - 4096] + probe_loop(sp - 4096, rem - 4096)
    } else {
        seq![sp - 4096, sp - rem]
    }
}

/// Every address the probe touches for a requested depth, from a stack
/// pointer: a frame under one page takes a single touch at its full depth.
pub open spec fn probe_seq(sp: int, request: int) -> Seq<int> {
    if request < 4096 {
        seq![sp - request]
    } else {
        probe_loop(sp, request)
    }
}

/// The `k`-th 4 KiB boundary below stack pointer `sp`.
pub open spec fn page_boundary(sp: int, k: int) -> int {
    sp - 4096 * k
}

/// What the page-walking loop still has to touch, part way through.
pub open spec fn probe_rest(addr: int, rem: int) -> Seq<int> {
    if rem > 4096 {
        probe_loop(addr, rem)
    } else {
        seq![addr - rem]
    }
}

/// The probe covers the requested depth page by page: the touches descend,
/// never jump more than one page, pass through every 4 KiB boundary down to
/// the requested depth, and end exactly there. The descent is strict unless
/// the depth is an exact page multiple, where the final touch repeats the
/// last boundary.
pub proof fn lemma_probe_loop_props(sp: int, rem: int)
    requires
        rem >= 4096,
    ensures
        probe_loop(sp, rem).len() >= 2,
        probe_loop(sp, rem)[0] == sp - 4096,
        probe_loop(sp, rem).last() == sp - rem,
        forall|i: int|
            0 <= i < probe_loop(sp, rem).len() - 1 ==> #[trigger] probe_loop(sp, rem)[i + 1]
                <= probe_loop(sp, rem)[i] && probe_loop(sp, rem)[i] - probe_loop(sp, rem)[i + 1]
                <= 4096,
        forall|i: int|
            0 <= i < probe_loop(sp, rem).len() - 2 ==> #[trigger] probe_loop(sp, rem)[i]
                - probe_loop(sp, rem)[i + 1] == 4096,
        forall|k: int|
            1 <= k <= rem / 4096 ==> probe_loop(sp, rem).contains(#[trigger] page_boundary(sp, k)),
        rem % 4096 != 0 ==> forall|i: int|
            0 <= i < probe_loop(sp, rem).len() - 1 ==> #[trigger] probe_loop(sp, rem)[i + 1]
                < probe_loop(sp, rem)[i],
    decreases rem,
{
    let r = probe_loop(sp, rem);
    if rem - 4096 > 4096 {
        let tail = probe_loop(sp - 4096, rem - 4096);
        lemma_probe_loop_props(sp - 4096, rem - 4096);
        assert(r == seq![sp - 4096] + tail);
        assert(r[0] == sp - 4096);
        assert(forall|i: int| 0 <= i < tail.len() ==> r[i + 1] == tail[i]);
        assert(r.last() == tail.last());
        assert((rem - 4096) / 4096 == rem / 4096 - 1);
        assert((rem - 4096) % 4096 == rem % 4096);
        assert forall|k: int| 1 <= k <= rem / 4096 implies r.contains(
            #[trigger] page_boundary(sp, k),
        ) by {
            if k == 1 {
                assert(r[0] == page_boundary(sp, 1));
            } else {
                assert(1 <= k - 1 <= (rem - 4096) / 4096);
                assert(tail.contains(page_boundary(sp - 4096, k - 1)));
                let idx = choose|idx: int|
                    0 <= idx < tail.len() && tail[idx] == page_boundary(sp - 4096, k - 1);
                assert(page_boundary(sp - 4096, k - 1) == page_boundary(sp, k));
                assert(r[idx + 1] == page_boundary(sp, k));
            }
        }
        assert(r[0] - r[1] == 4096);
    } else {
        assert(r == seq![sp - 4096, sp - rem]);
        assert(r.last() == sp - rem);
        assert(4096 <= rem <= 8192);
        assert forall|k: int| 1 <= k <= rem / 4096 implies r.contains(
            #[trigger] page_boundary(sp, k),
        ) by {
            if k == 1 {
                assert(r[0] == page_boundary(sp, 1));
            } else {
                assert(k == 2);
                assert(rem / 4096 >= 2 ==> rem >= 8192);
                assert(rem == 8192);
                assert(r[1] == page_boundary(sp, 2));
            }
        }
    }
}

/// The probe touches the full requested depth last, and a request under one
/// page takes exactly one touch.
pub proof fn lemma_probe_seq_props(sp: int, request: int)
    requires
        request >= 0,
    ensures
        probe_seq(sp, request).len() >= 1,
        probe_seq(sp, request).last() == sp - request,
        request < 4096 ==> probe_seq(sp, request) == seq![sp - request],
{
    if request >= 4096 {
        lemma_probe_loop_props(sp, request);
    }
}

/// Touch one word per 4 KiB page from the stack pointer down to the full
/// requested depth, in descending order, before the caller extends its
/// frame. The returned vector lists the touched addresses in touch order;
/// the real routine writes to them and returns nothing.
pub fn chkstk(sp: u64, request: u64) -> (touched: Vec<u64>)
    requires
        request <= sp,
    ensures
        touched@.map_values(|a: u64| a as int) == probe_seq(sp as int, request as int),
{
    let mut touched: Vec<u64> = Vec::new();
    if request < 4096 {
        touched.push(sp - request);
        proof {
            assert(touched@.map_values(|a: u64| a as int) =~= probe_seq(
                sp as int,
                request as int,
            ));
        }
        return touched;
    }
    let mut addr = sp - 4096;
    let mut rem = request - 4096;
    touched.push(addr);
    proof {
        assert(touched@.map_values(|a: u64| a as int) =~= seq![sp as int - 4096]);
        assert(probe_loop(sp as int, request as int) =~= seq![sp as int - 4096] + probe_rest(
            addr as int,
            rem as int,
        ));
        assert(probe_loop(sp as int, request as int) =~= touched@.map_values(|a: u64| a as int)
            + probe_rest(addr as int, rem as int));
    }
    while rem > 4096
        invariant
            request <= sp,
            4096 <= request,
            rem <= request,
            addr as int == sp - request + rem,
            probe_loop(sp as int, request as int) == touched@.map_values(|a: u64| a as int)
                + probe_rest(addr as int, rem as int),
        decreases rem,
    {
        let ghost prev = touched@.map_values(|a: u64| a as int);
        addr = addr - 4096;
        rem = rem - 4096;
        touched.push(addr);
        proof {
            assert(touched@.map_values(|a: u64| a as int) =~= prev.push(addr as int));
            assert(probe_rest(addr as int + 4096, rem as int + 4096) =~= seq![addr as int]
                + probe_rest(addr as int, rem as int));
            assert(probe_loop(sp as int, request as int) =~= touched@.map_values(
                |a: u64| a as int,
            ) + probe_rest(addr as int, rem as int));
        }
    }
    let ghost prev = touched@.map_values(|a: u64| a as int);
    let last = addr - rem;
    touched.push(last);
    proof {
        assert(touched@.map_values(|a: u64| a as int) =~= prev.push(last as int));
        assert(probe_rest(addr as int, rem as int) == seq![addr as int - rem as int]);
        assert(touched@.map_values(|a: u64| a as int) =~= probe_loop(sp as int, request as int));
    }
    touched
}

} // verus!
