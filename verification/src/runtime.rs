//! Runtime initialisation and service dispatch.
//!
//! After relocation the trampoline hands the loader-supplied service table
//! to the runtime-initialisation path, which installs the process-wide
//! allocator, runs the user program exactly once and exits through the
//! table's exit slot with status 0. That path never returns to the
//! trampoline; its only other outcomes are the fatal stubs.
//!
//! The user program is modelled as a sequence of actions against the
//! installed allocator and its memory — obtain a buffer, store a byte into
//! a buffer — and the run is specified by a small-step interpreter over a
//! ghost mirror of the heap state. An allocation the backend cannot grant
//! halts the run through the allocation-failure stub; an out-of-bounds
//! store halts it through the logic-fault stub; otherwise the run ends in
//! exactly one exit call, with status 0.

use vstd::prelude::*;
use vstd::arithmetic::div_mod::lemma_fundamental_div_mod;
use vstd::pervasive::VecAdditionalExecFns;
use crate::fatal::FatalReason;
use crate::fatal::alloc_fail;
use crate::fatal::logic_fault;
use crate::malloc::PageProvider;
use crate::malloc::System;
use crate::malloc::round_up_to_page;

verus! {

/// One step of the modelled user program.
#[derive(PartialEq, Eq, Structural, Clone, Copy, Debug)]
pub enum Action {
    /// Obtain a buffer of `size` bytes from the installed allocator.
    Allocate { size: usize },
    /// Store `value` at byte `offset` of the `region`-th obtained buffer.
    Write { region: usize, offset: usize, value: u8 },
}

/// How a run ended: the one exit call, or a fatal stub.
#[derive(PartialEq, Eq, Structural, Clone, Copy, Debug)]
pub enum RunResult {
    /// The program ran to completion and the exit service was invoked,
    /// exactly once, with this status.
    Exited { status: u32 },
    /// A fatal stub halted the process; the exit service was never invoked.
    Fatal { reason: FatalReason },
}

/// The live heap the runtime installs: the page provider, the bytes of its
/// arena, and the buffers the program has obtained as (base, size) pairs.
pub struct Runtime {
    pub provider: PageProvider,
    pub arena: Vec<u8>,
    pub regions: Vec<(usize, usize)>,
}

impl Runtime {
    pub open spec fn wf(self) -> bool {
        &&& self.provider.wf()
        &&& self.arena@.len() == self.provider.limit
        &&& forall|i: int|
            0 <= i < self.regions@.len() ==> (#[trigger] self.regions@[i]).0
                + self.regions@[i].1 <= self.provider.next
    }
}

/// The ghost mirror of the heap a run is specified over.
#[verifier::ext_equal]
pub struct SimState {
    pub mem: Seq<u8>,
    pub regions: Seq<(usize, usize)>,
    pub next: int,
    pub limit: int,
}

/// The mirror of a live heap.
pub open spec fn sim_of(rt: Runtime) -> SimState {
    SimState {
        mem: rt.arena@,
        regions: rt.regions@,
        next: rt.provider.next as int,
        limit: rt.provider.limit as int,
    }
}

/// The mirror of a freshly installed heap over `heap_pages` pages: a
/// zero-filled arena, no buffers, nothing granted yet.
pub open spec fn initial_sim(heap_pages: usize) -> SimState {
    SimState {
        mem: Seq::new((4096 + heap_pages * 4096) as nat, |i: int| 0u8),
        regions: Seq::<(usize, usize)>::empty(),
        next: 4096,
        limit: 4096 + heap_pages * 4096,
    }
}

/// Whether one action goes through on the mirrored heap.
pub open spec fn action_admitted(s: SimState, a: Action) -> bool {
    match a {
        Action::Allocate { size } => size > 0 && round_up_to_page(size as int) <= s.limit
            - s.next,
        Action::Write { region, offset, value } => region < s.regions.len() && offset
            < s.regions[region as int].1,
    }
}

/// The mirrored heap after one admitted action.
pub open spec fn step(s: SimState, a: Action) -> SimState
    recommends
        action_admitted(s, a),
{
    match a {
        Action::Allocate { size } => SimState {
            regions: s.regions.push(((s.next as usize, size))),
            next: s.next + round_up_to_page(size as int),
            ..s
        },
        Action::Write { region, offset, value } => SimState {
            mem: s.mem.update(s.regions[region as int].0 + offset, value),
            ..s
        },
    }
}

/// The fatal stub a refused action reaches.
pub open spec fn refusal(a: Action) -> FatalReason {
    match a {
        Action::Allocate { .. } => FatalReason::AllocationFailure,
        Action::Write { .. } => FatalReason::LogicFault,
    }
}

/// The small-step interpreter: run the remaining actions on the mirrored
/// heap, ending in one exit with status 0, or halting at the first refused
/// action with that action's fatal stub.
pub open spec fn run_spec(s: SimState, actions: Seq<Action>) -> (SimState, RunResult)
    decreases actions.len(),
{
    if actions.len() == 0 {
        (s, RunResult::Exited { status: 0 })
    } else if action_admitted(s, actions[0]) {
        run_spec(step(s, actions[0]), actions.subrange(1, actions.len() as int))
    } else {
        (s, RunResult::Fatal { reason: refusal(actions[0]) })
    }
}

/// Every action of the program is admitted when its turn comes.
pub open spec fn program_admitted(s: SimState, actions: Seq<Action>) -> bool
    decreases actions.len(),
{
    actions.len() == 0 || (action_admitted(s, actions[0]) && program_admitted(
        step(s, actions[0]),
        actions.subrange(1, actions.len() as int),
    ))
}

/// The run exits exactly when every action is admitted, and an exit always
/// carries status 0: the exit service is never invoked with any other
/// status, and a halted run never invokes it at all.
pub proof fn lemma_run_exit(s: SimState, actions: Seq<Action>)
    ensures
        (run_spec(s, actions).1 is Exited) <==> program_admitted(s, actions),
        run_spec(s, actions).1 is Exited ==> run_spec(s, actions).1 == (RunResult::Exited {
            status: 0,
        }),
    decreases actions.len(),
{
    if actions.len() > 0 && action_admitted(s, actions[0]) {
        lemma_run_exit(step(s, actions[0]), actions.subrange(1, actions.len() as int));
    }
}

/// Install a fresh heap over `heap_pages` pages and run the user program
/// on it, as the runtime-initialisation path does after relocation. The
/// returned heap and result are exactly what the interpreter specifies.
pub fn start_rust(program: &Vec<Action>, heap_pages: usize) -> (out: (Runtime, RunResult))
    requires
        heap_pages <= usize::MAX / 4096 - 1,
    ensures
        out.0.wf(),
        sim_of(out.0) == run_spec(initial_sim(heap_pages), program@).0,
        out.1 == run_spec(initial_sim(heap_pages), program@).1,
{
    let system = System::new();
    let mut provider = PageProvider::new(heap_pages);
    let limit = provider.limit;
    let mut arena: Vec<u8> = Vec::new();
    while arena.len() < limit
        invariant
            arena@.len() <= limit,
            forall|i: int| 0 <= i < arena@.len() ==> arena@[i] == 0u8,
        decreases limit - arena@.len(),
    {
        arena.push(0);
    }
    let mut rt = Runtime { provider, arena, regions: Vec::new() };
    let ghost init = initial_sim(heap_pages);
    proof {
        assert(sim_of(rt).mem =~= init.mem);
        assert(sim_of(rt).regions =~= init.regions);
        assert(sim_of(rt) =~= init);
        assert(program@.subrange(0, program@.len() as int) =~= program@);
    }
    let mut k: usize = 0;
    while k < program.len()
        invariant
            init == initial_sim(heap_pages),
            k <= program@.len(),
            rt.wf(),
            run_spec(init, program@) == run_spec(
                sim_of(rt),
                program@.subrange(k as int, program@.len() as int),
            ),
        decreases program@.len() - k,
    {
        let ghost rest = program@.subrange(k as int, program@.len() as int);
        let ghost rest1 = program@.subrange(k as int + 1, program@.len() as int);
        let ghost sim_pre = sim_of(rt);
        let action = program[k];
        proof {
            assert(rest[0] == program@[k as int]);
            assert(rest.subrange(1, rest.len() as int) =~= rest1);
        }
        match action {
            Action::Allocate { size } => {
                let grant = system.allocate(&mut rt.provider, size);
                if grant.0 == 0 {
                    proof {
                        assert(sim_of(rt) == sim_pre);
                        assert(!action_admitted(sim_pre, action));
                        assert(run_spec(sim_pre, rest) == (
                            sim_pre,
                            RunResult::Fatal { reason: FatalReason::AllocationFailure },
                        ));
                    }
                    return (rt, RunResult::Fatal { reason: alloc_fail() });
                }
                rt.regions.push((grant.0, grant.1));
                proof {
                    assert(action_admitted(sim_pre, action));
                    lemma_fundamental_div_mod(size as int + 4095, 4096);
                    assert(size <= round_up_to_page(size as int));
                    assert(step(sim_pre, action).regions =~= sim_of(rt).regions);
                    assert(step(sim_pre, action) =~= sim_of(rt));
                    assert(run_spec(sim_pre, rest) == run_spec(sim_of(rt), rest1));
                    assert forall|i: int| 0 <= i < rt.regions@.len() implies (
                    #[trigger] rt.regions@[i]).0 + rt.regions@[i].1 <= rt.provider.next by {
                        if i < rt.regions@.len() - 1 {
                            assert(rt.regions@[i] == sim_pre.regions[i]);
                        } else {
                            assert(rt.regions@[i] == (grant.0, grant.1));
                        }
                    }
                }
            },
            Action::Write { region, offset, value } => {
                if region >= rt.regions.len() || offset >= rt.regions[region].1 {
                    proof {
                        assert(!action_admitted(sim_pre, action));
                        assert(run_spec(sim_pre, rest) == (
                            sim_pre,
                            RunResult::Fatal { reason: FatalReason::LogicFault },
                        ));
                    }
                    return (rt, RunResult::Fatal { reason: logic_fault() });
                }
                let base = rt.regions[region].0;
                rt.arena.set(base + offset, value);
                proof {
                    assert(action_admitted(sim_pre, action));
                    assert(step(sim_pre, action).mem =~= sim_of(rt).mem);
                    assert(step(sim_pre, action) =~= sim_of(rt));
                    assert(run_spec(sim_pre, rest) == run_spec(sim_of(rt), rest1));
                }
            },
        }
        k = k + 1;
    }
    proof {
        assert(program@.subrange(k as int, program@.len() as int) =~= Seq::<Action>::empty());
    }
    (rt, RunResult::Exited { status: 0 })
}

} // verus!
