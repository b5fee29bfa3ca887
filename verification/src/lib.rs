//! A verified model of a freestanding process bootstrap.
//!
//! A position-independent executable image that runs without an operating
//! system's C runtime must bring its own startup sequence: an entry
//! trampoline that establishes ABI invariants, a self-relocation engine that
//! rewrites position-dependent addresses for the actual load base, a stack
//! probe for lazily committed stacks, a page-backed allocator backend, a
//! runtime-initialisation path that runs the user program and exits through
//! the loader's service table, and fatal stubs in place of unwinding.
//!
//! This crate models each of those components over plain values (byte
//! sequences for the mapped image, integers for addresses) and proves the
//! contracts the components must satisfy: relocation rewrites exactly the
//! listed locations and nothing else, the stack probe skips no page, the
//! allocator backend never returns a partially valid grant, and the runtime
//! invokes the exit service exactly once.

pub mod amd64_elf;
pub mod amd64_pe;
pub mod chkstk;
pub mod fatal;
pub mod i686_elf;
pub mod image;
pub mod malloc;
pub mod runtime;
pub mod start;
pub mod traits;
