//! An in-memory model of a same-host publish/subscribe bus.
//!
//! Producers attach to a named domain (an arena of named slots), write opaque
//! byte payloads into slots, and consumers read the latest payload of a slot
//! through a locked view. A waiter subscribes to one or more slots and is
//! woken when a subscribed slot receives a new write, then enumerates exactly
//! which slots changed since its last drain.
//!
//! In the cross-process engine every operation runs under the arena's
//! reader/writer locks, which linearize all accesses to a slot. This library
//! carries that linearized state in a single [`bus::Bus`] value: each
//! operation is one atomic step on it, and the contracts state exactly what
//! each step observes and changes.
//!
//! Two kinds of failure of the engine have no counterpart here. Backing
//! storage for this arena cannot fail to be created or mapped, so the
//! recoverable resource errors of the operating-system boundary never
//! arise; and handle misuse (a stale id, a double close, waiting on a
//! freed waiter) is a caller bug excluded by preconditions and by handles
//! that are consumed on close and free, not a condition checked at run
//! time.

use vstd::prelude::*;
use vstd::string::StringExecFns;

pub mod bus;
pub mod laws;
pub mod model;

pub use bus::Bus;
pub use bus::C_LockedView;
pub use bus::ClientDomain;
pub use bus::ClientSlot;
pub use bus::SubEntry;
pub use bus::SubMode;
pub use bus::Waiter;

verus! {

/// Marshals a Rust string for a boundary that expects NUL termination:
/// returns the string with one `'\0'` appended.
pub fn rust_str_to_cstr(s: &str) -> (out: String)
    ensures
        out@ == s@.push('\0'),
{
    let mut out = s.to_owned();
    out.append("\0");
    proof {
        reveal_strlit("\0");
        assert(out@ =~= s@.push('\0'));
    }
    out
}

} // verus!
