//! Giving up early.

use std::sync::atomic::{AtomicBool, Ordering};
use vstd::prelude::*;

verus! {

/// Where long work looks to see whether it should give up.
pub enum Cancel<'a> {
    /// It never should.
    Never,
    /// A flag that another thread may raise at any time.
    Flag(&'a AtomicBool),
    /// What each look will see, in order; nothing from then on.
    Seen(&'a Vec<bool>),
}

impl<'a> Cancel<'a> {
    /// Whether the looks up to `n` can all have seen nothing.
    pub open spec fn clear_until(&self, n: int) -> bool {
        match self {
            Cancel::Seen(v) => forall|i: int| 0 <= i < n && i < v@.len() ==> !#[trigger] v@[i],
            _ => true,
        }
    }

    /// Whether one of the looks up to `n` can have seen a reason to give up.
    pub open spec fn may_stop(&self, n: int) -> bool {
        match self {
            Cancel::Never => false,
            Cancel::Flag(_) => true,
            Cancel::Seen(v) => exists|i: int| 0 <= i < n && i < v@.len() && #[trigger] v@[i],
        }
    }

    /// The `i`-th look.
    pub fn raised(&self, i: usize) -> (r: bool)
        ensures
            r ==> self.may_stop(i + 1),
            !r && self.clear_until(i as int) ==> self.clear_until(i + 1),
    {
        match self {
            Cancel::Never => false,
            Cancel::Flag(flag) => is_up(flag),
            Cancel::Seen(v) => i < v.len() && v[i],
        }
    }
}

/// Whether the flag is up at the moment.
fn is_up(flag: &AtomicBool) -> bool {
    flag.load(Ordering::Relaxed)
}

} // verus!
