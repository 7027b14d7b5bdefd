//! One running instance of the target executable.

use vstd::prelude::*;
use vstd::std_specs::cmp::{PartialEqSpecImpl, PartialOrdSpecImpl};
use core::cmp::Ordering;

verus! {

/// A candidate process: its identifier, and whether the unlock attempt has
/// been made for it.
///
/// Two values are the same child when their `pid`s are equal, whatever their
/// `is_processed` flags say: `==` and `<` look at `pid` alone.
#[derive(Debug, Clone, Copy)]
pub struct SCRStruct {
    pub pid: u32,
    pub is_processed: bool,
}

impl SCRStruct {
    /// A child that has just been seen and has not been inspected yet.
    pub fn new(pid: u32) -> (child: Self)
        ensures
            child.pid == pid,
            !child.is_processed,
    {
        Self { pid, is_processed: false }
    }
}

impl PartialEq for SCRStruct {
    fn eq(&self, other: &Self) -> (same: bool) {
        self.pid == other.pid
    }
}

impl PartialEqSpecImpl for SCRStruct {
    open spec fn obeys_eq_spec() -> bool {
        true
    }

    open spec fn eq_spec(&self, other: &Self) -> bool {
        self.pid == other.pid
    }
}

impl Eq for SCRStruct {

}

impl PartialOrd for SCRStruct {
    fn partial_cmp(&self, other: &Self) -> (order: Option<Ordering>) {
        if self.pid < other.pid {
            Some(Ordering::Less)
        } else if self.pid == other.pid {
            Some(Ordering::Equal)
        } else {
            Some(Ordering::Greater)
        }
    }
}

impl PartialOrdSpecImpl for SCRStruct {
    open spec fn obeys_partial_cmp_spec() -> bool {
        true
    }

    open spec fn partial_cmp_spec(&self, other: &Self) -> Option<Ordering> {
        if self.pid < other.pid {
            Some(Ordering::Less)
        } else if self.pid == other.pid {
            Some(Ordering::Equal)
        } else {
            Some(Ordering::Greater)
        }
    }
}

} // verus!
