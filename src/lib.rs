//! Marks every open file descriptor of a process, except a chosen set, as
//! close-on-exec, so that a child started with `fork` and `exec` inherits only
//! the descriptors it was meant to have.
//!
//! The library holds the decisions: which descriptors are kept, how an entry
//! of the descriptor directory is read as a number, and how a descriptor's
//! flag word changes. The system calls that list the directory and read and
//! write the flag words are made by the caller, between `fork` and `exec`.
use vstd::prelude::*;

pub mod fd_name;
pub mod flags;
pub mod keep_set;
pub mod pass;

verus! {

fn check_traits<T: Send + Sync + 'static>(_value: T) {
}

/// Holds only when the state that a marking pass needs can be built before
/// `fork` in one thread and moved to or shared with any other.
pub fn assert_traits() {
    check_traits(keep_set::KeepSet::new(Vec::new()));
    check_traits(pass::EntryAction::Skip);
}

} // verus!
