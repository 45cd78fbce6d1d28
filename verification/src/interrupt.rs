//! Whether the user has asked to stop (with Ctrl-C) while license files are collected.
use std::sync::atomic::AtomicBool;
use std::sync::atomic::Ordering;
use std::sync::Arc;
use vstd::prelude::*;

verus! {

/// A flag that the interrupt handler raises; the work goes on while it is down.
pub struct Interrupt(Arc<AtomicBool>);

impl Interrupt {
    /// The flag watched.
    pub closed spec fn flag(&self) -> Arc<AtomicBool> {
        self.0
    }

    /// Watches the flag that an interrupt handler raises.
    pub fn watching(flag: Arc<AtomicBool>) -> (res: Interrupt)
        ensures
            res.flag() == flag,
    {
        Interrupt(flag)
    }

    /// Whether no interrupt has arrived yet. The flag is raised by another thread at any
    /// time, so nothing is stated of the answer.
    pub fn should_continue(&self) -> bool {
        !self.0.load(Ordering::SeqCst)
    }
}

} // verus!
