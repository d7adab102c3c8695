//! The error taxonomy.
//!
//! Construction failures are fatal to the attempt that raised them; control
//! failures report a call that does not fit the watcher's current state and
//! leave the watcher unchanged.

use vstd::prelude::*;

verus! {

/// Why a watch target could not be constructed.
#[derive(Clone, Copy, Debug, PartialEq, Eq, Structural)]
pub enum InitTargetError {
    /// The root was not given as an absolute path.
    NonAbsPath,
    /// No entry of the root's name exists.
    NonExistent,
    /// The root names an entry that is not a directory.
    NotADirectory,
}

/// Why a control call on the polling loop was rejected.
#[derive(Clone, Copy, Debug, PartialEq, Eq, Structural)]
pub enum WatchingError {
    /// `pause`, `resume` or `end_watching` was called while no loop exists.
    NoRunningLoop,
    /// `watch_on_idle` was called while a loop already exists.
    DuplicateLoop,
}

impl InitTargetError {
    /// A fixed description of the failure.
    pub fn message(&self) -> (r: &'static str)
        ensures
            *self is NonAbsPath ==> r@ == "Watcher must be initialized with an absolute path!"@,
            *self is NonExistent ==> r@ == "Watcher must be initialized with an existed path!"@,
            *self is NotADirectory ==> r@ == "Watcher must be initialized with a directory!"@,
    {
        match self {
            InitTargetError::NonAbsPath => "Watcher must be initialized with an absolute path!",
            InitTargetError::NonExistent => "Watcher must be initialized with an existed path!",
            InitTargetError::NotADirectory => "Watcher must be initialized with a directory!",
        }
    }
}

impl WatchingError {
    /// A fixed description of the failure.
    pub fn message(&self) -> (r: &'static str)
        ensures
            *self is NoRunningLoop ==> r@ == "No running loop in the watcher"@,
            *self is DuplicateLoop ==> r@ == "Making duplicate loops in a single watcher!"@,
    {
        match self {
            WatchingError::NoRunningLoop => "No running loop in the watcher",
            WatchingError::DuplicateLoop => "Making duplicate loops in a single watcher!",
        }
    }
}

} // verus!
