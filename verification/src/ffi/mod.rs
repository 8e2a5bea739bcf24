//! Bringing up librime once per process, and reading the outcome of its user
//! data sync.

use vstd::prelude::*;

use crate::error::CiError;

verus! {

/// What the caller has done or seen since librime's initialization was asked for.
#[derive(Debug, Clone, Copy, PartialEq, Eq, Structural)]
pub enum InitEvent {
    /// Initialization is asked for.
    Requested,
    /// librime's API table could not be reached.
    ApiUnavailable,
    /// A session was probed: `existing` tells whether one could be created,
    /// which means another process (such as the input method) set librime up.
    SessionProbed { existing: bool },
    /// librime was set up and initialized with this tool's traits.
    SetUpDone,
}

/// What the caller does next.
#[derive(Debug, Clone, Copy, PartialEq, Eq, Structural)]
pub enum InitAction {
    /// librime is initialized already: nothing to do.
    AlreadyInitialized,
    /// Reach librime's API table and probe for a session.
    ProbeSession,
    /// Set librime up with this tool's traits and initialize it.
    SetUp,
    /// librime is initialized now.
    Initialized,
    /// Initialization failed: librime is not loaded.
    Failed,
}

/// The flag and the action after `event`, where `initialized` tells whether
/// librime has been initialized in this process.
pub open spec fn init_step(initialized: bool, event: InitEvent) -> (bool, InitAction) {
    match event {
        InitEvent::Requested => if initialized {
            (true, InitAction::AlreadyInitialized)
        } else {
            (false, InitAction::ProbeSession)
        },
        InitEvent::ApiUnavailable => if initialized {
            (true, InitAction::AlreadyInitialized)
        } else {
            (false, InitAction::Failed)
        },
        InitEvent::SessionProbed { existing } => if initialized {
            (true, InitAction::AlreadyInitialized)
        } else if existing {
            (true, InitAction::Initialized)
        } else {
            (false, InitAction::SetUp)
        },
        InitEvent::SetUpDone => (true, InitAction::Initialized),
    }
}

/// Makes sure librime is initialized, once per process: where it already is,
/// nothing is done; otherwise a session is probed, and librime is set up only
/// where no other process has done so. The flag is set once initialization
/// has succeeded, and never cleared.
pub fn ensure_initialized(initialized: &mut bool, event: InitEvent) -> (action: InitAction)
    ensures
        (*final(initialized), action) == init_step(*old(initialized), event),
{
    match event {
        InitEvent::Requested => {
            if *initialized {
                InitAction::AlreadyInitialized
            } else {
                InitAction::ProbeSession
            }
        },
        InitEvent::ApiUnavailable => {
            if *initialized {
                InitAction::AlreadyInitialized
            } else {
                InitAction::Failed
            }
        },
        InitEvent::SessionProbed { existing } => {
            if *initialized {
                InitAction::AlreadyInitialized
            } else if existing {
                *initialized = true;
                InitAction::Initialized
            } else {
                InitAction::SetUp
            }
        },
        InitEvent::SetUpDone => {
            *initialized = true;
            InitAction::Initialized
        },
    }
}

/// Once librime is initialized nothing more is done: every request, probe or
/// failure is answered that it already is, and the flag, once set, stays set.
pub proof fn law_initialized_stays(event: InitEvent)
    ensures
        event !is SetUpDone ==> init_step(true, event) == (true, InitAction::AlreadyInitialized),
        init_step(true, event).0,
{
}

/// The outcome of librime's `sync_user_data`: unsupported where the loaded
/// librime lacks the function, failed where it returned false (zero), and
/// successful otherwise.
pub fn sync_user_data(function_available: bool, returned: i32) -> (r: Result<(), CiError>)
    ensures
        !function_available ==> r matches Err(CiError::SyncUnsupported),
        function_available && returned == 0 ==> r matches Err(CiError::SyncFailed),
        function_available && returned != 0 ==> r is Ok,
{
    if !function_available {
        Err(CiError::SyncUnsupported)
    } else if returned == 0 {
        Err(CiError::SyncFailed)
    } else {
        Ok(())
    }
}

} // verus!
