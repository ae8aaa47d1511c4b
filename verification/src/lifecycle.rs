//! Whether the engine runs: it starts once, refuses prompts until it has
//! started, and shuts down at most once per start.
//!
//! Registering tools and tearing down connections is the application's
//! work; this module holds the flag and the decisions on it.

use vstd::prelude::*;
use crate::text::owned;

verus! {

/// Why a lifecycle request was refused.
#[derive(Debug, PartialEq, Eq, Structural)]
pub enum LifecycleError {
    /// `start` on an engine that already runs.
    AlreadyRunning,
    /// A prompt on an engine that has not started, or has shut down.
    NotRunning,
}

impl LifecycleError {
    /// The message the engine reports.
    pub fn message(&self) -> (r: String)
        ensures
            r@ == match *self {
                LifecycleError::AlreadyRunning => "Engine already running"@,
                LifecycleError::NotRunning => "Engine not running"@,
            },
    {
        match self {
            LifecycleError::AlreadyRunning => owned("Engine already running"),
            LifecycleError::NotRunning => owned("Engine not running"),
        }
    }
}

/// The engine's running flag.
pub struct Lifecycle {
    running: bool,
}

impl Lifecycle {
    /// Whether the engine runs.
    pub closed spec fn runs(&self) -> bool {
        self.running
    }

    /// An engine that has not started.
    pub fn new() -> (l: Lifecycle)
        ensures
            !l.runs(),
    {
        Lifecycle { running: false }
    }

    /// Start the engine: refused when it already runs. On success the
    /// caller registers the tools, which happens once per start.
    pub fn start(&mut self) -> (r: Result<(), LifecycleError>)
        ensures
            r is Err <==> old(self).runs(),
            r is Err ==> r == Err::<(), LifecycleError>(LifecycleError::AlreadyRunning),
            final(self).runs(),
    {
        if self.running {
            return Err(LifecycleError::AlreadyRunning);
        }
        self.running = true;
        Ok(())
    }

    /// Whether a prompt may be processed: only on a running engine.
    pub fn require_running(&self) -> (r: Result<(), LifecycleError>)
        ensures
            r is Ok <==> self.runs(),
            r is Err ==> r == Err::<(), LifecycleError>(LifecycleError::NotRunning),
    {
        if self.running {
            Ok(())
        } else {
            Err(LifecycleError::NotRunning)
        }
    }

    /// Shut the engine down; whether there is anything to tear down
    /// (it was running). A second shutdown, or one before any start, does
    /// nothing.
    pub fn shutdown(&mut self) -> (teardown: bool)
        ensures
            teardown == old(self).runs(),
            !final(self).runs(),
    {
        let was = self.running;
        self.running = false;
        was
    }

    /// Whether the engine runs.
    pub fn is_running(&self) -> (r: bool)
        ensures
            r == self.runs(),
    {
        self.running
    }
}

} // verus!
