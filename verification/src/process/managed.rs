//! Options and output pieces of a managed child process.
use vstd::prelude::*;
use crate::duration::Duration;

verus! {

/// How long a managed process may run before it is terminated: 30 days, in seconds.
pub const DEFAULT_WAIT_TIMEOUT_SECS: u64 = 2_592_000;

/// How long a terminated process is given to exit gracefully, in milliseconds.
pub const DEFAULT_TERMINATION_GRACE_MILLIS: u64 = 25;

/// Most stderr bytes collected by default.
pub const DEFAULT_STDERR_LIMIT: usize = 32_768;

/// Limits of a managed process.
#[derive(Debug, Clone, Copy)]
pub struct ManagedProcessOptions {
    wait_timeout: Duration,
    termination_grace: Duration,
    stderr_limit: usize,
}

impl ManagedProcessOptions {
    /// The longest wait for the process to complete.
    pub closed spec fn spec_wait_timeout(self) -> Duration {
        self.wait_timeout
    }

    /// The time given to exit after a termination request.
    pub closed spec fn spec_termination_grace(self) -> Duration {
        self.termination_grace
    }

    /// Most stderr bytes collected.
    pub closed spec fn spec_stderr_limit(self) -> usize {
        self.stderr_limit
    }

    /// These options with `wait_timeout`.
    pub fn with_wait_timeout(self, wait_timeout: Duration) -> (r: Self)
        ensures
            r.spec_wait_timeout() == wait_timeout,
            r.spec_termination_grace() == self.spec_termination_grace(),
            r.spec_stderr_limit() == self.spec_stderr_limit(),
    {
        let mut s = self;
        s.wait_timeout = wait_timeout;
        s
    }

    /// These options with `stderr_limit`.
    pub fn with_stderr_limit(self, stderr_limit: usize) -> (r: Self)
        ensures
            r.spec_wait_timeout() == self.spec_wait_timeout(),
            r.spec_termination_grace() == self.spec_termination_grace(),
            r.spec_stderr_limit() == stderr_limit,
    {
        let mut s = self;
        s.stderr_limit = stderr_limit;
        s
    }

    /// The longest wait for the process to complete.
    pub fn wait_timeout(&self) -> (r: Duration)
        ensures
            r == self.spec_wait_timeout(),
    {
        self.wait_timeout
    }

    /// The time given to exit after a termination request.
    pub fn termination_grace(&self) -> (r: Duration)
        ensures
            r == self.spec_termination_grace(),
    {
        self.termination_grace
    }

    /// Most stderr bytes collected.
    pub fn stderr_limit(&self) -> (r: usize)
        ensures
            r == self.spec_stderr_limit(),
    {
        self.stderr_limit
    }
}

impl Default for ManagedProcessOptions {
    /// A 30 day wait, a 25 ms termination grace and 32 KiB of stderr.
    fn default() -> (r: Self)
        ensures
            r.spec_wait_timeout().wf(),
            r.spec_wait_timeout().total_nanos() == DEFAULT_WAIT_TIMEOUT_SECS * 1_000_000_000,
            r.spec_termination_grace().wf(),
            r.spec_termination_grace().total_nanos() == DEFAULT_TERMINATION_GRACE_MILLIS
                * 1_000_000,
            r.spec_stderr_limit() == DEFAULT_STDERR_LIMIT,
    {
        ManagedProcessOptions {
            wait_timeout: Duration::from_secs(DEFAULT_WAIT_TIMEOUT_SECS),
            termination_grace: Duration::from_millis(DEFAULT_TERMINATION_GRACE_MILLIS),
            stderr_limit: DEFAULT_STDERR_LIMIT,
        }
    }
}

/// Whether collected output is all there is, or its oldest part was dropped.
#[derive(Debug, Clone, Copy, PartialEq, Eq, Structural)]
pub enum OutputTruncation {
    Complete,
    Truncated,
}

impl OutputTruncation {
    /// `Truncated` where data was dropped, otherwise `Complete`.
    pub fn from_truncated(truncated: bool) -> (r: Self)
        ensures
            r == (if truncated {
                OutputTruncation::Truncated
            } else {
                OutputTruncation::Complete
            }),
    {
        if truncated {
            OutputTruncation::Truncated
        } else {
            OutputTruncation::Complete
        }
    }

    /// Whether data was dropped.
    pub fn is_truncated(self) -> (r: bool)
        ensures
            r == (self == OutputTruncation::Truncated),
    {
        match self {
            OutputTruncation::Truncated => true,
            OutputTruncation::Complete => false,
        }
    }
}

/// Bytes a process wrote in one read.
#[derive(Debug, Clone, PartialEq, Eq)]
pub struct RawOutputChunk(Vec<u8>);

impl RawOutputChunk {
    /// The bytes.
    pub closed spec fn view(&self) -> Seq<u8> {
        self.0@
    }

    /// A chunk of `bytes`.
    pub fn new(bytes: Vec<u8>) -> (r: Self)
        ensures
            r.view() == bytes@,
    {
        RawOutputChunk(bytes)
    }

    /// The bytes, borrowed.
    pub fn as_bytes(&self) -> (r: &[u8])
        ensures
            r@ == self.view(),
    {
        self.0.as_slice()
    }

    /// The bytes.
    pub fn into_bytes(self) -> (r: Vec<u8>)
        ensures
            r@ == self.view(),
    {
        self.0
    }
}

/// Output was dropped between two chunks because it was not read in time.
#[derive(Debug, Clone, Copy, PartialEq, Eq, Structural)]
pub struct OutputReplayGap;

} // verus!
