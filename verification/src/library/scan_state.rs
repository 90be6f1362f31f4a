//! Where the metadata scan stands, as the renderer is told it, and how each
//! scan event moves it on.

use vstd::prelude::*;

use super::scanner::ScanOutcome;

verus! {

/// What a finished scan reports.
#[derive(Clone, Copy, Debug, PartialEq, Eq, Structural)]
pub struct ScanResult {
    pub total: usize,
    pub added: usize,
    /// Files matched back to the track they were before moving.
    pub reattached: usize,
    /// Tracks whose file this scan no longer found.
    pub missing: usize,
}

/// Where the scan stands.
#[derive(Clone, Debug, PartialEq)]
pub enum ScanStatus {
    Idle { last_result: Option<ScanResult> },
    Running { processed: usize, total: usize },
    Canceled { processed: usize, total: usize, added: usize },
    Error { message: String },
}

/// The answer to a request to scan.
#[derive(Clone, Copy, Debug, PartialEq, Eq, Structural)]
pub struct StartResult {
    pub already_running: bool,
}

/// The scan's status, moved on by each scan event.
#[derive(Debug)]
pub struct ScanState {
    status: ScanStatus,
}

impl Default for ScanState {
    fn default() -> (s: ScanState)
        ensures
            s.spec_status() == (ScanStatus::Idle { last_result: None }),
    {
        ScanState { status: ScanStatus::Idle { last_result: None } }
    }
}

impl ScanState {
    pub closed spec fn spec_status(&self) -> ScanStatus {
        self.status
    }

    pub fn status(&self) -> (s: ScanStatus)
        ensures
            s == self.spec_status(),
    {
        match &self.status {
            ScanStatus::Idle { last_result } => ScanStatus::Idle { last_result: *last_result },
            ScanStatus::Running { processed, total } => ScanStatus::Running {
                processed: *processed,
                total: *total,
            },
            ScanStatus::Canceled { processed, total, added } => ScanStatus::Canceled {
                processed: *processed,
                total: *total,
                added: *added,
            },
            ScanStatus::Error { message } => ScanStatus::Error { message: message.clone() },
        }
    }

    pub fn is_running(&self) -> (r: bool)
        ensures
            r == (self.spec_status() is Running),
    {
        match self.status {
            ScanStatus::Running { .. } => true,
            _ => false,
        }
    }

    /// A request to scan: refused while one runs, otherwise the scan is
    /// running with nothing processed yet.
    pub fn start(&mut self) -> (r: StartResult)
        ensures
            r.already_running == (old(self).spec_status() is Running),
            r.already_running ==> final(self).spec_status() == old(self).spec_status(),
            !r.already_running ==> final(self).spec_status() == (ScanStatus::Running {
                processed: 0,
                total: 0,
            }),
    {
        if self.is_running() {
            return StartResult { already_running: true };
        }
        self.status = ScanStatus::Running { processed: 0, total: 0 };
        StartResult { already_running: false }
    }

    /// Progress from the running scan.
    pub fn progress(&mut self, processed: usize, total: usize)
        ensures
            final(self).spec_status() == (ScanStatus::Running { processed, total }),
    {
        self.status = ScanStatus::Running { processed, total };
    }

    /// The scan ended: canceled with what it had processed, done with its
    /// result, or failed with its error.
    pub fn finish(&mut self, outcome: Result<ScanOutcome, String>)
        ensures
            match outcome {
                Ok(o) => if o.canceled {
                    final(self).spec_status() == (ScanStatus::Canceled {
                        processed: o.total,
                        total: o.total,
                        added: o.added,
                    })
                } else {
                    final(self).spec_status() == (ScanStatus::Idle {
                        last_result: Some(
                            ScanResult {
                                total: o.total,
                                added: o.added,
                                reattached: o.reattached,
                                missing: o.missing,
                            },
                        ),
                    })
                },
                Err(message) => final(self).spec_status() == (ScanStatus::Error { message }),
            },
    {
        self.status = match outcome {
            Ok(o) => if o.canceled {
                ScanStatus::Canceled { processed: o.total, total: o.total, added: o.added }
            } else {
                ScanStatus::Idle {
                    last_result: Some(
                        ScanResult {
                            total: o.total,
                            added: o.added,
                            reattached: o.reattached,
                            missing: o.missing,
                        },
                    ),
                }
            },
            Err(message) => ScanStatus::Error { message },
        };
    }
}

} // verus!
