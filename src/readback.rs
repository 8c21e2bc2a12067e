use vstd::prelude::*;

verus! {

/// Frames to let the simulation run before the results are read back and compared.
pub const WARMUP_FRAMES: u32 = 60;

/// Where the readback of the parallel engine's particles stands.
#[derive(Clone, Copy, Debug, PartialEq, Eq, Structural)]
pub enum ReadbackPhase {
    /// Waiting for the warm-up to end.
    Armed,
    /// Copies into the readback buffer are paused; the next frame maps and compares.
    CopyPaused,
    /// The one comparison of this run is over.
    Done,
}

/// How the readback ended.
#[derive(Clone, Copy, Debug, PartialEq, Eq, Structural)]
pub enum ReadbackOutcome {
    /// All compared fields are within their thresholds.
    Passed,
    /// Some field exceeds its threshold.
    Failed,
    /// Mapping the readback buffer failed.
    MapFailure,
    /// The two engines hold different numbers of particles.
    BufferSizeMismatch,
}

/// What the host does on this frame.
#[derive(Clone, Copy, Debug, PartialEq, Eq, Structural)]
pub enum ReadbackAction {
    /// Nothing: the comparison is over.
    Idle,
    /// Keep simulating; the warm-up is not over.
    Wait,
    /// Stop copying particles into the readback buffer.
    PauseCopy,
    /// Map the readback buffer and compare it with the sequential engine.
    MapAndCompare,
}

/// State of an asynchronous mapping of the readback buffer, as polled.
#[derive(Clone, Copy, Debug, PartialEq, Eq, Structural)]
pub enum MapStatus {
    Pending,
    Ready,
    Failed,
}

/// What to do after one poll of the mapping.
#[derive(Clone, Copy, Debug, PartialEq, Eq, Structural)]
pub enum PollStep {
    /// Not ready yet: yield and poll again.
    KeepPolling,
    /// The data may be read.
    Read,
    /// The mapping failed; this read attempt is over.
    Abort,
}

/// Decides, frame by frame, when the parallel engine's results are read back and
/// compared with the sequential engine's, and records how that ended.
#[derive(Clone, Copy, Debug, PartialEq, Eq, Structural)]
pub struct ReadbackMonitor {
    pub frames_seen: u32,
    pub phase: ReadbackPhase,
    pub outcome: Option<ReadbackOutcome>,
}

impl ReadbackMonitor {
    /// The monitor's state is consistent: an outcome is recorded exactly when it is done.
    pub open spec fn wf(&self) -> bool {
        self.outcome is Some <==> self.phase is Done
    }

    pub fn new() -> (r: ReadbackMonitor)
        ensures
            r.wf(),
            r.frames_seen == 0,
            r.phase is Armed,
            r.outcome is None,
    {
        ReadbackMonitor { frames_seen: 0, phase: ReadbackPhase::Armed, outcome: None }
    }

    /// Advances by one frame and says what the host does on it. Once done, nothing
    /// changes. Otherwise the frame is counted; during the first `WARMUP_FRAMES - 1`
    /// frames the host waits; then copies are paused for one frame, and from the next
    /// frame on the host maps and compares until it reports how that ended.
    pub fn on_frame(&mut self) -> (r: ReadbackAction)
        requires
            old(self).wf(),
        ensures
            final(self).wf(),
            old(self).phase is Done ==> r == ReadbackAction::Idle && *final(self) == *old(self),
            !(old(self).phase is Done) ==> {
                let seen = if old(self).frames_seen == u32::MAX {
                    u32::MAX as int
                } else {
                    old(self).frames_seen + 1
                };
                &&& final(self).frames_seen == seen
                &&& final(self).outcome is None
                &&& seen < WARMUP_FRAMES ==> r == ReadbackAction::Wait && final(self).phase
                    == old(self).phase
                &&& seen >= WARMUP_FRAMES && old(self).phase is Armed ==> r
                    == ReadbackAction::PauseCopy && final(self).phase is CopyPaused
                &&& seen >= WARMUP_FRAMES && old(self).phase is CopyPaused ==> r
                    == ReadbackAction::MapAndCompare && final(self).phase is CopyPaused
            },
    {
        if self.phase == ReadbackPhase::Done {
            return ReadbackAction::Idle;
        }
        if self.frames_seen < u32::MAX {
            self.frames_seen = self.frames_seen + 1;
        }
        if self.frames_seen < WARMUP_FRAMES {
            return ReadbackAction::Wait;
        }
        match self.phase {
            ReadbackPhase::Armed => {
                self.phase = ReadbackPhase::CopyPaused;
                ReadbackAction::PauseCopy
            },
            _ => ReadbackAction::MapAndCompare,
        }
    }

    /// Reads one poll of the mapping. A failed mapping ends the readback with
    /// `MapFailure`; there is no retry.
    pub fn on_map_status(&mut self, status: MapStatus) -> (r: PollStep)
        requires
            old(self).wf(),
            old(self).phase is CopyPaused,
        ensures
            final(self).wf(),
            final(self).frames_seen == old(self).frames_seen,
            status is Pending ==> r is KeepPolling && *final(self) == *old(self),
            status is Ready ==> r is Read && *final(self) == *old(self),
            status is Failed ==> r is Abort && final(self).phase is Done && final(self).outcome
                == Some(ReadbackOutcome::MapFailure),
    {
        match status {
            MapStatus::Pending => PollStep::KeepPolling,
            MapStatus::Ready => PollStep::Read,
            MapStatus::Failed => {
                self.phase = ReadbackPhase::Done;
                self.outcome = Some(ReadbackOutcome::MapFailure);
                PollStep::Abort
            },
        }
    }

    /// Ends the readback with the result of the comparison: a mismatch of the particle
    /// counts first, then whether every field is within its threshold.
    pub fn finish(&mut self, cpu_particles: usize, gpu_particles: usize, within_limits: bool) -> (r:
        ReadbackOutcome)
        requires
            old(self).wf(),
            old(self).phase is CopyPaused,
        ensures
            final(self).wf(),
            final(self).phase is Done,
            final(self).frames_seen == old(self).frames_seen,
            final(self).outcome == Some(r),
            r == if cpu_particles != gpu_particles {
                ReadbackOutcome::BufferSizeMismatch
            } else if within_limits {
                ReadbackOutcome::Passed
            } else {
                ReadbackOutcome::Failed
            },
    {
        let r = if cpu_particles != gpu_particles {
            ReadbackOutcome::BufferSizeMismatch
        } else if within_limits {
            ReadbackOutcome::Passed
        } else {
            ReadbackOutcome::Failed
        };
        self.phase = ReadbackPhase::Done;
        self.outcome = Some(r);
        r
    }
}

} // verus!
