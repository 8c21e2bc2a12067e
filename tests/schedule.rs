use gpu_fluid::dispatch::{dispatch_groups, tick_schedule, workgroups_for, Pass};
use gpu_fluid::readback::{MapStatus, PollStep, ReadbackAction, ReadbackMonitor, ReadbackOutcome, ReadbackPhase, WARMUP_FRAMES};

#[test]
fn workgroups_round_up() {
    assert_eq!(workgroups_for(0), 0);
    assert_eq!(workgroups_for(1), 1);
    assert_eq!(workgroups_for(256), 1);
    assert_eq!(workgroups_for(257), 2);
    assert_eq!(workgroups_for(5041), 20);
    assert_eq!(workgroups_for(u32::MAX), 16_777_216);
}

#[test]
fn dispatch_sizes_per_pass() {
    assert_eq!(dispatch_groups(Pass::Density, 5041, 3000), Some(20));
    assert_eq!(dispatch_groups(Pass::Integrate, 0, 0), Some(1));
    assert_eq!(dispatch_groups(Pass::Histogram, 5041, 3000), Some(20));
    assert_eq!(dispatch_groups(Pass::ClearCounts, 5041, 3000), Some(12));
    assert_eq!(dispatch_groups(Pass::BlockScan, 10, 1), Some(1));
    assert_eq!(dispatch_groups(Pass::BlockSumsScan, 5041, 3000), Some(1));
    assert_eq!(dispatch_groups(Pass::BlockSumsScan, 1, 70_000), Some(2));
    assert_eq!(dispatch_groups(Pass::WriteSentinel, 1, 1), Some(1));
    assert_eq!(dispatch_groups(Pass::AddBack, 5041, 0), None);
    assert_eq!(dispatch_groups(Pass::Scatter, 5041, 0), None);
}

#[test]
fn schedule_order() {
    let s = tick_schedule();
    assert_eq!(s.len(), 12);
    assert_eq!(s[0], Pass::ClearCounts);
    assert_eq!(s[4], Pass::AddBack);
    assert_eq!(s[5], Pass::WriteSentinel);
    assert_eq!(s[7], Pass::Scatter);
    assert_eq!(s[8], Pass::Density);
    assert_eq!(s[11], Pass::Integrate);
}

fn warmed_up() -> ReadbackMonitor {
    let mut m = ReadbackMonitor::new();
    for _ in 1..WARMUP_FRAMES {
        assert_eq!(m.on_frame(), ReadbackAction::Wait);
    }
    assert_eq!(m.on_frame(), ReadbackAction::PauseCopy);
    assert_eq!(m.on_frame(), ReadbackAction::MapAndCompare);
    m
}

#[test]
fn readback_passes_after_warmup() {
    let mut m = warmed_up();
    assert_eq!(m.frames_seen, WARMUP_FRAMES + 1);
    assert_eq!(m.on_map_status(MapStatus::Pending), PollStep::KeepPolling);
    assert_eq!(m.on_map_status(MapStatus::Ready), PollStep::Read);
    assert_eq!(m.finish(5041, 5041, true), ReadbackOutcome::Passed);
    assert_eq!(m.phase, ReadbackPhase::Done);
    assert_eq!(m.on_frame(), ReadbackAction::Idle);
    assert_eq!(m.frames_seen, WARMUP_FRAMES + 1);
}

#[test]
fn readback_failures() {
    let mut m = warmed_up();
    assert_eq!(m.on_map_status(MapStatus::Failed), PollStep::Abort);
    assert_eq!(m.outcome, Some(ReadbackOutcome::MapFailure));
    assert_eq!(m.on_frame(), ReadbackAction::Idle);

    let mut m = warmed_up();
    assert_eq!(m.finish(5041, 5040, true), ReadbackOutcome::BufferSizeMismatch);

    let mut m = warmed_up();
    assert_eq!(m.finish(5041, 5041, false), ReadbackOutcome::Failed);
    assert_eq!(m.outcome, Some(ReadbackOutcome::Failed));
}
