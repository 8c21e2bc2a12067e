use vstd::prelude::*;

verus! {

/// Work items handled by one work group of a parallel pass.
pub const WORKGROUP_SIZE: u32 = 256;

/// The passes of one tick of the data-parallel engine, in the order they run: the grid
/// build (histogram, the three scan passes, sentinel, scatter) and then the four SPH
/// stages. Each pass starts only once the previous pass's writes are visible.
#[derive(Clone, Copy, Debug, PartialEq, Eq, Structural)]
pub enum Pass {
    ClearCounts,
    Histogram,
    BlockScan,
    BlockSumsScan,
    AddBack,
    WriteSentinel,
    ClearCursor,
    Scatter,
    Density,
    Pressure,
    Forces,
    Integrate,
}

pub open spec fn schedule_spec() -> Seq<Pass> {
    seq![
        Pass::ClearCounts,
        Pass::Histogram,
        Pass::BlockScan,
        Pass::BlockSumsScan,
        Pass::AddBack,
        Pass::WriteSentinel,
        Pass::ClearCursor,
        Pass::Scatter,
        Pass::Density,
        Pass::Pressure,
        Pass::Forces,
        Pass::Integrate,
    ]
}

/// The fixed order of the passes of one tick.
pub fn tick_schedule() -> (r: Vec<Pass>)
    ensures
        r@ == schedule_spec(),
{
    let mut r: Vec<Pass> = Vec::new();
    r.push(Pass::ClearCounts);
    r.push(Pass::Histogram);
    r.push(Pass::BlockScan);
    r.push(Pass::BlockSumsScan);
    r.push(Pass::AddBack);
    r.push(Pass::WriteSentinel);
    r.push(Pass::ClearCursor);
    r.push(Pass::Scatter);
    r.push(Pass::Density);
    r.push(Pass::Pressure);
    r.push(Pass::Forces);
    r.push(Pass::Integrate);
    assert(r@ =~= schedule_spec());
    r
}

/// `a / b` rounded up.
pub open spec fn ceil_div(a: int, b: int) -> int {
    (a + b - 1) / b
}

/// Number of work groups that cover `n` work items.
pub fn workgroups_for(n: u32) -> (r: u32)
    ensures
        r == ceil_div(n as int, WORKGROUP_SIZE as int),
{
    n / WORKGROUP_SIZE + if n % WORKGROUP_SIZE == 0 {
        0
    } else {
        1
    }
}

/// Whether a pass belongs to the grid build, which is skipped when there are no cells.
pub open spec fn is_grid_pass(pass: Pass) -> bool {
    !(pass is Density || pass is Pressure || pass is Forces || pass is Integrate)
}

/// Work groups that a pass dispatches, as a function of the particle and cell counts.
pub open spec fn dispatch_spec(pass: Pass, num_particles: int, num_cells: int) -> Option<int> {
    let per_particle = ceil_div(if num_particles == 0 {
        1
    } else {
        num_particles
    }, WORKGROUP_SIZE as int);
    if is_grid_pass(pass) && num_cells == 0 {
        None
    } else {
        match pass {
            Pass::ClearCounts | Pass::BlockScan | Pass::AddBack | Pass::ClearCursor => Some(
                ceil_div(num_cells, WORKGROUP_SIZE as int),
            ),
            Pass::BlockSumsScan => Some(
                ceil_div(ceil_div(num_cells, WORKGROUP_SIZE as int), WORKGROUP_SIZE as int),
            ),
            Pass::WriteSentinel => Some(1),
            _ => Some(per_particle),
        }
    }
}

/// Work groups to dispatch for `pass`, or `None` when the pass is skipped. Per-particle
/// passes cover at least one work item; per-cell passes cover the cells; the scan of the
/// block totals covers one item per block; the sentinel is written by one group. With
/// no cells the whole grid build is skipped.
pub fn dispatch_groups(pass: Pass, num_particles: u32, num_cells: u32) -> (r: Option<u32>)
    ensures
        r matches Some(g) ==> dispatch_spec(pass, num_particles as int, num_cells as int)
            == Some(g as int),
        r is None ==> dispatch_spec(pass, num_particles as int, num_cells as int) is None,
{
    let skipped = match pass {
        Pass::Density | Pass::Pressure | Pass::Forces | Pass::Integrate => false,
        _ => num_cells == 0,
    };
    if skipped {
        return None;
    }
    let per_particle = workgroups_for(if num_particles == 0 {
        1
    } else {
        num_particles
    });
    match pass {
        Pass::ClearCounts | Pass::BlockScan | Pass::AddBack | Pass::ClearCursor => Some(
            workgroups_for(num_cells),
        ),
        Pass::BlockSumsScan => Some(workgroups_for(workgroups_for(num_cells))),
        Pass::WriteSentinel => Some(1),
        _ => Some(per_particle),
    }
}

} // verus!
