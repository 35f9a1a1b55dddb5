//! What the interface shows and decides about a session: which view is on, what a
//! background job's last report means, and the figures shown beside the grid.
use vstd::prelude::*;

use crate::geom::div_floor;
use crate::voxel::VoxelGrid;

verus! {

/// What the viewport shows.
#[derive(Clone, Copy, Debug, PartialEq, Eq, Structural)]
pub enum ViewMode {
    Voxel,
    Mesh,
    Blocks,
}

/// The kind of the last report of a background job.
#[derive(Clone, Copy, Debug, PartialEq, Eq, Structural)]
pub enum WorkerEvent {
    /// Work goes on; a progress figure and a label come with it.
    Progress,
    /// A model was loaded.
    SceneLoaded,
    /// A grid was built.
    VoxelsDone,
    /// The job failed.
    Error,
}

/// What to do after reading the reports waiting from a background job.
#[derive(Clone, Copy, Debug, PartialEq, Eq, Structural)]
pub struct PollOutcome {
    /// Keep listening to the job.
    pub keep_channel: bool,
    /// The job is over: the interface is no longer busy.
    pub finished: bool,
}

/// Only the last waiting report counts. A progress report keeps the channel; any other report
/// ends the job. With no report, the channel is kept unless the job has gone away.
pub fn poll_outcome(last: Option<WorkerEvent>, disconnected: bool) -> (r: PollOutcome)
    ensures
        r.keep_channel == match last {
            Some(e) => e == WorkerEvent::Progress,
            None => !disconnected,
        },
        r.finished == (last matches Some(e) && e != WorkerEvent::Progress),
{
    match last {
        Some(WorkerEvent::Progress) => PollOutcome { keep_channel: true, finished: false },
        Some(_) => PollOutcome { keep_channel: false, finished: true },
        None => PollOutcome { keep_channel: !disconnected, finished: false },
    }
}

// ---------------------------------------------------------------------------
// Figures about a grid
// ---------------------------------------------------------------------------

/// Whether some occupied cell of `g` is mapped to block `id`.
pub open spec fn block_used(g: VoxelGrid, id: u16) -> bool {
    exists|k: int|
        0 <= k < g.occupied_list().len() && (#[trigger] g.occupied_list()[k]).1.block_id == id
}

/// Whether `s` is in strictly increasing order.
pub open spec fn strictly_increasing(s: Seq<u16>) -> bool {
    forall|i: int, j: int| 0 <= i < j < s.len() ==> #[trigger] s[i] < #[trigger] s[j]
}

/// The blocks that the grid uses, other than block 0, each once and in increasing order.
pub fn used_block_ids(grid: &VoxelGrid) -> (r: Vec<u16>)
    requires
        grid.wf(),
    ensures
        strictly_increasing(r@),
        forall|id: u16| #[trigger] r@.contains(id) <==> id > 0 && block_used(*grid, id),
{
    let cells = grid.iter_occupied();
    let mut ids: Vec<u16> = Vec::new();
    let mut k: usize = 0;
    while k < cells.len()
        invariant
            cells@ == grid.occupied_list(),
            k <= cells.len(),
            strictly_increasing(ids@),
            forall|id: u16|
                ids@.contains(id) <==> id > 0 && exists|m: int|
                    0 <= m < k && (#[trigger] cells@[m]).1.block_id == id,
        decreases cells.len() - k,
    {
        let id = cells[k].1.block_id;
        if id > 0 {
            // The first position holding an id not below `id`.
            let mut i: usize = 0;
            while i < ids.len() && ids[i] < id
                invariant
                    i <= ids.len(),
                    forall|m: int| 0 <= m < i ==> ids@[m] < id,
                decreases ids.len() - i,
            {
                i = i + 1;
            }
            if i == ids.len() || ids[i] != id {
                let ghost before = ids@;
                ids.insert(i, id);
                proof {
                    assert forall|a: int, b: int| 0 <= a < b < ids@.len() implies #[trigger] ids@[a]
                        < #[trigger] ids@[b] by {
                        if b < i {
                        } else if a < i && b == i {
                        } else if a < i {
                            assert(ids@[b] == before[b - 1]);
                        } else if a == i {
                            assert(ids@[b] == before[b - 1]);
                            assert(before[i as int] >= id);
                            if b - 1 > i {
                                assert(before[i as int] < before[b - 1]);
                            }
                        } else {
                            assert(ids@[a] == before[a - 1]);
                            assert(ids@[b] == before[b - 1]);
                        }
                    }
                    assert forall|x: u16| ids@.contains(x) <==> x > 0 && exists|m: int|
                        0 <= m < k + 1 && (#[trigger] cells@[m]).1.block_id == x by {
                        if ids@.contains(x) {
                            let p = choose|p: int| 0 <= p < ids@.len() && ids@[p] == x;
                            if p != i {
                                let q = if p < i { p } else { p - 1 };
                                assert(before[q] == x);
                                assert(before.contains(x));
                            }
                        }
                        if x > 0 && exists|m: int|
                            0 <= m < k + 1 && (#[trigger] cells@[m]).1.block_id == x {
                            if x != id {
                                let m = choose|m: int|
                                    0 <= m < k + 1 && (#[trigger] cells@[m]).1.block_id == x;
                                assert(m < k);
                                assert(before.contains(x));
                                let p = choose|p: int| 0 <= p < before.len() && before[p] == x;
                                if p < i {
                                    assert(ids@[p] == x);
                                } else {
                                    assert(ids@[p + 1] == x);
                                }
                            } else {
                                assert(ids@[i as int] == x);
                            }
                        }
                    }
                }
            } else {
                proof {
                    assert forall|x: u16| ids@.contains(x) <==> x > 0 && exists|m: int|
                        0 <= m < k + 1 && (#[trigger] cells@[m]).1.block_id == x by {
                        if x > 0 && exists|m: int|
                            0 <= m < k + 1 && (#[trigger] cells@[m]).1.block_id == x {
                            if x != id {
                                let m = choose|m: int|
                                    0 <= m < k + 1 && (#[trigger] cells@[m]).1.block_id == x;
                                assert(m < k);
                            } else {
                                assert(ids@[i as int] == x);
                            }
                        }
                        if ids@.contains(x) {
                            let m = choose|m: int| 0 <= m < k && (#[trigger] cells@[m]).1.block_id == x;
                            assert(0 <= m < k + 1);
                        }
                    }
                }
            }
        } else {
            proof {
                assert forall|x: u16| ids@.contains(x) <==> x > 0 && exists|m: int|
                    0 <= m < k + 1 && (#[trigger] cells@[m]).1.block_id == x by {
                    if x > 0 && exists|m: int| 0 <= m < k + 1 && (#[trigger] cells@[m]).1.block_id == x {
                        let m = choose|m: int| 0 <= m < k + 1 && (#[trigger] cells@[m]).1.block_id == x;
                        assert(m < k);
                    }
                    if ids@.contains(x) {
                        let m = choose|m: int| 0 <= m < k && (#[trigger] cells@[m]).1.block_id == x;
                        assert(0 <= m < k + 1);
                    }
                }
            }
        }
        k = k + 1;
    }
    ids
}

/// The positions of the chunk-boundary lines drawn across `lo..=hi`: every multiple of 16
/// from the one at or below `lo` to the one at or above `hi`.
pub fn boundary_lines(lo: i32, hi: i32) -> (r: Vec<i32>)
    requires
        hi + 15 <= i32::MAX,
    ensures
        ({
            let start = 16 * (lo as int / 16);
            let end = 16 * ((hi + 15) / 16);
            &&& r.len() == (if start <= end { (end - start) / 16 + 1 } else { 0 })
            &&& forall|k: int| 0 <= k < r.len() ==> #[trigger] r@[k] == start + 16 * k
        }),
{
    let start_q = div_floor(lo, 16);
    let end_q = div_floor(hi + 15, 16);
    proof {
        assert(16 * start_q >= i32::MIN) by (nonlinear_arith)
            requires
                lo - start_q * 16 < 16,
                lo >= i32::MIN,
                lo - start_q * 16 >= 0,
        ;
        assert(16 * end_q <= hi + 15) by (nonlinear_arith)
            requires
                hi + 15 - end_q * 16 >= 0,
        ;
    }
    let mut r: Vec<i32> = Vec::new();
    if start_q > end_q {
        return r;
    }
    let mut q: i32 = start_q;
    while q <= end_q
        invariant
            start_q <= q <= end_q + 1,
            end_q <= i32::MAX / 16,
            16 * start_q >= i32::MIN,
            16 * end_q <= i32::MAX,
            r.len() == q - start_q,
            forall|k: int| 0 <= k < r.len() ==> #[trigger] r@[k] == 16 * start_q + 16 * k,
        decreases end_q + 1 - q,
    {
        r.push(q * 16);
        q = q + 1;
    }
    r
}

/// The chunk-boundary lines around the cells `lo..=hi`: every multiple of 16 from the one at
/// or below `lo` to the one at or above `hi + 1`, the far face of cell `hi`. Every cell, and
/// every 16-wide chunk column that holds one, lies between the first and the last line.
pub fn cell_boundary_lines(lo: i32, hi: i32) -> (r: Vec<i32>)
    requires
        hi + 16 <= i32::MAX,
    ensures
        ({
            let start = 16 * (lo as int / 16);
            let end = 16 * ((hi + 16) / 16);
            &&& r.len() == (if start <= end { (end - start) / 16 + 1 } else { 0 })
            &&& forall|k: int| 0 <= k < r.len() ==> #[trigger] r@[k] == start + 16 * k
        }),
        lo <= hi ==> r.len() >= 2 && r@[0] <= lo && r@[r.len() - 1] >= hi + 1,
{
    let r = boundary_lines(lo, hi + 1);
    proof {
        let start = 16 * (lo as int / 16);
        let end = 16 * ((hi + 16) / 16);
        if lo <= hi {
            assert(start <= lo && lo < start + 16) by (nonlinear_arith)
                requires
                    start == 16 * (lo as int / 16),
            ;
            assert(end >= hi + 1 && end < hi + 17) by (nonlinear_arith)
                requires
                    end == 16 * ((hi + 16) / 16),
            ;
            assert((end - start) % 16 == 0) by (nonlinear_arith)
                requires
                    start == 16 * (lo as int / 16),
                    end == 16 * ((hi + 16) / 16),
            ;
            assert(start + 16 * ((end - start) / 16) == end) by (nonlinear_arith)
                requires
                    (end - start) % 16 == 0,
            ;
        }
    }
    r
}

/// The unit that a large count is shown in.
#[derive(Clone, Copy, Debug, PartialEq, Eq, Structural)]
pub enum CountUnit {
    One,
    Thousand,
    Million,
}

/// A count shortened for display: in millions above a million, in thousands above a
/// thousand, else as it is (each quotient rounded down).
pub fn abbreviate_count(n: u64) -> (r: (u64, CountUnit))
    ensures
        n > 1_000_000 ==> r == (n / 1_000_000, CountUnit::Million),
        1_000 < n <= 1_000_000 ==> r == (n / 1_000, CountUnit::Thousand),
        n <= 1_000 ==> r == (n, CountUnit::One),
{
    if n > 1_000_000 {
        (n / 1_000_000, CountUnit::Million)
    } else if n > 1_000 {
        (n / 1_000, CountUnit::Thousand)
    } else {
        (n, CountUnit::One)
    }
}

} // verus!
