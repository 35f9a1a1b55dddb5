use chunky::geom::IVec3;
use chunky::session::{
    abbreviate_count, boundary_lines, cell_boundary_lines, poll_outcome, used_block_ids, CountUnit, PollOutcome,
    ViewMode, WorkerEvent,
};
use chunky::voxel::{Voxel, VoxelGrid};

#[test]
fn progress_keeps_the_channel() {
    assert_eq!(
        poll_outcome(Some(WorkerEvent::Progress), false),
        PollOutcome { keep_channel: true, finished: false }
    );
    assert_eq!(
        poll_outcome(Some(WorkerEvent::Progress), true),
        PollOutcome { keep_channel: true, finished: false }
    );
}

#[test]
fn results_and_errors_end_the_job() {
    for e in [WorkerEvent::SceneLoaded, WorkerEvent::VoxelsDone, WorkerEvent::Error] {
        assert_eq!(poll_outcome(Some(e), false), PollOutcome { keep_channel: false, finished: true });
    }
}

#[test]
fn silence_keeps_the_channel_until_it_closes() {
    assert_eq!(poll_outcome(None, false), PollOutcome { keep_channel: true, finished: false });
    assert_eq!(poll_outcome(None, true), PollOutcome { keep_channel: false, finished: false });
}

#[test]
fn used_blocks_are_sorted_and_distinct() {
    let mut g = VoxelGrid::new();
    let mut put = |x: i32, id: u16| {
        let mut v = Voxel::new([0, 0, 0]);
        v.block_id = id;
        g.set_voxel(IVec3::new(x, 0, 0), v);
    };
    put(0, 7);
    put(1, 3);
    put(2, 7);
    put(3, 0);
    put(40, 5);
    let mut hidden = Voxel::default();
    hidden.block_id = 9;
    g.set_voxel(IVec3::new(4, 0, 0), hidden);
    assert_eq!(used_block_ids(&g), vec![3, 5, 7]);
    assert_eq!(used_block_ids(&VoxelGrid::new()), Vec::<u16>::new());
}

#[test]
fn boundary_lines_cover_the_range() {
    assert_eq!(boundary_lines(-5, 20), vec![-16, 0, 16, 32]);
    assert_eq!(boundary_lines(0, 0), vec![0]);
    assert_eq!(boundary_lines(16, 17), vec![16, 32]);
    assert_eq!(boundary_lines(i32::MAX, i32::MIN), Vec::<i32>::new());
}

#[test]
fn counts_are_abbreviated() {
    assert_eq!(abbreviate_count(999), (999, CountUnit::One));
    assert_eq!(abbreviate_count(1_000), (1_000, CountUnit::One));
    assert_eq!(abbreviate_count(1_001), (1, CountUnit::Thousand));
    assert_eq!(abbreviate_count(1_000_000), (1_000, CountUnit::Thousand));
    assert_eq!(abbreviate_count(2_500_000), (2, CountUnit::Million));
}

#[test]
fn view_modes_compare() {
    assert_ne!(ViewMode::Voxel, ViewMode::Blocks);
    assert_eq!(ViewMode::Mesh, ViewMode::Mesh);
}

#[test]
fn cell_boundaries_enclose_the_last_cell() {
    assert_eq!(cell_boundary_lines(0, 16), vec![0, 16, 32]);
    assert_eq!(cell_boundary_lines(0, 15), vec![0, 16]);
    assert_eq!(cell_boundary_lines(-1, -1), vec![-16, 0]);
}
