use tile_merge::board::{ConfigError, Direction, TwoDimBoard};

fn board(width: usize, height: usize) -> TwoDimBoard {
    TwoDimBoard::new(width, height).unwrap()
}

fn set(b: &mut TwoDimBoard, x: usize, y: usize, v: u16) {
    *b.get_mut(x, y).unwrap() = v;
}

fn row(b: &TwoDimBoard, y: usize) -> Vec<u16> {
    (0..b.width()).map(|x| b.get(x, y).unwrap()).collect()
}

fn col(b: &TwoDimBoard, x: usize) -> Vec<u16> {
    (0..b.height()).map(|y| b.get(x, y).unwrap()).collect()
}

fn all_cells(b: &TwoDimBoard) -> Vec<u16> {
    let mut out = Vec::new();
    for y in 0..b.height() {
        for x in 0..b.width() {
            out.push(b.get(x, y).unwrap());
        }
    }
    out
}

fn cell_sum(b: &TwoDimBoard) -> u64 {
    all_cells(b).iter().map(|&v| v as u64).sum()
}

#[test]
fn new_rejects_zero_dimensions() {
    assert_eq!(TwoDimBoard::new(0, 5).unwrap_err(), ConfigError::ZeroDimension);
    assert_eq!(TwoDimBoard::new(5, 0).unwrap_err(), ConfigError::ZeroDimension);
    assert_eq!(TwoDimBoard::new(0, 0).unwrap_err(), ConfigError::ZeroDimension);
}

#[test]
fn new_board_is_all_zero() {
    let b = board(5, 5);
    assert_eq!(b.width(), 5);
    assert_eq!(b.height(), 5);
    for y in 0..5 {
        for x in 0..5 {
            assert_eq!(b.get(x, y), Some(0));
        }
    }
}

#[test]
fn boundary_get_returns_absence() {
    let b = board(5, 3);
    assert_eq!(b.get(5, 0), None);
    assert_eq!(b.get(0, 3), None);
    assert_eq!(b.get(5, 3), None);
    assert_eq!(b.get(usize::MAX, 0), None);
    assert_eq!(b.get(0, usize::MAX), None);
    assert_eq!(b.get(usize::MAX, usize::MAX), None);
}

#[test]
fn boundary_get_mut_returns_absence() {
    let mut b = board(5, 3);
    assert!(b.get_mut(5, 0).is_none());
    assert!(b.get_mut(0, 3).is_none());
    assert!(b.get_mut(usize::MAX, usize::MAX).is_none());
    // An out-of-bounds handle request must leave the board untouched.
    for v in all_cells(&b) {
        assert_eq!(v, 0);
    }
}

#[test]
fn get_mut_writes_are_visible() {
    let mut b = board(4, 4);
    set(&mut b, 2, 1, 8);
    assert_eq!(b.get(2, 1), Some(8));
    assert_eq!(b.get(1, 2), Some(0));
}

#[test]
fn row_2_2_0_0_right_full_trace() {
    // The fixture row [2, 2, 0, 0] slid Right, stage by stage: the merge pass
    // merges the pair and slides the sum, reaching [0, 0, 0, 4] already, and
    // compaction then finds nothing to do.
    let mut b = board(4, 4);
    set(&mut b, 0, 0, 2);
    set(&mut b, 1, 0, 2);
    b.merge_pass(Direction::Right);
    assert_eq!(row(&b, 0), vec![0, 0, 0, 4]);
    let snapshot = all_cells(&b);
    b.compress(&Direction::Right);
    assert_eq!(all_cells(&b), snapshot);
    for y in 1..4 {
        assert_eq!(row(&b, y), vec![0, 0, 0, 0]);
    }
}

#[test]
fn row_2_2_0_0_right_as_one_move() {
    let mut b = board(4, 1);
    set(&mut b, 0, 0, 2);
    set(&mut b, 1, 0, 2);
    b.apply_move(Direction::Right);
    assert_eq!(row(&b, 0), vec![0, 0, 0, 4]);
}

#[test]
fn left_move_merges_and_compacts() {
    let mut b = board(4, 1);
    set(&mut b, 2, 0, 2);
    set(&mut b, 3, 0, 2);
    b.apply_move(Direction::Left);
    assert_eq!(row(&b, 0), vec![4, 0, 0, 0]);
}

#[test]
fn down_move_merges_and_compacts() {
    let mut b = board(1, 4);
    set(&mut b, 0, 0, 2);
    set(&mut b, 0, 1, 2);
    b.apply_move(Direction::Down);
    assert_eq!(col(&b, 0), vec![0, 0, 0, 4]);
}

#[test]
fn up_move_merges_once_per_pass() {
    // Four equal tiles slid Up merge only the leading pair: the merge pass
    // inspects each cell once, and compaction never merges.
    let mut b = board(1, 4);
    for y in 0..4 {
        set(&mut b, 0, y, 2);
    }
    b.apply_move(Direction::Up);
    assert_eq!(col(&b, 0), vec![4, 2, 2, 0]);
}

#[test]
fn distinct_full_board_is_unchanged_by_every_direction() {
    // A board full of distinct values can neither move nor merge: every
    // direction leaves it byte-for-byte unchanged.
    for dir in [Direction::Right, Direction::Left, Direction::Up, Direction::Down] {
        let mut b = board(5, 5);
        let mut v: u16 = 1;
        for y in 0..5 {
            for x in 0..5 {
                set(&mut b, x, y, v);
                v += 1;
            }
        }
        let before = all_cells(&b);
        b.apply_move(dir);
        assert_eq!(all_cells(&b), before);
    }
}

#[test]
fn blocked_move_on_settled_board_is_idempotent() {
    // [0, 0, 2, 4] is already fully slid and merged Rightward.
    let mut b = board(4, 4);
    set(&mut b, 2, 0, 2);
    set(&mut b, 3, 0, 4);
    let before = all_cells(&b);
    b.apply_move(Direction::Right);
    assert_eq!(all_cells(&b), before);
}

#[test]
fn rerunning_compaction_after_a_move_changes_nothing() {
    // After apply_move the board sits at compaction's fixed point; a second
    // compaction pass alone is a no-op.
    let mut b = board(4, 1);
    set(&mut b, 0, 0, 2);
    set(&mut b, 1, 0, 2);
    set(&mut b, 2, 0, 2);
    b.apply_move(Direction::Right);
    assert_eq!(row(&b, 0), vec![0, 0, 4, 2]);
    let after_move = all_cells(&b);
    b.compress(&Direction::Right);
    assert_eq!(all_cells(&b), after_move);
}

#[test]
fn move_preserves_cell_sum() {
    for dir in [Direction::Right, Direction::Left, Direction::Up, Direction::Down] {
        let mut b = board(4, 4);
        set(&mut b, 0, 0, 2);
        set(&mut b, 1, 0, 2);
        set(&mut b, 2, 0, 4);
        set(&mut b, 1, 2, 8);
        set(&mut b, 1, 3, 8);
        let sum = cell_sum(&b);
        b.apply_move(dir);
        assert_eq!(cell_sum(&b), sum);
    }
}

#[test]
fn merge_collapses_pair_into_sum() {
    let mut b = board(4, 1);
    set(&mut b, 0, 0, 2);
    set(&mut b, 1, 0, 2);
    b.apply_move(Direction::Right);
    let tiles: Vec<u16> = all_cells(&b).into_iter().filter(|&v| v != 0).collect();
    assert_eq!(tiles, vec![4]);
}

#[test]
fn merged_tile_never_merges_again_within_one_move() {
    // [2, 2, 4]: the pair of 2s merges into a 4 next to the original 4, but
    // that fresh 4 is spent for this move and may not merge again.
    let mut b = board(3, 1);
    set(&mut b, 0, 0, 2);
    set(&mut b, 1, 0, 2);
    set(&mut b, 2, 0, 4);
    b.apply_move(Direction::Right);
    assert_eq!(row(&b, 0), vec![0, 4, 4]);
}

#[test]
fn merged_tile_slides_but_does_not_remerge() {
    // [2, 2, 4, 0]: the fresh 4 from the merged pair slides toward the edge
    // behind the original 4 without merging into it.
    let mut b = board(4, 1);
    set(&mut b, 0, 0, 2);
    set(&mut b, 1, 0, 2);
    set(&mut b, 2, 0, 4);
    b.apply_move(Direction::Right);
    assert_eq!(row(&b, 0), vec![0, 0, 4, 4]);
}

#[test]
fn three_equal_tiles_with_room_merge_only_once() {
    // [2, 2, 2, 0, 0] slid Right ends with one merged 4 and one unmerged 2,
    // never an 8.
    let mut b = board(5, 1);
    set(&mut b, 0, 0, 2);
    set(&mut b, 1, 0, 2);
    set(&mut b, 2, 0, 2);
    b.apply_move(Direction::Right);
    assert_eq!(row(&b, 0), vec![0, 0, 0, 4, 2]);
}

#[test]
fn three_equal_tiles_leave_one_merged_and_one_unmerged() {
    let mut b = board(3, 1);
    set(&mut b, 0, 0, 2);
    set(&mut b, 1, 0, 2);
    set(&mut b, 2, 0, 2);
    b.apply_move(Direction::Right);
    let mut tiles: Vec<u16> = all_cells(&b).into_iter().filter(|&v| v != 0).collect();
    tiles.sort();
    assert_eq!(tiles, vec![2, 4]);
}
