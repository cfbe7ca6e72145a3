use tile_merge::board::{Direction, TwoDimBoard};
use tile_merge::spawn::Game;

fn all_cells(b: &TwoDimBoard) -> Vec<u16> {
    let mut out = Vec::new();
    for y in 0..b.height() {
        for x in 0..b.width() {
            out.push(b.get(x, y).unwrap());
        }
    }
    out
}

#[test]
fn add_tile_spawns_exactly_one_two_or_four() {
    let mut game = Game { board: TwoDimBoard::new(3, 3).unwrap() };
    game.add_tile();
    let tiles: Vec<u16> = all_cells(&game.board).into_iter().filter(|&v| v != 0).collect();
    assert_eq!(tiles.len(), 1);
    assert!(tiles[0] == 2 || tiles[0] == 4);
}

#[test]
fn add_tile_on_full_board_does_nothing() {
    let mut game = Game { board: TwoDimBoard::new(2, 2).unwrap() };
    let mut v: u16 = 1;
    for y in 0..2 {
        for x in 0..2 {
            *game.board.get_mut(x, y).unwrap() = v;
            v += 1;
        }
    }
    let before = all_cells(&game.board);
    game.add_tile();
    assert_eq!(all_cells(&game.board), before);
}

#[test]
fn add_tile_fills_the_single_gap() {
    let mut game = Game { board: TwoDimBoard::new(2, 2).unwrap() };
    *game.board.get_mut(0, 0).unwrap() = 2;
    *game.board.get_mut(1, 0).unwrap() = 4;
    *game.board.get_mut(0, 1).unwrap() = 8;
    game.add_tile();
    let spawned = game.board.get(1, 1).unwrap();
    assert!(spawned == 2 || spawned == 4);
    assert_eq!(game.board.get(0, 0), Some(2));
    assert_eq!(game.board.get(1, 0), Some(4));
    assert_eq!(game.board.get(0, 1), Some(8));
}

#[test]
fn spawn_after_fully_blocked_move_still_occurs() {
    // The shell spawns a tile after every recognised keypress, even when the
    // move itself changed nothing; whether to spawn is the caller's choice,
    // not the engine's, since spawning is a separate call.
    let mut game = Game { board: TwoDimBoard::new(4, 1).unwrap() };
    *game.board.get_mut(1, 0).unwrap() = 2;
    *game.board.get_mut(2, 0).unwrap() = 4;
    *game.board.get_mut(3, 0).unwrap() = 2;
    let before = all_cells(&game.board);
    game.board.apply_move(Direction::Right);
    assert_eq!(all_cells(&game.board), before);
    game.add_tile();
    let tiles: Vec<u16> = all_cells(&game.board).into_iter().filter(|&v| v != 0).collect();
    assert_eq!(tiles.len(), 4);
}

#[test]
fn spawned_values_follow_the_two_to_four_split() {
    // Spawns on a one-cell board sample the value distribution: both values
    // must appear over many draws, and nothing but 2 and 4 ever does.
    let mut twos = 0usize;
    let mut fours = 0usize;
    for _ in 0..400 {
        let mut game = Game { board: TwoDimBoard::new(1, 1).unwrap() };
        game.add_tile();
        match game.board.get(0, 0).unwrap() {
            2 => twos += 1,
            4 => fours += 1,
            other => panic!("spawned value {other} is neither 2 nor 4"),
        }
    }
    assert!(twos > fours, "2 should be the common spawn (0.8 against 0.2)");
    assert!(fours > 0, "4 must occur over 400 draws (probability 0.2)");
}
