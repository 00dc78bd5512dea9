use game_of_life::{Life, LifeError};
use unicode_segmentation::UnicodeSegmentation;

#[test]
fn positions_are_normalized() {
    assert_eq!(Life::wrap_coordinate(-12, 3), 0);
    assert_eq!(Life::wrap_coordinate(6, 3), 0);
    assert_eq!(Life::wrap_coordinate(-11, 3), 1);
}

#[test]
fn position_to_index_wraps_correctly() {
    let life = Life::new(3, 3).unwrap();
    let positions_with_indices = [
        ((-1_isize, -1_isize), 8_usize),
        ((3_isize, 0_isize), 0_usize),
    ];
    for ((x, y), i) in positions_with_indices.iter() {
        let index = life.position_to_index(*x, *y);
        assert_eq!(index, *i);
    }
}

#[test]
fn tick_kills_from_overpopulation() {
    let life = Life::new(3, 3).unwrap();
    let seed = "███\n███\n███";
    let output = life.tick(&seed.to_string()).unwrap();
    assert_eq!(output, "   \n   \n   ");
}

#[test]
fn tick_produces_from_reproduction() {
    let life = Life::new(3, 3).unwrap();
    let seed = "█  \n█  \n█  ";
    let output = life.tick(&seed.to_string()).unwrap();
    assert_eq!(output, "███\n███\n███");
}

#[test]
fn count_neighbors() {
    let tests = [
        (String::from("█████████"), (0_isize, 0_isize), 8),
        (String::from("█  \n█  \n█  "), (0_isize, 0_isize), 2),
    ];
    let life = Life::new(3, 3).unwrap();
    for (seed, (x, y), expectation) in tests.iter() {
        let seed = &seed.graphemes(true).map(|s| String::from(s)).collect();
        assert_eq!(life.count_neighbors(seed, *x, *y), *expectation);
    }
}

#[test]
fn get_next_state() {
    let life = Life::new(3, 3).unwrap();
    let tests = [("█  █  █  ", (0_isize, 0_isize), "█")];
    for (seed, (x, y), expected) in tests.iter() {
        assert_eq!(
            life.get_next_state(
                &String::from(*seed)
                    .graphemes(true)
                    .map(|s| String::from(s))
                    .collect(),
                *y,
                *x
            ),
            String::from(*expected)
        )
    }
}

#[test]
fn tick_leaves_void_board_unchanged() {
    let life = Life::new(3, 3).unwrap();
    let void = "   \n   \n   ";
    let output = life.tick(&void.to_string()).unwrap();
    assert_eq!(output, void);
}

#[test]
fn tick_is_deterministic() {
    let life = Life::new(3, 3).unwrap();
    let seed = "█ █\n ██\n█  ".to_string();
    let first = life.tick(&seed).unwrap();
    let second = life.tick(&seed).unwrap();
    assert_eq!(first, second);
}

// An asymmetric pattern on which an in-place, cell-by-cell update would go
// wrong: once (0, 0) were rewritten live, the count at (2, 0) would reach
// four and that cell would stay dead. The simultaneous rule sees three live
// neighbors from every cell of this board, so the whole grid fills.
#[test]
fn tick_is_synchronous() {
    let life = Life::new(3, 3).unwrap();
    let seed = " █ \n█  \n  █";
    let output = life.tick(&seed.to_string()).unwrap();
    assert_eq!(output, "███\n███\n███");
}

#[test]
fn codec_round_trips_valid_boards() {
    let life = Life::new(2, 2).unwrap();
    let board = "█ \n █".to_string();
    let cells = life.decode(&board).unwrap();
    assert_eq!(cells, vec![true, false, false, true]);
    assert_eq!(life.encode(&cells), board);

    let life = Life::new(3, 3).unwrap();
    let board = "█ █\n ██\n█  ".to_string();
    let cells = life.decode(&board).unwrap();
    assert_eq!(life.encode(&cells), board);
}

#[test]
fn new_rejects_degenerate_dimensions() {
    assert_eq!(Life::new(0, 3).unwrap_err(), LifeError::InvalidDimensions);
    assert_eq!(Life::new(3, 0).unwrap_err(), LifeError::InvalidDimensions);
    assert_eq!(Life::new(0, 0).unwrap_err(), LifeError::InvalidDimensions);
    assert!(Life::new(1, 1).is_ok());
}

#[test]
fn tick_rejects_wrong_cell_count() {
    let life = Life::new(3, 3).unwrap();
    assert_eq!(
        life.tick(&"██\n██".to_string()).unwrap_err(),
        LifeError::InvalidBoardSize
    );
    assert_eq!(
        life.tick(&"████\n████\n████".to_string()).unwrap_err(),
        LifeError::InvalidBoardSize
    );
    assert_eq!(
        life.decode(&"█".to_string()).unwrap_err(),
        LifeError::InvalidBoardSize
    );
}

// A combining accent makes "e\u{301}" a single user-perceived glyph of two
// code points. Decoding must count it as one (dead) cell; splitting the text
// by code points instead would miscount the board and reject it.
#[test]
fn decode_counts_grapheme_clusters_not_code_points() {
    let life = Life::new(3, 3).unwrap();
    let seed = "██e\u{301}\n█  \n   ".to_string();
    let cells = life.decode(&seed).unwrap();
    assert_eq!(
        cells,
        vec![true, true, false, true, false, false, false, false, false]
    );
    let output = life.tick(&seed).unwrap();
    assert_eq!(output, "███\n███\n███");
}
