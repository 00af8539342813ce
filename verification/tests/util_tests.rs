use snake_game::util::{idx_to_pos, pos_to_idx};
use snake_game::{DISPLAY_HEIGHT, DISPLAY_WIDTH, NUM_PIXELS};

#[test]
fn display_is_eight_by_eight() {
    assert_eq!(DISPLAY_WIDTH, 8);
    assert_eq!(DISPLAY_HEIGHT, 8);
    assert_eq!(NUM_PIXELS, 64);
}

#[test]
fn pos_to_idx_is_row_major() {
    assert_eq!(pos_to_idx((0, 0)), 0);
    assert_eq!(pos_to_idx((7, 0)), 7);
    assert_eq!(pos_to_idx((0, 1)), 8);
    assert_eq!(pos_to_idx((4, 4)), 36);
    assert_eq!(pos_to_idx((3, 5)), 43);
    assert_eq!(pos_to_idx((7, 7)), 63);
}

#[test]
fn idx_to_pos_splits_column_and_row() {
    assert_eq!(idx_to_pos(0), (0, 0));
    assert_eq!(idx_to_pos(7), (7, 0));
    assert_eq!(idx_to_pos(8), (0, 1));
    assert_eq!(idx_to_pos(36), (4, 4));
    assert_eq!(idx_to_pos(43), (3, 5));
    assert_eq!(idx_to_pos(63), (7, 7));
}

#[test]
fn idx_to_pos_is_total() {
    assert_eq!(idx_to_pos(64), (0, 8));
    assert_eq!(idx_to_pos(usize::MAX), (usize::MAX % 8, usize::MAX / 8));
}

#[test]
fn index_of_position_is_identity() {
    for idx in 0..NUM_PIXELS {
        let pos = idx_to_pos(idx);
        assert!(pos.0 < DISPLAY_WIDTH && pos.1 < DISPLAY_HEIGHT);
        assert_eq!(pos_to_idx(pos), idx);
    }
}

#[test]
fn position_of_index_is_identity() {
    for y in 0..DISPLAY_HEIGHT {
        for x in 0..DISPLAY_WIDTH {
            let idx = pos_to_idx((x, y));
            assert!(idx < NUM_PIXELS);
            assert_eq!(idx_to_pos(idx), (x, y));
        }
    }
}
