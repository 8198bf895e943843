use tetris::layout::{
    board_cell, board_frame, preview_cell, Area, BOARD_OFFSET_X, BOARD_OFFSET_Y,
    NEXT_PIECE_OFFSET_X, NEXT_PIECE_OFFSET_Y,
};

#[test]
fn offsets_of_the_display() {
    assert_eq!((BOARD_OFFSET_X, BOARD_OFFSET_Y), (8, 26));
    assert_eq!((NEXT_PIECE_OFFSET_X, NEXT_PIECE_OFFSET_Y), (42, 10));
}

#[test]
fn cell_of_the_board_on_the_display() {
    assert_eq!(board_cell(0, 0, 5), Area { x: 8, y: 26, width: 5, height: 5 });
    assert_eq!(board_cell(9, 19, 5), Area { x: 53, y: 121, width: 5, height: 5 });
    assert_eq!(board_cell(3, 7, 2), Area { x: 14, y: 40, width: 2, height: 2 });
    assert_eq!(board_cell(-1, -2, 5), Area { x: 3, y: 16, width: 5, height: 5 });
}

#[test]
fn block_of_the_piece_to_come_on_the_display() {
    assert_eq!(preview_cell(0, 0, 5), Area { x: 42, y: 10, width: 5, height: 5 });
    assert_eq!(preview_cell(3, 1, 5), Area { x: 57, y: 15, width: 5, height: 5 });
}

#[test]
fn frame_is_one_pixel_wider_than_the_board() {
    assert_eq!(board_frame(10, 20, 5), Area { x: 7, y: 25, width: 52, height: 102 });
    assert_eq!(board_frame(0, 0, 5), Area { x: 7, y: 25, width: 2, height: 2 });
}

#[test]
fn cells_far_out_do_not_overflow() {
    assert_eq!(
        board_cell(32767, -32768, 32767),
        Area { x: 32767 * 32767 + 8, y: -32768 * 32767 + 26, width: 32767, height: 32767 }
    );
    assert_eq!(
        board_frame(32767, 32767, 32767),
        Area { x: 7, y: 25, width: 32767 * 32767 + 2, height: 32767 * 32767 + 2 }
    );
}
