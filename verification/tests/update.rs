use tetris::piece::{Cell, Coordination};
use tetris::update::{BoardUpdate, CAPACITY};

fn at(x: i16, y: i16) -> Coordination {
    Coordination { x, y }
}

fn list(entries: &[((i16, i16), Cell)]) -> BoardUpdate {
    let mut cells = heapless::Vec::new();
    for ((x, y), state) in entries {
        cells.push((at(*x, *y), *state)).unwrap();
    }
    BoardUpdate::Partial(cells)
}

fn row(y: i16, from: i16, to: i16, state: Cell) -> Vec<((i16, i16), Cell)> {
    (from..to).map(|x| ((x, y), state)).collect()
}

const SQUARE: [(i16, i16); 4] = [(0, 0), (1, 0), (0, 1), (1, 1)];

fn shifted(blocks: [(i16, i16); 4], dx: i16, dy: i16) -> [Coordination; 4] {
    [
        at(blocks[0].0 + dx, blocks[0].1 + dy),
        at(blocks[1].0 + dx, blocks[1].1 + dy),
        at(blocks[2].0 + dx, blocks[2].1 + dy),
        at(blocks[3].0 + dx, blocks[3].1 + dy),
    ]
}

#[test]
fn capacity_is_sixteen() {
    assert_eq!(CAPACITY, 16);
}

#[test]
fn default_is_nothing() {
    assert_eq!(BoardUpdate::default(), BoardUpdate::Nothing);
}

#[test]
fn move_lists_cells_left_then_cells_entered() {
    let update = BoardUpdate::get_partial_update(shifted(SQUARE, 0, 0), shifted(SQUARE, 1, 0));
    assert_eq!(
        update,
        list(&[
            ((0, 0), Cell::Empty),
            ((0, 1), Cell::Empty),
            ((2, 0), Cell::Occured),
            ((2, 1), Cell::Occured),
        ])
    );
}

#[test]
fn move_to_cells_apart_lists_all_eight() {
    let update = BoardUpdate::get_partial_update(shifted(SQUARE, 0, 0), shifted(SQUARE, 5, 5));
    assert_eq!(
        update,
        list(&[
            ((0, 0), Cell::Empty),
            ((1, 0), Cell::Empty),
            ((0, 1), Cell::Empty),
            ((1, 1), Cell::Empty),
            ((5, 5), Cell::Occured),
            ((6, 5), Cell::Occured),
            ((5, 6), Cell::Occured),
            ((6, 6), Cell::Occured),
        ])
    );
}

#[test]
fn move_to_the_same_cells_lists_nothing() {
    let update = BoardUpdate::get_partial_update(shifted(SQUARE, 3, 3), shifted(SQUARE, 3, 3));
    assert_eq!(update, list(&[]));
}

#[test]
fn merging_with_full_gives_full() {
    let some = [((1, 1), Cell::Occured)];
    for first in [BoardUpdate::Full, BoardUpdate::Nothing, list(&some)] {
        let mut update = first;
        update.merge(BoardUpdate::Full);
        assert_eq!(update, BoardUpdate::Full);
    }
    for second in [BoardUpdate::Full, BoardUpdate::Nothing, list(&some)] {
        let mut update = BoardUpdate::Full;
        update.merge(second);
        assert_eq!(update, BoardUpdate::Full);
    }
}

#[test]
fn merging_with_nothing_gives_the_other() {
    let some = [((1, 1), Cell::Occured), ((2, 1), Cell::Empty)];
    let mut update = BoardUpdate::Nothing;
    update.merge(list(&some));
    assert_eq!(update, list(&some));
    update.merge(BoardUpdate::Nothing);
    assert_eq!(update, list(&some));
    let mut nothing = BoardUpdate::Nothing;
    nothing.merge(BoardUpdate::Nothing);
    assert_eq!(nothing, BoardUpdate::Nothing);
}

#[test]
fn later_change_of_a_cell_replaces_the_earlier_one_in_its_place() {
    let mut update = list(&[((0, 0), Cell::Empty), ((1, 0), Cell::Empty), ((2, 0), Cell::Occured)]);
    update.merge(list(&[
        ((1, 0), Cell::Occured),
        ((3, 0), Cell::Occured),
        ((0, 0), Cell::Occured),
    ]));
    assert_eq!(
        update,
        list(&[
            ((0, 0), Cell::Occured),
            ((1, 0), Cell::Occured),
            ((2, 0), Cell::Occured),
            ((3, 0), Cell::Occured),
        ])
    );
}

#[test]
fn last_of_several_changes_of_one_cell_wins() {
    let mut update = list(&[((4, 4), Cell::Empty)]);
    update.merge(list(&[((4, 4), Cell::Occured), ((4, 4), Cell::Empty), ((4, 4), Cell::Occured)]));
    assert_eq!(update, list(&[((4, 4), Cell::Occured)]));
}

#[test]
fn sixteen_cells_still_make_a_list() {
    let mut update = list(&row(0, 0, 8, Cell::Empty));
    update.merge(list(&row(1, 0, 8, Cell::Occured)));
    let mut expected = row(0, 0, 8, Cell::Empty);
    expected.extend(row(1, 0, 8, Cell::Occured));
    assert_eq!(update, list(&expected));
    // changes of cells that are listed need no room
    update.merge(list(&row(0, 0, 8, Cell::Occured)));
    let mut expected = row(0, 0, 8, Cell::Occured);
    expected.extend(row(1, 0, 8, Cell::Occured));
    assert_eq!(update, list(&expected));
}

#[test]
fn seventeenth_cell_makes_it_a_full_redraw() {
    let mut update = list(&row(0, 0, 8, Cell::Empty));
    update.merge(list(&row(1, 0, 8, Cell::Occured)));
    update.merge(list(&[((0, 2), Cell::Occured)]));
    assert_eq!(update, BoardUpdate::Full);
}

#[test]
fn overflow_in_the_middle_of_a_list_makes_it_a_full_redraw() {
    let mut update = list(&row(0, 0, 10, Cell::Empty));
    // six new cells fit, the seventh does not, whatever follows
    let mut more = row(1, 0, 7, Cell::Occured);
    more.push(((0, 0), Cell::Occured));
    update.merge(list(&more));
    assert_eq!(update, BoardUpdate::Full);
}

#[test]
fn two_moves_merge_into_the_change_between_first_and_last() {
    let mut update =
        BoardUpdate::get_partial_update(shifted(SQUARE, 0, 0), shifted(SQUARE, 1, 0));
    update.merge(BoardUpdate::get_partial_update(shifted(SQUARE, 1, 0), shifted(SQUARE, 2, 0)));
    assert_eq!(
        update,
        list(&[
            ((0, 0), Cell::Empty),
            ((0, 1), Cell::Empty),
            ((2, 0), Cell::Occured),
            ((2, 1), Cell::Occured),
            ((1, 0), Cell::Empty),
            ((1, 1), Cell::Empty),
            ((3, 0), Cell::Occured),
            ((3, 1), Cell::Occured),
        ])
    );
}
