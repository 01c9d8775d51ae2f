use minesweeper::coordinations::{Coord, Coordinations, Index};

fn make_coords() -> Coordinations {
    Coordinations::from_width_and_height(5, 4)
}

#[test]
fn construction_from_width_and_height() {
    let coords = Coordinations::from_width_and_height(5, 4);
    assert_eq!(coords.width, 5);
    assert_eq!(coords.height, 4);
}

#[test]
fn columns_equals_width() {
    let coords = Coordinations::from_width_and_height(5, 4);
    assert_eq!(coords.columns(), 5);
}

#[test]
fn rows_equals_height() {
    let coords = Coordinations::from_width_and_height(5, 4);
    assert_eq!(coords.rows(), 4);
}

#[test]
fn size_is_width_times_height() {
    let c = Coordinations::from_width_and_height(5, 3);
    assert_eq!(c.size(), 15);
}

#[test]
fn index_to_coord_and_back() {
    let c = Coordinations::from_width_and_height(5, 3);
    assert_eq!(c.to_coord(Index(9)), Some(Coord { x: 4, y: 1 }));
    assert_eq!(c.to_index(&Coord { x: 4, y: 1 }), Some(Index(9)));
}

#[test]
fn out_of_range_index_yields_none() {
    let c = Coordinations::from_width_and_height(5, 3);
    assert_eq!(c.to_coord(Index(15)), None);
    assert_eq!(c.to_index(&Coord { x: 5, y: 0 }), None);
    assert_eq!(c.to_index(&Coord { x: 0, y: 3 }), None);
}

#[test]
fn empty_board_has_no_valid_addresses() {
    let c = Coordinations::from_width_and_height(0, 7);
    assert_eq!(c.to_coord(Index(0)), None);
    assert_eq!(c.to_index(&Coord { x: 0, y: 0 }), None);
    assert!(c.neighbors_at_index(Index(0)).is_empty());
}

fn correct_neighbors(middle: Index, neighbors: &[Index]) {
    let coords = make_coords();
    // coords
    // 00 10 20 30 40
    // 01 11 21 31 41
    // 02 12 22 32 42
    // 03 13 23 33 43
    // indices
    // 00 01 02 03 04
    // 05 06 07 08 09
    // 10 11 12 13 14
    // 15 16 17 18 19
    let n = coords.neighbors_at_index(middle);
    assert_eq!(n.len(), neighbors.len());
    for (got, want) in n.iter().zip(neighbors.iter()) {
        assert_eq!(got, want);
    }
}

#[test]
fn correct_neighbors_center() {
    correct_neighbors(
        Index(7),
        &[
            Index(1),
            Index(2),
            Index(3),
            Index(6),
            Index(8),
            Index(11),
            Index(12),
            Index(13),
        ],
    );
}

#[test]
fn correct_neighbors_left() {
    correct_neighbors(
        Index(5),
        &[Index(0), Index(1), Index(6), Index(10), Index(11)],
    );
}

#[test]
fn correct_neighbors_right() {
    correct_neighbors(
        Index(14),
        &[Index(8), Index(9), Index(13), Index(18), Index(19)],
    );
}

#[test]
fn correct_neighbors_top() {
    correct_neighbors(
        Index(3),
        &[Index(2), Index(4), Index(7), Index(8), Index(9)],
    );
}

#[test]
fn correct_neighbors_bottom() {
    correct_neighbors(
        Index(18),
        &[Index(12), Index(13), Index(14), Index(17), Index(19)],
    );
}

#[test]
fn correct_neighbors_top_left() {
    correct_neighbors(Index(0), &[Index(1), Index(5), Index(6)]);
}

#[test]
fn correct_neighbors_top_right() {
    correct_neighbors(Index(4), &[Index(3), Index(8), Index(9)]);
}

#[test]
fn correct_neighbors_bottom_left() {
    correct_neighbors(Index(15), &[Index(10), Index(11), Index(16)]);
}

#[test]
fn correct_neighbors_bottom_right() {
    correct_neighbors(Index(19), &[Index(13), Index(14), Index(18)]);
}
