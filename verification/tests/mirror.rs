use minesweeper::client;
use minesweeper::coordinations::{Coord, Coordinations};
use minesweeper::game::{
    Cell, CellUpdate, CellUpdates, FieldProvider, Namer as NamerTrait, SessionID, SessionUserID,
    Stats, Status, Updates, UserStats,
};
use minesweeper::protocol::{
    concatenate, GameUpdateFromMasterForSlave, UpdateFromMaster, UpdateFromMasterForClient,
    UpdateFromMasterForNamer, UpdateFromMasterForSlave, UserName, UserNames,
};
use minesweeper::slave;

fn test_coords() -> Coordinations {
    Coordinations::from_width_and_height(10, 8)
}

fn target() -> Coord {
    Coord { x: 3, y: 6 }
}

fn target2() -> Coord {
    Coord { x: 4, y: 7 }
}

#[test]
fn number_of_cells_equals_width_times_height() {
    let field = client::Field::new(test_coords());
    assert_eq!(field.cell_count(), 80);
}

#[test]
fn initally_all_cells_are_covered() {
    let field = client::Field::new(test_coords());
    for y in 0..8 {
        for x in 0..10 {
            assert_eq!(*field.get_cell(&Coord { x, y }), Cell::Covered);
        }
    }
}

fn updated_field(coord: Coord) -> client::Field {
    let mut field = client::Field::new(test_coords());
    let update = CellUpdate {
        coord,
        cell: Cell::Mine,
    };
    field.on_updates(CellUpdates(vec![update]));
    field
}

fn updated_field2(a: Coord, b: Coord) -> client::Field {
    let mut field = client::Field::new(test_coords());
    let a = CellUpdate {
        coord: a,
        cell: Cell::Mine,
    };
    let b = CellUpdate {
        coord: b,
        cell: Cell::Mine,
    };
    field.on_updates(CellUpdates(vec![a, b]));
    field
}

fn compare_field_cells(field: &client::Field, mines: &[Coord]) {
    for y in 0..8 {
        for x in 0..10 {
            let c = Coord { x, y };
            let expected = if mines.contains(&c) {
                Cell::Mine
            } else {
                Cell::Covered
            };
            assert_eq!(*field.get_cell(&c), expected);
        }
    }
}

#[test]
fn on_update_updates_the_correct_cell() {
    let field = updated_field(target());
    compare_field_cells(&field, &[target()]);
}

#[test]
fn get_cell_returns_the_correct_cell() {
    let field = updated_field(target());
    let mine = field.get_cell(&target());
    assert_eq!(*mine, Cell::Mine);
}

#[test]
fn on_updates_updates_the_correct_cells() {
    let field = updated_field2(target(), target2());
    compare_field_cells(&field, &[target(), target2()]);
}

fn blank_slave_state(coords: Coordinations) -> UpdateFromMasterForSlave {
    UpdateFromMasterForSlave {
        game: GameUpdateFromMasterForSlave {
            coords,
            session: SessionID::new(9),
            status: Status::Playing,
            stats: UserStats::new(),
        },
        namer: UpdateFromMasterForNamer {
            names: UserNames(Vec::new()),
        },
    }
}

fn master_update(coords: Coordinations, cells: Vec<CellUpdate>, stats: Stats) -> UpdateFromMaster {
    UpdateFromMaster {
        client: UpdateFromMasterForClient {
            coords,
            updates: Updates {
                cells: CellUpdates(cells),
                stats,
            },
        },
        slave: blank_slave_state(coords),
    }
}

fn fresh_slave_session(coords: Coordinations, stats: Stats) -> slave::Session {
    let client = client::Session::blank(coords, stats);
    let server = slave::Server::new(blank_slave_state(coords));
    slave::Session::new(client, server)
}

#[test]
fn two_updates_equal_concatenated_update() {
    let coords = Coordinations::from_width_and_height(4, 3);
    let stats0 = Stats {
        mines_left: 2,
        lives_left: 3,
    };
    let uid = SessionUserID::new(2);
    let stats1 = Stats {
        mines_left: 2,
        lives_left: 3,
    };
    let stats2 = Stats {
        mines_left: 1,
        lives_left: 3,
    };
    let u1 = master_update(
        coords,
        vec![CellUpdate {
            coord: Coord { x: 1, y: 1 },
            cell: Cell::HintBy(minesweeper::game::Hint(2), uid),
        }],
        stats1,
    );
    let u2 = master_update(
        coords,
        vec![CellUpdate {
            coord: Coord { x: 2, y: 0 },
            cell: Cell::FlaggedBy(uid),
        }],
        stats2,
    );

    // one slave applies the two updates in arrival order
    let mut one_by_one = fresh_slave_session(coords, stats0);
    one_by_one.on_updates_from_master_to_slave(u1.clone());
    one_by_one.on_updates_from_master_to_slave(u2.clone());

    // the other applies their concatenation in a single step
    let joined = concatenate(u1.client.updates, u2.client.updates);
    let mut at_once = fresh_slave_session(coords, stats0);
    at_once.on_updates_from_master_to_slave(master_update(
        coords,
        joined.cells.0,
        joined.stats,
    ));

    assert_eq!(one_by_one.client().stats(), at_once.client().stats());
    for y in 0..3 {
        for x in 0..4 {
            let c = Coord { x, y };
            assert_eq!(
                one_by_one.client().get_cell(&c),
                at_once.client().get_cell(&c)
            );
        }
    }
}

#[test]
fn slave_relays_clicks_with_current_round() {
    let coords = Coordinations::from_width_and_height(4, 3);
    let session = fresh_slave_session(
        coords,
        Stats {
            mines_left: 2,
            lives_left: 3,
        },
    );
    let action = session.click_action(&Coord { x: 2, y: 1 }, true);
    assert_eq!(action.session, SessionID::new(9));
    assert_eq!(action.coord, Coord { x: 2, y: 1 });
    assert!(action.left);
}

fn alice_uid() -> SessionUserID {
    SessionUserID::new(7)
}

fn bob_uid() -> SessionUserID {
    SessionUserID::new(21)
}

fn create_namer() -> slave::Namer {
    let alice = UserName {
        uid: alice_uid(),
        name: "Alice".into(),
    };
    let bob = UserName {
        uid: bob_uid(),
        name: "Bob".into(),
    };
    let latest = UpdateFromMasterForNamer {
        names: UserNames(vec![alice, bob]),
    };
    slave::Namer { latest }
}

#[test]
fn namer_existing_alice() {
    let namer = create_namer();
    assert_eq!(namer.name(alice_uid()), "Alice");
}

#[test]
fn namer_existing_bob() {
    let namer = create_namer();
    assert_eq!(namer.name(bob_uid()), "Bob");
}
