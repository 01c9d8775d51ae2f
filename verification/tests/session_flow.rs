use minesweeper::client;
use minesweeper::coordinations::{Coord, Coordinations};
use minesweeper::game::{FieldProvider, Lives, Mines, LocalPlayerListener, SessionUserID, Status};
use minesweeper::local;
use minesweeper::session::Session;

#[test]
fn fresh_session_is_playing_with_full_stats() {
    let coords = Coordinations::from_width_and_height(3, 3);
    let s = Session::new(coords, Mines(2), Lives(3));
    assert!(matches!(s.status(), Status::Playing));
    let st = s.stats();
    assert_eq!(st.mines_left, 2);
    assert_eq!(st.lives_left, 3);
}

#[test]
fn mineless_board_first_uncover_wins() {
    let coords = Coordinations::from_width_and_height(2, 2);
    let mut s = Session::new(coords, Mines(0), Lives(1));
    assert!(matches!(s.status(), Status::Playing));
    let uid = SessionUserID::new(1);
    let ups = s.uncover(&Coord { x: 0, y: 0 }, uid);
    // the complete end-state snapshot replaces the triggering update
    assert_eq!(ups.0.len(), 4);
    assert!(matches!(s.status(), Status::Ended { success: true }));
    // once ended, further uncover and mark calls return no update
    assert_eq!(s.uncover(&Coord { x: 1, y: 1 }, uid).0.len(), 0);
    assert_eq!(s.toggle_mark(&Coord { x: 1, y: 1 }, uid).0.len(), 0);
}

#[test]
fn lives_exhausted_ends_in_loss() {
    let coords = Coordinations::from_width_and_height(2, 1);
    let mut s = Session::new(coords, Mines(1), Lives(1));
    let uid = SessionUserID::new(1);
    let first = s.uncover(&Coord { x: 0, y: 0 }, uid);
    assert!(first.0.len() >= 1);
    if !matches!(s.status(), Status::Ended { .. }) {
        let _ = s.uncover(&Coord { x: 1, y: 0 }, uid);
    }
    // the single shared life is gone the instant the mine explodes
    assert!(matches!(s.status(), Status::Ended { success: false }));
    assert_eq!(s.stats().lives_left, 0);
    assert_eq!(s.uncover(&Coord { x: 0, y: 0 }, uid).0.len(), 0);
}

#[test]
fn flagging_changes_mines_left() {
    let coords = Coordinations::from_width_and_height(3, 3);
    let mut s = Session::new(coords, Mines(2), Lives(3));
    let uid = SessionUserID::new(1);
    let ups = s.toggle_mark(&Coord { x: 0, y: 0 }, uid);
    assert_eq!(ups.0.len(), 1);
    assert_eq!(s.stats().mines_left, 1);
    // the question mark frees the flag again
    let _ = s.toggle_mark(&Coord { x: 0, y: 0 }, uid);
    assert_eq!(s.stats().mines_left, 2);
}

#[test]
fn session_snapshot_covers_the_board() {
    let coords = Coordinations::from_width_and_height(4, 2);
    let s = Session::new(coords, Mines(3), Lives(2));
    let all = s.all();
    assert_eq!(all.0.len(), 8);
    assert!(all
        .0
        .iter()
        .all(|u| u.cell == minesweeper::game::Cell::Covered));
}

#[test]
fn local_server_feeds_its_listener() {
    let coords = Coordinations::from_width_and_height(2, 2);
    let session = Session::new(coords, Mines(0), Lives(1));
    let mirror = client::Session::new(coords, Mines(0), Lives(1));
    let mut server = local::Server::new(session, mirror, SessionUserID::new(1));
    server.on_left_click(&Coord { x: 0, y: 0 });
    assert!(matches!(server.status(), Status::Ended { success: true }));
    // the end-state snapshot reached the listener's mirrored board
    let mirror = server.listener();
    for y in 0..2 {
        for x in 0..2 {
            assert_ne!(
                mirror.get_cell(&Coord { x, y }),
                minesweeper::game::Cell::Covered
            );
        }
    }
}
