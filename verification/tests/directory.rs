use minesweeper::coordinations::{Coord, Coordinations};
use minesweeper::game::{Lives, Mines, Namer as NamerTrait, SessionID, SessionUserID};
use minesweeper::master::Server;
use minesweeper::players::Players;
use minesweeper::protocol::{ActionFromSlave, PeerAddr, RequestFromSlave, UserNames};
use minesweeper::session::Session;

fn make_addr(port: u16) -> PeerAddr {
    PeerAddr { ip: 0, port }
}

fn create_players() -> Players {
    let mut p = Players::new(SessionUserID::new(3), "Cedric".into());
    p.try_add("Alice".into(), make_addr(1)).unwrap();
    p.try_add("Bob".into(), make_addr(2)).unwrap();
    p
}

#[test]
fn players_get_names() {
    let UserNames(names) = create_players().names();
    assert_eq!(names.len(), 3);
    let mut names = names.iter();
    assert_eq!(names.next().unwrap().name, "Cedric");
    assert_eq!(names.next().unwrap().name, "Alice");
    assert_eq!(names.next().unwrap().name, "Bob");
}

#[test]
fn players_resolve_addresses_and_names() {
    let players = create_players();
    assert_eq!(players.get_uid(&make_addr(1)), Some(SessionUserID::new(2)));
    assert_eq!(players.get_uid(&make_addr(2)), Some(SessionUserID::new(3)));
    assert_eq!(players.get_uid(&make_addr(5)), None);
    assert_eq!(players.name(SessionUserID::new(2)), "Alice");
}

#[test]
fn duplicate_address_is_refused() {
    let mut players = create_players();
    assert!(players.try_add("Clone".into(), make_addr(1)).is_none());
}

fn fresh_master() -> Server {
    let coords = Coordinations::from_width_and_height(3, 3);
    let session = Session::new(coords, Mines(1), Lives(3));
    Server::new(session, "Host".into())
}

#[test]
fn master_refuses_join_past_capacity_and_duplicate() {
    let mut server = fresh_master();
    // the master itself is the first of the ten participants, so nine
    // slaves may join, under identifiers 2 through 10
    for k in 0..9u16 {
        let reply = server.on_request_to_join(
            RequestFromSlave {
                name: format!("P{}", k),
            },
            make_addr(100 + k),
        );
        let (uid, message) = reply.expect("a join within capacity is accepted");
        assert_eq!(uid, SessionUserID::new(2 + k as u8));
        // the reply holds a full-board snapshot and the fresh directory
        assert_eq!(message.client.updates.cells.0.len(), 9);
        assert_eq!(message.slave.namer.names.0.len(), 2 + k as usize);
    }
    // a join that would make an eleventh participant is refused
    assert!(server
        .on_request_to_join(
            RequestFromSlave {
                name: "Late".into()
            },
            make_addr(200)
        )
        .is_none());
    // a duplicate join from an already-registered address is silently dropped
    assert!(server
        .on_request_to_join(RequestFromSlave { name: "Dup".into() }, make_addr(100))
        .is_none());
}

#[test]
fn stale_round_and_unknown_peer_are_discarded() {
    let mut server = fresh_master();
    let _ = server
        .on_request_to_join(
            RequestFromSlave {
                name: "Alice".into(),
            },
            make_addr(1),
        )
        .unwrap();
    let sid = server.session_id();
    let stale = SessionID::new(sid.value().wrapping_add(1));
    let coord = Coord { x: 0, y: 0 };
    // a stale round identifier is rejected
    assert!(server
        .on_action_from_slave(
            ActionFromSlave {
                session: stale,
                coord,
                left: false
            },
            make_addr(1)
        )
        .is_none());
    // an address that never joined is rejected
    assert!(server
        .on_action_from_slave(
            ActionFromSlave {
                session: sid,
                coord,
                left: false
            },
            make_addr(7)
        )
        .is_none());
    // a well-formed action is applied and broadcast material comes back
    let (updates, message) = server
        .on_action_from_slave(
            ActionFromSlave {
                session: sid,
                coord,
                left: false,
            },
            make_addr(1),
        )
        .expect("a valid action is applied");
    assert_eq!(updates.cells.0.len(), 1);
    assert_eq!(
        updates.cells.0[0].cell,
        minesweeper::game::Cell::FlaggedBy(SessionUserID::new(2))
    );
    assert_eq!(message.client.updates.cells.0.len(), 1);
    assert_eq!(message.slave.game.session, sid);
}
