//! The master server: the authoritative session, a random round
//! identifier, and the player directory. Joins and remote actions mutate
//! the session and yield the messages to send; putting those messages on
//! the wire is the caller's business.

use vstd::prelude::*;

use crate::coordinations::Coord;
use crate::field;
use crate::game::{CellUpdates, Namer, SessionID, SessionUserID, Status, Updates, UserStats};
use crate::players::{Player, Players};
use crate::protocol::{
    ActionFromSlave, GameUpdateFromMasterForSlave, PeerAddr, RequestFromSlave, UpdateFromMaster,
    UpdateFromMasterForClient, UpdateFromMasterForNamer, UpdateFromMasterForSlave, UserNames,
};
use crate::session::Session;
use crate::MAX_PLAYERS;

verus! {

/// The per-participant tallies are exactly what the board shows.
pub open spec fn spec_stats_match(stats: UserStats, cells: Seq<field::Cell>) -> bool {
    &&& stats.wf()
    &&& forall|j: int|
        0 <= j < stats.0@.len() ==> field::spec_user_appears(cells, (#[trigger] stats.0@[j]).0)
            && stats.0@[j].1 == field::spec_user_stat(cells, stats.0@[j].0)
    &&& forall|uid: SessionUserID|
        #[trigger] field::spec_user_appears(cells, uid) ==> stats.spec_has(uid)
}

/// The name list is exactly the directory: master first, then join order.
pub open spec fn spec_names_match(names: UserNames, players: Players) -> bool {
    &&& names.0@.len() == 1 + players.spec_slaves().len()
    &&& names.0@[0].uid == players.spec_my_uid()
    &&& names.0@[0].name@ == players.spec_my_name()
    &&& forall|j: int|
        0 <= j < players.spec_slaves().len() ==> (#[trigger] names.0@[j + 1]).uid
            == players.spec_slaves()[j].uid && names.0@[j + 1].name@
            == players.spec_slaves()[j].name@
}

/// What every outgoing master update holds: the given cell delta, the
/// session's fresh statistics and status, the round identifier, and the
/// directory's tallies and names.
pub open spec fn spec_update_message(
    r: UpdateFromMaster,
    s: Session,
    players: Players,
    sid: SessionID,
    cells: Seq<crate::game::CellUpdate>,
) -> bool {
    &&& r.client.coords == s.spec_coords()
    &&& r.client.updates.cells.0@ == cells
    &&& r.client.updates.stats == s.spec_stats()
    &&& r.slave.game.coords == s.spec_coords()
    &&& r.slave.game.session == sid
    &&& r.slave.game.status == s.spec_status()
    &&& spec_stats_match(r.slave.game.stats, s.spec_cells())
    &&& spec_names_match(r.slave.namer.names, players)
}

/// The authoritative side of a networked round.
pub struct Server {
    session: Session,
    my_uid: SessionUserID,
    sessionid: SessionID,
    players: Players,
}

impl Server {
    pub closed spec fn spec_session(&self) -> Session {
        self.session
    }

    pub closed spec fn spec_players(&self) -> Players {
        self.players
    }

    pub closed spec fn spec_sessionid(&self) -> SessionID {
        self.sessionid
    }

    pub closed spec fn spec_my_uid(&self) -> SessionUserID {
        self.my_uid
    }

    pub open spec fn wf(&self) -> bool {
        &&& self.spec_session().wf()
        &&& self.spec_players().wf()
    }

    /// Opens the authoritative side of a round over a fresh session. The
    /// master itself is participant 1; the round identifier is drawn at
    /// random to tell this board apart from any earlier one.
    pub fn new(session: Session, name: String) -> (r: Self)
        requires
            session.wf(),
        ensures
            r.wf(),
            r.spec_session() == session,
            r.spec_my_uid() == SessionUserID(1),
            r.spec_players().spec_my_uid() == SessionUserID(1),
            r.spec_players().spec_my_name() == name@,
            r.spec_players().spec_slaves().len() == 0,
    {
        let my_uid = SessionUserID::new(1);
        let sessionid = SessionID::new(crate::rng::random_byte());
        let players = Players::new(my_uid, name);
        Self { session, my_uid, sessionid, players }
    }

    pub fn status(&self) -> (r: Status)
        requires
            self.wf(),
        ensures
            r == self.spec_session().spec_status(),
    {
        self.session.status()
    }

    pub fn coords(&self) -> (r: crate::coordinations::Coordinations)
        ensures
            r == self.spec_session().spec_coords(),
    {
        self.session.coords()
    }

    pub fn user_stats(&self) -> (r: UserStats)
        requires
            self.wf(),
        ensures
            spec_stats_match(r, self.spec_session().spec_cells()),
    {
        self.session.user_stats()
    }

    pub fn session_id(&self) -> (r: SessionID)
        ensures
            r == self.spec_sessionid(),
    {
        self.sessionid
    }

    /// The joined slaves: whom a broadcast goes out to.
    pub fn peers(&self) -> (r: &Vec<Player>)
        ensures
            r@ == self.spec_players().spec_slaves(),
    {
        self.players.peers()
    }

    /// Assembles the update that carries `cells` to a participant.
    fn create_update_message(&self, cells: CellUpdates) -> (r: UpdateFromMaster)
        requires
            self.wf(),
        ensures
            spec_update_message(
                r,
                self.spec_session(),
                self.spec_players(),
                self.spec_sessionid(),
                cells.0@,
            ),
    {
        let stats = self.session.stats();
        let updates = Updates { cells, stats };
        let client = UpdateFromMasterForClient { coords: self.session.coords(), updates };
        let game = GameUpdateFromMasterForSlave {
            coords: self.session.coords(),
            session: self.sessionid,
            status: self.session.status(),
            stats: self.session.user_stats(),
        };
        let namer = UpdateFromMasterForNamer { names: self.players.names() };
        let slave = UpdateFromMasterForSlave { game, namer };
        UpdateFromMaster { client, slave }
    }

    /// Takes a join request: if capacity remains and the address is
    /// unused, the slave is added under the next identifier and the reply
    /// - a full-board snapshot plus the fresh directory, for that address
    /// alone - is returned. Otherwise nothing changes and no reply goes
    /// out.
    pub fn on_request_to_join(&mut self, request: RequestFromSlave, addr: PeerAddr) -> (r: Option<
        (SessionUserID, UpdateFromMaster),
    >)
        requires
            old(self).wf(),
        ensures
            final(self).wf(),
            final(self).spec_session() == old(self).spec_session(),
            final(self).spec_sessionid() == old(self).spec_sessionid(),
            final(self).spec_my_uid() == old(self).spec_my_uid(),
            final(self).spec_players().spec_my_uid() == old(self).spec_players().spec_my_uid(),
            final(self).spec_players().spec_my_name() == old(self).spec_players().spec_my_name(),
            (r is Some) <==> (1 + old(self).spec_players().spec_slaves().len()
                < MAX_PLAYERS as int && !old(self).spec_players().spec_addr_used(addr)),
            r is None ==> final(self).spec_players().spec_slaves() == old(
                self,
            ).spec_players().spec_slaves(),
            r is Some ==> {
                let uid = SessionUserID(
                    (2 + old(self).spec_players().spec_slaves().len()) as u8,
                );
                &&& r->Some_0.0 == uid
                &&& final(self).spec_players().spec_slaves() == old(
                    self,
                ).spec_players().spec_slaves().push(Player { uid, name: request.name, addr })
                &&& spec_update_message(
                    r->Some_0.1,
                    final(self).spec_session(),
                    final(self).spec_players(),
                    final(self).spec_sessionid(),
                    field::spec_all_updates(
                        final(self).spec_session().spec_cells(),
                        final(self).spec_session().spec_coords(),
                    ),
                )
            },
    {
        let RequestFromSlave { name } = request;
        match self.players.try_add(name, addr) {
            Some(player_uid) => {
                let all = self.session.all();
                let reply = self.create_update_message(all);
                Some((player_uid, reply))
            },
            None => None,
        }
    }

    /// One click by a known participant: the uncover or toggle runs on the
    /// authoritative session, and both the local updates and the broadcast
    /// message carrying them come back.
    pub fn on_click_id(&mut self, uid: SessionUserID, coord: &Coord, left: bool) -> (r: (
        Updates,
        UpdateFromMaster,
    ))
        requires
            old(self).wf(),
        ensures
            final(self).wf(),
            final(self).spec_sessionid() == old(self).spec_sessionid(),
            final(self).spec_my_uid() == old(self).spec_my_uid(),
            final(self).spec_players() == old(self).spec_players(),
            crate::session::spec_click_transition(
                old(self).spec_session(),
                final(self).spec_session(),
                r.0.cells.0@,
                *coord,
                uid,
                left,
            ),
            r.0.stats == final(self).spec_session().spec_stats(),
            spec_update_message(
                r.1,
                final(self).spec_session(),
                final(self).spec_players(),
                final(self).spec_sessionid(),
                r.0.cells.0@,
            ),
    {
        let cells = if left {
            self.session.uncover(coord, uid)
        } else {
            self.session.toggle_mark(coord, uid)
        };
        let cells_for_message = cells.duplicate();
        let stats = self.session.stats();
        let updates = Updates { cells, stats };
        let message = self.create_update_message(cells_for_message);
        (updates, message)
    }

    /// The master's own left click, under its own identity.
    pub fn on_left_click(&mut self, coord: &Coord) -> (r: (Updates, UpdateFromMaster))
        requires
            old(self).wf(),
        ensures
            final(self).wf(),
            crate::session::spec_click_transition(
                old(self).spec_session(),
                final(self).spec_session(),
                r.0.cells.0@,
                *coord,
                old(self).spec_my_uid(),
                true,
            ),
    {
        let uid = self.my_uid;
        self.on_click_id(uid, coord, true)
    }

    /// The master's own right click, under its own identity.
    pub fn on_right_click(&mut self, coord: &Coord) -> (r: (Updates, UpdateFromMaster))
        requires
            old(self).wf(),
        ensures
            final(self).wf(),
            crate::session::spec_click_transition(
                old(self).spec_session(),
                final(self).spec_session(),
                r.0.cells.0@,
                *coord,
                old(self).spec_my_uid(),
                false,
            ),
    {
        let uid = self.my_uid;
        self.on_click_id(uid, coord, false)
    }

    /// Takes an action relayed by a slave. An action that names a stale
    /// round, or comes from an address that never joined, is silently
    /// discarded; otherwise the sender's identifier is resolved and the
    /// click is applied, yielding the updates and the broadcast message.
    pub fn on_action_from_slave(&mut self, action: ActionFromSlave, addr: PeerAddr) -> (r: Option<
        (Updates, UpdateFromMaster),
    >)
        requires
            old(self).wf(),
        ensures
            final(self).wf(),
            final(self).spec_sessionid() == old(self).spec_sessionid(),
            final(self).spec_my_uid() == old(self).spec_my_uid(),
            final(self).spec_players() == old(self).spec_players(),
            (r is Some) <==> (action.session == old(self).spec_sessionid() && old(
                self,
            ).spec_players().spec_addr_used(addr)),
            r is None ==> final(self).spec_session() == old(self).spec_session(),
            r is Some ==> exists|uid: SessionUserID|
                {
                    &&& #[trigger] old(self).spec_players().spec_knows(uid)
                    &&& exists|j: int|
                        0 <= j < old(self).spec_players().spec_slaves().len() && (#[trigger] old(
                            self,
                        ).spec_players().spec_slaves()[j]).addr == addr && old(
                            self,
                        ).spec_players().spec_slaves()[j].uid == uid
                    &&& crate::session::spec_click_transition(
                        old(self).spec_session(),
                        final(self).spec_session(),
                        r->Some_0.0.cells.0@,
                        action.coord,
                        uid,
                        action.left,
                    )
                    &&& r->Some_0.0.stats == final(self).spec_session().spec_stats()
                    &&& spec_update_message(
                        r->Some_0.1,
                        final(self).spec_session(),
                        final(self).spec_players(),
                        final(self).spec_sessionid(),
                        r->Some_0.0.cells.0@,
                    )
                },
    {
        let ActionFromSlave { session, coord, left } = action;
        if session != self.sessionid {
            return None;
        }
        let uid = match self.players.get_uid(&addr) {
            Some(uid) => uid,
            None => {
                return None;
            },
        };
        proof {
            let players0 = old(self).spec_players();
            let j = choose|j: int|
                0 <= j < players0.spec_slaves().len() && (#[trigger] players0.spec_slaves()[j]).addr
                    == addr && players0.spec_slaves()[j].uid == uid;
            assert(0 <= j < players0.spec_slaves().len() && players0.spec_slaves()[j].uid == uid);
            assert(players0.spec_knows(uid));
        }
        let result = self.on_click_id(uid, &coord, left);
        Some(result)
    }
}

} // verus!
