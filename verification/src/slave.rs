//! The slave side: a read-only mirror of the master's round state, a
//! namer fed by directory snapshots, and the relay that turns a local
//! click into an action message tagged with the current round.

use vstd::prelude::*;

use crate::client;
use crate::coordinations::Coord;
use crate::game;
use crate::game::{SessionUserID, Status, UserStat, UserStats};
use crate::protocol::{
    ActionFromSlave, GameUpdateFromMasterForSlave, UpdateFromMaster, UpdateFromMasterForClient,
    UpdateFromMasterForNamer, UpdateFromMasterForSlave,
};

verus! {

/// Resolves identifiers to names out of the latest directory snapshot the
/// master sent.
pub struct Namer {
    pub latest: UpdateFromMasterForNamer,
}

/// The display name of the first directory entry carrying `uid`.
pub open spec fn spec_entry_name(
    names: Seq<crate::protocol::UserName>,
    uid: SessionUserID,
) -> Seq<char>
    decreases names.len(),
{
    if names.len() == 0 {
        Seq::empty()
    } else if names.first().uid == uid {
        names.first().name@
    } else {
        spec_entry_name(names.drop_first(), uid)
    }
}

impl game::Namer for Namer {
    open spec fn spec_knows(&self, uid: SessionUserID) -> bool {
        exists|j: int|
            0 <= j < self.latest.names.0@.len() && (#[trigger] self.latest.names.0@[j]).uid == uid
    }

    open spec fn spec_name_of(&self, uid: SessionUserID) -> Seq<char> {
        spec_entry_name(self.latest.names.0@, uid)
    }

    fn name(&self, uid: SessionUserID) -> &str {
        let n = self.latest.names.0.len();
        let mut k: usize = 0;
        proof {
            assert(self.latest.names.0@.skip(0) =~= self.latest.names.0@);
        }
        while k < n
            invariant
                n == self.latest.names.0@.len(),
                0 <= k <= n,
                self.spec_knows(uid),
                forall|j: int| 0 <= j < k ==> (#[trigger] self.latest.names.0@[j]).uid != uid,
                spec_entry_name(self.latest.names.0@, uid) == spec_entry_name(
                    self.latest.names.0@.skip(k as int),
                    uid,
                ),
            decreases n - k,
        {
            let entry = &self.latest.names.0[k];
            proof {
                assert(self.latest.names.0@.skip(k as int).first() == self.latest.names.0@[
                    k as int]);
            }
            if entry.uid == uid {
                return entry.name.as_str();
            }
            proof {
                assert(self.latest.names.0@.skip(k as int).drop_first()
                    =~= self.latest.names.0@.skip(k + 1));
            }
            k += 1;
        }
        proof {
            assert(false);
        }
        self.latest.names.0[0].name.as_str()
    }
}

/// The slave's round state: whatever the master last said, plus the relay
/// that stamps outgoing clicks with the current round.
pub struct Server {
    latest: GameUpdateFromMasterForSlave,
    namer: Namer,
}

impl Server {
    pub closed spec fn spec_latest(&self) -> GameUpdateFromMasterForSlave {
        self.latest
    }

    pub closed spec fn spec_namer(&self) -> Namer {
        self.namer
    }

    /// Starts from the join reply's snapshot.
    pub fn new(initial: UpdateFromMasterForSlave) -> (r: Self)
        ensures
            r.spec_latest() == initial.game,
            r.spec_namer().latest == initial.namer,
    {
        let UpdateFromMasterForSlave { game: initial_game, namer: initial_namer } = initial;
        let namer = Namer { latest: initial_namer };
        Self { latest: initial_game, namer }
    }

    pub fn status(&self) -> (r: Status)
        ensures
            r == self.spec_latest().status,
    {
        self.latest.status
    }

    pub fn coords(&self) -> (r: crate::coordinations::Coordinations)
        ensures
            r == self.spec_latest().coords,
    {
        self.latest.coords
    }

    pub fn user_stats(&self) -> (r: UserStats)
        ensures
            r.0@ == self.spec_latest().stats.0@,
    {
        let n = self.latest.stats.0.len();
        let mut out: Vec<(SessionUserID, UserStat)> = Vec::new();
        let mut k: usize = 0;
        while k < n
            invariant
                n == self.latest.stats.0@.len(),
                0 <= k <= n,
                out@ == self.latest.stats.0@.take(k as int),
            decreases n - k,
        {
            out.push(self.latest.stats.0[k]);
            proof {
                assert(self.latest.stats.0@.take(k + 1) =~= self.latest.stats.0@.take(
                    k as int,
                ).push(self.latest.stats.0@[k as int]));
            }
            k += 1;
        }
        proof {
            assert(self.latest.stats.0@.take(n as int) =~= self.latest.stats.0@);
        }
        UserStats(out)
    }

    /// The namer view of the latest directory snapshot.
    pub fn namer(&self) -> (r: &Namer)
        ensures
            r == self.spec_namer(),
    {
        &self.namer
    }

    /// The action message a local click becomes: the clicked coordinate,
    /// stamped with the round the slave believes it is playing.
    pub fn click_action(&self, coord: &Coord, left: bool) -> (r: ActionFromSlave)
        ensures
            r == (ActionFromSlave { session: self.spec_latest().session, coord: *coord, left }),
    {
        ActionFromSlave { session: self.latest.session, coord: *coord, left }
    }

    /// Replaces the round state and the directory snapshot with what the
    /// master just sent, in arrival order.
    pub fn on_updates_from_master(&mut self, update: UpdateFromMasterForSlave)
        ensures
            final(self).spec_latest() == update.game,
            final(self).spec_namer().latest == update.namer,
    {
        let UpdateFromMasterForSlave { game, namer } = update;
        self.latest = game;
        self.namer.latest = namer;
    }
}

/// The whole slave session: the mirrored board plus the round state.
pub struct Session {
    client: client::Session,
    server: Server,
}

impl Session {
    pub closed spec fn spec_client(&self) -> client::Session {
        self.client
    }

    pub closed spec fn spec_server(&self) -> Server {
        self.server
    }

    pub fn new(client: client::Session, server: Server) -> (r: Self)
        ensures
            r.spec_client() == client,
            r.spec_server() == server,
    {
        Self { client, server }
    }

    pub fn client(&self) -> (r: &client::Session)
        ensures
            r == self.spec_client(),
    {
        &self.client
    }

    pub fn server(&self) -> (r: &Server)
        ensures
            r == self.spec_server(),
    {
        &self.server
    }

    /// The relay for a local click, stamped with the current round.
    pub fn click_action(&self, coord: &Coord, left: bool) -> (r: ActionFromSlave)
        ensures
            r == (ActionFromSlave {
                session: self.spec_server().spec_latest().session,
                coord: *coord,
                left,
            }),
    {
        self.server.click_action(coord, left)
    }

    /// Applies one incoming master update whole: first the slave's round
    /// state and directory, then the mirrored cells in arrival order.
    pub fn on_updates_from_master_to_slave(&mut self, update: UpdateFromMaster)
        ensures
            final(self).spec_server().spec_latest() == update.slave.game,
            final(self).spec_server().spec_namer().latest == update.slave.namer,
            final(self).spec_client().spec_coords() == old(self).spec_client().spec_coords(),
            final(self).spec_client().spec_stats() == update.client.updates.stats,
            final(self).spec_client().spec_cells() == client::spec_apply_updates(
                old(self).spec_client().spec_cells(),
                old(self).spec_client().spec_coords(),
                update.client.updates.cells.0@,
            ),
    {
        let UpdateFromMaster { client: client_update, slave: slave_update } = update;
        self.server.on_updates_from_master(slave_update);
        let UpdateFromMasterForClient { coords: _, updates } = client_update;
        self.client.on_updates(updates);
    }
}

/// Derives the mirrored board once from the join reply: a covered board
/// of the advertised dimensions, with the reply's updates applied.
pub fn create_client_session_from_updates_from_master(update: UpdateFromMasterForClient) -> (r:
    client::Session)
    requires
        update.coords.wf(),
    ensures
        r.spec_coords() == update.coords,
        r.spec_stats() == update.updates.stats,
        r.spec_cells() == client::spec_apply_updates(
            Seq::new(update.coords.spec_size() as nat, |i: int| game::Cell::Covered),
            update.coords,
            update.updates.cells.0@,
        ),
{
    let UpdateFromMasterForClient { coords, updates } = update;
    let mut session = client::Session::blank(coords, updates.stats);
    proof {
        assert(session.spec_cells() =~= Seq::new(
            coords.spec_size() as nat,
            |i: int| game::Cell::Covered,
        ));
    }
    session.on_updates(updates);
    session
}

} // verus!
