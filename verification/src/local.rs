//! The single-player wiring: a session manager that remembers the chosen
//! configuration, and the server that feeds every local click to the
//! authoritative session and hands the result to an updates listener.

use vstd::prelude::*;

use crate::coordinations::Coord;
use crate::game;
use crate::game::{CellUpdate, CellUpdates, SessionConfig, SessionUserID, Status, Updates, UserStats};
use crate::session::Session;

verus! {

/// Hands out local sessions for one chosen configuration.
pub struct LocalSessionManager {
    config: SessionConfig,
}

impl LocalSessionManager {
    pub closed spec fn spec_config(&self) -> SessionConfig {
        self.config
    }

    pub fn new(config: SessionConfig) -> (r: Self)
        ensures
            r.spec_config() == config,
    {
        Self { config }
    }

    pub fn config(&self) -> (r: SessionConfig)
        ensures
            r == self.spec_config(),
    {
        self.config
    }
}

pub fn create_manager(cfg: SessionConfig) -> (r: LocalSessionManager)
    ensures
        r.spec_config() == cfg,
{
    LocalSessionManager::new(cfg)
}

/// Contains all data required to run a single-player game.
pub struct Server<L> where L: game::UpdatesListener {
    server: Session,
    local_updates_listener: L,
    uid: SessionUserID,
}

impl<L> Server<L> where L: game::UpdatesListener {
    pub closed spec fn spec_session(&self) -> Session {
        self.server
    }

    pub closed spec fn spec_uid(&self) -> SessionUserID {
        self.uid
    }

    pub closed spec fn spec_listener(&self) -> L {
        self.local_updates_listener
    }

    pub open spec fn wf(&self) -> bool {
        self.spec_session().wf()
    }

    pub fn new(server: Session, local_updates_listener: L, uid: SessionUserID) -> (r: Self)
        requires
            server.wf(),
        ensures
            r.wf(),
            r.spec_session() == server,
            r.spec_uid() == uid,
            r.spec_listener() == local_updates_listener,
    {
        Self { server, local_updates_listener, uid }
    }

    /// The sink this server feeds, for whoever renders it.
    pub fn listener(&self) -> (r: &L)
        ensures
            r == self.spec_listener(),
    {
        &self.local_updates_listener
    }

    pub fn status(&self) -> (r: Status)
        requires
            self.wf(),
        ensures
            r == self.spec_session().spec_status(),
    {
        self.server.status()
    }

    pub fn user_stats(&self) -> (r: UserStats)
        requires
            self.wf(),
        ensures
            crate::master::spec_stats_match(r, self.spec_session().spec_cells()),
    {
        self.server.user_stats()
    }

    pub fn coords(&self) -> (r: crate::coordinations::Coordinations)
        ensures
            r == self.spec_session().spec_coords(),
    {
        self.server.coords()
    }

    /// Pairs the click's cells with the fresh statistics and hands them to
    /// the listener.
    fn on_click(&mut self, cells: CellUpdates)
        requires
            old(self).wf(),
        ensures
            final(self).wf(),
            final(self).spec_session() == old(self).spec_session(),
            final(self).spec_uid() == old(self).spec_uid(),
    {
        let stats = self.server.stats();
        let updates = Updates { cells, stats };
        self.local_updates_listener.on_updates(updates)
    }
}

impl<L> game::LocalPlayerListener for Server<L> where L: game::UpdatesListener {
    open spec fn spec_ready(&self) -> bool {
        self.wf()
    }

    /// A click performs the session's uncover or toggle transition under
    /// this server's own identity.
    open spec fn spec_clicked(&self, post: Self, coord: Coord, left: bool) -> bool {
        &&& post.spec_uid() == self.spec_uid()
        &&& exists|out: Seq<CellUpdate>|
            crate::session::spec_click_transition(
                self.spec_session(),
                post.spec_session(),
                out,
                coord,
                self.spec_uid(),
                left,
            )
    }

    fn on_left_click(&mut self, coord: &Coord) {
        let uid = self.uid;
        let updates = self.server.uncover(coord, uid);
        let ghost out = updates.0@;
        self.on_click(updates);
        proof {
            assert(crate::session::spec_click_transition(
                old(self).spec_session(),
                self.spec_session(),
                out,
                *coord,
                old(self).spec_uid(),
                true,
            ));
        }
    }

    fn on_right_click(&mut self, coord: &Coord) {
        let uid = self.uid;
        let updates = self.server.toggle_mark(coord, uid);
        let ghost out = updates.0@;
        self.on_click(updates);
        proof {
            assert(crate::session::spec_click_transition(
                old(self).spec_session(),
                self.spec_session(),
                out,
                *coord,
                old(self).spec_uid(),
                false,
            ));
        }
    }
}

} // verus!
