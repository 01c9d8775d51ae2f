//! Shared game-state vocabulary: participant identifiers, cell snapshots as
//! a client renders them, aggregate statistics and the session status.

use vstd::prelude::*;

use crate::coordinations::Coord;

verus! {

/// Identifies one participant of a session: 1 is the master's own identity,
/// 2 onward follow join order, 0 stands for the system itself.
#[derive(Copy, Clone, Debug, Eq, PartialEq, Structural, Hash)]
pub struct SessionUserID(pub u8);

impl SessionUserID {
    pub fn new(uid: u8) -> (r: Self)
        ensures
            r == SessionUserID(uid),
    {
        Self(uid)
    }

    pub fn value(&self) -> (r: u8)
        ensures
            r == self.0,
    {
        self.0
    }
}

/// The identity that end-of-round revelation attributes a bare hint to.
pub open spec fn spec_system_uid() -> SessionUserID {
    SessionUserID(0)
}

pub fn system_uid() -> (r: SessionUserID)
    ensures
        r == spec_system_uid(),
{
    SessionUserID(0)
}

/// A non-mine cell's count of neighboring mines, between 0 and 8.
#[derive(Clone, Copy, Debug, Eq, PartialEq, Structural)]
pub struct Hint(pub u8);

/// How many mines a board is created with.
#[derive(Clone, Copy, Debug, Eq, PartialEq, Structural)]
pub struct Mines(pub u32);

/// How many lives the participants share.
#[derive(Clone, Copy, Debug, Eq, PartialEq, Structural)]
pub struct Lives(pub u32);

/// A cell as a participant sees it: the unit of state replication.
#[derive(Clone, Copy, Debug, PartialEq, Eq, Structural)]
pub enum Cell {
    Covered,
    HintBy(Hint, SessionUserID),
    FlaggedBy(SessionUserID),
    Mine,
    ExplodedBy(SessionUserID),
    FalseFlaggedBy(SessionUserID),
    QuestionMarked(SessionUserID),
}

/// Per-participant tallies derived from the board.
#[derive(Copy, Clone, Debug, Eq, PartialEq, Structural)]
pub struct UserStat {
    pub marked_correct: u32,
    pub marked_incorrect: u32,
    pub exploded: u32,
}

impl Default for UserStat {
    fn default() -> (r: Self)
        ensures
            r == (UserStat { marked_correct: 0, marked_incorrect: 0, exploded: 0 }),
    {
        UserStat { marked_correct: 0, marked_incorrect: 0, exploded: 0 }
    }
}

/// The tallies of every participant that has touched the board, each
/// identifier at most once.
#[derive(Clone, Debug)]
pub struct UserStats(pub Vec<(SessionUserID, UserStat)>);

impl UserStats {
    /// Identifiers appear at most once.
    pub open spec fn wf(&self) -> bool {
        forall|a: int, b: int|
            0 <= a < b < self.0@.len() ==> (#[trigger] self.0@[a]).0 != (#[trigger] self.0@[b]).0
    }

    pub open spec fn spec_has(&self, uid: SessionUserID) -> bool {
        exists|j: int| 0 <= j < self.0@.len() && (#[trigger] self.0@[j]).0 == uid
    }

    pub fn new() -> (r: Self)
        ensures
            r.0@.len() == 0,
            r.wf(),
    {
        UserStats(Vec::new())
    }

    /// The tally recorded for `uid`, or `None` for an unknown identifier.
    pub fn get(&self, uid: SessionUserID) -> (r: Option<UserStat>)
        ensures
            r is Some <==> self.spec_has(uid),
            r is Some ==> exists|j: int|
                0 <= j < self.0@.len() && #[trigger] self.0@[j] == (uid, r->Some_0),
    {
        let n = self.0.len();
        let mut k: usize = 0;
        while k < n
            invariant
                n == self.0@.len(),
                0 <= k <= n,
                forall|j: int| 0 <= j < k ==> (#[trigger] self.0@[j]).0 != uid,
            decreases n - k,
        {
            let (entry_uid, entry_stat) = self.0[k];
            if entry_uid == uid {
                return Some(entry_stat);
            }
            k += 1;
        }
        None
    }
}

/// Board-level statistics broadcast with every update.
#[derive(Debug, Copy, Clone, Eq, PartialEq, Structural)]
pub struct Stats {
    pub mines_left: i32,
    pub lives_left: u32,
}

/// Whether the round is still in play, and how it ended when it is not.
#[derive(Debug, Copy, Clone, Eq, PartialEq, Structural)]
pub enum Status {
    Playing,
    Ended { success: bool },
}

impl Status {
    pub fn done(&self) -> (r: bool)
        ensures
            r == (self matches Status::Ended { .. }),
    {
        match *self {
            Status::Playing => false,
            Status::Ended { .. } => true,
        }
    }
}

/// One cell's fresh snapshot together with its coordinate.
#[must_use]
#[derive(Debug, Clone, Copy, Eq, PartialEq, Structural)]
pub struct CellUpdate {
    pub cell: Cell,
    pub coord: Coord,
}

/// An ordered list of cell snapshots: the board part of one update message.
#[must_use]
#[derive(Debug, Clone)]
pub struct CellUpdates(pub Vec<CellUpdate>);

impl CellUpdates {
    pub fn one(update: CellUpdate) -> (r: Self)
        ensures
            r.0@ == seq![update],
    {
        Self(vec![update])
    }

    pub fn none() -> (r: Self)
        ensures
            r.0@ == Seq::<CellUpdate>::empty(),
    {
        Self(Vec::new())
    }

    /// An element-for-element copy of the list.
    pub fn duplicate(&self) -> (r: Self)
        ensures
            r.0@ == self.0@,
    {
        let n = self.0.len();
        let mut out: Vec<CellUpdate> = Vec::new();
        let mut k: usize = 0;
        while k < n
            invariant
                n == self.0@.len(),
                0 <= k <= n,
                out@ == self.0@.take(k as int),
            decreases n - k,
        {
            out.push(self.0[k]);
            proof {
                assert(self.0@.take(k + 1) =~= self.0@.take(k as int).push(self.0@[k as int]));
            }
            k += 1;
        }
        proof {
            assert(self.0@.take(n as int) =~= self.0@);
        }
        Self(out)
    }
}

/// What one authoritative mutation propagates: the changed cells and the
/// freshest statistics.
#[must_use]
#[derive(Debug, Clone)]
pub struct Updates {
    pub cells: CellUpdates,
    pub stats: Stats,
}

/// A single-cell variant of `Updates`.
#[must_use]
#[derive(Debug, Clone, Copy)]
pub struct Update {
    pub cell: CellUpdate,
    pub stats: Stats,
}

/// Discriminates board instances, so that an action aimed at a stale round
/// can be rejected.
#[derive(Copy, Clone, Debug, PartialEq, Eq, Structural)]
pub struct SessionID(pub u8);

impl SessionID {
    pub fn new(sid: u8) -> (r: Self)
        ensures
            r == SessionID(sid),
    {
        Self(sid)
    }

    pub fn value(&self) -> (r: u8)
        ensures
            r == self.0,
    {
        self.0
    }
}

/// What a session is created from: board dimensions, mine count, life count.
#[derive(Copy, Clone)]
pub struct SessionConfig {
    pub coords: crate::coordinations::Coordinations,
    pub mines: Mines,
    pub lives: Lives,
}

/// A sink for the updates that local actions produce.
pub trait UpdatesListener {
    fn on_updates(&mut self, updates: Updates);
}

/// A capability to issue a click at a coordinate.
pub trait LocalPlayerListener: Sized {
    /// Whether the listener is in a state fit to take a click.
    spec fn spec_ready(&self) -> bool;

    /// What one click does to the listener: each implementation states the
    /// transition it performs on its own state.
    spec fn spec_clicked(&self, post: Self, coord: Coord, left: bool) -> bool;

    fn on_left_click(&mut self, coord: &Coord)
        requires
            old(self).spec_ready(),
        ensures
            final(self).spec_ready(),
            old(self).spec_clicked(*final(self), *coord, true),
    ;

    fn on_right_click(&mut self, coord: &Coord)
        requires
            old(self).spec_ready(),
        ensures
            final(self).spec_ready(),
            old(self).spec_clicked(*final(self), *coord, false),
    ;
}

/// A capability to look a cell up by coordinate.
pub trait FieldProvider {
    /// Which coordinates the provider can answer for.
    spec fn spec_provides(&self, coord: Coord) -> bool;

    /// The cell the provider holds at a coordinate.
    spec fn spec_cell_at(&self, coord: Coord) -> Cell;

    fn get_cell(&self, coord: &Coord) -> (r: Cell)
        requires
            self.spec_provides(*coord),
        ensures
            r == self.spec_cell_at(*coord),
    ;
}

/// A capability to resolve a participant identifier to a display name.
pub trait Namer {
    /// Which identifiers the namer can resolve.
    spec fn spec_knows(&self, uid: SessionUserID) -> bool;

    /// The display name the namer's directory holds for an identifier.
    spec fn spec_name_of(&self, uid: SessionUserID) -> Seq<char>;

    fn name(&self, uid: SessionUserID) -> (r: &str)
        requires
            self.spec_knows(uid),
        ensures
            r@ == self.spec_name_of(uid),
    ;
}

} // verus!
