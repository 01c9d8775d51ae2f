//! What travels between master and slaves: join requests, click actions,
//! the update fan-out, and the batching of several updates into one.

use vstd::prelude::*;

use crate::coordinations::{Coord, Coordinations};
use crate::game::{CellUpdates, SessionID, SessionUserID, Stats, Status, Updates, UserStats};

verus! {

/// A participant's address as the transport identifies it: enough to tell
/// two peers apart and to answer one of them.
#[derive(Clone, Copy, Debug, PartialEq, Eq, Structural, Hash)]
pub struct PeerAddr {
    pub ip: u128,
    pub port: u16,
}

/// One participant's display name.
#[derive(Clone, Debug)]
pub struct UserName {
    pub uid: SessionUserID,
    pub name: String,
}

/// The whole directory's names, master first, then join order.
#[derive(Clone, Debug)]
pub struct UserNames(pub Vec<UserName>);

/// The part of a master update that feeds the mirrored board.
#[derive(Clone, Debug)]
pub struct UpdateFromMasterForClient {
    pub coords: Coordinations,
    pub updates: Updates,
}

/// The part of a master update that feeds name lookup.
#[derive(Clone, Debug)]
pub struct UpdateFromMasterForNamer {
    pub names: UserNames,
}

/// The part of a master update that feeds the slave's round state.
#[derive(Clone, Debug)]
pub struct GameUpdateFromMasterForSlave {
    pub coords: Coordinations,
    pub session: SessionID,
    pub status: Status,
    pub stats: UserStats,
}

#[derive(Clone, Debug)]
pub struct UpdateFromMasterForSlave {
    pub game: GameUpdateFromMasterForSlave,
    pub namer: UpdateFromMasterForNamer,
}

/// The sole unit of state propagation from authoritative to mirrored
/// state.
#[derive(Clone, Debug)]
pub struct UpdateFromMaster {
    pub client: UpdateFromMasterForClient,
    pub slave: UpdateFromMasterForSlave,
}

/// A click a slave relays to the master, tagged with the round it aims at.
#[derive(Debug, Clone, Copy)]
pub struct ActionFromSlave {
    pub session: SessionID,
    pub coord: Coord,
    pub left: bool,
}

/// A slave's wish to join, carrying only its display name.
#[derive(Debug, Clone)]
pub struct RequestFromSlave {
    pub name: String,
}

/// Either thing a slave can send.
#[derive(Debug)]
pub enum MessageFromSlave {
    Join(RequestFromSlave),
    Action(ActionFromSlave),
}

/// Whether a datagram left the socket whole.
pub enum MessageSent {
    Yes,
    No,
}

/// The reusable buffer a transport serializes into and receives into.
pub struct MessengerBuffer(pub Vec<u8>);

impl MessengerBuffer {
    pub fn new() -> (r: Self)
        ensures
            r.0@.len() == 0,
    {
        let buffer = Vec::new();
        Self(buffer)
    }
}

/// Joins two update batches into one: the cell lists are appended and the
/// later batch's statistics win.
pub fn concatenate(record: Updates, new: Updates) -> (r: Updates)
    ensures
        r.cells.0@ == record.cells.0@ + new.cells.0@,
        r.stats == new.stats,
{
    let Updates { cells: CellUpdates(mut record_cells), stats: _ } = record;
    let Updates { cells: CellUpdates(new_cells), stats } = new;
    let mut tail = new_cells;
    record_cells.append(&mut tail);
    let cells = CellUpdates(record_cells);
    Updates { cells, stats }
}

/// Folds one more batch into the record of what this frame produced:
/// nothing changes on `None`, a first batch is kept whole, and a further
/// batch is concatenated onto the record.
pub fn aggregate(record: &mut Option<Updates>, new: Option<Updates>)
    ensures
        match (*old(record), new) {
            (None, None) => (*final(record)) is None,
            (Some(_), None) => *final(record) == *old(record),
            (None, Some(_)) => *final(record) == new,
            (Some(a), Some(b)) => {
                &&& (*final(record)) is Some
                &&& (*final(record))->Some_0.cells.0@ == a.cells.0@ + b.cells.0@
                &&& (*final(record))->Some_0.stats == b.stats
            },
        },
{
    let prev = record.take();
    *record = match (prev, new) {
        (prev, None) => prev,
        (None, new) => new,
        (Some(prev_updates), Some(new_updates)) => Some(concatenate(prev_updates, new_updates)),
    };
}

} // verus!
