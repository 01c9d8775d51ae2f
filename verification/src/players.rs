//! The master's player directory: one entry per participant, added only by
//! a successful join and never removed.

use vstd::prelude::*;

use crate::game::{Namer, SessionUserID};
use crate::protocol::{PeerAddr, UserName, UserNames};
use crate::MAX_PLAYERS;

verus! {

/// One joined participant: identifier, display name, and the address its
/// datagrams come from.
#[derive(Debug)]
pub struct Player {
    pub uid: SessionUserID,
    pub name: String,
    pub addr: PeerAddr,
}

/// The directory: the master's own identity and name, then the slaves in
/// join order. Slave identifiers follow join order starting at 2.
#[derive(Debug)]
pub struct Players {
    my_uid: SessionUserID,
    my_name: String,
    slaves: Vec<Player>,
}

impl Players {
    pub closed spec fn spec_my_uid(&self) -> SessionUserID {
        self.my_uid
    }

    pub closed spec fn spec_my_name(&self) -> Seq<char> {
        self.my_name@
    }

    pub closed spec fn spec_slaves(&self) -> Seq<Player> {
        self.slaves@
    }

    /// Slave identifiers are 2, 3, ... in join order, and the directory -
    /// master included - never exceeds its capacity.
    pub open spec fn wf(&self) -> bool {
        &&& 1 + self.spec_slaves().len() <= MAX_PLAYERS as int
        &&& forall|j: int|
            0 <= j < self.spec_slaves().len() ==> (#[trigger] self.spec_slaves()[j]).uid
                == SessionUserID((2 + j) as u8)
    }

    /// Whether some joined slave already uses this address.
    pub open spec fn spec_addr_used(&self, addr: PeerAddr) -> bool {
        exists|j: int|
            0 <= j < self.spec_slaves().len() && (#[trigger] self.spec_slaves()[j]).addr == addr
    }

    pub fn new(my_uid: SessionUserID, my_name: String) -> (r: Self)
        ensures
            r.wf(),
            r.spec_my_uid() == my_uid,
            r.spec_my_name() == my_name@,
            r.spec_slaves().len() == 0,
    {
        let slaves = Vec::new();
        Self { my_uid, my_name, slaves }
    }

    /// Adds the participant if capacity remains and the address is unused,
    /// handing it the next identifier in join order; otherwise the request
    /// is silently refused.
    pub fn try_add(&mut self, name: String, addr: PeerAddr) -> (r: Option<SessionUserID>)
        requires
            old(self).wf(),
        ensures
            final(self).wf(),
            final(self).spec_my_uid() == old(self).spec_my_uid(),
            final(self).spec_my_name() == old(self).spec_my_name(),
            (r is Some) <==> (1 + old(self).spec_slaves().len() < MAX_PLAYERS as int && !old(
                self,
            ).spec_addr_used(addr)),
            r is None ==> final(self).spec_slaves() == old(self).spec_slaves(),
            r is Some ==> {
                let uid = SessionUserID((2 + old(self).spec_slaves().len()) as u8);
                &&& r == Some(uid)
                &&& final(self).spec_slaves() == old(self).spec_slaves().push(
                    Player { uid, name, addr },
                )
            },
    {
        let space_available = 1 + self.slaves.len() < MAX_PLAYERS as usize;
        let mut addr_in_use = false;
        let n = self.slaves.len();
        let mut k: usize = 0;
        while k < n
            invariant
                n == self.spec_slaves().len(),
                0 <= k <= n,
                addr_in_use <==> exists|j: int|
                    0 <= j < k && (#[trigger] self.spec_slaves()[j]).addr == addr,
            decreases n - k,
        {
            if self.slaves[k].addr == addr {
                addr_in_use = true;
            }
            k += 1;
        }
        if space_available && !addr_in_use {
            let uid = SessionUserID::new(2 + self.slaves.len() as u8);
            let player = Player { uid, name, addr };
            self.slaves.push(player);
            Some(uid)
        } else {
            None
        }
    }

    /// Every display name, the master's own first, then join order.
    pub fn names(&self) -> (r: UserNames)
        requires
            self.wf(),
        ensures
            r.0@.len() == 1 + self.spec_slaves().len(),
            r.0@[0].uid == self.spec_my_uid(),
            r.0@[0].name@ == self.spec_my_name(),
            forall|j: int|
                0 <= j < self.spec_slaves().len() ==> (#[trigger] r.0@[j + 1]).uid
                    == self.spec_slaves()[j].uid && r.0@[j + 1].name@ == self.spec_slaves()[j].name@,
    {
        let mut out: Vec<UserName> = Vec::new();
        out.push(UserName { uid: self.my_uid, name: self.my_name.clone() });
        let n = self.slaves.len();
        let mut k: usize = 0;
        while k < n
            invariant
                n == self.spec_slaves().len(),
                0 <= k <= n,
                out@.len() == 1 + k,
                out@[0].uid == self.spec_my_uid(),
                out@[0].name@ == self.spec_my_name(),
                forall|j: int|
                    0 <= j < k ==> (#[trigger] out@[j + 1]).uid == self.spec_slaves()[j].uid
                        && out@[j + 1].name@ == self.spec_slaves()[j].name@,
            decreases n - k,
        {
            let entry = &self.slaves[k];
            out.push(UserName { uid: entry.uid, name: entry.name.clone() });
            k += 1;
        }
        UserNames(out)
    }

    /// Resolves a peer's address to its identifier; an unknown address
    /// resolves to nothing.
    pub fn get_uid(&self, peer: &PeerAddr) -> (r: Option<SessionUserID>)
        ensures
            (r is Some) <==> self.spec_addr_used(*peer),
            r is Some ==> exists|j: int|
                0 <= j < self.spec_slaves().len() && (#[trigger] self.spec_slaves()[j]).addr
                    == *peer && self.spec_slaves()[j].uid == r->Some_0,
    {
        let n = self.slaves.len();
        let mut k: usize = 0;
        while k < n
            invariant
                n == self.spec_slaves().len(),
                0 <= k <= n,
                forall|j: int| 0 <= j < k ==> (#[trigger] self.spec_slaves()[j]).addr != *peer,
            decreases n - k,
        {
            let entry = &self.slaves[k];
            if entry.addr == *peer {
                return Some(entry.uid);
            }
            k += 1;
        }
        None
    }

    /// The joined slaves, for the broadcast fan-out.
    pub fn peers(&self) -> (r: &Vec<Player>)
        ensures
            r@ == self.spec_slaves(),
    {
        &self.slaves
    }
}

/// The display name of the first slave entry carrying `uid`.
pub open spec fn spec_slave_name(slaves: Seq<Player>, uid: SessionUserID) -> Seq<char>
    decreases slaves.len(),
{
    if slaves.len() == 0 {
        Seq::empty()
    } else if slaves.first().uid == uid {
        slaves.first().name@
    } else {
        spec_slave_name(slaves.drop_first(), uid)
    }
}

impl Namer for Players {
    open spec fn spec_knows(&self, uid: SessionUserID) -> bool {
        uid == self.spec_my_uid() || exists|j: int|
            0 <= j < self.spec_slaves().len() && (#[trigger] self.spec_slaves()[j]).uid == uid
    }

    open spec fn spec_name_of(&self, uid: SessionUserID) -> Seq<char> {
        if uid == self.spec_my_uid() {
            self.spec_my_name()
        } else {
            spec_slave_name(self.spec_slaves(), uid)
        }
    }

    fn name(&self, uid: SessionUserID) -> &str {
        if self.my_uid == uid {
            return self.my_name.as_str();
        }
        let n = self.slaves.len();
        let mut k: usize = 0;
        proof {
            assert(self.spec_slaves().skip(0) =~= self.spec_slaves());
        }
        while k < n
            invariant
                n == self.spec_slaves().len(),
                0 <= k <= n,
                uid != self.spec_my_uid(),
                self.spec_knows(uid),
                forall|j: int| 0 <= j < k ==> (#[trigger] self.spec_slaves()[j]).uid != uid,
                spec_slave_name(self.spec_slaves(), uid) == spec_slave_name(
                    self.spec_slaves().skip(k as int),
                    uid,
                ),
            decreases n - k,
        {
            let entry = &self.slaves[k];
            proof {
                assert(self.spec_slaves().skip(k as int).first() == self.spec_slaves()[k as int]);
            }
            if entry.uid == uid {
                return entry.name.as_str();
            }
            proof {
                assert(self.spec_slaves().skip(k as int).drop_first() =~= self.spec_slaves().skip(
                    k + 1,
                ));
            }
            k += 1;
        }
        proof {
            assert(false);
        }
        self.my_name.as_str()
    }
}

} // verus!
