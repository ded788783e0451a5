use vstd::prelude::*;
use crate::runtime_storage::Record;

verus! {

/// A member of a room: ready or not, and the points of the games played in
/// it.
#[derive(Debug, Clone, Copy, PartialEq, Eq, Structural)]
pub struct Player {
    pub id: u128,
    pub is_ready: bool,
    pub points: u64,
}

impl Player {
    pub open spec fn new_spec(id: u128) -> Player {
        Player { id, is_ready: false, points: 0 }
    }

    pub fn new(id: u128) -> (r: Player)
        ensures
            r == Player::new_spec(id),
    {
        Player { id, is_ready: false, points: 0 }
    }
}

impl Record for Player {
    type Key = u128;

    open spec fn inv(&self) -> bool {
        true
    }

    open spec fn key(&self) -> u128 {
        self.id
    }

    fn key_is(&self, k: &u128) -> (r: bool) {
        self.id == *k
    }

    type Snapshot = Player;

    open spec fn snapshot(&self) -> Player {
        *self
    }

    fn take_snapshot(&self) -> (r: Player) {
        *self
    }

    fn copy_key(&self) -> (r: u128) {
        self.id
    }
}

} // verus!
