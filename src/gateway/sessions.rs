use vstd::prelude::*;
use crate::runtime_storage::{DataTable, Record, Table, Commit, has_key, key_index, lookup, modified, removed, replaced};
use crate::game::rooms::{Departure, Error as RoomError, Room, leave_room, left_room};

verus! {

/// A connected account: its id and the room it is in, if any.
#[derive(Debug, Clone, PartialEq, Eq)]
pub struct User {
    pub uuid: u128,
    pub room: Option<String>,
    /// The live notification channel of the session, by number; a reconnect
    /// replaces it.
    pub connection: u64,
}

impl User {
    pub open spec fn new_spec(uuid: u128, connection: u64) -> User {
        User { uuid, room: None, connection }
    }

    pub fn new(uuid: u128, connection: u64) -> (r: User)
        ensures
            r == User::new_spec(uuid, connection),
    {
        User { uuid, room: None, connection }
    }

    pub fn uuid(&self) -> (r: u128)
        ensures
            r == self.uuid,
    {
        self.uuid
    }
}

/// Where a user stands with a room that they ask to enter.
#[derive(Debug, Clone, Copy, PartialEq, Eq, Structural)]
pub enum Entry {
    /// In no room: may join this one.
    Free,
    /// Already in this room.
    Inside,
    /// In another room: must leave it first.
    Elsewhere,
}

impl User {
    pub fn entry(&self, room_id: &String) -> (r: Entry)
        ensures
            self.room is None ==> r == Entry::Free,
            self.room matches Some(id) ==> (id@ == room_id@ ==> r == Entry::Inside) && (id@
                != room_id@ ==> r == Entry::Elsewhere),
    {
        match &self.room {
            None => Entry::Free,
            Some(id) => {
                if *id == *room_id {
                    Entry::Inside
                } else {
                    Entry::Elsewhere
                }
            },
        }
    }
}

impl Record for User {
    type Key = u128;

    open spec fn inv(&self) -> bool {
        true
    }

    open spec fn key(&self) -> u128 {
        self.uuid
    }

    fn key_is(&self, k: &u128) -> (r: bool) {
        self.uuid == *k
    }

    type Snapshot = User;

    open spec fn snapshot(&self) -> User {
        *self
    }

    fn take_snapshot(&self) -> (r: User) {
        User { uuid: self.uuid, room: self.room.clone(), connection: self.connection }
    }

    fn copy_key(&self) -> (r: u128) {
        self.uuid
    }
}

/// Identifies account `uuid` on the channel `connection`. A session that
/// is still there keeps its identity and its room, and its channel is
/// replaced by the new one; anyone else gets a new session. The session is
/// stored and handed back.
pub fn identify(users: &mut DataTable<User>, uuid: u128, connection: u64) -> (r: User)
    requires
        old(users).wf(),
    ensures
        final(users).wf(),
        r.uuid == uuid,
        r.connection == connection,
        lookup(old(users).rows(), uuid) matches Some(u) ==> r == (User { connection, ..u }),
        lookup(old(users).rows(), uuid) is None ==> r == User::new_spec(uuid, connection),
        final(users).rows() == replaced(old(users).rows(), r),
{
    let user = match users.get(&uuid) {
        Some(u) => User { uuid: u.uuid, room: u.room.clone(), connection },
        None => User::new(uuid, connection),
    };
    let stored = User { uuid: user.uuid, room: user.room.clone(), connection };
    users.replace(stored);
    user
}

/// After the grace delay that follows the close of channel `connection`:
/// unless a newer connection replaced it, the session of `uuid` ends and its
/// member leaves the room it was in (see `leave_room`: the last member to
/// leave closes the room). Says whether the session ended.
pub fn disconnect(users: &mut DataTable<User>, rooms: &mut DataTable<Room>, uuid: u128, connection: u64) -> (r: bool)
    requires
        old(users).wf(),
        old(rooms).wf(),
    ensures
        final(users).wf(),
        final(rooms).wf(),
        r == (lookup(old(users).rows(), uuid) matches Some(u) && u.connection == connection),
        !r ==> final(users).rows() == old(users).rows() && final(users).sent() == old(users).sent()
            && final(rooms).rows() == old(rooms).rows() && final(rooms).sent() == old(rooms).sent(),
        r ==> final(users).rows() == removed(old(users).rows(), uuid),
        r && !(lookup(old(users).rows(), uuid)->Some_0.room matches Some(id) && has_key(
            old(rooms).rows(),
            id@,
        )) ==> final(rooms).rows() == old(rooms).rows() && final(rooms).sent() == old(rooms).sent(),
        r && (lookup(old(users).rows(), uuid)->Some_0.room matches Some(id) && has_key(
            old(rooms).rows(),
            id@,
        )) ==> {
            let id = lookup(old(users).rows(), uuid)->Some_0.room->Some_0;
            exists|out: (Commit<Room>, Result<Departure, RoomError>)|
                #[trigger] left_room(
                    old(rooms).rows()[key_index(old(rooms).rows(), id@)],
                    uuid,
                    out,
                ) && modified(
                    old(rooms).rows(),
                    old(rooms).sent(),
                    id@,
                    out.0,
                    final(rooms).rows(),
                    final(rooms).sent(),
                )
        },
{
    let room = match users.get(&uuid) {
        Some(u) => {
            if u.connection != connection {
                return false;
            }
            u.room.clone()
        },
        None => {
            return false;
        },
    };
    users.remove(&uuid);
    match room {
        Some(id) => {
            let _ = leave_room(rooms, &id, uuid);
        },
        None => {},
    }
    true
}

} // verus!
