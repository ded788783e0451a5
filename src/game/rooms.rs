pub mod player;

use vstd::prelude::*;
use vstd::string::StrSliceExecFns;
use crate::runtime_storage::{
    DataTable, Notice, NoticeView, Record, SharedTable, Table, Change, Commit, has_key,
    removed, replaced, shared_notice, own_notice, key_index, modified,
};
use super::gameplay::{self, Game, GameState, Outcome, play_spec, outcome_view, fresh_game};
use super::gameplay::card::{Card, dealt_card};
use super::gameplay::player::Loser;
use player::Player;

verus! {

/// The longest password a room takes, in characters.
pub const MAX_PASSWORD: usize = 32;

/// Which setting of a room was refused.
#[derive(Debug, Clone, Copy, PartialEq, Eq, Structural)]
pub enum Argument {
    Name,
    Password,
    MaxPlayers,
}

/// Why a room refused an action.
#[derive(Debug, Clone, Copy, PartialEq, Eq, Structural)]
pub enum Error {
    PlayerNotInRoom,
    BadArgument(Argument),
    WrongPassword,
    NotOwner,
    CantAssignNewOwner,
    NoGame,
    GameAlreadyStarted,
    Full,
    Game(gameplay::Error),
    RoomNotFound,
    NoFreeId,
}

/// What became of a room after a member left it.
#[derive(Debug, Clone, Copy, PartialEq, Eq, Structural)]
pub enum Departure {
    /// A member who did not own the room left.
    Left,
    /// The owner left, and the first remaining member owns the room now.
    OwnerChanged,
    /// The last member left, and the room is gone.
    Closed,
}

/// How many fresh ids a new room tries before it gives up.
pub const ID_ATTEMPTS: u32 = 100;

/// A short account of a room, for lists: whether it has a password and how
/// many members it has, not who they are.
#[derive(Debug, Clone, PartialEq, Eq)]
pub struct Partial {
    pub id: String,
    pub name: String,
    pub is_public: bool,
    pub password: bool,
    pub owner: u128,
    pub max_players: usize,
    pub players: usize,
    pub game: bool,
}

/// Relies on random_string's `generate`: a string of `length` characters,
/// each taken from the characters of `charset` (which must not be empty).
#[verifier::external_body]
fn random_digits() -> (r: String)
    ensures
        r@.len() == 6,
        forall|i: int| 0 <= i < 6 ==> '0' <= #[trigger] r@[i] <= '9',
{
    random_string::generate(6, "0123456789")
}

/// What a room is.
pub struct RoomState {
    pub id: Seq<char>,
    pub name: Seq<char>,
    pub is_public: bool,
    pub password: Option<Seq<char>>,
    pub owner: u128,
    pub max_players: nat,
    pub players: Seq<Player>,
    pub game: Option<GameState>,
}

/// A lobby: its settings, its members and the game it is playing, if any.
#[derive(Debug, Clone)]
pub struct Room {
    id: String,
    name: String,
    pub is_public: bool,
    password: Option<String>,
    owner: u128,
    max_players: usize,
    players: DataTable<Player>,
    game: Option<Game>,
}

pub open spec fn password_view(p: Option<String>) -> Option<Seq<char>> {
    match p {
        Some(s) => Some(s@),
        None => None,
    }
}

impl View for Room {
    type V = RoomState;

    closed spec fn view(&self) -> RoomState {
        RoomState {
            id: self.id@,
            name: self.name@,
            is_public: self.is_public,
            password: password_view(self.password),
            owner: self.owner,
            max_players: self.max_players as nat,
            players: self.players.rows(),
            game: match self.game {
                Some(g) => Some(g@),
                None => None,
            },
        }
    }
}

/// A room id: six decimal digits.
pub open spec fn room_id_ok(id: Seq<char>) -> bool {
    id.len() == 6 && forall|i: int| 0 <= i < 6 ==> '0' <= #[trigger] id[i] <= '9'
}

/// The password a room keeps when given `p`: none for an empty one.
pub open spec fn kept_password(p: Seq<char>) -> Option<Seq<char>> {
    if p.len() == 0 {
        None
    } else {
        Some(p)
    }
}

pub open spec fn password_too_long(p: Option<String>) -> bool {
    p matches Some(s) && s@.len() > MAX_PASSWORD
}

/// Whether a game is being played and is not over.
pub open spec fn in_game(r: RoomState) -> bool {
    r.game matches Some(g) && !g.finished
}

/// Whether `given` opens a room locked with `password`.
pub open spec fn password_opens(password: Option<Seq<char>>, given: Option<String>) -> bool {
    match password {
        None => true,
        Some(p) => given matches Some(g) && g@ == p,
    }
}

/// A member after the end of a game: not ready, with the points of `l`
/// added (held at `u64::MAX`).
pub open spec fn settled(p: Player, l: Loser) -> Player {
    Player {
        is_ready: false,
        points: if p.points + l.points > u64::MAX {
            u64::MAX
        } else {
            (p.points + l.points) as u64
        },
        ..p
    }
}

/// The members after each player of `losers`, in order, was settled.
pub open spec fn settle_all(rows: Seq<Player>, losers: Seq<Loser>) -> Seq<Player>
    decreases losers.len(),
{
    if losers.len() == 0 {
        rows
    } else {
        let before = settle_all(rows, losers.drop_last());
        let l = losers.last();
        if has_key(before, l.id) {
            replaced(before, settled(before[key_index(before, l.id)], l))
        } else {
            before
        }
    }
}

/// Whether `after` and `r` are what a play by `player_id` of `card_id` in
/// the game of `before` gives, with `d` the cards dealt from the deck.
pub open spec fn played(
    before: RoomState,
    after: RoomState,
    r: Result<Outcome, Error>,
    player_id: u128,
    card_id: Option<usize>,
    d: Seq<Card>,
) -> bool {
    let (next, res) = play_spec(before.game->Some_0, player_id, card_id, d);
    &&& forall|k: int| 0 <= k < d.len() ==> dealt_card(#[trigger] d[k])
    &&& after.game == Some(next)
    &&& res is Err ==> r == Err::<Outcome, Error>(Error::Game(res->Err_0))
    &&& res is Ok ==> r is Ok && outcome_view(Ok::<Outcome, gameplay::Error>(r->Ok_0)) == res
    &&& after.players == match res {
        Ok(Some(ranking)) => settle_all(before.players, ranking),
        _ => before.players,
    }
    &&& after == (RoomState { game: after.game, players: after.players, ..before })
}

impl Record for Room {
    type Key = String;

    open spec fn inv(&self) -> bool {
        self.wf()
    }

    closed spec fn key(&self) -> Seq<char> {
        self.id@
    }

    fn key_is(&self, k: &String) -> (r: bool) {
        self.id == *k
    }

    type Snapshot = Partial;

    closed spec fn snapshot(&self) -> Partial {
        self.summary()
    }

    fn take_snapshot(&self) -> (r: Partial) {
        self.partial()
    }

    fn copy_key(&self) -> (r: String) {
        self.id.clone()
    }
}

impl Room {
    /// A room keeps its rules: a name, a password of 1 to 32 characters if
    /// any, room for two players or more, one record per member, an owner
    /// among the members while there are any, and a well formed game.
    pub open spec fn wf(&self) -> bool {
        let r = self@;
        &&& r.name.len() > 0
        &&& r.max_players >= 2
        &&& r.players.len() <= r.max_players
        &&& (r.password matches Some(p) ==> 1 <= p.len() <= MAX_PASSWORD)
        &&& self.players_wf()
        &&& (r.players.len() > 0 ==> has_key(r.players, r.owner))
        &&& self.game_wf()
    }

    pub closed spec fn players_wf(&self) -> bool {
        self.players.wf()
    }

    pub closed spec fn game_wf(&self) -> bool {
        self.game matches Some(g) ==> g.wf()
    }

    /// The notices of the member table not yet taken.
    pub closed spec fn member_notices(&self) -> Seq<NoticeView<u128, Player>> {
        self.players.sent()
    }

    /// A well formed room holds one record per member.
    pub proof fn lemma_members_unique(&self)
        requires
            self.wf(),
        ensures
            crate::runtime_storage::table_ok(self@.players),
    {
    }

    pub proof fn lemma_key(&self)
        ensures
            self.key() == self@.id,
    {
    }

    /// A fresh room id: six random digits.
    pub fn generate_id() -> (r: String)
        ensures
            room_id_ok(r@),
    {
        random_digits()
    }

    pub fn regenerate_id(&mut self)
        requires
            old(self).wf(),
        ensures
            final(self).wf(),
            room_id_ok(final(self)@.id),
            final(self)@ == (RoomState { id: final(self)@.id, ..old(self)@ }),
            final(self).member_notices() == old(self).member_notices(),
    {
        self.id = Self::generate_id();
    }

    pub fn id(&self) -> (r: &String)
        ensures
            r@ == self@.id,
    {
        &self.id
    }

    pub fn name(&self) -> (r: &String)
        ensures
            r@ == self@.name,
    {
        &self.name
    }

    pub fn password(&self) -> (r: &Option<String>)
        ensures
            password_view(*r) == self@.password,
    {
        &self.password
    }

    pub fn owner(&self) -> (r: u128)
        ensures
            r == self@.owner,
    {
        self.owner
    }

    pub fn max_players(&self) -> (r: usize)
        ensures
            r == self@.max_players,
    {
        self.max_players
    }

    pub fn players(&self) -> (r: &DataTable<Player>)
        ensures
            r.rows() == self@.players,
            r.sent() == self.member_notices(),
    {
        &self.players
    }

    pub fn game(&self) -> (r: Option<&Game>)
        ensures
            r is Some == self@.game is Some,
            r matches Some(g) ==> self@.game == Some(g@),
    {
        match &self.game {
            Some(g) => Some(g),
            None => None,
        }
    }

    /// Takes out the notices that the member table queued.
    pub fn take_notices(&mut self) -> (r: Vec<Notice<u128, Player>>)
        requires
            old(self).wf(),
        ensures
            final(self).wf(),
            final(self)@ == old(self)@,
            r@.map_values(|n: Notice<u128, Player>| n@) == old(self).member_notices(),
            final(self).member_notices() == Seq::<NoticeView<u128, Player>>::empty(),
    {
        self.players.take_notices()
    }

    pub fn set_name(&mut self, name: String) -> (r: Result<(), Error>)
        requires
            old(self).wf(),
        ensures
            final(self).wf(),
            final(self).member_notices() == old(self).member_notices(),
            name@.len() > 0 ==> r is Ok && final(self)@ == (RoomState { name: name@, ..old(self)@ }),
            name@.len() == 0 ==> r == Err::<(), Error>(Error::BadArgument(Argument::Name))
                && final(self)@ == old(self)@,
    {
        if name.as_str().is_empty() {
            return Err(Error::BadArgument(Argument::Name));
        }
        self.name = name;
        Ok(())
    }

    /// Sets the password: `None` keeps the one there is, an empty one
    /// removes it, one of more than 32 characters is refused.
    pub fn set_password(&mut self, password: Option<String>) -> (r: Result<(), Error>)
        requires
            old(self).wf(),
        ensures
            final(self).wf(),
            final(self).member_notices() == old(self).member_notices(),
            match password {
                None => r is Ok && final(self)@ == old(self)@,
                Some(p) => if p@.len() > MAX_PASSWORD {
                    r == Err::<(), Error>(Error::BadArgument(Argument::Password)) && final(self)@
                        == old(self)@
                } else {
                    r is Ok && final(self)@ == (RoomState {
                        password: kept_password(p@),
                        ..old(self)@
                    })
                },
            },
    {
        match password {
            None => Ok(()),
            Some(p) => {
                if p.as_str().unicode_len() > MAX_PASSWORD {
                    return Err(Error::BadArgument(Argument::Password));
                }
                if p.as_str().is_empty() {
                    self.password = None;
                } else {
                    self.password = Some(p);
                }
                Ok(())
            },
        }
    }

    /// Hands the room to `owner`, who must be a member.
    pub fn set_owner(&mut self, owner: u128) -> (r: Result<(), Error>)
        requires
            old(self).wf(),
        ensures
            final(self).wf(),
            final(self).member_notices() == old(self).member_notices(),
            has_key(old(self)@.players, owner) ==> r is Ok && final(self)@ == (RoomState {
                owner,
                ..old(self)@
            }),
            !has_key(old(self)@.players, owner) ==> r == Err::<(), Error>(Error::PlayerNotInRoom)
                && final(self)@ == old(self)@,
    {
        if !self.players.contains(&owner) {
            return Err(Error::PlayerNotInRoom);
        }
        self.owner = owner;
        Ok(())
    }

    /// Sets the room size: at least two, and not below the members there are.
    pub fn set_max_players(&mut self, max_players: usize) -> (r: Result<(), Error>)
        requires
            old(self).wf(),
        ensures
            final(self).wf(),
            final(self).member_notices() == old(self).member_notices(),
            max_players >= 2 && max_players >= old(self)@.players.len() ==> r is Ok && final(self)@
                == (RoomState {
                max_players: max_players as nat,
                ..old(self)@
            }),
            max_players < 2 || max_players < old(self)@.players.len() ==> r == Err::<(), Error>(
                Error::BadArgument(Argument::MaxPlayers),
            ) && final(self)@ == old(self)@,
    {
        if max_players < 2 || max_players < self.players.len() {
            return Err(Error::BadArgument(Argument::MaxPlayers));
        }
        self.max_players = max_players;
        Ok(())
    }

    /// Opens a room, with `owner` as its first member.
    pub fn create(
        name: String,
        is_public: bool,
        password: Option<String>,
        owner: u128,
        max_players: usize,
    ) -> (r: Result<Room, Error>)
        ensures
            name@.len() == 0 ==> r == Err::<Room, Error>(Error::BadArgument(Argument::Name)),
            name@.len() > 0 && password_too_long(password) ==> r == Err::<
                Room,
                Error,
            >(Error::BadArgument(Argument::Password)),
            name@.len() > 0 && !password_too_long(password)
                && max_players < 2 ==> r == Err::<Room, Error>(
                Error::BadArgument(Argument::MaxPlayers),
            ),
            name@.len() > 0 && !password_too_long(password)
                && max_players >= 2 ==> (r matches Ok(room) && room.wf() && room_id_ok(room@.id)
                && room@ == (RoomState {
                id: room@.id,
                name: name@,
                is_public,
                password: match password {
                    Some(p) => kept_password(p@),
                    None => None,
                },
                owner,
                max_players: max_players as nat,
                players: seq![Player::new_spec(owner)],
                game: None,
            }) && room.member_notices() == seq![
                shared_notice(Change::Insert, owner, Player::new_spec(owner), seq![Player::new_spec(owner)]),
            ]),
    {
        if name.as_str().is_empty() {
            return Err(Error::BadArgument(Argument::Name));
        }
        let kept = match password {
            None => None,
            Some(p) => {
                if p.as_str().unicode_len() > MAX_PASSWORD {
                    return Err(Error::BadArgument(Argument::Password));
                }
                if p.as_str().is_empty() {
                    None
                } else {
                    Some(p)
                }
            },
        };
        if max_players < 2 {
            return Err(Error::BadArgument(Argument::MaxPlayers));
        }
        let mut players: DataTable<Player> = DataTable::new();
        players.shared_insert(Player::new(owner));
        assert(players.rows() =~= seq![Player::new_spec(owner)]);
        let room = Room {
            id: Self::generate_id(),
            name,
            is_public,
            password: kept,
            owner,
            max_players,
            players,
            game: None,
        };
        assert(room@.players[0].id == owner);
        assert(has_key(room@.players, owner));
        assert(room.wf());
        assert(room@.password == match password {
            Some(p) => kept_password(p@),
            None => None,
        });
        assert(room.member_notices() =~= seq![
            shared_notice(Change::Insert, owner, Player::new_spec(owner), seq![Player::new_spec(owner)]),
        ]);
        Ok(room)
    }

    /// Lets `player_id` in. A locked room asks for its password; a full room
    /// takes no one new; a member joining again changes nothing. Whoever
    /// joins an empty room owns it. A game in play does not keep anyone out:
    /// the newcomer takes part from the next game.
    pub fn join(&mut self, password: Option<String>, player_id: u128) -> (r: Result<(), Error>)
        requires
            old(self).wf(),
        ensures
            final(self).wf(),
            !password_opens(old(self)@.password, password) ==> r == Err::<(), Error>(
                Error::WrongPassword,
            ),
            password_opens(old(self)@.password, password) && old(self)@.players.len()
                >= old(self)@.max_players && !has_key(old(self)@.players, player_id) ==> r == Err::<
                (),
                Error,
            >(Error::Full),
            r is Err || has_key(old(self)@.players, player_id) ==> final(self)@ == old(self)@
                && final(self).member_notices() == old(self).member_notices(),
            password_opens(old(self)@.password, password) && (old(self)@.players.len()
                < old(self)@.max_players || has_key(old(self)@.players, player_id)) ==> r is Ok,
            r is Ok && !has_key(old(self)@.players, player_id) ==> final(self)@ == (RoomState {
                players: old(self)@.players.push(Player::new_spec(player_id)),
                owner: if old(self)@.players.len() == 0 {
                    player_id
                } else {
                    old(self)@.owner
                },
                ..old(self)@
            }) && final(self).member_notices() == old(self).member_notices().push(
                shared_notice(Change::Insert, player_id, Player::new_spec(player_id), final(self)@.players),
            ),
    {
        match &self.password {
            Some(p) => match &password {
                Some(given) => {
                    if !(*given == *p) {
                        return Err(Error::WrongPassword);
                    }
                },
                None => {
                    return Err(Error::WrongPassword);
                },
            },
            None => {},
        }
        let member = self.players.contains(&player_id);
        if self.players.len() >= self.max_players && !member {
            return Err(Error::Full);
        }
        if member {
            return Ok(());
        }
        let empty = self.players.len() == 0;
        self.players.shared_insert(Player::new(player_id));
        if empty {
            self.owner = player_id;
        }
        assert(has_key(self@.players, player_id)) by {
            assert(self@.players[self@.players.len() - 1].id == player_id);
        }
        if !empty {
            assert(has_key(self@.players, old(self)@.owner)) by {
                let i = key_index(old(self)@.players, old(self)@.owner);
                assert(self@.players[i].id == old(self)@.owner);
            }
        }
        Ok(())
    }

    /// Lets `player_id` out. When the owner leaves, the first remaining
    /// member owns the room and `Ok(true)` comes back; when nobody remains,
    /// `CantAssignNewOwner` says that the room is to go.
    pub fn leave(&mut self, player_id: u128) -> (r: Result<bool, Error>)
        requires
            old(self).wf(),
        ensures
            final(self).wf(),
            !has_key(old(self)@.players, player_id) ==> r == Err::<bool, Error>(
                Error::PlayerNotInRoom,
            ) && final(self)@ == old(self)@ && final(self).member_notices() == old(self).member_notices(),
            has_key(old(self)@.players, player_id) ==> {
                &&& final(self)@.players == removed(old(self)@.players, player_id)
                &&& !has_key(final(self)@.players, player_id)
                &&& final(self).member_notices() == old(self).member_notices().push(
                    shared_notice(
                        Change::Delete,
                        player_id,
                        old(self)@.players[key_index(old(self)@.players, player_id)],
                        final(self)@.players,
                    ),
                )
                &&& old(self)@.owner != player_id ==> r == Ok::<bool, Error>(false) && final(self)@ == (RoomState { players: final(self)@.players, ..old(self)@ })
                &&& old(self)@.owner == player_id && final(self)@.players.len() > 0 ==> r == Ok::<
                    bool,
                    Error,
                >(true) && final(self)@ == (RoomState {
                    players: final(self)@.players,
                    owner: final(self)@.players[0].id,
                    ..old(self)@
                })
                &&& old(self)@.owner == player_id && final(self)@.players.len() == 0 ==> r == Err::<
                    bool,
                    Error,
                >(Error::CantAssignNewOwner) && final(self)@ == (RoomState {
                    players: final(self)@.players,
                    ..old(self)@
                })
            },
    {
        if !self.players.shared_remove(&player_id) {
            return Err(Error::PlayerNotInRoom);
        }
        let ghost rows = self@.players;
        let ghost old_rows = old(self)@.players;
        let ghost i = key_index(old_rows, player_id);
        assert(rows == old_rows.remove(i));
        assert(!has_key(rows, player_id)) by {
            assert forall|j: int| 0 <= j < rows.len() implies rows[j].id != player_id by {
                if j < i {
                    assert(rows[j] == old_rows[j]);
                } else {
                    assert(rows[j] == old_rows[j + 1]);
                }
            }
        }
        if self.owner != player_id {
            assert(has_key(rows, self.owner)) by {
                let j = key_index(old_rows, old(self)@.owner);
                assert(old_rows[j].id == old(self)@.owner);
                assert(j != i);
                if j < i {
                    assert(rows[j] == old_rows[j]);
                } else {
                    assert(rows[j - 1] == old_rows[j]);
                }
            }
            return Ok(false);
        }
        if self.players.len() == 0 {
            return Err(Error::CantAssignNewOwner);
        }
        self.owner = self.players.records()[0].id;
        assert(has_key(self@.players, self.owner)) by {
            assert(self@.players[0].id == self.owner);
        }
        Ok(true)
    }

    /// Turns the ready flag of `player_id` over; refused while a game is on.
    pub fn player_switch_ready(&mut self, player_id: u128) -> (r: Result<(), Error>)
        requires
            old(self).wf(),
        ensures
            final(self).wf(),
            in_game(old(self)@) ==> r == Err::<(), Error>(Error::GameAlreadyStarted),
            !in_game(old(self)@) && !has_key(old(self)@.players, player_id) ==> r == Err::<
                (),
                Error,
            >(Error::PlayerNotInRoom),
            r is Err ==> final(self)@ == old(self)@ && final(self).member_notices() == old(
                self,
            ).member_notices(),
            !in_game(old(self)@) && has_key(old(self)@.players, player_id) ==> {
                let i = key_index(old(self)@.players, player_id);
                let p = old(self)@.players[i];
                &&& r is Ok
                &&& final(self)@ == (RoomState {
                    players: old(self)@.players.update(i, Player { is_ready: !p.is_ready, ..p }),
                    ..old(self)@
                })
                &&& final(self).member_notices() == old(self).member_notices().push(
                    shared_notice(
                        Change::Update,
                        player_id,
                        Player { is_ready: !p.is_ready, ..p },
                        final(self)@.players,
                    ),
                )
            },
    {
        match &self.game {
            Some(g) => {
                if !g.gameover() {
                    return Err(Error::GameAlreadyStarted);
                }
            },
            None => {},
        }
        let flip = |p: &Player| -> (r: Result<Player, ()>)
            ensures
                r == Ok::<Player, ()>(Player { is_ready: !p.is_ready, ..*p }),
            { Ok(Player { id: p.id, is_ready: !p.is_ready, points: p.points }) };
        let ghost rows = self@.players;
        match self.players.shared_update(&player_id, flip) {
            Ok(Some(_)) => {
                proof {
                    let i = key_index(rows, player_id);
                    crate::runtime_storage::lemma_key_index(rows, i);
                }
                assert(has_key(self@.players, self@.owner)) by {
                    let j = key_index(rows, self@.owner);
                    assert(self@.players[j].id == self@.owner);
                }
                Ok(())
            },
            _ => Err(Error::PlayerNotInRoom),
        }
    }

    /// The owner starts a game between the ready members; a finished game
    /// gives way to the new one.
    pub fn start_game(&mut self, player_id: u128) -> (r: Result<(), Error>)
        requires
            old(self).wf(),
        ensures
            final(self).wf(),
            final(self).member_notices() == old(self).member_notices(),
            final(self)@.players == old(self)@.players,
            player_id != old(self)@.owner ==> r == Err::<(), Error>(Error::NotOwner),
            player_id == old(self)@.owner && in_game(old(self)@) ==> r == Err::<(), Error>(
                Error::GameAlreadyStarted,
            ),
            player_id == old(self)@.owner && !in_game(old(self)@) && gameplay::ready_ids(
                old(self)@.players,
            ).len() < 2 ==> r == Err::<(), Error>(Error::Game(gameplay::Error::NotEnoughPlayers)),
            r is Err ==> final(self)@ == old(self)@,
            r is Ok ==> player_id == old(self)@.owner && !in_game(old(self)@) && (final(self)@.game
                matches Some(g) && fresh_game(g, old(self)@.players)) && final(self)@ == (RoomState {
                game: final(self)@.game,
                ..old(self)@
            }),
            player_id == old(self)@.owner && !in_game(old(self)@) && gameplay::ready_ids(
                old(self)@.players,
            ).len() >= 2 ==> r is Ok,
    {
        if player_id != self.owner {
            return Err(Error::NotOwner);
        }
        match &self.game {
            Some(g) => {
                if !g.gameover() {
                    return Err(Error::GameAlreadyStarted);
                }
            },
            None => {},
        }
        proof {
            gameplay::lemma_ready_ids(self@.players);
        }
        match Game::new(self.players.records()) {
            Ok(g) => {
                self.game = Some(g);
                Ok(())
            },
            Err(e) => Err(Error::Game(e)),
        }
    }

    /// After a game: every member among `losers` is no longer ready and
    /// gains the points of the game.
    pub fn settle(&mut self, losers: &Vec<Loser>)
        requires
            old(self).wf(),
        ensures
            final(self).wf(),
            final(self)@ == (RoomState {
                players: settle_all(old(self)@.players, losers@),
                ..old(self)@
            }),
            old(self).member_notices().is_prefix_of(final(self).member_notices()),
    {
        let mut i: usize = 0;
        while i < losers.len()
            invariant
                self.wf(),
                i <= losers@.len(),
                self@ == (RoomState {
                    players: settle_all(old(self)@.players, losers@.take(i as int)),
                    ..old(self)@
                }),
                old(self).member_notices().is_prefix_of(self.member_notices()),
            decreases losers@.len() - i,
        {
            let l = losers[i];
            let add = |p: &Player| -> (r: Result<Player, ()>)
                ensures
                    r == Ok::<Player, ()>(settled(*p, l)),
                {
                    let points = if p.points as u128 + l.points as u128 > u64::MAX as u128 {
                        u64::MAX
                    } else {
                        p.points + l.points
                    };
                    Ok(Player { id: p.id, is_ready: false, points })
                };
            let ghost rows = self@.players;
            let ghost sent = self.member_notices();
            let _ = self.players.shared_update(&l.id, add);
            assert(losers@.take(i + 1).drop_last() =~= losers@.take(i as int));
            assert(losers@.take(i + 1).last() == l);
            proof {
                if has_key(rows, l.id) {
                    let k = key_index(rows, l.id);
                    assert(settled(rows[k], l).id == l.id);
                    if rows.len() > 0 {
                        let j = key_index(rows, self@.owner);
                        assert(self@.players[j].id == self@.owner);
                    }
                }
            }
            assert(sent.is_prefix_of(self.member_notices()));
            i += 1;
        }
        assert(losers@.take(losers@.len() as int) =~= losers@);
    }

    /// Plays in the game of the room (see `Game::play`); when the game ends,
    /// the members are settled with its ranking.
    pub fn play_game(&mut self, player_id: u128, card_id: Option<usize>) -> (r: Result<
        Outcome,
        Error,
    >)
        requires
            old(self).wf(),
        ensures
            final(self).wf(),
            old(self)@.game is None ==> r == Err::<Outcome, Error>(Error::NoGame) && final(self)@
                == old(self)@,
            old(self)@.game is Some ==> exists|d: Seq<Card>|
                #[trigger] played(old(self)@, final(self)@, r, player_id, card_id, d),
    {
        let ghost before = self@;
        let r = match &mut self.game {
            Some(g) => g.play(player_id, card_id),
            None => {
                return Err(Error::NoGame);
            },
        };
        let ghost d = choose|d: Seq<Card>|
            (forall|k: int| 0 <= k < d.len() ==> dealt_card(#[trigger] d[k])) && (
            self@.game->Some_0,
            outcome_view(r),
        ) == play_spec(before.game->Some_0, player_id, card_id, d);
        let out = match r {
            Ok(Outcome::GameOver(losers)) => {
                self.settle(&losers.0);
                Ok(Outcome::GameOver(losers))
            },
            Ok(Outcome::Continue) => Ok(Outcome::Continue),
            Err(e) => Err(Error::Game(e)),
        };
        assert(played(before, self@, out, player_id, card_id, d));
        out
    }
}

impl Room {
    /// The errors that the given settings meet (see `settings_errors`).
    fn settings_check(
        &self,
        name: &Option<String>,
        password: &Option<String>,
        owner: Option<u128>,
        max_players: Option<usize>,
    ) -> (r: Vec<Error>)
        requires
            self.wf(),
        ensures
            r@ == settings_errors(self@, *name, *password, owner, max_players),
    {
        let mut errors: Vec<Error> = Vec::new();
        match &name {
            Some(n) => {
                if n.as_str().is_empty() {
                    errors.push(Error::BadArgument(Argument::Name));
                }
            },
            None => {},
        }
        match &password {
            Some(p) => {
                if p.as_str().unicode_len() > MAX_PASSWORD {
                    errors.push(Error::BadArgument(Argument::Password));
                }
            },
            None => {},
        }
        match owner {
            Some(o) => {
                if !self.players.contains(&o) {
                    errors.push(Error::PlayerNotInRoom);
                }
            },
            None => {},
        }
        match max_players {
            Some(m) => {
                if m < 2 || m < self.players.len() {
                    errors.push(Error::BadArgument(Argument::MaxPlayers));
                }
            },
            None => {},
        }
        assert(errors@ =~= settings_errors(self@, *name, *password, owner, max_players));
        errors
    }

    /// The owner changes some settings at once. Any error leaves the room as
    /// it was and all the errors come back; none applies them all. Anyone but
    /// the owner gets `NotOwner` alone.
    pub fn update(
        &mut self,
        player_id: u128,
        name: Option<String>,
        is_public: Option<bool>,
        password: Option<String>,
        owner: Option<u128>,
        max_players: Option<usize>,
    ) -> (r: Vec<Error>)
        requires
            old(self).wf(),
        ensures
            final(self).wf(),
            final(self).member_notices() == old(self).member_notices(),
            player_id != old(self)@.owner ==> r@ == seq![Error::NotOwner] && final(self)@ == old(
                self,
            )@,
            player_id == old(self)@.owner ==> r@ == settings_errors(
                old(self)@,
                name,
                password,
                owner,
                max_players,
            ),
            player_id == old(self)@.owner && r@.len() > 0 ==> final(self)@ == old(self)@,
            player_id == old(self)@.owner && r@.len() == 0 ==> final(self)@ == with_settings(
                old(self)@,
                name,
                is_public,
                password,
                owner,
                max_players,
            ),
    {
        let mut errors: Vec<Error> = Vec::new();
        if player_id != self.owner {
            errors.push(Error::NotOwner);
            assert(errors@ =~= seq![Error::NotOwner]);
            return errors;
        }
        let errors = self.settings_check(&name, &password, owner, max_players);
        if errors.len() > 0 {
            return errors;
        }
        match name {
            Some(n) => {
                let _ = self.set_name(n);
            },
            None => {},
        }
        match is_public {
            Some(b) => {
                self.is_public = b;
            },
            None => {},
        }
        match password {
            Some(p) => {
                let _ = self.set_password(Some(p));
            },
            None => {},
        }
        match owner {
            Some(o) => {
                let _ = self.set_owner(o);
            },
            None => {},
        }
        match max_players {
            Some(m) => {
                let _ = self.set_max_players(m);
            },
            None => {},
        }
        errors
    }
}

/// What leaving gives for `before`: the record to store in its place and
/// the result.
pub open spec fn left_room(
    before: Room,
    pid: u128,
    out: (Commit<Room>, Result<Departure, Error>),
) -> bool {
    let b = before@;
    let rest = removed(b.players, pid);
    if !has_key(b.players, pid) {
        out.1 == Err::<Departure, Error>(Error::PlayerNotInRoom) && (out.0 matches Commit::Keep(n)
            && n@ == b)
    } else if rest.len() == 0 {
        out.1 == Ok::<Departure, Error>(Departure::Closed) && out.0 is Remove
    } else if b.owner == pid {
        out.1 == Ok::<Departure, Error>(Departure::OwnerChanged) && (out.0 matches Commit::Update(n)
            && n@ == (RoomState { players: rest, owner: rest[0].id, ..b }))
    } else {
        out.1 == Ok::<Departure, Error>(Departure::Left) && (out.0 matches Commit::Update(n) && n@
            == (RoomState { players: rest, ..b }))
    }
}

/// The errors that a change of settings meets, in the order of the
/// settings: an empty name, a password of more than 32 characters, an owner
/// who is not a member, room for fewer than two players or for fewer than
/// the members there are.
pub open spec fn settings_errors(
    r: RoomState,
    name: Option<String>,
    password: Option<String>,
    owner: Option<u128>,
    max_players: Option<usize>,
) -> Seq<Error> {
    let e1 = if name matches Some(n) && n@.len() == 0 {
        seq![Error::BadArgument(Argument::Name)]
    } else {
        Seq::empty()
    };
    let e2 = if password_too_long(password) {
        seq![Error::BadArgument(Argument::Password)]
    } else {
        Seq::empty()
    };
    let e3 = if owner matches Some(o) && !has_key(r.players, o) {
        seq![Error::PlayerNotInRoom]
    } else {
        Seq::empty()
    };
    let e4 = if max_players matches Some(m) && (m < 2 || m < r.players.len()) {
        seq![Error::BadArgument(Argument::MaxPlayers)]
    } else {
        Seq::empty()
    };
    e1 + e2 + e3 + e4
}

/// `r` with the given settings applied.
pub open spec fn with_settings(
    r: RoomState,
    name: Option<String>,
    is_public: Option<bool>,
    password: Option<String>,
    owner: Option<u128>,
    max_players: Option<usize>,
) -> RoomState {
    RoomState {
        name: match name {
            Some(n) => n@,
            None => r.name,
        },
        is_public: match is_public {
            Some(b) => b,
            None => r.is_public,
        },
        password: match password {
            Some(p) => kept_password(p@),
            None => r.password,
        },
        owner: match owner {
            Some(o) => o,
            None => r.owner,
        },
        max_players: match max_players {
            Some(m) => m as nat,
            None => r.max_players,
        },
        ..r
    }
}

/// The rooms among `rows` that are listed, in order.
pub open spec fn public_rows(rows: Seq<Room>) -> Seq<Room>
    decreases rows.len(),
{
    if rows.len() == 0 {
        Seq::empty()
    } else {
        let rest = public_rows(rows.drop_last());
        if rows.last()@.is_public {
            rest.push(rows.last())
        } else {
            rest
        }
    }
}

/// At most `limit` items of `s`, after the first `after`.
pub open spec fn page<A>(s: Seq<A>, after: int, limit: int) -> Seq<A> {
    let start = if after < s.len() {
        after
    } else {
        s.len() as int
    };
    let end = if start + limit < s.len() {
        start + limit
    } else {
        s.len() as int
    };
    s.subrange(start, end)
}

impl Room {
    /// The account of this room in a list.
    pub closed spec fn summary(&self) -> Partial {
        Partial {
            id: self.id,
            name: self.name,
            is_public: self.is_public,
            password: self.password is Some,
            owner: self.owner,
            max_players: self.max_players,
            players: self.players.rows().len() as usize,
            game: self.game is Some,
        }
    }

    pub fn partial(&self) -> (r: Partial)
        ensures
            r == self.summary(),
    {
        Partial {
            id: self.id.clone(),
            name: self.name.clone(),
            is_public: self.is_public,
            password: self.password.is_some(),
            owner: self.owner,
            max_players: self.max_players,
            players: self.players.len(),
            game: self.game.is_some(),
        }
    }
}

/// A member leaves a room of the registry. The room goes when its last
/// member leaves; the registry reports the update or the deletion of the
/// room.
pub fn leave_room(rooms: &mut DataTable<Room>, room_id: &String, player_id: u128) -> (r: Result<
    Departure,
    Error,
>)
    requires
        old(rooms).wf(),
    ensures
        final(rooms).wf(),
        !has_key(old(rooms).rows(), room_id@) ==> r == Err::<Departure, Error>(Error::RoomNotFound)
            && final(rooms).rows() == old(rooms).rows() && final(rooms).sent() == old(rooms).sent(),
        has_key(old(rooms).rows(), room_id@) ==> exists|out: (Commit<Room>, Result<Departure, Error>)|
            #[trigger] left_room(
                old(rooms).rows()[key_index(old(rooms).rows(), room_id@)],
                player_id,
                out,
            ) && r == out.1 && modified(
                old(rooms).rows(),
                old(rooms).sent(),
                room_id@,
                out.0,
                final(rooms).rows(),
                final(rooms).sent(),
            ),
{
    let leave = move |room: Room| -> (out: (Commit<Room>, Result<Departure, Error>))
        requires
            room.wf(),
        ensures
            left_room(room, player_id, out),
            match out.0 {
                Commit::Keep(n) => n.wf() && n.key() == room.key(),
                Commit::Update(n) => n.wf() && n.key() == room.key(),
                Commit::Remove => true,
            },
        {
            let ghost before = room;
            let mut room = room;
            match room.leave(player_id) {
                Ok(false) => (Commit::Update(room), Ok(Departure::Left)),
                Ok(true) => (Commit::Update(room), Ok(Departure::OwnerChanged)),
                Err(Error::CantAssignNewOwner) => (Commit::Remove, Ok(Departure::Closed)),
                Err(e) => {
                    proof {
                        if has_key(before@.players, player_id) {
                            let rest = removed(before@.players, player_id);
                            let i = key_index(before@.players, player_id);
                            let j = key_index(before@.players, before@.owner);
                            assert(before@.players[j].id == before@.owner);
                            if rest.len() == 0 {
                                assert(j == i);
                            }
                        }
                    }
                    (Commit::Keep(room), Err(e))
                },
            }
        };
    match rooms.modify(room_id, leave) {
        Some(r) => r,
        None => Err(Error::RoomNotFound),
    }
}

/// Puts a new room in the registry, first drawing fresh ids while its own is
/// taken (up to `ID_ATTEMPTS` times); gives back the id it got.
pub fn open_room(rooms: &mut DataTable<Room>, room: Room) -> (r: Result<String, Error>)
    requires
        old(rooms).wf(),
        room.wf(),
    ensures
        final(rooms).wf(),
        r is Err ==> r == Err::<String, Error>(Error::NoFreeId) && final(rooms).rows() == old(
            rooms,
        ).rows() && final(rooms).sent() == old(rooms).sent(),
        !has_key(old(rooms).rows(), room@.id) ==> (r matches Ok(id) && id@ == room@.id),
        r matches Ok(id) ==> !has_key(old(rooms).rows(), id@) && final(rooms).rows().len() == old(
            rooms,
        ).rows().len() + 1 && final(rooms).rows().drop_last() == old(rooms).rows()
            && final(rooms).rows().last()@ == (RoomState { id: id@, ..room@ })
            && final(rooms).sent() == old(rooms).sent().push(
                own_notice(Change::Insert, id@, final(rooms).rows().last().snapshot()),
            ),
{
    let mut room = room;
    let ghost start = room@;
    let mut attempts: u32 = 0;
    while attempts < ID_ATTEMPTS && rooms.contains(room.id())
        invariant
            rooms.wf(),
            room.wf(),
            room@ == (RoomState { id: room@.id, ..start }),
            attempts <= ID_ATTEMPTS,
            attempts == 0 ==> room@.id == start.id,
            attempts > 0 ==> has_key(old(rooms).rows(), start.id),
            rooms.rows() == old(rooms).rows(),
            rooms.sent() == old(rooms).sent(),
        decreases ID_ATTEMPTS - attempts,
    {
        room.regenerate_id();
        attempts += 1;
    }
    if rooms.contains(room.id()) {
        return Err(Error::NoFreeId);
    }
    let id = room.id().clone();
    proof {
        room.lemma_key();
    }
    let ghost before = rooms.rows();
    rooms.insert(room);
    assert(rooms.rows().drop_last() =~= before);
    Ok(id)
}

/// The public rooms of the registry, in order, at most `limit` of them after
/// the first `after`.
pub fn get_rooms_list(rooms: &DataTable<Room>, after: usize, limit: usize) -> (r: Vec<Partial>)
    ensures
        r@ == page(public_rows(rooms.rows()), after as int, limit as int).map_values(
            |room: Room| room.summary(),
        ),
{
    let rows = rooms.records();
    let mut out: Vec<Partial> = Vec::new();
    let mut seen: usize = 0;
    let mut i: usize = 0;
    while i < rows.len()
        invariant
            rows@ == rooms.rows(),
            i <= rows@.len(),
            seen == public_rows(rows@.take(i as int)).len(),
            seen <= i,
            out@ == page(public_rows(rows@.take(i as int)), after as int, limit as int).map_values(
                |room: Room| room.summary(),
            ),
        decreases rows@.len() - i,
    {
        let ghost before = public_rows(rows@.take(i as int));
        assert(rows@.take(i + 1).drop_last() =~= rows@.take(i as int));
        let room = &rows[i];
        if room.is_public {
            let ghost now = before.push(*room);
            assert(public_rows(rows@.take(i + 1)) == now);
            if seen >= after && seen - after < limit {
                out.push(room.partial());
                assert(page(now, after as int, limit as int) =~= page(before, after as int, limit as int).push(*room));
            } else {
                assert(page(now, after as int, limit as int) =~= page(before, after as int, limit as int));
            }
            seen += 1;
        }
        proof {
            let p = page(public_rows(rows@.take(i + 1)), after as int, limit as int);
            assert(out@ =~= p.map_values(|room: Room| room.summary()));
        }
        i += 1;
    }
    assert(rows@.take(rows@.len() as int) =~= rows@);
    out
}

/// The last member to leave a room closes it: the registry removes the
/// room. An owner who leaves others behind hands the room to the first of
/// them, who was a member before.
pub proof fn lemma_leaving(room: Room, pid: u128, out: (Commit<Room>, Result<Departure, Error>))
    requires
        room.wf(),
        has_key(room@.players, pid),
        left_room(room, pid, out),
    ensures
        room@.players.len() == 1 ==> out.0 is Remove && out.1 == Ok::<Departure, Error>(
            Departure::Closed,
        ),
        room@.players.len() > 1 && room@.owner == pid ==> out.1 == Ok::<Departure, Error>(
            Departure::OwnerChanged,
        ) && (out.0 matches Commit::Update(n) && has_key(room@.players, n@.owner) && n@.owner
            != pid && has_key(n@.players, n@.owner)),
{
    let rest = removed(room@.players, pid);
    let i = key_index(room@.players, pid);
    if room@.players.len() > 1 && room@.owner == pid {
        let first = if i == 0 {
            1int
        } else {
            0int
        };
        assert(rest[0] == room@.players[first]);
        assert(room@.players[i].id == pid);
        assert(room@.players[first].id != pid);
        assert(has_key(rest, rest[0].id));
    }
}

} // verus!
