pub mod card;
pub mod player;

use vstd::prelude::*;
use card::{Card, Effect, Element, playable, dealt_card, random_card};
use player::{Player, PlayerState, Loser, Losers, loser_of, ranked, with_cards, add_capped};
use super::rooms::player::Player as Member;

verus! {

/// How a legal play ended: the game goes on, or it is over, with the players
/// ranked.
#[derive(Debug)]
pub enum Outcome {
    Continue,
    GameOver(Losers),
}

/// Why a play or a new game was refused.
#[derive(Debug, Clone, Copy, PartialEq, Eq, Structural)]
pub enum Error {
    NotEnoughPlayers,
    CardNotFound,
    PlayerNotFound,
    WrongTurn,
    WrongCard,
    NoCardsLeft,
    Finished,
    DuplicatePlayer,
}

/// The number of cards each player is dealt when a game begins.
pub const HAND_SIZE: usize = 8;

/// The ids of the ready members among `ms`, in order.
pub open spec fn ready_ids(ms: Seq<Member>) -> Seq<u128>
    decreases ms.len(),
{
    if ms.len() == 0 {
        Seq::empty()
    } else {
        let rest = ready_ids(ms.drop_last());
        if ms.last().is_ready {
            rest.push(ms.last().id)
        } else {
            rest
        }
    }
}

/// Each ready id is the id of a member; members with one record per id give
/// distinct ready ids.
pub proof fn lemma_ready_ids(ms: Seq<Member>)
    ensures
        forall|k: int|
            0 <= k < ready_ids(ms).len() ==> exists|j: int|
                0 <= j < ms.len() && ms[j].id == #[trigger] ready_ids(ms)[k],
        crate::runtime_storage::unique_keys(ms) ==> distinct_ids(ready_ids(ms)),
    decreases ms.len(),
{
    if ms.len() > 0 {
        let front = ms.drop_last();
        lemma_ready_ids(front);
        let rest = ready_ids(front);
        assert forall|k: int| 0 <= k < ready_ids(ms).len() implies exists|j: int|
            0 <= j < ms.len() && ms[j].id == #[trigger] ready_ids(ms)[k] by {
            if k < rest.len() {
                let j = choose|j: int| 0 <= j < front.len() && front[j].id == rest[k];
                assert(ms[j].id == ready_ids(ms)[k]);
            } else {
                assert(ms[ms.len() - 1].id == ready_ids(ms)[k]);
            }
        }
        if crate::runtime_storage::unique_keys(ms) {
            assert(crate::runtime_storage::unique_keys(front)) by {
                assert forall|a: int, b: int|
                    0 <= a < front.len() && 0 <= b < front.len() && a != b implies front[a].id
                    != front[b].id by {
                    assert(front[a] == ms[a] && front[b] == ms[b]);
                }
            }
            if ms.last().is_ready {
                assert forall|k: int| 0 <= k < rest.len() implies rest[k] != ms.last().id by {
                    let j = choose|j: int| 0 <= j < front.len() && front[j].id == rest[k];
                    assert(front[j] == ms[j]);
                    assert(ms[j].id != ms[ms.len() - 1].id);
                }
            }
        }
    }
}

/// A game just dealt to the ready members of `ms`: each in order with a
/// hand of dealt cards, the opening card on the table, the first one to
/// play.
pub open spec fn fresh_game(g: GameState, ms: Seq<Member>) -> bool {
    &&& g.players.map_values(|p: PlayerState| p.id) == ready_ids(ms)
    &&& forall|i: int|
        0 <= i < g.players.len() ==> {
            &&& (#[trigger] g.players[i]).cards.len() == HAND_SIZE
            &&& g.players[i].cards_count == HAND_SIZE
            &&& forall|k: int| 0 <= k < HAND_SIZE ==> dealt_card(#[trigger] g.players[i].cards[k])
        }
    &&& g.card == opening_card()
    &&& g.turn == 0
    &&& g.direction == Direction::Next
    &&& g.losers == Seq::<Loser>::empty()
    &&& !g.finished
}

/// The way turns go round.
#[derive(Debug, Clone, Copy, PartialEq, Eq, Structural)]
pub enum Direction {
    Next,
    Previous,
}

pub open spec fn flipped(d: Direction) -> Direction {
    match d {
        Direction::Next => Direction::Previous,
        Direction::Previous => Direction::Next,
    }
}

impl Direction {
    pub fn switch(&mut self)
        ensures
            *final(self) == flipped(*old(self)),
    {
        *self = match self {
            Direction::Next => Direction::Previous,
            Direction::Previous => Direction::Next,
        };
    }
}

/// What a game is: the card on the table, the players still in it in turn
/// order, whose turn it is, the direction, the players out of it in order of
/// elimination, and whether it is over.
pub struct GameState {
    pub card: Card,
    pub players: Seq<PlayerState>,
    pub turn: int,
    pub direction: Direction,
    pub losers: Seq<Loser>,
    pub finished: bool,
}

/// A game in play has two players or more and the turn points at one of
/// them; a finished game has none left.
pub open spec fn state_wf(g: GameState) -> bool {
    &&& g.finished ==> g.players.len() == 0
    &&& !g.finished ==> g.players.len() >= 2 && 0 <= g.turn < g.players.len()
    &&& distinct_ids(ids_of(g.players, g.losers))
}

/// No id twice in `ids`.
pub open spec fn distinct_ids(ids: Seq<u128>) -> bool {
    forall|i: int, j: int| 0 <= i < ids.len() && 0 <= j < ids.len() && i != j ==> ids[i] != ids[j]
}

pub open spec fn has_player(ps: Seq<PlayerState>, id: u128) -> bool {
    exists|i: int| 0 <= i < ps.len() && ps[i].id == id
}

/// The first place of `id` among `ps`.
pub open spec fn player_index(ps: Seq<PlayerState>, id: u128) -> int {
    choose|i: int|
        0 <= i < ps.len() && ps[i].id == id && forall|j: int| 0 <= j < i ==> ps[j].id != id
}

/// A player that is in `ps` has a first place there.
pub proof fn lemma_player_index(ps: Seq<PlayerState>, id: u128)
    requires
        has_player(ps, id),
    ensures
        0 <= player_index(ps, id) < ps.len(),
        ps[player_index(ps, id)].id == id,
        forall|j: int| 0 <= j < player_index(ps, id) ==> ps[j].id != id,
    decreases ps.len(),
{
    let i = choose|i: int| 0 <= i < ps.len() && ps[i].id == id;
    if exists|j: int| 0 <= j < i && ps[j].id == id {
        let front = ps.take(i);
        let j = choose|j: int| 0 <= j < i && ps[j].id == id;
        assert(front[j].id == id);
        lemma_player_index(front, id);
        let k = player_index(front, id);
        assert(0 <= k < ps.len() && ps[k].id == id && forall|j: int| 0 <= j < k ==> ps[j].id != id)
            by {
            assert(forall|j: int| 0 <= j < k ==> front[j] == ps[j]);
        }
    } else {
        assert(0 <= i < ps.len() && ps[i].id == id && forall|j: int| 0 <= j < i ==> ps[j].id != id);
    }
}

/// The turn `step` places from `turn` in direction `d`, among `count`
/// players: (turn + direction * step) modulo the number of players still in
/// the game. After an elimination `turn` is the place the eliminated player
/// held, so going forward the player who followed it is passed over; this is
/// the rule as stated, kept on purpose.
pub open spec fn turn_after(turn: int, d: Direction, step: int, count: int) -> int {
    match d {
        Direction::Next => (turn + step) % count,
        Direction::Previous => (turn - step) % count,
    }
}

/// How many cards an effect makes the next player draw.
pub open spec fn cards_to_draw(e: Effect) -> nat {
    match e {
        Effect::Add(n) => n as nat,
        _ => 0,
    }
}

/// `ps` after each of the `n` places that follow place `from` in direction
/// `d` drew one card: the k-th of them (from 1) gets `draws[k - 1]`.
pub open spec fn dealt_round(
    ps: Seq<PlayerState>,
    from: int,
    d: Direction,
    n: nat,
    draws: Seq<Card>,
) -> Seq<PlayerState>
    decreases n,
{
    if n == 0 {
        ps
    } else {
        let before = dealt_round(ps, from, d, (n - 1) as nat, draws);
        let slot = turn_after(from, d, n as int, ps.len() as int);
        before.update(slot, with_cards(before[slot], seq![draws[n - 1]]))
    }
}

pub proof fn lemma_dealt_round_len(
    ps: Seq<PlayerState>,
    from: int,
    d: Direction,
    n: nat,
    draws: Seq<Card>,
)
    requires
        ps.len() > 0,
    ensures
        dealt_round(ps, from, d, n, draws).len() == ps.len(),
        forall|j: int|
            0 <= j < ps.len() ==> (#[trigger] dealt_round(ps, from, d, n, draws)[j]).id == ps[j].id,
    decreases n,
{
    if n > 0 {
        lemma_dealt_round_len(ps, from, d, (n - 1) as nat, draws);
        let slot = turn_after(from, d, n as int, ps.len() as int);
        assert(0 <= slot < ps.len()) by {
            vstd::arithmetic::div_mod::lemma_mod_bound(from + n, ps.len() as int);
            vstd::arithmetic::div_mod::lemma_mod_bound(from - n, ps.len() as int);
        }
    }
}

/// The game after the player at place `i` played the card at place `c` of
/// the hand, a legal play, with `draws` the cards that the table gives.
pub open spec fn resolve(g: GameState, i: int, c: int, draws: Seq<Card>) -> (
    GameState,
    Option<Seq<Loser>>,
) {
    let p = g.players[i];
    let card = p.cards[c];
    let after = PlayerState { cards: p.cards.remove(c), ..p };
    let direction = if card.effect == Effect::Flow {
        flipped(g.direction)
    } else {
        g.direction
    };
    let step: int = if card.effect == Effect::Stun {
        2
    } else {
        1
    };
    let players = if after.cards.len() == 0 {
        g.players.remove(i)
    } else {
        g.players.update(i, after)
    };
    let losers = if after.cards.len() == 0 {
        g.losers.push(loser_of(after))
    } else {
        g.losers
    };
    if players.len() <= 1 {
        let all = if players.len() == 1 {
            losers.push(loser_of(players[0]))
        } else {
            losers
        };
        (
            GameState {
                card,
                players: Seq::empty(),
                turn: 0,
                direction,
                losers: all,
                finished: true,
            },
            Some(ranked(all)),
        )
    } else {
        let turn = turn_after(i, direction, step, players.len() as int);
        (
            GameState {
                card,
                players: dealt_round(players, i, direction, cards_to_draw(card.effect), draws),
                turn,
                direction,
                losers,
                finished: false,
            },
            None,
        )
    }
}

pub open spec fn ids_of(ps: Seq<PlayerState>, ls: Seq<Loser>) -> Seq<u128> {
    ps.map_values(|p: PlayerState| p.id) + ls.map_values(|l: Loser| l.id)
}

/// Players that keep their ids keep the ids distinct.
pub proof fn lemma_ids_kept(ps: Seq<PlayerState>, ps2: Seq<PlayerState>, ls: Seq<Loser>)
    requires
        ps2.len() == ps.len(),
        forall|j: int| 0 <= j < ps.len() ==> (#[trigger] ps2[j]).id == ps[j].id,
        distinct_ids(ids_of(ps, ls)),
    ensures
        distinct_ids(ids_of(ps2, ls)),
{
    assert(ids_of(ps2, ls) =~= ids_of(ps, ls));
}

/// Moving the player at place `i` to the end of the eliminated list keeps
/// the ids distinct.
pub proof fn lemma_ids_moved(ps: Seq<PlayerState>, ls: Seq<Loser>, i: int, l: Loser)
    requires
        0 <= i < ps.len(),
        l.id == ps[i].id,
        distinct_ids(ids_of(ps, ls)),
    ensures
        distinct_ids(ids_of(ps.remove(i), ls.push(l))),
{
    let old_ids = ids_of(ps, ls);
    let new_ids = ids_of(ps.remove(i), ls.push(l));
    let n = ps.len() as int;
    let m = ls.len() as int;
    assert(new_ids.len() == n + m);
    assert forall|a: int| 0 <= a < n + m implies #[trigger] new_ids[a] == old_ids[if a < i {
        a
    } else if a < n - 1 + m {
        a + 1
    } else {
        i
    }] by {
        if a < n - 1 {
            assert(new_ids[a] == ps.remove(i)[a].id);
        } else if a < n - 1 + m {
            assert(new_ids[a] == ls[a - (n - 1)].id);
            assert(old_ids[a + 1] == ls[a + 1 - n].id);
        } else {
            assert(new_ids[a] == l.id);
        }
    }
    assert forall|a: int, b: int|
        0 <= a < new_ids.len() && 0 <= b < new_ids.len() && a != b implies new_ids[a]
        != new_ids[b] by {
        let fa = if a < i {
            a
        } else if a < n - 1 + m {
            a + 1
        } else {
            i
        };
        let fb = if b < i {
            b
        } else if b < n - 1 + m {
            b + 1
        } else {
            i
        };
        assert(new_ids[a] == old_ids[fa]);
        assert(new_ids[b] == old_ids[fb]);
    }
}

/// A legal play keeps a game well formed.
pub proof fn lemma_resolve_wf(g: GameState, i: int, c: int, draws: Seq<Card>)
    requires
        state_wf(g),
        !g.finished,
        i == g.turn,
        0 <= c < g.players[i].cards.len(),
    ensures
        state_wf(resolve(g, i, c, draws).0),
{
    let p = g.players[i];
    let card = p.cards[c];
    let after = PlayerState { cards: p.cards.remove(c), ..p };
    let direction = if card.effect == Effect::Flow {
        flipped(g.direction)
    } else {
        g.direction
    };
    let players = if after.cards.len() == 0 {
        g.players.remove(i)
    } else {
        g.players.update(i, after)
    };
    let losers = if after.cards.len() == 0 {
        g.losers.push(loser_of(after))
    } else {
        g.losers
    };
    if after.cards.len() == 0 {
        lemma_ids_moved(g.players, g.losers, i, loser_of(after));
    } else {
        lemma_ids_kept(g.players, players, g.losers);
    }
    if players.len() <= 1 {
        if players.len() == 1 {
            lemma_ids_moved(players, losers, 0, loser_of(players[0]));
            assert(players.remove(0) =~= Seq::<PlayerState>::empty());
        }
        let all = if players.len() == 1 {
            losers.push(loser_of(players[0]))
        } else {
            losers
        };
        assert(ids_of(Seq::<PlayerState>::empty(), all) =~= ids_of(players.remove(0), all)
            || players.len() == 0);
        if players.len() == 0 {
            assert(ids_of(Seq::<PlayerState>::empty(), all) =~= ids_of(players, all));
        }
    } else {
        let dealt = dealt_round(players, i, direction, cards_to_draw(card.effect), draws);
        lemma_dealt_round_len(players, i, direction, cards_to_draw(card.effect), draws);
        lemma_ids_kept(players, dealt, losers);
        let step: int = if card.effect == Effect::Stun {
            2
        } else {
            1
        };
        vstd::arithmetic::div_mod::lemma_mod_bound(i + step, players.len() as int);
        vstd::arithmetic::div_mod::lemma_mod_bound(i - step, players.len() as int);
    }
}

/// The game after player `id` asked to play the card at `card_id` of the
/// hand, or to draw when there is none, with `draws` the cards that the table
/// gives; and the result: an error, `None` when the game goes on, or the
/// ranking when it is over.
pub open spec fn play_spec(g: GameState, id: u128, card_id: Option<usize>, draws: Seq<Card>) -> (
    GameState,
    Result<Option<Seq<Loser>>, Error>,
) {
    if g.finished {
        (g, Err(Error::Finished))
    } else if !has_player(g.players, id) {
        (g, Err(Error::PlayerNotFound))
    } else if player_index(g.players, id) != g.turn {
        (g, Err(Error::WrongTurn))
    } else {
        let i = g.turn;
        let p = g.players[i];
        match card_id {
            None => if draws.len() < 1 {
                (g, Err(Error::NoCardsLeft))
            } else {
                (
                    GameState {
                        players: g.players.update(i, with_cards(p, draws.take(1))),
                        turn: turn_after(i, g.direction, 1, g.players.len() as int),
                        ..g
                    },
                    Ok(None),
                )
            },
            Some(c) => if c >= p.cards.len() {
                (g, Err(Error::CardNotFound))
            } else if !playable(p.cards[c as int], g.card) {
                (g, Err(Error::WrongCard))
            } else if cards_to_draw(p.cards[c as int].effect) > draws.len() {
                (g, Err(Error::NoCardsLeft))
            } else {
                let (next, over) = resolve(g, i, c as int, draws);
                (next, Ok(over))
            },
        }
    }
}

/// A game of the card game.
#[derive(Debug, Clone)]
pub struct Game {
    card: Card,
    players: Vec<Player>,
    turn: usize,
    direction: Direction,
    losers: Vec<Loser>,
    gameover: bool,
}

pub open spec fn outcome_view(r: Result<Outcome, Error>) -> Result<Option<Seq<Loser>>, Error> {
    match r {
        Ok(Outcome::Continue) => Ok(None),
        Ok(Outcome::GameOver(l)) => Ok(Some(l.0@)),
        Err(e) => Err(e),
    }
}

/// The card on the table when a game begins: it goes with any card.
pub open spec fn opening_card() -> Card {
    Card { element: Element::Energy, effect: Effect::Flow }
}

impl View for Game {
    type V = GameState;

    closed spec fn view(&self) -> GameState {
        GameState {
            card: self.card,
            players: self.players@.map_values(|p: Player| p@),
            turn: self.turn as int,
            direction: self.direction,
            losers: self.losers@,
            finished: self.gameover,
        }
    }
}

/// The index `step` places from `turn` in direction `d` among `count`.
fn next_turn(turn: usize, d: Direction, step: usize, count: usize) -> (r: usize)
    requires
        count >= 1,
        turn <= count,
        step <= 256,
    ensures
        r == turn_after(turn as int, d, step as int, count as int),
        r < count,
{
    match d {
        Direction::Next => ((turn as u128 + step as u128) % count as u128) as usize,
        Direction::Previous => {
            let t = turn as u128 + 256 * count as u128 - step as u128;
            let r = (t % count as u128) as usize;
            assert((turn as int - step as int) % (count as int) == (count as int * 256 + (turn as int
                - step as int)) % (count as int)) by {
                vstd::arithmetic::div_mod::lemma_mod_multiples_vanish(
                    256,
                    turn as int - step as int,
                    count as int,
                );
            }
            assert(t == count as int * 256 + (turn as int - step as int));
            r
        },
    }
}

/// Whether no id comes twice among `hands`.
fn distinct_hands(hands: &Vec<(u128, Vec<Card>)>) -> (r: bool)
    ensures
        r == distinct_ids(hands@.map_values(|h: (u128, Vec<Card>)| h.0)),
{
    let ghost ids = hands@.map_values(|h: (u128, Vec<Card>)| h.0);
    let mut i: usize = 0;
    while i < hands.len()
        invariant
            i <= hands@.len(),
            ids == hands@.map_values(|h: (u128, Vec<Card>)| h.0),
            forall|a: int, b: int| 0 <= a < i && 0 <= b < ids.len() && a != b ==> ids[a] != ids[b],
        decreases hands@.len() - i,
    {
        let mut j: usize = 0;
        while j < hands.len()
            invariant
                i < hands@.len(),
                j <= hands@.len(),
                ids == hands@.map_values(|h: (u128, Vec<Card>)| h.0),
                forall|a: int, b: int|
                    0 <= a < i && 0 <= b < ids.len() && a != b ==> ids[a] != ids[b],
                forall|b: int| 0 <= b < j && b != i ==> ids[i as int] != ids[b],
            decreases hands@.len() - j,
        {
            if j != i && hands[i].0 == hands[j].0 {
                assert(ids[i as int] == ids[j as int]);
                return false;
            }
            j += 1;
        }
        i += 1;
    }
    true
}

impl Game {
    pub open spec fn wf(&self) -> bool {
        state_wf(self@)
    }

    /// A game between the given players, each with the given hand, in this
    /// order; the first one plays first.
    pub fn from_hands(hands: Vec<(u128, Vec<Card>)>) -> (r: Result<Game, Error>)
        ensures
            hands@.len() < 2 ==> r == Err::<Game, Error>(Error::NotEnoughPlayers),
            hands@.len() >= 2 && !distinct_ids(hands@.map_values(|h: (u128, Vec<Card>)| h.0)) ==> r
                == Err::<Game, Error>(Error::DuplicatePlayer),
            hands@.len() >= 2 && distinct_ids(hands@.map_values(|h: (u128, Vec<Card>)| h.0)) ==> r
                is Ok,
            r matches Ok(g) ==> g.wf() && g@ == (GameState {
                card: opening_card(),
                players: Seq::new(
                    hands@.len(),
                    |i: int|
                        PlayerState {
                            id: hands@[i].0,
                            cards: hands@[i].1@,
                            cards_count: add_capped(0, hands@[i].1@.len()),
                        },
                ),
                turn: 0,
                direction: Direction::Next,
                losers: Seq::empty(),
                finished: false,
            }),
    {
        if hands.len() < 2 {
            return Err(Error::NotEnoughPlayers);
        }
        if !distinct_hands(&hands) {
            return Err(Error::DuplicatePlayer);
        }
        let ghost spec_hands = hands@;
        let mut players: Vec<Player> = Vec::new();
        let mut rest = hands;
        let mut i: usize = 0;
        let n = rest.len();
        while i < n
            invariant
                n == spec_hands.len(),
                i <= n,
                rest@ == spec_hands.subrange(i as int, n as int),
                players@.len() == i,
                forall|k: int|
                    0 <= k < i ==> players@[k]@ == (PlayerState {
                        id: spec_hands[k].0,
                        cards: spec_hands[k].1@,
                        cards_count: add_capped(0, spec_hands[k].1@.len()),
                    }),
            decreases n - i,
        {
            let (id, cards) = rest.remove(0);
            assert(rest@ =~= spec_hands.subrange(i + 1, n as int));
            players.push(Player::new(id, cards));
            i += 1;
        }
        let game = Game {
            card: Card::new(Element::Energy, Effect::Flow),
            players,
            turn: 0,
            direction: Direction::Next,
            losers: Vec::new(),
            gameover: false,
        };
        assert(ids_of(game@.players, game@.losers) =~= spec_hands.map_values(
            |h: (u128, Vec<Card>)| h.0,
        ));
        assert(game@.players =~= Seq::new(
            spec_hands.len(),
            |i: int|
                PlayerState {
                    id: spec_hands[i].0,
                    cards: spec_hands[i].1@,
                    cards_count: add_capped(0, spec_hands[i].1@.len()),
                },
        ));
        Ok(game)
    }

    /// A game between the ready members of a room, in their order, each
    /// dealt a hand of cards drawn at random.
    pub fn new(members: &Vec<Member>) -> (r: Result<Game, Error>)
        ensures
            ready_ids(members@).len() < 2 ==> r == Err::<Game, Error>(Error::NotEnoughPlayers),
            ready_ids(members@).len() >= 2 && !distinct_ids(ready_ids(members@)) ==> r == Err::<
                Game,
                Error,
            >(Error::DuplicatePlayer),
            ready_ids(members@).len() >= 2 && distinct_ids(ready_ids(members@)) ==> r is Ok,
            r matches Ok(g) ==> g.wf() && fresh_game(g@, members@),
    {
        let mut hands: Vec<(u128, Vec<Card>)> = Vec::new();
        let mut i: usize = 0;
        while i < members.len()
            invariant
                i <= members@.len(),
                hands@.map_values(|h: (u128, Vec<Card>)| h.0) =~= ready_ids(members@.take(i as int)),
                forall|j: int|
                    0 <= j < hands@.len() ==> (#[trigger] hands@[j]).1@.len() == HAND_SIZE && forall|
                        k: int,
                    | 0 <= k < HAND_SIZE ==> dealt_card(#[trigger] hands@[j].1@[k]),
            decreases members@.len() - i,
        {
            assert(members@.take(i + 1).drop_last() =~= members@.take(i as int));
            let m = members[i];
            if m.is_ready {
                let mut cards: Vec<Card> = Vec::new();
                while cards.len() < HAND_SIZE
                    invariant
                        cards@.len() <= HAND_SIZE,
                        forall|k: int| 0 <= k < cards@.len() ==> dealt_card(#[trigger] cards@[k]),
                    decreases HAND_SIZE - cards@.len(),
                {
                    cards.push(random_card());
                }
                hands.push((m.id, cards));
            }
            i += 1;
        }
        assert(members@.take(members@.len() as int) =~= members@);
        let r = Game::from_hands(hands);
        proof {
            if r is Ok {
                let g = r->Ok_0;
                assert(g@.players.map_values(|p: PlayerState| p.id) =~= ready_ids(members@));
            }
        }
        r
    }

    pub fn gameover(&self) -> (r: bool)
        ensures
            r == self@.finished,
    {
        self.gameover
    }

    pub fn turn(&self) -> (r: usize)
        ensures
            r == self@.turn,
    {
        self.turn
    }

    pub fn direction(&self) -> (r: Direction)
        ensures
            r == self@.direction,
    {
        self.direction
    }

    pub fn card(&self) -> (r: Card)
        ensures
            r == self@.card,
    {
        self.card
    }

    pub fn players(&self) -> (r: &Vec<Player>)
        ensures
            r@.map_values(|p: Player| p@) == self@.players,
    {
        &self.players
    }

    pub fn losers(&self) -> (r: &Vec<Loser>)
        ensures
            r@ == self@.losers,
    {
        &self.losers
    }

    /// The first place of player `player_id` in the turn order.
    pub fn get_player_index(&self, player_id: u128) -> (r: Result<usize, Error>)
        ensures
            r is Ok <==> has_player(self@.players, player_id),
            r matches Ok(i) ==> i == player_index(self@.players, player_id) && i
                < self@.players.len() && self@.players[i as int].id == player_id,
            r is Err ==> r == Err::<usize, Error>(Error::PlayerNotFound),
    {
        let mut i: usize = 0;
        while i < self.players.len()
            invariant
                i <= self.players@.len(),
                forall|j: int| 0 <= j < i ==> self@.players[j].id != player_id,
            decreases self.players@.len() - i,
        {
            if self.players[i].id() == player_id {
                assert(self@.players[i as int].id == player_id);
                let ghost ps = self@.players;
                assert(forall|k: int|
                    0 <= k < ps.len() && ps[k].id == player_id && (forall|j: int|
                        0 <= j < k ==> ps[j].id != player_id) ==> k == i as int);
                return Ok(i);
            }
            i += 1;
        }
        Err(Error::PlayerNotFound)
    }

    /// Player `player_id` plays the card at `card_id` of the hand, or draws
    /// one card when `card_id` is `None`; the cards drawn are dealt at random
    /// and never run out.
    pub fn play(&mut self, player_id: u128, card_id: Option<usize>) -> (r: Result<Outcome, Error>)
        requires
            old(self).wf(),
        ensures
            final(self).wf(),
            r != Err::<Outcome, Error>(Error::NoCardsLeft),
            exists|d: Seq<Card>|
                (forall|k: int| 0 <= k < d.len() ==> dealt_card(#[trigger] d[k])) && (
                final(self)@,
                outcome_view(r),
            ) == play_spec(old(self)@, player_id, card_id, d),
    {
        let needed: usize = match card_id {
            None => 1,
            Some(c) => match self.get_player_index(player_id) {
                Ok(i) => match self.players[i].get_card(c) {
                    Some(card) => match card.effect {
                        Effect::Add(n) => n as usize,
                        _ => 0,
                    },
                    None => 0,
                },
                Err(_) => 0,
            },
        };
        let mut draws: Vec<Card> = Vec::new();
        while draws.len() < needed
            invariant
                draws@.len() <= needed,
                forall|k: int| 0 <= k < draws@.len() ==> dealt_card(#[trigger] draws@[k]),
            decreases needed - draws@.len(),
        {
            draws.push(random_card());
        }
        let r = self.play_with(player_id, card_id, &draws);
        assert(forall|k: int| 0 <= k < draws@.len() ==> dealt_card(#[trigger] draws@[k]));
        r
    }

    /// Player `player_id` plays the card at `card_id` of the hand, or draws
    /// one card when `card_id` is `None`; the cards to draw come from the
    /// front of `draws`. A refused play changes nothing.
    pub fn play_with(&mut self, player_id: u128, card_id: Option<usize>, draws: &Vec<Card>) -> (r:
        Result<Outcome, Error>)
        requires
            old(self).wf(),
        ensures
            final(self).wf(),
            (final(self)@, outcome_view(r)) == play_spec(old(self)@, player_id, card_id, draws@),
    {
        if self.gameover {
            return Err(Error::Finished);
        }
        let index = self.get_player_index(player_id)?;
        if index != self.turn {
            return Err(Error::WrongTurn);
        }
        let ghost g = self@;
        match card_id {
            None => {
                if draws.len() < 1 {
                    return Err(Error::NoCardsLeft);
                }
                self.draw_turn(index, draws);
                Ok(Outcome::Continue)
            },
            Some(c) => {
                let card = match self.players[index].get_card(c) {
                    Some(card) => card,
                    None => {
                        return Err(Error::CardNotFound);
                    },
                };
                if card.play(self.card).is_err() {
                    return Err(Error::WrongCard);
                }
                let extra: usize = match card.effect {
                    Effect::Add(n) => n as usize,
                    _ => 0,
                };
                if extra > draws.len() {
                    return Err(Error::NoCardsLeft);
                }
                let r = self.resolve_play(index, c, draws);
                Ok(r)
            },
        }
    }

    /// The player at `index`, whose turn it is, draws the first card of
    /// `draws` instead of playing.
    fn draw_turn(&mut self, index: usize, draws: &Vec<Card>)
        requires
            old(self).wf(),
            !old(self)@.finished,
            index == old(self)@.turn,
            draws@.len() >= 1,
        ensures
            final(self).wf(),
            final(self)@ == (GameState {
                players: old(self)@.players.update(
                    index as int,
                    with_cards(old(self)@.players[index as int], draws@.take(1)),
                ),
                turn: turn_after(index as int, old(self)@.direction, 1, old(self)@.players.len() as int),
                ..old(self)@
            }),
    {
        let ghost g = self@;
        self.players[index].add_cards(draws, 1);
        self.turn = next_turn(self.turn, self.direction, 1, self.players.len());
        assert(self@.players =~= g.players.update(
            index as int,
            with_cards(g.players[index as int], draws@.take(1)),
        ));
        proof {
            lemma_ids_kept(g.players, self@.players, g.losers);
        }
    }

    /// The legal play of the card at `c` by the player at `index`, whose
    /// turn it is.
    #[verifier::rlimit(40)]
    fn resolve_play(&mut self, index: usize, c: usize, draws: &Vec<Card>) -> (r: Outcome)
        requires
            old(self).wf(),
            !old(self)@.finished,
            index == old(self)@.turn,
            c < old(self)@.players[index as int].cards.len(),
            playable(old(self)@.players[index as int].cards[c as int], old(self)@.card),
            cards_to_draw(old(self)@.players[index as int].cards[c as int].effect) <= draws@.len(),
        ensures
            final(self).wf(),
            final(self)@ == resolve(old(self)@, index as int, c as int, draws@).0,
            outcome_view(Ok(r)) == Ok::<Option<Seq<Loser>>, Error>(
                resolve(old(self)@, index as int, c as int, draws@).1,
            ),
    {
        let ghost g = self@;
        proof {
            lemma_resolve_wf(g, index as int, c as int, draws@);
        }
        let card = self.players[index].remove_card(c);
        self.card = card;
        match card.effect {
            Effect::Flow => self.direction.switch(),
            _ => {},
        }
        let step: usize = match card.effect {
            Effect::Stun => 2,
            _ => 1,
        };
        let extra: usize = match card.effect {
            Effect::Add(n) => n as usize,
            _ => 0,
        };
        let ghost after = self@.players[index as int];
        assert(after == PlayerState { cards: g.players[index as int].cards.remove(c as int), ..g.players[index as int] });
        if self.players[index].cards().len() == 0 {
            let out = self.players.remove(index);
            let loser = out.into_loser();
            self.losers.push(loser);
            assert(self@.players =~= g.players.remove(index as int));
        } else {
            assert(self@.players =~= g.players.update(index as int, after));
        }
        if self.players.len() <= 1 {
            if self.players.len() == 1 {
                let winner = self.players.remove(0);
                self.losers.push(winner.into_loser());
            }
            self.gameover = true;
            self.turn = 0;
            assert(self@.players =~= Seq::<PlayerState>::empty());
            return Outcome::GameOver(Losers::ranked(&self.losers));
        }
        let ghost players = self@.players;
        self.turn = next_turn(self.turn, self.direction, step, self.players.len());
        let count = self.players.len();
        let ghost mid = self@;
        let mut k: usize = 0;
        while k < extra
            invariant
                k <= extra <= draws@.len(),
                extra == cards_to_draw(card.effect),
                count == self.players@.len() == players.len(),
                count >= 2,
                index <= count,
                self@.players == dealt_round(players, index as int, self.direction, k as nat, draws@),
                self@ == (GameState { players: self@.players, ..mid }),
                mid.players == players,
            decreases extra - k,
        {
            let slot = next_turn(index, self.direction, k + 1, count);
            proof {
                lemma_dealt_round_len(players, index as int, self.direction, k as nat, draws@);
            }
            let ghost before = self@.players;
            self.players[slot].add_card(draws[k]);
            assert(self@.players =~= before.update(
                slot as int,
                with_cards(before[slot as int], seq![draws@[k as int]]),
            ));
            k += 1;
        }
        proof {
            lemma_dealt_round_len(players, index as int, self.direction, k as nat, draws@);
        }
        Outcome::Continue
    }
}

/// In a well formed game the player at place `t` is found there by its id.
pub proof fn lemma_turn_holder(g: GameState, id: u128)
    requires
        state_wf(g),
        !g.finished,
        g.players[g.turn].id == id,
    ensures
        has_player(g.players, id),
        player_index(g.players, id) == g.turn,
{
    assert(g.players[g.turn].id == id);
    lemma_player_index(g.players, id);
    let k = player_index(g.players, id);
    let ids = ids_of(g.players, g.losers);
    assert(ids[k] == g.players[k].id);
    assert(ids[g.turn] == g.players[g.turn].id);
}

/// A legal attack that does not end the game keeps the direction and moves
/// the turn one place.
pub proof fn lemma_attack_moves_one(g: GameState, id: u128, c: usize, draws: Seq<Card>)
    requires
        state_wf(g),
        !g.finished,
        g.players[g.turn].id == id,
        c < g.players[g.turn].cards.len(),
        g.players[g.turn].cards[c as int].effect is Atk,
        playable(g.players[g.turn].cards[c as int], g.card),
        g.players[g.turn].cards.len() > 1,
    ensures
        play_spec(g, id, Some(c), draws).1 == Ok::<Option<Seq<Loser>>, Error>(None),
        play_spec(g, id, Some(c), draws).0.direction == g.direction,
        play_spec(g, id, Some(c), draws).0.turn == turn_after(
            g.turn,
            g.direction,
            1,
            g.players.len() as int,
        ),
{
    lemma_turn_holder(g, id);
}

/// Among four players, attacks from place 0 and 1, a flow from place 2 and
/// attacks after it give the turns 1, 2, 1, 0, 3, 2.
pub proof fn lemma_flow_sequence()
    ensures
        turn_after(0, Direction::Next, 1, 4) == 1,
        turn_after(1, Direction::Next, 1, 4) == 2,
        turn_after(2, flipped(Direction::Next), 1, 4) == 1,
        turn_after(1, Direction::Previous, 1, 4) == 0,
        turn_after(0, Direction::Previous, 1, 4) == 3,
        turn_after(3, Direction::Previous, 1, 4) == 2,
{
}

/// A legal stun that does not end the game moves the turn two places in the
/// current direction: the player after the next one plays.
pub proof fn lemma_stun_skips_one(g: GameState, id: u128, c: usize, draws: Seq<Card>)
    requires
        state_wf(g),
        !g.finished,
        g.players[g.turn].id == id,
        c < g.players[g.turn].cards.len(),
        g.players[g.turn].cards[c as int].effect == Effect::Stun,
        playable(g.players[g.turn].cards[c as int], g.card),
        g.players[g.turn].cards.len() > 1,
    ensures
        play_spec(g, id, Some(c), draws).1 == Ok::<Option<Seq<Loser>>, Error>(None),
        play_spec(g, id, Some(c), draws).0.direction == g.direction,
        play_spec(g, id, Some(c), draws).0.turn == turn_after(
            g.turn,
            g.direction,
            2,
            g.players.len() as int,
        ),
        play_spec(g, id, Some(c), draws).0.players.len() == g.players.len(),
{
    lemma_turn_holder(g, id);
    let p = g.players[g.turn];
    let after = PlayerState { cards: p.cards.remove(c as int), ..p };
    lemma_dealt_round_len(g.players.update(g.turn, after), g.turn, g.direction, 0, draws);
}

/// A legal flow that does not end the game turns the direction round, and
/// the turn moves one place in the new direction.
pub proof fn lemma_flow_reverses(g: GameState, id: u128, c: usize, draws: Seq<Card>)
    requires
        state_wf(g),
        !g.finished,
        g.players[g.turn].id == id,
        c < g.players[g.turn].cards.len(),
        g.players[g.turn].cards[c as int].effect == Effect::Flow,
        playable(g.players[g.turn].cards[c as int], g.card),
        g.players[g.turn].cards.len() > 1,
    ensures
        play_spec(g, id, Some(c), draws).1 == Ok::<Option<Seq<Loser>>, Error>(None),
        play_spec(g, id, Some(c), draws).0.direction == flipped(g.direction),
        play_spec(g, id, Some(c), draws).0.turn == turn_after(
            g.turn,
            flipped(g.direction),
            1,
            g.players.len() as int,
        ),
{
    lemma_turn_holder(g, id);
}

/// A player who plays the last card of the hand leaves the turn order and is
/// the next entry of the eliminated list, with `cards_had` the number of
/// cards the player was given over the game.
pub proof fn lemma_empty_hand_eliminates(g: GameState, id: u128, c: usize, draws: Seq<Card>)
    requires
        state_wf(g),
        !g.finished,
        g.players[g.turn].id == id,
        g.players[g.turn].cards.len() == 1,
        c == 0,
        playable(g.players[g.turn].cards[0], g.card),
        cards_to_draw(g.players[g.turn].cards[0].effect) <= draws.len(),
    ensures
        play_spec(g, id, Some(c), draws).0.losers.len() > g.losers.len(),
        play_spec(g, id, Some(c), draws).0.losers[g.losers.len() as int] == (Loser {
            id,
            points: 0,
            cards_had: g.players[g.turn].cards_count,
        }),
        !play_spec(g, id, Some(c), draws).0.finished ==> play_spec(
            g,
            id,
            Some(c),
            draws,
        ).0.players.len() == g.players.len() - 1,
        !play_spec(g, id, Some(c), draws).0.finished ==> play_spec(
            g,
            id,
            Some(c),
            draws,
        ).0.players.map_values(|p: PlayerState| p.id) == g.players.remove(g.turn).map_values(
            |p: PlayerState| p.id,
        ),
{
    lemma_turn_holder(g, id);
    let p = g.players[g.turn];
    let after = PlayerState { cards: p.cards.remove(0), ..p };
    assert(after.cards.len() == 0);
    let losers = g.losers.push(loser_of(after));
    assert(losers[g.losers.len() as int] == loser_of(after));
    let players = g.players.remove(g.turn);
    if players.len() == 1 {
        assert(losers.push(loser_of(players[0]))[g.losers.len() as int] == loser_of(after));
    }
    if players.len() > 1 {
        let card = p.cards[0];
        let direction = if card.effect == Effect::Flow {
            flipped(g.direction)
        } else {
            g.direction
        };
        lemma_dealt_round_len(players, g.turn, direction, cards_to_draw(card.effect), draws);
        let dealt = dealt_round(players, g.turn, direction, cards_to_draw(card.effect), draws);
        assert(dealt.map_values(|p: PlayerState| p.id) =~= players.map_values(|p: PlayerState| p.id));
    }
}

/// Every play keeps a game well formed. A play finishes the game exactly when
/// it leaves a single player in it, that player then closes the eliminated
/// list, and a finished game refuses every further play and stays as it is.
pub proof fn lemma_finish(g: GameState, id: u128, card_id: Option<usize>, draws: Seq<Card>)
    requires
        state_wf(g),
    ensures
        state_wf(play_spec(g, id, card_id, draws).0),
        g.finished ==> play_spec(g, id, card_id, draws) == (g, Err::<Option<Seq<Loser>>, Error>(
            Error::Finished,
        )),
        !g.finished && play_spec(g, id, card_id, draws).0.finished ==> {
            let i = g.turn;
            let c = card_id.unwrap() as int;
            &&& card_id is Some
            &&& g.players.len() == 2
            &&& g.players[i].cards.len() == 1
            &&& play_spec(g, id, card_id, draws).0.losers == g.losers.push(
                loser_of(PlayerState { cards: Seq::empty(), ..g.players[i] }),
            ).push(loser_of(g.players[1 - i]))
            &&& play_spec(g, id, card_id, draws).1 == Ok::<Option<Seq<Loser>>, Error>(
                Some(ranked(play_spec(g, id, card_id, draws).0.losers)),
            )
        },
        !g.finished && play_spec(g, id, card_id, draws).1 is Ok && !play_spec(
            g,
            id,
            card_id,
            draws,
        ).0.finished ==> play_spec(g, id, card_id, draws).0.players.len() >= 2,
{
    if !g.finished && has_player(g.players, id) && player_index(g.players, id) == g.turn {
        match card_id {
            None => {
                if draws.len() >= 1 {
                    let i = g.turn;
                    lemma_ids_kept(
                        g.players,
                        g.players.update(i, with_cards(g.players[i], draws.take(1))),
                        g.losers,
                    );
                    vstd::arithmetic::div_mod::lemma_mod_bound(i + 1, g.players.len() as int);
                    vstd::arithmetic::div_mod::lemma_mod_bound(i - 1, g.players.len() as int);
                }
            },
            Some(c) => {
                if c < g.players[g.turn].cards.len() {
                    lemma_resolve_wf(g, g.turn, c as int, draws);
                }
                if c < g.players[g.turn].cards.len() && playable(
                    g.players[g.turn].cards[c as int],
                    g.card,
                ) && cards_to_draw(g.players[g.turn].cards[c as int].effect) <= draws.len() {
                    let p = g.players[g.turn];
                    let card = p.cards[c as int];
                    let after = PlayerState { cards: p.cards.remove(c as int), ..p };
                    let direction = if card.effect == Effect::Flow {
                        flipped(g.direction)
                    } else {
                        g.direction
                    };
                    let players = if after.cards.len() == 0 {
                        g.players.remove(g.turn)
                    } else {
                        g.players.update(g.turn, after)
                    };
                    if players.len() > 1 {
                        lemma_dealt_round_len(players, g.turn, direction, cards_to_draw(card.effect), draws);
                    }
                    if after.cards.len() == 0 {
                        assert(after.cards =~= Seq::<Card>::empty());
                        if g.players.len() == 2 {
                            let rest = g.players.remove(g.turn);
                            assert(rest[0] == g.players[1 - g.turn]);
                        }
                    }
                }
            },
        }
    }
}

} // verus!
