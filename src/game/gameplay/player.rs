use vstd::prelude::*;
use super::card::Card;

verus! {

/// `a + b`, held at `u64::MAX` instead of overflowing.
pub open spec fn add_capped(a: u64, b: nat) -> u64 {
    if a + b > u64::MAX {
        u64::MAX
    } else {
        (a + b) as u64
    }
}

/// What a player of a running game is: an id, the cards in hand, and how
/// many cards the player has been given over the game.
pub struct PlayerState {
    pub id: u128,
    pub cards: Seq<Card>,
    pub cards_count: u64,
}

/// A player of a running game.
#[derive(Debug, Clone)]
pub struct Player {
    id: u128,
    cards: Vec<Card>,
    cards_count: u64,
}

impl View for Player {
    type V = PlayerState;

    closed spec fn view(&self) -> PlayerState {
        PlayerState { id: self.id, cards: self.cards@, cards_count: self.cards_count }
    }
}

/// `p` after it was given `drawn`.
pub open spec fn with_cards(p: PlayerState, drawn: Seq<Card>) -> PlayerState {
    PlayerState { cards: p.cards + drawn, cards_count: add_capped(p.cards_count, drawn.len()), ..p }
}

impl Player {
    /// A player dealt `cards`.
    pub fn new(id: u128, cards: Vec<Card>) -> (r: Player)
        ensures
            r@ == (PlayerState { id, cards: cards@, cards_count: add_capped(0, cards@.len()) }),
    {
        let n = cards.len();
        let count: u64 = if n as u128 > u64::MAX as u128 {
            u64::MAX
        } else {
            n as u64
        };
        Player { id, cards, cards_count: count }
    }

    pub fn id(&self) -> (r: u128)
        ensures
            r == self@.id,
    {
        self.id
    }

    /// Gives the player one card.
    pub fn add_card(&mut self, card: Card)
        ensures
            final(self)@ == with_cards(old(self)@, seq![card]),
    {
        let ghost before = self.cards@;
        self.cards.push(card);
        assert(self.cards@ =~= before + seq![card]);
        if self.cards_count < u64::MAX {
            self.cards_count = self.cards_count + 1;
        }
    }

    /// Gives the player the first `n` cards of `pile`.
    pub fn add_cards(&mut self, pile: &Vec<Card>, n: usize)
        requires
            n <= pile.len(),
        ensures
            final(self)@ == with_cards(old(self)@, pile@.take(n as int)),
    {
        let ghost start = self@;
        let mut k: usize = 0;
        while k < n
            invariant
                k <= n <= pile.len(),
                self@ == with_cards(start, pile@.take(k as int)),
            decreases n - k,
        {
            self.add_card(pile[k]);
            assert(pile@.take(k as int).push(pile@[k as int]) =~= pile@.take(k + 1));
            assert(start.cards + pile@.take(k as int) + seq![pile@[k as int]] =~= start.cards
                + pile@.take(k + 1));
            k += 1;
        }
    }

    /// Takes the card at `index` out of the hand.
    pub fn remove_card(&mut self, index: usize) -> (r: Card)
        requires
            index < old(self)@.cards.len(),
        ensures
            r == old(self)@.cards[index as int],
            final(self)@ == (PlayerState { cards: old(self)@.cards.remove(index as int), ..old(self)@ }),
    {
        self.cards.remove(index)
    }

    pub fn get_card(&self, index: usize) -> (r: Option<Card>)
        ensures
            index < self@.cards.len() ==> r == Some(self@.cards[index as int]),
            index >= self@.cards.len() ==> r is None,
    {
        if index < self.cards.len() {
            Some(self.cards[index])
        } else {
            None
        }
    }

    pub fn cards_count(&self) -> (r: u64)
        ensures
            r == self@.cards_count,
    {
        self.cards_count
    }

    pub fn cards(&self) -> (r: &Vec<Card>)
        ensures
            r@ == self@.cards,
    {
        &self.cards
    }

    /// The record of this player once out of the game, with no points yet.
    pub fn into_loser(self) -> (r: Loser)
        ensures
            r == loser_of(self@),
    {
        Loser { id: self.id, points: 0, cards_had: self.cards_count }
    }
}

/// A player out of the game: how many points the game gave and how many
/// cards the player was given over it.
#[derive(Debug, Clone, Copy, PartialEq, Eq, Structural)]
pub struct Loser {
    pub id: u128,
    pub points: u64,
    pub cards_had: u64,
}

pub open spec fn loser_of(p: PlayerState) -> Loser {
    Loser { id: p.id, points: 0, cards_had: p.cards_count }
}

/// Points for the player at place `i` (from 0) of `n` in order of
/// elimination: round(10 * (i + 1) / n), halves up, so the last one left
/// gets 10.
pub open spec fn rank_points(i: int, n: int) -> int {
    (20 * (i + 1) + n) / (2 * n)
}

/// `losers`, in the same order, each with the points of its place.
pub open spec fn ranked(losers: Seq<Loser>) -> Seq<Loser> {
    Seq::new(
        losers.len(),
        |i: int| Loser { points: rank_points(i, losers.len() as int) as u64, ..losers[i] },
    )
}

impl Loser {
    pub fn new(id: u128) -> (r: Loser)
        ensures
            r == (Loser { id, points: 0, cards_had: 0 }),
    {
        Loser { id, points: 0, cards_had: 0 }
    }

    pub fn id(&self) -> (r: u128)
        ensures
            r == self.id,
    {
        self.id
    }

    pub fn points(&self) -> (r: u64)
        ensures
            r == self.points,
    {
        self.points
    }

    pub fn cards_had(&self) -> (r: u64)
        ensures
            r == self.cards_had,
    {
        self.cards_had
    }
}

/// The players of a finished game in order of elimination, the last one left
/// at the end, with their points.
#[derive(Debug, Clone)]
pub struct Losers(pub Vec<Loser>);

proof fn lemma_rank_points_bound(i: int, n: int)
    requires
        0 <= i < n,
    ensures
        0 <= rank_points(i, n) <= 10,
{
    assert(20 * (i + 1) + n <= 21 * n) by (nonlinear_arith)
        requires
            0 <= i < n,
    ;
    assert((20 * (i + 1) + n) / (2 * n) <= 10) by (nonlinear_arith)
        requires
            20 * (i + 1) + n <= 21 * n,
            n > 0,
    ;
    assert((20 * (i + 1) + n) / (2 * n) >= 0) by (nonlinear_arith)
        requires
            0 <= i,
            n > 0,
    ;
}

impl Losers {
    /// Gives each player of `losers` the points of its place.
    pub fn ranked(losers: &Vec<Loser>) -> (r: Losers)
        ensures
            r.0@ == ranked(losers@),
    {
        let n = losers.len();
        let mut out: Vec<Loser> = Vec::new();
        let mut i: usize = 0;
        while i < n
            invariant
                n == losers.len(),
                i <= n,
                out@ =~= ranked(losers@).take(i as int),
            decreases n - i,
        {
            proof {
                lemma_rank_points_bound(i as int, n as int);
            }
            let points = ((20 * (i as u128 + 1) + n as u128) / (2 * n as u128)) as u64;
            let l = losers[i];
            out.push(Loser { id: l.id, points, cards_had: l.cards_had });
            i += 1;
        }
        Losers(out)
    }
}

} // verus!
