use card_rooms::game::gameplay::card::{Card, Effect, Element};
use card_rooms::game::gameplay::player::{Loser, Losers};
use card_rooms::game::gameplay::{Direction, Error, Game, Outcome, HAND_SIZE};
use card_rooms::game::rooms::player::Player as Member;

fn atk() -> Card {
    Card::new(Element::Energy, Effect::Atk(12))
}

fn flow() -> Card {
    Card::new(Element::Energy, Effect::Flow)
}

fn stun() -> Card {
    Card::new(Element::Energy, Effect::Stun)
}

fn game_of(hands: Vec<Vec<Card>>) -> Game {
    let hands: Vec<(u128, Vec<Card>)> =
        hands.into_iter().enumerate().map(|(i, h)| (i as u128 + 1, h)).collect();
    Game::from_hands(hands).ok().unwrap()
}

fn ok(r: Result<Outcome, Error>) {
    assert!(matches!(r, Ok(Outcome::Continue)), "{:?}", r);
}

#[test]
fn a_game_needs_two_players() {
    let r = Game::from_hands(vec![(1, vec![atk()])]);
    assert!(matches!(r, Err(Error::NotEnoughPlayers)));
    let r = Game::from_hands(vec![]);
    assert!(matches!(r, Err(Error::NotEnoughPlayers)));
}

#[test]
fn a_game_refuses_a_player_twice() {
    let r = Game::from_hands(vec![(1, vec![atk()]), (2, vec![atk()]), (1, vec![atk()])]);
    assert!(matches!(r, Err(Error::DuplicatePlayer)));
    let mut a = Member::new(3);
    a.is_ready = true;
    assert!(matches!(Game::new(&vec![a, a]), Err(Error::DuplicatePlayer)));
}

#[test]
fn a_new_game_starts_with_the_opening_card() {
    let g = game_of(vec![vec![atk()], vec![atk()]]);
    assert_eq!(g.card(), Card::new(Element::Energy, Effect::Flow));
    assert_eq!(g.turn(), 0);
    assert_eq!(g.direction(), Direction::Next);
    assert!(!g.gameover());
    assert_eq!(g.players()[1].id(), 2);
}

#[test]
fn turn_sequence_with_flow() {
    let hand = || vec![atk(), atk(), flow(), atk()];
    let mut g = game_of(vec![hand(), hand(), hand(), hand()]);
    let none: Vec<Card> = Vec::new();
    let mut turns = vec![g.turn()];
    // Players 0 and 1 attack, player 2 plays a flow, then the others attack.
    ok(g.play_with(1, Some(0), &none));
    turns.push(g.turn());
    ok(g.play_with(2, Some(0), &none));
    turns.push(g.turn());
    ok(g.play_with(3, Some(2), &none));
    turns.push(g.turn());
    assert_eq!(g.direction(), Direction::Previous);
    ok(g.play_with(2, Some(0), &none));
    turns.push(g.turn());
    ok(g.play_with(1, Some(0), &none));
    turns.push(g.turn());
    ok(g.play_with(4, Some(0), &none));
    turns.push(g.turn());
    assert_eq!(turns, vec![0, 1, 2, 1, 0, 3, 2]);
}

#[test]
fn stun_skips_one_player() {
    let hand = || vec![stun(), stun(), atk()];
    let mut g = game_of(vec![hand(), hand(), hand(), hand()]);
    let none: Vec<Card> = Vec::new();
    ok(g.play_with(1, Some(0), &none));
    assert_eq!(g.turn(), 2);
    ok(g.play_with(3, Some(0), &none));
    assert_eq!(g.turn(), 0);
    // Backwards, a stun from 0 skips 3 and lands on 2.
    let mut h = game_of(vec![vec![flow(), atk()], hand(), hand(), hand()]);
    ok(h.play_with(1, Some(0), &none));
    assert_eq!(h.turn(), 3);
    ok(h.play_with(4, Some(0), &none));
    assert_eq!(h.turn(), 1);
}

#[test]
fn add_makes_the_next_players_draw_one_each() {
    let add = Card::new(Element::Energy, Effect::Add(2));
    let mut g = game_of(vec![vec![add, atk()], vec![atk()], vec![atk()]]);
    let drawn = vec![stun(), flow(), atk()];
    ok(g.play_with(1, Some(0), &drawn));
    assert_eq!(g.turn(), 1);
    assert_eq!(g.players()[1].cards(), &vec![atk(), stun()]);
    assert_eq!(g.players()[2].cards(), &vec![atk(), flow()]);
    assert_eq!(g.players()[1].cards_count(), 2);
    assert_eq!(g.players()[0].cards(), &vec![atk()]);
}

#[test]
fn add_wraps_round_the_table() {
    let add = Card::new(Element::Energy, Effect::Add(3));
    let mut g = game_of(vec![vec![atk(), add, atk()], vec![atk()], vec![atk()]]);
    let drawn = vec![stun(), flow(), stun()];
    ok(g.play_with(1, Some(1), &drawn));
    assert_eq!(g.players()[1].cards(), &vec![atk(), stun()]);
    assert_eq!(g.players()[2].cards(), &vec![atk(), flow()]);
    assert_eq!(g.players()[0].cards(), &vec![atk(), atk(), stun()]);
    assert_eq!(g.players()[0].cards_count(), 4);
}

#[test]
fn add_without_enough_cards_is_refused() {
    let add = Card::new(Element::Energy, Effect::Add(3));
    let mut g = game_of(vec![vec![add, atk()], vec![atk()]]);
    let r = g.play_with(1, Some(0), &vec![atk()]);
    assert!(matches!(r, Err(Error::NoCardsLeft)));
    assert_eq!(g.players()[0].cards().len(), 2);
    assert_eq!(g.turn(), 0);
}

#[test]
fn drawing_instead_of_playing() {
    let mut g = game_of(vec![vec![atk()], vec![atk()]]);
    ok(g.play_with(1, None, &vec![stun()]));
    assert_eq!(g.players()[0].cards(), &vec![atk(), stun()]);
    assert_eq!(g.players()[0].cards_count(), 2);
    assert_eq!(g.turn(), 1);
    let r = g.play_with(2, None, &Vec::new());
    assert!(matches!(r, Err(Error::NoCardsLeft)));
    assert_eq!(g.turn(), 1);
}

#[test]
fn refused_plays_change_nothing() {
    let weak = Card::new(Element::Air, Effect::Flow);
    let mut g = game_of(vec![vec![atk(), weak], vec![atk()]]);
    let none: Vec<Card> = Vec::new();
    assert!(matches!(g.play_with(2, Some(0), &none), Err(Error::WrongTurn)));
    assert!(matches!(g.play_with(9, Some(0), &none), Err(Error::PlayerNotFound)));
    assert!(matches!(g.play_with(1, Some(5), &none), Err(Error::CardNotFound)));
    ok(g.play_with(1, Some(0), &none));
    // An Air flow on a Water attack (0.50) is refused.
    let mut h = game_of(vec![
        vec![Card::new(Element::Water, Effect::Atk(12)), atk()],
        vec![weak, atk()],
    ]);
    ok(h.play_with(1, Some(0), &none));
    assert!(matches!(h.play_with(2, Some(0), &none), Err(Error::WrongCard)));
    assert_eq!(h.players()[1].cards().len(), 2);
    assert_eq!(h.turn(), 1);
}

#[test]
fn emptied_hand_is_eliminated() {
    let three = || vec![atk(), atk(), atk()];
    let mut g = game_of(vec![vec![atk()], three(), three()]);
    let none: Vec<Card> = Vec::new();
    ok(g.play_with(1, None, &vec![atk()]));
    ok(g.play_with(2, Some(0), &none));
    ok(g.play_with(3, Some(0), &none));
    ok(g.play_with(1, Some(0), &none));
    ok(g.play_with(2, Some(0), &none));
    ok(g.play_with(3, Some(0), &none));
    assert_eq!(g.turn(), 0);
    ok(g.play_with(1, Some(0), &none));
    assert_eq!(g.players().len(), 2);
    assert!(g.players().iter().all(|p| p.id() != 1));
    assert_eq!(g.losers().len(), 1);
    assert_eq!(g.losers()[0], Loser { id: 1, points: 0, cards_had: 2 });
    assert!(!g.gameover());
}

#[test]
fn game_ends_with_one_player_left() {
    let mut g = game_of(vec![vec![atk()], vec![atk(), atk()]]);
    let none: Vec<Card> = Vec::new();
    let r = g.play_with(1, Some(0), &none);
    match r {
        Ok(Outcome::GameOver(losers)) => {
            assert_eq!(
                losers.0,
                vec![
                    Loser { id: 1, points: 5, cards_had: 1 },
                    Loser { id: 2, points: 10, cards_had: 2 },
                ]
            );
        }
        other => panic!("{:?}", other),
    }
    assert!(g.gameover());
    assert!(g.players().is_empty());
    assert!(matches!(g.play_with(2, Some(0), &none), Err(Error::Finished)));
    assert!(matches!(g.play_with(1, None, &vec![atk()]), Err(Error::Finished)));
}

#[test]
fn ranking_points_round_half_up() {
    let ls: Vec<Loser> = (1..=4).map(|i| Loser::new(i)).collect();
    let ranked = Losers::ranked(&ls);
    let points: Vec<u64> = ranked.0.iter().map(|l| l.points()).collect();
    // round(10 * k / 4) for k = 1..4: 2.5, 5, 7.5, 10.
    assert_eq!(points, vec![3, 5, 8, 10]);
    let three: Vec<Loser> = (1..=3).map(|i| Loser::new(i)).collect();
    let points: Vec<u64> = Losers::ranked(&three).0.iter().map(|l| l.points()).collect();
    assert_eq!(points, vec![3, 7, 10]);
}

#[test]
fn new_game_deals_to_ready_members() {
    let mut a = Member::new(10);
    a.is_ready = true;
    let b = Member::new(11);
    let mut c = Member::new(12);
    c.is_ready = true;
    let g = Game::new(&vec![a, b, c]).ok().unwrap();
    let ids: Vec<u128> = g.players().iter().map(|p| p.id()).collect();
    assert_eq!(ids, vec![10, 12]);
    for p in g.players() {
        assert_eq!(p.cards().len(), HAND_SIZE);
        assert_eq!(p.cards_count(), HAND_SIZE as u64);
    }
    assert!(matches!(Game::new(&vec![a, b]), Err(Error::NotEnoughPlayers)));
}

#[test]
fn random_draws_never_run_out() {
    let mut g = game_of(vec![vec![atk()], vec![atk()]]);
    assert!(matches!(g.play(1, None), Ok(Outcome::Continue)));
    assert_eq!(g.players()[0].cards().len(), 2);
    assert_eq!(g.turn(), 1);
}

#[test]
fn direction_switches_back_and_forth() {
    let mut d = Direction::Next;
    d.switch();
    assert_eq!(d, Direction::Previous);
    d.switch();
    assert_eq!(d, Direction::Next);
}
