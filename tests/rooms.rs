use card_rooms::game::gameplay::player::Loser;
use card_rooms::game::gameplay::Error as GameError;
use card_rooms::game::rooms::player::Player;
use card_rooms::game::rooms::{
    get_rooms_list, leave_room, open_room, Argument, Departure, Error, Room, ID_ATTEMPTS,
};
use card_rooms::runtime_storage::{Change, DataTable, Table};

fn room(max: usize) -> Room {
    Room::create("table".to_string(), true, None, 1, max).ok().unwrap()
}

#[test]
fn create_sets_owner_as_first_member() {
    let r = Room::create("table".to_string(), false, Some("pw".to_string()), 7, 4).ok().unwrap();
    assert_eq!(r.name(), "table");
    assert_eq!(r.password(), &Some("pw".to_string()));
    assert_eq!(r.owner(), 7);
    assert_eq!(r.max_players(), 4);
    assert!(!r.is_public);
    assert_eq!(r.players().records(), &vec![Player::new(7)]);
    assert_eq!(r.id().len(), 6);
    assert!(r.id().chars().all(|c| c.is_ascii_digit()));
    assert!(r.game().is_none());
}

#[test]
fn create_checks_its_arguments() {
    let e = Room::create(String::new(), true, None, 1, 2).err().unwrap();
    assert_eq!(e, Error::BadArgument(Argument::Name));
    let long = "x".repeat(33);
    let e = Room::create("a".to_string(), true, Some(long), 1, 2).err().unwrap();
    assert_eq!(e, Error::BadArgument(Argument::Password));
    let e = Room::create("a".to_string(), true, None, 1, 1).err().unwrap();
    assert_eq!(e, Error::BadArgument(Argument::MaxPlayers));
    let ok = Room::create("a".to_string(), true, Some("y".repeat(32)), 1, 2);
    assert!(ok.is_ok());
}

#[test]
fn empty_password_means_none() {
    let r = Room::create("a".to_string(), true, Some(String::new()), 1, 2).ok().unwrap();
    assert_eq!(r.password(), &None);
}

#[test]
fn joining_a_full_room_is_refused() {
    let mut r = room(2);
    assert_eq!(r.join(None, 2), Ok(()));
    assert_eq!(r.join(None, 3), Err(Error::Full));
    // A member joining again is no new member.
    assert_eq!(r.join(None, 2), Ok(()));
    assert_eq!(r.players().len(), 2);
}

#[test]
fn joining_with_a_wrong_password_is_refused() {
    let mut r = Room::create("a".to_string(), true, Some("secret".to_string()), 1, 4).ok().unwrap();
    assert_eq!(r.join(Some("guess".to_string()), 2), Err(Error::WrongPassword));
    assert_eq!(r.join(None, 2), Err(Error::WrongPassword));
    assert_eq!(r.join(Some("secret".to_string()), 2), Ok(()));
    assert_eq!(r.players().len(), 2);
}

#[test]
fn join_tells_every_member() {
    let mut r = room(4);
    r.take_notices();
    r.join(None, 2).unwrap();
    r.join(None, 3).unwrap();
    let notices = r.take_notices();
    assert_eq!(notices.len(), 2);
    assert_eq!(notices[1].change, Change::Insert);
    assert_eq!(notices[1].subject, 3);
    assert_eq!(notices[1].recipients, vec![1, 2, 3]);
    assert_eq!(notices[1].value, Player::new(3));
}

#[test]
fn owner_leaving_hands_the_room_on() {
    let mut r = room(4);
    r.join(None, 2).unwrap();
    r.join(None, 3).unwrap();
    assert_eq!(r.leave(1), Ok(true));
    assert_eq!(r.owner(), 2);
    assert_eq!(r.leave(3), Ok(false));
    assert_eq!(r.owner(), 2);
    assert_eq!(r.leave(3), Err(Error::PlayerNotInRoom));
    assert_eq!(r.leave(2), Err(Error::CantAssignNewOwner));
    assert_eq!(r.players().len(), 0);
}

#[test]
fn last_member_leaving_deletes_the_room() {
    let mut rooms: DataTable<Room> = DataTable::new();
    let id = open_room(&mut rooms, room(4)).unwrap();
    let mut second = room(4);
    second.join(None, 5).unwrap();
    let id2 = open_room(&mut rooms, second).unwrap();
    assert_ne!(id, id2);
    assert_eq!(rooms.len(), 2);
    assert_eq!(leave_room(&mut rooms, &id2, 1), Ok(Departure::OwnerChanged));
    assert_eq!(rooms.get(&id2).unwrap().owner(), 5);
    assert_eq!(leave_room(&mut rooms, &id2, 9), Err(Error::PlayerNotInRoom));
    assert_eq!(leave_room(&mut rooms, &id, 1), Ok(Departure::Closed));
    assert!(rooms.get(&id).is_none());
    assert_eq!(rooms.len(), 1);
    assert_eq!(leave_room(&mut rooms, &id, 1), Err(Error::RoomNotFound));
    let notices = rooms.take_notices();
    let changes: Vec<Change> = notices.iter().map(|n| n.change).collect();
    assert_eq!(changes, vec![Change::Insert, Change::Insert, Change::Update, Change::Delete]);
    assert_eq!(notices[3].subject, id);
    assert_eq!(notices[3].value.players, 1);
    assert_eq!(notices[3].value.id, id);
}

#[test]
fn member_leaving_keeps_the_owner() {
    let mut rooms: DataTable<Room> = DataTable::new();
    let mut r = room(4);
    r.join(None, 2).unwrap();
    let id = open_room(&mut rooms, r).unwrap();
    assert_eq!(leave_room(&mut rooms, &id, 2), Ok(Departure::Left));
    assert_eq!(rooms.get(&id).unwrap().owner(), 1);
}

#[test]
fn opening_a_room_draws_a_free_id() {
    let mut rooms: DataTable<Room> = DataTable::new();
    for _ in 0..20 {
        open_room(&mut rooms, room(2)).unwrap();
    }
    assert_eq!(rooms.len(), 20);
    let r = room(2);
    let own = r.id().clone();
    if rooms.get(&own).is_none() {
        assert_eq!(open_room(&mut rooms, r), Ok(own));
    }
    assert!(ID_ATTEMPTS > 0);
}

#[test]
fn ready_toggles_and_is_locked_during_a_game() {
    let mut r = room(4);
    r.join(None, 2).unwrap();
    assert_eq!(r.player_switch_ready(2), Ok(()));
    assert!(r.players().get(&2).unwrap().is_ready);
    assert_eq!(r.player_switch_ready(9), Err(Error::PlayerNotInRoom));
    assert_eq!(r.start_game(1), Err(Error::Game(GameError::NotEnoughPlayers)));
    r.player_switch_ready(1).unwrap();
    assert_eq!(r.start_game(2), Err(Error::NotOwner));
    assert_eq!(r.start_game(1), Ok(()));
    assert_eq!(r.game().unwrap().players().len(), 2);
    assert_eq!(r.player_switch_ready(2), Err(Error::GameAlreadyStarted));
    assert_eq!(r.start_game(1), Err(Error::GameAlreadyStarted));
}

#[test]
fn playing_without_a_game_is_refused() {
    let mut r = room(4);
    assert!(matches!(r.play_game(1, None), Err(Error::NoGame)));
}

#[test]
fn playing_in_a_game_moves_the_turn() {
    let mut r = room(4);
    r.join(None, 2).unwrap();
    r.player_switch_ready(1).unwrap();
    r.player_switch_ready(2).unwrap();
    r.start_game(1).unwrap();
    assert!(matches!(r.play_game(2, None), Err(Error::Game(GameError::WrongTurn))));
    assert!(r.play_game(1, None).is_ok());
    assert_eq!(r.game().unwrap().turn(), 1);
}

#[test]
fn settling_a_game_resets_ready_and_adds_points() {
    let mut r = room(4);
    r.join(None, 2).unwrap();
    r.player_switch_ready(1).unwrap();
    r.player_switch_ready(2).unwrap();
    let losers = vec![
        Loser { id: 2, points: 5, cards_had: 9 },
        Loser { id: 1, points: 10, cards_had: 8 },
        Loser { id: 9, points: 3, cards_had: 1 },
    ];
    r.settle(&losers);
    assert_eq!(r.players().get(&1).unwrap(), &Player { id: 1, is_ready: false, points: 10 });
    assert_eq!(r.players().get(&2).unwrap(), &Player { id: 2, is_ready: false, points: 5 });
    r.settle(&losers);
    assert_eq!(r.players().get(&1).unwrap().points, 20);
}

#[test]
fn settings_are_checked() {
    let mut r = room(4);
    assert_eq!(r.set_name(String::new()), Err(Error::BadArgument(Argument::Name)));
    assert_eq!(r.set_name("other".to_string()), Ok(()));
    assert_eq!(r.name(), "other");
    assert_eq!(r.set_max_players(1), Err(Error::BadArgument(Argument::MaxPlayers)));
    assert_eq!(r.set_max_players(3), Ok(()));
    assert_eq!(r.max_players(), 3);
    r.join(None, 2).unwrap();
    r.join(None, 3).unwrap();
    assert_eq!(r.set_max_players(2), Err(Error::BadArgument(Argument::MaxPlayers)));
    r.leave(3).unwrap();
    r.leave(2).unwrap();
    assert_eq!(r.set_password(Some("z".repeat(40))), Err(Error::BadArgument(Argument::Password)));
    assert_eq!(r.set_password(Some("k".to_string())), Ok(()));
    assert_eq!(r.set_password(None), Ok(()));
    assert_eq!(r.password(), &Some("k".to_string()));
    assert_eq!(r.set_password(Some(String::new())), Ok(()));
    assert_eq!(r.password(), &None);
    assert_eq!(r.set_owner(5), Err(Error::PlayerNotInRoom));
    r.join(None, 5).unwrap();
    assert_eq!(r.set_owner(5), Ok(()));
    assert_eq!(r.owner(), 5);
    let before = r.id().clone();
    r.regenerate_id();
    assert_eq!(r.id().len(), 6);
    let _ = before;
}

#[test]
fn rooms_list_pages_public_rooms() {
    let mut rooms: DataTable<Room> = DataTable::new();
    let mut ids = Vec::new();
    for i in 0..5 {
        let mut r = room(4);
        r.is_public = i != 2;
        ids.push(open_room(&mut rooms, r).unwrap());
    }
    let all = get_rooms_list(&rooms, 0, 100);
    let listed: Vec<String> = all.iter().map(|p| p.id.clone()).collect();
    assert_eq!(listed, vec![ids[0].clone(), ids[1].clone(), ids[3].clone(), ids[4].clone()]);
    let page = get_rooms_list(&rooms, 1, 2);
    let listed: Vec<String> = page.iter().map(|p| p.id.clone()).collect();
    assert_eq!(listed, vec![ids[1].clone(), ids[3].clone()]);
    assert!(get_rooms_list(&rooms, 4, 10).is_empty());
    assert_eq!(all[0].players, 1);
    assert!(!all[0].password);
    assert!(!all[0].game);
}

#[test]
fn settings_change_all_or_nothing() {
    let mut r = room(4);
    r.join(None, 2).unwrap();
    let errs = r.update(2, Some("x".to_string()), None, None, None, None);
    assert_eq!(errs, vec![Error::NotOwner]);
    let errs = r.update(1, Some(String::new()), Some(false), None, Some(9), Some(1));
    assert_eq!(
        errs,
        vec![Error::BadArgument(Argument::Name), Error::PlayerNotInRoom, Error::BadArgument(Argument::MaxPlayers)]
    );
    assert_eq!(r.name(), "table");
    assert!(r.is_public);
    let errs = r.update(1, Some("new".to_string()), Some(false), Some("pw".to_string()), Some(2), Some(3));
    assert!(errs.is_empty());
    assert_eq!(r.name(), "new");
    assert!(!r.is_public);
    assert_eq!(r.password(), &Some("pw".to_string()));
    assert_eq!(r.owner(), 2);
    assert_eq!(r.max_players(), 3);
}
