use card_rooms::database::queries::sessions::{handle, handle_now, Error, Session, DAY};
use card_rooms::gateway::payloads::{Hello, Identify};
use card_rooms::game::rooms::{open_room, Room};
use card_rooms::gateway::sessions::{disconnect, identify, Entry, User};
use card_rooms::runtime_storage::{DataTable, Table};

const T: i64 = 1_700_000_000;

#[test]
fn token_slides_its_expiry() {
    let row = Session { account: 42, created_at: T };
    assert_eq!(handle(Some(row), T + 6 * DAY), Ok((42, Session { account: 42, created_at: T + 6 * DAY })));
    assert_eq!(handle(Some(row), T + 8 * DAY), Err(Error::RowExpired));
    let (account, renewed) = handle(Some(row), T + 3 * DAY).unwrap();
    assert_eq!(account, 42);
    assert_eq!(renewed.created_at, T + 3 * DAY);
    assert!(handle(Some(renewed), T + 10 * DAY).is_ok());
    assert_eq!(handle(Some(renewed), T + 10 * DAY + 1), Err(Error::RowExpired));
    assert!(handle(Some(row), T + 7 * DAY).is_ok());
}

#[test]
fn unknown_token_is_not_found() {
    assert_eq!(handle(None, T), Err(Error::NotFound));
}

#[test]
fn token_checked_against_the_clock() {
    let fresh = Session { account: 1, created_at: 4_000_000_000 };
    assert!(handle_now(Some(fresh)).is_ok());
    let stale = Session { account: 1, created_at: 0 };
    assert_eq!(handle_now(Some(stale)), Err(Error::RowExpired));
}

#[test]
fn identify_keeps_a_connected_user() {
    let mut users: DataTable<User> = DataTable::new();
    let u = identify(&mut users, 5, 1);
    assert_eq!(u.uuid(), 5);
    assert_eq!(u.room, None);
    assert_eq!(u.connection, 1);
    let mut inside = User::new(5, 1);
    inside.room = Some("123456".to_string());
    users.replace(inside);
    let again = identify(&mut users, 5, 2);
    assert_eq!(again.room, Some("123456".to_string()));
    assert_eq!(again.connection, 2);
    assert_eq!(users.get(&5).unwrap().connection, 2);
    assert_eq!(users.len(), 1);
}

#[test]
fn gateway_payloads() {
    assert_eq!(Hello::new(60).heartbeat_interval, 60);
    let id = Identify::new("abc".to_string());
    assert_eq!(id.token(), "abc");
}

#[test]
fn entering_a_room_from_a_session() {
    let mut u = User::new(1, 0);
    assert_eq!(u.entry(&"111111".to_string()), Entry::Free);
    u.room = Some("111111".to_string());
    assert_eq!(u.entry(&"111111".to_string()), Entry::Inside);
    assert_eq!(u.entry(&"222222".to_string()), Entry::Elsewhere);
}

#[test]
fn disconnect_after_the_grace_delay() {
    let mut users: DataTable<User> = DataTable::new();
    let mut rooms: DataTable<Room> = DataTable::new();
    let room = Room::create("r".to_string(), true, None, 7, 4).ok().unwrap();
    let id = open_room(&mut rooms, room).unwrap();
    identify(&mut users, 7, 1);
    users.replace(User { uuid: 7, room: Some(id.clone()), connection: 1 });
    // A reconnect replaced channel 1: the close of 1 changes nothing.
    identify(&mut users, 7, 2);
    assert!(!disconnect(&mut users, &mut rooms, 7, 1));
    assert_eq!(users.len(), 1);
    assert_eq!(rooms.len(), 1);
    // The close of the live channel ends the session; the room, now empty, goes.
    assert!(disconnect(&mut users, &mut rooms, 7, 2));
    assert_eq!(users.len(), 0);
    assert_eq!(rooms.len(), 0);
    assert!(!disconnect(&mut users, &mut rooms, 7, 2));
}
