use card_rooms::game::rooms::player::Player;
use card_rooms::gateway::events::{calls, SharedTableEvents, TableEvents};
use card_rooms::runtime_storage::{Change, Commit, DataTable, SharedTable, Table};

fn member(id: u128, points: u64) -> Player {
    Player { id, is_ready: false, points }
}

#[test]
fn update_on_an_absent_key_changes_nothing() {
    let mut t: DataTable<Player> = DataTable::new();
    t.insert(member(1, 0));
    t.take_notices();
    let r: Result<Option<Player>, ()> = t.update(&2, |p: &Player| Ok(Player { points: 5, ..*p }));
    assert_eq!(r, Ok(None));
    assert_eq!(t.records(), &vec![member(1, 0)]);
    assert!(t.take_notices().is_empty());
    let r: Result<Option<Player>, ()> = t.shared_update(&2, |p: &Player| Ok(*p));
    assert_eq!(r, Ok(None));
    assert!(t.take_notices().is_empty());
}

#[test]
fn update_applies_the_mutation() {
    let mut t: DataTable<Player> = DataTable::new();
    t.insert(member(1, 0));
    t.take_notices();
    let r: Result<Option<Player>, ()> = t.update(&1, |p: &Player| Ok(Player { points: 5, ..*p }));
    assert_eq!(r, Ok(Some(member(1, 0))));
    assert_eq!(t.get(&1), Some(&member(1, 5)));
    let n = t.take_notices();
    assert_eq!(n.len(), 1);
    assert_eq!(n[0].change, Change::Update);
    let r: Result<Option<Player>, &str> = t.update(&1, |_p: &Player| Err("no"));
    assert_eq!(r, Err("no"));
    assert_eq!(t.get(&1), Some(&member(1, 5)));
    assert!(t.take_notices().is_empty());
}

#[test]
fn shared_insert_tells_every_member_once() {
    let mut t: DataTable<Player> = DataTable::new();
    for id in 1..=3 {
        assert!(t.shared_insert(member(id, 0)));
    }
    t.take_notices();
    assert!(t.shared_insert(member(4, 0)));
    let n = t.take_notices();
    assert_eq!(n.len(), 1);
    assert_eq!(n[0].change, Change::Insert);
    assert_eq!(n[0].subject, 4);
    assert_eq!(n[0].recipients, vec![1, 2, 3, 4]);
    assert!(!t.shared_insert(member(2, 9)));
    assert!(t.take_notices().is_empty());
    assert_eq!(t.get(&2), Some(&member(2, 0)));
}

#[test]
fn replace_of_an_existing_key_is_one_update() {
    let mut t: DataTable<Player> = DataTable::new();
    assert_eq!(t.replace(member(1, 0)), None);
    assert_eq!(t.replace(member(1, 3)), Some(member(1, 0)));
    let n = t.take_notices();
    let changes: Vec<Change> = n.iter().map(|x| x.change).collect();
    assert_eq!(changes, vec![Change::Insert, Change::Update]);
    assert_eq!(n[1].recipients, vec![1]);
    assert_eq!(t.len(), 1);
    t.shared_insert(member(2, 0));
    t.take_notices();
    assert_eq!(t.shared_replace(member(2, 1)), Some(member(2, 0)));
    let n = t.take_notices();
    assert_eq!(n.len(), 1);
    assert_eq!(n[0].change, Change::Update);
    assert_eq!(n[0].recipients, vec![1, 2]);
}

#[test]
fn remove_reports_a_deletion() {
    let mut t: DataTable<Player> = DataTable::new();
    t.insert(member(1, 0));
    t.insert(member(2, 0));
    t.insert(member(3, 0));
    t.take_notices();
    assert!(t.remove(&2));
    assert!(!t.remove(&2));
    assert!(t.shared_remove(&1));
    let n = t.take_notices();
    assert_eq!(n.len(), 2);
    assert_eq!(n[0].change, Change::Delete);
    assert_eq!(n[0].recipients, vec![2]);
    assert_eq!(n[1].change, Change::Delete);
    assert_eq!(n[1].subject, 1);
    assert_eq!(n[1].recipients, vec![3]);
    assert_eq!(t.records(), &vec![member(3, 0)]);
    assert!(!t.insert(member(3, 1)));
    assert!(t.contains(&3));
}

#[test]
fn modify_keeps_updates_or_removes() {
    let mut t: DataTable<Player> = DataTable::new();
    t.insert(member(1, 0));
    t.insert(member(2, 0));
    t.take_notices();
    assert_eq!(t.modify(&1, |p: Player| (Commit::Keep(p), 7)), Some(7));
    assert!(t.take_notices().is_empty());
    assert_eq!(t.modify(&1, |p: Player| (Commit::Update(Player { points: 4, ..p }), ())), Some(()));
    assert_eq!(t.get(&1), Some(&member(1, 4)));
    assert_eq!(t.modify(&2, |_p: Player| (Commit::Remove, ())), Some(()));
    assert_eq!(t.modify(&9, |_p: Player| (Commit::Remove, ())), None);
    let changes: Vec<Change> = t.take_notices().iter().map(|x| x.change).collect();
    assert_eq!(changes, vec![Change::Update, Change::Delete]);
    assert_eq!(t.records(), &vec![member(1, 4)]);
}

#[derive(Default)]
struct Log(Vec<String>);

impl TableEvents<u128, Player> for Log {
    fn insert(&mut self, subject: &u128, value: &Player) {
        self.0.push(format!("insert {} {}", subject, value.points));
    }
    fn update(&mut self, subject: &u128, value: &Player) {
        self.0.push(format!("update {} {}", subject, value.points));
    }
    fn delete(&mut self, subject: &u128, value: &Player) {
        self.0.push(format!("delete {} {}", subject, value.points));
    }
}

impl SharedTableEvents<u128, Player> for Log {
    fn insert(&mut self, to: &u128, other: &u128, value: &Player) {
        self.0.push(format!("{} insert {} {}", to, other, value.points));
    }
    fn update(&mut self, to: &u128, other: &u128, value: &Player) {
        self.0.push(format!("{} update {} {}", to, other, value.points));
    }
    fn delete(&mut self, to: &u128, other: &u128, value: &Player) {
        self.0.push(format!("{} delete {} {}", to, other, value.points));
    }
}

#[test]
fn notices_become_one_call_per_recipient() {
    let mut t: DataTable<Player> = DataTable::new();
    t.insert(member(1, 0));
    t.replace(member(1, 2));
    t.remove(&1);
    let mut log = Log::default();
    for c in calls(&t.take_notices()) {
        assert_eq!(c.to, c.subject);
        match c.change {
            Change::Insert => TableEvents::insert(&mut log, &c.subject, &c.value),
            Change::Update => TableEvents::update(&mut log, &c.subject, &c.value),
            Change::Delete => TableEvents::delete(&mut log, &c.subject, &c.value),
        }
    }
    // The deletion carries the value that was removed.
    assert_eq!(log.0, vec!["insert 1 0", "update 1 2", "delete 1 2"]);
    let mut s: DataTable<Player> = DataTable::new();
    s.shared_insert(member(1, 0));
    s.shared_insert(member(2, 5));
    s.shared_remove(&1);
    let mut log = Log::default();
    for c in calls(&s.take_notices()) {
        match c.change {
            Change::Insert => SharedTableEvents::insert(&mut log, &c.to, &c.subject, &c.value),
            Change::Update => SharedTableEvents::update(&mut log, &c.to, &c.subject, &c.value),
            Change::Delete => SharedTableEvents::delete(&mut log, &c.to, &c.subject, &c.value),
        }
    }
    assert_eq!(log.0, vec!["1 insert 1 0", "1 insert 2 5", "2 insert 2 5", "2 delete 1 0"]);
}

#[test]
fn notices_carry_the_value_at_the_commit() {
    let mut t: DataTable<Player> = DataTable::new();
    t.shared_insert(member(1, 0));
    t.shared_replace(member(1, 4));
    t.shared_replace(member(1, 9));
    let n = t.take_notices();
    let values: Vec<u64> = n.iter().map(|x| x.value.points).collect();
    assert_eq!(values, vec![0, 4, 9]);
}
