use vstd::prelude::*;
use crate::runtime_storage::{Change, Notice, NoticeView};
use crate::game::rooms::Partial;
use crate::game::rooms::player::Player;
use crate::gateway::sessions::User;

verus! {

/// A receiver of the changes that a table reports record by record: each
/// record is told of its own insertion, update and deletion, with its value
/// at the commit.
pub trait TableEvents<K, S> {
    fn insert(&mut self, subject: &K, value: &S);

    fn update(&mut self, subject: &K, value: &S);

    fn delete(&mut self, subject: &K, value: &S);
}

/// A receiver of the changes that a shared table reports: record `to` is
/// told of a change to record `other`, whose value at the commit is `value`.
pub trait SharedTableEvents<K, S> {
    fn insert(&mut self, to: &K, other: &K, value: &S);

    fn update(&mut self, to: &K, other: &K, value: &S);

    fn delete(&mut self, to: &K, other: &K, value: &S);
}

/// A value that can be copied exactly.
pub trait Duplicate: Sized {
    fn duplicate(&self) -> (r: Self)
        ensures
            r == *self,
    ;
}

impl Duplicate for u128 {
    fn duplicate(&self) -> (r: u128) {
        *self
    }
}

impl Duplicate for String {
    fn duplicate(&self) -> (r: String) {
        self.clone()
    }
}

impl Duplicate for Player {
    fn duplicate(&self) -> (r: Player) {
        *self
    }
}

impl Duplicate for User {
    fn duplicate(&self) -> (r: User) {
        User { uuid: self.uuid, room: self.room.clone(), connection: self.connection }
    }
}

impl Duplicate for Partial {
    fn duplicate(&self) -> (r: Partial) {
        Partial {
            id: self.id.clone(),
            name: self.name.clone(),
            is_public: self.is_public,
            password: self.password,
            owner: self.owner,
            max_players: self.max_players,
            players: self.players,
            game: self.game,
        }
    }
}

/// One call of a receiver: record `to` is told of a `change` to record
/// `subject`, whose value at the commit is `value`.
#[derive(Debug, Clone)]
pub struct Call<K, S> {
    pub change: Change,
    pub to: K,
    pub subject: K,
    pub value: S,
}

impl<K: View, S> View for Call<K, S> {
    type V = (Change, K::V, K::V, S);

    open spec fn view(&self) -> (Change, K::V, K::V, S) {
        (self.change, self.to@, self.subject@, self.value)
    }
}

/// The calls that a notice makes: one for each of its recipients, in order.
pub open spec fn calls_in<V, S>(n: NoticeView<V, S>) -> Seq<(Change, V, V, S)> {
    n.recipients.map_values(|to: V| (n.change, to, n.subject, n.value))
}

/// The calls that `notices` make, notice after notice.
pub open spec fn calls_of<V, S>(notices: Seq<NoticeView<V, S>>) -> Seq<(Change, V, V, S)>
    decreases notices.len(),
{
    if notices.len() == 0 {
        Seq::empty()
    } else {
        calls_of(notices.drop_last()) + calls_in(notices.last())
    }
}

/// The calls to hand to a receiver for `notices`: for each notice, one call
/// per recipient. (For a table that tells each record of its own changes,
/// the recipient of every notice is its subject.)
pub fn calls<K: View + Duplicate, S: Duplicate>(notices: &Vec<Notice<K, S>>) -> (r: Vec<Call<K, S>>)
    ensures
        r@.map_values(|c: Call<K, S>| c@) == calls_of(
            notices@.map_values(|n: Notice<K, S>| n@),
        ),
{
    let ghost ns = notices@.map_values(|n: Notice<K, S>| n@);
    let mut out: Vec<Call<K, S>> = Vec::new();
    let mut i: usize = 0;
    while i < notices.len()
        invariant
            i <= notices@.len(),
            ns == notices@.map_values(|n: Notice<K, S>| n@),
            out@.map_values(|c: Call<K, S>| c@) == calls_of(ns.take(i as int)),
        decreases notices@.len() - i,
    {
        let n = &notices[i];
        let ghost start = out@.map_values(|c: Call<K, S>| c@);
        let mut j: usize = 0;
        while j < n.recipients.len()
            invariant
                i < notices@.len(),
                n == notices@[i as int],
                j <= n.recipients@.len(),
                out@.map_values(|c: Call<K, S>| c@) == start + calls_in(n@).take(j as int),
            decreases n.recipients@.len() - j,
        {
            let call = Call {
                change: n.change,
                to: n.recipients[j].duplicate(),
                subject: n.subject.duplicate(),
                value: n.value.duplicate(),
            };
            assert(call@ == calls_in(n@)[j as int]);
            let ghost prev = out@;
            out.push(call);
            assert(out@.map_values(|c: Call<K, S>| c@) =~= prev.map_values(|c: Call<K, S>| c@).push(
                call@,
            ));
            assert(calls_in(n@).take(j + 1) =~= calls_in(n@).take(j as int).push(calls_in(n@)[j as int]));
            assert(start + calls_in(n@).take(j + 1) =~= (start + calls_in(n@).take(j as int)).push(
                calls_in(n@)[j as int],
            ));
            j += 1;
        }
        assert(calls_in(n@).take(j as int) =~= calls_in(n@));
        assert(ns.take(i + 1).drop_last() =~= ns.take(i as int));
        assert(ns.take(i + 1).last() == n@);
        i += 1;
    }
    assert(ns.take(notices@.len() as int) =~= ns);
    out
}

} // verus!
