use vstd::prelude::*;

verus! {

/// A value that a table holds, known by a key.
pub trait Record: Sized {
    type Key: View;

    /// What every record of this type keeps true.
    spec fn inv(&self) -> bool;

    /// The key of this record, as a value.
    spec fn key(&self) -> <Self::Key as View>::V;

    fn key_is(&self, k: &Self::Key) -> (r: bool)
        ensures
            r == (self.key() == k@),
    ;

    fn copy_key(&self) -> (r: Self::Key)
        ensures
            r@ == self.key(),
    ;

    /// What a notice carries of a record: the record as it was when the
    /// change was committed, or the parts of it that are told.
    type Snapshot;

    spec fn snapshot(&self) -> Self::Snapshot;

    fn take_snapshot(&self) -> (r: Self::Snapshot)
        ensures
            r == self.snapshot(),
    ;
}

/// What a committed change did to a record.
#[derive(Debug, Clone, Copy, PartialEq, Eq, Structural)]
pub enum Change {
    Insert,
    Update,
    Delete,
}

/// What a function handed a record by `DataTable::modify` does with it.
pub enum Commit<T> {
    /// Put it back unchanged: nobody is told.
    Keep(T),
    /// Put this in its place: the record is told of its update.
    Update(T),
    /// Remove it: the record is told of its deletion.
    Remove,
}

/// One notification cycle: a change to the record with key `subject`, whose
/// value at the commit (the removed value for a deletion) is `value`, to be
/// told to each record of `recipients`.
#[derive(Debug, Clone)]
pub struct Notice<K, S> {
    pub change: Change,
    pub subject: K,
    pub value: S,
    pub recipients: Vec<K>,
}

/// A notice, as values.
pub struct NoticeView<V, S> {
    pub change: Change,
    pub subject: V,
    pub value: S,
    pub recipients: Seq<V>,
}

impl<K: View, S> View for Notice<K, S> {
    type V = NoticeView<K::V, S>;

    open spec fn view(&self) -> NoticeView<K::V, S> {
        NoticeView {
            change: self.change,
            subject: self.subject@,
            value: self.value,
            recipients: self.recipients@.map_values(|k: K| k@),
        }
    }
}

pub open spec fn keys_of<T: Record>(rows: Seq<T>) -> Seq<<T::Key as View>::V> {
    rows.map_values(|t: T| t.key())
}

pub open spec fn has_key<T: Record>(rows: Seq<T>, k: <T::Key as View>::V) -> bool {
    exists|i: int| 0 <= i < rows.len() && rows[i].key() == k
}

/// The place of key `k` among `rows`.
pub open spec fn key_index<T: Record>(rows: Seq<T>, k: <T::Key as View>::V) -> int {
    choose|i: int| 0 <= i < rows.len() && rows[i].key() == k
}

/// In a table with unique keys the place of a record's key is that record's
/// place.
pub proof fn lemma_key_index<T: Record>(rows: Seq<T>, i: int)
    requires
        unique_keys(rows),
        0 <= i < rows.len(),
    ensures
        has_key(rows, rows[i].key()),
        key_index(rows, rows[i].key()) == i,
{
    assert(rows[i].key() == rows[i].key());
}

/// One record for each key, each keeping its own invariant.
pub open spec fn table_ok<T: Record>(rows: Seq<T>) -> bool {
    &&& unique_keys(rows)
    &&& forall|i: int| 0 <= i < rows.len() ==> (#[trigger] rows[i]).inv()
}

/// At most one record for each key.
pub open spec fn unique_keys<T: Record>(rows: Seq<T>) -> bool {
    forall|i: int, j: int|
        0 <= i < rows.len() && 0 <= j < rows.len() && i != j ==> rows[i].key() != rows[j].key()
}

/// `rows` with `v` in place of the record of the same key, or after them
/// all when there is none.
pub open spec fn replaced<T: Record>(rows: Seq<T>, v: T) -> Seq<T> {
    if has_key(rows, v.key()) {
        rows.update(key_index(rows, v.key()), v)
    } else {
        rows.push(v)
    }
}

/// `rows` without the record of key `k`.
pub open spec fn removed<T: Record>(rows: Seq<T>, k: <T::Key as View>::V) -> Seq<T> {
    if has_key(rows, k) {
        rows.remove(key_index(rows, k))
    } else {
        rows
    }
}

/// The record of key `k` in `rows`, if any.
pub open spec fn lookup<T: Record>(rows: Seq<T>, k: <T::Key as View>::V) -> Option<T> {
    if has_key(rows, k) {
        Some(rows[key_index(rows, k)])
    } else {
        None
    }
}

/// Whether `rows2` and `sent2` are what `commit` makes of the record of key
/// `k` in `rows`, with `sent` the notices before.
pub open spec fn modified<T: Record>(
    rows: Seq<T>,
    sent: Seq<NoticeView<<T::Key as View>::V, T::Snapshot>>,
    k: <T::Key as View>::V,
    commit: Commit<T>,
    rows2: Seq<T>,
    sent2: Seq<NoticeView<<T::Key as View>::V, T::Snapshot>>,
) -> bool {
    let i = key_index(rows, k);
    match commit {
        Commit::Keep(n) => rows2 == rows.update(i, n) && sent2 == sent,
        Commit::Update(n) => rows2 == rows.update(i, n) && sent2 == sent.push(
            own_notice(Change::Update, k, n.snapshot()),
        ),
        Commit::Remove => rows2 == rows.remove(i) && sent2 == sent.push(
            own_notice(Change::Delete, k, rows[i].snapshot()),
        ),
    }
}

/// The notice of a change to `subject` told to `subject` alone.
pub open spec fn own_notice<V, S>(change: Change, subject: V, value: S) -> NoticeView<V, S> {
    NoticeView { change, subject, value, recipients: seq![subject] }
}

/// The notice of a change to `subject` told to every record of `rows`.
pub open spec fn shared_notice<T: Record>(
    change: Change,
    subject: <T::Key as View>::V,
    value: T::Snapshot,
    rows: Seq<T>,
) -> NoticeView<<T::Key as View>::V, T::Snapshot> {
    NoticeView { change, subject, value, recipients: keys_of(rows) }
}

/// A keyed collection of records that queues one notice for every change it
/// commits.
#[derive(Debug, Clone)]
pub struct DataTable<T: Record> {
    records: Vec<T>,
    notices: Vec<Notice<T::Key, T::Snapshot>>,
}

impl<T: Record> DataTable<T> {
    /// The records, in the order in which they came in.
    pub closed spec fn rows(&self) -> Seq<T> {
        self.records@
    }

    /// The notices queued and not yet taken.
    pub closed spec fn sent(&self) -> Seq<NoticeView<<T::Key as View>::V, T::Snapshot>> {
        self.notices@.map_values(|n: Notice<T::Key, T::Snapshot>| n@)
    }

    pub open spec fn wf(&self) -> bool {
        table_ok(self.rows())
    }

    pub fn new() -> (r: DataTable<T>)
        ensures
            r.wf(),
            r.rows() == Seq::<T>::empty(),
            r.sent() == Seq::<NoticeView<<T::Key as View>::V, T::Snapshot>>::empty(),
    {
        let r = DataTable { records: Vec::new(), notices: Vec::new() };
        assert(r.sent() =~= Seq::<NoticeView<<T::Key as View>::V, T::Snapshot>>::empty());
        r
    }

    pub fn len(&self) -> (r: usize)
        ensures
            r == self.rows().len(),
    {
        self.records.len()
    }

    pub fn records(&self) -> (r: &Vec<T>)
        ensures
            r@ == self.rows(),
    {
        &self.records
    }

    /// The place of the record of key `k`.
    fn find(&self, k: &T::Key) -> (r: Option<usize>)
        requires
            self.wf(),
        ensures
            r is Some <==> has_key(self.rows(), k@),
            r matches Some(i) ==> i == key_index(self.rows(), k@) && i < self.rows().len(),
    {
        let mut i: usize = 0;
        while i < self.records.len()
            invariant
                self.wf(),
                i <= self.records@.len(),
                forall|j: int| 0 <= j < i ==> self.records@[j].key() != k@,
            decreases self.records@.len() - i,
        {
            if self.records[i].key_is(k) {
                assert(self.records@[i as int].key() == k@);
                proof {
                    lemma_key_index(self.rows(), i as int);
                }
                return Some(i);
            }
            i += 1;
        }
        None
    }

    pub fn contains(&self, k: &T::Key) -> (r: bool)
        requires
            self.wf(),
        ensures
            r == has_key(self.rows(), k@),
    {
        self.find(k).is_some()
    }

    pub fn get(&self, k: &T::Key) -> (r: Option<&T>)
        requires
            self.wf(),
        ensures
            r matches Some(t) ==> lookup(self.rows(), k@) == Some(*t),
            r is None ==> lookup(self.rows(), k@) is None,
    {
        match self.find(k) {
            Some(i) => Some(&self.records[i]),
            None => None,
        }
    }

    /// Takes out the notices queued so far.
    pub fn take_notices(&mut self) -> (r: Vec<Notice<T::Key, T::Snapshot>>)
        ensures
            r@.map_values(|n: Notice<T::Key, T::Snapshot>| n@) == old(self).sent(),
            final(self).rows() == old(self).rows(),
            final(self).sent() == Seq::<NoticeView<<T::Key as View>::V, T::Snapshot>>::empty(),
    {
        let mut r: Vec<Notice<T::Key, T::Snapshot>> = Vec::new();
        core::mem::swap(&mut r, &mut self.notices);
        assert(self.sent() =~= Seq::<NoticeView<<T::Key as View>::V, T::Snapshot>>::empty());
        r
    }

    /// Hands the record of key `k` to `func`, which says what to do with it
    /// (see `Commit`) and gives a result. Without such a record nothing
    /// happens and `None` comes back.
    pub fn modify<F, R>(&mut self, k: &T::Key, func: F) -> (r: Option<R>) where
        F: FnOnce(T) -> (Commit<T>, R),
        requires
            old(self).wf(),
            forall|t: T| t.inv() ==> func.requires((t,)),
            forall|t: T, out: (Commit<T>, R)|
                t.inv() && func.ensures((t,), out) ==> match out.0 {
                    Commit::Keep(n) => n.inv() && n.key() == t.key(),
                    Commit::Update(n) => n.inv() && n.key() == t.key(),
                    Commit::Remove => true,
                },
        ensures
            final(self).wf(),
            !has_key(old(self).rows(), k@) ==> r is None && final(self).rows() == old(self).rows()
                && final(self).sent() == old(self).sent(),
            has_key(old(self).rows(), k@) ==> exists|out: (Commit<T>, R)|
                #[trigger] func.ensures((old(self).rows()[key_index(old(self).rows(), k@)],), out)
                    && r == Some(out.1) && modified(old(self).rows(), old(self).sent(), k@, out.0, final(self).rows(), final(self).sent()),
    {
        let i = match self.find(k) {
            Some(i) => i,
            None => {
                return None;
            },
        };
        let subject = self.records[i].copy_key();
        let to = self.records[i].copy_key();
        let before = self.records[i].take_snapshot();
        let ghost rows = self.rows();
        let t = self.records.remove(i);
        let (commit, res) = func(t);
        match commit {
            Commit::Keep(n) => {
                self.records.insert(i, n);
                proof {
                    self.keep_unique(rows, i, n);
                }
            },
            Commit::Update(n) => {
                let after = n.take_snapshot();
                self.records.insert(i, n);
                proof {
                    self.keep_unique(rows, i, n);
                }
                self.queue_own(Change::Update, subject, to, after);
            },
            Commit::Remove => {
                assert forall|a: int, b: int|
                    0 <= a < self.rows().len() && 0 <= b < self.rows().len() && a != b implies
                    self.rows()[a].key() != self.rows()[b].key() by {
                    let a2 = if a < i { a } else { a + 1 };
                    let b2 = if b < i { b } else { b + 1 };
                    assert(self.rows()[a] == rows[a2]);
                    assert(self.rows()[b] == rows[b2]);
                }
                self.queue_own(Change::Delete, subject, to, before);
            },
        }
        Some(res)
    }

    proof fn keep_unique(&self, rows: Seq<T>, i: usize, n: T)
        requires
            table_ok(rows),
            i < rows.len(),
            n.inv(),
            n.key() == rows[i as int].key(),
            self.rows() == rows.remove(i as int).insert(i as int, n),
        ensures
            self.wf(),
            self.rows() == rows.update(i as int, n),
    {
        assert(self.rows() =~= rows.update(i as int, n));
        assert forall|a: int, b: int|
            0 <= a < self.rows().len() && 0 <= b < self.rows().len() && a != b implies
            self.rows()[a].key() != self.rows()[b].key() by {
            assert(rows[a].key() == self.rows()[a].key());
            assert(rows[b].key() == self.rows()[b].key());
        }
    }

    /// The keys of all records, in order.
    fn all_keys(&self) -> (r: Vec<T::Key>)
        ensures
            r@.map_values(|k: T::Key| k@) == keys_of(self.rows()),
    {
        let mut out: Vec<T::Key> = Vec::new();
        let mut i: usize = 0;
        while i < self.records.len()
            invariant
                i <= self.records@.len(),
                out@.len() == i,
                forall|j: int| 0 <= j < i ==> out@[j]@ == #[trigger] self.rows()[j].key(),
            decreases self.records@.len() - i,
        {
            let k = self.records[i].copy_key();
            out.push(k);
            i += 1;
        }
        assert(out@.map_values(|k: T::Key| k@) =~= keys_of(self.rows()));
        out
    }

    /// Queues a notice for the record of key `subject` alone.
    fn queue_own(&mut self, change: Change, subject: T::Key, to: T::Key, value: T::Snapshot)
        requires
            to@ == subject@,
        ensures
            final(self).rows() == old(self).rows(),
            final(self).sent() == old(self).sent().push(own_notice(change, subject@, value)),
    {
        let recipients = vec![to];
        assert(recipients@.map_values(|k: T::Key| k@) =~= seq![subject@]);
        self.queue(change, subject, value, recipients);
    }

    fn queue(&mut self, change: Change, subject: T::Key, value: T::Snapshot, recipients: Vec<T::Key>)
        ensures
            final(self).rows() == old(self).rows(),
            final(self).sent() == old(self).sent().push(
                NoticeView {
                    change,
                    subject: subject@,
                    value,
                    recipients: recipients@.map_values(|k: T::Key| k@),
                },
            ),
    {
        self.notices.push(Notice { change, subject, value, recipients });
        assert(self.sent() =~= old(self).sent().push(
            NoticeView {
                change,
                subject: subject@,
                value,
                recipients: recipients@.map_values(|k: T::Key| k@),
            },
        ));
    }

    /// Puts `value` in place of the record of the same key, or after all
    /// records, without telling anyone; gives back the record it replaced.
    fn commit(&mut self, value: T) -> (r: Option<T>)
        requires
            old(self).wf(),
            value.inv(),
        ensures
            final(self).wf(),
            final(self).rows() == replaced(old(self).rows(), value),
            r == lookup(old(self).rows(), value.key()),
            final(self).sent() == old(self).sent(),
    {
        let k = value.copy_key();
        match self.find(&k) {
            Some(i) => {
                self.records.push(value);
                let prior = self.records.swap_remove(i);
                assert(self.rows() =~= old(self).rows().update(i as int, value));
                assert forall|a: int, b: int|
                    0 <= a < self.rows().len() && 0 <= b < self.rows().len() && a != b implies
                    self.rows()[a].key() != self.rows()[b].key() by {
                    if a != i && b != i {
                    } else if a == i {
                        assert(old(self).rows()[i as int].key() == value.key());
                    } else {
                        assert(old(self).rows()[i as int].key() == value.key());
                    }
                }
                Some(prior)
            },
            None => {
                self.records.push(value);
                assert forall|a: int, b: int|
                    0 <= a < self.rows().len() && 0 <= b < self.rows().len() && a != b implies
                    self.rows()[a].key() != self.rows()[b].key() by {
                    if a < old(self).rows().len() && b < old(self).rows().len() {
                    } else if a < old(self).rows().len() {
                        assert(old(self).rows()[a].key() != value.key());
                    } else {
                        assert(old(self).rows()[b].key() != value.key());
                    }
                }
                None
            },
        }
    }

    /// Takes out the record of key `k`, without telling anyone.
    fn take(&mut self, k: &T::Key) -> (r: Option<T>)
        requires
            old(self).wf(),
        ensures
            final(self).wf(),
            final(self).rows() == removed(old(self).rows(), k@),
            r == lookup(old(self).rows(), k@),
            final(self).sent() == old(self).sent(),
    {
        match self.find(k) {
            Some(i) => {
                let t = self.records.remove(i);
                assert forall|a: int, b: int|
                    0 <= a < self.rows().len() && 0 <= b < self.rows().len() && a != b implies
                    self.rows()[a].key() != self.rows()[b].key() by {
                    let a2 = if a < i { a } else { a + 1 };
                    let b2 = if b < i { b } else { b + 1 };
                    assert(self.rows()[a] == old(self).rows()[a2]);
                    assert(self.rows()[b] == old(self).rows()[b2]);
                }
                Some(t)
            },
            None => None,
        }
    }
}

/// A table that tells each change to the changed record alone.
pub trait Table<T: Record>: Sized {
    spec fn table_rows(&self) -> Seq<T>;

    spec fn table_sent(&self) -> Seq<NoticeView<<T::Key as View>::V, T::Snapshot>>;

    /// Adds `value` unless its key is taken; tells it of its insertion.
    fn insert(&mut self, value: T) -> (r: bool)
        requires
            table_ok(old(self).table_rows()),
            value.inv(),
        ensures
            table_ok(final(self).table_rows()),
            r == !has_key(old(self).table_rows(), value.key()),
            r ==> final(self).table_rows() == old(self).table_rows().push(value)
                && final(self).table_sent() == old(self).table_sent().push(
                own_notice(Change::Insert, value.key(), value.snapshot()),
            ),
            !r ==> final(self).table_rows() == old(self).table_rows() && final(self).table_sent()
                == old(self).table_sent(),
    ;

    /// Puts `value` in place of the record of the same key, or adds it; gives
    /// back the record it replaced, and tells `value` of an update or an
    /// insertion accordingly.
    fn replace(&mut self, value: T) -> (r: Option<T>)
        requires
            table_ok(old(self).table_rows()),
            value.inv(),
        ensures
            table_ok(final(self).table_rows()),
            r == lookup(old(self).table_rows(), value.key()),
            final(self).table_rows() == replaced(old(self).table_rows(), value),
            final(self).table_sent() == old(self).table_sent().push(
                own_notice(
                    if r is Some {
                        Change::Update
                    } else {
                        Change::Insert
                    },
                    value.key(),
                    value.snapshot(),
                ),
            ),
    ;

    /// Replaces the record of key `k` by what `func` makes of it. An absent
    /// key gives `Ok(None)`, an error of `func` comes back; either way the
    /// table stays as it was.
    fn update<F, E>(&mut self, k: &T::Key, func: F) -> (r: Result<Option<T>, E>) where
        F: FnOnce(&T) -> Result<T, E>,
        requires
            table_ok(old(self).table_rows()),
            forall|t: &T| t.inv() ==> func.requires((t,)),
            forall|t: &T, v: T| t.inv() && func.ensures((t,), Ok::<T, E>(v)) ==> v.inv(),
        ensures
            table_ok(final(self).table_rows()),
            !has_key(old(self).table_rows(), k@) ==> r == Ok::<Option<T>, E>(None)
                && final(self).table_rows() == old(self).table_rows() && final(self).table_sent()
                == old(self).table_sent(),
            r matches Err(e) ==> has_key(old(self).table_rows(), k@) && func.ensures(
                (&old(self).table_rows()[key_index(old(self).table_rows(), k@)],),
                Err::<T, E>(e),
            ) && final(self).table_rows() == old(self).table_rows() && final(self).table_sent()
                == old(self).table_sent(),
            has_key(old(self).table_rows(), k@) && r is Ok ==> exists|v: T|
                func.ensures(
                    (&old(self).table_rows()[key_index(old(self).table_rows(), k@)],),
                    Ok::<T, E>(v),
                ) && r->Ok_0 == lookup(old(self).table_rows(), v.key())
                    && final(self).table_rows() == replaced(old(self).table_rows(), v)
                    && final(self).table_sent() == old(self).table_sent().push(
                    own_notice(
                        if r->Ok_0 is Some {
                            Change::Update
                        } else {
                            Change::Insert
                        },
                        v.key(),
                        v.snapshot(),
                    ),
                ),
    ;

    /// Removes the record of key `k`, if any, and tells it of its removal.
    fn remove(&mut self, k: &T::Key) -> (r: bool)
        requires
            table_ok(old(self).table_rows()),
        ensures
            table_ok(final(self).table_rows()),
            r == has_key(old(self).table_rows(), k@),
            final(self).table_rows() == removed(old(self).table_rows(), k@),
            r ==> final(self).table_sent() == old(self).table_sent().push(
                own_notice(
                    Change::Delete,
                    k@,
                    old(self).table_rows()[key_index(old(self).table_rows(), k@)].snapshot(),
                ),
            ),
            !r ==> final(self).table_sent() == old(self).table_sent(),
    ;
}

impl<T: Record> Table<T> for DataTable<T> {
    open spec fn table_rows(&self) -> Seq<T> {
        self.rows()
    }

    open spec fn table_sent(&self) -> Seq<NoticeView<<T::Key as View>::V, T::Snapshot>> {
        self.sent()
    }

    fn insert(&mut self, value: T) -> (r: bool) {
        let k = value.copy_key();
        if self.contains(&k) {
            return false;
        }
        let to = value.copy_key();
        let snap = value.take_snapshot();
        self.commit(value);
        self.queue_own(Change::Insert, k, to, snap);
        assert(self.rows() =~= old(self).rows().push(value));
        true
    }

    fn replace(&mut self, value: T) -> (r: Option<T>) {
        let k = value.copy_key();
        let to = value.copy_key();
        let snap = value.take_snapshot();
        let prior = self.commit(value);
        let change = if prior.is_some() {
            Change::Update
        } else {
            Change::Insert
        };
        self.queue_own(change, k, to, snap);
        prior
    }

    fn update<F, E>(&mut self, k: &T::Key, func: F) -> (r: Result<Option<T>, E>) where
        F: FnOnce(&T) -> Result<T, E>,
     {
        let i = match self.find(k) {
            Some(i) => i,
            None => {
                return Ok(None);
            },
        };
        let v = func(&self.records[i])?;
        let prior = self.replace(v);
        Ok(prior)
    }

    fn remove(&mut self, k: &T::Key) -> (r: bool) {
        match self.take(k) {
            Some(t) => {
                let subject = t.copy_key();
                let to = t.copy_key();
                let snap = t.take_snapshot();
                self.queue_own(Change::Delete, subject, to, snap);
                true
            },
            None => false,
        }
    }
}

/// A table that tells each change to every record it holds after the change.
pub trait SharedTable<T: Record>: Sized {
    spec fn shared_rows(&self) -> Seq<T>;

    spec fn shared_sent(&self) -> Seq<NoticeView<<T::Key as View>::V, T::Snapshot>>;

    /// Adds `value` unless its key is taken, and tells every record, `value`
    /// included, of the insertion.
    fn shared_insert(&mut self, value: T) -> (r: bool)
        requires
            table_ok(old(self).shared_rows()),
            value.inv(),
        ensures
            table_ok(final(self).shared_rows()),
            r == !has_key(old(self).shared_rows(), value.key()),
            r ==> final(self).shared_rows() == old(self).shared_rows().push(value)
                && final(self).shared_sent() == old(self).shared_sent().push(
                shared_notice(
                    Change::Insert,
                    value.key(),
                    value.snapshot(),
                    final(self).shared_rows(),
                ),
            ),
            !r ==> final(self).shared_rows() == old(self).shared_rows() && final(self).shared_sent()
                == old(self).shared_sent(),
    ;

    /// Puts `value` in place of the record of the same key, or adds it, and
    /// tells every record of an update or an insertion accordingly.
    fn shared_replace(&mut self, value: T) -> (r: Option<T>)
        requires
            table_ok(old(self).shared_rows()),
            value.inv(),
        ensures
            table_ok(final(self).shared_rows()),
            r == lookup(old(self).shared_rows(), value.key()),
            final(self).shared_rows() == replaced(old(self).shared_rows(), value),
            final(self).shared_sent() == old(self).shared_sent().push(
                shared_notice(
                    if r is Some {
                        Change::Update
                    } else {
                        Change::Insert
                    },
                    value.key(),
                    value.snapshot(),
                    final(self).shared_rows(),
                ),
            ),
    ;

    /// As `Table::update`, telling every record of the change.
    fn shared_update<F, E>(&mut self, k: &T::Key, func: F) -> (r: Result<Option<T>, E>) where
        F: FnOnce(&T) -> Result<T, E>,
        requires
            table_ok(old(self).shared_rows()),
            forall|t: &T| t.inv() ==> func.requires((t,)),
            forall|t: &T, v: T| t.inv() && func.ensures((t,), Ok::<T, E>(v)) ==> v.inv(),
        ensures
            table_ok(final(self).shared_rows()),
            !has_key(old(self).shared_rows(), k@) ==> r == Ok::<Option<T>, E>(None)
                && final(self).shared_rows() == old(self).shared_rows() && final(self).shared_sent()
                == old(self).shared_sent(),
            r matches Err(e) ==> has_key(old(self).shared_rows(), k@) && func.ensures(
                (&old(self).shared_rows()[key_index(old(self).shared_rows(), k@)],),
                Err::<T, E>(e),
            ) && final(self).shared_rows() == old(self).shared_rows() && final(self).shared_sent()
                == old(self).shared_sent(),
            has_key(old(self).shared_rows(), k@) && r is Ok ==> exists|v: T|
                func.ensures(
                    (&old(self).shared_rows()[key_index(old(self).shared_rows(), k@)],),
                    Ok::<T, E>(v),
                ) && r->Ok_0 == lookup(old(self).shared_rows(), v.key())
                    && final(self).shared_rows() == replaced(old(self).shared_rows(), v)
                    && final(self).shared_sent() == old(self).shared_sent().push(
                    shared_notice(
                        if r->Ok_0 is Some {
                            Change::Update
                        } else {
                            Change::Insert
                        },
                        v.key(),
                        v.snapshot(),
                        final(self).shared_rows(),
                    ),
                ),
    ;

    /// Removes the record of key `k`, if any, and tells every remaining
    /// record of the removal.
    fn shared_remove(&mut self, k: &T::Key) -> (r: bool)
        requires
            table_ok(old(self).shared_rows()),
        ensures
            table_ok(final(self).shared_rows()),
            r == has_key(old(self).shared_rows(), k@),
            final(self).shared_rows() == removed(old(self).shared_rows(), k@),
            r ==> final(self).shared_sent() == old(self).shared_sent().push(
                shared_notice(
                    Change::Delete,
                    k@,
                    old(self).shared_rows()[key_index(old(self).shared_rows(), k@)].snapshot(),
                    final(self).shared_rows(),
                ),
            ),
            !r ==> final(self).shared_sent() == old(self).shared_sent(),
    ;
}

impl<T: Record> SharedTable<T> for DataTable<T> {
    open spec fn shared_rows(&self) -> Seq<T> {
        self.rows()
    }

    open spec fn shared_sent(&self) -> Seq<NoticeView<<T::Key as View>::V, T::Snapshot>> {
        self.sent()
    }

    fn shared_insert(&mut self, value: T) -> (r: bool) {
        let k = value.copy_key();
        if self.contains(&k) {
            return false;
        }
        let snap = value.take_snapshot();
        self.commit(value);
        let to = self.all_keys();
        self.queue(Change::Insert, k, snap, to);
        assert(self.rows() =~= old(self).rows().push(value));
        true
    }

    fn shared_replace(&mut self, value: T) -> (r: Option<T>) {
        let k = value.copy_key();
        let snap = value.take_snapshot();
        let prior = self.commit(value);
        let change = if prior.is_some() {
            Change::Update
        } else {
            Change::Insert
        };
        let to = self.all_keys();
        self.queue(change, k, snap, to);
        prior
    }

    fn shared_update<F, E>(&mut self, k: &T::Key, func: F) -> (r: Result<Option<T>, E>) where
        F: FnOnce(&T) -> Result<T, E>,
     {
        let i = match self.find(k) {
            Some(i) => i,
            None => {
                return Ok(None);
            },
        };
        let v = func(&self.records[i])?;
        let prior = self.shared_replace(v);
        Ok(prior)
    }

    fn shared_remove(&mut self, k: &T::Key) -> (r: bool) {
        match self.take(k) {
            Some(t) => {
                let subject = t.copy_key();
                let snap = t.take_snapshot();
                let to = self.all_keys();
                self.queue(Change::Delete, subject, snap, to);
                true
            },
            None => false,
        }
    }
}

/// In a table with one record per key, a notice told to every record names
/// each record exactly once: the one changed and each record that was there
/// before.
pub proof fn lemma_recipients_once<T: Record>(rows: Seq<T>)
    requires
        unique_keys(rows),
    ensures
        keys_of(rows).no_duplicates(),
        forall|i: int| 0 <= i < rows.len() ==> keys_of(rows).contains(#[trigger] rows[i].key()),
{
    assert forall|i: int| 0 <= i < rows.len() implies keys_of(rows).contains(
        #[trigger] rows[i].key(),
    ) by {
        assert(keys_of(rows)[i] == rows[i].key());
    }
}

} // verus!
