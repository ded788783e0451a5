use vstd::prelude::*;

verus! {

/// Seconds in a day.
pub const DAY: i64 = 86400;

/// Days a token stays valid after it was issued or last used.
pub const VALID_DAYS: i64 = 7;

/// A stored login token: the account it belongs to and the time, in seconds
/// since the epoch, when it was issued or last used.
#[derive(Debug, Clone, Copy, PartialEq, Eq, Structural)]
pub struct Session {
    pub account: u128,
    pub created_at: i64,
}

/// Why a token was not accepted.
#[derive(Debug, Clone, Copy, PartialEq, Eq, Structural)]
pub enum Error {
    NotFound,
    RowExpired,
}

/// Whether a token stamped at `created_at` has expired at `now`.
pub open spec fn expired(created_at: int, now: int) -> bool {
    now - created_at > VALID_DAYS * DAY
}

/// What using the token whose row is `row` at time `now` gives: the account
/// and the row renewed to `now`, or why it was refused.
pub open spec fn handle_spec(row: Option<Session>, now: i64) -> Result<(u128, Session), Error> {
    match row {
        None => Err(Error::NotFound),
        Some(s) => if expired(s.created_at as int, now as int) {
            Err(Error::RowExpired)
        } else {
            Ok((s.account, Session { account: s.account, created_at: now }))
        },
    }
}

/// Uses a token: `row` is what the store holds for it and `now` the time.
/// An unexpired token gives its account, and its row renewed to `now`, which
/// slides its expiry.
pub fn handle(row: Option<Session>, now: i64) -> (r: Result<(u128, Session), Error>)
    ensures
        r == handle_spec(row, now),
{
    match row {
        None => Err(Error::NotFound),
        Some(s) => {
            if now as i128 - s.created_at as i128 > (VALID_DAYS * DAY) as i128 {
                Err(Error::RowExpired)
            } else {
                Ok((s.account, Session { account: s.account, created_at: now }))
            }
        },
    }
}

/// Relies on chrono's `Utc::now().timestamp()`: the current time in seconds
/// since the epoch, as the clock gives it.
#[verifier::external_body]
fn now_seconds() -> i64 {
    chrono::Utc::now().timestamp()
}

/// Uses a token at the current time.
pub fn handle_now(row: Option<Session>) -> (r: Result<(u128, Session), Error>)
    ensures
        exists|now: i64| r == handle_spec(row, now),
{
    let now = now_seconds();
    handle(row, now)
}

/// A token is accepted six days after it was issued and refused after
/// eight; used after three days, it is accepted until ten days after it was
/// issued and refused a second later.
pub proof fn lemma_sliding_expiry(account: u128, t: i64)
    requires
        t + 10 * DAY + 1 <= i64::MAX,
    ensures
        handle_spec(Some(Session { account, created_at: t }), (t + 6 * DAY) as i64) is Ok,
        handle_spec(Some(Session { account, created_at: t }), (t + 8 * DAY) as i64) == Err::<
            (u128, Session),
            Error,
        >(Error::RowExpired),
        handle_spec(Some(Session { account, created_at: t }), (t + 3 * DAY) as i64) == Ok::<
            (u128, Session),
            Error,
        >((account, Session { account, created_at: (t + 3 * DAY) as i64 })),
        handle_spec(Some(Session { account, created_at: (t + 3 * DAY) as i64 }), (t + 10 * DAY) as i64)
            is Ok,
        handle_spec(
            Some(Session { account, created_at: (t + 3 * DAY) as i64 }),
            (t + 10 * DAY + 1) as i64,
        ) == Err::<(u128, Session), Error>(Error::RowExpired),
{
}

} // verus!
