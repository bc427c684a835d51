//! Statistics of all users, each under its own lock, and the ladder built
//! from them.

use dashmap::mapref::one::RefMut;
use dashmap::DashMap;
use std::time::{Duration, Instant};
use vstd::prelude::*;

use crate::ladder::{distinct_users, ladder_sorted, perf_within_best, sort_ladder, LadderItem};
use crate::stats::StatsCollectorUser;
use crate::token::Token;
use crate::user::User;

verus! {

#[verifier::external_type_specification]
#[verifier::external_body]
#[verifier::reject_recursive_types(K)]
#[verifier::reject_recursive_types(V)]
#[verifier::reject_recursive_types(S)]
pub struct ExDashMap<K, V, S>(DashMap<K, V, S>);

#[verifier::external_type_specification]
#[verifier::external_body]
#[verifier::reject_recursive_types(K)]
#[verifier::reject_recursive_types(V)]
pub struct ExRefMut<'a, K, V>(RefMut<'a, K, V>);

#[verifier::external_type_specification]
#[verifier::external_body]
pub struct ExInstant(Instant);

/// Relies on `DashMap::new`: an empty map.
#[verifier::external_body]
fn new_user_map() -> DashMap<User, StatsCollectorUser> {
    DashMap::new()
}

/// Relies on `DashMap::entry` with `Entry::or_insert_with`: the statistics of
/// `user`, made by `StatsCollectorUser::default` where the user has none yet,
/// held under the lock of their shard until the guard is dropped.
#[verifier::external_body]
fn lock_user<'a>(
    map: &'a DashMap<User, StatsCollectorUser>,
    user: User,
) -> RefMut<'a, User, StatsCollectorUser> {
    map.entry(user).or_insert_with(StatsCollectorUser::default)
}

/// Relies on `RefMut::value_mut`: the locked statistics.
#[verifier::external_body]
fn locked_stats<'a, 'b>(
    guard: &'b mut RefMut<'a, User, StatsCollectorUser>,
) -> &'b mut StatsCollectorUser {
    guard.value_mut()
}

/// Relies on `DashMap::iter`: the users present, each once, as the keys of a
/// map are unique and the iterator visits every entry once.
#[verifier::external_body]
fn user_list(map: &DashMap<User, StatsCollectorUser>) -> (r: Vec<User>)
    ensures
        forall|i: int, j: int| 0 <= i < j < r@.len() ==> (#[trigger] r@[i]).id@ != (#[trigger] r@[j]).id@,
{
    map.iter().map(|entry| entry.key().clone()).collect()
}

/// Relies on `Instant::now`.
#[verifier::external_body]
fn instant_now() -> Instant {
    Instant::now()
}

/// Relies on `Instant::elapsed`: the time passed since `epoch`.
#[verifier::external_body]
fn elapsed_since(epoch: &Instant) -> Duration {
    epoch.elapsed()
}

/// Relies on `Duration::as_millis`: the whole milliseconds of `d`.
#[verifier::external_body]
fn whole_millis(d: &Duration) -> u128 {
    d.as_millis()
}

/// Milliseconds since `epoch`, held at `u64::MAX` past that.
fn millis_since(epoch: &Instant) -> u64 {
    let ms = whole_millis(&elapsed_since(epoch));
    if ms > u64::MAX as u128 {
        u64::MAX
    } else {
        ms as u64
    }
}

/// The time at which `stats` records a request when the clock reads
/// `reading`: the reading, or the newest recorded request where the reading
/// is earlier.
pub fn request_time(stats: &StatsCollectorUser, reading: u64) -> (r: u64)
    ensures
        r == (if stats@.requests_1m.len() > 0 && stats@.requests_1m.last() > reading {
            stats@.requests_1m.last()
        } else {
            reading
        }),
        stats@.accepts_time(r),
{
    match stats.latest_request() {
        Some(latest) => {
            if latest > reading {
                latest
            } else {
                reading
            }
        },
        None => reading,
    }
}

/// The line of the ladder for `user`, after its window is brought up to date.
pub fn ladder_line(user: User, stats: &mut StatsCollectorUser, now: u64) -> (r: LadderItem)
    ensures
        final(stats)@ == old(stats)@.refreshed(now),
        r.user == user,
        r.perf_1m == final(stats)@.requests_1m.len(),
        r.best_1m == final(stats)@.best_1m,
        r.perf_1m <= r.best_1m,
{
    stats.update_best(now);
    LadderItem { user, perf_1m: stats.perf_1m(), best_1m: stats.best_1m() }
}

/// Statistics of every user seen, safe to share between threads.
pub struct StatsCollector {
    user_stats: DashMap<User, StatsCollectorUser>,
    epoch: Instant,
}

impl StatsCollector {
    pub fn new() -> (r: StatsCollector) {
        StatsCollector { user_stats: new_user_map(), epoch: instant_now() }
    }

    /// Spends `token` for `user` under that user's lock: true when the token
    /// was spent already; otherwise it is remembered and a request recorded,
    /// as `StatsCollectorUser::try_spend` states.
    pub fn made_request(&self, user: User, token: Token) -> bool {
        let mut guard = lock_user(&self.user_stats, user);
        let stats = locked_stats(&mut guard);
        let now = request_time(stats, millis_since(&self.epoch));
        stats.try_spend(token, now)
    }

    /// The lines of `users`, in that order, each taken under that user's
    /// lock after the user's window is brought up to date. A user without
    /// statistics is given empty ones.
    pub fn lines_for(&self, users: &Vec<User>) -> (r: Vec<LadderItem>)
        ensures
            r@.len() == users@.len(),
            forall|j: int| 0 <= j < r@.len() ==> (#[trigger] r@[j]).user.id@ == users@[j].id@,
            perf_within_best(r@),
    {
        let mut items: Vec<LadderItem> = Vec::new();
        let mut i: usize = 0;
        while i < users.len()
            invariant
                i <= users@.len(),
                items@.len() == i,
                forall|j: int| 0 <= j < i ==> (#[trigger] items@[j]).user.id@ == users@[j].id@,
                perf_within_best(items@),
            decreases users@.len() - i,
        {
            let user = User::new(users[i].id.clone());
            let mut guard = lock_user(&self.user_stats, User::new(users[i].id.clone()));
            let stats = locked_stats(&mut guard);
            let now = request_time(stats, millis_since(&self.epoch));
            items.push(ladder_line(user, stats, now));
            i = i + 1;
        }
        items
    }

    /// Every user's line, each taken under that user's lock, in ladder order.
    pub fn ladder(&self) -> (r: Vec<LadderItem>)
        ensures
            ladder_sorted(r@),
            distinct_users(r@),
            perf_within_best(r@),
    {
        let users = user_list(&self.user_stats);
        let items = self.lines_for(&users);
        assert forall|a: int, b: int| 0 <= a < b < items@.len() implies (#[trigger] items@[a]).user.id@
            != (#[trigger] items@[b]).user.id@ by {
            assert(users@[a].id@ != users@[b].id@);
        }
        sort_ladder(items)
    }
}

impl Default for StatsCollector {
    fn default() -> (r: StatsCollector) {
        StatsCollector::new()
    }
}

} // verus!
