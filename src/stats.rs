//! Per-user request statistics: a sliding one-minute window of request times,
//! the best window size seen, and a bounded cache of spent tokens.

use std::collections::{HashMap, HashSet, VecDeque};
use vstd::prelude::*;

use crate::token::Token;

verus! {

broadcast use vstd::std_specs::hash::group_hash_axioms;

/// The most spent tokens remembered per user.
pub const MAX_USER_TOKENS_CACHE: usize = 100_000;

/// Length of the sliding window, in milliseconds.
pub const WINDOW_MS: u64 = 60_000;

/// A token's index and source in one integer; the cache files it under this
/// key, among the tokens that carry its user hash.
pub open spec fn token_key(t: Token) -> u128 {
    ((t.index as u128) << 64u128) | (t.source as u128)
}

fn key_of(t: Token) -> (r: u128)
    ensures
        r == token_key(t),
{
    ((t.index as u128) << 64u128) | (t.source as u128)
}

/// A request at `t` is out of the window at `now`.
pub open spec fn is_stale(t: u64, now: u64) -> bool {
    now as int - t as int > WINDOW_MS as int
}

/// `s` without its leading stale entries.
pub open spec fn drop_stale(s: Seq<u64>, now: u64) -> Seq<u64>
    decreases s.len(),
{
    if s.len() > 0 && is_stale(s[0], now) {
        drop_stale(s.drop_first(), now)
    } else {
        s
    }
}

pub open spec fn is_sorted(s: Seq<u64>) -> bool {
    forall|i: int, j: int| 0 <= i <= j < s.len() ==> s[i] <= s[j]
}

/// `t` is one of the spent tokens.
pub open spec fn was_spent(spent: Seq<Token>, t: Token) -> bool {
    spent.contains(t)
}

pub open spec fn distinct_tokens(s: Seq<Token>) -> bool {
    forall|i: int, j: int| 0 <= i < j < s.len() ==> #[trigger] s[i] != #[trigger] s[j]
}

/// The newest `k` entries of `s`.
pub open spec fn keep_newest(s: Seq<Token>, k: nat) -> Seq<Token> {
    if s.len() > k {
        s.subrange(s.len() - k, s.len() as int)
    } else {
        s
    }
}

pub open spec fn max_nat(a: nat, b: nat) -> nat {
    if a >= b {
        a
    } else {
        b
    }
}

/// What a user's statistics hold.
pub struct UserStatsView {
    /// Times of the accepted requests in the window, oldest first.
    pub requests_1m: Seq<u64>,
    /// The largest window size seen.
    pub best_1m: nat,
    /// Spent tokens, oldest first.
    pub spent: Seq<Token>,
}

impl UserStatsView {
    pub open spec fn valid(self) -> bool {
        &&& is_sorted(self.requests_1m)
        &&& self.best_1m >= self.requests_1m.len()
        &&& self.spent.len() <= MAX_USER_TOKENS_CACHE
        &&& distinct_tokens(self.spent)
    }

    /// `now` is no earlier than any recorded request.
    pub open spec fn accepts_time(self, now: u64) -> bool {
        self.requests_1m.len() == 0 || self.requests_1m.last() <= now
    }

    /// The statistics after the window is cleared of stale requests at `now`.
    pub open spec fn refreshed(self, now: u64) -> UserStatsView {
        let r = drop_stale(self.requests_1m, now);
        UserStatsView { requests_1m: r, best_1m: max_nat(self.best_1m, r.len()), spent: self.spent }
    }

    /// The statistics after a request at `now` is recorded.
    pub open spec fn recorded(self, now: u64) -> UserStatsView {
        let r = drop_stale(self.requests_1m, now).push(now);
        UserStatsView { requests_1m: r, best_1m: max_nat(self.best_1m, r.len()), spent: self.spent }
    }

    /// The statistics after `t`, not spent yet, is spent at `now`.
    pub open spec fn spent_at(self, t: Token, now: u64) -> UserStatsView {
        UserStatsView {
            spent: keep_newest(self.spent, (MAX_USER_TOKENS_CACHE - 1) as nat).push(t),
            ..self
        }.recorded(now)
    }
}

/// The statistics of one user.
pub struct StatsCollectorUser {
    best_1m: usize,
    requests_1m: VecDeque<u64>,
    spent_queue: VecDeque<Token>,
    spent_set: HashMap<u64, HashSet<u128>>,
}

/// The cache holds `t`: under `t`'s user hash it has `t`'s key.
pub open spec fn cache_holds(cache: Map<u64, HashSet<u128>>, t: Token) -> bool {
    cache.contains_key(t.user_hash) && cache[t.user_hash]@.contains(token_key(t))
}

/// The cache holds the tokens of the queue, and nothing else.
pub open spec fn mirrors(queue: Seq<Token>, cache: Map<u64, HashSet<u128>>) -> bool {
    forall|t: Token| #[trigger] cache_holds(cache, t) <==> queue.contains(t)
}

proof fn lemma_key_injective(a: Token, b: Token)
    requires
        token_key(a) == token_key(b),
        a.user_hash == b.user_hash,
    ensures
        a == b,
{
    let (ai, asrc, bi, bsrc) = (a.index, a.source, b.index, b.source);
    assert(ai == bi && asrc == bsrc) by (bit_vector)
        requires
            ((ai as u128) << 64u128) | (asrc as u128) == ((bi as u128) << 64u128) | (bsrc as u128),
    ;
}

fn cache_contains(cache: &HashMap<u64, HashSet<u128>>, t: Token) -> (r: bool)
    ensures
        r == cache_holds(cache@, t),
{
    match cache.get(&t.user_hash) {
        Some(keys) => keys.contains(&key_of(t)),
        None => false,
    }
}

fn cache_insert(cache: &mut HashMap<u64, HashSet<u128>>, t: Token)
    ensures
        forall|u: Token| #[trigger]
            cache_holds(final(cache)@, u) <==> cache_holds(old(cache)@, u) || u == t,
{
    let key = key_of(t);
    let mut keys = match cache.remove(&t.user_hash) {
        Some(keys) => keys,
        None => HashSet::new(),
    };
    keys.insert(key);
    cache.insert(t.user_hash, keys);
    assert forall|u: Token| #[trigger]
        cache_holds(cache@, u) <==> cache_holds(old(cache)@, u) || u == t by {
        if u.user_hash == t.user_hash && token_key(u) == key {
            lemma_key_injective(u, t);
        }
    }
}

fn cache_remove(cache: &mut HashMap<u64, HashSet<u128>>, t: Token)
    ensures
        forall|u: Token| #[trigger]
            cache_holds(final(cache)@, u) <==> cache_holds(old(cache)@, u) && u != t,
{
    let key = key_of(t);
    match cache.remove(&t.user_hash) {
        Some(mut keys) => {
            let ghost before = keys@;
            keys.remove(&key);
            if !keys.is_empty() {
                cache.insert(t.user_hash, keys);
            } else {
                assert forall|u: Token| u.user_hash == t.user_hash && before.contains(
                    token_key(u),
                ) implies u == t by {
                    if token_key(u) != key {
                        assert(keys@.contains(token_key(u)));
                    }
                    lemma_key_injective(u, t);
                }
            }
        },
        None => {},
    }
    assert forall|u: Token| #[trigger]
        cache_holds(cache@, u) <==> cache_holds(old(cache)@, u) && u != t by {
        if u.user_hash == t.user_hash && token_key(u) == key {
            lemma_key_injective(u, t);
        }
    }
}

impl View for StatsCollectorUser {
    type V = UserStatsView;

    closed spec fn view(&self) -> UserStatsView {
        UserStatsView {
            requests_1m: self.requests_1m@,
            best_1m: self.best_1m as nat,
            spent: self.spent_queue@,
        }
    }
}

proof fn lemma_drop_stale_suffix(s: Seq<u64>, now: u64)
    ensures
        drop_stale(s, now).len() <= s.len(),
        drop_stale(s, now) == s.subrange(s.len() - drop_stale(s, now).len(), s.len() as int),
        drop_stale(s, now).len() == 0 || !is_stale(drop_stale(s, now)[0], now),
    decreases s.len(),
{
    if s.len() > 0 && is_stale(s[0], now) {
        lemma_drop_stale_suffix(s.drop_first(), now);
        let d = drop_stale(s.drop_first(), now);
        assert(s.drop_first().subrange(s.len() - 1 - d.len(), s.len() - 1) =~= s.subrange(
            s.len() - d.len(),
            s.len() as int,
        ));
    } else {
        assert(s.subrange(0, s.len() as int) =~= s);
    }
}

/// Keeping a sorted window's fresh part keeps it sorted and no longer.
proof fn lemma_drop_stale_sorted(s: Seq<u64>, now: u64)
    requires
        is_sorted(s),
    ensures
        is_sorted(drop_stale(s, now)),
        drop_stale(s, now).len() <= s.len(),
        s.len() > 0 ==> drop_stale(s, now).len() == 0 || drop_stale(s, now).last() == s.last(),
{
    lemma_drop_stale_suffix(s, now);
    let d = drop_stale(s, now);
    let off = s.len() - d.len();
    assert forall|i: int, j: int| 0 <= i <= j < d.len() implies d[i] <= d[j] by {
        assert(d[i] == s[off + i]);
        assert(d[j] == s[off + j]);
    }
}

/// Recording a request right after clearing the window leaves nothing more
/// to clear.
proof fn lemma_push_fresh(s: Seq<u64>, now: u64)
    ensures
        drop_stale(drop_stale(s, now).push(now), now) == drop_stale(s, now).push(now),
{
    lemma_drop_stale_suffix(s, now);
    let d = drop_stale(s, now);
    if d.len() == 0 {
        assert(d.push(now)[0] == now);
    } else {
        assert(d.push(now)[0] == d[0]);
    }
}

/// Drops the stale requests at the front of `requests`.
fn drop_stale_requests(requests: &mut VecDeque<u64>, now: u64)
    ensures
        final(requests)@ == drop_stale(old(requests)@, now),
{
    loop
        invariant
            drop_stale(requests@, now) == drop_stale(old(requests)@, now),
        ensures
            requests@ == drop_stale(old(requests)@, now),
        decreases requests@.len(),
    {
        if requests.len() == 0 {
            break ;
        }
        let head = requests[0];
        if !(head < now && now - head > WINDOW_MS) {
            break ;
        }
        requests.pop_front();
    }
}

/// Makes room for one token in the cache and remembers `t`.
fn remember_token(queue: &mut VecDeque<Token>, cache: &mut HashMap<u64, HashSet<u128>>, t: Token)
    requires
        mirrors(old(queue)@, old(cache)@),
        distinct_tokens(old(queue)@),
        old(queue)@.len() <= MAX_USER_TOKENS_CACHE,
        !was_spent(old(queue)@, t),
    ensures
        mirrors(final(queue)@, final(cache)@),
        distinct_tokens(final(queue)@),
        final(queue)@.len() <= MAX_USER_TOKENS_CACHE,
        final(queue)@ == keep_newest(old(queue)@, (MAX_USER_TOKENS_CACHE - 1) as nat).push(t),
{
    if queue.len() >= MAX_USER_TOKENS_CACHE {
        let ghost q0 = queue@;
        let oldest = queue.pop_front().unwrap();
        cache_remove(cache, oldest);
        assert(queue@ =~= q0.subrange(1, q0.len() as int));
        assert forall|u: Token| #[trigger] cache_holds(cache@, u) <==> queue@.contains(u) by {
            if q0.contains(u) && u != oldest {
                let i = choose|i: int| 0 <= i < q0.len() && q0[i] == u;
                assert(queue@[i - 1] == u);
            }
            if queue@.contains(u) {
                let i = choose|i: int| 0 <= i < queue@.len() && queue@[i] == u;
                assert(q0[i + 1] == u);
                assert(q0[0] == oldest);
            }
        }
        assert(keep_newest(q0, (MAX_USER_TOKENS_CACHE - 1) as nat) =~= queue@);
    }
    let ghost q1 = queue@;
    queue.push_back(t);
    cache_insert(cache, t);
    assert forall|u: Token| #[trigger] cache_holds(cache@, u) <==> queue@.contains(u) by {
        if u == t {
            assert(queue@[q1.len() as int] == t);
        } else if q1.contains(u) {
            let i = choose|i: int| 0 <= i < q1.len() && q1[i] == u;
            assert(queue@[i] == u);
        } else if queue@.contains(u) {
            let i = choose|i: int| 0 <= i < queue@.len() && queue@[i] == u;
            assert(queue@[i] == q1[i]);
        }
    }
    assert forall|i: int, j: int| 0 <= i < j < queue@.len() implies #[trigger] queue@[i]
        != #[trigger] queue@[j] by {
        if j == q1.len() {
            assert(queue@[i] == q1[i]);
        } else {
            assert(queue@[i] == q1[i]);
            assert(queue@[j] == q1[j]);
        }
    }
}

impl StatsCollectorUser {
    #[verifier::type_invariant]
    spec fn inv(self) -> bool {
        &&& self@.valid()
        &&& mirrors(self.spent_queue@, self.spent_set@)
    }

    /// Statistics with nothing recorded.
    pub fn new() -> (r: StatsCollectorUser)
        ensures
            r@.requests_1m.len() == 0,
            r@.best_1m == 0,
            r@.spent.len() == 0,
    {
        let r = StatsCollectorUser {
            best_1m: 0,
            requests_1m: VecDeque::new(),
            spent_queue: VecDeque::new(),
            spent_set: HashMap::new(),
        };
        assert(r@.requests_1m =~= Seq::<u64>::empty());
        r
    }

    /// Largest window size seen.
    pub fn best_1m(&self) -> (r: usize)
        ensures
            r == self@.best_1m,
    {
        self.best_1m
    }

    /// Number of requests in the window, as of the last update.
    pub fn perf_1m(&self) -> (r: usize)
        ensures
            r == self@.requests_1m.len(),
    {
        self.requests_1m.len()
    }

    /// The time of the newest request in the window.
    pub fn latest_request(&self) -> (r: Option<u64>)
        ensures
            r == (if self@.requests_1m.len() == 0 {
                None
            } else {
                Some(self@.requests_1m.last())
            }),
    {
        let n = self.requests_1m.len();
        if n == 0 {
            None
        } else {
            Some(self.requests_1m[n - 1])
        }
    }

    /// Drops the requests that are out of the window at `now`.
    pub fn garbage_collect(&mut self, now: u64)
        ensures
            final(self)@ == (UserStatsView {
                requests_1m: drop_stale(old(self)@.requests_1m, now),
                ..old(self)@
            }),
    {
        proof {
            use_type_invariant(&*self);
            lemma_drop_stale_sorted(self@.requests_1m, now);
        }
        let mut parts = StatsCollectorUser::new();
        std::mem::swap(self, &mut parts);
        let StatsCollectorUser { best_1m, mut requests_1m, spent_queue, spent_set } = parts;
        drop_stale_requests(&mut requests_1m, now);
        *self = StatsCollectorUser { best_1m, requests_1m, spent_queue, spent_set };
    }

    /// Clears the window at `now` and raises the best size to the window's
    /// size where it is larger.
    pub fn update_best(&mut self, now: u64)
        ensures
            final(self)@ == old(self)@.refreshed(now),
    {
        self.garbage_collect(now);
        proof {
            use_type_invariant(&*self);
        }
        let n = self.requests_1m.len();
        if n > self.best_1m {
            let mut parts = StatsCollectorUser::new();
            std::mem::swap(self, &mut parts);
            let StatsCollectorUser { best_1m, requests_1m, spent_queue, spent_set } = parts;
            *self = StatsCollectorUser { best_1m: n, requests_1m, spent_queue, spent_set };
        }
    }

    /// Records a request at `now`.
    pub fn made_request(&mut self, now: u64)
        requires
            old(self)@.accepts_time(now),
        ensures
            final(self)@ == old(self)@.recorded(now),
    {
        proof {
            use_type_invariant(&*self);
            lemma_drop_stale_sorted(self@.requests_1m, now);
            lemma_push_fresh(self@.requests_1m, now);
        }
        let mut parts = StatsCollectorUser::new();
        std::mem::swap(self, &mut parts);
        let StatsCollectorUser { best_1m, mut requests_1m, spent_queue, spent_set } = parts;
        drop_stale_requests(&mut requests_1m, now);
        let ghost kept = requests_1m@;
        requests_1m.push_back(now);
        assert(is_sorted(requests_1m@)) by {
            assert forall|i: int, j: int| 0 <= i <= j < requests_1m@.len() implies requests_1m@[i]
                <= requests_1m@[j] by {
                if j == kept.len() && i < j {
                    assert(requests_1m@[i] == kept[i]);
                }
            }
        }
        let best = if requests_1m.len() > best_1m { requests_1m.len() } else { best_1m };
        *self = StatsCollectorUser { best_1m: best, requests_1m, spent_queue, spent_set };
        self.update_best(now);
    }

    /// Spends `token` at `now`: true when it was spent already, and then
    /// nothing changes; otherwise the token is remembered, the oldest one
    /// forgotten where the cache is full, and a request recorded.
    pub fn try_spend(&mut self, token: Token, now: u64) -> (r: bool)
        requires
            old(self)@.accepts_time(now),
        ensures
            r == was_spent(old(self)@.spent, token),
            r ==> final(self)@ == old(self)@,
            !r ==> final(self)@ == old(self)@.spent_at(token, now),
    {
        proof {
            use_type_invariant(&*self);
        }
        if cache_contains(&self.spent_set, token) {
            return true;
        }
        let mut parts = StatsCollectorUser::new();
        std::mem::swap(self, &mut parts);
        let StatsCollectorUser { best_1m, requests_1m, mut spent_queue, mut spent_set } = parts;
        remember_token(&mut spent_queue, &mut spent_set, token);
        *self = StatsCollectorUser { best_1m, requests_1m, spent_queue, spent_set };
        self.made_request(now);
        false
    }
}

impl Default for StatsCollectorUser {
    fn default() -> (r: StatsCollectorUser)
        ensures
            r@.requests_1m.len() == 0,
            r@.best_1m == 0,
            r@.spent.len() == 0,
    {
        let r = StatsCollectorUser {
            best_1m: 0,
            requests_1m: VecDeque::new(),
            spent_queue: VecDeque::with_capacity(MAX_USER_TOKENS_CACHE),
            spent_set: HashMap::new(),
        };
        assert(r@.requests_1m =~= Seq::<u64>::empty());
        r
    }
}

/// The statistics after `toks[i]` is spent at `nows[i]`, one after the other.
pub open spec fn spend_all(v: UserStatsView, toks: Seq<Token>, nows: Seq<u64>) -> UserStatsView
    decreases toks.len(),
{
    if toks.len() == 0 {
        v
    } else {
        spend_all(v, toks.drop_last(), nows.take(toks.len() - 1)).spent_at(
            toks.last(),
            nows[toks.len() - 1],
        )
    }
}

/// A token just spent is found among the spent ones, so that spending it
/// again reports it as spent and changes nothing.
pub proof fn lemma_replay_detected(v: UserStatsView, t: Token, now: u64)
    ensures
        was_spent(v.spent_at(t, now).spent, t),
{
    let s = v.spent_at(t, now).spent;
    assert(s[s.len() - 1] == t);
}

/// A window whose oldest request is fresh is left as it is.
proof fn lemma_drop_stale_fresh_head(s: Seq<u64>, now: u64)
    requires
        s.len() == 0 || !is_stale(s[0], now),
    ensures
        drop_stale(s, now) == s,
{
}

/// A window whose requests are all stale is emptied.
proof fn lemma_drop_stale_all(s: Seq<u64>, now: u64)
    requires
        forall|i: int| 0 <= i < s.len() ==> is_stale(#[trigger] s[i], now),
    ensures
        drop_stale(s, now).len() == 0,
    decreases s.len(),
{
    if s.len() > 0 {
        assert forall|i: int| 0 <= i < s.drop_first().len() implies is_stale(
            #[trigger] s.drop_first()[i],
            now,
        ) by {
            assert(s.drop_first()[i] == s[i + 1]);
        }
        lemma_drop_stale_all(s.drop_first(), now);
    }
}

proof fn lemma_burst_window(v: UserStatsView, toks: Seq<Token>, nows: Seq<u64>)
    requires
        v.requests_1m.len() == 0,
        nows.len() == toks.len(),
        is_sorted(nows),
        nows.len() > 0 ==> nows.last() - nows[0] <= WINDOW_MS,
    ensures
        spend_all(v, toks, nows).requests_1m == nows,
        spend_all(v, toks, nows).best_1m >= nows.len(),
    decreases toks.len(),
{
    if toks.len() > 0 {
        let k = toks.len() - 1;
        let front = nows.take(k);
        if k > 0 {
            assert(front.last() == nows[k - 1]);
            assert(front[0] == nows[0]);
            assert(nows[k - 1] <= nows[k]);
        }
        assert forall|i: int, j: int| 0 <= i <= j < front.len() implies front[i] <= front[j] by {
            assert(front[i] == nows[i] && front[j] == nows[j]);
        }
        lemma_burst_window(v, toks.drop_last(), front);
        let w = spend_all(v, toks.drop_last(), front);
        if k > 0 {
            assert(nows[0] <= nows[k]);
            lemma_drop_stale_fresh_head(w.requests_1m, nows[k]);
        }
        assert(front.push(nows[k]) =~= nows);
    }
}

/// A burst of spends within one second, on a user with an empty window:
/// right after it the window holds exactly those requests and the best size
/// is at least their number; once a window and a second have passed since the
/// last of them, the window is empty and the best size is kept.
pub proof fn lemma_burst_then_quiet(
    v: UserStatsView,
    toks: Seq<Token>,
    nows: Seq<u64>,
    soon: u64,
    later: u64,
)
    requires
        v.valid(),
        v.requests_1m.len() == 0,
        toks.len() > 0,
        nows.len() == toks.len(),
        is_sorted(nows),
        nows.last() - nows[0] <= 1000,
        nows.last() <= soon,
        soon - nows[0] <= WINDOW_MS,
        later >= nows.last() + WINDOW_MS + 1000,
    ensures
        spend_all(v, toks, nows).refreshed(soon).requests_1m.len() == toks.len(),
        spend_all(v, toks, nows).refreshed(soon).best_1m >= toks.len(),
        spend_all(v, toks, nows).refreshed(later).requests_1m.len() == 0,
        spend_all(v, toks, nows).refreshed(later).best_1m == spend_all(v, toks, nows).best_1m,
{
    lemma_burst_window(v, toks, nows);
    let w = spend_all(v, toks, nows);
    lemma_drop_stale_fresh_head(w.requests_1m, soon);
    assert forall|i: int| 0 <= i < nows.len() implies is_stale(#[trigger] nows[i], later) by {
        assert(nows[i] <= nows[nows.len() - 1]);
    }
    lemma_drop_stale_all(w.requests_1m, later);
}

proof fn lemma_oldest_drifts(v: UserStatsView, toks: Seq<Token>, nows: Seq<u64>)
    requires
        v.spent.len() <= MAX_USER_TOKENS_CACHE,
        toks.len() >= 1,
        nows.len() == toks.len(),
        !was_spent(v.spent, toks[0]),
        forall|j: int| 1 <= j < toks.len() ==> #[trigger] toks[j] != toks[0],
    ensures
        spend_all(v, toks, nows).spent.len() <= MAX_USER_TOKENS_CACHE,
        forall|i: int|
            0 <= i < spend_all(v, toks, nows).spent.len() && #[trigger] spend_all(
                v,
                toks,
                nows,
            ).spent[i] == toks[0] ==> spend_all(v, toks, nows).spent.len() - i >= toks.len(),
    decreases toks.len(),
{
    let k = toks.len() - 1;
    let t = toks.last();
    let prev = spend_all(v, toks.drop_last(), nows.take(k));
    if k > 0 {
        assert forall|j: int| 1 <= j < toks.drop_last().len() implies #[trigger] toks.drop_last()[j]
            != toks.drop_last()[0] by {
            assert(toks.drop_last()[j] == toks[j]);
        }
        lemma_oldest_drifts(v, toks.drop_last(), nows.take(k));
    } else {
        assert(toks.drop_last().len() == 0);
        assert(prev == v);
    }
    let s = prev.spent;
    let kept = keep_newest(s, (MAX_USER_TOKENS_CACHE - 1) as nat);
    let d = s.len() - kept.len();
    let s2 = kept.push(t);
    assert(spend_all(v, toks, nows).spent == s2);
    assert forall|i: int| 0 <= i < s2.len() && #[trigger] s2[i] == toks[0] implies s2.len() - i
        >= toks.len() by {
        if k == 0 {
            if i < kept.len() {
                assert(kept[i] == s[i + d]);
                assert(s.contains(s[i + d]));
            }
        } else {
            assert(i < kept.len());
            assert(kept[i] == s[i + d]);
        }
    }
}

/// Once more spends of fresh, distinct tokens than the cache holds have
/// followed the spend of a token, that token is no longer found spent.
pub proof fn lemma_oldest_evicted(v: UserStatsView, toks: Seq<Token>, nows: Seq<u64>)
    requires
        v.valid(),
        toks.len() > MAX_USER_TOKENS_CACHE,
        nows.len() == toks.len(),
        !was_spent(v.spent, toks[0]),
        distinct_tokens(toks),
    ensures
        !was_spent(spend_all(v, toks, nows).spent, toks[0]),
{
    lemma_oldest_drifts(v, toks, nows);
    let s = spend_all(v, toks, nows).spent;
    if s.contains(toks[0]) {
        let i = choose|i: int| 0 <= i < s.len() && s[i] == toks[0];
        assert(s[i] == toks[0]);
    }
}

proof fn lemma_recent_position(v: UserStatsView, toks: Seq<Token>, nows: Seq<u64>)
    requires
        v.spent.len() <= MAX_USER_TOKENS_CACHE,
        1 <= toks.len() <= MAX_USER_TOKENS_CACHE,
        nows.len() == toks.len(),
    ensures
        spend_all(v, toks, nows).spent.len() >= toks.len(),
        spend_all(v, toks, nows).spent.len() <= MAX_USER_TOKENS_CACHE,
        spend_all(v, toks, nows).spent[spend_all(v, toks, nows).spent.len() - toks.len()]
            == toks[0],
    decreases toks.len(),
{
    let k = toks.len() - 1;
    let prev = spend_all(v, toks.drop_last(), nows.take(k));
    if k > 0 {
        lemma_recent_position(v, toks.drop_last(), nows.take(k));
        assert(toks.drop_last()[0] == toks[0]);
    } else {
        assert(toks.drop_last().len() == 0);
        assert(prev == v);
    }
    let s = prev.spent;
    let kept = keep_newest(s, (MAX_USER_TOKENS_CACHE - 1) as nat);
    let d = s.len() - kept.len();
    let s2 = kept.push(toks.last());
    assert(spend_all(v, toks, nows).spent == s2);
    if k > 0 {
        assert(kept[s.len() - k - d] == s[s.len() - k]);
    }
}

/// A token just spent is still found spent after fewer than
/// `MAX_USER_TOKENS_CACHE` further spends: `toks[0]` is the token, the rest
/// are the spends that follow it.
pub proof fn lemma_replay_within_capacity(v: UserStatsView, toks: Seq<Token>, nows: Seq<u64>)
    requires
        v.valid(),
        1 <= toks.len() <= MAX_USER_TOKENS_CACHE,
        nows.len() == toks.len(),
    ensures
        was_spent(spend_all(v, toks, nows).spent, toks[0]),
{
    lemma_recent_position(v, toks, nows);
    let s = spend_all(v, toks, nows).spent;
    assert(s[s.len() - toks.len()] == toks[0]);
}

/// The statistics after requests are recorded at `nows[0]`, `nows[1]`, ...
pub open spec fn record_all(v: UserStatsView, nows: Seq<u64>) -> UserStatsView
    decreases nows.len(),
{
    if nows.len() == 0 {
        v
    } else {
        record_all(v, nows.drop_last()).recorded(nows.last())
    }
}

proof fn lemma_record_window(v: UserStatsView, nows: Seq<u64>)
    requires
        v.requests_1m.len() == 0,
        is_sorted(nows),
        nows.len() > 0 ==> nows.last() - nows[0] <= WINDOW_MS,
    ensures
        record_all(v, nows).requests_1m == nows,
        record_all(v, nows).best_1m >= nows.len(),
    decreases nows.len(),
{
    if nows.len() > 0 {
        let k = nows.len() - 1;
        let front = nows.drop_last();
        if k > 0 {
            assert(front.last() == nows[k - 1]);
            assert(front[0] == nows[0]);
            assert(nows[k - 1] <= nows[k]);
        }
        assert forall|i: int, j: int| 0 <= i <= j < front.len() implies front[i] <= front[j] by {
            assert(front[i] == nows[i] && front[j] == nows[j]);
        }
        lemma_record_window(v, front);
        let w = record_all(v, front);
        if k > 0 {
            assert(nows[0] <= nows[k]);
            lemma_drop_stale_fresh_head(w.requests_1m, nows[k]);
        }
        assert(front.push(nows[k]) =~= nows);
    }
}

/// Requests recorded one after the other within one second, on a user with an
/// empty window: right after the last, the window holds exactly those
/// requests and the best size is at least their number; once a window and a
/// second have passed since the last of them, the window is empty and the
/// best size is kept.
pub proof fn lemma_requests_then_quiet(v: UserStatsView, nows: Seq<u64>, later: u64)
    requires
        v.valid(),
        v.requests_1m.len() == 0,
        nows.len() > 0,
        is_sorted(nows),
        nows.last() - nows[0] <= 1000,
        later >= nows.last() + WINDOW_MS + 1000,
    ensures
        record_all(v, nows).requests_1m.len() == nows.len(),
        record_all(v, nows).best_1m >= nows.len(),
        record_all(v, nows).refreshed(later).requests_1m.len() == 0,
        record_all(v, nows).refreshed(later).best_1m == record_all(v, nows).best_1m,
{
    lemma_record_window(v, nows);
    let w = record_all(v, nows);
    assert forall|i: int| 0 <= i < nows.len() implies is_stale(#[trigger] nows[i], later) by {
        assert(nows[i] <= nows[nows.len() - 1]);
    }
    lemma_drop_stale_all(w.requests_1m, later);
}

} // verus!
