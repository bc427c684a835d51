use crawl_tree::collector::{ladder_line, request_time, StatsCollector};
use crawl_tree::ladder::{sort_ladder, LadderItem};
use crawl_tree::stats::{StatsCollectorUser, MAX_USER_TOKENS_CACHE, WINDOW_MS};
use crawl_tree::token::Token;
use crawl_tree::user::User;

fn tok(i: u64) -> Token {
    Token { index: (i % 8) as u8, source: i, user_hash: 77 }
}

fn item(id: &str, perf: usize, best: usize) -> LadderItem {
    LadderItem { user: User::new(id.to_string()), perf_1m: perf, best_1m: best }
}

#[test]
fn fresh_stats_are_empty() {
    let s = StatsCollectorUser::default();
    assert_eq!(s.best_1m(), 0);
    assert_eq!(s.perf_1m(), 0);
    assert_eq!(s.latest_request(), None);
    let s = StatsCollectorUser::new();
    assert_eq!(s.perf_1m(), 0);
}

#[test]
fn spend_then_replay() {
    let mut s = StatsCollectorUser::new();
    assert!(!s.try_spend(tok(1), 1_000));
    assert_eq!(s.perf_1m(), 1);
    assert_eq!(s.best_1m(), 1);
    assert!(s.try_spend(tok(1), 1_001));
    assert_eq!(s.perf_1m(), 1);
    assert_eq!(s.latest_request(), Some(1_000));
    assert!(!s.try_spend(tok(2), 1_002));
    assert_eq!(s.perf_1m(), 2);
}

#[test]
fn burst_then_quiet() {
    let mut s = StatsCollectorUser::new();
    let n = 25u64;
    for i in 0..n {
        assert!(!s.try_spend(tok(i), 5_000 + i * 40));
    }
    s.update_best(5_000 + 999);
    assert_eq!(s.perf_1m(), n as usize);
    assert!(s.best_1m() >= n as usize);
    let best = s.best_1m();
    s.update_best(5_000 + 999 + 61_000);
    assert_eq!(s.perf_1m(), 0);
    assert_eq!(s.best_1m(), best);
}

#[test]
fn window_edge() {
    let mut s = StatsCollectorUser::new();
    s.made_request(100);
    s.made_request(200);
    s.garbage_collect(100 + WINDOW_MS);
    assert_eq!(s.perf_1m(), 2);
    s.garbage_collect(100 + WINDOW_MS + 1);
    assert_eq!(s.perf_1m(), 1);
    assert_eq!(s.best_1m(), 2);
    s.update_best(200 + WINDOW_MS + 1);
    assert_eq!(s.perf_1m(), 0);
    assert_eq!(s.best_1m(), 2);
}

#[test]
fn best_rises_with_window() {
    let mut s = StatsCollectorUser::new();
    s.made_request(0);
    s.made_request(10);
    s.made_request(20);
    assert_eq!(s.best_1m(), 3);
    s.made_request(70_000);
    assert_eq!(s.perf_1m(), 1);
    assert_eq!(s.best_1m(), 3);
}

#[test]
fn oldest_token_evicted() {
    let mut s = StatsCollectorUser::new();
    let total = MAX_USER_TOKENS_CACHE as u64 + 1;
    for i in 0..total {
        assert!(!s.try_spend(tok(i), 1_000));
    }
    // The first token was forgotten; the second is still remembered.
    assert!(s.try_spend(tok(1), 1_000));
    assert!(!s.try_spend(tok(0), 1_000));
}

#[test]
fn cache_keeps_full_capacity() {
    let mut s = StatsCollectorUser::new();
    for i in 0..MAX_USER_TOKENS_CACHE as u64 {
        assert!(!s.try_spend(tok(i), 1_000));
    }
    assert!(s.try_spend(tok(0), 1_000));
}

#[test]
fn collector_replay() {
    let stats = StatsCollector::new();
    let alice = User::new("alice".to_string());
    let t = Token::from_user(&alice);
    let child = t.iter_children()[0];
    assert!(!stats.made_request(alice.clone(), child));
    assert!(stats.made_request(alice.clone(), child));
    // Another user's cache is separate.
    assert!(!stats.made_request(User::new("bob".to_string()), child));
}

#[test]
fn collector_ladder() {
    let stats = StatsCollector::default();
    let alice = User::new("alice".to_string());
    let bob = User::new("bob".to_string());
    for i in 0..3 {
        assert!(!stats.made_request(alice.clone(), tok(i)));
    }
    for i in 0..5 {
        assert!(!stats.made_request(bob.clone(), tok(100 + i)));
    }
    let ladder = stats.ladder();
    assert_eq!(ladder.len(), 2);
    assert_eq!(ladder[0].user.id, "bob");
    assert_eq!((ladder[0].perf_1m, ladder[0].best_1m), (5, 5));
    assert_eq!(ladder[1].user.id, "alice");
    assert_eq!((ladder[1].perf_1m, ladder[1].best_1m), (3, 3));
}

#[test]
fn empty_ladder() {
    assert!(StatsCollector::new().ladder().is_empty());
}

#[test]
fn ladder_order_and_ties() {
    let items = vec![
        item("carol", 1, 4),
        item("bob", 2, 4),
        item("dave", 9, 3),
        item("alice", 2, 4),
        item("eve", 0, 7),
    ];
    let sorted = sort_ladder(items);
    let ids: Vec<&str> = sorted.iter().map(|i| i.user.id.as_str()).collect();
    assert_eq!(ids, vec!["eve", "alice", "bob", "carol", "dave"]);
}

#[test]
fn ladder_id_prefix_first() {
    let sorted = sort_ladder(vec![item("ab", 1, 1), item("a", 1, 1), item("b", 1, 1)]);
    let ids: Vec<&str> = sorted.iter().map(|i| i.user.id.as_str()).collect();
    assert_eq!(ids, vec!["a", "ab", "b"]);
}

#[test]
fn ladder_line_refreshes() {
    let mut s = StatsCollectorUser::new();
    s.made_request(0);
    s.made_request(30_000);
    let line = ladder_line(User::new("zed".to_string()), &mut s, 61_000);
    assert_eq!(line.user.id, "zed");
    assert_eq!(line.perf_1m, 1);
    assert_eq!(line.best_1m, 2);
}


#[test]
fn cache_compares_whole_tokens() {
    let mut s = StatsCollectorUser::new();
    let a = Token { index: 3, source: 9, user_hash: 1 };
    let b = Token { index: 3, source: 9, user_hash: 2 };
    let c = Token { index: 4, source: 9, user_hash: 1 };
    assert!(!s.try_spend(a, 10));
    assert!(!s.try_spend(b, 11));
    assert!(!s.try_spend(c, 12));
    assert_eq!(s.perf_1m(), 3);
    assert!(s.try_spend(a, 13));
    assert!(s.try_spend(b, 13));
    assert!(s.try_spend(c, 13));
}

#[test]
fn eviction_of_shared_key_keeps_sibling() {
    let mut s = StatsCollectorUser::new();
    let first = Token { index: 0, source: u64::MAX, user_hash: 5 };
    let sibling = Token { index: 0, source: u64::MAX, user_hash: 6 };
    assert!(!s.try_spend(first, 0));
    assert!(!s.try_spend(sibling, 0));
    for i in 0..(MAX_USER_TOKENS_CACHE as u64 - 1) {
        assert!(!s.try_spend(tok(i), 0));
    }
    // `first` was the oldest and is gone; `sibling` is still remembered.
    assert!(s.try_spend(sibling, 0));
    assert!(!s.try_spend(first, 0));
}

#[test]
fn ladder_lines_are_consistent() {
    let stats = StatsCollector::new();
    for (n, id) in ["carol", "alice", "bob"].iter().enumerate() {
        let u = User::new(id.to_string());
        for i in 0..2u64 {
            assert!(!stats.made_request(u.clone(), tok(n as u64 * 10 + i)));
        }
    }
    let ladder = stats.ladder();
    let ids: Vec<&str> = ladder.iter().map(|i| i.user.id.as_str()).collect();
    assert_eq!(ids, vec!["alice", "bob", "carol"]);
    assert!(ladder.iter().all(|i| i.perf_1m <= i.best_1m && i.perf_1m == 2));
}

#[test]
fn replay_after_other_spends() {
    let mut s = StatsCollectorUser::new();
    let t = Token { index: 2, source: 500_000, user_hash: 77 };
    assert!(!s.try_spend(t, 0));
    for i in 0..1_000u64 {
        assert!(!s.try_spend(tok(i), 1 + i));
    }
    assert!(s.try_spend(t, 2_000));
    assert_eq!(s.perf_1m(), 1_001);
}

#[test]
fn burst_of_recorded_requests() {
    let mut s = StatsCollectorUser::default();
    for i in 0..10u64 {
        s.made_request(2_000 + i * 100);
    }
    assert_eq!(s.perf_1m(), 10);
    assert!(s.best_1m() >= 10);
    s.update_best(2_900 + 61_000);
    assert_eq!(s.perf_1m(), 0);
    assert_eq!(s.best_1m(), 10);
}

#[test]
fn request_time_never_goes_back() {
    let mut s = StatsCollectorUser::new();
    assert_eq!(request_time(&s, 5), 5);
    s.made_request(100);
    assert_eq!(request_time(&s, 40), 100);
    assert_eq!(request_time(&s, 100), 100);
    assert_eq!(request_time(&s, 250), 250);
}

#[test]
fn lines_follow_user_order() {
    let stats = StatsCollector::new();
    let alice = User::new("alice".to_string());
    let bob = User::new("bob".to_string());
    assert!(!stats.made_request(alice.clone(), tok(1)));
    assert!(!stats.made_request(bob.clone(), tok(2)));
    assert!(!stats.made_request(bob.clone(), tok(3)));
    let lines = stats.lines_for(&vec![alice.clone(), bob.clone()]);
    assert_eq!(lines.len(), 2);
    assert_eq!(lines[0].user.id, "alice");
    assert_eq!((lines[0].perf_1m, lines[0].best_1m), (1, 1));
    assert_eq!(lines[1].user.id, "bob");
    assert_eq!((lines[1].perf_1m, lines[1].best_1m), (2, 2));
}
