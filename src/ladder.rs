//! The ladder: users ranked by their best and current window sizes.

use vstd::prelude::*;

use crate::user::User;

verus! {

broadcast use vstd::seq_lib::group_to_multiset_ensures;

/// One user's line in the ladder.
#[derive(Clone, Debug)]
pub struct LadderItem {
    pub user: User,
    pub perf_1m: usize,
    pub best_1m: usize,
}

/// Lexicographic order on byte strings, a prefix first.
pub open spec fn bytes_le(a: Seq<u8>, b: Seq<u8>) -> bool
    decreases a.len(),
{
    if a.len() == 0 {
        true
    } else if b.len() == 0 {
        false
    } else if a[0] != b[0] {
        a[0] < b[0]
    } else {
        bytes_le(a.drop_first(), b.drop_first())
    }
}

/// `a` may stand before `b`: a larger best first, then a larger current
/// size, then the smaller user identifier.
pub open spec fn ladder_le(a: LadderItem, b: LadderItem) -> bool {
    if a.best_1m != b.best_1m {
        a.best_1m > b.best_1m
    } else if a.perf_1m != b.perf_1m {
        a.perf_1m > b.perf_1m
    } else {
        bytes_le(a.user.id_bytes(), b.user.id_bytes())
    }
}

/// Each item may stand before every later one.
pub open spec fn ladder_sorted(s: Seq<LadderItem>) -> bool {
    forall|i: int, j: int| 0 <= i < j < s.len() ==> ladder_le(#[trigger] s[i], #[trigger] s[j])
}

/// No user identifier occurs twice.
pub open spec fn distinct_users(s: Seq<LadderItem>) -> bool {
    forall|i: int, j: int|
        0 <= i < j < s.len() ==> (#[trigger] s[i]).user.id@ != (#[trigger] s[j]).user.id@
}

/// No line has a current size above its best size.
pub open spec fn perf_within_best(s: Seq<LadderItem>) -> bool {
    forall|i: int| 0 <= i < s.len() ==> (#[trigger] s[i]).perf_1m <= s[i].best_1m
}

proof fn lemma_bytes_le_transitive(a: Seq<u8>, b: Seq<u8>, c: Seq<u8>)
    requires
        bytes_le(a, b),
        bytes_le(b, c),
    ensures
        bytes_le(a, c),
    decreases a.len(),
{
    if a.len() > 0 && b.len() > 0 && c.len() > 0 && a[0] == b[0] && b[0] == c[0] {
        lemma_bytes_le_transitive(a.drop_first(), b.drop_first(), c.drop_first());
    }
}

proof fn lemma_ladder_le_transitive(a: LadderItem, b: LadderItem, c: LadderItem)
    requires
        ladder_le(a, b),
        ladder_le(b, c),
    ensures
        ladder_le(a, c),
{
    if a.best_1m == b.best_1m && b.best_1m == c.best_1m && a.perf_1m == b.perf_1m && b.perf_1m
        == c.perf_1m {
        lemma_bytes_le_transitive(a.user.id_bytes(), b.user.id_bytes(), c.user.id_bytes());
    }
}

proof fn lemma_bytes_le_total(a: Seq<u8>, b: Seq<u8>)
    ensures
        bytes_le(a, b) || bytes_le(b, a),
    decreases a.len(),
{
    if a.len() > 0 && b.len() > 0 && a[0] == b[0] {
        lemma_bytes_le_total(a.drop_first(), b.drop_first());
    }
}

proof fn lemma_ladder_le_total(a: LadderItem, b: LadderItem)
    ensures
        ladder_le(a, b) || ladder_le(b, a),
{
    lemma_bytes_le_total(a.user.id_bytes(), b.user.id_bytes());
}

fn bytes_le_exec(a: &[u8], b: &[u8]) -> (r: bool)
    ensures
        r == bytes_le(a@, b@),
{
    let mut i: usize = 0;
    assert(a@.skip(0) =~= a@ && b@.skip(0) =~= b@);
    while i < a.len() && i < b.len()
        invariant
            i <= a@.len(),
            i <= b@.len(),
            bytes_le(a@, b@) == bytes_le(a@.skip(i as int), b@.skip(i as int)),
        decreases a@.len() - i,
    {
        if a[i] != b[i] {
            return a[i] < b[i];
        }
        assert(a@.skip(i as int).drop_first() =~= a@.skip(i + 1));
        assert(b@.skip(i as int).drop_first() =~= b@.skip(i + 1));
        i = i + 1;
    }
    i == a.len()
}

fn ladder_le_exec(a: &LadderItem, b: &LadderItem) -> (r: bool)
    ensures
        r == ladder_le(*a, *b),
{
    if a.best_1m != b.best_1m {
        a.best_1m > b.best_1m
    } else if a.perf_1m != b.perf_1m {
        a.perf_1m > b.perf_1m
    } else {
        bytes_le_exec(a.user.id.as_str().as_bytes(), b.user.id.as_str().as_bytes())
    }
}

/// The items in ladder order.
pub fn sort_ladder(items: Vec<LadderItem>) -> (r: Vec<LadderItem>)
    ensures
        ladder_sorted(r@),
        r@.to_multiset() == items@.to_multiset(),
        distinct_users(items@) ==> distinct_users(r@),
        perf_within_best(items@) ==> perf_within_best(r@),
{
    let mut rest = items;
    let mut sorted: Vec<LadderItem> = Vec::new();
    while rest.len() > 0
        invariant
            ladder_sorted(sorted@),
            sorted@.to_multiset().add(rest@.to_multiset()) == items@.to_multiset(),
            distinct_users(items@) ==> distinct_users(sorted@) && distinct_users(rest@) && (
            forall|a: int, b: int|
                0 <= a < sorted@.len() && 0 <= b < rest@.len() ==> (#[trigger] sorted@[a]).user.id@
                    != (#[trigger] rest@[b]).user.id@),
            perf_within_best(items@) ==> perf_within_best(sorted@) && perf_within_best(rest@),
        decreases rest@.len(),
    {
        let ghost before = rest@;
        let x = rest.pop().unwrap();
        assert(before =~= rest@.push(x));
        assert(x == before[before.len() - 1]);
        let mut p: usize = 0;
        while p < sorted.len() && ladder_le_exec(&sorted[p], &x)
            invariant
                p <= sorted@.len(),
                forall|j: int| 0 <= j < p ==> ladder_le(#[trigger] sorted@[j], x),
            decreases sorted@.len() - p,
        {
            p = p + 1;
        }
        let ghost s0 = sorted@;
        proof {
            if p < s0.len() {
                lemma_ladder_le_total(s0[p as int], x);
            }
        }
        sorted.insert(p, x);
        assert forall|i: int, j: int| 0 <= i < j < sorted@.len() implies ladder_le(
            #[trigger] sorted@[i],
            #[trigger] sorted@[j],
        ) by {
            if j < p {
                assert(sorted@[i] == s0[i] && sorted@[j] == s0[j]);
            } else if j == p {
                assert(sorted@[i] == s0[i]);
            } else if i < p {
                assert(sorted@[i] == s0[i] && sorted@[j] == s0[j - 1]);
            } else if i == p {
                assert(sorted@[j] == s0[j - 1]);
                if j - 1 > p {
                    assert(ladder_le(s0[p as int], s0[j - 1]));
                    lemma_ladder_le_transitive(x, s0[p as int], s0[j - 1]);
                }
            } else {
                assert(sorted@[i] == s0[i - 1] && sorted@[j] == s0[j - 1]);
            }
        }
        proof { if distinct_users(items@) {
            assert forall|i: int, j: int| 0 <= i < j < sorted@.len() implies (
            #[trigger] sorted@[i]).user.id@ != (#[trigger] sorted@[j]).user.id@ by {
                if j < p {
                    assert(sorted@[i] == s0[i] && sorted@[j] == s0[j]);
                } else if j == p {
                    assert(sorted@[i] == s0[i]);
                    assert(before[before.len() - 1] == x);
                } else if i < p {
                    assert(sorted@[i] == s0[i] && sorted@[j] == s0[j - 1]);
                } else if i == p {
                    assert(sorted@[j] == s0[j - 1]);
                    assert(before[before.len() - 1] == x);
                } else {
                    assert(sorted@[i] == s0[i - 1] && sorted@[j] == s0[j - 1]);
                }
            }
            assert forall|i: int, j: int| 0 <= i < j < rest@.len() implies (
            #[trigger] rest@[i]).user.id@ != (#[trigger] rest@[j]).user.id@ by {
                assert(rest@[i] == before[i] && rest@[j] == before[j]);
            }
            assert forall|a: int, b: int| 0 <= a < sorted@.len() && 0 <= b < rest@.len() implies (
            #[trigger] sorted@[a]).user.id@ != (#[trigger] rest@[b]).user.id@ by {
                assert(rest@[b] == before[b]);
                if a < p {
                    assert(sorted@[a] == s0[a]);
                } else if a > p {
                    assert(sorted@[a] == s0[a - 1]);
                } else {
                    assert(before[before.len() - 1] == x);
                }
            }
        } }
        proof { if perf_within_best(items@) {
            assert forall|i: int| 0 <= i < sorted@.len() implies (#[trigger] sorted@[i]).perf_1m
                <= sorted@[i].best_1m by {
                if i < p {
                    assert(sorted@[i] == s0[i]);
                } else if i > p {
                    assert(sorted@[i] == s0[i - 1]);
                } else {
                    assert(before[before.len() - 1] == x);
                }
            }
            assert forall|i: int| 0 <= i < rest@.len() implies (#[trigger] rest@[i]).perf_1m
                <= rest@[i].best_1m by {
                assert(rest@[i] == before[i]);
            }
        } }
        proof {
            vstd::seq_lib::to_multiset_insert(s0, p as int, x);
        }
    }
    assert(rest@.to_multiset() =~= vstd::multiset::Multiset::empty());
    sorted
}

} // verus!
