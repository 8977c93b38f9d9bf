//! Laws of the alignment: no article is lost, and the result is in order.

use vstd::prelude::*;
use crate::diff::plan::{
    added, additions, all_stages, best_from, bind, bind_pairs, deleted, deletions,
    greedy_match, greedy_matches, group_mean, initial, insertion_point, is_group, key_le,
    mark_all, merge_all, merged_into, merges, number_match, number_matches, ordered, pick,
    plan_spec, same_number_from, sequence_match, sequence_matches, sort_key, splits, top_three,
    trace, unused, AlignmentView, SortKey, State, Table,
};
use crate::models::ArticleChangeType;

verus! {

/// Whether a change has old article `i` as its old article.
pub open spec fn holds_old(a: AlignmentView, i: int) -> bool {
    a.old_index == Some(i as usize)
}

/// Whether a change has new article `j` among its new articles.
pub open spec fn holds_new(a: AlignmentView, j: int) -> bool {
    a.new_indices.contains(j as usize)
}

/// How many changes have old article `i` as their old article.
pub open spec fn count_old(plan: Seq<AlignmentView>, i: int) -> nat
    decreases plan.len(),
{
    if plan.len() == 0 {
        0
    } else {
        count_old(plan.drop_last(), i) + if holds_old(plan.last(), i) {
            1nat
        } else {
            0nat
        }
    }
}

/// How many changes have new article `j` among their new articles.
pub open spec fn count_new(plan: Seq<AlignmentView>, j: int) -> nat
    decreases plan.len(),
{
    if plan.len() == 0 {
        0
    } else {
        count_new(plan.drop_last(), j) + if holds_new(plan.last(), j) {
            1nat
        } else {
            0nat
        }
    }
}

/// How many changes other than merges have new article `j` among their new
/// articles.
pub open spec fn count_new_unmerged(plan: Seq<AlignmentView>, j: int) -> nat
    decreases plan.len(),
{
    if plan.len() == 0 {
        0
    } else {
        count_new_unmerged(plan.drop_last(), j) + if holds_new(plan.last(), j)
            && plan.last().change_type != ArticleChangeType::Merged {
            1nat
        } else {
            0nat
        }
    }
}

/// Old article `i` is held by exactly one change.
pub open spec fn old_covered(plan: Seq<AlignmentView>, i: int) -> bool {
    count_old(plan, i) == 1
}

/// New article `j` is held by one change at least, and by more than one only
/// where all of them are merges.
pub open spec fn new_covered(plan: Seq<AlignmentView>, j: int) -> bool {
    count_new(plan, j) >= 1 && (count_new(plan, j) == 1 || count_new_unmerged(plan, j) == 0)
}

/// The marks of a state agree with its changes: an article is marked where a
/// change holds it, an old article is held once at most, and a new article
/// more than once only by merges.
pub open spec fn consistent(t: Table, st: State) -> bool {
    &&& st.used_old.len() == t.old.len()
    &&& st.used_new.len() == t.new.len()
    &&& t.old.len() <= usize::MAX
    &&& t.new.len() <= usize::MAX
    &&& forall|i: int|
        0 <= i < t.old.len() ==> #[trigger] count_old(st.plan, i) == if st.used_old[i] {
            1nat
        } else {
            0nat
        }
    &&& forall|j: int| 0 <= j < t.new.len() && !st.used_new[j] ==> #[trigger] count_new(st.plan, j) == 0
    &&& forall|j: int|
        0 <= j < t.new.len() && st.used_new[j] ==> #[trigger] new_covered(st.plan, j)
}

proof fn lemma_push_counts(plan: Seq<AlignmentView>, a: AlignmentView)
    ensures
        forall|i: int| #[trigger]
            count_old(plan.push(a), i) == count_old(plan, i) + if holds_old(a, i) {
                1nat
            } else {
                0nat
            },
        forall|j: int| #[trigger]
            count_new(plan.push(a), j) == count_new(plan, j) + if holds_new(a, j) {
                1nat
            } else {
                0nat
            },
        forall|j: int| #[trigger]
            count_new_unmerged(plan.push(a), j) == count_new_unmerged(plan, j) + if holds_new(a, j)
                && a.change_type != ArticleChangeType::Merged {
                1nat
            } else {
                0nat
            },
{
    assert(plan.push(a).drop_last() =~= plan);
    assert(plan.push(a).last() == a);
}

proof fn lemma_unmerged_bound(plan: Seq<AlignmentView>, j: int)
    ensures
        count_new_unmerged(plan, j) <= count_new(plan, j),
    decreases plan.len(),
{
    if plan.len() > 0 {
        lemma_unmerged_bound(plan.drop_last(), j);
    }
}

proof fn lemma_mark_all(used: Seq<bool>, indices: Seq<usize>, k: nat)
    requires
        k <= indices.len(),
        used.len() <= usize::MAX,
    ensures
        mark_all(used, indices, k).len() == used.len(),
        forall|j: int|
            0 <= j < used.len() ==> #[trigger] mark_all(used, indices, k)[j] == (used[j]
                || indices.take(k as int).contains(j as usize)),
    decreases k,
{
    if k > 0 {
        lemma_mark_all(used, indices, (k - 1) as nat);
        let head = mark_all(used, indices, (k - 1) as nat);
        let x = indices[k - 1];
        let prev = indices.take(k - 1);
        let cur = indices.take(k as int);
        assert(cur =~= prev.push(x));
        assert forall|j: int| 0 <= j < used.len() implies #[trigger] mark_all(used, indices, k)[j]
            == (used[j] || cur.contains(j as usize)) by {
            if prev.contains(j as usize) {
                let w = choose|w: int| 0 <= w < prev.len() && prev[w] == j as usize;
                assert(cur[w] == j as usize);
            }
            if j as usize == x {
                assert(cur[k - 1] == j as usize);
            }
            if cur.contains(j as usize) {
                let w = choose|w: int| 0 <= w < cur.len() && cur[w] == j as usize;
                if w < k - 1 {
                    assert(prev[w] == j as usize);
                }
            }
        }
    } else {
        assert(indices.take(0).len() == 0);
    }
}

/// Binding a change that is no merge and whose articles are all free keeps
/// the state consistent.
proof fn lemma_bind(t: Table, st: State, a: AlignmentView)
    requires
        consistent(t, st),
        a.change_type != ArticleChangeType::Merged,
        a.old_index is Some ==> a.old_index->0 < t.old.len() && !st.used_old[a.old_index->0 as int],
        forall|k: int|
            0 <= k < a.new_indices.len() ==> (#[trigger] a.new_indices[k]) < t.new.len()
                && !st.used_new[a.new_indices[k] as int],
    ensures
        consistent(t, bind(st, a)),
        forall|i: int|
            0 <= i < t.old.len() ==> #[trigger] bind(st, a).used_old[i] == (st.used_old[i]
                || holds_old(a, i)),
        forall|j: int|
            0 <= j < t.new.len() ==> #[trigger] bind(st, a).used_new[j] == (st.used_new[j]
                || holds_new(a, j)),
{
    lemma_push_counts(st.plan, a);
    lemma_mark_all(st.used_new, a.new_indices, a.new_indices.len());
    assert(a.new_indices.take(a.new_indices.len() as int) =~= a.new_indices);
    let s2 = bind(st, a);
    assert forall|j: int| 0 <= j < t.new.len() && s2.used_new[j] implies #[trigger] new_covered(
        s2.plan,
        j,
    ) by {
        lemma_unmerged_bound(st.plan, j);
        if holds_new(a, j) {
            let w = choose|w: int| 0 <= w < a.new_indices.len() && a.new_indices[w] == j as usize;
            assert(!st.used_new[a.new_indices[w] as int]);
            assert(count_new(st.plan, j) == 0);
        } else {
            assert(st.used_new[j]);
            assert(new_covered(st.plan, j));
        }
    }
    assert forall|i: int| 0 <= i < t.old.len() implies #[trigger] count_old(s2.plan, i) == if s2.used_old[i] {
        1nat
    } else {
        0nat
    } by {
        assert(count_old(st.plan, i) == if st.used_old[i] {
            1nat
        } else {
            0nat
        });
    }
    assert forall|j: int| 0 <= j < t.new.len() && !s2.used_new[j] implies #[trigger] count_new(
        s2.plan,
        j,
    ) == 0 by {
        assert(count_new(st.plan, j) == 0);
    }
}

/// Binding a merge of a free old article into a new article that only merges
/// hold keeps the state consistent.
proof fn lemma_bind_merged(t: Table, st: State, i: usize, j: int, mean: u32)
    requires
        consistent(t, st),
        i < t.old.len(),
        !st.used_old[i as int],
        0 <= j < t.new.len(),
        count_new_unmerged(st.plan, j) == 0,
    ensures
        consistent(t, bind(st, merged_into(i, j, mean))),
        count_new_unmerged(bind(st, merged_into(i, j, mean)).plan, j) == 0,
        bind(st, merged_into(i, j, mean)).used_new[j],
        forall|x: int|
            0 <= x < t.old.len() ==> #[trigger] bind(st, merged_into(i, j, mean)).used_old[x] == (
            st.used_old[x] || x == i),
        forall|y: int|
            0 <= y < t.new.len() ==> #[trigger] bind(st, merged_into(i, j, mean)).used_new[y] == (
            st.used_new[y] || y == j),
{
    let a = merged_into(i, j, mean);
    lemma_push_counts(st.plan, a);
    lemma_mark_all(st.used_new, a.new_indices, a.new_indices.len());
    assert(a.new_indices.take(a.new_indices.len() as int) =~= a.new_indices);
    assert(a.new_indices[0] == j as usize);
    let s2 = bind(st, a);
    assert forall|y: int| 0 <= y < t.new.len() implies #[trigger] s2.used_new[y] == (st.used_new[y]
        || y == j) by {
        if a.new_indices.contains(y as usize) {
            let w = choose|w: int| 0 <= w < a.new_indices.len() && a.new_indices[w] == y as usize;
            assert(w == 0);
        }
    }
    assert forall|y: int| 0 <= y < t.new.len() && s2.used_new[y] implies #[trigger] new_covered(
        s2.plan,
        y,
    ) by {
        lemma_unmerged_bound(st.plan, y);
        if holds_new(a, y) {
            let w = choose|w: int| 0 <= w < a.new_indices.len() && a.new_indices[w] == y as usize;
            assert(y == j);
        } else {
            assert(y != j);
            assert(st.used_new[y]);
            assert(new_covered(st.plan, y));
        }
    }
    assert forall|x: int| 0 <= x < t.old.len() implies #[trigger] count_old(s2.plan, x) == if s2.used_old[x] {
        1nat
    } else {
        0nat
    } by {
        assert(count_old(st.plan, x) == if st.used_old[x] {
            1nat
        } else {
            0nat
        });
    }
    assert forall|y: int| 0 <= y < t.new.len() && !s2.used_new[y] implies #[trigger] count_new(
        s2.plan,
        y,
    ) == 0 by {
        assert(count_new(st.plan, y) == 0);
        assert(!holds_new(a, y)) by {
            if holds_new(a, y) {
                let w = choose|w: int|
                    0 <= w < a.new_indices.len() && a.new_indices[w] == y as usize;
                assert(y == j);
            }
        }
    }
}

proof fn lemma_single(j: int)
    requires
        0 <= j <= usize::MAX,
    ensures
        forall|k: int| 0 <= k < seq![j as usize].len() ==> (#[trigger] seq![j as usize][k]) == j,
{
}

proof fn lemma_same_number_from(t: Table, st: State, i: int, j: int)
    requires
        0 <= j,
    ensures
        same_number_from(t, st, i, j) is Some ==> j <= same_number_from(t, st, i, j)->0 < t.new.len()
            && same_number_from(t, st, i, j)->0 < st.used_new.len() && !st.used_new[same_number_from(
            t,
            st,
            i,
            j,
        )->0],
    decreases t.new.len() - j,
{
    if !(j >= t.new.len() || j >= st.used_new.len()) {
        if !(!st.used_new[j] && t.new[j].number == t.old[i].number) {
            lemma_same_number_from(t, st, i, j + 1);
        }
    }
}

proof fn lemma_number_matches(t: Table, st: State, k: nat)
    requires
        consistent(t, st),
        k <= t.old.len(),
    ensures
        consistent(t, number_matches(t, st, k)),
    decreases k,
{
    if k > 0 {
        lemma_number_matches(t, st, (k - 1) as nat);
        let s = number_matches(t, st, (k - 1) as nat);
        let i = k - 1;
        lemma_same_number_from(t, s, i, 0);
        if !s.used_old[i] && same_number_from(t, s, i, 0) is Some {
            let j = same_number_from(t, s, i, 0)->0;
            lemma_single(j);
            lemma_bind(t, s, number_match(t, i, j));
        }
    }
}

proof fn lemma_bind_pairs(t: Table, st: State, pairs: Seq<(usize, usize)>, k: nat)
    requires
        consistent(t, st),
        k <= pairs.len(),
    ensures
        consistent(t, bind_pairs(t, st, pairs, k)),
    decreases k,
{
    if k > 0 {
        lemma_bind_pairs(t, st, pairs, (k - 1) as nat);
        let s = bind_pairs(t, st, pairs, (k - 1) as nat);
        let (i, j) = pairs[k - 1];
        if i < s.used_old.len() && j < s.used_new.len() && !s.used_old[i as int] && !s.used_new[j as int] {
            lemma_single(j as int);
            lemma_bind(t, s, sequence_match(t, i as int, j as int));
        }
    }
}

proof fn lemma_best_from(t: Table, st: State, i: int, k: nat)
    requires
        k <= t.new.len(),
    ensures
        best_from(t, st, i, k) is Some ==> 0 <= best_from(t, st, i, k)->0 < k && !st.used_new[best_from(
            t,
            st,
            i,
            k,
        )->0],
    decreases k,
{
    if k > 0 {
        lemma_best_from(t, st, i, (k - 1) as nat);
    }
}

proof fn lemma_greedy_matches(t: Table, st: State, k: nat)
    requires
        consistent(t, st),
        k <= t.old.len(),
    ensures
        consistent(t, greedy_matches(t, st, k)),
    decreases k,
{
    if k > 0 {
        lemma_greedy_matches(t, st, (k - 1) as nat);
        let s = greedy_matches(t, st, (k - 1) as nat);
        let i = k - 1;
        lemma_best_from(t, s, i, t.new.len());
        if !s.used_old[i] && best_from(t, s, i, t.new.len()) is Some {
            let j = best_from(t, s, i, t.new.len())->0;
            lemma_single(j);
            lemma_bind(t, s, greedy_match(t, i, j));
        }
    }
}

proof fn lemma_pick(t: Table, used: Seq<bool>, fixed: int, by_old: bool, taken: Seq<usize>, k: nat)
    requires
        k <= used.len(),
    ensures
        pick(t, used, fixed, by_old, taken, k) is Some ==> 0 <= pick(t, used, fixed, by_old, taken, k)->0
            < k && !used[pick(t, used, fixed, by_old, taken, k)->0] && !taken.contains(
            pick(t, used, fixed, by_old, taken, k)->0 as usize,
        ),
    decreases k,
{
    if k > 0 {
        lemma_pick(t, used, fixed, by_old, taken, (k - 1) as nat);
    }
}

/// The candidates of a split or a merge are free and differ from each other.
proof fn lemma_top_three(t: Table, used: Seq<bool>, fixed: int, by_old: bool)
    requires
        used.len() <= usize::MAX,
    ensures
        top_three(t, used, fixed, by_old).len() <= 3,
        forall|k: int|
            0 <= k < top_three(t, used, fixed, by_old).len() ==> (#[trigger] top_three(
                t,
                used,
                fixed,
                by_old,
            )[k]) < used.len() && !used[top_three(t, used, fixed, by_old)[k] as int],
        forall|k: int, l: int|
            0 <= k < l < top_three(t, used, fixed, by_old).len() ==> top_three(
                t,
                used,
                fixed,
                by_old,
            )[k] != top_three(t, used, fixed, by_old)[l],
{
    let n = used.len();
    let e = Seq::<usize>::empty();
    lemma_pick(t, used, fixed, by_old, e, n);
    if let Some(a) = pick(t, used, fixed, by_old, e, n) {
        let ta = seq![a as usize];
        lemma_pick(t, used, fixed, by_old, ta, n);
        if let Some(b) = pick(t, used, fixed, by_old, ta, n) {
            assert(ta[0] == a as usize);
            assert(a != b);
            let tb = seq![a as usize, b as usize];
            lemma_pick(t, used, fixed, by_old, tb, n);
            if let Some(c) = pick(t, used, fixed, by_old, tb, n) {
                assert(tb[0] == a as usize);
                assert(tb[1] == b as usize);
                assert(c != a && c != b);
            }
        }
    }
}

proof fn lemma_splits(t: Table, st: State, k: nat)
    requires
        consistent(t, st),
        k <= t.old.len(),
    ensures
        consistent(t, splits(t, st, k)),
    decreases k,
{
    if k > 0 {
        lemma_splits(t, st, (k - 1) as nat);
        let s = splits(t, st, (k - 1) as nat);
        let i = k - 1;
        let picks = top_three(t, s.used_new, i, true);
        lemma_top_three(t, s.used_new, i, true);
        if !s.used_old[i] && is_group(t, i, true, picks) {
            lemma_bind(
                t,
                s,
                AlignmentView {
                    change_type: ArticleChangeType::Split,
                    old_index: Some(i as usize),
                    new_indices: picks,
                    similarity: Some(group_mean(t, i, true, picks)),
                    tags: seq![crate::diff::plan::Tag::Split],
                },
            );
        }
    }
}

proof fn lemma_merge_all(t: Table, st: State, picks: Seq<usize>, j: int, mean: u32, k: nat)
    requires
        consistent(t, st),
        0 <= j < t.new.len(),
        count_new_unmerged(st.plan, j) == 0,
        k <= picks.len(),
        forall|x: int|
            0 <= x < picks.len() ==> (#[trigger] picks[x]) < t.old.len()
                && !st.used_old[picks[x] as int],
        forall|x: int, y: int| 0 <= x < y < picks.len() ==> picks[x] != picks[y],
    ensures
        consistent(t, merge_all(st, picks, j, mean, k)),
        count_new_unmerged(merge_all(st, picks, j, mean, k).plan, j) == 0,
        forall|x: int|
            0 <= x < t.old.len() ==> #[trigger] merge_all(st, picks, j, mean, k).used_old[x] == (
            st.used_old[x] || picks.take(k as int).contains(x as usize)),
    decreases k,
{
    if k > 0 {
        lemma_merge_all(t, st, picks, j, mean, (k - 1) as nat);
        let s = merge_all(st, picks, j, mean, (k - 1) as nat);
        let i = picks[k - 1];
        let prev = picks.take(k - 1);
        let cur = picks.take(k as int);
        assert(!s.used_old[i as int]) by {
            if prev.contains(i) {
                let w = choose|w: int| 0 <= w < prev.len() && prev[w] == i;
                assert(picks[w] == picks[k - 1]);
            }
        }
        lemma_bind_merged(t, s, i, j, mean);
        assert(cur =~= prev.push(i));
        assert forall|x: int| 0 <= x < t.old.len() implies #[trigger] merge_all(
            st,
            picks,
            j,
            mean,
            k,
        ).used_old[x] == (st.used_old[x] || cur.contains(x as usize)) by {
            if prev.contains(x as usize) {
                let w = choose|w: int| 0 <= w < prev.len() && prev[w] == x as usize;
                assert(cur[w] == x as usize);
            }
            if x == i {
                assert(cur[k - 1] == x as usize);
            }
            if cur.contains(x as usize) {
                let w = choose|w: int| 0 <= w < cur.len() && cur[w] == x as usize;
                if w < k - 1 {
                    assert(prev[w] == x as usize);
                }
            }
        }
    } else {
        assert(picks.take(0).len() == 0);
    }
}

proof fn lemma_merges(t: Table, st: State, k: nat)
    requires
        consistent(t, st),
        k <= t.new.len(),
    ensures
        consistent(t, merges(t, st, k)),
    decreases k,
{
    if k > 0 {
        lemma_merges(t, st, (k - 1) as nat);
        let s = merges(t, st, (k - 1) as nat);
        let j = k - 1;
        let picks = top_three(t, s.used_old, j, false);
        lemma_top_three(t, s.used_old, j, false);
        if !s.used_new[j] && is_group(t, j, false, picks) {
            assert(count_new(s.plan, j) == 0);
            lemma_unmerged_bound(s.plan, j);
            lemma_merge_all(t, s, picks, j, group_mean(t, j, false, picks), picks.len());
        }
    }
}

/// The state of the last stage, in which the free ones among the first
/// `done_old` old and the first `done_new` new articles are reported: an
/// article is held by a change where it is marked or reported, an old article
/// once, a new article more than once only by merges.
pub open spec fn settled(t: Table, st: State, done_old: nat, done_new: nat) -> bool {
    &&& st.used_old.len() == t.old.len()
    &&& st.used_new.len() == t.new.len()
    &&& t.old.len() <= usize::MAX
    &&& t.new.len() <= usize::MAX
    &&& forall|i: int|
        0 <= i < t.old.len() ==> #[trigger] count_old(st.plan, i) == if st.used_old[i] || i
            < done_old {
            1nat
        } else {
            0nat
        }
    &&& forall|j: int|
        0 <= j < t.new.len() && !st.used_new[j] && j >= done_new ==> #[trigger] count_new(
            st.plan,
            j,
        ) == 0
    &&& forall|j: int|
        0 <= j < t.new.len() && (st.used_new[j] || j < done_new) ==> #[trigger] new_covered(
            st.plan,
            j,
        )
}

proof fn lemma_deletions(t: Table, st: State, k: nat)
    requires
        consistent(t, st),
        k <= t.old.len(),
    ensures
        settled(t, deletions(t, st, k), k, 0),
        deletions(t, st, k).used_old == st.used_old,
        deletions(t, st, k).used_new == st.used_new,
    decreases k,
{
    if k > 0 {
        lemma_deletions(t, st, (k - 1) as nat);
        let s = deletions(t, st, (k - 1) as nat);
        let s2 = deletions(t, st, k);
        if !st.used_old[k - 1] {
            let a = deleted(t, k - 1);
            lemma_push_counts(s.plan, a);
            assert forall|j: int| !holds_new(a, j) by {
                assert(a.new_indices.len() == 0);
            }
            assert forall|i: int| 0 <= i < t.old.len() implies #[trigger] count_old(s2.plan, i)
                == if s2.used_old[i] || i < k {
                1nat
            } else {
                0nat
            } by {
                assert(count_old(s.plan, i) == if s.used_old[i] || i < k - 1 {
                    1nat
                } else {
                    0nat
                });
            }
            assert forall|j: int|
                0 <= j < t.new.len() && !s2.used_new[j] implies #[trigger] count_new(s2.plan, j)
                == 0 by {
                assert(count_new(s.plan, j) == 0);
            }
            assert forall|j: int| 0 <= j < t.new.len() && s2.used_new[j] implies #[trigger] new_covered(
                s2.plan,
                j,
            ) by {
                assert(new_covered(s.plan, j));
            }
        } else {
            assert forall|i: int| 0 <= i < t.old.len() implies #[trigger] count_old(s2.plan, i)
                == if s2.used_old[i] || i < k {
                1nat
            } else {
                0nat
            } by {
                assert(count_old(s.plan, i) == if s.used_old[i] || i < k - 1 {
                    1nat
                } else {
                    0nat
                });
            }
        }
    } else {
        assert forall|i: int| 0 <= i < t.old.len() implies #[trigger] count_old(st.plan, i) == if st.used_old[i]
            || i < 0 {
            1nat
        } else {
            0nat
        } by {
            assert(count_old(st.plan, i) == if st.used_old[i] {
                1nat
            } else {
                0nat
            });
        }
    }
}

proof fn lemma_additions(t: Table, st: State, k: nat)
    requires
        settled(t, st, t.old.len(), 0),
        k <= t.new.len(),
    ensures
        settled(t, additions(t, st, k), t.old.len(), k),
        additions(t, st, k).used_old == st.used_old,
        additions(t, st, k).used_new == st.used_new,
    decreases k,
{
    if k > 0 {
        lemma_additions(t, st, (k - 1) as nat);
        let s = additions(t, st, (k - 1) as nat);
        let s2 = additions(t, st, k);
        if !st.used_new[k - 1] {
            let a = added(t, k - 1);
            lemma_push_counts(s.plan, a);
            assert(a.new_indices[0] == (k - 1) as usize);
            assert forall|j: int| 0 <= j < t.new.len() implies (holds_new(a, j) <==> j == k - 1) by {
                if holds_new(a, j) {
                    let w = choose|w: int|
                        0 <= w < a.new_indices.len() && a.new_indices[w] == j as usize;
                    assert(w == 0);
                }
            }
            assert forall|i: int| 0 <= i < t.old.len() implies #[trigger] count_old(s2.plan, i)
                == 1nat by {
                assert(count_old(s.plan, i) == 1nat);
            }
            assert forall|j: int|
                0 <= j < t.new.len() && !s2.used_new[j] && j >= k implies #[trigger] count_new(
                s2.plan,
                j,
            ) == 0 by {
                assert(count_new(s.plan, j) == 0);
            }
            assert forall|j: int|
                0 <= j < t.new.len() && (s2.used_new[j] || j < k) implies #[trigger] new_covered(
                s2.plan,
                j,
            ) by {
                lemma_unmerged_bound(s.plan, j);
                if j == k - 1 {
                    assert(count_new(s.plan, j) == 0);
                } else {
                    assert(new_covered(s.plan, j));
                }
            }
        } else {
            assert forall|j: int|
                0 <= j < t.new.len() && (s2.used_new[j] || j < k) implies #[trigger] new_covered(
                s2.plan,
                j,
            ) by {
                assert(new_covered(s.plan, j));
            }
        }
    }
}

/// After the last stage every old article is held by exactly one change, and
/// every new article by one change, or by several that are all merges.
pub proof fn lemma_all_stages_cover(t: Table)
    requires
        t.old.len() <= usize::MAX,
        t.new.len() <= usize::MAX,
    ensures
        forall|i: int| 0 <= i < t.old.len() ==> #[trigger] old_covered(all_stages(t).plan, i),
        forall|j: int| 0 <= j < t.new.len() ==> #[trigger] new_covered(all_stages(t).plan, j),
{
    let s0 = initial(t);
    assert(consistent(t, s0));
    lemma_number_matches(t, s0, t.old.len());
    let s1 = number_matches(t, s0, t.old.len());
    let ro = unused(s1.used_old, s1.used_old.len());
    let rn = unused(s1.used_new, s1.used_new.len());
    let pairs = trace(t, ro, rn, ro.len(), rn.len());
    lemma_bind_pairs(t, s1, pairs, pairs.len());
    let s2 = sequence_matches(t, s1);
    lemma_greedy_matches(t, s2, t.old.len());
    let s3 = greedy_matches(t, s2, t.old.len());
    lemma_splits(t, s3, t.old.len());
    let s4 = splits(t, s3, t.old.len());
    lemma_merges(t, s4, t.new.len());
    let s5 = merges(t, s4, t.new.len());
    lemma_deletions(t, s5, t.old.len());
    let s6 = deletions(t, s5, t.old.len());
    lemma_additions(t, s6, t.new.len());
    let s7 = additions(t, s6, t.new.len());
    assert forall|i: int| 0 <= i < t.old.len() implies #[trigger] old_covered(s7.plan, i) by {
        assert(count_old(s7.plan, i) == 1);
    }
    assert forall|j: int| 0 <= j < t.new.len() implies #[trigger] new_covered(s7.plan, j) by {
    }
}

proof fn lemma_insert_counts(s: Seq<AlignmentView>, p: int, x: AlignmentView)
    requires
        0 <= p <= s.len(),
    ensures
        forall|i: int| #[trigger]
            count_old(s.insert(p, x), i) == count_old(s, i) + if holds_old(x, i) {
                1nat
            } else {
                0nat
            },
        forall|j: int| #[trigger]
            count_new(s.insert(p, x), j) == count_new(s, j) + if holds_new(x, j) {
                1nat
            } else {
                0nat
            },
        forall|j: int| #[trigger]
            count_new_unmerged(s.insert(p, x), j) == count_new_unmerged(s, j) + if holds_new(x, j)
                && x.change_type != ArticleChangeType::Merged {
                1nat
            } else {
                0nat
            },
    decreases s.len() - p,
{
    if p == s.len() {
        assert(s.insert(p, x) =~= s.push(x));
        lemma_push_counts(s, x);
    } else {
        let out = s.insert(p, x);
        let shorter = s.drop_last();
        assert(out.drop_last() =~= shorter.insert(p, x));
        assert(out.last() == s.last());
        lemma_insert_counts(shorter, p, x);
        assert forall|i: int| #[trigger]
            count_old(out, i) == count_old(s, i) + if holds_old(x, i) {
                1nat
            } else {
                0nat
            } by {
            assert(count_old(out.drop_last(), i) == count_old(shorter.insert(p, x), i));
        }
        assert forall|j: int| #[trigger]
            count_new(out, j) == count_new(s, j) + if holds_new(x, j) {
                1nat
            } else {
                0nat
            } by {
            assert(count_new(out.drop_last(), j) == count_new(shorter.insert(p, x), j));
        }
        assert forall|j: int| #[trigger]
            count_new_unmerged(out, j) == count_new_unmerged(s, j) + if holds_new(x, j)
                && x.change_type != ArticleChangeType::Merged {
                1nat
            } else {
                0nat
            } by {
            assert(count_new_unmerged(out.drop_last(), j) == count_new_unmerged(
                shorter.insert(p, x),
                j,
            ));
        }
    }
}

proof fn lemma_insertion_point(t: Table, s: Seq<AlignmentView>, x: AlignmentView, k: nat)
    requires
        k <= s.len(),
    ensures
        insertion_point(t, s, x, k) <= k,
        forall|q: int|
            insertion_point(t, s, x, k) <= q < k ==> !key_le(
                sort_key(t, #[trigger] s[q]),
                sort_key(t, x),
            ),
        insertion_point(t, s, x, k) > 0 ==> key_le(
            sort_key(t, s[insertion_point(t, s, x, k) - 1]),
            sort_key(t, x),
        ),
    decreases k,
{
    if k > 0 && !key_le(sort_key(t, s[k - 1]), sort_key(t, x)) {
        lemma_insertion_point(t, s, x, (k - 1) as nat);
    }
}

/// Whether the keys stand in order: none comes after a later one.
pub open spec fn keys_in_order(keys: Seq<SortKey>) -> bool {
    forall|a: int, b: int| 0 <= a < b < keys.len() ==> key_le(#[trigger] keys[a], #[trigger] keys[b])
}

/// A key put behind the last key that does not come after it keeps the keys
/// in order.
proof fn lemma_insert_in_order(keys: Seq<SortKey>, x: SortKey, p: int)
    requires
        keys_in_order(keys),
        0 <= p <= keys.len(),
        forall|q: int| p <= q < keys.len() ==> !key_le(#[trigger] keys[q], x),
        p > 0 ==> key_le(keys[p - 1], x),
    ensures
        keys_in_order(keys.insert(p, x)),
{
    let out = keys.insert(p, x);
    assert forall|a: int, b: int| 0 <= a < b < out.len() implies key_le(
        #[trigger] out[a],
        #[trigger] out[b],
    ) by {
        if b < p {
            assert(out[a] == keys[a] && out[b] == keys[b]);
        } else if b == p {
            assert(out[a] == keys[a]);
            if a < p - 1 {
                assert(key_le(keys[a], keys[p - 1]));
            }
        } else if a < p {
            assert(out[a] == keys[a] && out[b] == keys[b - 1]);
        } else if a == p {
            assert(out[b] == keys[b - 1]);
            assert(!key_le(keys[b - 1], x));
        } else {
            assert(out[a] == keys[a - 1] && out[b] == keys[b - 1]);
        }
    }
}

/// The keys of a sequence of changes.
pub open spec fn keys_of(t: Table, s: Seq<AlignmentView>) -> Seq<SortKey> {
    s.map_values(|a: AlignmentView| sort_key(t, a))
}

/// Whether the changes stand in order: none comes after a later one.
pub open spec fn in_order(t: Table, s: Seq<AlignmentView>) -> bool {
    keys_in_order(keys_of(t, s))
}

/// Ordering puts the changes in order.
pub proof fn lemma_ordered_in_order(t: Table, plan: Seq<AlignmentView>, k: nat)
    requires
        k <= plan.len(),
    ensures
        ordered(t, plan, k).len() == k,
        in_order(t, ordered(t, plan, k)),
    decreases k,
{
    if k > 0 {
        lemma_ordered_in_order(t, plan, (k - 1) as nat);
        let head = ordered(t, plan, (k - 1) as nat);
        let x = plan[k - 1];
        let p = insertion_point(t, head, x, head.len()) as int;
        lemma_insertion_point(t, head, x, head.len());
        let keys = keys_of(t, head);
        assert forall|q: int| p <= q < keys.len() implies !key_le(
            #[trigger] keys[q],
            sort_key(t, x),
        ) by {
            assert(keys[q] == sort_key(t, head[q]));
        }
        if p > 0 {
            assert(keys[p - 1] == sort_key(t, head[p - 1]));
        }
        lemma_insert_in_order(keys, sort_key(t, x), p);
        assert(keys_of(t, head.insert(p, x)) =~= keys.insert(p, sort_key(t, x)));
    }
}

/// Ordering keeps every change.
pub proof fn lemma_ordered_counts(t: Table, plan: Seq<AlignmentView>, k: nat)
    requires
        k <= plan.len(),
    ensures
        ordered(t, plan, k).len() == k,
        forall|i: int| #[trigger] count_old(ordered(t, plan, k), i) == count_old(plan.take(k as int), i),
        forall|j: int| #[trigger] count_new(ordered(t, plan, k), j) == count_new(plan.take(k as int), j),
        forall|j: int| #[trigger]
            count_new_unmerged(ordered(t, plan, k), j) == count_new_unmerged(plan.take(k as int), j),
    decreases k,
{
    if k > 0 {
        lemma_ordered_counts(t, plan, (k - 1) as nat);
        let head = ordered(t, plan, (k - 1) as nat);
        let x = plan[k - 1];
        let p = insertion_point(t, head, x, head.len()) as int;
        lemma_insertion_point(t, head, x, head.len());
        lemma_insert_counts(head, p, x);
        assert(plan.take(k as int) =~= plan.take(k - 1).push(x));
        lemma_push_counts(plan.take(k - 1), x);
    } else {
        assert(plan.take(0) =~= Seq::<AlignmentView>::empty());
    }
}

/// In the result of an alignment every old article is the old article of
/// exactly one change, every new article is among the new articles of one
/// change, or of several that are all merges, and the changes stand in
/// order.
pub proof fn lemma_plan_covers(t: Table)
    requires
        t.old.len() <= usize::MAX,
        t.new.len() <= usize::MAX,
    ensures
        plan_spec(t).len() == all_stages(t).plan.len(),
        in_order(t, plan_spec(t)),
        forall|i: int| 0 <= i < t.old.len() ==> #[trigger] old_covered(plan_spec(t), i),
        forall|j: int| 0 <= j < t.new.len() ==> #[trigger] new_covered(plan_spec(t), j),
{
    let plan = all_stages(t).plan;
    lemma_all_stages_cover(t);
    lemma_ordered_in_order(t, plan, plan.len());
    lemma_ordered_counts(t, plan, plan.len());
    assert(plan.take(plan.len() as int) =~= plan);
    assert forall|i: int| 0 <= i < t.old.len() implies #[trigger] old_covered(plan_spec(t), i) by {
        assert(old_covered(plan, i));
    }
    assert forall|j: int| 0 <= j < t.new.len() implies #[trigger] new_covered(plan_spec(t), j) by {
        assert(new_covered(plan, j));
    }
}

} // verus!
