//! The article aligner: from two texts to the ordered list of changes that
//! leads from the articles of the old one to those of the new one.

use vstd::prelude::*;
use crate::ast::{parse_article, parse_spec};
use crate::diff::coverage::{in_order, lemma_plan_covers, new_covered, old_covered};
use crate::diff::flatten::{flat_articles, flatten_articles};
use crate::diff::matrix::{build_similarity_matrix, composites, score_matrix};
use crate::diff::numerals::chinese_to_int;
use crate::diff::plan::{
    added, additions, best_from, best_sum, bind, bind_pairs, change_of, concerns_preamble,
    deleted, deletions, greedy_match, greedy_matches, initial, insertion_point,
    is_sentinel_number, key_le, lone_tags, mark_all, match_bar, merge_all, merges,
    number_match, number_matches, ordered, pair_score, pick, picked_infos, picks_total,
    plan_spec, plan_view, report, same_number_from, score_at, sequence_match, sequence_matches,
    similarity_tags, skips_old, sort_key, splits, tag_text, takes_pair, top_three, trace,
    unused, Alignment, AlignmentView, SortKey, State, Table, Tag,
};
use crate::nlp::formatter::{normalize_legal_text, normalize_spec};
use crate::text::strings_view;
use crate::models::{
    changes_view, infos_view, ArticleChange, ArticleChangeType, ArticleInfo, ChangeView, NodeType,
    SimilarityScore, SCALE,
};

verus! {

/// The two lists of articles with the scores of all their pairs and the
/// threshold of the alignment.
pub struct Comparison {
    pub old: Vec<ArticleInfo>,
    pub new: Vec<ArticleInfo>,
    pub matrix: Vec<Vec<SimilarityScore>>,
    pub threshold: u32,
}

impl View for Comparison {
    type V = Table;

    open spec fn view(&self) -> Table {
        Table {
            old: infos_view(self.old@),
            new: infos_view(self.new@),
            scores: composites(self.matrix@),
            threshold: self.threshold,
        }
    }
}

impl Comparison {
    /// The matrix has a row for every old article and in it a cell for every
    /// new article.
    pub open spec fn wf(&self) -> bool {
        &&& self.matrix@.len() == self.old@.len()
        &&& forall|i: int|
            0 <= i < self.matrix@.len() ==> (#[trigger] self.matrix@[i])@.len() == self.new@.len()
    }

    /// The composite similarity of old article `i` and new article `j`.
    pub fn score(&self, i: usize, j: usize) -> (s: u32)
        requires
            self.wf(),
            i < self.old@.len(),
            j < self.new@.len(),
        ensures
            s == self@.scores[i as int][j as int],
    {
        self.matrix[i][j].composite
    }

    /// Whether old article `i` and new article `j` bear the same number.
    pub fn same_number(&self, i: usize, j: usize) -> (r: bool)
        requires
            i < self.old@.len(),
            j < self.new@.len(),
        ensures
            r == (self@.old[i as int].number == self@.new[j as int].number),
    {
        same_string(&self.old[i].number, &self.new[j].number)
    }

    fn score_for(&self, fixed: usize, other: usize, by_old: bool) -> (s: u32)
        requires
            self.wf(),
            by_old ==> fixed < self.old@.len() && other < self.new@.len(),
            !by_old ==> fixed < self.new@.len() && other < self.old@.len(),
        ensures
            s == score_at(self@, fixed as int, other as int, by_old),
    {
        if by_old {
            self.score(fixed, other)
        } else {
            self.score(other, fixed)
        }
    }
}

fn same_string(a: &String, b: &String) -> (r: bool)
    ensures
        r == (a@ == b@),
{
    *a == *b
}

/// The decisions taken so far and the articles that they hold.
pub struct Workspace {
    pub used_old: Vec<bool>,
    pub used_new: Vec<bool>,
    pub plan: Vec<Alignment>,
}

impl View for Workspace {
    type V = State;

    open spec fn view(&self) -> State {
        State { used_old: self.used_old@, used_new: self.used_new@, plan: plan_view(self.plan@) }
    }
}

fn all_false(n: usize) -> (v: Vec<bool>)
    ensures
        v@ == Seq::new(n as nat, |i: int| false),
{
    let mut v: Vec<bool> = Vec::new();
    let mut i: usize = 0;
    while i < n
        invariant
            i <= n,
            v@.len() == i,
            forall|k: int| 0 <= k < i ==> !v@[k],
        decreases n - i,
    {
        v.push(false);
        i += 1;
    }
    assert(v@ =~= Seq::new(n as nat, |i: int| false));
    v
}

impl Workspace {
    /// Whether every article of the comparison has its mark.
    pub open spec fn fits(&self, c: &Comparison) -> bool {
        self.used_old@.len() == c.old@.len() && self.used_new@.len() == c.new@.len()
    }

    /// The workspace in which nothing is decided.
    pub fn new(c: &Comparison) -> (ws: Workspace)
        ensures
            ws@ == initial(c@),
            ws.fits(c),
    {
        let ws = Workspace {
            used_old: all_false(c.old.len()),
            used_new: all_false(c.new.len()),
            plan: Vec::new(),
        };
        assert(ws@.plan =~= Seq::<AlignmentView>::empty());
        ws
    }

    /// Adds a change and marks its articles.
    pub fn bind(&mut self, a: Alignment)
        ensures
            final(self)@ == bind(old(self)@, a@),
            final(self).used_old@.len() == old(self).used_old@.len(),
            final(self).used_new@.len() == old(self).used_new@.len(),
    {
        match a.old_index {
            Some(i) => {
                if i < self.used_old.len() {
                    self.used_old.set(i, true);
                }
            },
            None => {},
        }
        let mut k: usize = 0;
        while k < a.new_indices.len()
            invariant
                k <= a.new_indices@.len(),
                self.used_new@.len() == old(self).used_new@.len(),
                self.used_new@ == mark_all(old(self).used_new@, a.new_indices@, k as nat),
                self.used_old@ == bind(old(self)@, a@).used_old,
                self.plan == old(self).plan,
            decreases a.new_indices.len() - k,
        {
            let j = a.new_indices[k];
            if j < self.used_new.len() {
                self.used_new.set(j, true);
            }
            k += 1;
        }
        let ghost before = plan_view(self.plan@);
        let ghost av = a@;
        self.plan.push(a);
        assert(plan_view(self.plan@) =~= before.push(av));
    }

    /// Adds a change and leaves the marks as they are.
    pub fn report(&mut self, a: Alignment)
        ensures
            final(self)@ == report(old(self)@, a@),
            final(self).used_old@ == old(self).used_old@,
            final(self).used_new@ == old(self).used_new@,
    {
        let ghost before = plan_view(self.plan@);
        let ghost av = a@;
        self.plan.push(a);
        assert(plan_view(self.plan@) =~= before.push(av));
    }
}

fn one(j: usize) -> (v: Vec<usize>)
    ensures
        v@ == seq![j],
{
    let mut v: Vec<usize> = Vec::new();
    v.push(j);
    assert(v@ =~= seq![j]);
    v
}

fn number_alignment(c: &Comparison, i: usize, j: usize) -> (a: Alignment)
    requires
        c.wf(),
        i < c.old@.len(),
        j < c.new@.len(),
    ensures
        a@ == number_match(c@, i as int, j as int),
{
    let s = c.score(i, j);
    let mut tags: Vec<Tag> = Vec::new();
    let change_type = if s >= SCALE {
        ArticleChangeType::Unchanged
    } else if s >= 150_000 {
        tags.push(Tag::Modified);
        ArticleChangeType::Modified
    } else {
        tags.push(Tag::Replaced);
        ArticleChangeType::Replaced
    };
    let a = Alignment {
        change_type,
        old_index: Some(i),
        new_indices: one(j),
        similarity: Some(s),
        tags,
    };
    assert(a@.tags =~= number_match(c@, i as int, j as int).tags);
    a
}

fn tags_by_similarity(c: &Comparison, i: usize, j: usize) -> (tags: Vec<Tag>)
    requires
        c.wf(),
        i < c.old@.len(),
        j < c.new@.len(),
    ensures
        tags@ == similarity_tags(c@, i as int, j as int),
{
    let mut tags: Vec<Tag> = Vec::new();
    if !c.same_number(i, j) {
        tags.push(Tag::Renumbered);
    }
    if c.score(i, j) < 999_000 {
        tags.push(Tag::Modified);
    }
    assert(tags@ =~= similarity_tags(c@, i as int, j as int));
    tags
}

fn sequence_alignment(c: &Comparison, i: usize, j: usize) -> (a: Alignment)
    requires
        c.wf(),
        i < c.old@.len(),
        j < c.new@.len(),
    ensures
        a@ == sequence_match(c@, i as int, j as int),
{
    let s = c.score(i, j);
    let same = c.same_number(i, j);
    if c.old[i].node_type == NodeType::Preamble || c.new[j].node_type == NodeType::Preamble {
        let mut tags: Vec<Tag> = Vec::new();
        tags.push(Tag::Preamble);
        assert(tags@ =~= seq![Tag::Preamble]);
        Alignment {
            change_type: ArticleChangeType::Preamble,
            old_index: Some(i),
            new_indices: one(j),
            similarity: Some(s),
            tags,
        }
    } else {
        Alignment {
            change_type: if s >= SCALE && same {
                ArticleChangeType::Unchanged
            } else if same {
                ArticleChangeType::Modified
            } else {
                ArticleChangeType::Renumbered
            },
            old_index: Some(i),
            new_indices: one(j),
            similarity: Some(s),
            tags: tags_by_similarity(c, i, j),
        }
    }
}

fn greedy_alignment(c: &Comparison, i: usize, j: usize) -> (a: Alignment)
    requires
        c.wf(),
        i < c.old@.len(),
        j < c.new@.len(),
    ensures
        a@ == greedy_match(c@, i as int, j as int),
{
    Alignment {
        change_type: if c.same_number(i, j) {
            ArticleChangeType::Modified
        } else {
            ArticleChangeType::Renumbered
        },
        old_index: Some(i),
        new_indices: one(j),
        similarity: Some(c.score(i, j)),
        tags: tags_by_similarity(c, i, j),
    }
}

fn is_sentinel(number: &String) -> (r: bool)
    ensures
        r == is_sentinel_number(number@),
{
    crate::text::same_str(number.as_str(), "root") || crate::text::same_str(number.as_str(), "0")
}

/// Binds every old article that is free and bears a number of its own to the
/// first free new article of the same number, whatever their similarity.
pub fn find_number_matches(c: &Comparison, ws: &mut Workspace)
    requires
        c.wf(),
        old(ws).fits(c),
    ensures
        final(ws).fits(c),
        final(ws)@ == number_matches(c@, old(ws)@, c.old@.len()),
{
    let mut i: usize = 0;
    while i < c.old.len()
        invariant
            i <= c.old@.len(),
            c.wf(),
            ws.fits(c),
            ws@ == number_matches(c@, old(ws)@, i as nat),
        decreases c.old.len() - i,
    {
        let ghost st = ws@;
        if !ws.used_old[i] && !is_sentinel(&c.old[i].number) {
            let mut j: usize = 0;
            let mut found: Option<usize> = None;
            while j < c.new.len() && found.is_none()
                invariant
                    j <= c.new@.len(),
                    i < c.old@.len(),
                    ws.fits(c),
                    ws@ == st,
                    found is None ==> same_number_from(c@, st, i as int, 0) == same_number_from(
                        c@,
                        st,
                        i as int,
                        j as int,
                    ),
                    found is Some ==> found->0 < c.new@.len() && same_number_from(c@, st, i as int, 0)
                        == Some(found->0 as int),
                decreases c.new.len() - j, if found is None { 1int } else { 0int },
            {
                if !ws.used_new[j] && c.same_number(i, j) {
                    found = Some(j);
                } else {
                    j += 1;
                }
            }
            match found {
                Some(j) => {
                    let a = number_alignment(c, i, j);
                    ws.bind(a);
                },
                None => {},
            }
        }
        i += 1;
    }
}

/// The indices that are not marked, in ascending order.
fn free_indices(used: &Vec<bool>) -> (r: Vec<usize>)
    ensures
        r@ == unused(used@, used@.len()),
        forall|k: int| 0 <= k < r@.len() ==> (#[trigger] r@[k]) < used@.len(),
{
    let mut r: Vec<usize> = Vec::new();
    let mut i: usize = 0;
    while i < used.len()
        invariant
            i <= used@.len(),
            r@ == unused(used@, i as nat),
            forall|k: int| 0 <= k < r@.len() ==> (#[trigger] r@[k]) < used@.len(),
        decreases used.len() - i,
    {
        if !used[i] {
            r.push(i);
        }
        i += 1;
    }
    r
}

/// A sum of similarities is bounded by the number of old articles that it
/// may hold.
proof fn lemma_best_sum_bound(t: Table, ro: Seq<usize>, rn: Seq<usize>, i: nat, j: nat)
    ensures
        0 <= best_sum(t, ro, rn, i, j) <= i * 0xffff_ffff,
    decreases i + j,
{
    if i > 0 && j > 0 {
        lemma_best_sum_bound(t, ro, rn, (i - 1) as nat, (j - 1) as nat);
        lemma_best_sum_bound(t, ro, rn, (i - 1) as nat, j);
        lemma_best_sum_bound(t, ro, rn, i, (j - 1) as nat);
    }
}

/// The table of best sums: `rows[i - 1][j - 1]` holds the best sum of the
/// first `i` free old and the first `j` free new articles.
spec fn sums_filled(t: Table, ro: Seq<usize>, rn: Seq<usize>, rows: Seq<Vec<u128>>, n: nat) -> bool {
    &&& rows.len() == n
    &&& forall|a: int| 0 <= a < n ==> (#[trigger] rows[a])@.len() == rn.len()
    &&& forall|a: int, b: int|
        0 <= a < n && 0 <= b < rn.len() ==> (#[trigger] rows[a]@[b]) as int == best_sum(
            t,
            ro,
            rn,
            (a + 1) as nat,
            (b + 1) as nat,
        )
}

fn sum_at(
    rows: &Vec<Vec<u128>>,
    i: usize,
    j: usize,
    Ghost(t): Ghost<Table>,
    Ghost(ro): Ghost<Seq<usize>>,
    Ghost(rn): Ghost<Seq<usize>>,
) -> (s: u128)
    requires
        i <= rows@.len(),
        j <= rn.len(),
        sums_filled(t, ro, rn, rows@, rows@.len() as nat),
    ensures
        s as int == best_sum(t, ro, rn, i as nat, j as nat),
{
    if i == 0 || j == 0 {
        0
    } else {
        rows[i - 1][j - 1]
    }
}

/// The least similarity of a match in sequence.
fn bar_of(threshold: u32) -> (g: u64)
    ensures
        g == match_bar(threshold),
{
    let g: u64 = (7 * (threshold as u64)) / 10;
    if g >= 300_000 {
        g
    } else {
        300_000
    }
}

/// The pairs of the best order-preserving matching of the free articles, the
/// last pair first.
fn sequence_pairs(c: &Comparison, ro: &Vec<usize>, rn: &Vec<usize>) -> (pairs: Vec<(usize, usize)>)
    requires
        c.wf(),
        forall|k: int| 0 <= k < ro@.len() ==> (#[trigger] ro@[k]) < c.old@.len(),
        forall|k: int| 0 <= k < rn@.len() ==> (#[trigger] rn@[k]) < c.new@.len(),
    ensures
        pairs@ == trace(c@, ro@, rn@, ro@.len(), rn@.len()),
        forall|k: int|
            0 <= k < pairs@.len() ==> (#[trigger] pairs@[k]).0 < c.old@.len() && pairs@[k].1
                < c.new@.len(),
{
    let n = ro.len();
    let m = rn.len();
    let g = bar_of(c.threshold);
    let ghost t = c@;
    let mut rows: Vec<Vec<u128>> = Vec::new();
    let mut i: usize = 0;
    while i < n
        invariant
            i <= n,
            n == ro@.len(),
            m == rn@.len(),
            t == c@,
            g == match_bar(c.threshold),
            c.wf(),
            forall|k: int| 0 <= k < ro@.len() ==> (#[trigger] ro@[k]) < c.old@.len(),
            forall|k: int| 0 <= k < rn@.len() ==> (#[trigger] rn@[k]) < c.new@.len(),
            sums_filled(t, ro@, rn@, rows@, i as nat),
        decreases n - i,
    {
        let mut row: Vec<u128> = Vec::new();
        let mut j: usize = 0;
        while j < m
            invariant
                j <= m,
                i < n,
                n == ro@.len(),
                m == rn@.len(),
                t == c@,
                g == match_bar(c.threshold),
                c.wf(),
                forall|k: int| 0 <= k < ro@.len() ==> (#[trigger] ro@[k]) < c.old@.len(),
                forall|k: int| 0 <= k < rn@.len() ==> (#[trigger] rn@[k]) < c.new@.len(),
                sums_filled(t, ro@, rn@, rows@, i as nat),
                row@.len() == j,
                forall|b: int|
                    0 <= b < j ==> (#[trigger] row@[b]) as int == best_sum(
                        t,
                        ro@,
                        rn@,
                        (i + 1) as nat,
                        (b + 1) as nat,
                    ),
            decreases m - j,
        {
            let s = c.score(ro[i], rn[j]);
            let diag_base = sum_at(&rows, i, j, Ghost(t), Ghost(ro@), Ghost(rn@));
            let up = sum_at(&rows, i, j + 1, Ghost(t), Ghost(ro@), Ghost(rn@));
            let left: u128 = if j == 0 {
                0
            } else {
                row[j - 1]
            };
            proof {
                lemma_best_sum_bound(t, ro@, rn@, i as nat, j as nat);
                assert(pair_score(t, ro@, rn@, (i + 1) as nat, (j + 1) as nat) == s);
                assert(left as int == best_sum(t, ro@, rn@, (i + 1) as nat, j as nat));
            }
            let diag: u128 = diag_base + s as u128;
            let value = if s as u64 >= g && diag > up && diag > left {
                diag
            } else if up >= left {
                up
            } else {
                left
            };
            row.push(value);
            j += 1;
        }
        rows.push(row);
        i += 1;
    }
    let mut pairs: Vec<(usize, usize)> = Vec::new();
    let mut i: usize = n;
    let mut j: usize = m;
    while i > 0 && j > 0
        invariant
            i <= n,
            j <= m,
            n == ro@.len(),
            m == rn@.len(),
            t == c@,
            g == match_bar(c.threshold),
            c.wf(),
            forall|k: int| 0 <= k < ro@.len() ==> (#[trigger] ro@[k]) < c.old@.len(),
            forall|k: int| 0 <= k < rn@.len() ==> (#[trigger] rn@[k]) < c.new@.len(),
            sums_filled(t, ro@, rn@, rows@, n as nat),
            pairs@ + trace(t, ro@, rn@, i as nat, j as nat) == trace(t, ro@, rn@, n as nat, m as nat),
            forall|k: int|
                0 <= k < pairs@.len() ==> (#[trigger] pairs@[k]).0 < c.old@.len() && pairs@[k].1
                    < c.new@.len(),
        decreases i + j,
    {
        let s = c.score(ro[i - 1], rn[j - 1]);
        let diag_base = sum_at(&rows, i - 1, j - 1, Ghost(t), Ghost(ro@), Ghost(rn@));
        let up = sum_at(&rows, i - 1, j, Ghost(t), Ghost(ro@), Ghost(rn@));
        let left = sum_at(&rows, i, j - 1, Ghost(t), Ghost(ro@), Ghost(rn@));
        proof {
            lemma_best_sum_bound(t, ro@, rn@, (i - 1) as nat, (j - 1) as nat);
            assert(pair_score(t, ro@, rn@, i as nat, j as nat) == s);
        }
        let diag: u128 = diag_base + s as u128;
        let ghost before = pairs@;
        if s as u64 >= g && diag > up && diag > left {
            pairs.push((ro[i - 1], rn[j - 1]));
            assert(takes_pair(t, ro@, rn@, i as nat, j as nat));
            assert(before + (seq![(ro@[i - 1], rn@[j - 1])] + trace(
                t,
                ro@,
                rn@,
                (i - 1) as nat,
                (j - 1) as nat,
            )) =~= pairs@ + trace(t, ro@, rn@, (i - 1) as nat, (j - 1) as nat));
            i -= 1;
            j -= 1;
        } else if up >= left {
            assert(!takes_pair(t, ro@, rn@, i as nat, j as nat));
            assert(skips_old(t, ro@, rn@, i as nat, j as nat));
            i -= 1;
        } else {
            assert(!takes_pair(t, ro@, rn@, i as nat, j as nat));
            assert(!skips_old(t, ro@, rn@, i as nat, j as nat));
            j -= 1;
        }
    }
    assert(pairs@ + Seq::<(usize, usize)>::empty() =~= pairs@);
    pairs
}

/// Matches the free articles in sequence, by a matching that keeps their
/// order and reaches the largest sum of similarities, and then, out of
/// sequence, every old article still free with the free new article most
/// similar to it, where that reaches the threshold.
pub fn find_one_to_one_matches(c: &Comparison, ws: &mut Workspace)
    requires
        c.wf(),
        old(ws).fits(c),
    ensures
        final(ws).fits(c),
        final(ws)@ == greedy_matches(c@, sequence_matches(c@, old(ws)@), c.old@.len()),
{
    let ro = free_indices(&ws.used_old);
    let rn = free_indices(&ws.used_new);
    let pairs = sequence_pairs(c, &ro, &rn);
    let mut k: usize = 0;
    while k < pairs.len()
        invariant
            k <= pairs@.len(),
            c.wf(),
            ws.fits(c),
            forall|x: int|
                0 <= x < pairs@.len() ==> (#[trigger] pairs@[x]).0 < c.old@.len() && pairs@[x].1
                    < c.new@.len(),
            ws@ == bind_pairs(c@, old(ws)@, pairs@, k as nat),
        decreases pairs.len() - k,
    {
        let (i, j) = pairs[k];
        if !ws.used_old[i] && !ws.used_new[j] {
            let a = sequence_alignment(c, i, j);
            ws.bind(a);
        }
        k += 1;
    }
    let ghost mid = ws@;
    let mut i: usize = 0;
    while i < c.old.len()
        invariant
            i <= c.old@.len(),
            c.wf(),
            ws.fits(c),
            ws@ == greedy_matches(c@, mid, i as nat),
        decreases c.old.len() - i,
    {
        if !ws.used_old[i] {
            let ghost st = ws@;
            let mut best: Option<usize> = None;
            let mut j: usize = 0;
            while j < c.new.len()
                invariant
                    j <= c.new@.len(),
                    i < c.old@.len(),
                    c.wf(),
                    ws.fits(c),
                    ws@ == st,
                    best is Some ==> best->0 < c.new@.len(),
                    match best {
                        Some(b) => best_from(c@, st, i as int, j as nat) == Some(b as int),
                        None => best_from(c@, st, i as int, j as nat) is None,
                    },
                decreases c.new.len() - j,
            {
                if !ws.used_new[j] {
                    let s = c.score(i, j);
                    let better = match best {
                        Some(b) => s > c.score(i, b),
                        None => true,
                    };
                    if s >= c.threshold && better {
                        best = Some(j);
                    }
                }
                j += 1;
            }
            match best {
                Some(j) => {
                    let a = greedy_alignment(c, i, j);
                    ws.bind(a);
                },
                None => {},
            }
        }
        i += 1;
    }
}

fn holds(taken: &Vec<usize>, x: usize) -> (r: bool)
    ensures
        r == taken@.contains(x),
{
    let mut k: usize = 0;
    while k < taken.len()
        invariant
            k <= taken@.len(),
            forall|i: int| 0 <= i < k ==> taken@[i] != x,
        decreases taken.len() - k,
    {
        if taken[k] == x {
            return true;
        }
        k += 1;
    }
    false
}

/// The best candidate for `fixed` among the free articles of the other list
/// that are not taken yet.
fn pick_best(c: &Comparison, used: &Vec<bool>, fixed: usize, by_old: bool, taken: &Vec<usize>) -> (r:
    Option<usize>)
    requires
        c.wf(),
        by_old ==> fixed < c.old@.len() && used@.len() == c.new@.len(),
        !by_old ==> fixed < c.new@.len() && used@.len() == c.old@.len(),
    ensures
        match r {
            Some(b) => pick(c@, used@, fixed as int, by_old, taken@, used@.len()) == Some(b as int)
                && b < used@.len(),
            None => pick(c@, used@, fixed as int, by_old, taken@, used@.len()) is None,
        },
{
    let mut best: Option<usize> = None;
    let mut k: usize = 0;
    while k < used.len()
        invariant
            k <= used@.len(),
            c.wf(),
            by_old ==> fixed < c.old@.len() && used@.len() == c.new@.len(),
            !by_old ==> fixed < c.new@.len() && used@.len() == c.old@.len(),
            best is Some ==> best->0 < used@.len(),
            match best {
                Some(b) => pick(c@, used@, fixed as int, by_old, taken@, k as nat) == Some(b as int),
                None => pick(c@, used@, fixed as int, by_old, taken@, k as nat) is None,
            },
        decreases used.len() - k,
    {
        if !used[k] {
            let s = c.score_for(fixed, k, by_old);
            if s >= 400_000 && !holds(taken, k) {
                let better = match best {
                    Some(b) => s > c.score_for(fixed, b, by_old),
                    None => true,
                };
                if better {
                    best = Some(k);
                }
            }
        }
        k += 1;
    }
    best
}

/// The up to three best candidates for `fixed`, the best first, and the sum
/// of their similarities.
fn best_three(c: &Comparison, used: &Vec<bool>, fixed: usize, by_old: bool) -> (r: (Vec<usize>, u64))
    requires
        c.wf(),
        by_old ==> fixed < c.old@.len() && used@.len() == c.new@.len(),
        !by_old ==> fixed < c.new@.len() && used@.len() == c.old@.len(),
    ensures
        r.0@ == top_three(c@, used@, fixed as int, by_old),
        r.0@.len() <= 3,
        forall|k: int| 0 <= k < r.0@.len() ==> (#[trigger] r.0@[k]) < used@.len(),
        r.1 == picks_total(c@, fixed as int, by_old, r.0@, r.0@.len()),
{
    let mut picks: Vec<usize> = Vec::new();
    let mut total: u64 = 0;
    assert(picks@ =~= Seq::<usize>::empty());
    match pick_best(c, used, fixed, by_old, &picks) {
        None => {},
        Some(a) => {
            picks.push(a);
            total = total + c.score_for(fixed, a, by_old) as u64;
            assert(picks@ =~= seq![a]);
            match pick_best(c, used, fixed, by_old, &picks) {
                None => {},
                Some(b) => {
                    picks.push(b);
                    total = total + c.score_for(fixed, b, by_old) as u64;
                    assert(picks@ =~= seq![a, b]);
                    match pick_best(c, used, fixed, by_old, &picks) {
                        None => {},
                        Some(d) => {
                            picks.push(d);
                            total = total + c.score_for(fixed, d, by_old) as u64;
                            assert(picks@ =~= seq![a, b, d]);
                        },
                    }
                },
            }
        },
    }
    proof {
        let p = picks@;
        reveal_with_fuel(picks_total, 4);
        assert(total == picks_total(c@, fixed as int, by_old, p, p.len()));
    }
    (picks, total)
}

fn tag_list(first: Tag) -> (tags: Vec<Tag>)
    ensures
        tags@ == seq![first],
{
    let mut tags: Vec<Tag> = Vec::new();
    tags.push(first);
    assert(tags@ =~= seq![first]);
    tags
}

/// Binds every old article still free to the up to three free new articles
/// most similar to it, where there are two at least, each similar by four
/// tenths, and their similarities sum to `SCALE` or more.
pub fn detect_splits(c: &Comparison, ws: &mut Workspace)
    requires
        c.wf(),
        old(ws).fits(c),
    ensures
        final(ws).fits(c),
        final(ws)@ == splits(c@, old(ws)@, c.old@.len()),
{
    let mut i: usize = 0;
    while i < c.old.len()
        invariant
            i <= c.old@.len(),
            c.wf(),
            ws.fits(c),
            ws@ == splits(c@, old(ws)@, i as nat),
        decreases c.old.len() - i,
    {
        if !ws.used_old[i] {
            let (picks, total) = best_three(c, &ws.used_new, i, true);
            if picks.len() >= 2 && total >= SCALE as u64 {
                let mean: u64 = total / (picks.len() as u64);
                let a = Alignment {
                    change_type: ArticleChangeType::Split,
                    old_index: Some(i),
                    new_indices: picks,
                    similarity: Some(mean as u32),
                    tags: tag_list(Tag::Split),
                };
                ws.bind(a);
            }
        }
        i += 1;
    }
}

/// Binds every new article still free to the up to three free old articles
/// most similar to it, under the conditions of a split: one change for each
/// of the old articles.
pub fn detect_merges(c: &Comparison, ws: &mut Workspace)
    requires
        c.wf(),
        old(ws).fits(c),
    ensures
        final(ws).fits(c),
        final(ws)@ == merges(c@, old(ws)@, c.new@.len()),
{
    let mut j: usize = 0;
    while j < c.new.len()
        invariant
            j <= c.new@.len(),
            c.wf(),
            ws.fits(c),
            ws@ == merges(c@, old(ws)@, j as nat),
        decreases c.new.len() - j,
    {
        if !ws.used_new[j] {
            let (picks, total) = best_three(c, &ws.used_old, j, false);
            if picks.len() >= 2 && total >= SCALE as u64 {
                let mean: u64 = total / (picks.len() as u64);
                let ghost st = ws@;
                let mut k: usize = 0;
                while k < picks.len()
                    invariant
                        k <= picks@.len(),
                        ws.fits(c),
                        ws@ == merge_all(st, picks@, j as int, mean as u32, k as nat),
                    decreases picks.len() - k,
                {
                    let a = Alignment {
                        change_type: ArticleChangeType::Merged,
                        old_index: Some(picks[k]),
                        new_indices: one(j),
                        similarity: Some(mean as u32),
                        tags: tag_list(Tag::Merged),
                    };
                    ws.bind(a);
                    k += 1;
                }
            }
        }
        j += 1;
    }
}

fn lone_tag_list(first: Tag, kind: NodeType) -> (tags: Vec<Tag>)
    ensures
        tags@ == lone_tags(first, kind),
{
    let mut tags: Vec<Tag> = Vec::new();
    tags.push(first);
    if kind == NodeType::Preamble {
        tags.push(Tag::Preamble);
    }
    assert(tags@ =~= lone_tags(first, kind));
    tags
}

/// Reports every old article still free as deleted and then every new
/// article still free as added, each list in ascending order and without a
/// similarity. The marks stay as they are.
pub fn handle_remaining_articles(c: &Comparison, ws: &mut Workspace)
    requires
        c.wf(),
        old(ws).fits(c),
    ensures
        final(ws).fits(c),
        final(ws)@ == additions(c@, deletions(c@, old(ws)@, c.old@.len()), c.new@.len()),
        final(ws).used_old@ == old(ws).used_old@,
        final(ws).used_new@ == old(ws).used_new@,
{
    let mut i: usize = 0;
    while i < c.old.len()
        invariant
            i <= c.old@.len(),
            ws.fits(c),
            ws.used_old@ == old(ws).used_old@,
            ws.used_new@ == old(ws).used_new@,
            ws@ == deletions(c@, old(ws)@, i as nat),
        decreases c.old.len() - i,
    {
        if !ws.used_old[i] {
            let a = Alignment {
                change_type: ArticleChangeType::Deleted,
                old_index: Some(i),
                new_indices: Vec::new(),
                similarity: None,
                tags: lone_tag_list(Tag::Deleted, c.old[i].node_type),
            };
            ws.report(a);
        }
        i += 1;
    }
    let ghost mid = ws@;
    let mut j: usize = 0;
    while j < c.new.len()
        invariant
            j <= c.new@.len(),
            ws.fits(c),
            ws.used_old@ == old(ws).used_old@,
            ws.used_new@ == old(ws).used_new@,
            mid.used_new == old(ws).used_new@,
            ws@ == additions(c@, mid, j as nat),
        decreases c.new.len() - j,
    {
        if !ws.used_new[j] {
            let a = Alignment {
                change_type: ArticleChangeType::Added,
                old_index: None,
                new_indices: one(j),
                similarity: None,
                tags: lone_tag_list(Tag::Added, c.new[j].node_type),
            };
            ws.report(a);
        }
        j += 1;
    }
}

/// Runs every stage in turn and returns the changes in the order in which
/// they were decided.
pub fn decide(c: &Comparison) -> (plan: Vec<Alignment>)
    requires
        c.wf(),
    ensures
        plan_view(plan@) == crate::diff::plan::all_stages(c@).plan,
{
    let mut ws = Workspace::new(c);
    find_number_matches(c, &mut ws);
    find_one_to_one_matches(c, &mut ws);
    detect_splits(c, &mut ws);
    detect_merges(c, &mut ws);
    handle_remaining_articles(c, &mut ws);
    ws.plan
}

/// The key of a change, by which the result is ordered.
#[derive(Debug, Clone, Copy)]
pub struct RankKey {
    pub group: u8,
    pub unnumbered: u8,
    pub number: u64,
    pub line: usize,
    pub side: u8,
}

impl View for RankKey {
    type V = SortKey;

    open spec fn view(&self) -> SortKey {
        SortKey {
            group: self.group as nat,
            unnumbered: self.unnumbered as nat,
            number: self.number as nat,
            line: self.line as nat,
            side: self.side as nat,
        }
    }
}

fn rank_le(x: &RankKey, y: &RankKey) -> (r: bool)
    ensures
        r == key_le(x@, y@),
{
    if x.group != y.group {
        x.group < y.group
    } else if x.unnumbered != y.unnumbered {
        x.unnumbered < y.unnumbered
    } else if x.number != y.number {
        x.number < y.number
    } else if x.line != y.line {
        x.line < y.line
    } else {
        x.side <= y.side
    }
}

fn about_preamble(c: &Comparison, a: &Alignment) -> (r: bool)
    ensures
        r == concerns_preamble(c@, a@),
{
    if a.change_type == ArticleChangeType::Preamble {
        return true;
    }
    let mut k: usize = 0;
    while k < a.new_indices.len()
        invariant
            k <= a.new_indices@.len(),
            forall|x: int|
                0 <= x < k ==> !((#[trigger] a.new_indices@[x]) < c.new@.len()
                    && c@.new[a.new_indices@[x] as int].node_type == NodeType::Preamble),
        decreases a.new_indices.len() - k,
    {
        let j = a.new_indices[k];
        if j < c.new.len() && c.new[j].node_type == NodeType::Preamble {
            return true;
        }
        k += 1;
    }
    match a.old_index {
        Some(i) => i < c.old.len() && c.old[i].node_type == NodeType::Preamble,
        None => false,
    }
}

fn rank_of(c: &Comparison, a: &Alignment) -> (k: RankKey)
    ensures
        k@ == sort_key(c@, a@),
{
    let group: u8 = if about_preamble(c, a) {
        0
    } else {
        1
    };
    if a.new_indices.len() > 0 && a.new_indices[0] < c.new.len() {
        let info = &c.new[a.new_indices[0]];
        let n = chinese_to_int(info.number.as_str());
        RankKey {
            group,
            unnumbered: if n == 0 {
                1
            } else {
                0
            },
            number: n,
            line: info.start_line,
            side: 0,
        }
    } else {
        match a.old_index {
            Some(i) => {
                if i < c.old.len() {
                    let info = &c.old[i];
                    let n = chinese_to_int(info.number.as_str());
                    RankKey {
                        group,
                        unnumbered: if n == 0 {
                            1
                        } else {
                            0
                        },
                        number: n,
                        line: info.start_line,
                        side: 1,
                    }
                } else {
                    RankKey { group, unnumbered: 1, number: 0, line: usize::MAX, side: 2 }
                }
            },
            None => RankKey { group, unnumbered: 1, number: 0, line: usize::MAX, side: 2 },
        }
    }
}

/// The changes at `order`, one after the other.
pub open spec fn picked(plan: Seq<AlignmentView>, order: Seq<usize>) -> Seq<AlignmentView> {
    order.map_values(|i: usize| plan[i as int])
}

/// The order of the result: for every place the index of the change that
/// stands there.
pub fn order_of(c: &Comparison, plan: &Vec<Alignment>) -> (order: Vec<usize>)
    ensures
        order@.len() == plan@.len(),
        forall|k: int| 0 <= k < order@.len() ==> (#[trigger] order@[k]) < plan@.len(),
        picked(plan_view(plan@), order@) == ordered(c@, plan_view(plan@), plan@.len()),
{
    let ghost pv = plan_view(plan@);
    let ghost t = c@;
    let mut order: Vec<usize> = Vec::new();
    let mut keys: Vec<RankKey> = Vec::new();
    let mut k: usize = 0;
    assert(picked(pv, order@) =~= ordered(t, pv, 0));
    while k < plan.len()
        invariant
            k <= plan@.len(),
            pv == plan_view(plan@),
            t == c@,
            order@.len() == k,
            keys@.len() == k,
            forall|x: int| 0 <= x < order@.len() ==> (#[trigger] order@[x]) < plan@.len(),
            forall|x: int|
                0 <= x < keys@.len() ==> (#[trigger] keys@[x])@ == sort_key(t, pv[order@[x] as int]),
            picked(pv, order@) == ordered(t, pv, k as nat),
        decreases plan.len() - k,
    {
        let key = rank_of(c, &plan[k]);
        let ghost head = picked(pv, order@);
        let ghost x = pv[k as int];
        assert(x == plan@[k as int]@);
        let mut p: usize = order.len();
        while p > 0 && !rank_le(&keys[p - 1], &key)
            invariant
                p <= order@.len(),
                order@.len() == keys@.len(),
                head == picked(pv, order@),
                key@ == sort_key(t, x),
                forall|y: int|
                    0 <= y < keys@.len() ==> (#[trigger] keys@[y])@ == sort_key(
                        t,
                        pv[order@[y] as int],
                    ),
                insertion_point(t, head, x, head.len()) == insertion_point(t, head, x, p as nat),
            decreases p,
        {
            assert(head[p - 1] == pv[order@[p - 1] as int]);
            p -= 1;
        }
        proof {
            if p > 0 {
                assert(head[p - 1] == pv[order@[p - 1] as int]);
            }
            assert(insertion_point(t, head, x, head.len()) == p);
        }
        let ghost old_order = order@;
        order.insert(p, k);
        keys.insert(p, key);
        assert(picked(pv, order@) =~= head.insert(p as int, x));
        k += 1;
    }
    order
}

fn tag_string(tag: Tag) -> (s: String)
    ensures
        s@ == tag_text(tag),
{
    match tag {
        Tag::Modified => String::from_str("modified"),
        Tag::Replaced => String::from_str("replaced"),
        Tag::Renumbered => String::from_str("renumbered"),
        Tag::Preamble => String::from_str("preamble"),
        Tag::Split => String::from_str("split"),
        Tag::Merged => String::from_str("merged"),
        Tag::Deleted => String::from_str("deleted"),
        Tag::Added => String::from_str("added"),
    }
}

/// The change that a decision stands for.
pub fn materialize(c: &Comparison, a: &Alignment) -> (r: ArticleChange)
    ensures
        r@ == change_of(c@, a@),
        r.details is None,
{
    let old_article = match a.old_index {
        Some(i) => {
            if i < c.old.len() {
                Some(c.old[i].clone())
            } else {
                None
            }
        },
        None => None,
    };
    let new_articles = if a.new_indices.len() == 0 {
        None
    } else {
        let mut list: Vec<ArticleInfo> = Vec::new();
        let mut k: usize = 0;
        assert(infos_view(list@) =~= picked_infos(c@.new, a.new_indices@, 0));
        while k < a.new_indices.len()
            invariant
                k <= a.new_indices@.len(),
                infos_view(list@) == picked_infos(c@.new, a.new_indices@, k as nat),
            decreases a.new_indices.len() - k,
        {
            let j = a.new_indices[k];
            if j < c.new.len() {
                let ghost before = infos_view(list@);
                let info = c.new[j].clone();
                list.push(info);
                assert(infos_view(list@) =~= before.push(c@.new[j as int]));
            }
            k += 1;
        }
        Some(list)
    };
    let mut tags: Vec<String> = Vec::new();
    let mut k: usize = 0;
    while k < a.tags.len()
        invariant
            k <= a.tags@.len(),
            tags@.len() == k,
            forall|x: int| 0 <= x < k ==> (#[trigger] tags@[x])@ == tag_text(a.tags@[x]),
        decreases a.tags.len() - k,
    {
        tags.push(tag_string(a.tags[k]));
        k += 1;
    }
    assert(strings_view(tags@) =~= a@.tags.map_values(|tag: Tag| tag_text(tag)));
    ArticleChange {
        change_type: a.change_type,
        old_article,
        new_articles,
        similarity: a.similarity,
        details: None,
        tags,
    }
}

/// The two lists of articles and their scores that the alignment of two
/// texts works on: both texts are normalised, parsed and flattened.
pub open spec fn align_table(old_text: Seq<char>, new_text: Seq<char>, threshold: u32) -> Table {
    let old = flat_articles(parse_spec(normalize_spec(old_text)));
    let new = flat_articles(parse_spec(normalize_spec(new_text)));
    Table { old, new, scores: score_matrix(old, new), threshold }
}

/// The changes that lead from the old text to the new one, in order.
pub open spec fn align_spec(old_text: Seq<char>, new_text: Seq<char>, threshold: u32) -> Seq<
    ChangeView,
> {
    let t = align_table(old_text, new_text, threshold);
    plan_spec(t).map_values(|a: AlignmentView| change_of(t, a))
}

/// The changes that lead from one list of articles to another, in order.
pub fn align_lists(c: &Comparison) -> (changes: Vec<ArticleChange>)
    requires
        c.wf(),
    ensures
        changes_view(changes@) == plan_spec(c@).map_values(|a: AlignmentView| change_of(c@, a)),
        forall|k: int| 0 <= k < changes@.len() ==> (#[trigger] changes@[k]).details is None,
        in_order(c@, plan_spec(c@)),
        forall|i: int| 0 <= i < c.old@.len() ==> #[trigger] old_covered(plan_spec(c@), i),
        forall|j: int| 0 <= j < c.new@.len() ==> #[trigger] new_covered(plan_spec(c@), j),
{
    let old_count = c.old.len();
    let new_count = c.new.len();
    proof {
        assert(c@.old.len() == old_count && c@.new.len() == new_count);
        lemma_plan_covers(c@);
    }
    let plan = decide(c);
    let order = order_of(c, &plan);
    let ghost pv = plan_view(plan@);
    let mut changes: Vec<ArticleChange> = Vec::new();
    let mut k: usize = 0;
    while k < order.len()
        invariant
            k <= order@.len(),
            pv == plan_view(plan@),
            forall|x: int| 0 <= x < order@.len() ==> (#[trigger] order@[x]) < plan@.len(),
            changes@.len() == k,
            forall|x: int|
                0 <= x < k ==> (#[trigger] changes@[x])@ == change_of(c@, pv[order@[x] as int]),
            forall|x: int| 0 <= x < k ==> (#[trigger] changes@[x]).details is None,
        decreases order.len() - k,
    {
        let a = &plan[order[k]];
        assert(pv[order@[k as int] as int] == a@);
        changes.push(materialize(c, a));
        k += 1;
    }
    assert(changes_view(changes@) =~= picked(pv, order@).map_values(
        |a: AlignmentView| change_of(c@, a),
    ));
    changes
}

/// Aligns the articles of two texts. Both texts are normalised before they
/// are parsed, whatever `format_text` says: it has no bearing on the result.
/// Two texts without articles give no change. The changes stand in order;
/// every old article is the old article of exactly one of them, and every new
/// article is among the new articles of one of them, or of several that are
/// all merges.
pub fn align_articles(old_text: &str, new_text: &str, threshold: u32, format_text: bool) -> (changes:
    Vec<ArticleChange>)
    ensures
        changes_view(changes@) == align_spec(old_text@, new_text@, threshold),
        forall|k: int| 0 <= k < changes@.len() ==> (#[trigger] changes@[k]).details is None,
        ({
            let t = align_table(old_text@, new_text@, threshold);
            &&& in_order(t, plan_spec(t))
            &&& forall|i: int| 0 <= i < t.old.len() ==> #[trigger] old_covered(plan_spec(t), i)
            &&& forall|j: int| 0 <= j < t.new.len() ==> #[trigger] new_covered(plan_spec(t), j)
        }),
{
    let processed_old = normalize_legal_text(old_text);
    let processed_new = normalize_legal_text(new_text);
    let old_ast = parse_article(processed_old.as_str());
    let new_ast = parse_article(processed_new.as_str());
    let old_articles = flatten_articles(&old_ast);
    let new_articles = flatten_articles(&new_ast);
    let matrix = build_similarity_matrix(&old_articles, &new_articles);
    let c = Comparison { old: old_articles, new: new_articles, matrix, threshold };
    align_lists(&c)
}

} // verus!
