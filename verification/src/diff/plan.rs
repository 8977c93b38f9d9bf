//! What an alignment decides, stated over indices into the two lists of
//! articles: the stages as functions from state to state, and the order of
//! the result.

use vstd::prelude::*;
use crate::diff::numerals::number_value;
use crate::models::{ArticleChangeType, ChangeView, InfoView, NodeType, SCALE};

verus! {

/// A label that a change carries.
#[derive(Debug, Clone, Copy, PartialEq, Eq, Structural)]
pub enum Tag {
    Modified,
    Replaced,
    Renumbered,
    Preamble,
    Split,
    Merged,
    Deleted,
    Added,
}

/// The text of a label.
pub open spec fn tag_text(t: Tag) -> Seq<char> {
    match t {
        Tag::Modified => "modified"@,
        Tag::Replaced => "replaced"@,
        Tag::Renumbered => "renumbered"@,
        Tag::Preamble => "preamble"@,
        Tag::Split => "split"@,
        Tag::Merged => "merged"@,
        Tag::Deleted => "deleted"@,
        Tag::Added => "added"@,
    }
}

/// One decision of the aligner: which old article, if any, goes with which
/// new articles.
#[derive(Debug)]
pub struct Alignment {
    pub change_type: ArticleChangeType,
    pub old_index: Option<usize>,
    pub new_indices: Vec<usize>,
    pub similarity: Option<u32>,
    pub tags: Vec<Tag>,
}

/// The mathematical value of an [`Alignment`].
pub struct AlignmentView {
    pub change_type: ArticleChangeType,
    pub old_index: Option<usize>,
    pub new_indices: Seq<usize>,
    pub similarity: Option<u32>,
    pub tags: Seq<Tag>,
}

impl View for Alignment {
    type V = AlignmentView;

    open spec fn view(&self) -> AlignmentView {
        AlignmentView {
            change_type: self.change_type,
            old_index: self.old_index,
            new_indices: self.new_indices@,
            similarity: self.similarity,
            tags: self.tags@,
        }
    }
}

/// The values of a sequence of alignments.
pub open spec fn plan_view(s: Seq<Alignment>) -> Seq<AlignmentView> {
    s.map_values(|a: Alignment| a@)
}

/// What the aligner works on: the two lists of articles, the composite
/// similarity of every pair, and the threshold.
pub struct Table {
    pub old: Seq<InfoView>,
    pub new: Seq<InfoView>,
    /// `scores[i][j]` is the similarity of old article `i` and new article
    /// `j`.
    pub scores: Seq<Seq<u32>>,
    pub threshold: u32,
}

impl Table {
    /// The matrix has a row for every old article and in it a cell for every
    /// new article.
    pub open spec fn wf(self) -> bool {
        &&& self.scores.len() == self.old.len()
        &&& forall|i: int| 0 <= i < self.scores.len() ==> (#[trigger] self.scores[i]).len() == self.new.len()
    }
}

/// What the aligner has decided so far.
pub struct State {
    /// For every old article, whether a change holds it.
    pub used_old: Seq<bool>,
    /// For every new article, whether a change holds it.
    pub used_new: Seq<bool>,
    /// The changes, in the order in which they were decided.
    pub plan: Seq<AlignmentView>,
}

/// The state in which nothing is decided.
pub open spec fn initial(t: Table) -> State {
    State {
        used_old: Seq::new(t.old.len(), |i: int| false),
        used_new: Seq::new(t.new.len(), |i: int| false),
        plan: Seq::empty(),
    }
}

/// `used` with the first `k` of `indices` marked.
pub open spec fn mark_all(used: Seq<bool>, indices: Seq<usize>, k: nat) -> Seq<bool>
    decreases k,
{
    if k == 0 || k > indices.len() {
        used
    } else {
        let head = mark_all(used, indices, (k - 1) as nat);
        if indices[k - 1] < head.len() {
            head.update(indices[k - 1] as int, true)
        } else {
            head
        }
    }
}

/// The state with one more change, whose articles are marked as held.
pub open spec fn bind(st: State, a: AlignmentView) -> State {
    State {
        used_old: match a.old_index {
            Some(i) => if i < st.used_old.len() {
                st.used_old.update(i as int, true)
            } else {
                st.used_old
            },
            None => st.used_old,
        },
        used_new: mark_all(st.used_new, a.new_indices, a.new_indices.len()),
        plan: st.plan.push(a),
    }
}

/// Whether a number is one of the two that only the root and a preamble
/// bear.
pub open spec fn is_sentinel_number(s: Seq<char>) -> bool {
    s == "root"@ || s == "0"@
}

// ----- Matches by number -----
/// The first new article from `j` on that no change holds and that bears the
/// number of old article `i`.
pub open spec fn same_number_from(t: Table, st: State, i: int, j: int) -> Option<int>
    decreases t.new.len() - j,
{
    if j < 0 || j >= t.new.len() || j >= st.used_new.len() {
        None
    } else if !st.used_new[j] && t.new[j].number == t.old[i].number {
        Some(j)
    } else {
        same_number_from(t, st, i, j + 1)
    }
}

/// The change that binds two articles of the same number: unchanged where
/// the similarity is `SCALE`, modified from 15 hundredths on, replaced below.
pub open spec fn number_match(t: Table, i: int, j: int) -> AlignmentView {
    let s = t.scores[i][j];
    if s >= SCALE {
        AlignmentView {
            change_type: ArticleChangeType::Unchanged,
            old_index: Some(i as usize),
            new_indices: seq![j as usize],
            similarity: Some(s),
            tags: Seq::empty(),
        }
    } else if s >= 150_000 {
        AlignmentView {
            change_type: ArticleChangeType::Modified,
            old_index: Some(i as usize),
            new_indices: seq![j as usize],
            similarity: Some(s),
            tags: seq![Tag::Modified],
        }
    } else {
        AlignmentView {
            change_type: ArticleChangeType::Replaced,
            old_index: Some(i as usize),
            new_indices: seq![j as usize],
            similarity: Some(s),
            tags: seq![Tag::Replaced],
        }
    }
}

/// Binds old article `i`, if no change holds it and it bears a number of its
/// own, to the first free new article of the same number.
pub open spec fn step_number(t: Table, st: State, i: int) -> State {
    if st.used_old[i] || is_sentinel_number(t.old[i].number) {
        st
    } else {
        match same_number_from(t, st, i, 0) {
            Some(j) => bind(st, number_match(t, i, j)),
            None => st,
        }
    }
}

/// The state after the first `k` old articles were matched by number.
pub open spec fn number_matches(t: Table, st: State, k: nat) -> State
    decreases k,
{
    if k == 0 || k > t.old.len() {
        st
    } else {
        step_number(t, number_matches(t, st, (k - 1) as nat), k - 1)
    }
}

// ----- Matches in sequence -----
/// The indices below `k` that are not marked, in ascending order.
pub open spec fn unused(used: Seq<bool>, k: nat) -> Seq<usize>
    decreases k,
{
    if k == 0 || k > used.len() {
        Seq::empty()
    } else if used[k - 1] {
        unused(used, (k - 1) as nat)
    } else {
        unused(used, (k - 1) as nat).push((k - 1) as usize)
    }
}

/// The similarity from which two articles may be matched in sequence: seven
/// tenths of the threshold, but three tenths at least.
pub open spec fn match_bar(threshold: u32) -> int {
    let g = (7 * threshold) / 10;
    if g >= 300_000 {
        g
    } else {
        300_000
    }
}

/// The similarity of the `i`-th free old and the `j`-th free new article,
/// counted from one.
pub open spec fn pair_score(t: Table, ro: Seq<usize>, rn: Seq<usize>, i: nat, j: nat) -> int {
    t.scores[ro[i - 1] as int][rn[j - 1] as int] as int
}

/// The largest sum of similarities that an order-preserving matching of the
/// first `i` free old with the first `j` free new articles reaches, where a
/// pair is matched only if it reaches the least similarity for it and matching it gains over
/// leaving either article out.
pub open spec fn best_sum(t: Table, ro: Seq<usize>, rn: Seq<usize>, i: nat, j: nat) -> int
    decreases i + j,
{
    if i == 0 || j == 0 {
        0
    } else {
        let diag = best_sum(t, ro, rn, (i - 1) as nat, (j - 1) as nat) + pair_score(t, ro, rn, i, j);
        let up = best_sum(t, ro, rn, (i - 1) as nat, j);
        let left = best_sum(t, ro, rn, i, (j - 1) as nat);
        if pair_score(t, ro, rn, i, j) >= match_bar(t.threshold) && diag > up && diag > left {
            diag
        } else if up >= left {
            up
        } else {
            left
        }
    }
}

/// Whether the best matching of the first `i` and `j` free articles matches
/// the last of each.
pub open spec fn takes_pair(t: Table, ro: Seq<usize>, rn: Seq<usize>, i: nat, j: nat) -> bool {
    let diag = best_sum(t, ro, rn, (i - 1) as nat, (j - 1) as nat) + pair_score(t, ro, rn, i, j);
    pair_score(t, ro, rn, i, j) >= match_bar(t.threshold) && diag > best_sum(
        t,
        ro,
        rn,
        (i - 1) as nat,
        j,
    ) && diag > best_sum(t, ro, rn, i, (j - 1) as nat)
}

/// Whether, where the last pair is not matched, the old article is the one
/// left out.
pub open spec fn skips_old(t: Table, ro: Seq<usize>, rn: Seq<usize>, i: nat, j: nat) -> bool {
    best_sum(t, ro, rn, (i - 1) as nat, j) >= best_sum(t, ro, rn, i, (j - 1) as nat)
}

/// The pairs that the best matching of the first `i` and `j` free articles
/// holds, the last pair first.
pub open spec fn trace(t: Table, ro: Seq<usize>, rn: Seq<usize>, i: nat, j: nat) -> Seq<
    (usize, usize),
>
    decreases i + j,
{
    if i == 0 || j == 0 {
        Seq::empty()
    } else if takes_pair(t, ro, rn, i, j) {
        seq![(ro[i - 1], rn[j - 1])] + trace(t, ro, rn, (i - 1) as nat, (j - 1) as nat)
    } else if skips_old(t, ro, rn, i, j) {
        trace(t, ro, rn, (i - 1) as nat, j)
    } else {
        trace(t, ro, rn, i, (j - 1) as nat)
    }
}

/// The labels of a one-to-one match found by similarity: renumbered where the
/// numbers differ, modified where the similarity is below 999 thousandths.
pub open spec fn similarity_tags(t: Table, i: int, j: int) -> Seq<Tag> {
    let a = if t.old[i].number != t.new[j].number {
        seq![Tag::Renumbered]
    } else {
        Seq::<Tag>::empty()
    };
    if t.scores[i][j] < 999_000 {
        a.push(Tag::Modified)
    } else {
        a
    }
}

/// The change that binds a pair matched in sequence: a preamble where either
/// article is one; else unchanged or modified where the numbers agree,
/// renumbered where they differ.
pub open spec fn sequence_match(t: Table, i: int, j: int) -> AlignmentView {
    let s = t.scores[i][j];
    let same = t.old[i].number == t.new[j].number;
    if t.old[i].node_type == NodeType::Preamble || t.new[j].node_type == NodeType::Preamble {
        AlignmentView {
            change_type: ArticleChangeType::Preamble,
            old_index: Some(i as usize),
            new_indices: seq![j as usize],
            similarity: Some(s),
            tags: seq![Tag::Preamble],
        }
    } else {
        AlignmentView {
            change_type: if s >= SCALE && same {
                ArticleChangeType::Unchanged
            } else if same {
                ArticleChangeType::Modified
            } else {
                ArticleChangeType::Renumbered
            },
            old_index: Some(i as usize),
            new_indices: seq![j as usize],
            similarity: Some(s),
            tags: similarity_tags(t, i, j),
        }
    }
}

/// The state after the first `k` of `pairs` were bound, each unless one of
/// its articles was held by then.
pub open spec fn bind_pairs(t: Table, st: State, pairs: Seq<(usize, usize)>, k: nat) -> State
    decreases k,
{
    if k == 0 || k > pairs.len() {
        st
    } else {
        let s = bind_pairs(t, st, pairs, (k - 1) as nat);
        let (i, j) = pairs[k - 1];
        if i < s.used_old.len() && j < s.used_new.len() && !s.used_old[i as int] && !s.used_new[j as int] {
            bind(s, sequence_match(t, i as int, j as int))
        } else {
            s
        }
    }
}

/// The free articles matched in sequence.
pub open spec fn sequence_matches(t: Table, st: State) -> State {
    let ro = unused(st.used_old, st.used_old.len());
    let rn = unused(st.used_new, st.used_new.len());
    let pairs = trace(t, ro, rn, ro.len(), rn.len());
    bind_pairs(t, st, pairs, pairs.len())
}

// ----- Matches out of sequence -----
/// Among the first `k` new articles, the free one most similar to old
/// article `i`, provided it reaches the threshold; of equally similar ones
/// the first.
pub open spec fn best_from(t: Table, st: State, i: int, k: nat) -> Option<int>
    decreases k,
{
    if k == 0 || k > t.new.len() {
        None
    } else {
        let prev = best_from(t, st, i, (k - 1) as nat);
        let s = t.scores[i][k - 1];
        if !st.used_new[k - 1] && s >= t.threshold && (prev is None || s > t.scores[i][prev->0]) {
            Some(k - 1)
        } else {
            prev
        }
    }
}

/// The change that binds a pair matched out of sequence.
pub open spec fn greedy_match(t: Table, i: int, j: int) -> AlignmentView {
    AlignmentView {
        change_type: if t.old[i].number == t.new[j].number {
            ArticleChangeType::Modified
        } else {
            ArticleChangeType::Renumbered
        },
        old_index: Some(i as usize),
        new_indices: seq![j as usize],
        similarity: Some(t.scores[i][j]),
        tags: similarity_tags(t, i, j),
    }
}

/// Binds old article `i`, if it is free, to the free new article most
/// similar to it.
pub open spec fn step_greedy(t: Table, st: State, i: int) -> State {
    if st.used_old[i] {
        st
    } else {
        match best_from(t, st, i, t.new.len()) {
            Some(j) => bind(st, greedy_match(t, i, j)),
            None => st,
        }
    }
}

/// The state after the first `k` old articles were matched out of sequence.
pub open spec fn greedy_matches(t: Table, st: State, k: nat) -> State
    decreases k,
{
    if k == 0 || k > t.old.len() {
        st
    } else {
        step_greedy(t, greedy_matches(t, st, (k - 1) as nat), k - 1)
    }
}

// ----- Splits and merges -----
/// The similarity of the article `fixed` and the article `other` of the
/// other list: `fixed` is an old article where `by_old` holds.
pub open spec fn score_at(t: Table, fixed: int, other: int, by_old: bool) -> u32 {
    if by_old {
        t.scores[fixed][other]
    } else {
        t.scores[other][fixed]
    }
}

/// Among the first `k` articles of the other list, the best candidate for
/// `fixed`: free, not taken yet, similar by four tenths at least, and of
/// those the most similar; of equally similar ones the first.
pub open spec fn pick(t: Table, used: Seq<bool>, fixed: int, by_old: bool, taken: Seq<usize>, k: nat) -> Option<
    int,
>
    decreases k,
{
    if k == 0 || k > used.len() {
        None
    } else {
        let prev = pick(t, used, fixed, by_old, taken, (k - 1) as nat);
        let s = score_at(t, fixed, k - 1, by_old);
        if !used[k - 1] && s >= 400_000 && !taken.contains((k - 1) as usize) && (prev is None || s
            > score_at(t, fixed, prev->0, by_old)) {
            Some(k - 1)
        } else {
            prev
        }
    }
}

/// The up to three best candidates for `fixed`, the best first.
pub open spec fn top_three(t: Table, used: Seq<bool>, fixed: int, by_old: bool) -> Seq<usize> {
    match pick(t, used, fixed, by_old, Seq::empty(), used.len()) {
        None => Seq::empty(),
        Some(a) => match pick(t, used, fixed, by_old, seq![a as usize], used.len()) {
            None => seq![a as usize],
            Some(b) => match pick(t, used, fixed, by_old, seq![a as usize, b as usize], used.len()) {
                None => seq![a as usize, b as usize],
                Some(c) => seq![a as usize, b as usize, c as usize],
            },
        },
    }
}

/// The sum of the similarities of `fixed` and the first `k` of `picks`.
pub open spec fn picks_total(t: Table, fixed: int, by_old: bool, picks: Seq<usize>, k: nat) -> int
    decreases k,
{
    if k == 0 || k > picks.len() {
        0
    } else {
        picks_total(t, fixed, by_old, picks, (k - 1) as nat) + score_at(
            t,
            fixed,
            picks[k - 1] as int,
            by_old,
        )
    }
}

/// Whether the candidates make a split or a merge: there are two at least,
/// and their similarities sum to `SCALE` or more.
pub open spec fn is_group(t: Table, fixed: int, by_old: bool, picks: Seq<usize>) -> bool {
    picks.len() >= 2 && picks_total(t, fixed, by_old, picks, picks.len()) >= SCALE
}

/// The similarity given to a split or a merge: the mean over the
/// candidates.
pub open spec fn group_mean(t: Table, fixed: int, by_old: bool, picks: Seq<usize>) -> u32 {
    (picks_total(t, fixed, by_old, picks, picks.len()) / (picks.len() as int)) as u32
}

/// Binds old article `i`, if it is free, to its best candidates among the
/// free new articles, where they make a split.
pub open spec fn step_split(t: Table, st: State, i: int) -> State {
    if st.used_old[i] {
        st
    } else {
        let picks = top_three(t, st.used_new, i, true);
        if is_group(t, i, true, picks) {
            bind(
                st,
                AlignmentView {
                    change_type: ArticleChangeType::Split,
                    old_index: Some(i as usize),
                    new_indices: picks,
                    similarity: Some(group_mean(t, i, true, picks)),
                    tags: seq![Tag::Split],
                },
            )
        } else {
            st
        }
    }
}

/// The state after splits were looked for at the first `k` old articles.
pub open spec fn splits(t: Table, st: State, k: nat) -> State
    decreases k,
{
    if k == 0 || k > t.old.len() {
        st
    } else {
        step_split(t, splits(t, st, (k - 1) as nat), k - 1)
    }
}

/// The change that says that old article `i` went into new article `j`.
pub open spec fn merged_into(i: usize, j: int, mean: u32) -> AlignmentView {
    AlignmentView {
        change_type: ArticleChangeType::Merged,
        old_index: Some(i),
        new_indices: seq![j as usize],
        similarity: Some(mean),
        tags: seq![Tag::Merged],
    }
}

/// The state with one change for each of the first `k` of `picks`, all into
/// new article `j`.
pub open spec fn merge_all(st: State, picks: Seq<usize>, j: int, mean: u32, k: nat) -> State
    decreases k,
{
    if k == 0 || k > picks.len() {
        st
    } else {
        bind(merge_all(st, picks, j, mean, (k - 1) as nat), merged_into(picks[k - 1], j, mean))
    }
}

/// Binds new article `j`, if it is free, to its best candidates among the
/// free old articles, where they make a merge: one change for each of them.
pub open spec fn step_merge(t: Table, st: State, j: int) -> State {
    if st.used_new[j] {
        st
    } else {
        let picks = top_three(t, st.used_old, j, false);
        if is_group(t, j, false, picks) {
            merge_all(st, picks, j, group_mean(t, j, false, picks), picks.len())
        } else {
            st
        }
    }
}

/// The state after merges were looked for at the first `k` new articles.
pub open spec fn merges(t: Table, st: State, k: nat) -> State
    decreases k,
{
    if k == 0 || k > t.new.len() {
        st
    } else {
        step_merge(t, merges(t, st, (k - 1) as nat), k - 1)
    }
}

// ----- What is left -----
/// The labels of an article that is only deleted or only added.
pub open spec fn lone_tags(first: Tag, kind: NodeType) -> Seq<Tag> {
    if kind == NodeType::Preamble {
        seq![first, Tag::Preamble]
    } else {
        seq![first]
    }
}

/// The change that says that old article `i` is gone.
pub open spec fn deleted(t: Table, i: int) -> AlignmentView {
    AlignmentView {
        change_type: ArticleChangeType::Deleted,
        old_index: Some(i as usize),
        new_indices: Seq::empty(),
        similarity: None,
        tags: lone_tags(Tag::Deleted, t.old[i].node_type),
    }
}

/// The change that says that new article `j` is new.
pub open spec fn added(t: Table, j: int) -> AlignmentView {
    AlignmentView {
        change_type: ArticleChangeType::Added,
        old_index: None,
        new_indices: seq![j as usize],
        similarity: None,
        tags: lone_tags(Tag::Added, t.new[j].node_type),
    }
}

/// The state with one more change, the marks left as they are.
pub open spec fn report(st: State, a: AlignmentView) -> State {
    State { plan: st.plan.push(a), ..st }
}

/// The state after the free ones among the first `k` old articles were
/// reported as deleted, in ascending order. The marks stay as they are.
pub open spec fn deletions(t: Table, st: State, k: nat) -> State
    decreases k,
{
    if k == 0 || k > t.old.len() {
        st
    } else {
        let s = deletions(t, st, (k - 1) as nat);
        if st.used_old[k - 1] {
            s
        } else {
            report(s, deleted(t, k - 1))
        }
    }
}

/// The state after the free ones among the first `k` new articles were
/// reported as added, in ascending order. The marks stay as they are.
pub open spec fn additions(t: Table, st: State, k: nat) -> State
    decreases k,
{
    if k == 0 || k > t.new.len() {
        st
    } else {
        let s = additions(t, st, (k - 1) as nat);
        if st.used_new[k - 1] {
            s
        } else {
            report(s, added(t, k - 1))
        }
    }
}

/// Every stage in turn: matches by number, in sequence and out of sequence,
/// splits, merges, and what is left.
pub open spec fn all_stages(t: Table) -> State {
    let s1 = number_matches(t, initial(t), t.old.len());
    let s2 = sequence_matches(t, s1);
    let s3 = greedy_matches(t, s2, t.old.len());
    let s4 = splits(t, s3, t.old.len());
    let s5 = merges(t, s4, t.new.len());
    let s6 = deletions(t, s5, t.old.len());
    additions(t, s6, t.new.len())
}

// ----- The order of the result -----
/// Whether a change concerns a preamble: it is classified so, or one of its
/// articles is a preamble.
pub open spec fn concerns_preamble(t: Table, a: AlignmentView) -> bool {
    ||| a.change_type == ArticleChangeType::Preamble
    ||| exists|k: int|
        0 <= k < a.new_indices.len() && (#[trigger] a.new_indices[k]) < t.new.len()
            && t.new[a.new_indices[k] as int].node_type == NodeType::Preamble
    ||| (a.old_index is Some && a.old_index->0 < t.old.len() && t.old[a.old_index->0 as int].node_type
        == NodeType::Preamble)
}

/// By what a change is ordered.
pub struct SortKey {
    /// Zero for a change that concerns a preamble, else one.
    pub group: nat,
    /// Zero where the number has a value, one where it has none.
    pub unnumbered: nat,
    /// The value of the number.
    pub number: nat,
    /// The line on which the article starts.
    pub line: nat,
    /// Zero where the article is taken from the new text, one where from the
    /// old, two where the change has no article.
    pub side: nat,
}

/// The key of a change: taken from its first new article, else from its old
/// article.
pub open spec fn sort_key(t: Table, a: AlignmentView) -> SortKey {
    let group: nat = if concerns_preamble(t, a) {
        0
    } else {
        1
    };
    if a.new_indices.len() > 0 && a.new_indices[0] < t.new.len() {
        let n = number_value(t.new[a.new_indices[0] as int].number);
        SortKey {
            group,
            unnumbered: if n == 0 {
                1
            } else {
                0
            },
            number: n,
            line: t.new[a.new_indices[0] as int].start_line,
            side: 0,
        }
    } else if a.old_index is Some && a.old_index->0 < t.old.len() {
        let n = number_value(t.old[a.old_index->0 as int].number);
        SortKey {
            group,
            unnumbered: if n == 0 {
                1
            } else {
                0
            },
            number: n,
            line: t.old[a.old_index->0 as int].start_line,
            side: 1,
        }
    } else {
        SortKey { group, unnumbered: 1, number: 0, line: usize::MAX as nat, side: 2 }
    }
}

/// Whether `x` comes before `y` or ranks with it: changes that concern a
/// preamble first; then the changes with a number, by its value; then those
/// without; within each by line, and a new article before an old one.
pub open spec fn key_le(x: SortKey, y: SortKey) -> bool {
    if x.group != y.group {
        x.group < y.group
    } else if x.unnumbered != y.unnumbered {
        x.unnumbered < y.unnumbered
    } else if x.number != y.number {
        x.number < y.number
    } else if x.line != y.line {
        x.line < y.line
    } else {
        x.side <= y.side
    }
}

/// Where `x` goes among the first `k` entries of the ordered sequence `s`:
/// behind every entry that does not come after it.
pub open spec fn insertion_point(t: Table, s: Seq<AlignmentView>, x: AlignmentView, k: nat) -> nat
    decreases k,
{
    if k == 0 || k > s.len() {
        0
    } else if key_le(sort_key(t, s[k - 1]), sort_key(t, x)) {
        k
    } else {
        insertion_point(t, s, x, (k - 1) as nat)
    }
}

/// The first `k` changes of `plan` in order. Changes that rank alike keep
/// the order in which they were decided.
pub open spec fn ordered(t: Table, plan: Seq<AlignmentView>, k: nat) -> Seq<AlignmentView>
    decreases k,
{
    if k == 0 || k > plan.len() {
        Seq::empty()
    } else {
        let head = ordered(t, plan, (k - 1) as nat);
        head.insert(insertion_point(t, head, plan[k - 1], head.len()) as int, plan[k - 1])
    }
}

/// The articles of `list` at the first `k` of `indices`, without the indices
/// that lie outside the list.
pub open spec fn picked_infos(list: Seq<InfoView>, indices: Seq<usize>, k: nat) -> Seq<InfoView>
    decreases k,
{
    if k == 0 || k > indices.len() {
        Seq::empty()
    } else if indices[k - 1] < list.len() {
        picked_infos(list, indices, (k - 1) as nat).push(list[indices[k - 1] as int])
    } else {
        picked_infos(list, indices, (k - 1) as nat)
    }
}

/// The change that a decision stands for: the articles in place of their
/// indices, the labels as texts. A change without new articles has no list
/// of them.
pub open spec fn change_of(t: Table, a: AlignmentView) -> ChangeView {
    ChangeView {
        change_type: a.change_type,
        old_article: match a.old_index {
            Some(i) => if i < t.old.len() {
                Some(t.old[i as int])
            } else {
                None
            },
            None => None,
        },
        new_articles: if a.new_indices.len() == 0 {
            None
        } else {
            Some(picked_infos(t.new, a.new_indices, a.new_indices.len()))
        },
        similarity: a.similarity,
        tags: a.tags.map_values(|tag: Tag| tag_text(tag)),
    }
}

/// The changes that an alignment of the two lists gives, in order.
pub open spec fn plan_spec(t: Table) -> Seq<AlignmentView> {
    let plan = all_stages(t).plan;
    ordered(t, plan, plan.len())
}

} // verus!
