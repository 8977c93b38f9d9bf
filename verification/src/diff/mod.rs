//! Differences between two texts: the edit scripts that the `similar` crate
//! computes, the similarity scorer and the article aligner.

pub mod aligner;
pub mod coverage;
pub mod flatten;
pub mod matrix;
pub mod numerals;
pub mod plan;
pub mod similarity;

use vstd::prelude::*;
use crate::models::{Change, ChangeType, DiffResult, DiffStats, Entity, SCALE};
use crate::nlp::regex_ner::{entities_view, EntityView};
use crate::text::{
    join_lines, joined, lines_of, lines_view, split_lines, string_of, to_chars, trim_end,
    trimmed_end,
};

verus! {

/// One step of an edit script: a run of entries that is equal on both sides,
/// deleted from the old side, inserted on the new side, or replaced.
#[derive(Debug, Clone, Copy, PartialEq, Eq, Structural)]
pub enum EditOp {
    Equal { old_index: usize, new_index: usize, len: usize },
    Delete { old_index: usize, old_len: usize, new_index: usize },
    Insert { old_index: usize, new_index: usize, new_len: usize },
    Replace { old_index: usize, old_len: usize, new_index: usize, new_len: usize },
}

/// The edit script that leads from the characters of `old` to those of `new`.
pub uninterp spec fn char_edit_script(old: Seq<char>, new: Seq<char>) -> Seq<EditOp>;

/// `similar::TextDiff::from_chars` and the operations it captured
/// (`TextDiff::ops`). Assumed: without a deadline the script depends on the
/// two texts alone; it is the one named `char_edit_script`.
#[verifier::external_body]
pub(crate) fn char_diff(old: &str, new: &str) -> (ops: Vec<EditOp>)
    ensures
        ops@ == char_edit_script(old@, new@),
{
    similar::TextDiff::from_chars(old, new).ops().iter().map(|op| match *op {
        similar::DiffOp::Equal { old_index, new_index, len } => EditOp::Equal { old_index, new_index, len },
        similar::DiffOp::Delete { old_index, old_len, new_index } => EditOp::Delete { old_index, old_len, new_index },
        similar::DiffOp::Insert { old_index, new_index, new_len } => EditOp::Insert { old_index, new_index, new_len },
        similar::DiffOp::Replace { old_index, old_len, new_index, new_len } => EditOp::Replace { old_index, old_len, new_index, new_len },
    }).collect()
}

/// Index of the first place at or after `i` where the two texts differ, or
/// where the shorter of them ends.
pub open spec fn first_difference(a: Seq<char>, b: Seq<char>, i: int) -> int
    decreases a.len() - i,
{
    if 0 <= i < a.len() && i < b.len() && a[i] == b[i] {
        first_difference(a, b, i + 1)
    } else {
        i
    }
}

/// Whether `a` stands before `b`, or equals it, in the order of a dictionary
/// over the code points: at the first place where they differ `a` has the
/// lesser character, or `a` ends there.
pub open spec fn stands_first(a: Seq<char>, b: Seq<char>) -> bool {
    let k = first_difference(a, b, 0);
    if k < a.len() && k < b.len() {
        (a[k] as u32) < (b[k] as u32)
    } else {
        a.len() <= b.len()
    }
}

/// The edit script between two texts, whichever is named first: it leads
/// from the one that stands first in the order of the dictionary to the
/// other.
pub open spec fn ordered_char_script(a: Seq<char>, b: Seq<char>) -> Seq<EditOp> {
    if stands_first(a, b) {
        char_edit_script(a, b)
    } else {
        char_edit_script(b, a)
    }
}

proof fn lemma_first_difference(a: Seq<char>, b: Seq<char>, i: int)
    requires
        0 <= i <= a.len(),
        i <= b.len(),
    ensures
        i <= first_difference(a, b, i) <= a.len(),
        first_difference(a, b, i) <= b.len(),
        first_difference(b, a, i) == first_difference(a, b, i),
        forall|j: int| i <= j < first_difference(a, b, i) ==> a[j] == b[j],
        first_difference(a, b, i) < a.len() && first_difference(a, b, i) < b.len() ==> a[first_difference(
            a,
            b,
            i,
        )] != b[first_difference(a, b, i)],
    decreases a.len() - i,
{
    if i < a.len() && i < b.len() && a[i] == b[i] {
        lemma_first_difference(a, b, i + 1);
    }
}

proof fn lemma_code_points_differ(c: char, d: char)
    requires
        c != d,
    ensures
        c as u32 != d as u32,
{
}

/// Of two different texts exactly one stands first, so the edit script taken
/// in that order is the same whichever text is named first.
pub proof fn lemma_ordered_script_symmetric(a: Seq<char>, b: Seq<char>)
    ensures
        ordered_char_script(a, b) == ordered_char_script(b, a),
{
    lemma_first_difference(a, b, 0);
    let k = first_difference(a, b, 0);
    assert(first_difference(b, a, 0) == k);
    if k < a.len() && k < b.len() {
        lemma_code_points_differ(a[k], b[k]);
        assert(stands_first(a, b) != stands_first(b, a));
    } else if a.len() == b.len() {
        assert(a =~= b);
    } else {
        assert(stands_first(a, b) != stands_first(b, a));
    }
}

fn comes_first(a: &Vec<char>, b: &Vec<char>) -> (r: bool)
    ensures
        r == stands_first(a@, b@),
{
    let mut i: usize = 0;
    while i < a.len() && i < b.len() && a[i] == b[i]
        invariant
            i <= a@.len(),
            i <= b@.len(),
            first_difference(a@, b@, 0) == first_difference(a@, b@, i as int),
        decreases a.len() - i,
    {
        i += 1;
    }
    if i < a.len() && i < b.len() {
        (a[i] as u32) < (b[i] as u32)
    } else {
        a.len() <= b.len()
    }
}

/// The edit script between two texts given as strings and as characters,
/// taken from the one that stands first to the other.
pub(crate) fn ordered_char_diff(text1: &str, text2: &str, a: &Vec<char>, b: &Vec<char>) -> (ops: Vec<
    EditOp,
>)
    requires
        a@ == text1@,
        b@ == text2@,
    ensures
        ops@ == ordered_char_script(text1@, text2@),
{
    if comes_first(a, b) {
        char_diff(text1, text2)
    } else {
        char_diff(text2, text1)
    }
}

/// The length of the run if `op` is an equal run, else zero.
pub open spec fn equal_len(op: EditOp) -> nat {
    match op {
        EditOp::Equal { len, .. } => len as nat,
        _ => 0,
    }
}

/// The number of entries that the first `k` steps of `ops` leave equal.
pub open spec fn matched_upto(ops: Seq<EditOp>, k: nat) -> nat
    decreases k,
{
    if k == 0 || k > ops.len() {
        0
    } else {
        matched_upto(ops, (k - 1) as nat) + equal_len(ops[k - 1])
    }
}

/// The number of entries that the edit script leaves equal.
pub open spec fn matched_total(ops: Seq<EditOp>) -> nat {
    matched_upto(ops, ops.len())
}

/// The similarity of two sequences with `total` entries together of which an
/// edit script leaves `matched` equal on each side: twice `matched` over
/// `total`, in units of `1 / SCALE` and not above `SCALE`. Two empty sequences
/// are equal.
pub open spec fn ratio_of(matched: nat, total: nat) -> int {
    if total == 0 || 2 * matched >= total {
        crate::models::SCALE as int
    } else {
        (2 * matched * crate::models::SCALE) / (total as int)
    }
}

/// The similarity of two sequences of `old_len` and `new_len` entries of
/// which `matched` are equal on each side.
pub fn ratio_from_counts(matched: usize, old_len: usize, new_len: usize) -> (r: u32)
    ensures
        r == ratio_of(matched as nat, (old_len + new_len) as nat),
        r <= crate::models::SCALE,
{
    let total: u128 = old_len as u128 + new_len as u128;
    let twice: u128 = 2 * (matched as u128);
    if total == 0 || twice >= total {
        crate::models::SCALE
    } else {
        let q: u128 = (twice * (crate::models::SCALE as u128)) / total;
        assert(q < crate::models::SCALE) by (nonlinear_arith)
            requires
                q == (twice * 1_000_000) / (total as int),
                twice < total,
                total > 0,
        {
        }
        q as u32
    }
}

/// The similarity that an edit script gives two sequences of `old_len` and
/// `new_len` entries.
pub fn ratio_from_ops(ops: &Vec<EditOp>, old_len: usize, new_len: usize) -> (r: u32)
    ensures
        r == ratio_of(matched_total(ops@), (old_len + new_len) as nat),
        r <= crate::models::SCALE,
{
    let total: u128 = old_len as u128 + new_len as u128;
    if total == 0 {
        return crate::models::SCALE;
    }
    let mut acc: u128 = 0;
    let mut i: usize = 0;
    while i < ops.len()
        invariant
            i <= ops@.len(),
            total == old_len + new_len,
            total > 0,
            acc <= total + usize::MAX,
            matched_upto(ops@, i as nat) <= total ==> acc == matched_upto(ops@, i as nat),
            matched_upto(ops@, i as nat) > total ==> acc > total,
        decreases ops.len() - i,
    {
        let len: usize = match ops[i] {
            EditOp::Equal { len, .. } => len,
            _ => 0,
        };
        if acc <= total {
            acc = acc + len as u128;
        }
        i += 1;
    }
    if 2 * acc >= total {
        crate::models::SCALE
    } else {
        let scaled: u128 = 2 * acc * (crate::models::SCALE as u128);
        let q: u128 = scaled / total;
        assert(q < crate::models::SCALE) by (nonlinear_arith)
            requires
                q == (2 * acc * 1_000_000) / (total as int),
                2 * acc < total,
                total > 0,
        {
        }
        q as u32
    }
}

/// The edit script that leads from the words of `old` to those of `new`, and
/// the number of words of each, runs of white space counted as words.
pub uninterp spec fn word_edit_script(old: Seq<char>, new: Seq<char>) -> (Seq<EditOp>, usize, usize);

/// What became of a line.
#[derive(Debug, Clone, Copy, PartialEq, Eq, Structural)]
pub enum LineTag {
    Equal,
    Delete,
    Insert,
}

/// The lines of both texts, each with its line ending, in the order and with
/// the tags that the edit script between the lines gives them, and the
/// number of lines of each text.
pub uninterp spec fn line_change_script(old: Seq<char>, new: Seq<char>) -> (
    Seq<(LineTag, Seq<char>)>,
    usize,
    usize,
);

/// The lines held by a vector of tagged lines.
pub open spec fn tagged_view(v: Seq<(LineTag, String)>) -> Seq<(LineTag, Seq<char>)> {
    v.map_values(|c: (LineTag, String)| (c.0, c.1@))
}

/// `similar::TextDiff::from_words` with its operations and the numbers of
/// words. Assumed: without a deadline they depend on the two texts alone;
/// they are the ones named `word_edit_script`.
#[verifier::external_body]
pub(crate) fn word_diff(old: &str, new: &str) -> (r: (Vec<EditOp>, usize, usize))
    ensures
        (r.0@, r.1, r.2) == word_edit_script(old@, new@),
{
    let diff = similar::TextDiff::from_words(old, new);
    (diff.ops().iter().map(|op| match *op {
        similar::DiffOp::Equal { old_index, new_index, len } => EditOp::Equal { old_index, new_index, len },
        similar::DiffOp::Delete { old_index, old_len, new_index } => EditOp::Delete { old_index, old_len, new_index },
        similar::DiffOp::Insert { old_index, new_index, new_len } => EditOp::Insert { old_index, new_index, new_len },
        similar::DiffOp::Replace { old_index, old_len, new_index, new_len } => EditOp::Replace { old_index, old_len, new_index, new_len },
    }).collect(), diff.old_slices().len(), diff.new_slices().len())
}

/// `similar::TextDiff::from_lines` with the changes that
/// `TextDiff::iter_all_changes` yields, each as its tag and its line, and the
/// numbers of lines (`old_slices`, `new_slices`). Assumed: without a deadline
/// they depend on the two texts alone; they are the ones named
/// `line_change_script`.
#[verifier::external_body]
pub(crate) fn line_changes(old: &str, new: &str) -> (r: (Vec<(LineTag, String)>, usize, usize))
    ensures
        (tagged_view(r.0@), r.1, r.2) == line_change_script(old@, new@),
{
    let diff = similar::TextDiff::from_lines(old, new);
    let changes = diff.iter_all_changes().map(|c| (match c.tag() {
        similar::ChangeTag::Equal => LineTag::Equal,
        similar::ChangeTag::Delete => LineTag::Delete,
        similar::ChangeTag::Insert => LineTag::Insert,
    }, c.value().to_string())).collect();
    (changes, diff.old_slices().len(), diff.new_slices().len())
}

/// The mathematical value of a [`Change`].
pub struct LineChangeView {
    pub change_type: ChangeType,
    pub old_line: Option<usize>,
    pub new_line: Option<usize>,
    pub old_content: Option<Seq<char>>,
    pub new_content: Option<Seq<char>>,
    pub entities: Option<Seq<EntityView>>,
}

impl View for Change {
    type V = LineChangeView;

    open spec fn view(&self) -> LineChangeView {
        LineChangeView {
            change_type: self.change_type,
            old_line: self.old_line,
            new_line: self.new_line,
            old_content: crate::models::opt_string_view(self.old_content),
            new_content: crate::models::opt_string_view(self.new_content),
            entities: match self.entities {
                Some(v) => Some(entities_view(v@)),
                None => None,
            },
        }
    }
}

/// The values of a sequence of line changes.
pub open spec fn line_changes_view(s: Seq<Change>) -> Seq<LineChangeView> {
    s.map_values(|c: Change| c@)
}

/// A copy of a line change.
pub fn copy_change(c: &Change) -> (r: Change)
    ensures
        r@ == c@,
{
    let entities = match &c.entities {
        Some(v) => {
            let mut list: Vec<Entity> = Vec::new();
            let mut i: usize = 0;
            while i < v.len()
                invariant
                    i <= v@.len(),
                    list@.len() == i,
                    forall|k: int| 0 <= k < i ==> (#[trigger] list@[k])@ == v@[k]@,
                decreases v.len() - i,
            {
                list.push(crate::nlp::regex_ner::copy_entity(&v[i]));
                i += 1;
            }
            assert(entities_view(list@) =~= entities_view(v@));
            Some(list)
        },
        None => None,
    };
    Change {
        change_type: c.change_type,
        old_line: c.old_line,
        new_line: c.new_line,
        old_content: crate::models::clone_opt_string(&c.old_content),
        new_content: crate::models::clone_opt_string(&c.new_content),
        entities,
    }
}

/// How many of the first `k` tagged lines stand in the old text.
pub open spec fn old_lines_before(script: Seq<(LineTag, Seq<char>)>, k: nat) -> nat
    decreases k,
{
    if k == 0 || k > script.len() {
        0
    } else {
        old_lines_before(script, (k - 1) as nat) + if script[k - 1].0 == LineTag::Insert {
            0nat
        } else {
            1nat
        }
    }
}

/// How many of the first `k` tagged lines stand in the new text.
pub open spec fn new_lines_before(script: Seq<(LineTag, Seq<char>)>, k: nat) -> nat
    decreases k,
{
    if k == 0 || k > script.len() {
        0
    } else {
        new_lines_before(script, (k - 1) as nat) + if script[k - 1].0 == LineTag::Delete {
            0nat
        } else {
            1nat
        }
    }
}

/// The change that the `k`-th tagged line stands for: an inserted line is
/// added, a deleted line deleted, an equal line unchanged; each with its line
/// number in the text or texts in which it stands, counted from one.
pub open spec fn raw_change(script: Seq<(LineTag, Seq<char>)>, k: int) -> LineChangeView {
    let old_no = (old_lines_before(script, k as nat) + 1) as usize;
    let new_no = (new_lines_before(script, k as nat) + 1) as usize;
    match script[k].0 {
        LineTag::Insert => LineChangeView {
            change_type: ChangeType::Add,
            old_line: None,
            new_line: Some(new_no),
            old_content: None,
            new_content: Some(script[k].1),
            entities: None,
        },
        LineTag::Delete => LineChangeView {
            change_type: ChangeType::Delete,
            old_line: Some(old_no),
            new_line: None,
            old_content: Some(script[k].1),
            new_content: None,
            entities: None,
        },
        LineTag::Equal => LineChangeView {
            change_type: ChangeType::Unchanged,
            old_line: Some(old_no),
            new_line: Some(new_no),
            old_content: Some(script[k].1),
            new_content: Some(script[k].1),
            entities: None,
        },
    }
}

/// The changes that the tagged lines stand for.
pub open spec fn raw_changes(script: Seq<(LineTag, Seq<char>)>) -> Seq<LineChangeView> {
    Seq::new(script.len(), |k: int| raw_change(script, k))
}

/// The first index at or after `i` whose change is not of the given kind.
pub open spec fn kind_run_end(s: Seq<LineChangeView>, i: int, kind: ChangeType) -> int
    decreases s.len() - i,
{
    if 0 <= i < s.len() && s[i].change_type == kind {
        kind_run_end(s, i + 1, kind)
    } else {
        i
    }
}

/// A deleted and an added line as one modified line.
pub open spec fn modified(d: LineChangeView, a: LineChangeView) -> LineChangeView {
    LineChangeView {
        change_type: ChangeType::Modify,
        old_line: d.old_line,
        new_line: a.new_line,
        old_content: d.old_content,
        new_content: a.new_content,
        entities: None,
    }
}

/// The first `k` changes that a run of deletions `s[i..d]` and the run of
/// additions `s[d..a]` behind it merge to: a deletion and an addition make a
/// modification, pair by pair; what is left of the longer run stays as it is.
pub open spec fn paired(s: Seq<LineChangeView>, i: int, d: int, a: int, k: nat) -> Seq<
    LineChangeView,
>
    decreases k,
{
    if k == 0 {
        Seq::empty()
    } else {
        let head = paired(s, i, d, a, (k - 1) as nat);
        let j = k - 1;
        if i + j < d && d + j < a {
            head.push(modified(s[i + j], s[d + j]))
        } else if i + j < d {
            head.push(s[i + j])
        } else if d + j < a {
            head.push(s[d + j])
        } else {
            head
        }
    }
}

/// The larger of two numbers.
pub open spec fn larger(x: int, y: int) -> int {
    if x >= y {
        x
    } else {
        y
    }
}

/// The changes from index `i` on with adjacent deletions and additions
/// merged into modifications.
pub open spec fn merged_from(s: Seq<LineChangeView>, i: int) -> Seq<LineChangeView>
    decreases s.len() - i,
{
    if i < 0 || i >= s.len() {
        Seq::empty()
    } else if s[i].change_type == ChangeType::Unchanged || s[i].change_type == ChangeType::Modify {
        seq![s[i]] + merged_from(s, i + 1)
    } else {
        let d = kind_run_end(s, i, ChangeType::Delete);
        let a = kind_run_end(s, d, ChangeType::Add);
        if i < a <= s.len() {
            paired(s, i, d, a, larger(d - i, a - d) as nat) + merged_from(s, a)
        } else {
            Seq::empty()
        }
    }
}

proof fn lemma_kind_run_end(s: Seq<LineChangeView>, i: int, kind: ChangeType)
    requires
        0 <= i <= s.len(),
    ensures
        i <= kind_run_end(s, i, kind) <= s.len(),
        i < s.len() && s[i].change_type == kind ==> i < kind_run_end(s, i, kind),
    decreases s.len() - i,
{
    if i < s.len() && s[i].change_type == kind {
        lemma_kind_run_end(s, i + 1, kind);
    }
}

fn find_run_end(changes: &Vec<Change>, from: usize, kind: ChangeType) -> (r: usize)
    requires
        from <= changes@.len(),
    ensures
        r == kind_run_end(line_changes_view(changes@), from as int, kind),
        from <= r <= changes@.len(),
{
    let mut i: usize = from;
    while i < changes.len() && changes[i].change_type == kind
        invariant
            from <= i <= changes@.len(),
            kind_run_end(line_changes_view(changes@), from as int, kind) == kind_run_end(
                line_changes_view(changes@),
                i as int,
                kind,
            ),
        decreases changes.len() - i,
    {
        assert(line_changes_view(changes@)[i as int] == changes@[i as int]@);
        i += 1;
    }
    proof {
        if i < changes@.len() {
            assert(line_changes_view(changes@)[i as int] == changes@[i as int]@);
        }
    }
    i
}

/// Merges every run of deleted lines that is followed by a run of added
/// lines into modified lines, pair by pair. Unchanged and modified lines stay
/// as they are.
pub fn merge_adjacent_changes(changes: Vec<Change>) -> (merged: Vec<Change>)
    ensures
        line_changes_view(merged@) == merged_from(line_changes_view(changes@), 0),
{
    let ghost s = line_changes_view(changes@);
    let mut merged: Vec<Change> = Vec::new();
    let mut i: usize = 0;
    assert(line_changes_view(merged@) + merged_from(s, 0) =~= merged_from(s, 0));
    while i < changes.len()
        invariant
            i <= changes@.len(),
            s == line_changes_view(changes@),
            line_changes_view(merged@) + merged_from(s, i as int) == merged_from(s, 0),
        decreases changes.len() - i,
    {
        assert(s[i as int] == changes@[i as int]@);
        let ghost before = line_changes_view(merged@);
        if changes[i].change_type == ChangeType::Unchanged || changes[i].change_type
            == ChangeType::Modify {
            merged.push(copy_change(&changes[i]));
            assert(line_changes_view(merged@) =~= before.push(s[i as int]));
            assert(before + (seq![s[i as int]] + merged_from(s, i + 1)) =~= before.push(
                s[i as int],
            ) + merged_from(s, i + 1));
            i += 1;
        } else {
            let d = find_run_end(&changes, i, ChangeType::Delete);
            let a = find_run_end(&changes, d, ChangeType::Add);
            proof {
                lemma_kind_run_end(s, i as int, ChangeType::Delete);
                lemma_kind_run_end(s, d as int, ChangeType::Add);
                lemma_kind_run_end(s, i as int, ChangeType::Add);
            }
            assert(i < a);
            let pairs: usize = if d - i >= a - d {
                d - i
            } else {
                a - d
            };
            let mut j: usize = 0;
            assert(line_changes_view(merged@) =~= before + paired(s, i as int, d as int, a as int, 0));
            while j < pairs
                invariant
                    j <= pairs,
                    i <= d <= a <= changes@.len(),
                    pairs == larger(d - i, a - d),
                    s == line_changes_view(changes@),
                    line_changes_view(merged@) == before + paired(
                        s,
                        i as int,
                        d as int,
                        a as int,
                        j as nat,
                    ),
                decreases pairs - j,
            {
                let ghost sofar = line_changes_view(merged@);
                let ghost head = paired(s, i as int, d as int, a as int, j as nat);
                if j < d - i && j < a - d {
                    let del = &changes[i + j];
                    let add = &changes[d + j];
                    assert(s[i + j] == del@);
                    assert(s[d + j] == add@);
                    let c = Change {
                        change_type: ChangeType::Modify,
                        old_line: del.old_line,
                        new_line: add.new_line,
                        old_content: crate::models::clone_opt_string(&del.old_content),
                        new_content: crate::models::clone_opt_string(&add.new_content),
                        entities: None,
                    };
                    merged.push(c);
                    assert(line_changes_view(merged@) =~= sofar.push(modified(s[i + j], s[d + j])));
                    assert(before + head.push(modified(s[i + j], s[d + j])) =~= (before
                        + head).push(modified(s[i + j], s[d + j])));
                } else if j < d - i {
                    assert(s[i + j] == changes@[i + j]@);
                    merged.push(copy_change(&changes[i + j]));
                    assert(line_changes_view(merged@) =~= sofar.push(s[i + j]));
                    assert(before + head.push(s[i + j]) =~= (before + head).push(s[i + j]));
                } else {
                    assert(s[d + j] == changes@[d + j]@);
                    merged.push(copy_change(&changes[d + j]));
                    assert(line_changes_view(merged@) =~= sofar.push(s[d + j]));
                    assert(before + head.push(s[d + j]) =~= (before + head).push(s[d + j]));
                }
                j += 1;
            }
            assert(before + (paired(s, i as int, d as int, a as int, pairs as nat) + merged_from(
                s,
                a as int,
            )) =~= (before + paired(s, i as int, d as int, a as int, pairs as nat)) + merged_from(
                s,
                a as int,
            ));
            i = a;
        }
    }
    assert(line_changes_view(merged@) + merged_from(s, i as int) =~= line_changes_view(merged@));
    merged
}

/// How many of the first `k` changes are of the given kind.
pub open spec fn count_kind(s: Seq<LineChangeView>, kind: ChangeType, k: nat) -> nat
    decreases k,
{
    if k == 0 || k > s.len() {
        0
    } else {
        count_kind(s, kind, (k - 1) as nat) + if s[k - 1].change_type == kind {
            1nat
        } else {
            0nat
        }
    }
}

fn count_changes(changes: &Vec<Change>, kind: ChangeType) -> (n: usize)
    ensures
        n == count_kind(line_changes_view(changes@), kind, changes@.len()),
{
    let mut n: usize = 0;
    let mut i: usize = 0;
    while i < changes.len()
        invariant
            i <= changes@.len(),
            n <= i,
            n == count_kind(line_changes_view(changes@), kind, i as nat),
        decreases changes.len() - i,
    {
        assert(line_changes_view(changes@)[i as int] == changes@[i as int]@);
        if changes[i].change_type == kind {
            n += 1;
        }
        i += 1;
    }
    n
}

/// `text` with trailing white space removed from every line, the lines
/// joined by line feeds.
pub open spec fn without_trailing_spaces(text: Seq<char>) -> Seq<char> {
    joined(lines_of(text).map_values(|l: Seq<char>| trimmed_end(l)))
}

fn strip_lines(text: &str) -> (r: String)
    ensures
        r@ == without_trailing_spaces(text@),
{
    let lines = split_lines(&to_chars(text));
    let mut stripped: Vec<Vec<char>> = Vec::new();
    let mut i: usize = 0;
    while i < lines.len()
        invariant
            i <= lines@.len(),
            stripped@.len() == i,
            forall|k: int| 0 <= k < i ==> (#[trigger] stripped@[k])@ == trimmed_end(lines@[k]@),
        decreases lines.len() - i,
    {
        stripped.push(trim_end(&lines[i]));
        i += 1;
    }
    assert(lines_view(stripped@) =~= lines_view(lines@).map_values(|l: Seq<char>| trimmed_end(l)));
    string_of(&join_lines(&stripped))
}

/// The changes that tagged lines stand for, each with its line numbers.
pub fn raw_changes_of(script: &Vec<(LineTag, String)>) -> (changes: Vec<Change>)
    ensures
        line_changes_view(changes@) == raw_changes(tagged_view(script@)),
{
    let ghost sv = tagged_view(script@);
    let mut changes: Vec<Change> = Vec::new();
    let mut old_seen: usize = 0;
    let mut new_seen: usize = 0;
    let mut k: usize = 0;
    while k < script.len()
        invariant
            k <= script@.len(),
            sv == tagged_view(script@),
            old_seen == old_lines_before(sv, k as nat),
            new_seen == new_lines_before(sv, k as nat),
            old_seen <= k,
            new_seen <= k,
            changes@.len() == k,
            forall|x: int| 0 <= x < k ==> (#[trigger] changes@[x])@ == raw_change(sv, x),
        decreases script.len() - k,
    {
        assert(sv[k as int] == (script@[k as int].0, script@[k as int].1@));
        let tag = script[k].0;
        let value = script[k].1.clone();
        let c = match tag {
            LineTag::Insert => Change {
                change_type: ChangeType::Add,
                old_line: None,
                new_line: Some(new_seen + 1),
                old_content: None,
                new_content: Some(value),
                entities: None,
            },
            LineTag::Delete => Change {
                change_type: ChangeType::Delete,
                old_line: Some(old_seen + 1),
                new_line: None,
                old_content: Some(value),
                new_content: None,
                entities: None,
            },
            LineTag::Equal => Change {
                change_type: ChangeType::Unchanged,
                old_line: Some(old_seen + 1),
                new_line: Some(new_seen + 1),
                old_content: Some(value.clone()),
                new_content: Some(value),
                entities: None,
            },
        };
        changes.push(c);
        if tag != LineTag::Insert {
            old_seen += 1;
        }
        if tag != LineTag::Delete {
            new_seen += 1;
        }
        k += 1;
    }
    assert(line_changes_view(changes@) =~= raw_changes(sv));
    changes
}

/// Compares two texts line by line, trailing white space aside. The result
/// holds the changes with adjacent deletions and additions merged into
/// modifications, the similarity of the lines (twice the unchanged lines over
/// the lines of both texts), the entities handed in, and the counts: the
/// lines added and deleted before the merge, the lines modified and unchanged
/// after it. It holds no article changes.
pub fn compare_texts(old_text: &str, new_text: &str, entities: Vec<Entity>) -> (r: DiffResult)
    ensures
        ({
            let old = without_trailing_spaces(old_text@);
            let new = without_trailing_spaces(new_text@);
            let script = line_change_script(old, new);
            let raw = raw_changes(script.0);
            let merged = merged_from(raw, 0);
            &&& line_changes_view(r.changes@) == merged
            &&& r.similarity == ratio_of(
                count_kind(raw, ChangeType::Unchanged, raw.len()),
                (script.1 + script.2) as nat,
            )
            &&& r.article_changes is None
            &&& r.entities == entities
            &&& r.stats.additions == count_kind(raw, ChangeType::Add, raw.len())
            &&& r.stats.deletions == count_kind(raw, ChangeType::Delete, raw.len())
            &&& r.stats.unchanged == count_kind(raw, ChangeType::Unchanged, raw.len())
            &&& r.stats.modifications == count_kind(merged, ChangeType::Modify, merged.len())
        }),
{
    let old_normalized = strip_lines(old_text);
    let new_normalized = strip_lines(new_text);
    let (script, old_len, new_len) = line_changes(
        old_normalized.as_str(),
        new_normalized.as_str(),
    );
    let changes = raw_changes_of(&script);
    let additions = count_changes(&changes, ChangeType::Add);
    let deletions = count_changes(&changes, ChangeType::Delete);
    let unchanged = count_changes(&changes, ChangeType::Unchanged);
    let merged_changes = merge_adjacent_changes(changes);
    let modifications = count_changes(&merged_changes, ChangeType::Modify);
    let similarity = ratio_from_counts(unchanged, old_len, new_len);
    DiffResult {
        similarity,
        changes: merged_changes,
        article_changes: None,
        entities,
        stats: DiffStats { additions, deletions, modifications, unchanged },
    }
}

/// The similarity of two texts word by word.
pub fn calculate_similarity(old_text: &str, new_text: &str) -> (r: u32)
    ensures
        r == ratio_of(
            matched_total(word_edit_script(old_text@, new_text@).0),
            (word_edit_script(old_text@, new_text@).1 + word_edit_script(old_text@, new_text@).2) as nat,
        ),
        r <= SCALE,
{
    let (ops, old_len, new_len) = word_diff(old_text, new_text);
    ratio_from_ops(&ops, old_len, new_len)
}

} // verus!
