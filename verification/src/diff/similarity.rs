//! The similarity of two article texts: four components and their weighted
//! sum, each in units of `1 / SCALE`.

use vstd::prelude::*;
use vstd::seq_lib::seq_to_set_is_finite;
use vstd::set_lib::lemma_set_intersect_union_lens;
use crate::diff::{
    lemma_ordered_script_symmetric, matched_total, ordered_char_diff, ordered_char_script,
    ratio_from_ops, ratio_of, EditOp,
};
use crate::models::{composite_of, SimilarityScore, SCALE};
use crate::nlp::tokenizer::TokenSet;
use crate::text::{contains, contains_sub, lines_view, strings_view, to_chars};

verus! {

/// The legal terms whose presence weighs in the similarity of two texts:
/// words of obligation, prohibition, penalty and procedure.
pub open spec fn legal_keywords() -> Seq<Seq<char>> {
    seq![
        seq!['应', '当'],
        seq!['不', '得'],
        seq!['禁', '止'],
        seq!['违', '反'],
        seq!['处', '罚'],
        seq!['罚', '款'],
        seq!['吊', '销'],
        seq!['责', '令'],
        seq!['没', '收'],
        seq!['承', '担'],
        seq!['赔', '偿'],
        seq!['登', '记'],
        seq!['备', '案'],
        seq!['审', '批'],
        seq!['许', '可'],
        seq!['撤', '销'],
        seq!['行', '政'],
        seq!['民', '事'],
        seq!['刑', '事'],
        seq!['法', '律'],
        seq!['规', '定'],
        seq!['依', '法'],
        seq!['权', '利'],
        seq!['义', '务'],
    ]
}

fn keyword_list() -> (v: Vec<Vec<char>>)
    ensures
        lines_view(v@) == legal_keywords(),
{
    let v: Vec<Vec<char>> = vec![
        vec!['应', '当'],
        vec!['不', '得'],
        vec!['禁', '止'],
        vec!['违', '反'],
        vec!['处', '罚'],
        vec!['罚', '款'],
        vec!['吊', '销'],
        vec!['责', '令'],
        vec!['没', '收'],
        vec!['承', '担'],
        vec!['赔', '偿'],
        vec!['登', '记'],
        vec!['备', '案'],
        vec!['审', '批'],
        vec!['许', '可'],
        vec!['撤', '销'],
        vec!['行', '政'],
        vec!['民', '事'],
        vec!['刑', '事'],
        vec!['法', '律'],
        vec!['规', '定'],
        vec!['依', '法'],
        vec!['权', '利'],
        vec!['义', '务'],
    ];
    proof {
        let a = lines_view(v@);
        let b = legal_keywords();
        assert(a.len() == b.len());
        assert forall|i: int| 0 <= i < a.len() implies a[i] == b[i] by {
            assert(a[i] =~= b[i]);
        }
        assert(a =~= b);
    }
    v
}

/// `num` over `den` in units of `1 / SCALE`, rounded down.
pub open spec fn fraction(num: nat, den: nat) -> int {
    (num * SCALE) / (den as int)
}

fn fraction_of(num: usize, den: usize) -> (r: u32)
    requires
        0 < den,
        num <= den,
    ensures
        r == fraction(num as nat, den as nat),
        r <= SCALE,
{
    let scaled: u128 = (num as u128) * (SCALE as u128);
    let q: u128 = scaled / (den as u128);
    assert(q <= SCALE) by (nonlinear_arith)
        requires
            q == (num * 1_000_000) / (den as int),
            num <= den,
            den > 0,
    {
    }
    q as u32
}

/// The Jaccard similarity of two finite sets of words: the size of their
/// intersection over the size of their union. Two empty sets are equal, an
/// empty set and a non-empty one have nothing in common.
pub open spec fn jaccard_of(a: Set<Seq<char>>, b: Set<Seq<char>>) -> int {
    if a.len() == 0 && b.len() == 0 {
        SCALE as int
    } else if a.len() == 0 || b.len() == 0 {
        0
    } else {
        fraction(a.intersect(b).len(), a.union(b).len())
    }
}

/// The containment similarity of two finite sets of words: the size of their
/// intersection over the size of the smaller one.
pub open spec fn containment_of(a: Set<Seq<char>>, b: Set<Seq<char>>) -> int {
    let smaller = if a.len() <= b.len() {
        a.len()
    } else {
        b.len()
    };
    if smaller == 0 {
        if a.len() == 0 && b.len() == 0 {
            SCALE as int
        } else {
            0
        }
    } else {
        fraction(a.intersect(b).len(), smaller)
    }
}

/// The number of words that two sets have in common.
pub fn common_count(a: &TokenSet, b: &TokenSet) -> (n: usize)
    requires
        a.wf(),
        b.wf(),
    ensures
        n == a@.intersect(b@).len(),
        n <= a@.len(),
        n <= b@.len(),
{
    let ghost words = strings_view(a.words@);
    let mut n: usize = 0;
    let mut i: usize = 0;
    proof {
        assert(words.take(0).to_set() =~= Set::<Seq<char>>::empty());
        assert(words.take(0).to_set().intersect(b@) =~= Set::<Seq<char>>::empty());
    }
    while i < a.words.len()
        invariant
            i <= a.words@.len(),
            words == strings_view(a.words@),
            words.no_duplicates(),
            n <= i,
            n == words.take(i as int).to_set().intersect(b@).len(),
        decreases a.words.len() - i,
    {
        let ghost head = words.take(i as int);
        let ghost w = words[i as int];
        proof {
            assert(words.take(i + 1) =~= head.push(w));
            head.lemma_push_to_set_commute(w);
            seq_to_set_is_finite(head);
            assert(!head.to_set().contains(w)) by {
                if head.to_set().contains(w) {
                    let k = choose|k: int| 0 <= k < head.len() && head[k] == w;
                    assert(words[k] == words[i as int]);
                }
            }
            assert(w == a.words@[i as int]@);
        }
        if b.contains(a.words[i].as_str()) {
            proof {
                assert(head.to_set().insert(w).intersect(b@) =~= head.to_set().intersect(
                    b@,
                ).insert(w));
            }
            n += 1;
        } else {
            proof {
                assert(head.to_set().insert(w).intersect(b@) =~= head.to_set().intersect(b@));
            }
        }
        i += 1;
    }
    proof {
        assert(words.take(a.words@.len() as int) =~= words);
        seq_to_set_is_finite(words);
        seq_to_set_is_finite(strings_view(b.words@));
        words.unique_seq_to_set();
        strings_view(b.words@).unique_seq_to_set();
        lemma_set_intersect_union_lens(a@, b@);
        vstd::set_lib::lemma_len_subset(a@.intersect(b@), b@);
    }
    n
}

/// The Jaccard similarity of two sets of words.
pub fn calculate_jaccard_similarity(tokens1: &TokenSet, tokens2: &TokenSet) -> (r: u32)
    requires
        tokens1.wf(),
        tokens2.wf(),
    ensures
        r == jaccard_of(tokens1@, tokens2@),
        r <= SCALE,
{
    let n1 = tokens1.len();
    let n2 = tokens2.len();
    if n1 == 0 && n2 == 0 {
        return SCALE;
    }
    if n1 == 0 || n2 == 0 {
        return 0;
    }
    let common = common_count(tokens1, tokens2);
    proof {
        seq_to_set_is_finite(strings_view(tokens1.words@));
        seq_to_set_is_finite(strings_view(tokens2.words@));
        lemma_set_intersect_union_lens(tokens1@, tokens2@);
    }
    let union: u128 = n1 as u128 + n2 as u128 - common as u128;
    let scaled: u128 = (common as u128) * (SCALE as u128);
    let q: u128 = scaled / union;
    assert(q <= SCALE) by (nonlinear_arith)
        requires
            q == (common * 1_000_000) / (union as int),
            common <= union,
            union > 0,
    {
    }
    q as u32
}

/// The containment similarity of two sets of words.
pub fn calculate_containment_similarity(tokens1: &TokenSet, tokens2: &TokenSet) -> (r: u32)
    requires
        tokens1.wf(),
        tokens2.wf(),
    ensures
        r == containment_of(tokens1@, tokens2@),
        r <= SCALE,
{
    let n1 = tokens1.len();
    let n2 = tokens2.len();
    let smaller = if n1 <= n2 {
        n1
    } else {
        n2
    };
    if smaller == 0 {
        return if n1 == 0 && n2 == 0 {
            SCALE
        } else {
            0
        };
    }
    let common = common_count(tokens1, tokens2);
    fraction_of(common, smaller)
}

/// Whether the `i`-th legal keyword occurs in `text`.
pub open spec fn has_keyword(text: Seq<char>, i: int) -> bool {
    contains_sub(text, legal_keywords()[i])
}

/// How many of the first `k` legal keywords occur in both texts.
pub open spec fn keywords_in_both(a: Seq<char>, b: Seq<char>, k: nat) -> nat
    decreases k,
{
    if k == 0 || k > legal_keywords().len() {
        0
    } else {
        keywords_in_both(a, b, (k - 1) as nat) + if has_keyword(a, k - 1) && has_keyword(
            b,
            k - 1,
        ) {
            1nat
        } else {
            0nat
        }
    }
}

/// How many of the first `k` legal keywords occur in one text at least.
pub open spec fn keywords_in_either(a: Seq<char>, b: Seq<char>, k: nat) -> nat
    decreases k,
{
    if k == 0 || k > legal_keywords().len() {
        0
    } else {
        keywords_in_either(a, b, (k - 1) as nat) + if has_keyword(a, k - 1) || has_keyword(
            b,
            k - 1,
        ) {
            1nat
        } else {
            0nat
        }
    }
}

/// The keyword weight of two texts: of the legal keywords that occur in one
/// of them, the share that occurs in both; one half where none occurs.
pub open spec fn keyword_weight_of(a: Seq<char>, b: Seq<char>) -> int {
    let either = keywords_in_either(a, b, legal_keywords().len());
    if either == 0 {
        (SCALE / 2) as int
    } else {
        fraction(keywords_in_both(a, b, legal_keywords().len()), either)
    }
}

fn keyword_weight_chars(a: &Vec<char>, b: &Vec<char>) -> (r: u32)
    ensures
        r == keyword_weight_of(a@, b@),
        r <= SCALE,
{
    let keywords = keyword_list();
    let mut both: usize = 0;
    let mut either: usize = 0;
    let mut i: usize = 0;
    while i < keywords.len()
        invariant
            i <= keywords@.len(),
            lines_view(keywords@) == legal_keywords(),
            both == keywords_in_both(a@, b@, i as nat),
            either == keywords_in_either(a@, b@, i as nat),
            both <= either <= i,
        decreases keywords.len() - i,
    {
        assert(lines_view(keywords@)[i as int] == keywords@[i as int]@);
        let in_a = contains(a, &keywords[i]);
        let in_b = contains(b, &keywords[i]);
        if in_a && in_b {
            both += 1;
        }
        if in_a || in_b {
            either += 1;
        }
        i += 1;
    }
    if either == 0 {
        SCALE / 2
    } else {
        fraction_of(both, either)
    }
}

/// The keyword weight of two texts.
pub fn calculate_legal_keyword_weight(text1: &str, text2: &str) -> (r: u32)
    ensures
        r == keyword_weight_of(text1@, text2@),
        r <= SCALE,
{
    let a = to_chars(text1);
    let b = to_chars(text2);
    keyword_weight_chars(&a, &b)
}

/// The character similarity of two texts: twice the number of characters
/// that the edit script between them leaves equal, over the number of
/// characters of both.
pub open spec fn char_similarity_of(a: Seq<char>, b: Seq<char>, ops: Seq<EditOp>) -> int {
    ratio_of(matched_total(ops), a.len() + b.len())
}

/// The character similarity of two texts.
pub fn calculate_char_similarity(text1: &str, text2: &str) -> (r: u32)
    ensures
        r == char_similarity_of(text1@, text2@, ordered_char_script(text1@, text2@)),
        r <= SCALE,
{
    let a = to_chars(text1);
    let b = to_chars(text2);
    let ops = ordered_char_diff(text1, text2, &a, &b);
    ratio_from_ops(&ops, a.len(), b.len())
}

/// The score with the given components and the given weighted sum.
pub open spec fn score_of(c: int, j: int, t: int, k: int, composite: int) -> SimilarityScore {
    SimilarityScore {
        char_similarity: c as u32,
        jaccard_similarity: j as u32,
        containment_similarity: t as u32,
        keyword_weight: k as u32,
        composite: composite as u32,
    }
}

/// The score of two texts with the sets of their words, where `ops` is the
/// edit script between their characters.
///
/// Equal texts score `SCALE` in every component. An empty text scores zero
/// in the composite and in every component but the keyword weight, which is
/// neutral. Where one text is more than five times as long as the other and
/// the sets of words hardly overlap, the character similarity is half the
/// ratio of the lengths and the containment zero. Otherwise the four
/// components are computed and weighed. The composite of two different texts
/// is the weighted sum, but 99 hundredths at most: only equal texts score
/// `SCALE`.
pub open spec fn score_spec(
    a: Seq<char>,
    b: Seq<char>,
    sa: Set<Seq<char>>,
    sb: Set<Seq<char>>,
    ops: Seq<EditOp>,
) -> SimilarityScore {
    if a == b {
        score_of(SCALE as int, SCALE as int, SCALE as int, SCALE as int, SCALE as int)
    } else if a.len() == 0 || b.len() == 0 {
        score_of(0, 0, 0, (SCALE / 2) as int, 0)
    } else {
        let lo = if a.len() <= b.len() {
            a.len()
        } else {
            b.len()
        };
        let hi = if a.len() <= b.len() {
            b.len()
        } else {
            a.len()
        };
        let j = jaccard_of(sa, sb);
        if 5 * lo < hi && 10 * j < SCALE {
            let c = (lo * SCALE) / ((2 * hi) as int);
            score_of(c, j, 0, (SCALE / 2) as int, composite_of(c, j, 0, (SCALE / 2) as int))
        } else {
            let c = char_similarity_of(a, b, ops);
            let t = containment_of(sa, sb);
            let k = keyword_weight_of(a, b);
            let sum = composite_of(c, j, t, k);
            score_of(
                c,
                j,
                t,
                k,
                if sum >= 990_000 {
                    990_000
                } else {
                    sum
                },
            )
        }
    }
}

/// The score of two texts with the sets of their words: the edit script is
/// the one between the two texts in the order of the dictionary.
pub open spec fn text_score(a: Seq<char>, b: Seq<char>, sa: Set<Seq<char>>, sb: Set<Seq<char>>) -> SimilarityScore {
    score_spec(a, b, sa, sb, ordered_char_script(a, b))
}

/// Whether the score of two different, non-empty texts needs their edit
/// script: the cheap estimate for texts of very different length does not
/// apply.
pub open spec fn needs_edit_script(a: Seq<char>, b: Seq<char>, sa: Set<Seq<char>>, sb: Set<Seq<char>>) -> bool {
    let lo = if a.len() <= b.len() {
        a.len()
    } else {
        b.len()
    };
    let hi = if a.len() <= b.len() {
        b.len()
    } else {
        a.len()
    };
    a != b && a.len() > 0 && b.len() > 0 && !(5 * lo < hi && 10 * jaccard_of(sa, sb) < SCALE)
}

/// The score of two texts whose edit script is known.
pub fn score_with_ops(
    text1: &str,
    text2: &str,
    tokens1: &TokenSet,
    tokens2: &TokenSet,
    ops: &Vec<EditOp>,
) -> (r: SimilarityScore)
    requires
        tokens1.wf(),
        tokens2.wf(),
    ensures
        r == score_spec(text1@, text2@, tokens1@, tokens2@, ops@),
{
    let a = to_chars(text1);
    let b = to_chars(text2);
    match quick_score(&a, &b, tokens1, tokens2) {
        Ok(score) => score,
        Err(j) => full_score(&a, &b, tokens1, tokens2, j, ops),
    }
}

/// The score of two texts where it needs no edit script; else the Jaccard
/// similarity of their sets of words.
fn quick_score(a: &Vec<char>, b: &Vec<char>, tokens1: &TokenSet, tokens2: &TokenSet) -> (r: Result<
    SimilarityScore,
    u32,
>)
    requires
        tokens1.wf(),
        tokens2.wf(),
    ensures
        match r {
            Ok(score) => !needs_edit_script(a@, b@, tokens1@, tokens2@) && forall|
                ops: Seq<EditOp>,
            |
                score == #[trigger] score_spec(a@, b@, tokens1@, tokens2@, ops),
            Err(j) => needs_edit_script(a@, b@, tokens1@, tokens2@) && j == jaccard_of(
                tokens1@,
                tokens2@,
            ),
        },
{
    if crate::text::same_chars(a, b) {
        return Ok(SimilarityScore::new(SCALE, SCALE, SCALE, SCALE));
    }
    if a.len() == 0 || b.len() == 0 {
        return Ok(
            SimilarityScore {
                char_similarity: 0,
                jaccard_similarity: 0,
                containment_similarity: 0,
                keyword_weight: SCALE / 2,
                composite: 0,
            },
        );
    }
    let lo = if a.len() <= b.len() {
        a.len()
    } else {
        b.len()
    };
    let hi = if a.len() <= b.len() {
        b.len()
    } else {
        a.len()
    };
    let j = calculate_jaccard_similarity(tokens1, tokens2);
    if 5 * (lo as u128) < (hi as u128) && 10 * (j as u64) < (SCALE as u64) {
        let c128: u128 = ((lo as u128) * (SCALE as u128)) / (2 * (hi as u128));
        assert(c128 <= SCALE) by (nonlinear_arith)
            requires
                c128 == (lo * 1_000_000) / (2 * hi),
                5 * lo < hi,
                lo >= 0,
        {
        }
        return Ok(SimilarityScore::new(c128 as u32, j, 0, SCALE / 2));
    }
    Err(j)
}

/// The score of two different, non-empty texts from all four components.
fn full_score(
    a: &Vec<char>,
    b: &Vec<char>,
    tokens1: &TokenSet,
    tokens2: &TokenSet,
    j: u32,
    ops: &Vec<EditOp>,
) -> (r: SimilarityScore)
    requires
        tokens1.wf(),
        tokens2.wf(),
        needs_edit_script(a@, b@, tokens1@, tokens2@),
        j == jaccard_of(tokens1@, tokens2@),
    ensures
        r == score_spec(a@, b@, tokens1@, tokens2@, ops@),
{
    let c = ratio_from_ops(ops, a.len(), b.len());
    let t = calculate_containment_similarity(tokens1, tokens2);
    let k = keyword_weight_chars(a, b);
    let sum = SimilarityScore::new(c, j, t, k);
    SimilarityScore {
        char_similarity: c,
        jaccard_similarity: j,
        containment_similarity: t,
        keyword_weight: k,
        composite: if sum.composite >= 990_000 {
            990_000
        } else {
            sum.composite
        },
    }
}

/// The score of two texts with the sets of their words. The edit script
/// between the texts is computed only where the score needs it. The
/// composite is `SCALE` for equal texts and 99 hundredths at most for
/// different ones, and the score is the same whichever text is named first.
pub fn calculate_composite_similarity(
    text1: &str,
    text2: &str,
    tokens1: &TokenSet,
    tokens2: &TokenSet,
) -> (r: SimilarityScore)
    requires
        tokens1.wf(),
        tokens2.wf(),
    ensures
        r == text_score(text1@, text2@, tokens1@, tokens2@),
        text1@ == text2@ ==> r.composite == SCALE,
        text1@ != text2@ ==> r.composite <= 990_000,
{
    proof {
        seq_to_set_is_finite(strings_view(tokens1.words@));
        seq_to_set_is_finite(strings_view(tokens2.words@));
        lemma_components_bounds(
            text1@,
            text2@,
            tokens1@,
            tokens2@,
            ordered_char_script(text1@, text2@),
        );
    }
    let a = to_chars(text1);
    let b = to_chars(text2);
    match quick_score(&a, &b, tokens1, tokens2) {
        Ok(score) => score,
        Err(j) => {
            let ops = ordered_char_diff(text1, text2, &a, &b);
            full_score(&a, &b, tokens1, tokens2, j, &ops)
        },
    }
}

/// A score computed from given edit scripts does not depend on the order of
/// the two texts, provided the scripts in both directions leave the same
/// number of characters equal.
pub proof fn lemma_score_symmetric(
    a: Seq<char>,
    b: Seq<char>,
    sa: Set<Seq<char>>,
    sb: Set<Seq<char>>,
    ops_ab: Seq<EditOp>,
    ops_ba: Seq<EditOp>,
)
    requires
        matched_total(ops_ab) == matched_total(ops_ba),
    ensures
        score_spec(a, b, sa, sb, ops_ab) == score_spec(b, a, sb, sa, ops_ba),
{
    assert(sa.intersect(sb) =~= sb.intersect(sa));
    assert(sa.union(sb) =~= sb.union(sa));
    lemma_keywords_symmetric(a, b, legal_keywords().len());
    assert(a.len() + b.len() == b.len() + a.len());
}

/// The score of two texts does not depend on which of them is named first:
/// all four components and the composite are the same.
pub proof fn lemma_text_score_symmetric(
    a: Seq<char>,
    b: Seq<char>,
    sa: Set<Seq<char>>,
    sb: Set<Seq<char>>,
)
    ensures
        text_score(a, b, sa, sb) == text_score(b, a, sb, sa),
{
    lemma_ordered_script_symmetric(a, b);
    lemma_score_symmetric(a, b, sa, sb, ordered_char_script(a, b), ordered_char_script(b, a));
}

proof fn lemma_keywords_symmetric(a: Seq<char>, b: Seq<char>, k: nat)
    ensures
        keywords_in_both(a, b, k) == keywords_in_both(b, a, k),
        keywords_in_either(a, b, k) == keywords_in_either(b, a, k),
    decreases k,
{
    if k > 0 && k <= legal_keywords().len() {
        lemma_keywords_symmetric(a, b, (k - 1) as nat);
    }
}

proof fn lemma_fraction_bounds(num: nat, den: nat)
    requires
        0 < den,
        num <= den,
    ensures
        0 <= fraction(num, den) <= SCALE,
{
    assert(0 <= ((num as int) * 1_000_000) / (den as int) <= 1_000_000) by (nonlinear_arith)
        requires
            0 < den,
            num <= den,
    {
    }
}

proof fn lemma_keyword_counts(a: Seq<char>, b: Seq<char>, k: nat)
    ensures
        keywords_in_both(a, b, k) <= keywords_in_either(a, b, k),
    decreases k,
{
    if k > 0 && k <= legal_keywords().len() {
        lemma_keyword_counts(a, b, (k - 1) as nat);
    }
}

/// Every component of a score lies between zero and `SCALE`, and the
/// composite of two different texts is 99 hundredths at most.
pub proof fn lemma_components_bounds(
    a: Seq<char>,
    b: Seq<char>,
    sa: Set<Seq<char>>,
    sb: Set<Seq<char>>,
    ops: Seq<EditOp>,
)
    requires
        sa.finite(),
        sb.finite(),
    ensures
        0 <= jaccard_of(sa, sb) <= SCALE,
        0 <= containment_of(sa, sb) <= SCALE,
        0 <= keyword_weight_of(a, b) <= SCALE,
        0 <= char_similarity_of(a, b, ops) <= SCALE,
        0 <= score_spec(a, b, sa, sb, ops).composite <= SCALE,
        a != b ==> score_spec(a, b, sa, sb, ops).composite <= 990_000,
{
    lemma_set_intersect_union_lens(sa, sb);
    vstd::set_lib::lemma_len_subset(sa.intersect(sb), sa);
    vstd::set_lib::lemma_len_subset(sa.intersect(sb), sb);
    if sa.len() > 0 && sb.len() > 0 {
        lemma_fraction_bounds(sa.intersect(sb).len(), sa.union(sb).len());
        let smaller = if sa.len() <= sb.len() {
            sa.len()
        } else {
            sb.len()
        };
        lemma_fraction_bounds(sa.intersect(sb).len(), smaller);
    }
    let n = legal_keywords().len();
    lemma_keyword_counts(a, b, n);
    if keywords_in_either(a, b, n) > 0 {
        lemma_fraction_bounds(keywords_in_both(a, b, n), keywords_in_either(a, b, n));
    }
    let m = matched_total(ops);
    let total = a.len() + b.len();
    if total > 0 && 2 * m < total {
        assert(0 <= ((2 * m) as int * 1_000_000) / (total as int) <= 1_000_000) by (nonlinear_arith)
            requires
                0 < total,
                2 * m < total,
                0 <= m,
        {
        }
    }
    if a != b && a.len() > 0 && b.len() > 0 {
        let lo = if a.len() <= b.len() {
            a.len()
        } else {
            b.len()
        };
        let hi = if a.len() <= b.len() {
            b.len()
        } else {
            a.len()
        };
        let j = jaccard_of(sa, sb);
        if 5 * lo < hi && 10 * j < SCALE {
            let c = (lo * SCALE) / ((2 * hi) as int);
            assert(0 <= ((lo as int) * 1_000_000) / ((2 * hi) as int) <= 100_000) by (nonlinear_arith)
                requires
                    5 * lo < hi,
                    0 <= lo,
            {
            }
            assert(0 <= c <= 100_000);
            assert(0 <= composite_of(c, j, 0, (SCALE / 2) as int) < SCALE);
        } else {
            let c = char_similarity_of(a, b, ops);
            let t = containment_of(sa, sb);
            let k = keyword_weight_of(a, b);
            assert(0 <= composite_of(c, j, t, k) <= SCALE);
        }
    }
}

/// Two equal texts score `SCALE`; two different texts score 99 hundredths at
/// most.
pub proof fn lemma_identity_sentinel(
    a: Seq<char>,
    b: Seq<char>,
    sa: Set<Seq<char>>,
    sb: Set<Seq<char>>,
    ops: Seq<EditOp>,
)
    requires
        sa.finite(),
        sb.finite(),
    ensures
        a == b ==> score_spec(a, b, sa, sb, ops).composite == SCALE,
        a != b ==> score_spec(a, b, sa, sb, ops).composite <= 990_000,
{
    lemma_components_bounds(a, b, sa, sb, ops);
}

} // verus!
