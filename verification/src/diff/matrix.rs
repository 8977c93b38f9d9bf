//! The similarity of every old article to every new one.

use vstd::prelude::*;
use crate::diff::similarity::{calculate_composite_similarity, text_score};
use crate::models::{infos_view, ArticleInfo, InfoView, SimilarityScore};
use crate::nlp::tokenizer::{jieba_cut, word_set_of, TokenSet, Tokenizer};
use crate::text::{same_str, strings_view};

verus! {

/// How many of the first `k` labels of `labels` equal `label`.
pub open spec fn label_matches(label: Seq<char>, labels: Seq<Seq<char>>, k: nat) -> nat
    decreases k,
{
    if k == 0 || k > labels.len() {
        0
    } else {
        label_matches(label, labels, (k - 1) as nat) + if labels[k - 1] == label {
            1nat
        } else {
            0nat
        }
    }
}

/// How many pairs of equal labels the first `k` labels of `a` make with the
/// labels of `b`.
pub open spec fn shared_labels(a: Seq<Seq<char>>, b: Seq<Seq<char>>, k: nat) -> nat
    decreases k,
{
    if k == 0 || k > a.len() {
        0
    } else {
        shared_labels(a, b, (k - 1) as nat) + label_matches(a[k - 1], b, b.len())
    }
}

/// A composite similarity raised for shared ancestors: five hundredths for
/// every pair of equal labels, up to 99 hundredths. Without a shared
/// ancestor the similarity stays as it is.
pub open spec fn boosted(composite: u32, shared: nat) -> u32 {
    if shared == 0 {
        composite
    } else if composite + 50_000 * shared >= 990_000 {
        990_000
    } else {
        (composite + 50_000 * shared) as u32
    }
}

/// The set of the words of a text.
pub open spec fn words_of(text: Seq<char>) -> Set<Seq<char>> {
    word_set_of(jieba_cut(text))
}

/// The score of an old and a new article: that of their contents, with the
/// composite raised where the two share ancestors.
pub open spec fn cell_score(old: InfoView, new: InfoView) -> SimilarityScore {
    let s = text_score(old.content, new.content, words_of(old.content), words_of(new.content));
    SimilarityScore {
        composite: boosted(s.composite, shared_labels(old.parents, new.parents, old.parents.len())),
        ..s
    }
}

/// The composite similarities of all pairs, a row for every old article.
pub open spec fn score_matrix(old: Seq<InfoView>, new: Seq<InfoView>) -> Seq<Seq<u32>> {
    Seq::new(
        old.len(),
        |i: int| Seq::new(new.len(), |j: int| cell_score(old[i], new[j]).composite),
    )
}

/// The composite similarities held by a matrix of scores.
pub open spec fn composites(matrix: Seq<Vec<SimilarityScore>>) -> Seq<Seq<u32>> {
    Seq::new(
        matrix.len(),
        |i: int| Seq::new(matrix[i]@.len(), |j: int| matrix[i]@[j].composite),
    )
}

/// The number of pairs of equal labels, counted up to `limit`.
fn count_shared(a: &Vec<String>, b: &Vec<String>, limit: usize) -> (n: usize)
    ensures
        n <= limit,
        shared_labels(strings_view(a@), strings_view(b@), a@.len()) <= limit ==> n == shared_labels(
            strings_view(a@),
            strings_view(b@),
            a@.len(),
        ),
        shared_labels(strings_view(a@), strings_view(b@), a@.len()) > limit ==> n == limit,
{
    let ghost la = strings_view(a@);
    let ghost lb = strings_view(b@);
    let mut n: usize = 0;
    let mut i: usize = 0;
    while i < a.len()
        invariant
            i <= a@.len(),
            la == strings_view(a@),
            lb == strings_view(b@),
            n <= limit,
            shared_labels(la, lb, i as nat) <= limit ==> n == shared_labels(la, lb, i as nat),
            shared_labels(la, lb, i as nat) > limit ==> n == limit,
        decreases a.len() - i,
    {
        let ghost base = shared_labels(la, lb, i as nat);
        let mut j: usize = 0;
        while j < b.len()
            invariant
                j <= b@.len(),
                i < a@.len(),
                la == strings_view(a@),
                lb == strings_view(b@),
                n <= limit,
                base + label_matches(la[i as int], lb, j as nat) <= limit ==> n == base
                    + label_matches(la[i as int], lb, j as nat),
                base + label_matches(la[i as int], lb, j as nat) > limit ==> n == limit,
            decreases b.len() - j,
        {
            assert(la[i as int] == a@[i as int]@);
            assert(lb[j as int] == b@[j as int]@);
            if same_str(a[i].as_str(), b[j].as_str()) {
                if n < limit {
                    n += 1;
                }
            }
            j += 1;
        }
        i += 1;
    }
    n
}

/// The score of an old and a new article whose sets of words are known.
fn score_cell(old: &ArticleInfo, new: &ArticleInfo, old_words: &TokenSet, new_words: &TokenSet) -> (r:
    SimilarityScore)
    requires
        old_words.wf(),
        new_words.wf(),
        old_words@ == words_of(old@.content),
        new_words@ == words_of(new@.content),
    ensures
        r == cell_score(old@, new@),
{
    let s = calculate_composite_similarity(
        old.content.as_str(),
        new.content.as_str(),
        old_words,
        new_words,
    );
    let shared = count_shared(&old.parents, &new.parents, 20);
    if shared == 0 {
        s
    } else {
        let raised: u64 = s.composite as u64 + 50_000 * (shared as u64);
        SimilarityScore {
            composite: if raised >= 990_000 {
                990_000
            } else {
                raised as u32
            },
            ..s
        }
    }
}

/// The sets of words of the contents of the articles.
fn word_sets(tokenizer: &Tokenizer, articles: &Vec<ArticleInfo>) -> (sets: Vec<TokenSet>)
    ensures
        sets@.len() == articles@.len(),
        forall|i: int|
            0 <= i < sets@.len() ==> (#[trigger] sets@[i]).wf() && sets@[i]@ == words_of(
                articles@[i]@.content,
            ),
{
    let mut sets: Vec<TokenSet> = Vec::new();
    let mut i: usize = 0;
    while i < articles.len()
        invariant
            i <= articles@.len(),
            sets@.len() == i,
            forall|k: int|
                0 <= k < i ==> (#[trigger] sets@[k]).wf() && sets@[k]@ == words_of(
                    articles@[k]@.content,
                ),
        decreases articles.len() - i,
    {
        let set = tokenizer.word_set(articles[i].content.as_str());
        sets.push(set);
        i += 1;
    }
    sets
}

/// The scores of all pairs of an old and a new article, a row for every old
/// article. The words of every article are cut once.
pub fn build_similarity_matrix(old_articles: &Vec<ArticleInfo>, new_articles: &Vec<ArticleInfo>) -> (matrix:
    Vec<Vec<SimilarityScore>>)
    ensures
        matrix@.len() == old_articles@.len(),
        forall|i: int|
            0 <= i < matrix@.len() ==> (#[trigger] matrix@[i])@.len() == new_articles@.len(),
        forall|i: int, j: int|
            0 <= i < old_articles@.len() && 0 <= j < new_articles@.len() ==> #[trigger] matrix@[i]@[j]
                == cell_score(old_articles@[i]@, new_articles@[j]@),
        composites(matrix@) == score_matrix(infos_view(old_articles@), infos_view(new_articles@)),
{
    let tokenizer = Tokenizer::new();
    let old_words = word_sets(&tokenizer, old_articles);
    let new_words = word_sets(&tokenizer, new_articles);
    let mut matrix: Vec<Vec<SimilarityScore>> = Vec::new();
    let mut i: usize = 0;
    while i < old_articles.len()
        invariant
            i <= old_articles@.len(),
            matrix@.len() == i,
            old_words@.len() == old_articles@.len(),
            new_words@.len() == new_articles@.len(),
            forall|k: int|
                0 <= k < old_words@.len() ==> (#[trigger] old_words@[k]).wf() && old_words@[k]@
                    == words_of(old_articles@[k]@.content),
            forall|k: int|
                0 <= k < new_words@.len() ==> (#[trigger] new_words@[k]).wf() && new_words@[k]@
                    == words_of(new_articles@[k]@.content),
            forall|a: int| 0 <= a < i ==> (#[trigger] matrix@[a])@.len() == new_articles@.len(),
            forall|a: int, b: int|
                0 <= a < i && 0 <= b < new_articles@.len() ==> #[trigger] matrix@[a]@[b]
                    == cell_score(old_articles@[a]@, new_articles@[b]@),
        decreases old_articles.len() - i,
    {
        let mut row: Vec<SimilarityScore> = Vec::new();
        let mut j: usize = 0;
        while j < new_articles.len()
            invariant
                j <= new_articles@.len(),
                i < old_articles@.len(),
                row@.len() == j,
                old_words@.len() == old_articles@.len(),
                new_words@.len() == new_articles@.len(),
                forall|k: int|
                    0 <= k < old_words@.len() ==> (#[trigger] old_words@[k]).wf() && old_words@[k]@
                        == words_of(old_articles@[k]@.content),
                forall|k: int|
                    0 <= k < new_words@.len() ==> (#[trigger] new_words@[k]).wf() && new_words@[k]@
                        == words_of(new_articles@[k]@.content),
                forall|b: int|
                    0 <= b < j ==> #[trigger] row@[b] == cell_score(
                        old_articles@[i as int]@,
                        new_articles@[b]@,
                    ),
            decreases new_articles.len() - j,
        {
            let cell = score_cell(&old_articles[i], &new_articles[j], &old_words[i], &new_words[j]);
            row.push(cell);
            j += 1;
        }
        matrix.push(row);
        i += 1;
    }
    proof {
        let a = composites(matrix@);
        let b = score_matrix(infos_view(old_articles@), infos_view(new_articles@));
        assert(a.len() == b.len());
        assert forall|x: int| 0 <= x < a.len() implies a[x] == b[x] by {
            assert(matrix@[x]@.len() == new_articles@.len());
            assert forall|y: int| 0 <= y < a[x].len() implies a[x][y] == b[x][y] by {
                assert(matrix@[x]@[y] == cell_score(old_articles@[x]@, new_articles@[y]@));
            }
            assert(a[x] =~= b[x]);
        }
        assert(a =~= b);
    }
    matrix
}

} // verus!
