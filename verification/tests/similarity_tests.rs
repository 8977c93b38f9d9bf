use law_compare::diff::similarity::{
    calculate_char_similarity, calculate_composite_similarity, calculate_containment_similarity,
    calculate_jaccard_similarity, calculate_legal_keyword_weight,
};
use law_compare::models::{SimilarityScore, SCALE};
use law_compare::nlp::tokenizer::TokenSet;

fn unit(score: u32) -> f32 {
    score as f32 / SCALE as f32
}

fn set_of(words: &[&str]) -> TokenSet {
    TokenSet::from_words(words.iter().map(|w| w.to_string()).collect())
}

#[test]
fn test_char_similarity_identical() {
    let text = "第一条 测试内容";
    assert_eq!(unit(calculate_char_similarity(text, text)), 1.0);
}

#[test]
fn test_char_similarity_different() {
    let text1 = "完全不同的内容ABC";
    let text2 = "XYZ其他文字";
    let score = unit(calculate_char_similarity(text1, text2));
    assert!(score < 0.3);
}

#[test]
fn test_char_similarity_partial() {
    let text1 = "第一条 应当建立管理制度";
    let text2 = "第一条 应当建立安全管理制度";
    let score = unit(calculate_char_similarity(text1, text2));
    assert!(score > 0.6);
    assert!(score < 1.0);
}

#[test]
fn char_similarity_is_twice_the_matches_over_both_lengths() {
    // four of the five characters of each text stay: 8 / 10
    assert_eq!(calculate_char_similarity("内容 B。", "内容 A。"), 800_000);
    assert_eq!(calculate_char_similarity("", ""), SCALE);
    assert_eq!(calculate_char_similarity("abc", ""), 0);
}

#[test]
fn test_jaccard_empty() {
    let set1 = set_of(&[]);
    let set2 = set_of(&[]);
    assert_eq!(unit(calculate_jaccard_similarity(&set1, &set2)), 1.0);
}

#[test]
fn test_jaccard_no_overlap() {
    let set1 = set_of(&["apple", "banana"]);
    let set2 = set_of(&["cat", "dog"]);
    assert_eq!(unit(calculate_jaccard_similarity(&set1, &set2)), 0.0);
}

#[test]
fn test_jaccard_partial_overlap() {
    let set1 = set_of(&["应当", "建立", "制度"]);
    let set2 = set_of(&["应当", "建立", "安全", "制度"]);
    let score = unit(calculate_jaccard_similarity(&set1, &set2));
    assert!((score - 0.75).abs() < 0.01);
    assert_eq!(calculate_jaccard_similarity(&set1, &set2), 750_000);
}

#[test]
fn jaccard_of_one_empty_set_is_zero() {
    assert_eq!(calculate_jaccard_similarity(&set_of(&[]), &set_of(&["应当"])), 0);
    assert_eq!(calculate_jaccard_similarity(&set_of(&["应当"]), &set_of(&[])), 0);
}

#[test]
fn containment_is_the_overlap_over_the_smaller_set() {
    let small = set_of(&["应当", "建立"]);
    let large = set_of(&["应当", "建立", "安全", "制度"]);
    assert_eq!(calculate_containment_similarity(&small, &large), SCALE);
    assert_eq!(calculate_containment_similarity(&large, &small), SCALE);
    assert_eq!(calculate_containment_similarity(&set_of(&[]), &set_of(&[])), SCALE);
    assert_eq!(calculate_containment_similarity(&set_of(&[]), &large), 0);
    let other = set_of(&["应当", "禁止", "处罚"]);
    assert_eq!(calculate_containment_similarity(&small, &other), 500_000);
}

#[test]
fn token_set_holds_each_word_once_and_no_single_characters() {
    let set = set_of(&["应当", "a", "应当", "条", "ab", ""]);
    assert_eq!(set.len(), 2);
    assert!(set.contains("应当"));
    assert!(set.contains("ab"));
    assert!(!set.contains("条"));
    assert!(!set.contains("a"));
    assert!(!set.contains(""));
}

#[test]
fn test_keyword_weight_with_keywords() {
    let text1 = "违反规定的，应当给予处罚";
    let text2 = "违反规定的，应当给予罚款处罚";
    let weight = unit(calculate_legal_keyword_weight(text1, text2));
    assert!(weight > 0.7);
    // four keywords in both, five in either
    assert_eq!(calculate_legal_keyword_weight(text1, text2), 800_000);
}

#[test]
fn test_keyword_weight_no_keywords() {
    let text1 = "普通文本内容";
    let text2 = "另一段文字";
    let weight = unit(calculate_legal_keyword_weight(text1, text2));
    assert_eq!(weight, 0.5);
}

#[test]
fn test_composite_similarity() {
    let text1 = "第五条 网络运营者应当建立安全管理制度";
    let text2 = "第五条 网络运营者应当建立管理制度";

    let tokens1 = set_of(&["网络", "运营者", "应当", "建立", "安全", "管理", "制度"]);
    let tokens2 = set_of(&["网络", "运营者", "应当", "建立", "管理", "制度"]);

    let score = calculate_composite_similarity(text1, text2, &tokens1, &tokens2);

    assert!(unit(score.char_similarity) > 0.6);
    assert!(unit(score.jaccard_similarity) > 0.8);
    assert!(unit(score.containment_similarity) > 0.9);
    assert!(unit(score.composite) > 0.65);
}

#[test]
fn composite_is_the_weighted_sum() {
    let s = SimilarityScore::new(800_000, 1_000_000, 1_000_000, 500_000);
    assert_eq!(s.composite, 840_000);
    assert_eq!(SimilarityScore::new(SCALE, SCALE, SCALE, SCALE).composite, SCALE);
    assert_eq!(SimilarityScore::new(0, 0, 0, 500_000).composite, 100_000);
}

#[test]
fn identical_texts_score_one_and_different_texts_less() {
    let words = set_of(&["应当", "登记"]);
    let same = calculate_composite_similarity("应当登记", "应当登记", &words, &words);
    assert_eq!(same.composite, SCALE);
    assert_eq!(same.char_similarity, SCALE);
    let other = calculate_composite_similarity("应当登记", "应当登记。", &words, &words);
    assert!(other.composite < SCALE);
}

#[test]
fn empty_text_scores_zero_with_a_neutral_keyword_weight() {
    let none = set_of(&[]);
    let words = set_of(&["应当", "登记"]);
    for s in [
        calculate_composite_similarity("", "应当登记", &none, &words),
        calculate_composite_similarity("应当登记", "", &words, &none),
    ] {
        assert_eq!(s.char_similarity, 0);
        assert_eq!(s.jaccard_similarity, 0);
        assert_eq!(s.containment_similarity, 0);
        assert_eq!(s.keyword_weight, 500_000);
        assert_eq!(s.composite, 0);
    }
}

#[test]
fn different_texts_score_ninety_nine_hundredths_at_most() {
    let a = format!("应当{}", "甲".repeat(98));
    let b = format!("{}乙", a);
    let words = set_of(&["应当"]);
    let s = calculate_composite_similarity(&a, &b, &words, &words);
    // 100 of 100 and 101 characters stay: 200 / 201
    assert_eq!(s.char_similarity, 995_024);
    assert_eq!(s.jaccard_similarity, SCALE);
    assert_eq!(s.containment_similarity, SCALE);
    assert_eq!(s.keyword_weight, SCALE);
    // the weighted sum is 998507
    assert_eq!(s.composite, 990_000);
    let t = calculate_composite_similarity(&b, &a, &words, &words);
    assert_eq!(s, t);
}

#[test]
fn texts_of_very_different_length_get_the_cheap_estimate() {
    let short = set_of(&["甲乙"]);
    let long = set_of(&["丙丁", "戊己"]);
    let s = calculate_composite_similarity("甲乙", "丙丁戊己丙丁戊己丙丁戊己", &short, &long);
    // lengths 2 and 12: half the ratio of the lengths is 2 / 24
    assert_eq!(s.char_similarity, 83_333);
    assert_eq!(s.jaccard_similarity, 0);
    assert_eq!(s.containment_similarity, 0);
    assert_eq!(s.keyword_weight, 500_000);
    assert_eq!(s.composite, 124_999);
}

#[test]
fn score_is_symmetric() {
    let a = "第一条 应当建立管理制度";
    let b = "第一条 应当建立安全管理制度，并依法备案";
    let sa = set_of(&["应当", "建立", "管理", "制度"]);
    let sb = set_of(&["应当", "建立", "安全", "管理", "制度", "依法", "备案"]);
    let ab = calculate_composite_similarity(a, b, &sa, &sb);
    let ba = calculate_composite_similarity(b, a, &sb, &sa);
    assert_eq!(ab, ba);
}
