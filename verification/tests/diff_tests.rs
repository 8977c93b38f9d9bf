use law_compare::api::{apply_similarity_filter, average_similarity, extract_entities_helper};
use law_compare::diff::{
    calculate_similarity, compare_texts, merge_adjacent_changes, raw_changes_of, LineTag,
};
use law_compare::models::{
    ArticleChange, ArticleChangeType, Change, ChangeType, CompareOptions, CompareRequest, SCALE,
};
use law_compare::nlp::formatter::{keep_lines, normalize_legal_text, widen_spaces};

fn unit(score: u32) -> f32 {
    score as f32 / SCALE as f32
}

#[test]
fn test_basic_diff() {
    let old = "第一条 测试\n第二条 无关";
    let new = "第一条 修改测试\n第二条 无关";
    let result = compare_texts(old, new, vec![]);

    assert!(unit(result.similarity) >= 0.5);
    assert!(result.stats.modifications > 0 || result.stats.additions > 0);
}

#[test]
fn line_changes_are_merged_and_counted() {
    let old = "第一条 测试  \n第二条 无关";
    let new = "第一条 修改测试\n第二条 无关\n第三条 新增";
    let result = compare_texts(old, new, vec![]);
    let kinds: Vec<ChangeType> = result.changes.iter().map(|c| c.change_type).collect();
    assert_eq!(kinds, vec![ChangeType::Modify, ChangeType::Modify, ChangeType::Add]);
    assert_eq!(result.changes[0].old_line, Some(1));
    assert_eq!(result.changes[0].new_line, Some(1));
    assert_eq!(result.changes[0].old_content.as_deref(), Some("第一条 测试\n"));
    assert_eq!(result.changes[0].new_content.as_deref(), Some("第一条 修改测试\n"));
    assert_eq!(result.changes[2].new_line, Some(3));
    assert_eq!(result.stats.additions, 3);
    assert_eq!(result.stats.deletions, 2);
    assert_eq!(result.stats.modifications, 2);
    assert_eq!(result.stats.unchanged, 0);
    assert!(result.article_changes.is_none());
    assert_eq!(result.similarity, 0);
}

#[test]
fn equal_texts_are_unchanged_line_by_line() {
    let text = "第一条 测试\n第二条 无关\n";
    let result = compare_texts(text, text, vec![]);
    assert_eq!(result.similarity, SCALE);
    assert_eq!(result.stats.unchanged, 2);
    assert_eq!(result.stats.additions + result.stats.deletions + result.stats.modifications, 0);
    assert_eq!(result.changes[1].old_line, Some(2));
    assert_eq!(result.changes[1].new_line, Some(2));
}

fn line(kind: ChangeType, old_line: Option<usize>, new_line: Option<usize>) -> Change {
    Change {
        change_type: kind,
        old_line,
        new_line,
        old_content: old_line.map(|n| format!("old {}", n)),
        new_content: new_line.map(|n| format!("new {}", n)),
        entities: None,
    }
}

#[test]
fn runs_of_deletions_and_additions_pair_up() {
    let changes = vec![
        line(ChangeType::Unchanged, Some(1), Some(1)),
        line(ChangeType::Delete, Some(2), None),
        line(ChangeType::Delete, Some(3), None),
        line(ChangeType::Delete, Some(4), None),
        line(ChangeType::Add, None, Some(2)),
        line(ChangeType::Unchanged, Some(5), Some(3)),
        line(ChangeType::Add, None, Some(4)),
        line(ChangeType::Delete, Some(6), None),
    ];
    let merged = merge_adjacent_changes(changes);
    let kinds: Vec<ChangeType> = merged.iter().map(|c| c.change_type).collect();
    assert_eq!(
        kinds,
        vec![
            ChangeType::Unchanged,
            ChangeType::Modify,
            ChangeType::Delete,
            ChangeType::Delete,
            ChangeType::Unchanged,
            ChangeType::Add,
            ChangeType::Delete,
        ]
    );
    assert_eq!(merged[1].old_line, Some(2));
    assert_eq!(merged[1].new_line, Some(2));
    assert_eq!(merged[1].old_content.as_deref(), Some("old 2"));
    assert_eq!(merged[1].new_content.as_deref(), Some("new 2"));
    assert_eq!(merged[2].old_line, Some(3));
}

#[test]
fn test_similarity() {
    assert_eq!(unit(calculate_similarity("test", "test")), 1.0);
    assert!(unit(calculate_similarity("abc", "xyz")) < 0.5);
    // two of three words stay: 4 / 6
    assert_eq!(calculate_similarity("a b", "a c"), 666_666);
}

#[test]
fn test_normalize_articles() {
    let input = "第一条 内容。第二条 内容。";
    let expected = "第一条 内容。\n第二条 内容。\n";
    assert_eq!(normalize_legal_text(input), expected);
}

#[test]
fn test_normalize_clauses() {
    let input = "第一条 内容。（一）款一；（二）款二。";
    let expected = "第一条 内容。（一）款一；（二）款二。\n";
    assert_eq!(normalize_legal_text(input), expected);
}

#[test]
fn normalizing_breaks_before_headings_and_drops_empty_lines() {
    let input = "目录\u{3000}第一章 总则\n\n  第一条 甲。  \n第二节 乙";
    assert_eq!(normalize_legal_text(input), "目录\n  第一章 总则\n第一条 甲。\n第二节 乙\n");
    assert_eq!(normalize_legal_text(""), "");
}

fn change(kind: ArticleChangeType, similarity: Option<u32>) -> ArticleChange {
    ArticleChange {
        change_type: kind,
        old_article: None,
        new_articles: None,
        similarity,
        details: None,
        tags: vec![],
    }
}

fn sample() -> Vec<ArticleChange> {
    vec![
        change(ArticleChangeType::Unchanged, None),
        change(ArticleChangeType::Modified, Some(700_000)),
        change(ArticleChangeType::Added, None),
        change(ArticleChangeType::Renumbered, Some(950_000)),
    ]
}

#[test]
fn filter_selects_by_similarity() {
    let mut options = CompareOptions::default();
    assert_eq!(apply_similarity_filter(sample(), &options).len(), 4);
    options.invert_similarity = true;
    assert_eq!(apply_similarity_filter(sample(), &options).len(), 4);
    options.invert_similarity = false;
    options.min_similarity = Some(800_000);
    let kept = apply_similarity_filter(sample(), &options);
    let kinds: Vec<ArticleChangeType> = kept.iter().map(|c| c.change_type).collect();
    assert_eq!(kinds, vec![ArticleChangeType::Unchanged, ArticleChangeType::Renumbered]);
    options.max_similarity = Some(960_000);
    let kept = apply_similarity_filter(sample(), &options);
    assert_eq!(kept.len(), 1);
    assert_eq!(kept[0].change_type, ArticleChangeType::Renumbered);
    options.invert_similarity = true;
    let kept = apply_similarity_filter(sample(), &options);
    let kinds: Vec<ArticleChangeType> = kept.iter().map(|c| c.change_type).collect();
    assert_eq!(
        kinds,
        vec![ArticleChangeType::Unchanged, ArticleChangeType::Modified, ArticleChangeType::Added]
    );
    options.min_similarity = None;
    options.invert_similarity = false;
    options.max_similarity = Some(0);
    let kept = apply_similarity_filter(sample(), &options);
    assert_eq!(kept.len(), 1);
    assert_eq!(kept[0].change_type, ArticleChangeType::Added);
}

#[test]
fn overall_similarity_is_the_mean() {
    assert_eq!(average_similarity(&sample()), 412_500);
    assert_eq!(average_similarity(&vec![]), 0);
}

#[test]
fn default_options() {
    let options = CompareOptions::default();
    assert!(options.detect_entities);
    assert_eq!(options.granularity, "word");
    assert_eq!(options.align_threshold, 600_000);
    assert!(!options.format_text && !options.invert_similarity);
    assert!(options.ner_mode.is_none());
    assert!(options.min_similarity.is_none() && options.max_similarity.is_none());
}

#[test]
fn entities_of_both_texts_are_collected_on_request() {
    let mut request = CompareRequest {
        old_text: "应当登记".to_string(),
        new_text: "应当备案，处罚款".to_string(),
        options: CompareOptions::default(),
    };
    let entities = extract_entities_helper(&request);
    let values: Vec<&str> = entities.iter().map(|e| e.value.as_str()).collect();
    assert_eq!(values, vec!["登记", "备案", "处罚"]);
    request.options.ner_mode = Some("unknown".to_string());
    assert_eq!(extract_entities_helper(&request).len(), 3);
    request.options.detect_entities = false;
    assert!(extract_entities_helper(&request).is_empty());
}

#[test]
fn steps_of_normalizing_and_of_the_line_comparison() {
    let wide = widen_spaces(&"甲\u{3000}乙 ".chars().collect());
    assert_eq!(wide.iter().collect::<String>(), "甲  乙 ");

    let lines: Vec<Vec<char>> =
        ["甲  ", "   ", "", " 乙"].iter().map(|l| l.chars().collect()).collect();
    assert_eq!(keep_lines(&lines).iter().collect::<String>(), "甲\n 乙\n");

    let script = vec![
        (LineTag::Equal, "a\n".to_string()),
        (LineTag::Delete, "b\n".to_string()),
        (LineTag::Insert, "c\n".to_string()),
        (LineTag::Insert, "d\n".to_string()),
        (LineTag::Equal, "e\n".to_string()),
    ];
    let raw = raw_changes_of(&script);
    let kinds: Vec<ChangeType> = raw.iter().map(|c| c.change_type).collect();
    assert_eq!(
        kinds,
        vec![
            ChangeType::Unchanged,
            ChangeType::Delete,
            ChangeType::Add,
            ChangeType::Add,
            ChangeType::Unchanged,
        ]
    );
    assert_eq!((raw[1].old_line, raw[1].new_line), (Some(2), None));
    assert_eq!((raw[2].old_line, raw[2].new_line), (None, Some(2)));
    assert_eq!((raw[3].old_line, raw[3].new_line), (None, Some(3)));
    assert_eq!((raw[4].old_line, raw[4].new_line), (Some(3), Some(4)));
    assert_eq!(raw[4].old_content.as_deref(), Some("e\n"));
    assert_eq!(raw[2].new_content.as_deref(), Some("c\n"));
    assert!(raw[2].old_content.is_none());
}
