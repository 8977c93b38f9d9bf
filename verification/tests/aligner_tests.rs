use law_compare::diff::aligner::align_articles;
use law_compare::diff::numerals::chinese_to_int;
use law_compare::models::{ArticleChange, ArticleChangeType, SCALE};

const DEFAULT_THRESHOLD: u32 = 600_000;

fn unit(score: u32) -> f32 {
    score as f32 / SCALE as f32
}

fn covers_new(changes: &[ArticleChange], number: &str) -> usize {
    changes
        .iter()
        .filter(|c| {
            c.new_articles
                .as_ref()
                .map_or(false, |list| list.iter().any(|a| a.number.as_str() == number))
        })
        .count()
}

fn covers_old(changes: &[ArticleChange], number: &str) -> usize {
    changes
        .iter()
        .filter(|c| c.old_article.as_ref().map_or(false, |a| a.number.as_str() == number))
        .count()
}

#[test]
fn test_split_scenario() {
    let old_text = "第五条 网络运营者应当建立安全管理制度，采取技术措施。";
    let new_text = "第五条 网络运营者应当建立安全管理制度。\n第六条 网络运营者应当采取技术措施。";

    let changes = align_articles(old_text, new_text, DEFAULT_THRESHOLD, false);
    assert!(!changes.is_empty(), "Should detect changes for split scenario");
    assert_eq!(covers_old(&changes, "五"), 1);
    assert_eq!(covers_new(&changes, "五"), 1);
    assert_eq!(covers_new(&changes, "六"), 1);
}

#[test]
fn test_merge_scenario() {
    let old_text = "第二十条 应当登记。\n第二十一条 应当备案。";
    let new_text = "第二十条 应当登记和备案。";

    let changes = align_articles(old_text, new_text, DEFAULT_THRESHOLD, false);
    assert!(!changes.is_empty(), "Should detect merge scenario");
}

#[test]
fn test_renumbered_detection() {
    let old_text = "第五条 测试内容保持不变";
    let new_text = "第六条 测试内容保持不变";

    let changes = align_articles(old_text, new_text, DEFAULT_THRESHOLD, false);
    let has_high_sim = changes.iter().any(|c| c.similarity.map_or(false, |s| unit(s) > 0.8));
    assert!(has_high_sim, "Renumbered should have high similarity");
    assert_eq!(changes.len(), 1);
    assert_eq!(changes[0].change_type, ArticleChangeType::Renumbered);
    assert_eq!(changes[0].tags, vec!["renumbered".to_string()]);
}

#[test]
fn test_modified_detection() {
    let old_text = "第三条 网络运营者应当制定应急预案。";
    let new_text = "第三条 网络运营者应当制定网络安全应急预案，并定期演练。";

    let changes = align_articles(old_text, new_text, DEFAULT_THRESHOLD, false);
    assert!(!changes.is_empty(), "Should detect modification");
    assert_eq!(changes[0].change_type, ArticleChangeType::Modified);
    assert_eq!(changes[0].tags, vec!["modified".to_string()]);
}

#[test]
fn test_added_deleted() {
    let old_text = "第一条 旧条款内容。\n第二条 将被删除的条款。";
    let new_text = "第一条 旧条款内容。\n第三条 新增的条款。";

    let changes = align_articles(old_text, new_text, DEFAULT_THRESHOLD, false);
    assert!(!changes.is_empty(), "Should detect added/deleted");
}

#[test]
fn test_unchanged_or_similar() {
    let old_text = "第一条 这是一条完全没有变化的法条。";
    let new_text = "第一条 这是一条完全没有变化的法条。";

    let changes = align_articles(old_text, new_text, DEFAULT_THRESHOLD, false);

    let has_high_similarity =
        changes.iter().any(|c| c.similarity.map_or(false, |s| unit(s) >= 0.95));
    assert!(has_high_similarity, "Unchanged text should have high similarity");
}

#[test]
fn identical_single_article_is_unchanged() {
    let text = "第一条 为了规范管理，制定本办法。";
    let changes = align_articles(text, text, DEFAULT_THRESHOLD, false);
    assert_eq!(changes.len(), 1);
    assert_eq!(changes[0].change_type, ArticleChangeType::Unchanged);
    assert_eq!(changes[0].similarity, Some(SCALE));
    assert!(changes[0].tags.is_empty());
    assert!(changes[0].details.is_none());
}

#[test]
fn test_complex_multi_change() {
    let old_text = "第一条 应当建立制度。\n第二条 应当采取措施。\n第三条 应当加强管理。\n第四条 将被删除。";
    let new_text = "第一条 应当建立健全制度。\n第二条 应当采取措施。\n第五条 新增条款内容。";

    let changes = align_articles(old_text, new_text, DEFAULT_THRESHOLD, false);
    assert!(changes.len() >= 3, "Should detect multiple changes");
    for number in ["一", "二", "三", "四"] {
        assert_eq!(covers_old(&changes, number), 1, "old article {}", number);
    }
    for number in ["一", "二", "五"] {
        assert!(covers_new(&changes, number) >= 1, "new article {}", number);
    }
}

#[test]
fn test_sorting_order_mixed_changes() {
    let old_text = "第二条 内容 B。\n第三条 内容 C。";
    let new_text = "第一条 内容 A。\n第二条 内容 B Changed。\n第三条 内容 C。";

    let changes = align_articles(old_text, new_text, 600_000, false);

    assert_eq!(changes.len(), 3);

    assert_eq!(
        changes[0].change_type,
        ArticleChangeType::Added,
        "First item should be Added Article 1"
    );
    assert_eq!(changes[0].new_articles.as_ref().unwrap()[0].number, "一");

    assert_eq!(
        changes[1].change_type,
        ArticleChangeType::Modified,
        "Second item should be Modified Article 2"
    );
    assert_eq!(changes[1].old_article.as_ref().unwrap().number, "二");

    assert_eq!(
        changes[2].change_type,
        ArticleChangeType::Unchanged,
        "Third item should be Unchanged Article 3"
    );
}

#[test]
fn empty_texts_give_no_change() {
    assert!(align_articles("", "", DEFAULT_THRESHOLD, false).is_empty());
}

#[test]
fn one_empty_side_gives_only_additions_or_deletions() {
    let text = "第一条 甲。\n第二条 乙。";
    let added = align_articles("", text, DEFAULT_THRESHOLD, false);
    assert_eq!(added.len(), 2);
    assert!(added.iter().all(|c| c.change_type == ArticleChangeType::Added));
    assert!(added.iter().all(|c| c.old_article.is_none() && c.similarity.is_none()));
    assert_eq!(added[0].tags, vec!["added".to_string()]);
    let deleted = align_articles(text, "", DEFAULT_THRESHOLD, false);
    assert_eq!(deleted.len(), 2);
    assert!(deleted.iter().all(|c| c.change_type == ArticleChangeType::Deleted));
    assert!(deleted.iter().all(|c| c.new_articles.is_none()));
    assert_eq!(deleted[1].old_article.as_ref().unwrap().number, "二");
}

#[test]
fn same_number_with_unrelated_content_is_replaced() {
    let changes = align_articles(
        "第九条 甲乙丙丁戊己庚辛壬癸",
        "第九条 ABCDEFGHIJKLMNOPQRSTUVWXYZ",
        DEFAULT_THRESHOLD,
        false,
    );
    assert_eq!(changes.len(), 1);
    assert_eq!(changes[0].change_type, ArticleChangeType::Replaced);
    assert_eq!(changes[0].tags, vec!["replaced".to_string()]);
}

#[test]
fn chinese_numbers_have_their_value() {
    assert_eq!(chinese_to_int("十二"), 12);
    assert_eq!(chinese_to_int("二十"), 20);
    assert_eq!(chinese_to_int("二百零一"), 201);
    assert_eq!(chinese_to_int("一千零二十"), 1020);
    assert_eq!(chinese_to_int("两万"), 20000);
    assert_eq!(chinese_to_int("15"), 15);
    assert_eq!(chinese_to_int("2百"), 200);
    assert_eq!(chinese_to_int("root"), 0);
    assert_eq!(chinese_to_int("0"), 0);
    assert_eq!(chinese_to_int(""), 0);
}

#[test]
fn test_article_renumbering_alignment() {
    let old = "第一条 A\n第二条 B";
    let new = "第一条 新内容\n第二条 A\n第三条 B";
    let changes = align_articles(old, new, 600_000, false);
    let kinds: Vec<ArticleChangeType> = changes.iter().map(|c| c.change_type).collect();
    assert_eq!(
        kinds,
        vec![ArticleChangeType::Replaced, ArticleChangeType::Modified, ArticleChangeType::Added]
    );
    assert_eq!(changes[0].similarity, Some(100_000));
    assert_eq!(changes[1].similarity, Some(600_000));
    assert_eq!(changes[2].new_articles.as_ref().unwrap()[0].number, "三");
}

#[test]
fn content_decides_where_no_number_agrees() {
    let old = "第一条 应当建立安全管理制度。\n第二条 应当采取技术措施。";
    let new = "第五条 新增的无关条款内容。\n第六条 应当建立安全管理制度。\n第七条 应当采取技术措施。";
    let changes = align_articles(old, new, 600_000, false);
    assert_eq!(changes.len(), 3);
    assert_eq!(changes[0].change_type, ArticleChangeType::Added);
    assert_eq!(changes[1].change_type, ArticleChangeType::Renumbered);
    assert_eq!(changes[1].old_article.as_ref().unwrap().number, "一");
    assert_eq!(changes[1].new_articles.as_ref().unwrap()[0].number, "六");
    assert_eq!(changes[1].similarity, Some(SCALE));
    assert_eq!(changes[1].tags, vec!["renumbered".to_string()]);
    assert_eq!(changes[2].old_article.as_ref().unwrap().number, "二");
    assert_eq!(changes[2].new_articles.as_ref().unwrap()[0].number, "七");
}

#[test]
fn articles_under_the_same_chapter_score_higher() {
    let old = "第一章 总则\n第一条 应当建立安全管理制度。";
    let new = "第一章 总则\n第一条 应当建立安全管理制度。";
    let changes = align_articles(old, new, 600_000, false);
    assert_eq!(changes.len(), 1);
    assert_eq!(changes[0].similarity, Some(990_000));
    assert_eq!(changes[0].change_type, ArticleChangeType::Modified);
    assert_eq!(changes[0].old_article.as_ref().unwrap().parents, vec!["一 总则".to_string()]);
}

#[test]
fn preamble_changes_come_first() {
    let old = "说明文字\n第一条 甲乙丙丁。";
    let new = "说明文字\n第一条 甲乙丙丁。";
    let changes = align_articles(old, new, 600_000, false);
    assert_eq!(changes.len(), 2);
    assert_eq!(changes[0].change_type, ArticleChangeType::Preamble);
    assert_eq!(changes[0].tags, vec!["preamble".to_string()]);
    assert_eq!(changes[1].change_type, ArticleChangeType::Unchanged);
}

fn article(number: &str, line: usize) -> law_compare::models::ArticleInfo {
    law_compare::models::ArticleInfo {
        number: number.to_string(),
        content: format!("content {}", number),
        title: None,
        start_line: line,
        node_type: law_compare::models::NodeType::Article,
        parents: vec![],
    }
}

fn cell(composite: u32) -> law_compare::models::SimilarityScore {
    law_compare::models::SimilarityScore {
        char_similarity: composite,
        jaccard_similarity: composite,
        containment_similarity: composite,
        keyword_weight: composite,
        composite,
    }
}

#[test]
fn three_weak_candidates_make_a_split() {
    let c = law_compare::diff::aligner::Comparison {
        old: vec![article("一", 1)],
        new: vec![article("二", 1), article("三", 2), article("四", 3)],
        matrix: vec![vec![cell(410_000), cell(400_000), cell(415_000)]],
        threshold: 600_000,
    };
    let changes = law_compare::diff::aligner::align_lists(&c);
    assert_eq!(changes.len(), 1);
    assert_eq!(changes[0].change_type, ArticleChangeType::Split);
    assert_eq!(changes[0].old_article.as_ref().unwrap().number, "一");
    let numbers: Vec<&str> =
        changes[0].new_articles.as_ref().unwrap().iter().map(|a| a.number.as_str()).collect();
    assert_eq!(numbers, vec!["四", "二", "三"]);
    assert_eq!(changes[0].similarity, Some(408_333));
    assert_eq!(changes[0].tags, vec!["split".to_string()]);
}

#[test]
fn two_candidates_below_the_sum_make_no_split() {
    let c = law_compare::diff::aligner::Comparison {
        old: vec![article("一", 1)],
        new: vec![article("二", 1), article("三", 2)],
        matrix: vec![vec![cell(410_000), cell(415_000)]],
        threshold: 600_000,
    };
    let changes = law_compare::diff::aligner::align_lists(&c);
    let kinds: Vec<ArticleChangeType> = changes.iter().map(|c| c.change_type).collect();
    assert_eq!(
        kinds,
        vec![ArticleChangeType::Deleted, ArticleChangeType::Added, ArticleChangeType::Added]
    );
}

#[test]
fn three_weak_candidates_make_a_merge_with_a_change_for_each() {
    let c = law_compare::diff::aligner::Comparison {
        old: vec![article("一", 1), article("二", 2), article("三", 3)],
        new: vec![article("九", 1)],
        matrix: vec![vec![cell(410_000)], vec![cell(400_000)], vec![cell(415_000)]],
        threshold: 600_000,
    };
    let changes = law_compare::diff::aligner::align_lists(&c);
    assert_eq!(changes.len(), 3);
    let olds: Vec<&str> =
        changes.iter().map(|c| c.old_article.as_ref().unwrap().number.as_str()).collect();
    assert_eq!(olds, vec!["三", "一", "二"]);
    for change in &changes {
        assert_eq!(change.change_type, ArticleChangeType::Merged);
        assert_eq!(change.new_articles.as_ref().unwrap().len(), 1);
        assert_eq!(change.new_articles.as_ref().unwrap()[0].number, "九");
        assert_eq!(change.similarity, Some(408_333));
        assert_eq!(change.tags, vec!["merged".to_string()]);
    }
}

#[test]
fn sequence_matching_keeps_the_order_and_the_rest_is_matched_by_similarity() {
    // old 一, 二 against new 八, 九: the pairs (一, 九) and (二, 八) are the
    // most similar but cross; in sequence only one of them can be kept.
    let c = law_compare::diff::aligner::Comparison {
        old: vec![article("一", 1), article("二", 2)],
        new: vec![article("八", 1), article("九", 2)],
        matrix: vec![vec![cell(100_000), cell(900_000)], vec![cell(800_000), cell(100_000)]],
        threshold: 600_000,
    };
    let changes = law_compare::diff::aligner::align_lists(&c);
    assert_eq!(changes.len(), 2);
    assert_eq!(changes[0].old_article.as_ref().unwrap().number, "二");
    assert_eq!(changes[0].new_articles.as_ref().unwrap()[0].number, "八");
    assert_eq!(changes[0].similarity, Some(800_000));
    assert_eq!(changes[1].old_article.as_ref().unwrap().number, "一");
    assert_eq!(changes[1].new_articles.as_ref().unwrap()[0].number, "九");
    assert_eq!(changes[1].similarity, Some(900_000));
    for change in &changes {
        assert_eq!(change.change_type, ArticleChangeType::Renumbered);
        assert_eq!(change.tags, vec!["renumbered".to_string(), "modified".to_string()]);
    }
}

#[test]
fn changes_without_a_number_value_come_last() {
    let c = law_compare::diff::aligner::Comparison {
        old: vec![article("零", 1), article("二", 2)],
        new: vec![article("一", 5)],
        matrix: vec![vec![cell(0)], vec![cell(0)]],
        threshold: 600_000,
    };
    let changes = law_compare::diff::aligner::align_lists(&c);
    let kinds: Vec<ArticleChangeType> = changes.iter().map(|c| c.change_type).collect();
    assert_eq!(
        kinds,
        vec![ArticleChangeType::Added, ArticleChangeType::Deleted, ArticleChangeType::Deleted]
    );
    assert_eq!(changes[1].old_article.as_ref().unwrap().number, "二");
    assert_eq!(changes[2].old_article.as_ref().unwrap().number, "零");
}

#[test]
fn what_is_left_is_reported_and_the_marks_stay() {
    let c = law_compare::diff::aligner::Comparison {
        old: vec![article("一", 1), article("二", 2), article("三", 3)],
        new: vec![article("四", 1), article("五", 2)],
        matrix: vec![
            vec![cell(0), cell(0)],
            vec![cell(0), cell(0)],
            vec![cell(0), cell(0)],
        ],
        threshold: 600_000,
    };
    let mut ws = law_compare::diff::aligner::Workspace {
        used_old: vec![false, true, false],
        used_new: vec![true, false],
        plan: vec![],
    };
    law_compare::diff::aligner::handle_remaining_articles(&c, &mut ws);
    assert_eq!(ws.used_old, vec![false, true, false]);
    assert_eq!(ws.used_new, vec![true, false]);
    assert_eq!(ws.plan.len(), 3);
    let kinds: Vec<ArticleChangeType> = ws.plan.iter().map(|a| a.change_type).collect();
    assert_eq!(
        kinds,
        vec![ArticleChangeType::Deleted, ArticleChangeType::Deleted, ArticleChangeType::Added]
    );
    assert_eq!(ws.plan[0].old_index, Some(0));
    assert_eq!(ws.plan[1].old_index, Some(2));
    assert!(ws.plan[0].new_indices.is_empty());
    assert_eq!(ws.plan[2].old_index, None);
    assert_eq!(ws.plan[2].new_indices, vec![1]);
    assert!(ws.plan.iter().all(|a| a.similarity.is_none()));
}
