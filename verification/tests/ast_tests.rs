use law_compare::ast::parse_article;
use law_compare::models::NodeType;

#[test]
fn test_parse_simple_article() {
    let text = "第一条 为了规范管理，制定本办法。";
    let ast = parse_article(text);

    assert_eq!(ast.children.len(), 1);
    assert_eq!(ast.children[0].node_type, NodeType::Article);
    assert_eq!(ast.children[0].number.as_str(), "一");
}

#[test]
fn test_parse_article_with_clauses() {
    let text = "第三条 应当履行下列义务：\n（一）建立管理制度；\n（二）采取技术措施；";

    let ast = parse_article(text);
    assert_eq!(ast.children.len(), 1);

    let article = &ast.children[0];
    assert_eq!(article.node_type, NodeType::Article);
    assert_eq!(article.children.len(), 2);
    assert_eq!(article.children[0].node_type, NodeType::Clause);
    assert_eq!(article.children[1].node_type, NodeType::Clause);
}

#[test]
fn test_parse_article_with_tail_clauses() {
    let text = "第一条 内容：\n（一）第一款；\n（二）第二款。\n第二条 接下来。\n";
    let ast = parse_article(text);
    assert_eq!(ast.children.len(), 2);

    let art1 = &ast.children[0];
    assert_eq!(art1.children.len(), 2, "Article 1 should have 2 clauses");
    assert!(art1.children[0].content.contains("（一）"), "Marker should be preserved");
    assert!(art1.children[1].content.contains("（二）"), "Marker should be preserved");

    let art2 = &ast.children[1];
    assert_eq!(art2.number.as_str(), "二");
}

#[test]
fn test_parse_articles_with_zero() {
    let text = "第二百条 内容\n第二百零一条 零一内容\n第二百零二条 零二内容\n";
    let ast = parse_article(text);
    assert_eq!(ast.children.len(), 3);
    assert_eq!(ast.children[1].number.as_str(), "二百零一");
    assert_eq!(ast.children[2].number.as_str(), "二百零二");
}

#[test]
fn test_toc_detection() {
    let text = "目 录\n第一章 总则\n（一）第一款\n第二章 细则\n第一条 正式内容";
    let ast = parse_article(text);
    assert_eq!(ast.children.len(), 2);
    assert_eq!(ast.children[0].node_type, NodeType::Preamble);
    assert!(ast.children[0].content.contains("第一章"));
    assert!(ast.children[0].content.contains("第二章"));
    assert!(ast.children[0].content.contains("（一）"));
    assert_eq!(ast.children[1].node_type, NodeType::Article);
    assert_eq!(ast.children[1].number.as_str(), "一");
}

#[test]
fn test_toc_breakout_repetition() {
    let text = "目 录\n第一章 总则\n第二章 细则\n第一章 总则\n第一条 正式内容";
    let ast = parse_article(text);
    assert_eq!(ast.children.len(), 2, "Should have Preamble and Chapter 1");
    assert_eq!(ast.children[0].node_type, NodeType::Preamble);
    assert_eq!(ast.children[1].node_type, NodeType::Chapter);
    assert_eq!(ast.children[1].number.as_str(), "一");
    assert_eq!(ast.children[1].children.len(), 1);
    assert_eq!(ast.children[1].children[0].number.as_str(), "一");
}

#[test]
fn parses_full_width_digits_in_numbers() {
    let ast = parse_article("第１２条 内容");
    assert_eq!(ast.children.len(), 1);
    assert_eq!(ast.children[0].number.as_str(), "１２");
    assert_eq!(ast.children[0].content.as_str(), "内容");
}

#[test]
fn reference_inside_a_sentence_opens_no_article() {
    let ast = parse_article("第一条 甲\n第二条规定的情形除外");
    assert_eq!(ast.children.len(), 1);
    assert_eq!(ast.children[0].content.as_str(), "甲\n第二条规定的情形除外");
}

#[test]
fn test_repro_user_issue_chapter_detection() {
    let raw = "第一章　总 则\n　　第一条　为了规范公司的组织和行为，保护公司、股东和债权人的合法权益，维护社会经济秩序，促进社会主义市场经济的发展，制定本法。";

    let normalized = law_compare::nlp::formatter::normalize_legal_text(raw);
    println!("Normalized: {:?}", normalized);

    let ast = parse_article(&normalized);
    println!("AST: {:?}", ast);

    assert!(!ast.children.is_empty(), "Root should have children");

    let first_node = &ast.children[0];
    assert_eq!(first_node.node_type, NodeType::Chapter, "First node should be Chapter");
    assert_eq!(first_node.number.as_str(), "一", "Chapter number should be 1");

    assert!(!first_node.children.is_empty(), "Chapter should have children");
    let article = &first_node.children[0];
    assert_eq!(article.node_type, NodeType::Article, "Chapter child should be Article");
    assert_eq!(article.number.as_str(), "一", "Article number should be 1");
}

#[test]
fn test_repro_user_issue_new_modified_article() {
    let raw = "第一章　总则\n　　第一条　【立法目的】为了规范公司的组织和行为...";

    let normalized = law_compare::nlp::formatter::normalize_legal_text(raw);
    let ast = parse_article(&normalized);

    let chapter = &ast.children[0];
    assert_eq!(chapter.node_type, NodeType::Chapter);

    let article = &chapter.children[0];
    assert_eq!(article.node_type, NodeType::Article);
    assert_eq!(article.number.as_str(), "一");
    assert!(article.content.contains("【立法目的】"), "Content should contain title");
}

#[test]
fn test_parse_inline_structure_preserved() {
    let raw = "第四条 应当履行下列义务：（一）义务一；（二）义务二。";
    let normalized = law_compare::nlp::formatter::normalize_legal_text(raw);
    assert!(
        !normalized.contains("\n（一）"),
        "Formatter should NOT force newline for inline clause"
    );

    let ast = parse_article(&normalized);
    let article = &ast.children[0];

    assert_eq!(article.number.as_str(), "四");
    assert_eq!(article.children.len(), 0, "Inline clauses should not become child nodes");
    assert!(article.content.contains("（一）义务一"), "Content should be preserved inline");
}

#[test]
fn test_repro_origin_txt_first_articles() {
    let raw = "目录\n　　第一章　总 则\n　　第二章　有限责任公司的设立和组织机构\n　　第一节　设 立\n　　第二节　组织机构\n第一章　总 则\n　　第一条　为了规范公司的组织和行为，保护公司、股东和债权人的合法权益，维护社会经济秩序，促进社会主义市场经济的发展，制定本法。\n　　第二条　本法所称公司是指依照本法在中国境内设立的有限责任公司和股份有限公司。\n";

    let normalized = law_compare::nlp::formatter::normalize_legal_text(raw);
    println!("Normalized:\n{}", normalized);

    let ast = parse_article(&normalized);

    assert!(ast.children.len() >= 2);
    let chapter = &ast.children[1];
    assert_eq!(chapter.node_type, NodeType::Chapter);
    assert_eq!(chapter.number, "一");

    assert_eq!(chapter.children.len(), 2, "Should have 2 articles");
    assert_eq!(chapter.children[0].number, "一");
    assert_eq!(chapter.children[1].number, "二");
}

#[test]
fn test_parse_cross_article_paragraphs() {
    let raw = "第六十八条　【国有独资公司的董事会】国有独资公司设董事会，依照本法第四十七条、第六十七条的规定行使职权。董事每届任期不得超过三年。董事会成员中应当有公司职工代表。\n　　董事会成员由国有资产监督管理机构委派；但是，董事会成员中的职工代表由公司职工代表大会选举产生。\n　　董事会设董事长一人，可以设副董事长。董事长、副董事长由国有资产监督管理机构从董事会成员中指定。\n　　第六十九条　【国有独资公司经理】国有独资公司设经理，由董事会聘任或者解聘。经理依照本法第五十条规定行使职权。";

    let normalized = law_compare::nlp::formatter::normalize_legal_text(raw);
    println!("Normalized:\n{}", normalized);

    let ast = parse_article(&normalized);

    assert_eq!(ast.children.len(), 2, "Should have exactly 2 articles");

    let art68 = &ast.children[0];
    assert_eq!(art68.number, "六十八");
    assert!(art68.content.contains("第四十七条"), "Reference to Art 47 should be in content");
    assert!(art68.content.contains("第六十七条"), "Reference to Art 67 should be in content");

    assert!(art68.content.contains("董事会成员由"), "Next paragraph should be in Art 68 content");
    assert!(art68.content.contains("董事会设董事长"), "Third paragraph should be in Art 68 content");

    let art69 = &ast.children[1];
    assert_eq!(art69.number, "六十九");
}

#[test]
fn parsing_twice_gives_the_same_tree() {
    let raw = "目录\n第一章 总则\n第一章 总则\n第一条 甲\n（一）乙\n1. 丙\n第二节 丁\n第二条 戊";
    let normalized = law_compare::nlp::formatter::normalize_legal_text(raw);
    let first = parse_article(&normalized);
    let second = parse_article(&law_compare::nlp::formatter::normalize_legal_text(raw));
    assert_eq!(format!("{:?}", first), format!("{:?}", second));
}

#[test]
fn levels_nest_and_open_nodes_close_into_their_parents() {
    let text = "第一编 甲\n第一章 乙\n第一节 丙\n第一条 丁\n（一）戊\n1. 己\n续行\n第二节 庚\n第二条 辛\n第二编 壬\n第三条 癸";
    let root = parse_article(text);
    assert_eq!(root.node_type, NodeType::Article);
    assert_eq!(root.number, "root");
    assert_eq!(root.title.as_deref(), Some("Document Root"));
    assert_eq!(root.start_line, 0);
    assert_eq!(root.children.len(), 2);
    let part = &root.children[0];
    assert_eq!((part.node_type, part.number.as_str(), part.start_line), (NodeType::Part, "一", 1));
    assert!(part.title.is_none());
    let chapter = &part.children[0];
    assert_eq!(chapter.node_type, NodeType::Chapter);
    assert_eq!(chapter.title.as_deref(), Some("乙"));
    assert_eq!(chapter.children.len(), 2);
    let section = &chapter.children[0];
    assert_eq!(section.node_type, NodeType::Section);
    let article = &section.children[0];
    assert_eq!((article.node_type, article.content.as_str()), (NodeType::Article, "丁"));
    let clause = &article.children[0];
    assert_eq!((clause.node_type, clause.number.as_str()), (NodeType::Clause, "一"));
    assert_eq!(clause.content, "（一）戊\n续行");
    let item = &clause.children[0];
    assert_eq!((item.node_type, item.number.as_str(), item.start_line), (NodeType::Item, "1", 6));
    assert_eq!(item.content, "1.己");
    assert_eq!(chapter.children[1].children[0].number, "二");
    let second = &root.children[1];
    assert_eq!(second.node_type, NodeType::Part);
    assert_eq!(second.children[0].number, "三");
}

#[test]
fn empty_headings_are_pruned_and_text_without_structure_is_preamble() {
    let root = parse_article("第一章 总则\n第二章 细则\n第一条 内容");
    assert_eq!(root.children.len(), 1);
    assert_eq!(root.children[0].number, "二");
    let plain = parse_article("  没有结构的文字  \n\n第二行");
    assert_eq!(plain.children.len(), 1);
    assert_eq!(plain.children[0].node_type, NodeType::Preamble);
    assert_eq!(plain.children[0].number, "0");
    assert_eq!(plain.children[0].title.as_deref(), Some("序言/目录"));
    assert_eq!(plain.children[0].content, "没有结构的文字\n第二行");
    assert_eq!(plain.children[0].start_line, 1);
    assert!(parse_article("").children.is_empty());
}
