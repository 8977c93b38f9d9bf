use law_compare::nlp::tokenizer::{tokenize, tokenize_to_set, tokenize_with_dict, WordManager};

#[test]
fn test_tokenize() {
    let text = "第一条 为了规范网络安全管理";
    let tokens = tokenize(text);
    assert!(!tokens.is_empty());
    assert!(tokens.contains(&"网络".to_string()) || tokens.contains(&"网络安全".to_string()));
}

#[test]
fn test_word_manager() {
    let mut manager = WordManager::new();
    manager.add_word("测试词".to_string());
    assert_eq!(manager.get_words().len(), 1);

    manager.remove_word("测试词");
    assert_eq!(manager.get_words().len(), 0);

    manager.load_legal_terms();
    assert!(manager.get_words().len() > 0);
}

#[test]
fn word_manager_holds_each_word_once() {
    let mut manager = WordManager::default();
    assert_eq!(manager.get_words().len(), 12);
    manager.add_word("罚款".to_string());
    assert_eq!(manager.get_words().len(), 12);
    manager.load_legal_terms();
    assert_eq!(manager.get_words().len(), 12);
    manager.remove_word("罚款");
    assert_eq!(manager.get_words().len(), 11);
    assert_eq!(manager.get_words()[0], "网络安全");
}

#[test]
fn tokens_rejoin_to_the_text() {
    let text = "内容 B。";
    let tokens = tokenize(text);
    assert_eq!(tokens.concat(), text);
    assert_eq!(tokenize_with_dict(text, &vec!["内容".to_string()]), tokens);
}

#[test]
fn token_set_drops_single_character_tokens() {
    let set = tokenize_to_set("内容 B。");
    assert!(set.contains("内容"));
    assert_eq!(set.len(), 1);
    assert!(!set.contains("。"));
    assert!(!set.contains(" "));
    assert!(!set.contains("B"));
}
