use law_compare::models::{Entity, EntityType, Position, SCALE};
use law_compare::nlp::bert_ner::BertNER;
use law_compare::nlp::hybrid_ner::{calculate_coverage, merge_entities};
use law_compare::nlp::ner::extract_entities;
use law_compare::nlp::ner_trait::{create_ner_engine, NEREngine, NERMode, NerError};
use law_compare::nlp::regex_ner::{confidence_of, find_entities, label_entities, RegexNER};

#[test]
fn test_extract_dates() {
    let text = "保存网络日志不少于六个月，从2024年1月1日起执行";
    let entities = extract_entities(text);

    let dates: Vec<_> = entities.iter().filter(|e| e.entity_type == EntityType::Date).collect();

    assert!(dates.len() >= 1);
}

#[test]
fn test_extract_amounts() {
    let text = "处一万元以上三万元以下罚款";
    let entities = extract_entities(text);

    let amounts: Vec<_> =
        entities.iter().filter(|e| e.entity_type == EntityType::Amount).collect();

    assert!(amounts.len() >= 2);
}

#[test]
fn test_extract_penalties() {
    let text = "依法给予警告，并处罚款";
    let entities = extract_entities(text);

    let penalties: Vec<_> =
        entities.iter().filter(|e| e.entity_type == EntityType::Penalty).collect();

    assert!(penalties.len() >= 2);
}

#[test]
fn test_regex_ner_dates() {
    let ner = RegexNER::new();
    let text = "保存网络日志不少于六个月，从2024年1月1日起执行";
    let entities = ner.extract_entities(text).unwrap();

    let dates: Vec<_> = entities.iter().filter(|e| e.entity_type == EntityType::Date).collect();

    assert!(dates.len() >= 1);
}

#[test]
fn test_regex_ner_amounts() {
    let ner = RegexNER::new();
    let text = "处一万元以上三万元以下罚款";
    let entities = ner.extract_entities(text).unwrap();

    let amounts: Vec<_> =
        entities.iter().filter(|e| e.entity_type == EntityType::Amount).collect();

    assert!(amounts.len() >= 2);
}

#[test]
fn entities_come_ordered_by_start_with_byte_offsets() {
    let text = "罚款一万元，应当登记";
    let entities = law_compare::nlp::extract_entities(text);
    let kinds: Vec<EntityType> = entities.iter().map(|e| e.entity_type).collect();
    assert_eq!(kinds, vec![EntityType::Penalty, EntityType::Amount, EntityType::Registry]);
    assert_eq!(entities[0].value, "罚款");
    assert_eq!(entities[0].position, Position { start: 0, end: 6 });
    assert_eq!(entities[1].value, "一万元");
    assert_eq!(entities[1].position, Position { start: 6, end: 15 });
    assert_eq!(entities[2].value, "登记");
    for e in &entities {
        let base = match e.entity_type {
            EntityType::Penalty => 900_000,
            EntityType::Amount => 880_000,
            _ => 870_000,
        };
        assert!(e.confidence >= base && e.confidence < base + 50_000);
    }
}

#[test]
fn confidence_is_the_base_raised_by_the_draw() {
    assert_eq!(confidence_of(EntityType::Date, 0, false), 850_000);
    assert_eq!(confidence_of(EntityType::Date, 50_001, false), 850_001);
    assert_eq!(confidence_of(EntityType::Amount, 49_999, false), 929_999);
    assert_eq!(confidence_of(EntityType::Penalty, 80_000, true), 900_000);
    assert_eq!(confidence_of(EntityType::Penalty, 79_999, true), 979_999);
    assert_eq!(confidence_of(EntityType::Registry, 99_999, true), 969_999);
    assert_eq!(confidence_of(EntityType::Scope, 7, true), 860_007);
}

#[test]
fn labelling_takes_one_draw_for_each_place() {
    let found = find_entities("全国范围内2024年1月1日");
    assert_eq!(found.len(), 3);
    let entities = label_entities(&found, &vec![1, 2, 3], false);
    assert_eq!(entities.len(), 3);
    assert_eq!(entities[0].value, "全国");
    assert_eq!(entities[0].confidence, 860_002);
    assert_eq!(entities[1].value, "范围");
    assert_eq!(entities[1].confidence, 860_003);
    assert_eq!(entities[2].value, "2024年1月1日");
    assert_eq!(entities[2].confidence, 850_001);
}

#[test]
fn only_the_regex_mode_is_known() {
    assert_eq!(NERMode::from_str("regex"), Some(NERMode::Regex));
    assert_eq!(NERMode::from_str("REGEX"), Some(NERMode::Regex));
    assert_eq!(NERMode::from_str("bert"), None);
    assert_eq!(NERMode::from_str("hybrid"), None);
    assert_eq!(NERMode::default(), NERMode::Regex);
    let engine = create_ner_engine(NERMode::Regex).unwrap();
    assert_eq!(engine.name(), "Regex NER");
    assert_eq!(engine.confidence_range(), (850_000, 920_000));
}

#[test]
fn the_model_engine_is_disabled() {
    assert_eq!(BertNER::new("./models/chinese-ner"), Err(NerError::ModelDisabled));
    assert_eq!(BertNER.extract_entities("文本").err(), Some(NerError::ModelDisabled));
    assert_eq!(BertNER.name(), "BERT NER (disabled)");
    assert_eq!(BertNER.confidence_range(), (0, 0));
    assert_eq!(NerError::ModelDisabled.message(), "BERT feature is not enabled");
    assert_eq!(BertNER::map_bert_label_to_entity_type("TIME"), EntityType::Date);
    assert_eq!(BertNER::map_bert_label_to_entity_type("PERCENT"), EntityType::Amount);
    assert_eq!(BertNER::map_bert_label_to_entity_type("ORG"), EntityType::Registry);
    assert_eq!(BertNER::map_bert_label_to_entity_type("GPE"), EntityType::Scope);
    assert_eq!(BertNER::map_bert_label_to_entity_type("PERSON"), EntityType::Other);
}

fn entity(kind: EntityType, start: usize, end: usize) -> Entity {
    Entity {
        entity_type: kind,
        value: "x".to_string(),
        confidence: 900_000,
        position: Position { start, end },
    }
}

#[test]
fn merging_drops_what_overlaps_and_orders_by_start() {
    let first = vec![entity(EntityType::Date, 10, 20), entity(EntityType::Amount, 30, 40)];
    let second = vec![
        entity(EntityType::Scope, 50, 60),
        entity(EntityType::Other, 15, 25),
        entity(EntityType::Other, 0, 5),
        entity(EntityType::Other, 29, 41),
        entity(EntityType::Registry, 20, 30),
    ];
    let merged = merge_entities(first, second);
    let starts: Vec<usize> = merged.iter().map(|e| e.position.start).collect();
    assert_eq!(starts, vec![0, 10, 20, 30, 50]);
    assert_eq!(merged[2].entity_type, EntityType::Registry);
}

#[test]
fn coverage_is_the_share_of_covered_bytes() {
    let list = vec![entity(EntityType::Date, 0, 10), entity(EntityType::Date, 20, 25)];
    assert_eq!(calculate_coverage(&list, 60), 250_000);
    assert_eq!(calculate_coverage(&list, 0), 0);
    assert_eq!(calculate_coverage(&list, 10), SCALE);
    assert_eq!(calculate_coverage(&vec![], 10), 0);
}
