//! The engine that works with a language model. This library carries no
//! model: the engine cannot be made, and says so.

use vstd::prelude::*;
use crate::models::{Entity, EntityType};
use crate::nlp::ner_trait::{NEREngine, NerError};
use crate::text::same_str;

verus! {

/// The engine that works with a language model.
#[derive(Debug, Clone, Copy, PartialEq, Eq, Structural)]
pub struct BertNER;

/// The kind of entity that a label of the model stands for.
pub open spec fn kind_of_label(label: Seq<char>) -> EntityType {
    if label == "DATE"@ || label == "TIME"@ {
        EntityType::Date
    } else if label == "MONEY"@ || label == "PERCENT"@ || label == "QUANTITY"@ {
        EntityType::Amount
    } else if label == "LAW"@ || label == "ORG"@ || label == "FAC"@ {
        EntityType::Registry
    } else if label == "LOC"@ || label == "GPE"@ {
        EntityType::Scope
    } else {
        EntityType::Other
    }
}

impl BertNER {
    /// Fails: the model is not part of this library.
    pub fn new(_model_path: &str) -> (r: Result<Self, NerError>)
        ensures
            r == Err::<Self, NerError>(NerError::ModelDisabled),
    {
        Err(NerError::ModelDisabled)
    }

    /// The kind of entity that a label of the model stands for.
    pub fn map_bert_label_to_entity_type(label: &str) -> (r: EntityType)
        ensures
            r == kind_of_label(label@),
    {
        if same_str(label, "DATE") || same_str(label, "TIME") {
            EntityType::Date
        } else if same_str(label, "MONEY") || same_str(label, "PERCENT") || same_str(
            label,
            "QUANTITY",
        ) {
            EntityType::Amount
        } else if same_str(label, "LAW") || same_str(label, "ORG") || same_str(label, "FAC") {
            EntityType::Registry
        } else if same_str(label, "LOC") || same_str(label, "GPE") {
            EntityType::Scope
        } else {
            EntityType::Other
        }
    }
}

impl NEREngine for BertNER {
    /// Fails: the model is not part of this library.
    fn extract_entities(&self, _text: &str) -> (r: Result<Vec<Entity>, NerError>)
        ensures
            r == Err::<Vec<Entity>, NerError>(NerError::ModelDisabled),
    {
        Err(NerError::ModelDisabled)
    }

    fn name(&self) -> (r: &'static str)
        ensures
            r@ == "BERT NER (disabled)"@,
    {
        "BERT NER (disabled)"
    }

    fn confidence_range(&self) -> (r: (u32, u32))
        ensures
            r == (0u32, 0u32),
    {
        (0, 0)
    }
}

} // verus!
