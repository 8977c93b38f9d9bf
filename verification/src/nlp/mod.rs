//! Text processing around the comparison: segmentation into words,
//! normalisation of line breaks, and named entities.

pub mod bert_ner;
pub mod formatter;
pub mod hybrid_ner;
pub mod ner;
pub mod ner_trait;
pub mod regex_ner;
pub mod tokenizer;

use vstd::prelude::*;
use crate::models::Entity;
use crate::nlp::regex_ner::{all_findings, entities_view, labelled, RegexNER};

verus! {

/// The entities that the engine with regular expressions finds in `text`.
pub fn extract_entities(text: &str) -> (entities: Vec<Entity>)
    ensures
        exists|draws: Seq<u32>|
            draws.len() == all_findings(text@).len() && entities_view(entities@) == #[trigger] labelled(
                all_findings(text@),
                draws,
                false,
                draws.len(),
            ),
{
    let engine = RegexNER::new();
    engine.find(text)
}

} // verus!
