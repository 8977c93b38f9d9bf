//! Named entities with the wider ranges of confidence.

use vstd::prelude::*;
use crate::models::Entity;
use crate::nlp::regex_ner::{all_findings, entities_view, extract_with_chance, labelled};

verus! {

/// The entities of `text`: dates and periods, amounts, penalties, registry
/// terms and scopes, each with a confidence from its base up to a tenth
/// more, for penalties eight hundredths, ordered by their start.
pub fn extract_entities(text: &str) -> (entities: Vec<Entity>)
    ensures
        exists|draws: Seq<u32>|
            draws.len() == all_findings(text@).len() && entities_view(entities@) == #[trigger] labelled(
                all_findings(text@),
                draws,
                true,
                draws.len(),
            ),
{
    extract_with_chance(text, true)
}

} // verus!
