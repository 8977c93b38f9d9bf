//! What the engines that find named entities have in common.

use vstd::prelude::*;
use crate::models::Entity;

verus! {

/// Why an engine gave no entities.
#[derive(Debug, Clone, Copy, PartialEq, Eq, Structural)]
pub enum NerError {
    /// The engine needs the language model, and this library is built
    /// without it.
    ModelDisabled,
}

impl NerError {
    /// The message of the error.
    pub fn message(&self) -> (s: String)
        ensures
            s@ == "BERT feature is not enabled"@,
    {
        String::from_str("BERT feature is not enabled")
    }
}

/// An engine that finds named entities in a text.
pub trait NEREngine {
    /// The entities of `text`, or the reason why there are none.
    fn extract_entities(&self, text: &str) -> Result<Vec<Entity>, NerError>;

    /// The name of the engine.
    fn name(&self) -> &'static str;

    /// The range in which the confidence of the engine's entities lies, in
    /// units of `1 / SCALE`.
    fn confidence_range(&self) -> (u32, u32);
}

/// Which engine to use.
#[derive(Debug, Clone, Copy, PartialEq, Eq, Structural)]
pub enum NERMode {
    /// The engine that works with regular expressions.
    Regex,
}

impl Default for NERMode {
    fn default() -> (r: Self)
        ensures
            r == NERMode::Regex,
    {
        Self::Regex
    }
}

/// `s` with every character in lower case, as `str::to_lowercase` gives it.
pub uninterp spec fn lowercase_of(s: Seq<char>) -> Seq<char>;

/// `str::to_lowercase`. Assumed: the text returned depends on the argument
/// alone; it is the one named `lowercase_of`.
#[verifier::external_body]
fn to_lowercase(s: &str) -> (r: String)
    ensures
        r@ == lowercase_of(s@),
{
    s.to_lowercase()
}

impl NERMode {
    /// The mode that `s` names, whatever the case of its letters: `regex` is
    /// the only name known.
    pub fn from_str(s: &str) -> (r: Option<Self>)
        ensures
            r == if lowercase_of(s@) == "regex"@ {
                Some(NERMode::Regex)
            } else {
                None
            },
    {
        let lower = to_lowercase(s);
        if crate::text::same_str(lower.as_str(), "regex") {
            Some(Self::Regex)
        } else {
            None
        }
    }
}

/// The engine of the given mode.
pub fn create_ner_engine(mode: NERMode) -> (r: Result<crate::nlp::regex_ner::RegexNER, NerError>)
    ensures
        r == Ok::<crate::nlp::regex_ner::RegexNER, NerError>(crate::nlp::regex_ner::RegexNER),
{
    match mode {
        NERMode::Regex => Ok(crate::nlp::regex_ner::RegexNER::new()),
    }
}

} // verus!
