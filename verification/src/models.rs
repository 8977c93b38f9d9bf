//! The data model: the document tree, its flattened articles, similarity
//! scores and the change records that an alignment produces.

use vstd::prelude::*;
use crate::text::strings_view;

verus! {

/// One in the unit of every similarity value: a similarity `s` between zero
/// and one is held as the integer `s * SCALE`, rounded down.
pub const SCALE: u32 = 1_000_000;

/// How an article of the old text relates to the new text.
#[derive(Debug, Clone, Copy, PartialEq, Eq, Structural)]
pub enum ArticleChangeType {
    Unchanged,
    Modified,
    /// Content similar but number changed.
    Renumbered,
    /// One article split into several.
    Split,
    /// Several articles merged into one.
    Merged,
    Moved,
    Added,
    Deleted,
    /// Number reused for unrelated content.
    Replaced,
    /// Material before the first structural boundary.
    Preamble,
}

/// Kind of a node of the document tree.
#[derive(Debug, Clone, Copy, PartialEq, Eq, Structural)]
pub enum NodeType {
    Part,
    Chapter,
    Section,
    Article,
    Clause,
    Item,
    Preamble,
}

/// A node of the document tree. The root is an `Article` numbered `root`.
#[derive(Debug)]
pub struct ArticleNode {
    pub node_type: NodeType,
    pub number: String,
    pub title: Option<String>,
    pub content: String,
    pub children: Vec<ArticleNode>,
    pub start_line: usize,
}

/// The mathematical value of an [`ArticleNode`].
pub struct NodeView {
    pub node_type: NodeType,
    pub number: Seq<char>,
    pub title: Option<Seq<char>>,
    pub content: Seq<char>,
    pub children: Seq<NodeView>,
    pub start_line: nat,
}

/// The characters of an optional string.
pub open spec fn opt_string_view(o: Option<String>) -> Option<Seq<char>> {
    match o {
        Some(s) => Some(s@),
        None => None,
    }
}

/// The value of a node: its fields with the strings as character sequences
/// and the children as values in turn.
pub open spec fn node_view(n: ArticleNode) -> NodeView
    decreases n, n.children@.len() + 1,
{
    NodeView {
        node_type: n.node_type,
        number: n.number@,
        title: opt_string_view(n.title),
        content: n.content@,
        children: child_views(n, n.children@.len()),
        start_line: n.start_line as nat,
    }
}

/// The values of the first `k` children of `n`.
pub open spec fn child_views(n: ArticleNode, k: nat) -> Seq<NodeView>
    decreases n, k,
{
    if k == 0 || k > n.children@.len() {
        Seq::empty()
    } else {
        child_views(n, (k - 1) as nat).push(node_view(n.children@[k - 1]))
    }
}

/// The values of a sequence of nodes.
pub open spec fn nodes_view(s: Seq<ArticleNode>) -> Seq<NodeView> {
    s.map_values(|n: ArticleNode| node_view(n))
}

proof fn lemma_child_views(n: ArticleNode, k: nat)
    requires
        k <= n.children@.len(),
    ensures
        child_views(n, k) == nodes_view(n.children@.take(k as int)),
    decreases k,
{
    if k > 0 {
        lemma_child_views(n, (k - 1) as nat);
        assert(n.children@.take(k as int).drop_last() =~= n.children@.take(k - 1));
        assert(child_views(n, k) =~= nodes_view(n.children@.take(k as int)));
    } else {
        assert(child_views(n, k) =~= nodes_view(n.children@.take(k as int)));
    }
}

/// The children of a node's value are the values of its children.
pub proof fn lemma_node_children(n: ArticleNode)
    ensures
        node_view(n).children == nodes_view(n.children@),
{
    lemma_child_views(n, n.children@.len());
    assert(n.children@.take(n.children@.len() as int) =~= n.children@);
}

impl View for ArticleNode {
    type V = NodeView;

    open spec fn view(&self) -> NodeView {
        node_view(*self)
    }
}

/// A copy of an optional string.
pub fn clone_opt_string(o: &Option<String>) -> (r: Option<String>)
    ensures
        opt_string_view(r) == opt_string_view(*o),
{
    match o {
        Some(s) => Some(s.clone()),
        None => None,
    }
}

/// A copy of a vector of strings.
pub fn clone_strings(v: &Vec<String>) -> (r: Vec<String>)
    ensures
        strings_view(r@) == strings_view(v@),
{
    let mut r: Vec<String> = Vec::new();
    let mut i: usize = 0;
    while i < v.len()
        invariant
            i <= v@.len(),
            r@.len() == i,
            forall|k: int| 0 <= k < i ==> r@[k]@ == v@[k]@,
        decreases v.len() - i,
    {
        r.push(v[i].clone());
        i += 1;
    }
    assert(strings_view(r@) =~= strings_view(v@));
    r
}

impl Clone for ArticleNode {
    fn clone(&self) -> (r: Self)
        ensures
            r@ == self@,
        decreases self,
    {
        let mut kids: Vec<ArticleNode> = Vec::new();
        let mut i: usize = 0;
        while i < self.children.len()
            invariant
                i <= self.children@.len(),
                kids@.len() == i,
                forall|k: int| 0 <= k < i ==> node_view(#[trigger] kids@[k]) == node_view(self.children@[k]),
            decreases self.children.len() - i,
        {
            let c = self.children[i].clone();
            kids.push(c);
            i += 1;
        }
        let r = ArticleNode {
            node_type: self.node_type,
            number: self.number.clone(),
            title: clone_opt_string(&self.title),
            content: self.content.clone(),
            children: kids,
            start_line: self.start_line,
        };
        proof {
            lemma_node_children(r);
            lemma_node_children(*self);
            assert(nodes_view(r.children@) =~= nodes_view(self.children@));
        }
        r
    }
}

/// An article as the aligner sees it: one `Article` or `Preamble` node with
/// the text of all its descendants and the labels of its ancestors.
#[derive(Debug)]
pub struct ArticleInfo {
    pub number: String,
    pub content: String,
    pub title: Option<String>,
    pub start_line: usize,
    pub node_type: NodeType,
    /// Labels of the enclosing parts, chapters and sections, outermost first.
    pub parents: Vec<String>,
}

/// The mathematical value of an [`ArticleInfo`].
pub struct InfoView {
    pub number: Seq<char>,
    pub content: Seq<char>,
    pub title: Option<Seq<char>>,
    pub start_line: nat,
    pub node_type: NodeType,
    pub parents: Seq<Seq<char>>,
}

impl View for ArticleInfo {
    type V = InfoView;

    open spec fn view(&self) -> InfoView {
        InfoView {
            number: self.number@,
            content: self.content@,
            title: opt_string_view(self.title),
            start_line: self.start_line as nat,
            node_type: self.node_type,
            parents: strings_view(self.parents@),
        }
    }
}

impl Clone for ArticleInfo {
    fn clone(&self) -> (r: Self)
        ensures
            r@ == self@,
    {
        ArticleInfo {
            number: self.number.clone(),
            content: self.content.clone(),
            title: clone_opt_string(&self.title),
            start_line: self.start_line,
            node_type: self.node_type,
            parents: clone_strings(&self.parents),
        }
    }
}

/// The values of a sequence of articles.
pub open spec fn infos_view(s: Seq<ArticleInfo>) -> Seq<InfoView> {
    s.map_values(|a: ArticleInfo| a@)
}

/// Kind of a line-level change.
#[derive(Debug, Clone, Copy, PartialEq, Eq, Structural)]
pub enum ChangeType {
    Add,
    Delete,
    Modify,
    Unchanged,
}

/// Kind of a named entity.
#[derive(Debug, Clone, Copy, PartialEq, Eq, Structural)]
pub enum EntityType {
    Date,
    Scope,
    Registry,
    Penalty,
    Amount,
    Other,
}

/// A byte range of a text.
#[derive(Debug, Clone, Copy, PartialEq, Eq, Structural)]
pub struct Position {
    pub start: usize,
    pub end: usize,
}

/// A named entity found in a text. The confidence is in units of
/// `1 / SCALE`.
#[derive(Debug, Clone)]
pub struct Entity {
    pub entity_type: EntityType,
    pub value: String,
    pub confidence: u32,
    pub position: Position,
}

/// One line-level change.
#[derive(Debug, Clone)]
pub struct Change {
    pub change_type: ChangeType,
    pub old_line: Option<usize>,
    pub new_line: Option<usize>,
    pub old_content: Option<String>,
    pub new_content: Option<String>,
    pub entities: Option<Vec<Entity>>,
}

/// Counts of line-level changes.
#[derive(Debug, Clone, Copy, PartialEq, Eq, Structural)]
pub struct DiffStats {
    pub additions: usize,
    pub deletions: usize,
    pub modifications: usize,
    pub unchanged: usize,
}

/// The four component similarities of two texts and their weighted sum, each
/// in units of `1 / SCALE`.
#[derive(Debug, Clone, Copy, PartialEq, Eq, Structural)]
pub struct SimilarityScore {
    pub char_similarity: u32,
    pub jaccard_similarity: u32,
    pub containment_similarity: u32,
    pub keyword_weight: u32,
    pub composite: u32,
}

/// The weighted sum of the four components: three tenths each for the
/// character and the containment similarity, two tenths each for the Jaccard
/// similarity and the keyword weight.
pub open spec fn composite_of(char_sim: int, jaccard_sim: int, containment_sim: int, keyword_weight: int) -> int {
    (3 * char_sim + 2 * jaccard_sim + 3 * containment_sim + 2 * keyword_weight) / 10
}

impl SimilarityScore {
    /// The score with the given components and their weighted sum.
    pub fn new(char_sim: u32, jaccard_sim: u32, containment_sim: u32, keyword_weight: u32) -> (r: Self)
        ensures
            r.char_similarity == char_sim,
            r.jaccard_similarity == jaccard_sim,
            r.containment_similarity == containment_sim,
            r.keyword_weight == keyword_weight,
            r.composite == composite_of(
                char_sim as int,
                jaccard_sim as int,
                containment_sim as int,
                keyword_weight as int,
            ),
    {
        let c: u64 = char_sim as u64;
        let j: u64 = jaccard_sim as u64;
        let t: u64 = containment_sim as u64;
        let k: u64 = keyword_weight as u64;
        let sum: u64 = 3 * c + 2 * j + 3 * t + 2 * k;
        let composite: u64 = sum / 10;
        SimilarityScore {
            char_similarity: char_sim,
            jaccard_similarity: jaccard_sim,
            containment_similarity: containment_sim,
            keyword_weight,
            composite: composite as u32,
        }
    }
}

/// One outcome of an alignment.
#[derive(Debug)]
pub struct ArticleChange {
    pub change_type: ArticleChangeType,
    pub old_article: Option<ArticleInfo>,
    /// One article for a one-to-one outcome, several for a split.
    pub new_articles: Option<Vec<ArticleInfo>>,
    pub similarity: Option<u32>,
    /// Word-level changes, which the aligner leaves empty.
    pub details: Option<Vec<Change>>,
    pub tags: Vec<String>,
}

/// The mathematical value of an [`ArticleChange`], without its details.
pub struct ChangeView {
    pub change_type: ArticleChangeType,
    pub old_article: Option<InfoView>,
    pub new_articles: Option<Seq<InfoView>>,
    pub similarity: Option<u32>,
    pub tags: Seq<Seq<char>>,
}

impl View for ArticleChange {
    type V = ChangeView;

    open spec fn view(&self) -> ChangeView {
        ChangeView {
            change_type: self.change_type,
            old_article: match self.old_article {
                Some(a) => Some(a@),
                None => None,
            },
            new_articles: match self.new_articles {
                Some(v) => Some(infos_view(v@)),
                None => None,
            },
            similarity: self.similarity,
            tags: strings_view(self.tags@),
        }
    }
}

/// The values of a sequence of changes.
pub open spec fn changes_view(s: Seq<ArticleChange>) -> Seq<ChangeView> {
    s.map_values(|c: ArticleChange| c@)
}

/// The result of a comparison.
#[derive(Debug)]
pub struct DiffResult {
    pub similarity: u32,
    pub changes: Vec<Change>,
    pub article_changes: Option<Vec<ArticleChange>>,
    pub entities: Vec<Entity>,
    pub stats: DiffStats,
}

/// Options of a comparison. The similarities are in units of `1 / SCALE`.
#[derive(Debug)]
pub struct CompareOptions {
    pub detect_entities: bool,
    pub granularity: String,
    /// `regex`, `bert` or `hybrid`.
    pub ner_mode: Option<String>,
    pub align_threshold: u32,
    pub format_text: bool,
    pub min_similarity: Option<u32>,
    pub max_similarity: Option<u32>,
    pub invert_similarity: bool,
}

/// A request to compare two texts.
#[derive(Debug)]
pub struct CompareRequest {
    pub old_text: String,
    pub new_text: String,
    pub options: CompareOptions,
}

/// The alignment threshold used where a request names none: six tenths.
pub fn default_align_threshold() -> (r: u32)
    ensures
        r == 600_000,
{
    600_000
}

/// The value of an option that is on where a request does not name it.
pub fn default_true() -> (r: bool)
    ensures
        r,
{
    true
}

/// The granularity used where a request names none: by word.
pub fn default_word_granularity() -> (r: String)
    ensures
        r@ == "word"@,
{
    String::from_str("word")
}

impl Default for CompareOptions {
    fn default() -> (r: Self)
        ensures
            r.detect_entities,
            r.granularity@ == "word"@,
            r.ner_mode is None,
            r.align_threshold == 600_000,
            !r.format_text,
            r.min_similarity is None,
            r.max_similarity is None,
            !r.invert_similarity,
    {
        CompareOptions {
            detect_entities: default_true(),
            granularity: default_word_granularity(),
            ner_mode: None,
            align_threshold: default_align_threshold(),
            format_text: false,
            min_similarity: None,
            max_similarity: None,
            invert_similarity: false,
        }
    }
}

} // verus!
