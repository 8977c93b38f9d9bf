//! The engine that finds named entities with regular expressions: dates and
//! periods, amounts of money, penalties, registry terms and scopes.

use vstd::prelude::*;
use crate::models::{Entity, EntityType, Position};
use crate::nlp::ner_trait::{NEREngine, NerError};
use crate::pattern::{find_all, regex_find_all, spans_view};

verus! {

/// The mathematical value of an [`Entity`].
pub struct EntityView {
    pub entity_type: EntityType,
    pub value: Seq<char>,
    pub confidence: u32,
    pub start: usize,
    pub end: usize,
}

impl View for Entity {
    type V = EntityView;

    open spec fn view(&self) -> EntityView {
        EntityView {
            entity_type: self.entity_type,
            value: self.value@,
            confidence: self.confidence,
            start: self.position.start,
            end: self.position.end,
        }
    }
}

/// The values of a sequence of entities.
pub open spec fn entities_view(s: Seq<Entity>) -> Seq<EntityView> {
    s.map_values(|e: Entity| e@)
}

/// A copy of an entity.
pub fn copy_entity(e: &Entity) -> (r: Entity)
    ensures
        r@ == e@,
{
    Entity {
        entity_type: e.entity_type,
        value: e.value.clone(),
        confidence: e.confidence,
        position: Position { start: e.position.start, end: e.position.end },
    }
}

/// The expression that finds the entities of a kind; none for `Other`.
pub open spec fn pattern_of(kind: EntityType) -> Seq<char> {
    match kind {
        EntityType::Date => "(\\d{4}年\\d{1,2}月\\d{1,2}日|\\d+个月|\\d+年|[一二三四五六七八九十]+个月|[一二三四五六七八九十]+年)"@,
        EntityType::Amount => "([一二三四五六七八九十百千万亿\\d]+元|[一二三四五六七八九十百千万\\d]+万元)"@,
        EntityType::Penalty => "(处罚|罚款|吊销|拘留|监禁|警告|责令|暂停|停业)"@,
        EntityType::Registry => "(登记|注册|备案|审批|许可)"@,
        EntityType::Scope => "(境内|境外|全国|地区|范围)"@,
        EntityType::Other => ""@,
    }
}

fn pattern_text(kind: EntityType) -> (p: &'static str)
    ensures
        p@ == pattern_of(kind),
{
    match kind {
        EntityType::Date => "(\\d{4}年\\d{1,2}月\\d{1,2}日|\\d+个月|\\d+年|[一二三四五六七八九十]+个月|[一二三四五六七八九十]+年)",
        EntityType::Amount => "([一二三四五六七八九十百千万亿\\d]+元|[一二三四五六七八九十百千万\\d]+万元)",
        EntityType::Penalty => "(处罚|罚款|吊销|拘留|监禁|警告|责令|暂停|停业)",
        EntityType::Registry => "(登记|注册|备案|审批|许可)",
        EntityType::Scope => "(境内|境外|全国|地区|范围)",
        EntityType::Other => "",
    }
}

/// The least confidence of an entity of a kind, in units of `1 / SCALE`.
pub open spec fn base_confidence(kind: EntityType) -> u32 {
    match kind {
        EntityType::Date => 850_000,
        EntityType::Amount => 880_000,
        EntityType::Penalty => 900_000,
        EntityType::Registry => 870_000,
        EntityType::Scope => 860_000,
        EntityType::Other => 0,
    }
}

/// The width of the range in which the confidence of an entity varies: five
/// hundredths, or, where `wide` holds, a tenth, for penalties eight
/// hundredths.
pub open spec fn confidence_width(kind: EntityType, wide: bool) -> u32 {
    if !wide {
        50_000
    } else if kind == EntityType::Penalty {
        80_000
    } else {
        100_000
    }
}

/// The confidence of an entity of a kind for which `draw` was drawn: its
/// base raised by the draw, reduced to the width of the range.
pub open spec fn confidence_for(kind: EntityType, draw: u32, wide: bool) -> u32 {
    (base_confidence(kind) + draw % confidence_width(kind, wide)) as u32
}

/// The confidence of an entity of a kind for which `draw` was drawn.
pub fn confidence_of(kind: EntityType, draw: u32, wide: bool) -> (r: u32)
    ensures
        r == confidence_for(kind, draw, wide),
        base_confidence(kind) <= r < base_confidence(kind) + confidence_width(kind, wide),
{
    let base: u32 = match kind {
        EntityType::Date => 850_000,
        EntityType::Amount => 880_000,
        EntityType::Penalty => 900_000,
        EntityType::Registry => 870_000,
        EntityType::Scope => 860_000,
        EntityType::Other => 0,
    };
    let width: u32 = if !wide {
        50_000
    } else if kind == EntityType::Penalty {
        80_000
    } else {
        100_000
    };
    base + draw % width
}

/// The kinds in the order in which their entities are looked for.
pub open spec fn searched_kinds() -> Seq<EntityType> {
    seq![
        EntityType::Date,
        EntityType::Amount,
        EntityType::Penalty,
        EntityType::Registry,
        EntityType::Scope,
    ]
}

/// A place where an entity of a kind was found: the kind, the byte offsets
/// and the text.
pub type Finding = (EntityType, usize, usize, Seq<char>);

/// The places where the expression of a kind matches in `text`.
pub open spec fn findings_of(kind: EntityType, text: Seq<char>) -> Seq<Finding> {
    match regex_find_all(pattern_of(kind), text) {
        Some(spans) => spans.map_values(|m: (usize, usize, Seq<char>)| (kind, m.0, m.1, m.2)),
        None => Seq::empty(),
    }
}

/// The places found for the first `k` kinds, kind by kind.
pub open spec fn findings(text: Seq<char>, k: nat) -> Seq<Finding>
    decreases k,
{
    if k == 0 || k > searched_kinds().len() {
        Seq::empty()
    } else {
        findings(text, (k - 1) as nat) + findings_of(searched_kinds()[k - 1], text)
    }
}

/// All places found in `text`.
pub open spec fn all_findings(text: Seq<char>) -> Seq<Finding> {
    findings(text, searched_kinds().len())
}

/// The entity at a place, with the confidence that `draw` gives.
pub open spec fn entity_at(f: Finding, draw: u32, wide: bool) -> EntityView {
    EntityView {
        entity_type: f.0,
        value: f.3,
        confidence: confidence_for(f.0, draw, wide),
        start: f.1,
        end: f.2,
    }
}

/// Where `e` goes among the first `k` of the entities `s` ordered by their
/// start: behind every entity that does not start after it.
pub open spec fn place_of(s: Seq<EntityView>, e: EntityView, k: nat) -> nat
    decreases k,
{
    if k == 0 || k > s.len() {
        0
    } else if s[k - 1].start <= e.start {
        k
    } else {
        place_of(s, e, (k - 1) as nat)
    }
}

/// `s` with `e` put in its place.
pub open spec fn placed(s: Seq<EntityView>, e: EntityView) -> Seq<EntityView> {
    s.insert(place_of(s, e, s.len()) as int, e)
}

/// The first `k` of `list` ordered by their start; entities that start
/// together keep their order.
pub open spec fn by_start(list: Seq<EntityView>, k: nat) -> Seq<EntityView>
    decreases k,
{
    if k == 0 || k > list.len() {
        Seq::empty()
    } else {
        placed(by_start(list, (k - 1) as nat), list[k - 1])
    }
}

/// The entities at the first `k` places, the `i`-th with the confidence that
/// the `i`-th draw gives, ordered by their start.
pub open spec fn labelled(found: Seq<Finding>, draws: Seq<u32>, wide: bool, k: nat) -> Seq<EntityView>
    decreases k,
{
    if k == 0 || k > found.len() || k > draws.len() {
        Seq::empty()
    } else {
        placed(
            labelled(found, draws, wide, (k - 1) as nat),
            entity_at(found[k - 1], draws[k - 1], wide),
        )
    }
}

/// Puts an entity in its place among entities ordered by their start.
pub fn place_entity(list: &mut Vec<Entity>, e: Entity)
    ensures
        entities_view(final(list)@) == placed(entities_view(old(list)@), e@),
{
    let ghost s = entities_view(list@);
    let mut p: usize = list.len();
    while p > 0 && list[p - 1].position.start > e.position.start
        invariant
            p <= list@.len(),
            s == entities_view(list@),
            place_of(s, e@, s.len()) == place_of(s, e@, p as nat),
        decreases p,
    {
        assert(s[p - 1] == list@[p - 1]@);
        p -= 1;
    }
    proof {
        if p > 0 {
            assert(s[p - 1] == list@[p - 1]@);
        }
    }
    let ghost ev = e@;
    list.insert(p, e);
    assert(entities_view(list@) =~= s.insert(p as int, ev));
}

/// A place where an entity was found.
pub struct Found {
    pub kind: EntityType,
    pub start: usize,
    pub end: usize,
    pub text: String,
}

impl View for Found {
    type V = Finding;

    open spec fn view(&self) -> Finding {
        (self.kind, self.start, self.end, self.text@)
    }
}

/// The values of a sequence of places.
pub open spec fn found_view(s: Seq<Found>) -> Seq<Finding> {
    s.map_values(|f: Found| f@)
}

fn add_findings(kind: EntityType, text: &str, found: &mut Vec<Found>)
    ensures
        found_view(final(found)@) == found_view(old(found)@) + findings_of(kind, text@),
{
    let ghost start = found_view(found@);
    match find_all(pattern_text(kind), text) {
        Some(spans) => {
            let ghost target = findings_of(kind, text@);
            assert(target.len() == spans@.len());
            let mut i: usize = 0;
            assert(found_view(found@) =~= start + target.take(0));
            while i < spans.len()
                invariant
                    i <= spans@.len(),
                    target.len() == spans@.len(),
                    target == spans_view(spans@).map_values(
                        |m: (usize, usize, Seq<char>)| (kind, m.0, m.1, m.2),
                    ),
                    found_view(found@) == start + target.take(i as int),
                decreases spans.len() - i,
            {
                let ghost before = found_view(found@);
                let f = Found {
                    kind,
                    start: spans[i].0,
                    end: spans[i].1,
                    text: spans[i].2.clone(),
                };
                assert(f@ == target[i as int]);
                found.push(f);
                assert(found_view(found@) =~= before.push(target[i as int]));
                assert(start + target.take(i as int + 1) =~= (start + target.take(i as int)).push(
                    target[i as int],
                ));
                i += 1;
            }
            assert(target.take(spans@.len() as int) =~= target);
        },
        None => {
            assert(start + findings_of(kind, text@) =~= start);
        },
    }
}

/// The places where entities stand in `text`, kind by kind.
pub fn find_entities(text: &str) -> (found: Vec<Found>)
    ensures
        found_view(found@) == all_findings(text@),
{
    let mut found: Vec<Found> = Vec::new();
    assert(found_view(found@) =~= findings(text@, 0));
    add_findings(EntityType::Date, text, &mut found);
    assert(found_view(found@) == findings(text@, 1));
    add_findings(EntityType::Amount, text, &mut found);
    assert(found_view(found@) == findings(text@, 2));
    add_findings(EntityType::Penalty, text, &mut found);
    assert(found_view(found@) == findings(text@, 3));
    add_findings(EntityType::Registry, text, &mut found);
    assert(found_view(found@) == findings(text@, 4));
    add_findings(EntityType::Scope, text, &mut found);
    assert(found_view(found@) == findings(text@, 5));
    found
}

/// The entities at the places `found`, each with the confidence that its
/// draw gives, ordered by their start.
pub fn label_entities(found: &Vec<Found>, draws: &Vec<u32>, wide: bool) -> (entities: Vec<Entity>)
    requires
        draws@.len() == found@.len(),
    ensures
        entities_view(entities@) == labelled(found_view(found@), draws@, wide, found@.len()),
{
    let mut entities: Vec<Entity> = Vec::new();
    let mut i: usize = 0;
    assert(entities_view(entities@) =~= labelled(found_view(found@), draws@, wide, 0));
    while i < found.len()
        invariant
            i <= found@.len(),
            draws@.len() == found@.len(),
            entities_view(entities@) == labelled(found_view(found@), draws@, wide, i as nat),
        decreases found.len() - i,
    {
        let f = &found[i];
        assert(found_view(found@)[i as int] == f@);
        let e = Entity {
            entity_type: f.kind,
            value: f.text.clone(),
            confidence: confidence_of(f.kind, draws[i], wide),
            position: Position { start: f.start, end: f.end },
        };
        place_entity(&mut entities, e);
        i += 1;
    }
    entities
}

/// `rand::random` for `u32`: a number drawn by chance, of which nothing is
/// assumed.
#[verifier::external_body]
pub(crate) fn random_draw() -> u32 {
    rand::random::<u32>()
}

/// The entities of `text`, each with a confidence drawn by chance from the
/// range of its kind, ordered by their start.
pub fn extract_with_chance(text: &str, wide: bool) -> (entities: Vec<Entity>)
    ensures
        exists|draws: Seq<u32>|
            draws.len() == all_findings(text@).len() && entities_view(entities@) == #[trigger] labelled(
                all_findings(text@),
                draws,
                wide,
                draws.len(),
            ),
{
    let found = find_entities(text);
    let mut draws: Vec<u32> = Vec::new();
    let mut i: usize = 0;
    while i < found.len()
        invariant
            i <= found@.len(),
            draws@.len() == i,
        decreases found.len() - i,
    {
        draws.push(random_draw());
        i += 1;
    }
    label_entities(&found, &draws, wide)
}

/// The engine that works with regular expressions.
#[derive(Debug, Clone, Copy, PartialEq, Eq, Structural)]
pub struct RegexNER;

impl RegexNER {
    /// The engine. It holds no state.
    pub fn new() -> (r: Self) {
        Self
    }

    /// The entities of `text`, each with a confidence from its base up to
    /// five hundredths more, ordered by their start.
    pub fn find(&self, text: &str) -> (entities: Vec<Entity>)
        ensures
            exists|draws: Seq<u32>|
                draws.len() == all_findings(text@).len() && entities_view(entities@)
                    == #[trigger] labelled(all_findings(text@), draws, false, draws.len()),
    {
        extract_with_chance(text, false)
    }
}

impl NEREngine for RegexNER {
    /// The entities of `text`, as `find` gives them. This engine never fails.
    fn extract_entities(&self, text: &str) -> (r: Result<Vec<Entity>, NerError>)
        ensures
            r is Ok,
            exists|draws: Seq<u32>|
                draws.len() == all_findings(text@).len() && entities_view(r->Ok_0@)
                    == #[trigger] labelled(all_findings(text@), draws, false, draws.len()),
    {
        Ok(self.find(text))
    }

    fn name(&self) -> (r: &'static str)
        ensures
            r@ == "Regex NER"@,
    {
        "Regex NER"
    }

    fn confidence_range(&self) -> (r: (u32, u32))
        ensures
            r == (850_000u32, 920_000u32),
    {
        (850_000, 920_000)
    }
}

} // verus!
