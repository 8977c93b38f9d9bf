//! How the entities of two engines are put together.

use vstd::prelude::*;
use crate::models::Entity;
use crate::nlp::regex_ner::{by_start, copy_entity, entities_view, place_entity, EntityView};

verus! {

/// Whether the byte ranges of two entities overlap: one starts or ends
/// inside the other, or covers it.
pub open spec fn overlaps(a: EntityView, b: EntityView) -> bool {
    (b.start >= a.start && b.start < a.end) || (b.end > a.start && b.end <= a.end) || (b.start
        <= a.start && b.end >= a.end)
}

/// Whether `b` overlaps one of the first `k` of `list`.
pub open spec fn overlaps_any(list: Seq<EntityView>, b: EntityView, k: nat) -> bool
    decreases k,
{
    if k == 0 || k > list.len() {
        false
    } else {
        overlaps_any(list, b, (k - 1) as nat) || overlaps(list[k - 1], b)
    }
}

/// `first` followed by those of the first `k` of `second` that overlap none
/// of `first`.
pub open spec fn joined_entities(first: Seq<EntityView>, second: Seq<EntityView>, k: nat) -> Seq<
    EntityView,
>
    decreases k,
{
    if k == 0 || k > second.len() {
        first
    } else if overlaps_any(first, second[k - 1], first.len()) {
        joined_entities(first, second, (k - 1) as nat)
    } else {
        joined_entities(first, second, (k - 1) as nat).push(second[k - 1])
    }
}

fn overlaps_one(list: &Vec<Entity>, b: &Entity) -> (r: bool)
    ensures
        r == overlaps_any(entities_view(list@), b@, list@.len()),
{
    let mut r = false;
    let mut i: usize = 0;
    while i < list.len()
        invariant
            i <= list@.len(),
            r == overlaps_any(entities_view(list@), b@, i as nat),
        decreases list.len() - i,
    {
        let a = &list[i];
        assert(entities_view(list@)[i as int] == a@);
        let hit = (b.position.start >= a.position.start && b.position.start < a.position.end) || (
        b.position.end > a.position.start && b.position.end <= a.position.end) || (b.position.start
            <= a.position.start && b.position.end >= a.position.end);
        r = r || hit;
        i += 1;
    }
    r
}

/// The entities of the first engine and those of the second that overlap
/// none of the first, together ordered by their start.
pub fn merge_entities(regex_entities: Vec<Entity>, bert_entities: Vec<Entity>) -> (merged: Vec<Entity>)
    ensures
        entities_view(merged@) == by_start(
            joined_entities(
                entities_view(regex_entities@),
                entities_view(bert_entities@),
                bert_entities@.len(),
            ),
            joined_entities(
                entities_view(regex_entities@),
                entities_view(bert_entities@),
                bert_entities@.len(),
            ).len(),
        ),
{
    let ghost first = entities_view(regex_entities@);
    let ghost second = entities_view(bert_entities@);
    let mut all: Vec<Entity> = Vec::new();
    let mut i: usize = 0;
    while i < regex_entities.len()
        invariant
            i <= regex_entities@.len(),
            first == entities_view(regex_entities@),
            entities_view(all@) == first.take(i as int),
        decreases regex_entities.len() - i,
    {
        let ghost before = entities_view(all@);
        all.push(copy_entity(&regex_entities[i]));
        assert(entities_view(all@) =~= before.push(first[i as int]));
        assert(first.take(i as int).push(first[i as int]) =~= first.take(i + 1));
        i += 1;
    }
    assert(first.take(first.len() as int) =~= first);
    let mut k: usize = 0;
    while k < bert_entities.len()
        invariant
            k <= bert_entities@.len(),
            first == entities_view(regex_entities@),
            second == entities_view(bert_entities@),
            entities_view(all@) == joined_entities(first, second, k as nat),
        decreases bert_entities.len() - k,
    {
        assert(second[k as int] == bert_entities@[k as int]@);
        if !overlaps_one(&regex_entities, &bert_entities[k]) {
            let ghost before = entities_view(all@);
            all.push(copy_entity(&bert_entities[k]));
            assert(entities_view(all@) =~= before.push(second[k as int]));
        }
        k += 1;
    }
    let ghost list = entities_view(all@);
    let mut merged: Vec<Entity> = Vec::new();
    let mut j: usize = 0;
    assert(entities_view(merged@) =~= by_start(list, 0));
    while j < all.len()
        invariant
            j <= all@.len(),
            list == entities_view(all@),
            entities_view(merged@) == by_start(list, j as nat),
        decreases all.len() - j,
    {
        assert(list[j as int] == all@[j as int]@);
        place_entity(&mut merged, copy_entity(&all[j]));
        j += 1;
    }
    merged
}

/// The sum of the lengths of the first `k` entities.
pub open spec fn covered_bytes(list: Seq<EntityView>, k: nat) -> int
    decreases k,
{
    if k == 0 || k > list.len() {
        0
    } else {
        covered_bytes(list, (k - 1) as nat) + if list[k - 1].end >= list[k - 1].start {
            list[k - 1].end - list[k - 1].start
        } else {
            0
        }
    }
}

/// The share of a text of `text_length` bytes that the entities cover, in
/// units of `1 / SCALE` and not above `SCALE`: the sum of their lengths over
/// the length of the text. An empty text is not covered.
pub open spec fn coverage_of(list: Seq<EntityView>, text_length: usize) -> int {
    let covered = covered_bytes(list, list.len());
    if text_length == 0 {
        0
    } else if covered >= text_length {
        crate::models::SCALE as int
    } else {
        (covered * crate::models::SCALE) / (text_length as int)
    }
}

/// The share of a text that the entities cover.
pub fn calculate_coverage(entities: &Vec<Entity>, text_length: usize) -> (r: u32)
    ensures
        r == coverage_of(entities_view(entities@), text_length),
        r <= crate::models::SCALE,
{
    if text_length == 0 {
        return 0;
    }
    let ghost list = entities_view(entities@);
    let mut covered: u128 = 0;
    let mut i: usize = 0;
    while i < entities.len()
        invariant
            i <= entities@.len(),
            list == entities_view(entities@),
            covered <= text_length + usize::MAX,
            covered_bytes(list, i as nat) < text_length ==> covered == covered_bytes(list, i as nat),
            covered_bytes(list, i as nat) >= text_length ==> covered >= text_length,
        decreases entities.len() - i,
    {
        assert(list[i as int] == entities@[i as int]@);
        let p = &entities[i].position;
        let len: usize = if p.end >= p.start {
            p.end - p.start
        } else {
            0
        };
        if covered < text_length as u128 {
            covered = covered + len as u128;
        }
        i += 1;
    }
    if covered >= text_length as u128 {
        crate::models::SCALE
    } else {
        let q: u128 = (covered * 1_000_000) / (text_length as u128);
        assert(q < 1_000_000) by (nonlinear_arith)
            requires
                q == (covered * 1_000_000) / (text_length as int),
                covered < text_length,
                text_length > 0,
        {
        }
        q as u32
    }
}

} // verus!
