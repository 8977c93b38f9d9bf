//! What a request handler computes around a comparison: the entities of both
//! texts, the selection of changes by similarity, and the overall similarity.

use vstd::prelude::*;
use crate::models::{ArticleChange, ArticleChangeType, CompareOptions, CompareRequest, Entity, SCALE};
use crate::nlp::ner_trait::{create_ner_engine, NERMode};
use crate::nlp::regex_ner::{all_findings, entities_view, labelled};

verus! {

/// The similarity by which a change is selected: its own, and where it has
/// none, `SCALE` for an unchanged article and zero for any other.
pub open spec fn selection_similarity(c: ArticleChange) -> u32 {
    match c.similarity {
        Some(s) => s,
        None => if c.change_type == ArticleChangeType::Unchanged {
            SCALE
        } else {
            0
        },
    }
}

/// Whether the options select a change: its similarity lies between the
/// least and the largest one asked for, or, where the selection is inverted,
/// does not.
pub open spec fn is_selected(c: ArticleChange, options: CompareOptions) -> bool {
    let min = match options.min_similarity {
        Some(m) => m,
        None => 0,
    };
    let max = match options.max_similarity {
        Some(m) => m,
        None => SCALE,
    };
    let s = selection_similarity(c);
    (min <= s && s <= max) != options.invert_similarity
}

/// The selected ones among the first `k` changes, in order.
pub open spec fn selected(s: Seq<ArticleChange>, options: CompareOptions, k: nat) -> Seq<
    ArticleChange,
>
    decreases k,
{
    if k == 0 || k > s.len() {
        Seq::empty()
    } else if is_selected(s[k - 1], options) {
        selected(s, options, (k - 1) as nat).push(s[k - 1])
    } else {
        selected(s, options, (k - 1) as nat)
    }
}

/// The selected ones among the changes from index `k` on, in order.
pub open spec fn selected_from(s: Seq<ArticleChange>, options: CompareOptions, k: int) -> Seq<
    ArticleChange,
>
    decreases s.len() - k,
{
    if k < 0 || k >= s.len() {
        Seq::empty()
    } else if is_selected(s[k], options) {
        seq![s[k]] + selected_from(s, options, k + 1)
    } else {
        selected_from(s, options, k + 1)
    }
}

proof fn lemma_selected_split(s: Seq<ArticleChange>, options: CompareOptions, k: nat)
    requires
        k <= s.len(),
    ensures
        selected(s, options, k) + selected_from(s, options, k as int) == selected(
            s,
            options,
            s.len(),
        ),
    decreases s.len() - k,
{
    if k < s.len() {
        lemma_selected_split(s, options, k + 1);
        if is_selected(s[k as int], options) {
            assert(selected(s, options, k) + (seq![s[k as int]] + selected_from(
                s,
                options,
                k as int + 1,
            )) =~= selected(s, options, k).push(s[k as int]) + selected_from(
                s,
                options,
                k as int + 1,
            ));
        }
    } else {
        assert(selected(s, options, k) + selected_from(s, options, k as int) =~= selected(
            s,
            options,
            k,
        ));
    }
}

fn selects(c: &ArticleChange, options: &CompareOptions) -> (r: bool)
    ensures
        r == is_selected(*c, *options),
{
    let min = match options.min_similarity {
        Some(m) => m,
        None => 0,
    };
    let max = match options.max_similarity {
        Some(m) => m,
        None => SCALE,
    };
    let s = match c.similarity {
        Some(s) => s,
        None => if c.change_type == ArticleChangeType::Unchanged {
            SCALE
        } else {
            0
        },
    };
    (min <= s && s <= max) != options.invert_similarity
}

/// Keeps the changes that the options select. Options that name neither a
/// least nor a largest similarity keep every change.
pub fn apply_similarity_filter(changes: Vec<ArticleChange>, options: &CompareOptions) -> (kept: Vec<
    ArticleChange,
>)
    ensures
        options.min_similarity is None && options.max_similarity is None ==> kept@ == changes@,
        options.min_similarity is Some || options.max_similarity is Some ==> kept@ == selected(
            changes@,
            *options,
            changes@.len(),
        ),
{
    if options.min_similarity.is_none() && options.max_similarity.is_none() {
        return changes;
    }
    let ghost all = changes@;
    let mut rest = changes;
    let mut kept_rev: Vec<ArticleChange> = Vec::new();
    assert(rest@ =~= all.take(rest@.len() as int));
    assert(selected_from(all, *options, all.len() as int) =~= kept_rev@.reverse());
    while rest.len() > 0
        invariant
            rest@.len() <= all.len(),
            rest@ == all.take(rest@.len() as int),
            selected_from(all, *options, rest@.len() as int) == kept_rev@.reverse(),
        decreases rest@.len(),
    {
        let ghost k = rest@.len();
        let c = rest.pop().unwrap();
        assert(c == all[k - 1]);
        assert(rest@ =~= all.take(k - 1));
        let ghost old_rev = kept_rev@.reverse();
        if selects(&c, options) {
            kept_rev.push(c);
            assert(kept_rev@.reverse() =~= seq![c] + old_rev);
        }
    }
    let ghost rev = kept_rev@;
    let mut kept: Vec<ArticleChange> = Vec::new();
    assert(kept_rev@ =~= rev.take(kept_rev@.len() as int));
    assert(kept@ + kept_rev@.reverse() =~= rev.reverse());
    while kept_rev.len() > 0
        invariant
            kept_rev@.len() <= rev.len(),
            kept_rev@ == rev.take(kept_rev@.len() as int),
            kept@ + kept_rev@.reverse() == rev.reverse(),
        decreases kept_rev@.len(),
    {
        let ghost k = kept_rev@.len();
        let c = kept_rev.pop().unwrap();
        kept.push(c);
        assert(kept_rev@ =~= rev.take(k - 1));
        assert(kept@ + kept_rev@.reverse() =~= rev.reverse());
    }
    proof {
        assert(kept_rev@.reverse() =~= Seq::<ArticleChange>::empty());
        assert(kept@ + Seq::<ArticleChange>::empty() =~= kept@);
        lemma_selected_split(all, *options, 0);
        assert(selected(all, *options, 0) + selected_from(all, *options, 0) =~= selected_from(
            all,
            *options,
            0,
        ));
    }
    kept
}

/// The sum of the similarities of the first `k` changes, a change without
/// similarity counting as zero.
pub open spec fn similarity_sum(s: Seq<ArticleChange>, k: nat) -> nat
    decreases k,
{
    if k == 0 || k > s.len() {
        0
    } else {
        similarity_sum(s, (k - 1) as nat) + match s[k - 1].similarity {
            Some(x) => x as nat,
            None => 0nat,
        }
    }
}

/// The overall similarity of an alignment: the mean over its changes, zero
/// where there is none.
pub open spec fn mean_similarity(s: Seq<ArticleChange>) -> nat {
    if s.len() == 0 {
        0
    } else {
        similarity_sum(s, s.len()) / s.len()
    }
}

/// The overall similarity of an alignment.
pub fn average_similarity(changes: &Vec<ArticleChange>) -> (r: u32)
    ensures
        r == mean_similarity(changes@),
{
    if changes.len() == 0 {
        return 0;
    }
    let mut total: u128 = 0;
    let mut i: usize = 0;
    while i < changes.len()
        invariant
            i <= changes@.len(),
            total == similarity_sum(changes@, i as nat),
            total <= i * 0xffff_ffff,
        decreases changes.len() - i,
    {
        let s: u32 = match changes[i].similarity {
            Some(x) => x,
            None => 0,
        };
        total = total + s as u128;
        i += 1;
    }
    let n: u128 = changes.len() as u128;
    let mean: u128 = total / n;
    assert(mean <= 0xffff_ffff) by (nonlinear_arith)
        requires
            mean == total / n,
            total <= n * 0xffff_ffff,
            n > 0,
    {
    }
    mean as u32
}

/// The engine that the options name, the one with regular expressions where
/// they name none or one that is not known.
pub fn mode_of(options: &CompareOptions) -> (mode: NERMode)
    ensures
        mode == NERMode::Regex,
{
    match &options.ner_mode {
        Some(name) => match NERMode::from_str(name.as_str()) {
            Some(mode) => mode,
            None => NERMode::default(),
        },
        None => NERMode::default(),
    }
}

/// The entities of the old text followed by those of the new text, where the
/// request asks for entities; none where it does not.
pub fn extract_entities_helper(payload: &CompareRequest) -> (entities: Vec<Entity>)
    ensures
        !payload.options.detect_entities ==> entities@.len() == 0,
        payload.options.detect_entities ==> exists|d1: Seq<u32>, d2: Seq<u32>|
            d1.len() == all_findings(payload.old_text@).len() && d2.len() == all_findings(
                payload.new_text@,
            ).len() && entities_view(entities@) == #[trigger] labelled(
                all_findings(payload.old_text@),
                d1,
                false,
                d1.len(),
            ) + #[trigger] labelled(all_findings(payload.new_text@), d2, false, d2.len()),
{
    let mode = mode_of(&payload.options);
    if payload.options.detect_entities {
        match create_ner_engine(mode) {
            Ok(engine) => {
                let mut all = engine.find(payload.old_text.as_str());
                let ghost first = entities_view(all@);
                let mut second = engine.find(payload.new_text.as_str());
                let ghost second_view = entities_view(second@);
                all.append(&mut second);
                assert(entities_view(all@) =~= first + second_view);
                return all;
            },
            Err(_) => {},
        }
    }
    Vec::new()
}

} // verus!
