//! What several models must give together.

use crate::ai::ensemble::{
    aggregated, highest, plain_scores, vote_weights, votes, weighted, weights_of, EnsembleStrategy,
};
use crate::ai::inference::{
    all_answers, contributions, ensemble_score, malice_index, AiScoreView, AnswerView,
    ComponentView, EnsembleSettings,
};
use crate::ai::model::AiErrorView;
use crate::monotone::{lemma_product_monotone, lemma_ratio_monotone, lemma_rounded_monotone};
use crate::score::{product_units, Score, ONE_UNITS};
use crate::score_laws::{law_more_terms_sum_no_less, lemma_total_settled, terms_among};
use crate::total::{total_units, units_of};
use vstd::prelude::*;

verus! {

/// The models of `b` weigh as those of `a`, and none gives a lower score.
pub open spec fn raised(a: Seq<(Score, Score)>, b: Seq<(Score, Score)>) -> bool {
    &&& a.len() == b.len()
    &&& forall|i: int| 0 <= i < a.len() ==> (#[trigger] a[i]).1 == b[i].1
    &&& forall|i: int| 0 <= i < a.len() ==> (#[trigger] a[i]).0.units <= b[i].0.units
}

proof fn lemma_totals_ordered(a: Seq<nat>, b: Seq<nat>)
    requires
        a.len() == b.len(),
        forall|i: int| 0 <= i < a.len() ==> #[trigger] a[i] <= b[i],
    ensures
        total_units(a) <= total_units(b),
    decreases a.len(),
{
    if a.len() > 0 {
        assert forall|i: int| 0 <= i < a.drop_last().len() implies #[trigger] a.drop_last()[i]
            <= b.drop_last()[i] by {
            assert(a[i] <= b[i]);
        }
        lemma_totals_ordered(a.drop_last(), b.drop_last());
        assert(a[a.len() - 1] <= b[b.len() - 1]);
        lemma_rounded_monotone(
            total_units(a.drop_last()) + a.last(),
            total_units(b.drop_last()) + b.last(),
        );
    }
}

proof fn lemma_highest_raised(a: Seq<(Score, Score)>, b: Seq<(Score, Score)>)
    requires
        raised(a, b),
    ensures
        highest(a).units <= highest(b).units,
    decreases a.len(),
{
    if a.len() > 0 {
        assert(a[a.len() - 1].0.units <= b[b.len() - 1].0.units);
        assert(raised(a.drop_last(), b.drop_last()));
        lemma_highest_raised(a.drop_last(), b.drop_last());
    }
}

proof fn lemma_votes_raised(a: Seq<(Score, Score)>, b: Seq<(Score, Score)>)
    requires
        raised(a, b),
    ensures
        terms_among(units_of(vote_weights(a)), units_of(vote_weights(b))),
        vote_weights(a).len() <= vote_weights(b).len(),
    decreases a.len(),
{
    let few = units_of(vote_weights(a));
    let many = units_of(vote_weights(b));
    if a.len() > 0 {
        let n = a.len() - 1;
        assert(a[n].1 == b[n].1 && a[n].0.units <= b[n].0.units);
        assert(raised(a.drop_last(), b.drop_last()));
        lemma_votes_raised(a.drop_last(), b.drop_last());
        let fewer = units_of(vote_weights(a.drop_last()));
        let fewer_many = units_of(vote_weights(b.drop_last()));
        if votes(b.last().0) {
            assert(many =~= fewer_many.push(b.last().1.units as nat));
            assert(many.drop_last() =~= fewer_many);
            if votes(a.last().0) {
                assert(few =~= fewer.push(a.last().1.units as nat));
                assert(few.drop_last() =~= fewer);
            }
        }
    } else {
        assert(few =~= Seq::empty());
        assert(many =~= Seq::empty());
    }
}

/// No strategy answers a raised score with a lower one.
pub proof fn law_raised_scores_never_lower(
    strategy: EnsembleStrategy,
    a: Seq<(Score, Score)>,
    b: Seq<(Score, Score)>,
)
    requires
        raised(a, b),
    ensures
        aggregated(strategy, a).units <= aggregated(strategy, b).units,
{
    assert(weights_of(a) =~= weights_of(b)) by {
        assert forall|i: int| 0 <= i < a.len() implies weights_of(a)[i] == weights_of(b)[i] by {
            assert(a[i].1 == b[i].1);
        }
    }
    let total = total_units(units_of(weights_of(a)));
    lemma_highest_raised(a, b);
    lemma_votes_raised(a, b);
    law_more_terms_sum_no_less(units_of(vote_weights(a)), units_of(vote_weights(b)));
    if a.len() > 0 {
        let p = units_of(plain_scores(a));
        let q = units_of(plain_scores(b));
        assert forall|i: int| 0 <= i < p.len() implies #[trigger] p[i] <= q[i] by {
            assert(a[i].0.units <= b[i].0.units);
        }
        lemma_totals_ordered(p, q);
        let one = ONE_UNITS as nat;
        assert(a.len() * one >= 1) by (nonlinear_arith)
            requires
                a.len() >= 1,
                one >= 1,
        ;
        lemma_ratio_monotone(total_units(p), total_units(q), a.len() * one);
        let x = weighted(a);
        let y = weighted(b);
        assert forall|i: int| 0 <= i < x.len() implies #[trigger] x[i] <= y[i] by {
            assert(a[i].1 == b[i].1);
            assert(a[i].0.units <= b[i].0.units);
            lemma_product_monotone(
                a[i].0.lesser(Score::one()).units as nat,
                a[i].1.units as nat,
                b[i].0.lesser(Score::one()).units as nat,
                b[i].1.units as nat,
            );
        }
        lemma_totals_ordered(x, y);
        if total >= 1 {
            lemma_ratio_monotone(total_units(x), total_units(y), total);
        }
    }
}

proof fn lemma_highest_is_there(scores: Seq<(Score, Score)>) -> (i: int)
    requires
        scores.len() > 0,
    ensures
        0 <= i < scores.len(),
        highest(scores) == scores[i].0,
    decreases scores.len(),
{
    let last = scores.len() - 1;
    let front = scores.drop_last();
    if front.len() == 0 {
        assert(highest(front) == Score::zero());
        last
    } else {
        let i = lemma_highest_is_there(front);
        if highest(scores) == scores.last().0 {
            last
        } else {
            i
        }
    }
}

/// The highest risk is the score of one of the models, cut at one.
pub proof fn law_max_risk_is_the_score_of_a_model(scores: Seq<(Score, Score)>) -> (i: int)
    requires
        scores.len() > 0,
    ensures
        0 <= i < scores.len(),
        aggregated(EnsembleStrategy::MaxRisk, scores) == scores[i].0.lesser(Score::one()),
{
    lemma_highest_is_there(scores)
}

proof fn lemma_no_votes(scores: Seq<(Score, Score)>)
    requires
        forall|i: int| 0 <= i < scores.len() ==> 2 * (#[trigger] scores[i]).0.units < ONE_UNITS,
    ensures
        vote_weights(scores).len() == 0,
    decreases scores.len(),
{
    if scores.len() > 0 {
        assert(2 * scores[scores.len() - 1].0.units < ONE_UNITS);
        assert forall|i: int| 0 <= i < scores.drop_last().len() implies 2 * (
        #[trigger] scores.drop_last()[i]).0.units < ONE_UNITS by {
            assert(scores[i] == scores.drop_last()[i]);
        }
        lemma_no_votes(scores.drop_last());
    }
}

/// A model votes for malice from a half on: below it none does, and a majority of none finds
/// no malice.
pub proof fn law_votes_count_from_a_half_on(scores: Seq<(Score, Score)>, score: Score)
    ensures
        votes(score) <==> 2 * score.units >= ONE_UNITS,
        (forall|i: int|
            0 <= i < scores.len() ==> 2 * (#[trigger] scores[i]).0.units < ONE_UNITS)
            ==> aggregated(EnsembleStrategy::MajorityVote, scores) == Score::zero(),
{
    if forall|i: int| 0 <= i < scores.len() ==> 2 * (#[trigger] scores[i]).0.units < ONE_UNITS {
        lemma_no_votes(scores);
        assert(units_of(vote_weights(scores)) =~= Seq::empty());
        assert(total_units(units_of(vote_weights(scores))) == 0);
    }
}

proof fn lemma_nothing(a: nat)
    ensures
        product_units(a, 0) == 0,
{
    let step = crate::monotone::product_step(0);
    assert(a * 0 == 0);
    crate::score::lemma_granule_positive(0);
    assert(crate::score::nearest(0, step) == 0) by {
        assert(0nat / step == 0 && 0nat % step == 0) by (nonlinear_arith)
            requires
                step >= 1,
        ;
    }
    assert(0 * step == 0);
}

/// A further model of no weight leaves the mean as it is where the others weigh something.
pub proof fn law_weightless_model_does_not_count(scores: Seq<(Score, Score)>, score: Score)
    requires
        scores.len() > 0,
        total_units(units_of(weights_of(scores))) > crate::ai::ensemble::WEIGHTLESS_UNITS,
    ensures
        aggregated(EnsembleStrategy::WeightedMean, scores.push((score, Score::zero())))
            == aggregated(EnsembleStrategy::WeightedMean, scores),
{
    let more = scores.push((score, Score::zero()));
    let w = units_of(weights_of(scores));
    assert(units_of(weights_of(more)) =~= w.push(0));
    assert(w.push(0).drop_last() =~= w);
    lemma_total_settled(w);
    let x = weighted(scores);
    lemma_nothing(score.lesser(Score::one()).units as nat);
    assert(weighted(more) =~= x.push(0));
    assert(x.push(0).drop_last() =~= x);
    lemma_total_settled(x);
}

/// Without an ensemble the first model decides; where it fails the second one does, and where
/// both fail the failure of the first is told.
pub proof fn law_first_model_decides_alone(
    settings: EnsembleSettings,
    primary: Result<AiScoreView, AiErrorView>,
    fallback: Option<Result<AiScoreView, AiErrorView>>,
    extras: Seq<AnswerView>,
)
    requires
        !settings.enabled,
    ensures
        primary is Ok ==> ensemble_score(settings, primary, fallback, extras) == primary,
        primary is Err && fallback is Some && fallback->0 is Ok ==> ensemble_score(
            settings,
            primary,
            fallback,
            extras,
        ) == fallback->0,
        primary is Err && (fallback is None || fallback->0 is Err) ==> ensemble_score(
            settings,
            primary,
            fallback,
            extras,
        ) == primary,
{
}

proof fn lemma_contributes(list: Seq<AnswerView>, k: int)
    requires
        0 <= k < list.len(),
        list[k].result is Ok,
    ensures
        contributions(list).contains(
            ComponentView {
                id: list[k].id,
                score: list[k].result->Ok_0.score,
                weight: list[k].weight,
            },
        ),
    decreases list.len(),
{
    let c = ComponentView {
        id: list[k].id,
        score: list[k].result->Ok_0.score,
        weight: list[k].weight,
    };
    let front = list.drop_last();
    let before = contributions(front);
    if k == list.len() - 1 {
        assert(contributions(list)[before.len() as int] == c);
    } else {
        assert(front[k] == list[k]);
        lemma_contributes(front, k);
        let i = before.index_of(c);
        assert(contributions(list)[i] == c);
    }
}

proof fn lemma_contribution_has_source(list: Seq<AnswerView>, i: int) -> (k: int)
    requires
        0 <= i < contributions(list).len(),
    ensures
        0 <= k < list.len(),
        list[k].result is Ok,
        contributions(list)[i].id == list[k].id,
        contributions(list)[i].score == list[k].result->Ok_0.score,
        contributions(list)[i].weight == list[k].weight,
    decreases list.len(),
{
    let front = list.drop_last();
    let before = contributions(front);
    if i < before.len() {
        lemma_contribution_has_source(front, i)
    } else {
        list.len() - 1
    }
}

/// In an ensemble every model that answered counts with its own score and weight, and the
/// whole fails only where all failed.
pub proof fn law_every_answer_counts(
    settings: EnsembleSettings,
    primary: Result<AiScoreView, AiErrorView>,
    fallback: Option<Result<AiScoreView, AiErrorView>>,
    extras: Seq<AnswerView>,
    k: int,
)
    requires
        settings.enabled,
        0 <= k < all_answers(settings.blend_primary, primary, fallback, extras).len(),
        all_answers(settings.blend_primary, primary, fallback, extras)[k].result is Ok,
    ensures
        ({
            let model = all_answers(settings.blend_primary, primary, fallback, extras)[k];
            let whole = ensemble_score(settings, primary, fallback, extras);
            &&& whole is Ok
            &&& whole->Ok_0.components.contains(
                ComponentView {
                    id: model.id,
                    score: model.result->Ok_0.score,
                    weight: model.weight,
                },
            )
            &&& model.result->Ok_0.is_fallback ==> whole->Ok_0.is_fallback
        }),
{
    lemma_contributes(all_answers(settings.blend_primary, primary, fallback, extras), k);
}

/// An ensemble in which every model failed tells the failure of the first.
pub proof fn law_all_failures_fail(
    settings: EnsembleSettings,
    error: AiErrorView,
    fallback: Option<Result<AiScoreView, AiErrorView>>,
    extras: Seq<AnswerView>,
)
    requires
        settings.enabled,
        fallback is None || fallback->0 is Err,
        forall|i: int| 0 <= i < extras.len() ==> (#[trigger] extras[i]).result is Err,
    ensures
        ensemble_score(settings, Err(error), fallback, extras) == Err::<AiScoreView, AiErrorView>(
            error,
        ),
{
    let list = all_answers(settings.blend_primary, Err(error), fallback, extras);
    if contributions(list).len() > 0 {
        let k = lemma_contribution_has_source(list, 0);
        let more = list.len() - extras.len();
        if k >= more {
            assert(list[k] == extras[k - more]);
        }
        assert(list[k].result is Err);
    }
}

/// The first two models weigh what the blend gives them, together one, and one each where
/// further models take part.
pub proof fn law_first_models_share_the_weight(
    blend: Score,
    primary: Result<AiScoreView, AiErrorView>,
    fallback: Result<AiScoreView, AiErrorView>,
    extras: Seq<AnswerView>,
)
    ensures
        ({
            let list = all_answers(blend, primary, Some(fallback), extras);
            &&& list.len() == 2 + extras.len()
            &&& list[0].result == primary && list[1].result == fallback
            &&& extras.len() == 0 ==> list[0].weight == blend && list[1].weight
                == Score::one().difference(blend)
            &&& extras.len() > 0 ==> list[0].weight == Score::one() && list[1].weight
                == Score::one()
            &&& forall|i: int| 0 <= i < extras.len() ==> list[2 + i] == #[trigger] extras[i]
        }),
{
}

/// The last output stands for malice where none is named; a named one does where it is there.
pub proof fn law_malice_has_its_output(named: usize, values: nat)
    requires
        values >= 1,
    ensures
        malice_index(None, values) == Ok::<nat, AiErrorView>((values - 1) as nat),
        named < values ==> malice_index(Some(named), values) == Ok::<nat, AiErrorView>(
            named as nat,
        ),
        named >= values ==> malice_index(Some(named), values) is Err,
{
}

} // verus!
