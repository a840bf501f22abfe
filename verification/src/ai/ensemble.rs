//! How the scores of several models become one.

use vstd::prelude::*;

use crate::score::{product_units, ratio_units, Score, ONE_UNITS};
use crate::text::{lower, lowered, same_text, trim, trimmed};
use crate::total::{capped, product_total, share, total_bound, total_of, total_units, units_of, Total};

verus! {

/// How the scores of several models are put together.
#[derive(Debug, Clone, Copy, PartialEq, Eq, Structural)]
pub enum EnsembleStrategy {
    WeightedMean,
    MaxRisk,
    MajorityVote,
}

/// The strategy that a name stands for.
pub open spec fn strategy_named(name: Seq<char>) -> Option<EnsembleStrategy> {
    if name == "weighted_mean"@ || name == "weighted-mean"@ || name == "mean"@ || name
        == "average"@ {
        Some(EnsembleStrategy::WeightedMean)
    } else if name == "max_risk"@ || name == "max-risk"@ || name == "max"@ || name
        == "conservative"@ {
        Some(EnsembleStrategy::MaxRisk)
    } else if name == "majority_vote"@ || name == "majority-vote"@ || name == "vote"@ {
        Some(EnsembleStrategy::MajorityVote)
    } else {
        None
    }
}

impl EnsembleStrategy {
    /// The strategy that a text names, but for case and white space around it.
    pub fn parse(value: &str) -> (strategy: Option<Self>)
        ensures
            strategy == strategy_named(lowered(trimmed(value@))),
    {
        let name = lower(trim(value).as_str());
        let n = name.as_str();
        if same_text(n, "weighted_mean") || same_text(n, "weighted-mean") || same_text(n, "mean")
            || same_text(n, "average") {
            Some(EnsembleStrategy::WeightedMean)
        } else if same_text(n, "max_risk") || same_text(n, "max-risk") || same_text(n, "max")
            || same_text(n, "conservative") {
            Some(EnsembleStrategy::MaxRisk)
        } else if same_text(n, "majority_vote") || same_text(n, "majority-vote") || same_text(
            n,
            "vote",
        ) {
            Some(EnsembleStrategy::MajorityVote)
        } else {
            None
        }
    }

    pub open spec fn name(self) -> Seq<char> {
        match self {
            EnsembleStrategy::WeightedMean => "weighted_mean"@,
            EnsembleStrategy::MaxRisk => "max_risk"@,
            EnsembleStrategy::MajorityVote => "majority_vote"@,
        }
    }

    pub fn as_str(self) -> (name: &'static str)
        ensures
            name@ == self.name(),
    {
        match self {
            EnsembleStrategy::WeightedMean => "weighted_mean",
            EnsembleStrategy::MaxRisk => "max_risk",
            EnsembleStrategy::MajorityVote => "majority_vote",
        }
    }
}

impl Default for EnsembleStrategy {
    fn default() -> (strategy: Self)
        ensures
            strategy == EnsembleStrategy::WeightedMean,
    {
        EnsembleStrategy::WeightedMean
    }
}

/// The name of a strategy is read back as that strategy.
pub proof fn law_strategy_name_reads_back(strategy: EnsembleStrategy)
    ensures
        strategy_named(lowered(trimmed(strategy.name()))) == Some(strategy),
{
    reveal_strlit("weighted_mean");
    reveal_strlit("max_risk");
    reveal_strlit("majority_vote");
    let name = strategy.name();
    crate::text::lemma_trimmed(name);
    assert(lowered(name) =~= name);
    reveal_strlit("weighted-mean");
    reveal_strlit("mean");
    reveal_strlit("average");
    reveal_strlit("max-risk");
    reveal_strlit("max");
    reveal_strlit("conservative");
    assert("weighted_mean"@.len() == 13);
    assert("max_risk"@.len() == 8);
    assert("majority_vote"@.len() == 13);
    assert("majority_vote"@[0] != "weighted_mean"@[0]);
    assert("majority_vote"@[0] != "weighted-mean"@[0]);
}

/// Weights that add up to no more than this many units weigh nothing.
pub const WEIGHTLESS_UNITS: u128 = 0x20_0000_0000;

/// A model counts as a vote for malice from this score on.
pub const VOTE_UNITS: u128 = 0x800_0000_0000_0000;

pub open spec fn weights_of(scores: Seq<(Score, Score)>) -> Seq<Score> {
    scores.map_values(|s: (Score, Score)| s.1)
}

pub open spec fn plain_scores(scores: Seq<(Score, Score)>) -> Seq<Score> {
    scores.map_values(|s: (Score, Score)| s.0)
}

pub open spec fn votes(score: Score) -> bool {
    score.units >= VOTE_UNITS
}

/// The weights of the models that vote for malice.
pub open spec fn vote_weights(scores: Seq<(Score, Score)>) -> Seq<Score>
    decreases scores.len(),
{
    if scores.len() == 0 {
        Seq::empty()
    } else {
        let before = vote_weights(scores.drop_last());
        if votes(scores.last().0) {
            before.push(scores.last().1)
        } else {
            before
        }
    }
}

/// Each score, cut at one, times its weight, in units.
pub open spec fn weighted(scores: Seq<(Score, Score)>) -> Seq<nat> {
    scores.map_values(
        |s: (Score, Score)|
            product_units(s.0.lesser(Score::one()).units as nat, s.1.units as nat),
    )
}

pub open spec fn highest(scores: Seq<(Score, Score)>) -> Score
    decreases scores.len(),
{
    if scores.len() == 0 {
        Score::zero()
    } else {
        highest(scores.drop_last()).greater(scores.last().0)
    }
}

/// The score of a whole number.
pub open spec fn whole(n: nat) -> Score {
    Score { units: (n * ONE_UNITS as nat) as u128 }
}

/// The score of several models. The highest wins, or the votes of at least half the weight,
/// or the mean by weight is taken. Where the weights weigh nothing, each model counts the
/// same.
pub open spec fn aggregated(strategy: EnsembleStrategy, scores: Seq<(Score, Score)>) -> Score {
    let total = total_units(units_of(weights_of(scores)));
    if scores.len() == 0 {
        Score::zero()
    } else {
        match strategy {
            EnsembleStrategy::MaxRisk => highest(scores).lesser(Score::one()),
            EnsembleStrategy::MajorityVote => {
                let won = if total <= WEIGHTLESS_UNITS {
                    vote_weights(scores).len() * 2 >= scores.len()
                } else {
                    total_units(units_of(vote_weights(scores))) * 2 >= total
                };
                if won {
                    Score::one()
                } else {
                    Score::zero()
                }
            },
            EnsembleStrategy::WeightedMean => {
                if total <= WEIGHTLESS_UNITS {
                    capped(
                        ratio_units(
                            total_units(units_of(plain_scores(scores))),
                            scores.len() * ONE_UNITS as nat,
                        ),
                    )
                } else {
                    capped(ratio_units(total_units(weighted(scores)), total))
                }
            },
        }
    }
}

fn weights(scores: &[(Score, Score)]) -> (list: Vec<Score>)
    ensures
        list@ == weights_of(scores@),
{
    let mut list: Vec<Score> = Vec::new();
    let mut i: usize = 0;
    while i < scores.len()
        invariant
            i <= scores@.len(),
            list@ == weights_of(scores@).take(i as int),
        decreases scores@.len() - i,
    {
        list.push(scores[i].1);
        assert(weights_of(scores@).take(i + 1) =~= weights_of(scores@).take(i as int).push(
            scores@[i as int].1,
        ));
        i = i + 1;
    }
    assert(weights_of(scores@).take(i as int) =~= weights_of(scores@));
    list
}

fn unweighted(scores: &[(Score, Score)]) -> (list: Vec<Score>)
    ensures
        list@ == plain_scores(scores@),
{
    let mut list: Vec<Score> = Vec::new();
    let mut i: usize = 0;
    while i < scores.len()
        invariant
            i <= scores@.len(),
            list@ == plain_scores(scores@).take(i as int),
        decreases scores@.len() - i,
    {
        list.push(scores[i].0);
        assert(plain_scores(scores@).take(i + 1) =~= plain_scores(scores@).take(i as int).push(
            scores@[i as int].0,
        ));
        i = i + 1;
    }
    assert(plain_scores(scores@).take(i as int) =~= plain_scores(scores@));
    list
}

fn weighted_total(scores: &[(Score, Score)]) -> (total: Total)
    ensures
        total.value() == total_units(weighted(scores@)),
        total.value() <= total_bound(),
{
    let mut total = Total::of(0);
    let mut i: usize = 0;
    let one = Score { units: ONE_UNITS };
    let ghost all = weighted(scores@);
    while i < scores.len()
        invariant
            i <= scores@.len(),
            one == Score::one(),
            all == weighted(scores@),
            total.value() == total_units(all.take(i as int)),
            total.value() <= total_bound(),
        decreases scores@.len() - i,
    {
        assert(all.take(i + 1).drop_last() =~= all.take(i as int));
        total = total.plus(product_total(scores[i].0.min(one), scores[i].1));
        i = i + 1;
    }
    assert(all.take(i as int) =~= all);
    total
}

fn voters(scores: &[(Score, Score)]) -> (list: Vec<Score>)
    ensures
        list@ == vote_weights(scores@),
        list@.len() <= scores@.len(),
{
    let mut list: Vec<Score> = Vec::new();
    let mut i: usize = 0;
    while i < scores.len()
        invariant
            i <= scores@.len(),
            list@ == vote_weights(scores@.take(i as int)),
            list@.len() <= i,
        decreases scores@.len() - i,
    {
        assert(scores@.take(i + 1).drop_last() =~= scores@.take(i as int));
        if scores[i].0.units >= VOTE_UNITS {
            list.push(scores[i].1);
        }
        i = i + 1;
    }
    assert(scores@.take(i as int) =~= scores@);
    list
}

fn highest_of(scores: &[(Score, Score)]) -> (top: Score)
    ensures
        top == highest(scores@),
{
    let mut top = Score { units: 0 };
    let mut i: usize = 0;
    while i < scores.len()
        invariant
            i <= scores@.len(),
            top == highest(scores@.take(i as int)),
        decreases scores@.len() - i,
    {
        assert(scores@.take(i + 1).drop_last() =~= scores@.take(i as int));
        top = top.max(scores[i].0);
        i = i + 1;
    }
    assert(scores@.take(i as int) =~= scores@);
    top
}

/// Puts the scores of several models together, each with its weight.
pub fn aggregate_scores(strategy: EnsembleStrategy, scores: &[(Score, Score)]) -> (score: Score)
    ensures
        score == aggregated(strategy, scores@),
        score.in_unit(),
{
    let one = Score { units: ONE_UNITS };
    let zero = Score { units: 0 };
    let count: usize = scores.len();
    if count == 0 {
        return zero;
    }
    match strategy {
        EnsembleStrategy::MaxRisk => highest_of(scores).min(one),
        EnsembleStrategy::MajorityVote => {
            let total = total_of(&weights(scores));
            let list = voters(scores);
            let won = if Total::of(WEIGHTLESS_UNITS).reaches(total) {
                list.len() >= count - list.len()
            } else {
                total_of(&list).doubled().reaches(total)
            };
            if won {
                one
            } else {
                zero
            }
        },
        EnsembleStrategy::WeightedMean => {
            let total = total_of(&weights(scores));
            if Total::of(WEIGHTLESS_UNITS).reaches(total) {
                share(total_of(&unweighted(scores)), Total::of(count as u128 * ONE_UNITS))
            } else {
                share(weighted_total(scores), total)
            }
        },
    }
}

/// No model's score is above what the cautious strategy gives.
pub proof fn law_max_risk_is_an_upper_bound(scores: Seq<(Score, Score)>, index: int)
    requires
        0 <= index < scores.len(),
        scores[index].0.in_unit(),
    ensures
        aggregated(EnsembleStrategy::MaxRisk, scores).units >= scores[index].0.units,
{
    lemma_highest(scores, index);
}

proof fn lemma_highest(scores: Seq<(Score, Score)>, index: int)
    requires
        0 <= index < scores.len(),
    ensures
        highest(scores).units >= scores[index].0.units,
    decreases scores.len(),
{
    if index < scores.len() - 1 {
        lemma_highest(scores.drop_last(), index);
    }
}

/// Where every model votes for malice, the vote is won, whatever the weights are.
pub proof fn law_unanimous_vote_wins(scores: Seq<(Score, Score)>)
    requires
        scores.len() > 0,
        forall|i: int| 0 <= i < scores.len() ==> votes((#[trigger] scores[i]).0),
    ensures
        aggregated(EnsembleStrategy::MajorityVote, scores) == Score::one(),
{
    lemma_all_vote(scores);
}

proof fn lemma_all_vote(scores: Seq<(Score, Score)>)
    requires
        forall|i: int| 0 <= i < scores.len() ==> votes((#[trigger] scores[i]).0),
    ensures
        vote_weights(scores) == weights_of(scores),
    decreases scores.len(),
{
    if scores.len() > 0 {
        assert(votes(scores[scores.len() - 1].0));
        lemma_all_vote(scores.drop_last());
        assert(weights_of(scores) =~= weights_of(scores.drop_last()).push(scores.last().1));
    } else {
        assert(weights_of(scores) =~= Seq::empty());
    }
}

} // verus!
