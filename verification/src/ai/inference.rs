//! Running a model and putting the answers of several models together. The runtime is the
//! caller's: it reports what each attempt gave.

use vstd::prelude::*;

use crate::ai::ensemble::{aggregate_scores, aggregated, EnsembleStrategy};
use crate::ai::model::{AiError, AiErrorView};
use crate::heuristic::analysis::{analysis_of, analyze_bytes_at, EntropyReadings};
use crate::objects::format_of;
use crate::score::{Score, ONE_UNITS};
use crate::text::{
    concat2, concat3, decimal, decimal_text, join, joined, push_text, texts,
};

verus! {

/// How the output of a model is to be read.
#[derive(Debug, Clone, Copy, PartialEq, Eq, Structural)]
pub enum OutputKind {
    Auto,
    Probability,
    Logit,
}

impl Default for OutputKind {
    fn default() -> (kind: Self)
        ensures
            kind == OutputKind::Auto,
    {
        OutputKind::Auto
    }
}

/// What is said of the output of a model.
#[derive(Debug, Clone, Copy, PartialEq, Eq, Structural)]
pub struct ModelContract {
    pub output_index: Option<usize>,
    pub malicious_index: Option<usize>,
    pub output_kind: OutputKind,
}

impl ModelContract {
    /// Nothing is said.
    pub open spec fn silent() -> ModelContract {
        ModelContract {
            output_index: None,
            malicious_index: None,
            output_kind: OutputKind::Auto,
        }
    }
}

impl Default for ModelContract {
    fn default() -> (contract: Self)
        ensures
            contract == ModelContract::silent(),
    {
        ModelContract { output_index: None, malicious_index: None, output_kind: OutputKind::Auto }
    }
}

pub open spec fn decimals(shape: Seq<usize>) -> Seq<Seq<char>> {
    shape.map_values(|d: usize| decimal(d as nat))
}

/// A shape in words.
pub open spec fn shape_text(shape: Seq<usize>) -> Seq<char> {
    "["@ + joined(decimals(shape), ","@) + "]"@
}

pub fn format_shape(shape: &[usize]) -> (text: String)
    ensures
        text@ == shape_text(shape@),
{
    let mut parts: Vec<String> = Vec::new();
    let mut i: usize = 0;
    assert(texts(parts@) =~= decimals(shape@).take(0));
    while i < shape.len()
        invariant
            i <= shape@.len(),
            texts(parts@) == decimals(shape@).take(i as int),
        decreases shape@.len() - i,
    {
        push_text(&mut parts, decimal_text(shape[i] as u64));
        assert(decimals(shape@).take(i + 1) =~= decimals(shape@).take(i as int).push(
            decimals(shape@)[i as int],
        ));
        i = i + 1;
    }
    assert(decimals(shape@).take(i as int) =~= decimals(shape@));
    concat3("[", join(&parts, ",").as_str(), "]")
}

/// How many elements a shape has, where the products along the way can be held.
pub open spec fn volume(shape: Seq<usize>) -> Option<nat>
    decreases shape.len(),
{
    if shape.len() == 0 {
        Some(1)
    } else {
        match volume(shape.drop_last()) {
            Some(v) => if v * shape.last() <= usize::MAX {
                Some(v * shape.last() as nat)
            } else {
                None
            },
            None => None,
        }
    }
}

fn volume_of(shape: &[usize]) -> (v: Option<usize>)
    ensures
        v matches Some(n) ==> volume(shape@) == Some(n as nat),
        v is None <==> volume(shape@) is None,
{
    let mut v: usize = 1;
    let mut i: usize = 0;
    while i < shape.len()
        invariant
            i <= shape@.len(),
            volume(shape@.take(i as int)) == Some(v as nat),
        decreases shape@.len() - i,
    {
        assert(shape@.take(i + 1).drop_last() =~= shape@.take(i as int));
        match v.checked_mul(shape[i]) {
            Some(n) => {
                v = n;
            },
            None => {
                proof {
                    lemma_volume_lost(shape@, i + 1);
                }
                return None;
            },
        }
        i = i + 1;
    }
    assert(shape@.take(i as int) =~= shape@);
    Some(v)
}

proof fn lemma_volume_lost(shape: Seq<usize>, k: int)
    requires
        0 <= k <= shape.len(),
        volume(shape.take(k)) is None,
    ensures
        volume(shape) is None,
    decreases shape.len() - k,
{
    if k < shape.len() {
        assert(shape.take(k + 1).drop_last() =~= shape.take(k));
        lemma_volume_lost(shape, k + 1);
    } else {
        assert(shape.take(k) =~= shape);
    }
}

/// The shapes that are tried where the model leaves its input open.
pub open spec fn open_shapes(n: usize) -> Seq<Seq<usize>> {
    seq![
        seq![n],
        seq![1, n],
        seq![n, 1],
        seq![1, n, 1],
        seq![1, 1, n],
        seq![1, n, 1, 1],
        seq![1, 1, n, 1],
        seq![1, 1, 1, n],
        seq![n, 1, 1, 1],
    ]
}

/// Each shape once, where it first occurs.
pub open spec fn distinct_shapes(shapes: Seq<Seq<usize>>) -> Seq<Seq<usize>>
    decreases shapes.len(),
{
    if shapes.len() == 0 {
        Seq::empty()
    } else {
        let before = distinct_shapes(shapes.drop_last());
        if before.contains(shapes.last()) {
            before
        } else {
            before.push(shapes.last())
        }
    }
}

pub open spec fn shape_views(shapes: Seq<Vec<usize>>) -> Seq<Seq<usize>> {
    shapes.map_values(|s: Vec<usize>| s@)
}

fn same_shape(a: &[usize], b: &[usize]) -> (same: bool)
    ensures
        same == (a@ == b@),
{
    if a.len() != b.len() {
        return false;
    }
    let mut i: usize = 0;
    while i < a.len()
        invariant
            i <= a@.len(),
            a@.len() == b@.len(),
            forall|k: int| 0 <= k < i ==> a@[k] == b@[k],
        decreases a@.len() - i,
    {
        if a[i] != b[i] {
            assert(a@[i as int] != b@[i as int]);
            return false;
        }
        i = i + 1;
    }
    assert(a@ =~= b@);
    true
}

fn add_shape(shapes: &mut Vec<Vec<usize>>, shape: Vec<usize>)
    ensures
        shape_views(final(shapes)@) == (if shape_views(old(shapes)@).contains(shape@) {
            shape_views(old(shapes)@)
        } else {
            shape_views(old(shapes)@).push(shape@)
        }),
{
    let ghost views = shape_views(shapes@);
    let mut i: usize = 0;
    while i < shapes.len()
        invariant
            i <= shapes@.len(),
            views == shape_views(shapes@),
            shapes@ == old(shapes)@,
            forall|k: int| 0 <= k < i ==> views[k] != shape@,
        decreases shapes@.len() - i,
    {
        if same_shape(&shapes[i], &shape) {
            assert(views[i as int] == shape@);
            return;
        }
        assert(views[i as int] != shape@);
        i = i + 1;
    }
    assert(!views.contains(shape@));
    assert(shape_views(shapes@.push(shape)) =~= views.push(shape@));
    shapes.push(shape);
}

proof fn lemma_open_shapes(n: usize)
    ensures
        ({
            let all = open_shapes(n);
            &&& all.take(0) == Seq::<Seq<usize>>::empty()
            &&& all.take(9) == all
            &&& forall|k: int| 0 <= k < 9 ==> #[trigger] all.take(k + 1).drop_last() == all.take(k)
        }),
{
    let all = open_shapes(n);
    assert(all.take(0) =~= Seq::empty());
    assert(all.take(9) =~= all);
    assert forall|k: int| 0 <= k < 9 implies #[trigger] all.take(k + 1).drop_last() == all.take(
        k,
    ) by {
        assert(all.take(k + 1).drop_last() =~= all.take(k));
    }
}

fn shape_number(n: usize, index: usize) -> (shape: Vec<usize>)
    requires
        index < 9,
    ensures
        shape@ == open_shapes(n)[index as int],
{
    let shape: Vec<usize> = if index == 0 {
        vec![n]
    } else if index == 1 {
        vec![1, n]
    } else if index == 2 {
        vec![n, 1]
    } else if index == 3 {
        vec![1, n, 1]
    } else if index == 4 {
        vec![1, 1, n]
    } else if index == 5 {
        vec![1, n, 1, 1]
    } else if index == 6 {
        vec![1, 1, n, 1]
    } else if index == 7 {
        vec![1, 1, 1, n]
    } else {
        vec![n, 1, 1, 1]
    };
    assert(shape@ =~= open_shapes(n)[index as int]);
    shape
}

fn all_open_shapes(n: usize) -> (shapes: Vec<Vec<usize>>)
    ensures
        shape_views(shapes@) == distinct_shapes(open_shapes(n)),
{
    let mut shapes: Vec<Vec<usize>> = Vec::new();
    let mut i: usize = 0;
    proof {
        lemma_open_shapes(n);
    }
    let ghost all = open_shapes(n);
    assert(shape_views(shapes@) =~= distinct_shapes(all.take(0)));
    while i < 9
        invariant
            i <= 9,
            all == open_shapes(n),
            forall|k: int|
                0 <= k < 9 ==> #[trigger] all.take(k + 1).drop_last() == all.take(k),
            shape_views(shapes@) == distinct_shapes(all.take(i as int)),
        decreases 9 - i,
    {
        assert(all.take(i + 1).drop_last() == all.take(i as int));
        assert(all.take(i + 1).last() == all[i as int]);
        add_shape(&mut shapes, shape_number(n, i));
        i = i + 1;
    }
    assert(all.take(9) =~= all);
    shapes
}

/// The shapes to feed a model with: the one it declares, which must have as many elements
/// as there are features, or the usual ones where it declares none.
pub open spec fn candidate_shapes(declared: Option<Seq<usize>>, features: usize) -> Result<
    Seq<Seq<usize>>,
    AiErrorView,
> {
    match declared {
        Some(shape) => match volume(shape) {
            None => Err(AiErrorView::Infer("model input shape volume overflow"@)),
            Some(v) => if v != features {
                Err(
                    AiErrorView::Infer(
                        "model input shape "@ + shape_text(shape) + " contains "@ + decimal(v)
                            + " elements, but the feature map has "@ + decimal(features as nat),
                    ),
                )
            } else {
                Ok(seq![shape])
            },
        },
        None => Ok(distinct_shapes(open_shapes(features))),
    }
}

pub open spec fn maybe_shape(shape: Option<Vec<usize>>) -> Option<Seq<usize>> {
    match shape {
        Some(s) => Some(s@),
        None => None,
    }
}

pub fn input_shape_candidates(declared: &Option<Vec<usize>>, feature_len: usize) -> (shapes: Result<
    Vec<Vec<usize>>,
    AiError,
>)
    ensures
        match shapes {
            Ok(list) => candidate_shapes(maybe_shape(*declared), feature_len) == Ok::<
                Seq<Seq<usize>>,
                AiErrorView,
            >(shape_views(list@)),
            Err(e) => candidate_shapes(maybe_shape(*declared), feature_len) == Err::<
                Seq<Seq<usize>>,
                AiErrorView,
            >(e@),
        },
{
    match declared {
        Some(shape) => match volume_of(shape) {
            None => Err(AiError::Infer("model input shape volume overflow".to_string())),
            Some(v) => if v != feature_len {
                let head = concat2("model input shape ", format_shape(shape).as_str());
                let middle = concat3(head.as_str(), " contains ", decimal_text(v as u64).as_str());
                let tail = concat2(middle.as_str(), " elements, but the feature map has ");
                Err(
                    AiError::Infer(
                        concat2(tail.as_str(), decimal_text(feature_len as u64).as_str()),
                    ),
                )
            } else {
                let mut list: Vec<Vec<usize>> = Vec::new();
                let mut copy: Vec<usize> = Vec::new();
                let mut i: usize = 0;
                while i < shape.len()
                    invariant
                        i <= shape@.len(),
                        copy@ == shape@.take(i as int),
                    decreases shape@.len() - i,
                {
                    copy.push(shape[i]);
                    assert(shape@.take(i + 1) =~= shape@.take(i as int).push(shape@[i as int]));
                    i = i + 1;
                }
                assert(copy@ =~= shape@);
                list.push(copy);
                assert(shape_views(list@) =~= seq![shape@]);
                Ok(list)
            },
        },
        None => Ok(all_open_shapes(feature_len)),
    }
}

/// Every shape that is tried holds all the features and no more.
pub proof fn law_candidates_hold_the_features(declared: Option<Seq<usize>>, features: usize)
    ensures
        candidate_shapes(declared, features) matches Ok(shapes) ==> shapes.len() > 0 && forall|
            i: int,
        |
            0 <= i < shapes.len() ==> volume(#[trigger] shapes[i]) == Some(features as nat),
{
    if declared is None {
        let all = open_shapes(features);
        let n = features;
        assert forall|i: int| 0 <= i < all.len() implies volume(#[trigger] all[i]) == Some(
            n as nat,
        ) by {
            let s = all[i];
            reveal_with_fuel(volume, 5);
            lemma_volume_steps(s);
        }
        lemma_distinct_from(all);
        assert(all.len() == 9);
        let d = distinct_shapes(all);
        assert(d.contains(all[0]));
        assert forall|i: int| 0 <= i < d.len() implies volume(#[trigger] d[i]) == Some(
            n as nat,
        ) by {
            assert(d.contains(d[i]));
            let k = choose|k: int| 0 <= k < all.len() && all[k] == d[i];
            assert(volume(all[k]) == Some(n as nat));
        }
    }
}

/// The volume of a shape of up to four dimensions, of which all but one are one.
proof fn lemma_volume_steps(s: Seq<usize>)
    requires
        1 <= s.len() <= 4,
    ensures
        s.len() == 1 ==> volume(s) == Some(s[0] as nat),
        s.len() == 2 && (s[0] == 1 || s[1] == 1) ==> volume(s) == Some((s[0] * s[1]) as nat),
        s.len() == 3 && s[0] == 1 && (s[1] == 1 || s[2] == 1) ==> volume(s) == Some(
            (s[1] * s[2]) as nat,
        ),
        s.len() == 3 && s[1] == 1 && s[2] == 1 ==> volume(s) == Some(s[0] as nat),
        s.len() == 4 && s[0] == 1 && s[2] == 1 && s[3] == 1 ==> volume(s) == Some(s[1] as nat),
        s.len() == 4 && s[0] == 1 && s[1] == 1 && s[3] == 1 ==> volume(s) == Some(s[2] as nat),
        s.len() == 4 && s[0] == 1 && s[1] == 1 && s[2] == 1 ==> volume(s) == Some(s[3] as nat),
        s.len() == 4 && s[1] == 1 && s[2] == 1 && s[3] == 1 ==> volume(s) == Some(s[0] as nat),
    decreases s.len(),
{
    if s.len() == 1 {
        assert(s.drop_last() =~= Seq::empty());
        assert(volume(s.drop_last()) == Some(1nat));
        assert(1nat * s[0] as nat == s[0]);
    } else {
        let t = s.drop_last();
        lemma_volume_steps(t);
        assert(forall|i: int| 0 <= i < t.len() ==> t[i] == s[i]);
        assert(forall|x: int| #[trigger] (1 * x) == x) by (nonlinear_arith);
        assert(forall|x: int| #[trigger] (x * 1) == x) by (nonlinear_arith);
    }
}

/// Leaving out repeats keeps every shape and adds none.
proof fn lemma_distinct_from(shapes: Seq<Seq<usize>>)
    ensures
        forall|s: Seq<usize>| #[trigger] distinct_shapes(shapes).contains(s) <==> shapes.contains(s),
    decreases shapes.len(),
{
    if shapes.len() > 0 {
        let rest = shapes.drop_last();
        let before = distinct_shapes(rest);
        lemma_distinct_from(rest);
        assert forall|s: Seq<usize>| #[trigger]
            distinct_shapes(shapes).contains(s) <==> shapes.contains(s) by {
            assert(before.contains(s) <==> rest.contains(s));
            if shapes.contains(s) {
                let k = choose|k: int| 0 <= k < shapes.len() && shapes[k] == s;
                if k < rest.len() {
                    assert(rest[k] == s);
                }
            }
            if rest.contains(s) {
                let k = choose|k: int| 0 <= k < rest.len() && rest[k] == s;
                assert(shapes[k] == s);
            }
            let after = distinct_shapes(shapes);
            if before.contains(s) {
                let k = choose|k: int| 0 <= k < before.len() && before[k] == s;
                assert(after[k] == s);
            }
            if after.contains(s) && !before.contains(shapes.last()) {
                let k = choose|k: int| 0 <= k < after.len() && after[k] == s;
                if k < before.len() {
                    assert(before[k] == s);
                }
            }
            if s == shapes.last() {
                assert(shapes[shapes.len() - 1] == s);
                if !before.contains(s) {
                    assert(after[before.len() as int] == s);
                }
            }
        }
    }
}

/// The output value that stands for malice: the one that the contract names, else the last.
pub open spec fn malice_index(named: Option<usize>, values: nat) -> Result<nat, AiErrorView> {
    let index = match named {
        Some(i) => i as nat,
        None => (values - 1) as nat,
    };
    if index >= values {
        Err(
            AiErrorView::Infer(
                "malicious_index "@ + decimal(index) + " is outside output length "@ + decimal(
                    values,
                ),
            ),
        )
    } else {
        Ok(index)
    }
}

pub fn malicious_output(named: Option<usize>, values: usize) -> (index: Result<usize, AiError>)
    requires
        values >= 1,
    ensures
        match index {
            Ok(i) => malice_index(named, values as nat) == Ok::<nat, AiErrorView>(i as nat) && i
                < values,
            Err(e) => malice_index(named, values as nat) == Err::<nat, AiErrorView>(e@),
        },
{
    let index: usize = match named {
        Some(i) => i,
        None => values - 1,
    };
    if index >= values {
        let head = concat2("malicious_index ", decimal_text(index as u64).as_str());
        let tail = concat2(head.as_str(), " is outside output length ");
        Err(AiError::Infer(concat2(tail.as_str(), decimal_text(values as u64).as_str())))
    } else {
        Ok(index)
    }
}

pub open spec fn answer(r: Result<Score, AiError>) -> Result<Score, AiErrorView> {
    match r {
        Ok(score) => Ok(score),
        Err(e) => Err(e@),
    }
}

/// The first answer that is a score; where there is none, the last error.
pub open spec fn first_answer(
    attempts: Seq<Result<Score, AiErrorView>>,
    fallback: AiErrorView,
) -> Result<Score, AiErrorView>
    decreases attempts.len(),
{
    if attempts.len() == 0 {
        Err(fallback)
    } else {
        match attempts[0] {
            Ok(score) => Ok(score),
            Err(e) => first_answer(attempts.skip(1), e),
        }
    }
}

pub open spec fn answers(attempts: Seq<Result<Score, AiError>>) -> Seq<Result<Score, AiErrorView>> {
    attempts.map_values(|r: Result<Score, AiError>| answer(r))
}

fn first_of_answers(attempts: &[Result<Score, AiError>], fallback: &str) -> (r: Result<
    Score,
    AiError,
>)
    ensures
        answer(r) == first_answer(answers(attempts@), AiErrorView::Infer(fallback@)),
{
    let ghost all = answers(attempts@);
    let ghost start = AiErrorView::Infer(fallback@);
    let mut last: AiError = AiError::Infer(fallback.to_string());
    let mut i: usize = 0;
    assert(all.skip(0) =~= all);
    while i < attempts.len()
        invariant
            i <= attempts@.len(),
            all == answers(attempts@),
            first_answer(all, start) == first_answer(all.skip(i as int), last@),
            start == AiErrorView::Infer(fallback@),
        decreases attempts@.len() - i,
    {
        assert(all.skip(i as int)[0] == answer(attempts@[i as int]));
        assert(all.skip(i as int).skip(1) =~= all.skip(i + 1));
        match &attempts[i] {
            Ok(score) => return Ok(*score),
            Err(e) => {
                last = e.duplicate();
            },
        }
        i = i + 1;
    }
    Err(last)
}

/// What the outputs of a model say: the output that the contract names, else the first one
/// that can be read.
pub open spec fn outputs_say(
    outputs: Seq<Result<Score, AiErrorView>>,
    index: Option<usize>,
) -> Result<Score, AiErrorView> {
    if outputs.len() == 0 {
        Err(AiErrorView::Infer("model returned no outputs"@))
    } else {
        match index {
            Some(i) => if i < outputs.len() {
                outputs[i as int]
            } else {
                Err(
                    AiErrorView::Infer(
                        "output_index "@ + decimal(i as nat) + " is outside output count "@
                            + decimal(outputs.len()),
                    ),
                )
            },
            None => first_answer(outputs, AiErrorView::Infer("no decodable model output"@)),
        }
    }
}

/// What the outputs of a model say, each of them as it was read.
pub fn score_outputs(outputs: &[Result<Score, AiError>], contract: &ModelContract) -> (r: Result<
    Score,
    AiError,
>)
    ensures
        answer(r) == outputs_say(answers(outputs@), contract.output_index),
{
    let count: usize = outputs.len();
    if count == 0 {
        return Err(AiError::Infer("model returned no outputs".to_string()));
    }
    match contract.output_index {
        Some(i) => if i < count {
            assert(answers(outputs@)[i as int] == answer(outputs@[i as int]));
            match &outputs[i] {
                Ok(score) => Ok(*score),
                Err(e) => Err(e.duplicate()),
            }
        } else {
            let head = concat2("output_index ", decimal_text(i as u64).as_str());
            let tail = concat2(head.as_str(), " is outside output count ");
            Err(AiError::Infer(concat2(tail.as_str(), decimal_text(count as u64).as_str())))
        },
        None => first_of_answers(outputs, "no decodable model output"),
    }
}

/// What is known of a model's input.
#[derive(Debug)]
pub struct InputFact {
    /// The elements are numbers.
    pub numeric: bool,
    /// The name of the elements' type.
    pub datum_type: String,
    /// The shape, where the model declares one.
    pub shape: Option<Vec<usize>>,
}

/// What a model can be fed with.
pub open spec fn feeding_plan(
    loaded: bool,
    features: usize,
    inputs: usize,
    fact: Result<InputFact, String>,
) -> Result<Seq<Seq<usize>>, AiErrorView> {
    if !loaded {
        Err(AiErrorView::Model("no model loaded"@))
    } else if features == 0 {
        Err(AiErrorView::Infer("feature vector is empty"@))
    } else if inputs != 1 {
        Err(
            AiErrorView::Infer(
                "model requires "@ + decimal(inputs as nat)
                    + " inputs; the scanner supplies one feature tensor"@,
            ),
        )
    } else {
        match fact {
            Err(e) => Err(AiErrorView::Infer("read model input contract: "@ + e@)),
            Ok(f) => if !f.numeric {
                Err(
                    AiErrorView::Infer(
                        "unsupported model input type "@ + f.datum_type@
                            + "; expected a numeric tensor"@,
                    ),
                )
            } else {
                candidate_shapes(maybe_shape(f.shape), features)
            },
        }
    }
}

/// The shapes to feed a model with, or why it cannot be fed.
pub fn plan_vector(
    loaded: bool,
    features: usize,
    inputs: usize,
    fact: &Result<InputFact, String>,
) -> (plan: Result<Vec<Vec<usize>>, AiError>)
    ensures
        match plan {
            Ok(list) => feeding_plan(loaded, features, inputs, *fact) == Ok::<
                Seq<Seq<usize>>,
                AiErrorView,
            >(shape_views(list@)),
            Err(e) => feeding_plan(loaded, features, inputs, *fact) == Err::<
                Seq<Seq<usize>>,
                AiErrorView,
            >(e@),
        },
{
    if !loaded {
        return Err(AiError::Model("no model loaded".to_string()));
    }
    if features == 0 {
        return Err(AiError::Infer("feature vector is empty".to_string()));
    }
    if inputs != 1 {
        let head = concat2("model requires ", decimal_text(inputs as u64).as_str());
        return Err(
            AiError::Infer(
                concat2(head.as_str(), " inputs; the scanner supplies one feature tensor"),
            ),
        );
    }
    match fact {
        Err(e) => Err(AiError::Infer(concat2("read model input contract: ", e.as_str()))),
        Ok(f) => if !f.numeric {
            Err(
                AiError::Infer(
                    concat3(
                        "unsupported model input type ",
                        f.datum_type.as_str(),
                        "; expected a numeric tensor",
                    ),
                ),
            )
        } else {
            input_shape_candidates(&f.shape, features)
        },
    }
}

/// What a model says, given what each of the planned shapes gave: the first score, else the
/// last error.
pub fn infer_vector(attempts: &[Result<Score, AiError>]) -> (r: Result<Score, AiError>)
    ensures
        answer(r) == first_answer(
            answers(attempts@),
            AiErrorView::Infer("no compatible input shape succeeded"@),
        ),
{
    first_of_answers(attempts, "no compatible input shape succeeded")
}

/// What one model contributed.
#[derive(Debug, Clone)]
pub struct AiComponentScore {
    pub id: String,
    pub score: Score,
    pub weight: Score,
}

pub struct ComponentView {
    pub id: Seq<char>,
    pub score: Score,
    pub weight: Score,
}

impl View for AiComponentScore {
    type V = ComponentView;

    open spec fn view(&self) -> ComponentView {
        ComponentView { id: self.id@, score: self.score, weight: self.weight }
    }
}

/// What inference gives for a sample.
#[derive(Debug, Clone)]
pub struct AiScore {
    pub score: Score,
    /// What each model contributed, from which the score can be put together anew.
    pub components: Vec<AiComponentScore>,
    /// A heuristic stood in for a model that failed.
    pub is_fallback: bool,
    pub fallback_reason: Option<String>,
}

pub struct AiScoreView {
    pub score: Score,
    pub components: Seq<ComponentView>,
    pub is_fallback: bool,
    pub fallback_reason: Option<Seq<char>>,
}

pub open spec fn component_views(components: Seq<AiComponentScore>) -> Seq<ComponentView> {
    components.map_values(|c: AiComponentScore| c@)
}

pub open spec fn maybe_reason(reason: Option<String>) -> Option<Seq<char>> {
    match reason {
        Some(r) => Some(r@),
        None => None,
    }
}

impl View for AiScore {
    type V = AiScoreView;

    open spec fn view(&self) -> AiScoreView {
        AiScoreView {
            score: self.score,
            components: component_views(self.components@),
            is_fallback: self.is_fallback,
            fallback_reason: maybe_reason(self.fallback_reason),
        }
    }
}

pub open spec fn primary_only(score: Score) -> Seq<ComponentView> {
    seq![ComponentView { id: "primary"@, score, weight: Score::one() }]
}

/// What a model contributes to the score of a sample. Where it fails, the heuristic stands
/// in for it, and where that fails too, nothing is found.
pub open spec fn sample_score(
    outcome: Result<Score, AiErrorView>,
    model_path: Seq<char>,
    heuristic: Result<(Score, Seq<Seq<char>>), Seq<char>>,
) -> AiScoreView {
    match outcome {
        Ok(score) => AiScoreView {
            score,
            components: primary_only(score),
            is_fallback: false,
            fallback_reason: None,
        },
        Err(e) => {
            let reason = "model "@ + model_path + " inference failed: "@ + e.text();
            match heuristic {
                Ok(h) => AiScoreView {
                    score: h.0,
                    components: primary_only(h.0),
                    is_fallback: true,
                    fallback_reason: Some(reason),
                },
                Err(fault) => AiScoreView {
                    score: Score::zero(),
                    components: primary_only(Score::zero()),
                    is_fallback: true,
                    fallback_reason: Some(
                        reason + "; heuristic fallback failed: "@ + ("parsing error: "@ + fault),
                    ),
                },
            }
        },
    }
}

fn single_score(score: Score, is_fallback: bool, fallback_reason: Option<String>) -> (s: AiScore)
    ensures
        s@ == (AiScoreView {
            score,
            components: primary_only(score),
            is_fallback,
            fallback_reason: maybe_reason(fallback_reason),
        }),
{
    let mut components: Vec<AiComponentScore> = Vec::new();
    let one = AiComponentScore {
        id: "primary".to_string(),
        score,
        weight: Score { units: ONE_UNITS },
    };
    components.push(one);
    assert(component_views(components@) =~= primary_only(score));
    AiScore { score, components, is_fallback, fallback_reason }
}

/// What a model contributes to the score of a sample, given what it said.
pub fn infer_sample_from_model(
    outcome: &Result<Score, AiError>,
    model_path: &str,
    sample: &[u8],
    readings: &EntropyReadings,
    now: u64,
) -> (s: AiScore)
    ensures
        s@ == sample_score(
            answer(*outcome),
            model_path@,
            analysis_of(sample@, format_of(sample@), readings@, now),
        ),
{
    match outcome {
        Ok(score) => single_score(*score, false, None),
        Err(e) => {
            let head = concat3("model ", model_path, " inference failed: ");
            let reason = concat2(head.as_str(), e.message().as_str());
            match analyze_bytes_at(sample, readings, now) {
                Ok(h) => single_score(h.score, true, Some(reason)),
                Err(fault) => {
                    let text = concat3(
                        reason.as_str(),
                        "; heuristic fallback failed: ",
                        fault.message().as_str(),
                    );
                    single_score(Score { units: 0 }, true, Some(text))
                },
            }
        },
    }
}

/// The score of a file that could not be inferred at all.
pub fn failed_score(error: &AiError) -> (s: AiScore)
    ensures
        s@ == (AiScoreView {
            score: Score::zero(),
            components: Seq::empty(),
            is_fallback: true,
            fallback_reason: Some(error@.text()),
        }),
{
    let components: Vec<AiComponentScore> = Vec::new();
    assert(component_views(components@) =~= Seq::empty());
    AiScore {
        score: Score { units: 0 },
        components,
        is_fallback: true,
        fallback_reason: Some(error.message()),
    }
}

/// What one of several models gave.
#[derive(Debug)]
pub struct ModelAnswer {
    pub id: String,
    pub weight: Score,
    pub result: Result<AiScore, AiError>,
}

pub struct AnswerView {
    pub id: Seq<char>,
    pub weight: Score,
    pub result: Result<AiScoreView, AiErrorView>,
}

pub open spec fn score_view(r: Result<AiScore, AiError>) -> Result<AiScoreView, AiErrorView> {
    match r {
        Ok(s) => Ok(s@),
        Err(e) => Err(e@),
    }
}

pub open spec fn maybe_score_view(r: Option<Result<AiScore, AiError>>) -> Option<
    Result<AiScoreView, AiErrorView>,
> {
    match r {
        Some(f) => Some(score_view(f)),
        None => None,
    }
}

impl View for ModelAnswer {
    type V = AnswerView;

    open spec fn view(&self) -> AnswerView {
        AnswerView { id: self.id@, weight: self.weight, result: score_view(self.result) }
    }
}

pub open spec fn answer_views(list: Seq<ModelAnswer>) -> Seq<AnswerView> {
    list.map_values(|a: ModelAnswer| a@)
}

/// How several models work together.
#[derive(Debug, Clone, Copy)]
pub struct EnsembleSettings {
    pub enabled: bool,
    /// The weight of the primary model against the fallback model.
    pub blend_primary: Score,
    pub aggregation: EnsembleStrategy,
}

/// The weights of the primary and the fallback model: the blend between them, or one each
/// where further models take part.
pub open spec fn pair_weights(blend: Score, further: bool) -> (Score, Score) {
    if further {
        (Score::one(), Score::one())
    } else {
        (blend, Score::one().difference(blend))
    }
}

/// Every model that takes part, with its weight: the primary, the fallback where there is
/// one, and the further ones.
pub open spec fn all_answers(
    blend: Score,
    primary: Result<AiScoreView, AiErrorView>,
    fallback: Option<Result<AiScoreView, AiErrorView>>,
    extras: Seq<AnswerView>,
) -> Seq<AnswerView> {
    let weights = pair_weights(blend, extras.len() > 0);
    let first = seq![AnswerView { id: "primary"@, weight: weights.0, result: primary }];
    let second = match fallback {
        Some(r) => seq![AnswerView { id: "fallback"@, weight: weights.1, result: r }],
        None => Seq::empty(),
    };
    first + second + extras
}

/// What the models contributed that did not fail.
pub open spec fn contributions(list: Seq<AnswerView>) -> Seq<ComponentView>
    decreases list.len(),
{
    if list.len() == 0 {
        Seq::empty()
    } else {
        let before = contributions(list.drop_last());
        match list.last().result {
            Ok(s) => before.push(
                ComponentView { id: list.last().id, score: s.score, weight: list.last().weight },
            ),
            Err(_) => before,
        }
    }
}

pub open spec fn score_pairs(components: Seq<ComponentView>) -> Seq<(Score, Score)> {
    components.map_values(|c: ComponentView| (c.score, c.weight))
}

/// The heuristic stood in for one of the models.
pub open spec fn any_stand_in(list: Seq<AnswerView>) -> bool {
    exists|i: int|
        0 <= i < list.len() && #[trigger] list[i].result is Ok && list[i].result->Ok_0.is_fallback
}

/// Why the heuristic stood in, in the order of the models; a further model's reason names
/// the model.
pub open spec fn stand_in_reasons(list: Seq<AnswerView>, named: bool) -> Seq<Seq<char>>
    decreases list.len(),
{
    if list.len() == 0 {
        Seq::empty()
    } else {
        let before = stand_in_reasons(list.drop_last(), named);
        match list.last().result {
            Ok(s) => match s.fallback_reason {
                Some(r) => before.push(
                    if named {
                        list.last().id + ": "@ + r
                    } else {
                        r
                    },
                ),
                None => before,
            },
            Err(_) => before,
        }
    }
}

/// The error that is reported where every model failed: the primary model's, else the
/// fallback model's.
pub open spec fn leading_error(
    primary: Result<AiScoreView, AiErrorView>,
    fallback: Option<Result<AiScoreView, AiErrorView>>,
) -> AiErrorView {
    match primary {
        Err(e) => e,
        Ok(_) => match fallback {
            Some(Err(e)) => e,
            _ => AiErrorView::Infer("all configured AI models failed"@),
        },
    }
}

/// What several models give together. Apart, the primary model decides, and the fallback
/// model where that fails. Together, every model that did not fail counts with its weight.
pub open spec fn ensemble_score(
    settings: EnsembleSettings,
    primary: Result<AiScoreView, AiErrorView>,
    fallback: Option<Result<AiScoreView, AiErrorView>>,
    extras: Seq<AnswerView>,
) -> Result<AiScoreView, AiErrorView> {
    if !settings.enabled {
        match primary {
            Ok(s) => Ok(s),
            Err(e) => match fallback {
                Some(Ok(s)) => Ok(s),
                _ => Err(e),
            },
        }
    } else {
        let list = all_answers(settings.blend_primary, primary, fallback, extras);
        let pair = all_answers(settings.blend_primary, primary, fallback, Seq::empty());
        let components = contributions(list);
        let reasons = stand_in_reasons(pair, false) + stand_in_reasons(extras, true);
        if components.len() == 0 {
            Err(leading_error(primary, fallback))
        } else {
            Ok(
                AiScoreView {
                    score: aggregated(settings.aggregation, score_pairs(components)),
                    components,
                    is_fallback: any_stand_in(list),
                    fallback_reason: if reasons.len() > 0 {
                        Some(joined(reasons, "; "@))
                    } else {
                        None
                    },
                },
            )
        }
    }
}

/// What has been gathered from some of the models.
struct Gathered {
    components: Vec<AiComponentScore>,
    pairs: Vec<(Score, Score)>,
    stand_in: bool,
    reasons: Vec<String>,
}

spec fn gathered_from(g: Gathered, list: Seq<AnswerView>, reasons: Seq<Seq<char>>) -> bool {
    &&& component_views(g.components@) == contributions(list)
    &&& g.pairs@ == score_pairs(contributions(list))
    &&& g.components@.len() == g.pairs@.len()
    &&& g.stand_in == any_stand_in(list)
    &&& texts(g.reasons@) == reasons
}

fn gather(
    g: &mut Gathered,
    answer: &ModelAnswer,
    named: bool,
    Ghost(list): Ghost<Seq<AnswerView>>,
    Ghost(group): Ghost<Seq<AnswerView>>,
    Ghost(earlier): Ghost<Seq<Seq<char>>>,
)
    requires
        gathered_from(*old(g), list, earlier + stand_in_reasons(group, named)),
    ensures
        gathered_from(
            *final(g),
            list.push(answer@),
            earlier + stand_in_reasons(group.push(answer@), named),
        ),
{
    let ghost longer = list.push(answer@);
    let ghost wider = group.push(answer@);
    assert(longer.drop_last() =~= list);
    assert(wider.drop_last() =~= group);
    proof {
        lemma_stand_in_push(list, answer@);
    }
    match &answer.result {
        Ok(s) => {
            if s.is_fallback {
                g.stand_in = true;
            }
            let ghost told = stand_in_reasons(group, named);
            match &s.fallback_reason {
                Some(r) => {
                    let text = if named {
                        concat3(answer.id.as_str(), ": ", r.as_str())
                    } else {
                        r.clone()
                    };
                    assert(earlier + told.push(text@) =~= (earlier + told).push(text@));
                    push_text(&mut g.reasons, text);
                },
                None => {},
            }
            let component = AiComponentScore {
                id: answer.id.clone(),
                score: s.score,
                weight: answer.weight,
            };
            let ghost before = contributions(list);
            assert(component_views(g.components@.push(component)) =~= component_views(
                g.components@,
            ).push(component@));
            assert(score_pairs(before.push(component@)) =~= score_pairs(before).push(
                (s.score, answer.weight),
            ));
            g.components.push(component);
            g.pairs.push((s.score, answer.weight));
        },
        Err(_) => {},
    }
}

proof fn lemma_stand_in_push(list: Seq<AnswerView>, a: AnswerView)
    ensures
        any_stand_in(list.push(a)) == (any_stand_in(list) || (a.result is Ok
            && a.result->Ok_0.is_fallback)),
{
    let longer = list.push(a);
    if any_stand_in(list) {
        let i = choose|i: int|
            0 <= i < list.len() && #[trigger] list[i].result is Ok
                && list[i].result->Ok_0.is_fallback;
        assert(longer[i] == list[i]);
        assert(longer[i].result is Ok);
    }
    if a.result is Ok && a.result->Ok_0.is_fallback {
        assert(longer[list.len() as int].result is Ok);
    }
    if any_stand_in(longer) {
        let i = choose|i: int|
            0 <= i < longer.len() && #[trigger] longer[i].result is Ok
                && longer[i].result->Ok_0.is_fallback;
        if i < list.len() {
            assert(list[i] == longer[i]);
            assert(list[i].result is Ok);
        }
    }
}

/// Puts the answers of several models together.
#[verifier::rlimit(40)]
pub fn infer_sample_ensemble(
    settings: &EnsembleSettings,
    primary: Result<AiScore, AiError>,
    fallback: Option<Result<AiScore, AiError>>,
    extras: &[ModelAnswer],
) -> (r: Result<AiScore, AiError>)
    requires
        settings.blend_primary.in_unit(),
    ensures
        score_view(r) == ensemble_score(
            *settings,
            score_view(primary),
            maybe_score_view(fallback),
            answer_views(extras@),
        ),
{
    if !settings.enabled {
        return match primary {
            Ok(s) => Ok(s),
            Err(e) => match fallback {
                Some(Ok(s)) => Ok(s),
                _ => Err(e),
            },
        };
    }
    let one = Score { units: ONE_UNITS };
    let further = extras.len() > 0;
    let (first_weight, second_weight) = if further {
        (one, one)
    } else {
        (settings.blend_primary, one.minus(settings.blend_primary))
    };
    let ghost blend = settings.blend_primary;
    let ghost p = score_view(primary);
    let ghost f = maybe_score_view(fallback);
    let ghost x = answer_views(extras@);
    proof {
        crate::score::lemma_one_power();
        crate::score::lemma_rounded_capped(
            (ONE_UNITS - blend.units) as nat,
            ONE_UNITS as nat,
        );
        if x.len() > 0 {
            assert(x[0] == extras@[0]@);
        }
    }
    let mut first_error: Option<AiError> = None;
    if let Err(e) = &primary {
        first_error = Some(e.duplicate());
    }
    if first_error.is_none() {
        if let Some(Err(e)) = &fallback {
            first_error = Some(e.duplicate());
        }
    }
    assert(match first_error {
        Some(e) => e@ == leading_error(p, f) && (p is Err || f matches Some(Err(_))),
        None => p is Ok && !(f matches Some(Err(_))),
    });
    let mut g = Gathered {
        components: Vec::new(),
        pairs: Vec::new(),
        stand_in: false,
        reasons: Vec::new(),
    };
    let ghost nothing = Seq::<AnswerView>::empty();
    assert(gathered_from(g, nothing, Seq::<Seq<char>>::empty() + stand_in_reasons(nothing, false)))
        by {
        assert(component_views(g.components@) =~= contributions(nothing));
        assert(g.pairs@ =~= score_pairs(contributions(nothing)));
        assert(texts(g.reasons@) =~= Seq::<Seq<char>>::empty() + stand_in_reasons(nothing, false));
    }
    let lead = ModelAnswer { id: "primary".to_string(), weight: first_weight, result: primary };
    gather(&mut g, &lead, false, Ghost(nothing), Ghost(nothing), Ghost(Seq::empty()));
    let ghost mut list = nothing.push(lead@);
    if let Some(result) = fallback {
        let second = ModelAnswer { id: "fallback".to_string(), weight: second_weight, result };
        gather(&mut g, &second, false, Ghost(list), Ghost(list), Ghost(Seq::empty()));
        proof {
            list = list.push(second@);
        }
    }
    let ghost pair = list;
    let ghost told = stand_in_reasons(pair, false);
    proof {
        assert(Seq::<Seq<char>>::empty() + told =~= told);
        assert(told + stand_in_reasons(nothing, true) =~= told);
        assert(pair + x.take(0) =~= pair);
        assert(x.take(0) =~= nothing);
        lemma_reasons_ignore_weight(
            pair,
            all_answers(blend, p, f, Seq::empty()),
        );
    }
    let mut i: usize = 0;
    while i < extras.len()
        invariant
            i <= extras@.len(),
            x == answer_views(extras@),
            gathered_from(
                g,
                pair + x.take(i as int),
                told + stand_in_reasons(x.take(i as int), true),
            ),
        decreases extras@.len() - i,
    {
        gather(
            &mut g,
            &extras[i],
            true,
            Ghost(pair + x.take(i as int)),
            Ghost(x.take(i as int)),
            Ghost(told),
        );
        proof {
            assert(x[i as int] == extras@[i as int]@);
            assert(x.take(i + 1) =~= x.take(i as int).push(x[i as int]));
            assert((pair + x.take(i as int)).push(x[i as int]) =~= pair + x.take(i + 1));
        }
        i = i + 1;
    }
    let ghost whole = all_answers(blend, p, f, x);
    proof {
        assert(x.take(i as int) =~= x);
        assert(whole =~= pair + x);
        assert(contributions(whole).len() == g.components@.len());
    }
    if g.pairs.len() == 0 {
        return Err(
            match first_error {
                Some(e) => e,
                None => AiError::Infer("all configured AI models failed".to_string()),
            },
        );
    }
    let score = aggregate_scores(settings.aggregation, &g.pairs);
    let fallback_reason = if g.reasons.len() > 0 {
        Some(join(&g.reasons, "; "))
    } else {
        None
    };
    Ok(
        AiScore {
            score,
            components: g.components,
            is_fallback: g.stand_in,
            fallback_reason,
        },
    )
}

/// What a model says of itself does not depend on its weight.
proof fn lemma_reasons_ignore_weight(a: Seq<AnswerView>, b: Seq<AnswerView>)
    requires
        a.len() == b.len(),
        forall|i: int|
            0 <= i < a.len() ==> (#[trigger] a[i]).id == b[i].id && a[i].result == b[i].result,
    ensures
        stand_in_reasons(a, false) == stand_in_reasons(b, false),
    decreases a.len(),
{
    if a.len() > 0 {
        let x = a.drop_last();
        let y = b.drop_last();
        assert forall|i: int| 0 <= i < x.len() implies (#[trigger] x[i]).id == y[i].id
            && x[i].result == y[i].result by {
            assert(x[i] == a[i]);
        }
        lemma_reasons_ignore_weight(x, y);
        assert(a[a.len() - 1].result == b[b.len() - 1].result);
    }
}

/// One model that answers is enough for a score, however many others fail.
pub proof fn law_one_answer_is_enough(
    settings: EnsembleSettings,
    primary: Result<AiScoreView, AiErrorView>,
    fallback: Option<Result<AiScoreView, AiErrorView>>,
    extras: Seq<AnswerView>,
    index: int,
)
    requires
        settings.enabled,
        ({
            let list = all_answers(settings.blend_primary, primary, fallback, extras);
            0 <= index < list.len() && list[index].result is Ok
        }),
    ensures
        ensemble_score(settings, primary, fallback, extras) is Ok,
{
    lemma_contributes(all_answers(settings.blend_primary, primary, fallback, extras), index);
}

proof fn lemma_contributes(list: Seq<AnswerView>, index: int)
    requires
        0 <= index < list.len(),
        list[index].result is Ok,
    ensures
        contributions(list).len() > 0,
    decreases list.len(),
{
    if index < list.len() - 1 {
        lemma_contributes(list.drop_last(), index);
    }
}

} // verus!
