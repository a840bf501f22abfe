//! The models that take part in inference: a primary one, a fallback, and any number that
//! are added by name.

use vstd::prelude::*;

use crate::ai::ensemble::{aggregate_scores, aggregated, EnsembleStrategy};
use crate::ai::features::{
    apply_feature_mapping, base_features, extract_features_at, mapped_features, BaseReadings,
    SAMPLE_LIMIT,
};
use crate::ai::inference::{
    all_answers, component_views, contributions, ensemble_score, pair_weights, score_pairs,
    AiComponentScore, AiScoreView, AnswerView, ComponentView, EnsembleSettings, ModelContract,
};
use crate::ai::model::{
    id_candidate, is_model_id, model_file_fault, normalize_model_id, validate_onnx_model_file,
    AiError, AiErrorView, AiModelKind, ModelFile, BASE_FEATURES,
};
use crate::clock::now_seconds;
use crate::score::{Score, ONE_UNITS};
use crate::text::{concat2, copy_texts, same_text, texts};

verus! {

/// What the registry says of a model.
#[derive(Debug, Clone)]
pub struct AiModelInfo {
    pub id: String,
    pub role: String,
    pub path: String,
    pub kind: String,
    pub weight: Score,
    pub enabled: bool,
    pub loaded: bool,
    pub feature_dim: Option<usize>,
}

pub struct InfoView {
    pub id: Seq<char>,
    pub role: Seq<char>,
    pub path: Seq<char>,
    pub kind: Seq<char>,
    pub weight: Score,
    pub enabled: bool,
    pub loaded: bool,
    pub feature_dim: Option<usize>,
}

impl View for AiModelInfo {
    type V = InfoView;

    open spec fn view(&self) -> InfoView {
        InfoView {
            id: self.id@,
            role: self.role@,
            path: self.path@,
            kind: self.kind@,
            weight: self.weight,
            enabled: self.enabled,
            loaded: self.loaded,
            feature_dim: self.feature_dim,
        }
    }
}

impl AiModelInfo {
    pub fn duplicate(&self) -> (copy: Self)
        ensures
            copy@ == self@,
    {
        AiModelInfo {
            id: self.id.clone(),
            role: self.role.clone(),
            path: self.path.clone(),
            kind: self.kind.clone(),
            weight: self.weight,
            enabled: self.enabled,
            loaded: self.loaded,
            feature_dim: self.feature_dim,
        }
    }
}

pub open spec fn info_views(models: Seq<AiModelInfo>) -> Seq<InfoView> {
    models.map_values(|m: AiModelInfo| m@)
}

/// A model that is loaded beside the primary one.
#[derive(Debug, Clone)]
pub struct ModelCard {
    pub path: String,
    pub kind: AiModelKind,
    pub loaded: bool,
    pub feature_map: Option<Vec<String>>,
}

pub open spec fn feature_names(map: Option<Vec<String>>) -> Option<Seq<Seq<char>>> {
    match map {
        Some(names) => Some(texts(names@)),
        None => None,
    }
}

/// How many features a model is fed: as many as it names, else the basic ones.
pub open spec fn feature_count(map: Option<Seq<Seq<char>>>) -> nat {
    match map {
        Some(names) => names.len(),
        None => BASE_FEATURES as nat,
    }
}

fn count_features(map: &Option<Vec<String>>) -> (n: usize)
    ensures
        n == feature_count(feature_names(*map)),
{
    match map {
        Some(names) => names.len(),
        None => BASE_FEATURES,
    }
}

/// What the registry says of a model of this kind and path.
pub open spec fn described(
    id: Seq<char>,
    role: Seq<char>,
    path: Seq<char>,
    kind: AiModelKind,
    weight: Score,
    enabled: bool,
    loaded: bool,
    features: nat,
) -> InfoView {
    InfoView {
        id,
        role,
        path,
        kind: kind.label(),
        weight,
        enabled,
        loaded,
        feature_dim: Some(features as usize),
    }
}

fn describe_model(
    id: &str,
    role: &str,
    path: &str,
    kind: AiModelKind,
    weight: Score,
    enabled: bool,
    loaded: bool,
    features: usize,
) -> (info: AiModelInfo)
    ensures
        info@ == described(id@, role@, path@, kind, weight, enabled, loaded, features as nat),
{
    AiModelInfo {
        id: id.to_string(),
        role: role.to_string(),
        path: path.to_string(),
        kind: kind.as_str().to_string(),
        weight,
        enabled,
        loaded,
        feature_dim: Some(features),
    }
}

/// The models of a scanner and how they work together.
#[derive(Debug)]
pub struct AiModel {
    pub model_path: String,
    pub kind: AiModelKind,
    /// A runnable plan is held for the primary model.
    pub loaded: bool,
    pub feature_map: Option<Vec<String>>,
    pub model_contract: ModelContract,
    pub fallback: Option<ModelCard>,
    pub ensemble: bool,
    pub blend_primary: Score,
    pub additional_models: Vec<AiModelInfo>,
    pub aggregation: EnsembleStrategy,
}

/// What adding, removing and changing further models leaves alone.
pub open spec fn same_core(a: AiModel, b: AiModel) -> bool {
    &&& a.model_path@ == b.model_path@
    &&& a.kind == b.kind
    &&& a.loaded == b.loaded
    &&& feature_names(a.feature_map) == feature_names(b.feature_map)
    &&& a.model_contract == b.model_contract
    &&& a.fallback == b.fallback
    &&& a.ensemble == b.ensemble
    &&& a.blend_primary == b.blend_primary
    &&& a.aggregation == b.aggregation
}

/// One of the models has this name or lies here.
pub open spec fn is_registered(models: Seq<InfoView>, id: Seq<char>, path: Seq<char>) -> bool {
    exists|i: int| 0 <= i < models.len() && ((#[trigger] models[i]).id == id || models[i].path == path)
}

/// What keeps a model from being added.
pub open spec fn addition_fault(
    models: Seq<InfoView>,
    requested: Seq<char>,
    stem: Option<&str>,
    file: ModelFile,
) -> Option<AiErrorView> {
    let id = id_candidate(requested, stem);
    if !is_model_id(id) {
        Some(AiErrorView::Model(crate::ai::model::bad_id_text()))
    } else if model_file_fault(file) is Some {
        model_file_fault(file)
    } else if is_registered(models, id, file.path->Ok_0@) {
        Some(AiErrorView::Model("model id or path is already registered: "@ + id))
    } else {
        None
    }
}

/// The models without those of this name.
pub open spec fn without_id(models: Seq<InfoView>, id: Seq<char>) -> Seq<InfoView>
    decreases models.len(),
{
    if models.len() == 0 {
        Seq::empty()
    } else {
        let before = without_id(models.drop_last(), id);
        if models.last().id == id {
            before
        } else {
            before.push(models.last())
        }
    }
}

/// The first model of this name.
pub open spec fn index_of_id(models: Seq<InfoView>, id: Seq<char>) -> int
    decreases models.len(),
{
    if models.len() == 0 || models[0].id == id {
        0
    } else {
        1 + index_of_id(models.skip(1), id)
    }
}

pub open spec fn changed_info(m: InfoView, weight: Option<Score>, enabled: Option<bool>) -> InfoView {
    InfoView {
        weight: match weight {
            Some(w) => w,
            None => m.weight,
        },
        enabled: match enabled {
            Some(e) => e,
            None => m.enabled,
        },
        ..m
    }
}

/// The registry as it is shown: the primary model, the fallback, then the further ones.
pub open spec fn registry_of(model: AiModel) -> Seq<InfoView> {
    let first = seq![
        described(
            "primary"@,
            "primary"@,
            model.model_path@,
            model.kind,
            model.blend_primary,
            true,
            model.loaded,
            feature_count(feature_names(model.feature_map)),
        ),
    ];
    let second = match model.fallback {
        Some(card) => seq![
            described(
                "fallback"@,
                "fallback"@,
                card.path@,
                card.kind,
                Score::one().difference(model.blend_primary),
                true,
                card.loaded,
                feature_count(feature_names(card.feature_map)),
            ),
        ],
        None => Seq::empty(),
    };
    first + second + info_views(model.additional_models@)
}

impl AiModel {
    /// The blend is a share.
    pub open spec fn valid(self) -> bool {
        self.blend_primary.in_unit()
    }

    /// A primary model that is not loaded yet.
    pub fn new_with_kind(path: String, kind: AiModelKind, ensemble: bool, blend: Score) -> (model:
        Self)
        ensures
            model.valid(),
            model.model_path@ == path@,
            model.kind == kind,
            !model.loaded,
            model.feature_map is None,
            model.model_contract == ModelContract::silent(),
            model.fallback is None,
            model.ensemble == ensemble,
            model.blend_primary == blend.lesser(Score::one()),
            info_views(model.additional_models@) == Seq::<InfoView>::empty(),
            model.aggregation == EnsembleStrategy::WeightedMean,
    {
        let additional_models: Vec<AiModelInfo> = Vec::new();
        assert(info_views(additional_models@) =~= Seq::empty());
        AiModel {
            model_path: path,
            kind,
            loaded: false,
            feature_map: None,
            model_contract: ModelContract::default(),
            fallback: None,
            ensemble,
            blend_primary: blend.min(Score { units: ONE_UNITS }),
            additional_models,
            aggregation: EnsembleStrategy::WeightedMean,
        }
    }

    /// The same models with a fallback.
    pub fn with_fallback(self, fallback: ModelCard) -> (model: Self)
        requires
            self.valid(),
        ensures
            model.valid(),
            model == (AiModel { fallback: Some(fallback), ..self }),
    {
        AiModel { fallback: Some(fallback), ..self }
    }

    /// Puts a fallback in place.
    pub fn attach_fallback_model(&mut self, fallback: ModelCard)
        requires
            old(self).valid(),
        ensures
            final(self).valid(),
            *final(self) == (AiModel { fallback: Some(fallback), ..*old(self) }),
    {
        self.fallback = Some(fallback);
    }

    pub fn set_aggregation_strategy(&mut self, strategy: EnsembleStrategy)
        ensures
            *final(self) == (AiModel { aggregation: strategy, ..*old(self) }),
    {
        self.aggregation = strategy;
    }

    pub fn aggregation_strategy(&self) -> (strategy: EnsembleStrategy)
        ensures
            strategy == self.aggregation,
    {
        self.aggregation
    }

    /// Sets the weight of the primary model against the fallback, at most one.
    pub fn set_blend_primary(&mut self, weight: Score)
        ensures
            *final(self) == (AiModel { blend_primary: weight.lesser(Score::one()), ..*old(self) }),
            final(self).valid(),
    {
        self.blend_primary = weight.min(Score { units: ONE_UNITS });
    }

    pub fn get_blend_primary(&self) -> (weight: Score)
        ensures
            weight == self.blend_primary,
    {
        self.blend_primary
    }

    pub fn set_ensemble(&mut self, enabled: bool)
        ensures
            *final(self) == (AiModel { ensemble: enabled, ..*old(self) }),
    {
        self.ensemble = enabled;
    }

    pub fn with_ensemble(self, enabled: bool) -> (model: Self)
        ensures
            model == (AiModel { ensemble: enabled, ..self }),
    {
        AiModel { ensemble: enabled, ..self }
    }

    pub fn get_ensemble(&self) -> (enabled: bool)
        ensures
            enabled == self.ensemble,
    {
        self.ensemble
    }

    pub fn model_kind(&self) -> (kind: AiModelKind)
        ensures
            kind == self.kind,
    {
        self.kind
    }

    pub fn model_path(&self) -> (path: &str)
        ensures
            path@ == self.model_path@,
    {
        self.model_path.as_str()
    }

    pub fn feature_map(&self) -> (map: Option<Vec<String>>)
        ensures
            feature_names(map) == feature_names(self.feature_map),
    {
        match &self.feature_map {
            Some(names) => Some(copy_texts(names)),
            None => None,
        }
    }

    /// How the models work together.
    pub fn settings(&self) -> (settings: EnsembleSettings)
        ensures
            settings == settings_of(*self),
    {
        EnsembleSettings {
            enabled: self.ensemble,
            blend_primary: self.blend_primary,
            aggregation: self.aggregation,
        }
    }

    /// The basic features in the order that the primary model asks for.
    pub fn apply_feature_mapping(&self, base: &[Score; 12]) -> (features: Vec<Score>)
        ensures
            features@ == mapped_features(feature_names(self.feature_map), base@),
    {
        apply_feature_mapping(&self.feature_map, base)
    }

    /// The basic features of a whole file, now.
    pub fn extract_features(blob: &[u8], readings: &BaseReadings) -> (features: [Score; 12])
        requires
            blob@.len() < SAMPLE_LIMIT,
        ensures
            exists|now: u64|
                features@ == #[trigger] base_features(blob@, blob@.len() as u64, *readings, now),
    {
        let seconds: i64 = now_seconds();
        let now: u64 = if seconds >= 0 {
            seconds as u64
        } else {
            0
        };
        extract_features_at(blob, blob.len() as u64, readings, now)
    }

    /// Every model that is known.
    pub fn model_registry(&self) -> (models: Vec<AiModelInfo>)
        requires
            self.valid(),
        ensures
            info_views(models@) == registry_of(*self),
    {
        let mut models: Vec<AiModelInfo> = Vec::new();
        models.push(
            describe_model(
                "primary",
                "primary",
                self.model_path.as_str(),
                self.kind,
                self.blend_primary,
                true,
                self.loaded,
                count_features(&self.feature_map),
            ),
        );
        if let Some(card) = &self.fallback {
            let one = Score { units: ONE_UNITS };
            models.push(
                describe_model(
                    "fallback",
                    "fallback",
                    card.path.as_str(),
                    card.kind,
                    one.minus(self.blend_primary),
                    true,
                    card.loaded,
                    count_features(&card.feature_map),
                ),
            );
        }
        let ghost head = info_views(models@);
        let ghost further = info_views(self.additional_models@);
        assert(head + further.take(0) =~= head);
        let mut i: usize = 0;
        while i < self.additional_models.len()
            invariant
                i <= self.additional_models@.len(),
                further == info_views(self.additional_models@),
                info_views(models@) == head + further.take(i as int),
            decreases self.additional_models@.len() - i,
        {
            let copy = self.additional_models[i].duplicate();
            assert(info_views(models@.push(copy)) =~= info_views(models@).push(copy@));
            assert(further.take(i + 1) =~= further.take(i as int).push(further[i as int]));
            assert((head + further.take(i as int)).push(further[i as int]) =~= head + further.take(
                i + 1,
            ));
            models.push(copy);
            i = i + 1;
        }
        assert(further.take(i as int) =~= further);
        assert(info_views(models@) =~= registry_of(*self));
        models
    }

    /// One of the further models has this name or lies here.
    fn holds(&self, id: &str, path: &str) -> (b: bool)
        ensures
            b == is_registered(info_views(self.additional_models@), id@, path@),
    {
        let ghost all = info_views(self.additional_models@);
        let mut i: usize = 0;
        while i < self.additional_models.len()
            invariant
                i <= self.additional_models@.len(),
                all == info_views(self.additional_models@),
                forall|k: int| 0 <= k < i ==> (#[trigger] all[k]).id != id@ && all[k].path != path@,
            decreases self.additional_models@.len() - i,
        {
            let m = &self.additional_models[i];
            assert(all[i as int] == m@);
            if same_text(m.id.as_str(), id) || same_text(m.path.as_str(), path) {
                return true;
            }
            i = i + 1;
        }
        false
    }

    /// The name and the place of a model that can be added.
    pub fn check_new_model(
        &self,
        requested: &str,
        stem: Option<&str>,
        file: &ModelFile,
    ) -> (checked: Result<(String, String), AiError>)
        ensures
            match checked {
                Ok(pair) => {
                    &&& addition_fault(
                        info_views(self.additional_models@),
                        requested@,
                        stem,
                        *file,
                    ) is None
                    &&& pair.0@ == id_candidate(requested@, stem)
                    &&& file.path is Ok
                    &&& pair.1@ == file.path->Ok_0@
                },
                Err(e) => addition_fault(
                    info_views(self.additional_models@),
                    requested@,
                    stem,
                    *file,
                ) == Some(e@),
            },
    {
        let id = match normalize_model_id(requested, stem) {
            Ok(id) => id,
            Err(e) => return Err(e),
        };
        let path = match validate_onnx_model_file(file) {
            Ok(path) => path,
            Err(e) => return Err(e),
        };
        if self.holds(id.as_str(), path.as_str()) {
            return Err(
                AiError::Model(concat2("model id or path is already registered: ", id.as_str())),
            );
        }
        Ok((id, path))
    }

    /// Adds a model that was checked and then loaded, or reports why it could not be loaded.
    pub fn add_model(
        &mut self,
        checked: &(String, String),
        kind: AiModelKind,
        weight: Score,
        enabled: bool,
        loading: Result<usize, AiError>,
    ) -> (added: Result<AiModelInfo, AiError>)
        ensures
            same_core(*final(self), *old(self)),
            match loading {
                Ok(features) => {
                    let info = described(
                        checked.0@,
                        "custom"@,
                        checked.1@,
                        kind,
                        weight,
                        enabled,
                        true,
                        features as nat,
                    );
                    &&& added matches Ok(a) && a@ == info
                    &&& info_views(final(self).additional_models@) == info_views(
                        old(self).additional_models@,
                    ).push(info)
                },
                Err(e) => {
                    &&& added matches Err(a) && a@ == e@
                    &&& info_views(final(self).additional_models@) == info_views(
                        old(self).additional_models@,
                    )
                },
            },
    {
        match loading {
            Ok(features) => {
                let info = describe_model(
                    checked.0.as_str(),
                    "custom",
                    checked.1.as_str(),
                    kind,
                    weight,
                    enabled,
                    true,
                    features,
                );
                let copy = info.duplicate();
                assert(info_views(self.additional_models@.push(copy)) =~= info_views(
                    self.additional_models@,
                ).push(copy@));
                self.additional_models.push(copy);
                Ok(info)
            },
            Err(e) => Err(e),
        }
    }

    /// Removes the models of this name, and tells whether there was one.
    pub fn remove_model(&mut self, id: &str) -> (removed: bool)
        ensures
            same_core(*final(self), *old(self)),
            info_views(final(self).additional_models@) == without_id(
                info_views(old(self).additional_models@),
                id@,
            ),
            removed == (final(self).additional_models@.len() != old(self).additional_models@.len()),
    {
        let ghost all = info_views(self.additional_models@);
        let mut kept: Vec<AiModelInfo> = Vec::new();
        let before: usize = self.additional_models.len();
        let mut i: usize = 0;
        assert(info_views(kept@) =~= without_id(all.take(0), id@));
        while i < self.additional_models.len()
            invariant
                i <= self.additional_models@.len(),
                *self == *old(self),
                all == info_views(self.additional_models@),
                info_views(kept@) == without_id(all.take(i as int), id@),
            decreases self.additional_models@.len() - i,
        {
            assert(all.take(i + 1).drop_last() =~= all.take(i as int));
            assert(all.take(i + 1).last() == self.additional_models@[i as int]@);
            if !same_text(self.additional_models[i].id.as_str(), id) {
                let copy = self.additional_models[i].duplicate();
                assert(info_views(kept@.push(copy)) =~= info_views(kept@).push(copy@));
                kept.push(copy);
            }
            i = i + 1;
        }
        assert(all.take(i as int) =~= all);
        let after: usize = kept.len();
        self.additional_models = kept;
        before != after
    }

    /// Changes the weight and the use of the first model of this name, and tells whether
    /// there is one.
    pub fn update_model(&mut self, id: &str, weight: Option<Score>, enabled: Option<bool>) -> (found:
        bool)
        ensures
            same_core(*final(self), *old(self)),
            ({
                let models = info_views(old(self).additional_models@);
                let at = index_of_id(models, id@);
                &&& found == (at < models.len())
                &&& info_views(final(self).additional_models@) == (if found {
                    models.update(at, changed_info(models[at], weight, enabled))
                } else {
                    models
                })
            }),
    {
        let ghost models = info_views(self.additional_models@);
        let mut i: usize = 0;
        assert(models.skip(0) =~= models);
        while i < self.additional_models.len()
            invariant
                i <= self.additional_models@.len(),
                *self == *old(self),
                models == info_views(self.additional_models@),
                index_of_id(models, id@) == i + index_of_id(models.skip(i as int), id@),
            decreases self.additional_models@.len() - i,
        {
            assert(models.skip(i as int)[0] == self.additional_models@[i as int]@);
            if same_text(self.additional_models[i].id.as_str(), id) {
                let mut info = self.additional_models[i].duplicate();
                if let Some(w) = weight {
                    info.weight = w;
                }
                if let Some(e) = enabled {
                    info.enabled = e;
                }
                assert(info@ == changed_info(models[i as int], weight, enabled));
                assert(info_views(self.additional_models@.update(i as int, info)) =~= models.update(
                    i as int,
                    info@,
                ));
                self.additional_models.set(i, info);
                return true;
            }
            assert(models.skip(i as int).skip(1) =~= models.skip(i + 1));
            i = i + 1;
        }
        false
    }
}

pub open spec fn settings_of(model: AiModel) -> EnsembleSettings {
    EnsembleSettings {
        enabled: model.ensemble,
        blend_primary: model.blend_primary,
        aggregation: model.aggregation,
    }
}

/// A model that was added is no longer there once it is removed, and no other model is
/// changed by it.
pub proof fn law_added_model_can_be_removed(models: Seq<InfoView>, info: InfoView)
    requires
        !is_registered(models, info.id, info.path),
    ensures
        without_id(models.push(info), info.id) == models,
{
    assert(models.push(info).drop_last() =~= models);
    assert forall|i: int| 0 <= i < models.len() implies (#[trigger] models[i]).id != info.id by {}
    lemma_without_absent(models, info.id);
}

proof fn lemma_without_absent(models: Seq<InfoView>, id: Seq<char>)
    requires
        forall|i: int| 0 <= i < models.len() ==> (#[trigger] models[i]).id != id,
    ensures
        without_id(models, id) == models,
    decreases models.len(),
{
    if models.len() > 0 {
        let rest = models.drop_last();
        assert forall|i: int| 0 <= i < rest.len() implies (#[trigger] rest[i]).id != id by {
            assert(rest[i] == models[i]);
        }
        lemma_without_absent(rest, id);
        assert(models[models.len() - 1].id != id);
        assert(rest.push(models.last()) =~= models);
    } else {
        assert(models =~= Seq::empty());
    }
}

/// The models that are in use.
pub open spec fn enabled_models(models: Seq<InfoView>) -> Seq<InfoView>
    decreases models.len(),
{
    if models.len() == 0 {
        Seq::empty()
    } else {
        let rest = enabled_models(models.skip(1));
        if models[0].enabled {
            seq![models[0]] + rest
        } else {
            rest
        }
    }
}

/// The weight of the first model of this name.
pub open spec fn weight_of_id(models: Seq<InfoView>, id: Seq<char>) -> Option<Score>
    decreases models.len(),
{
    if models.len() == 0 {
        None
    } else if models[0].id == id {
        Some(models[0].weight)
    } else {
        weight_of_id(models.skip(1), id)
    }
}

/// The weight that a contribution has now, where its model still takes part.
pub open spec fn current_weight(model: AiModel, id: Seq<char>) -> Option<Score> {
    let further = enabled_models(info_views(model.additional_models@));
    let weights = pair_weights(model.blend_primary, further.len() > 0);
    if id == "primary"@ {
        Some(weights.0)
    } else if id == "fallback"@ {
        if model.fallback is Some {
            Some(weights.1)
        } else {
            None
        }
    } else {
        weight_of_id(further, id)
    }
}

/// The contributions with the weights that they have now, where every model still takes
/// part.
pub open spec fn reweighted(model: AiModel, components: Seq<ComponentView>) -> Option<
    Seq<(Score, Score)>,
>
    decreases components.len(),
{
    if components.len() == 0 {
        Some(Seq::empty())
    } else {
        match reweighted(model, components.drop_last()) {
            None => None,
            Some(before) => match current_weight(model, components.last().id) {
                None => None,
                Some(w) => Some(before.push((components.last().score, w))),
            },
        }
    }
}

pub open spec fn primary_index(components: Seq<ComponentView>) -> int
    decreases components.len(),
{
    if components.len() == 0 || components[0].id == "primary"@ {
        0
    } else {
        1 + primary_index(components.skip(1))
    }
}

/// The score that remembered contributions give under the present settings. Nothing, where
/// there are none or where a model no longer takes part.
pub open spec fn cached_score(model: AiModel, components: Seq<ComponentView>) -> Option<Score> {
    let at = primary_index(components);
    if components.len() == 0 {
        None
    } else if !model.ensemble {
        Some(components[if at < components.len() { at } else { 0 }].score.lesser(Score::one()))
    } else {
        match reweighted(model, components) {
            Some(pairs) => Some(aggregated(model.aggregation, pairs)),
            None => None,
        }
    }
}

impl AiModel {
    /// The weight of the first model in use that has this name, and whether any is in use.
    fn find_enabled(&self, id: &str) -> (found: (Option<Score>, bool))
        ensures
            found.0 == weight_of_id(enabled_models(info_views(self.additional_models@)), id@),
            found.1 == (enabled_models(info_views(self.additional_models@)).len() > 0),
    {
        let ghost models = info_views(self.additional_models@);
        let mut any = false;
        let mut weight: Option<Score> = None;
        let mut i: usize = 0;
        assert(models.skip(0) =~= models);
        while i < self.additional_models.len()
            invariant
                i <= self.additional_models@.len(),
                models == info_views(self.additional_models@),
                (enabled_models(models).len() > 0) == (any || enabled_models(
                    models.skip(i as int),
                ).len() > 0),
                weight_of_id(enabled_models(models), id@) == (if weight is Some {
                    weight
                } else {
                    weight_of_id(enabled_models(models.skip(i as int)), id@)
                }),
            decreases self.additional_models@.len() - i,
        {
            let m = &self.additional_models[i];
            assert(models.skip(i as int)[0] == m@);
            assert(models.skip(i as int).skip(1) =~= models.skip(i + 1));
            let ghost tail = enabled_models(models.skip(i + 1));
            if m.enabled {
                any = true;
                assert((seq![m@] + tail).skip(1) =~= tail);
                if weight.is_none() && same_text(m.id.as_str(), id) {
                    weight = Some(m.weight);
                }
            }
            i = i + 1;
        }
        (weight, any)
    }

    fn weight_now(&self, id: &str) -> (weight: Option<Score>)
        requires
            self.valid(),
        ensures
            weight == current_weight(*self, id@),
    {
        let one = Score { units: ONE_UNITS };
        let (custom, further) = self.find_enabled(id);
        proof {
            crate::score::lemma_one_power();
            crate::score::lemma_rounded_capped(
                (ONE_UNITS - self.blend_primary.units) as nat,
                ONE_UNITS as nat,
            );
        }
        if same_text(id, "primary") {
            Some(
                if further {
                    one
                } else {
                    self.blend_primary
                },
            )
        } else if same_text(id, "fallback") {
            match &self.fallback {
                Some(_) => Some(
                    if further {
                        one
                    } else {
                        one.minus(self.blend_primary)
                    },
                ),
                None => None,
            }
        } else {
            custom
        }
    }

    /// Puts remembered contributions together under the present settings, without running a
    /// model. Nothing comes of it where a model no longer takes part: inference must then be
    /// run in full.
    pub fn aggregate_cached_components(&self, components: &[AiComponentScore]) -> (score: Option<
        Score,
    >)
        requires
            self.valid(),
        ensures
            score == cached_score(*self, component_views(components@)),
    {
        let ghost all = component_views(components@);
        let count: usize = components.len();
        if count == 0 {
            return None;
        }
        if !self.ensemble {
            let one = Score { units: ONE_UNITS };
            let mut at: usize = 0;
            assert(all.skip(0) =~= all);
            while at < components.len() && !same_text(components[at].id.as_str(), "primary")
                invariant
                    at <= components@.len(),
                    all == component_views(components@),
                    primary_index(all) == at + primary_index(all.skip(at as int)),
                decreases components@.len() - at,
            {
                assert(all.skip(at as int)[0] == components@[at as int]@);
                assert(all.skip(at as int).skip(1) =~= all.skip(at + 1));
                at = at + 1;
            }
            if at < count {
                assert(all.skip(at as int)[0] == components@[at as int]@);
                assert(all[at as int] == components@[at as int]@);
            } else {
                assert(all[0] == components@[0]@);
            }
            let chosen: usize = if at < count {
                at
            } else {
                0
            };
            return Some(components[chosen].score.min(one));
        }
        let mut pairs: Vec<(Score, Score)> = Vec::new();
        let mut i: usize = 0;
        assert(reweighted(*self, all.take(0)) == Some(Seq::<(Score, Score)>::empty()));
        while i < components.len()
            invariant
                i <= components@.len(),
                components@.len() > 0,
                self.ensemble,
                self.valid(),
                    all == component_views(components@),
                pairs@.len() == i,
                reweighted(*self, all.take(i as int)) == Some(pairs@),
            decreases components@.len() - i,
        {
            assert(all.take(i + 1).drop_last() =~= all.take(i as int));
            assert(all.take(i + 1).last() == components@[i as int]@);
            match self.weight_now(components[i].id.as_str()) {
                Some(w) => {
                    pairs.push((components[i].score, w));
                },
                None => {
                    proof {
                        lemma_reweighted_lost(*self, all, i + 1);
                    }
                    return None;
                },
            }
            i = i + 1;
        }
        assert(all.take(i as int) =~= all);
        Some(aggregate_scores(self.aggregation, &pairs))
    }
}

proof fn lemma_reweighted_lost(model: AiModel, components: Seq<ComponentView>, k: int)
    requires
        0 <= k <= components.len(),
        reweighted(model, components.take(k)) is None,
    ensures
        reweighted(model, components) is None,
    decreases components.len() - k,
{
    if k < components.len() {
        assert(components.take(k + 1).drop_last() =~= components.take(k));
        lemma_reweighted_lost(model, components, k + 1);
    } else {
        assert(components.take(k) =~= components);
    }
}

/// The answers are those of the models in use, in their order.
pub open spec fn answers_of(extras: Seq<AnswerView>, models: Seq<InfoView>) -> bool {
    extras.len() == models.len() && forall|i: int|
        0 <= i < extras.len() ==> (#[trigger] extras[i]).id == models[i].id && extras[i].weight
            == models[i].weight
}

/// No two models have one name, and none has that of the primary or the fallback model.
pub open spec fn own_names(models: Seq<InfoView>) -> bool {
    &&& forall|i: int, j: int|
        0 <= i < j < models.len() ==> (#[trigger] models[i]).id != (#[trigger] models[j]).id
    &&& forall|i: int|
        0 <= i < models.len() ==> (#[trigger] models[i]).id != "primary"@ && models[i].id
            != "fallback"@
}

proof fn lemma_weight_found(models: Seq<InfoView>, at: int)
    requires
        own_names(models),
        0 <= at < models.len(),
    ensures
        weight_of_id(models, models[at].id) == Some(models[at].weight),
    decreases models.len(),
{
    if at > 0 {
        let rest = models.skip(1);
        assert forall|i: int, j: int| 0 <= i < j < rest.len() implies (#[trigger] rest[i]).id != (
        #[trigger] rest[j]).id by {
            assert(rest[i] == models[i + 1]);
            assert(rest[j] == models[j + 1]);
        }
        assert forall|i: int| 0 <= i < rest.len() implies (#[trigger] rest[i]).id != "primary"@
            && rest[i].id != "fallback"@ by {
            assert(rest[i] == models[i + 1]);
        }
        assert(rest[at - 1] == models[at]);
        lemma_weight_found(rest, at - 1);
        assert(models[0].id != models[at].id);
    }
}

/// What models contributed keeps the weights that it had.
proof fn lemma_reweighted_same(model: AiModel, list: Seq<AnswerView>)
    requires
        forall|i: int|
            0 <= i < list.len() ==> current_weight(model, (#[trigger] list[i]).id) == Some(
                list[i].weight,
            ),
    ensures
        reweighted(model, contributions(list)) == Some(score_pairs(contributions(list))),
    decreases list.len(),
{
    if list.len() > 0 {
        let rest = list.drop_last();
        assert forall|i: int| 0 <= i < rest.len() implies current_weight(
            model,
            (#[trigger] rest[i]).id,
        ) == Some(rest[i].weight) by {
            assert(rest[i] == list[i]);
        }
        lemma_reweighted_same(model, rest);
        let before = contributions(rest);
        let all = contributions(list);
        let last = list[list.len() - 1];
        assert(current_weight(model, last.id) == Some(last.weight));
        if last.result is Ok {
            assert(all.drop_last() =~= before);
            assert(score_pairs(all) =~= score_pairs(before).push(
                (all.last().score, all.last().weight),
            ));
        }
    } else {
        assert(score_pairs(contributions(list)) =~= Seq::empty());
    }
}

/// While the settings stay as they are, the remembered contributions of an inference give
/// the score that it gave. This is for models whose names are their own.
pub proof fn law_cached_components_give_the_score(
    model: AiModel,
    primary: Result<AiScoreView, AiErrorView>,
    fallback: Option<Result<AiScoreView, AiErrorView>>,
    extras: Seq<AnswerView>,
)
    requires
        model.ensemble,
        fallback is Some ==> model.fallback is Some,
        own_names(enabled_models(info_views(model.additional_models@))),
        answers_of(extras, enabled_models(info_views(model.additional_models@))),
    ensures
        ensemble_score(settings_of(model), primary, fallback, extras) matches Ok(s)
            ==> cached_score(model, s.components) == Some(s.score),
{
    let models = enabled_models(info_views(model.additional_models@));
    let list = all_answers(model.blend_primary, primary, fallback, extras);
    reveal_strlit("primary");
    reveal_strlit("fallback");
    assert("primary"@.len() != "fallback"@.len());
    assert forall|i: int| 0 <= i < list.len() implies current_weight(
        model,
        (#[trigger] list[i]).id,
    ) == Some(list[i].weight) by {
        let head: int = if fallback is Some {
            2
        } else {
            1
        };
        if i >= head {
            assert(list[i] == extras[i - head]);
            assert(extras[i - head].id == models[i - head].id);
            lemma_weight_found(models, i - head);
        }
    }
    lemma_reweighted_same(model, list);
}

} // verus!
