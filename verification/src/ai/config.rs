//! Settings that can be read anew while a scanner runs: how models work together, and which
//! further models there are.

use vstd::prelude::*;

use crate::ai::ensemble::{strategy_named, EnsembleStrategy, WEIGHTLESS_UNITS};
use crate::ai::model::{
    bad_id_text, is_model_id, is_weight, model_file_fault, normalize_model_id, parse_model_kind,
    tidy, validate_model_weight, validate_onnx_model_file, AiError, AiErrorView, AiModelKind,
    ModelFile,
};
use crate::ai::registry::{described, info_views, AiModel, AiModelInfo, InfoView};
use crate::ai::sidecar::{get_member, member, LoadError, LoadErrorView};
use crate::json::{json_document, json_fault, json_node, parse_json, JsonNode, JsonTree};
use crate::score::{Score, ONE_UNITS};
use crate::text::{concat2, concat3, list_contains, push_text, texts};

verus! {

/// A weight as a single-precision bit pattern, and as a score where it can be one.
#[derive(Debug, Clone, Copy)]
pub struct EntryWeight {
    pub bits: u32,
    pub value: Score,
}

/// One model of a registry file, with what was found out about it.
#[derive(Debug)]
pub struct RegistryEntry {
    pub id: String,
    /// The stem of the file's name.
    pub stem: Option<String>,
    pub kind: Option<String>,
    pub weight: Option<EntryWeight>,
    pub enabled: Option<bool>,
    pub file: ModelFile,
    /// The file lies below the registry's root.
    pub inside_root: bool,
    /// How loading the model went, and how many features it is fed.
    pub loading: Result<usize, AiError>,
}

pub open spec fn maybe_str(t: Option<String>) -> Option<Seq<char>> {
    match t {
        Some(s) => Some(s@),
        None => None,
    }
}

/// The name that an entry asks for.
pub open spec fn entry_id(entry: RegistryEntry) -> Seq<char> {
    if crate::text::trimmed(entry.id@).len() > 0 {
        crate::text::trimmed(entry.id@)
    } else {
        match entry.stem {
            Some(s) => s@,
            None => "custom-model"@,
        }
    }
}

pub open spec fn entry_kind(entry: RegistryEntry) -> AiModelKind {
    match entry.kind {
        Some(k) => if tidy(k@) == "transformer"@ || tidy(k@) == "tf"@ {
            AiModelKind::Transformer
        } else {
            AiModelKind::CNN
        },
        None => AiModelKind::CNN,
    }
}

pub open spec fn entry_weight(entry: RegistryEntry) -> Score {
    match entry.weight {
        Some(w) => w.value,
        None => Score::one(),
    }
}

pub open spec fn entry_enabled(entry: RegistryEntry) -> bool {
    match entry.enabled {
        Some(e) => e,
        None => true,
    }
}

/// Why an entry is passed over before it is loaded, given the names of the entries before
/// it.
pub open spec fn entry_fault(entry: RegistryEntry, seen: Seq<Seq<char>>) -> Option<Seq<char>> {
    let id = entry_id(entry);
    if !is_model_id(id) {
        Some(AiErrorView::Model(bad_id_text()).text())
    } else if seen.contains(id) {
        Some("duplicate model id: "@ + id)
    } else if model_file_fault(entry.file) is Some {
        Some(id + ": "@ + model_file_fault(entry.file)->0.text())
    } else if !entry.inside_root {
        Some("model is outside registry root: "@ + id)
    } else if entry.weight is Some && !is_weight(entry.weight->0.bits) {
        Some(
            id + ": "@ + AiErrorView::Model(
                "model weight must be finite and non-negative"@,
            ).text(),
        )
    } else {
        None
    }
}

/// What the registry says of an entry that was loaded.
pub open spec fn entry_info(entry: RegistryEntry, features: usize) -> InfoView {
    described(
        entry_id(entry),
        "custom"@,
        entry.file.path->Ok_0@,
        entry_kind(entry),
        entry_weight(entry),
        entry_enabled(entry),
        true,
        features as nat,
    )
}

/// The names of the entries that have a proper one.
pub open spec fn names_seen(entries: Seq<RegistryEntry>) -> Seq<Seq<char>>
    decreases entries.len(),
{
    if entries.len() == 0 {
        Seq::empty()
    } else {
        let before = names_seen(entries.drop_last());
        let id = entry_id(entries.last());
        if is_model_id(id) && !before.contains(id) {
            before.push(id)
        } else {
            before
        }
    }
}

/// The models that come of the entries.
pub open spec fn models_loaded(entries: Seq<RegistryEntry>) -> Seq<InfoView>
    decreases entries.len(),
{
    if entries.len() == 0 {
        Seq::empty()
    } else {
        let before = models_loaded(entries.drop_last());
        let entry = entries.last();
        match entry.loading {
            Ok(features) => if entry_fault(entry, names_seen(entries.drop_last())) is None {
                before.push(entry_info(entry, features))
            } else {
                before
            },
            Err(_) => before,
        }
    }
}

/// Why entries were passed over.
pub open spec fn entries_skipped(entries: Seq<RegistryEntry>) -> Seq<Seq<char>>
    decreases entries.len(),
{
    if entries.len() == 0 {
        Seq::empty()
    } else {
        let before = entries_skipped(entries.drop_last());
        let entry = entries.last();
        match entry_fault(entry, names_seen(entries.drop_last())) {
            Some(fault) => before.push(fault),
            None => match entry.loading {
                Ok(_) => before,
                Err(e) => before.push(entry_id(entry) + ": "@ + e@.text()),
            },
        }
    }
}

/// What came of reading a registry.
#[derive(Debug)]
pub struct ModelRegistryReport {
    pub loaded: usize,
    pub skipped: Vec<String>,
    pub strategy: String,
}

/// Whether an entry can be loaded, given the names of the entries before it: its name, its
/// place and its kind, or why it is passed over. A proper new name is added to the names
/// either way.
pub fn judge_entry(entry: &RegistryEntry, seen: &mut Vec<String>) -> (judged: Result<
    (String, String, AiModelKind),
    String,
>)
    ensures
        texts(final(seen)@) == (if is_model_id(entry_id(*entry)) && !texts(old(seen)@).contains(
            entry_id(*entry),
        ) {
            texts(old(seen)@).push(entry_id(*entry))
        } else {
            texts(old(seen)@)
        }),
        match judged {
            Ok(found) => {
                &&& entry_fault(*entry, texts(old(seen)@)) is None
                &&& found.0@ == entry_id(*entry)
                &&& entry.file.path is Ok
                &&& found.1@ == entry.file.path->Ok_0@
                &&& found.2 == entry_kind(*entry)
            },
            Err(reason) => entry_fault(*entry, texts(old(seen)@)) == Some(reason@),
        },
{
    let stem: Option<&str> = match &entry.stem {
        Some(s) => Some(s.as_str()),
        None => None,
    };
    let id = match normalize_model_id(entry.id.as_str(), stem) {
        Ok(id) => id,
        Err(e) => return Err(e.message()),
    };
    if list_contains(seen, id.as_str()) {
        return Err(concat2("duplicate model id: ", id.as_str()));
    }
    push_text(seen, id.clone());
    let path = match validate_onnx_model_file(&entry.file) {
        Ok(path) => path,
        Err(e) => return Err(concat3(id.as_str(), ": ", e.message().as_str())),
    };
    if !entry.inside_root {
        return Err(concat2("model is outside registry root: ", id.as_str()));
    }
    let kind_text: Option<&str> = match &entry.kind {
        Some(k) => Some(k.as_str()),
        None => None,
    };
    let kind = match parse_model_kind(kind_text) {
        Some(k) => k,
        None => AiModelKind::CNN,
    };
    if let Some(w) = &entry.weight {
        if let Err(e) = validate_model_weight(w.bits) {
            return Err(concat3(id.as_str(), ": ", e.message().as_str()));
        }
    }
    Ok((id, path, kind))
}

/// The strategy that a registry sets: a known one, else the one in use.
pub open spec fn strategy_set(value: Option<Seq<char>>, current: EnsembleStrategy) -> EnsembleStrategy {
    match value {
        Some(v) => match strategy_named(tidy(v)) {
            Some(s) => s,
            None => current,
        },
        None => current,
    }
}

/// What reading a configuration changed.
#[derive(Debug)]
pub struct ConfigReloadSummary {
    pub changed_keys: Vec<String>,
    pub previous_ensemble: bool,
    pub new_ensemble: bool,
    pub previous_blend: Score,
    pub new_blend: Score,
    pub loaded_models: usize,
    pub skipped_models: Vec<String>,
    pub strategy: String,
}

/// The switch that a document sets.
pub open spec fn switch_said(tree: JsonTree) -> Option<bool> {
    match get_member(tree, "ensemble"@) {
        Some(JsonTree::Bool(b)) => Some(b),
        _ => None,
    }
}

/// The strategy that a document names.
pub open spec fn strategy_said(tree: JsonTree) -> Option<Seq<char>> {
    match get_member(tree, "strategy"@) {
        Some(JsonTree::Text(t)) => Some(t),
        _ => None,
    }
}

/// The blend that a document sets, where it is not the one in use but for rounding.
pub open spec fn blend_changes(blend: Option<Score>, current: Score) -> Option<Score> {
    match blend {
        Some(b) => {
            let new = b.lesser(Score::one());
            let distance = if new.units > current.units {
                new.difference(current)
            } else {
                current.difference(new)
            };
            if distance.units > WEIGHTLESS_UNITS {
                Some(new)
            } else {
                None
            }
        },
        None => None,
    }
}

/// The keys that a configuration changes, in their order.
pub open spec fn keys_changed(
    switch: bool,
    blend: bool,
    strategy: bool,
    models: bool,
) -> Seq<Seq<char>> {
    crate::text::only_if(switch, "ensemble"@) + crate::text::only_if(blend, "blend_primary"@)
        + crate::text::only_if(strategy, "strategy"@) + crate::text::only_if(models, "models"@)
}

impl AiModel {
    /// Replaces the further models by those of a registry, and takes over its strategy where
    /// it names a known one.
    pub fn load_model_registry(&mut self, strategy: &Option<String>, entries: &[RegistryEntry]) -> (
    report: ModelRegistryReport)
        ensures
            info_views(final(self).additional_models@) == models_loaded(entries@),
            final(self).aggregation == strategy_set(maybe_str(*strategy), old(self).aggregation),
            *final(self) == (AiModel {
                additional_models: final(self).additional_models,
                aggregation: final(self).aggregation,
                ..*old(self)
            }),
            report.loaded == models_loaded(entries@).len(),
            texts(report.skipped@) == entries_skipped(entries@),
            report.strategy@ == final(self).aggregation.name(),
    {
        let chosen = match strategy {
            Some(text) => match EnsembleStrategy::parse(text.as_str()) {
                Some(s) => s,
                None => self.aggregation,
            },
            None => self.aggregation,
        };
        let mut models: Vec<AiModelInfo> = Vec::new();
        let mut skipped: Vec<String> = Vec::new();
        let mut seen: Vec<String> = Vec::new();
        let mut i: usize = 0;
        assert(info_views(models@) =~= models_loaded(entries@.take(0)));
        assert(texts(skipped@) =~= entries_skipped(entries@.take(0)));
        assert(texts(seen@) =~= names_seen(entries@.take(0)));
        while i < entries.len()
            invariant
                i <= entries@.len(),
                info_views(models@) == models_loaded(entries@.take(i as int)),
                texts(skipped@) == entries_skipped(entries@.take(i as int)),
                texts(seen@) == names_seen(entries@.take(i as int)),
            decreases entries@.len() - i,
        {
            let entry = &entries[i];
            assert(entries@.take(i + 1).drop_last() =~= entries@.take(i as int));
            assert(entries@.take(i + 1).last() == *entry);
            match judge_entry(entry, &mut seen) {
                Ok((id, path, kind)) => match &entry.loading {
                    Ok(features) => {
                        let weight = match &entry.weight {
                            Some(w) => w.value,
                            None => Score { units: ONE_UNITS },
                        };
                        let enabled = match entry.enabled {
                            Some(e) => e,
                            None => true,
                        };
                        let info = AiModelInfo {
                            id,
                            role: "custom".to_string(),
                            path,
                            kind: kind.as_str().to_string(),
                            weight,
                            enabled,
                            loaded: true,
                            feature_dim: Some(*features),
                        };
                        assert(info@ == entry_info(*entry, *features));
                        assert(info_views(models@.push(info)) =~= info_views(models@).push(info@));
                        models.push(info);
                    },
                    Err(e) => {
                        push_text(
                            &mut skipped,
                            concat3(id.as_str(), ": ", e.message().as_str()),
                        );
                    },
                },
                Err(reason) => {
                    push_text(&mut skipped, reason);
                },
            }
            i = i + 1;
        }
        assert(entries@.take(i as int) =~= entries@);
        assert(info_views(models@).len() == models@.len());
        let loaded: usize = models.len();
        self.additional_models = models;
        self.aggregation = chosen;
        ModelRegistryReport { loaded, skipped, strategy: chosen.as_str().to_string() }
    }

    /// Reads a configuration anew: whether models work together, the blend, the strategy and
    /// the further models. What stands before a fault is changed all the same.
    ///
    /// The blend and the registry come as the caller read them from the same text.
    #[verifier::rlimit(40)]
    pub fn reload_config(
        &mut self,
        text: &str,
        blend: Option<Score>,
        registry: Result<(Option<String>, Vec<RegistryEntry>), AiError>,
    ) -> (r: Result<ConfigReloadSummary, LoadError>)
        requires
            old(self).valid(),
        ensures
            final(self).valid(),
            match json_document(text@) {
                None => {
                    &&& r matches Err(e) && e@ == LoadErrorView::Json(
                        "json"@,
                        json_fault(text@),
                    )
                    &&& *final(self) == *old(self)
                },
                Some(tree) => {
                    let switch = switch_said(tree);
                    let new_switch = if switch is Some {
                        switch->0
                    } else {
                        old(self).ensemble
                    };
                    let change = blend_changes(blend, old(self).blend_primary);
                    let new_blend = if change is Some {
                        change->0
                    } else {
                        old(self).blend_primary
                    };
                    let named = strategy_said(tree);
                    let known = if named is Some {
                        strategy_named(tidy(named->0))
                    } else {
                        Some(old(self).aggregation)
                    };
                    let models = get_member(tree, "models"@) is Some;
                    &&& final(self).ensemble == new_switch
                    &&& final(self).blend_primary == new_blend
                    &&& *final(self) == (AiModel {
                        ensemble: final(self).ensemble,
                        blend_primary: final(self).blend_primary,
                        aggregation: final(self).aggregation,
                        additional_models: final(self).additional_models,
                        ..*old(self)
                    })
                    &&& if known is None {
                        &&& r matches Err(e) && e@ == LoadErrorView::Ai(
                            AiErrorView::Model("unsupported ensemble strategy: "@ + named->0),
                        )
                        &&& final(self).aggregation == old(self).aggregation
                        &&& final(self).additional_models == old(self).additional_models
                    } else if models && registry is Err {
                        &&& r matches Err(e) && e@ == LoadErrorView::Ai(registry->Err_0@)
                        &&& final(self).aggregation == known->0
                        &&& final(self).additional_models == old(self).additional_models
                    } else {
                        &&& r matches Ok(summary) && {
                            &&& texts(summary.changed_keys@) == keys_changed(
                                new_switch != old(self).ensemble,
                                change is Some,
                                known->0 != old(self).aggregation,
                                models,
                            )
                            &&& summary.previous_ensemble == old(self).ensemble
                            &&& summary.new_ensemble == new_switch
                            &&& summary.previous_blend == old(self).blend_primary
                            &&& summary.new_blend == new_blend
                            &&& summary.loaded_models == final(self).additional_models@.len()
                            &&& texts(summary.skipped_models@) == (if models {
                                entries_skipped(registry->Ok_0.1@)
                            } else {
                                Seq::empty()
                            })
                            &&& summary.strategy@ == final(self).aggregation.name()
                        }
                        &&& if models {
                            &&& info_views(final(self).additional_models@) == models_loaded(
                                registry->Ok_0.1@,
                            )
                            &&& final(self).aggregation == strategy_set(
                                maybe_str(registry->Ok_0.0),
                                known->0,
                            )
                        } else {
                            &&& final(self).additional_models == old(self).additional_models
                            &&& final(self).aggregation == known->0
                        }
                    }
                },
            },
    {
        let value = match parse_json(text) {
            Ok(value) => value,
            Err(fault) => return Err(
                LoadError::Json { name: "json".to_string(), reason: fault.text },
            ),
        };
        let mut changed: Vec<String> = Vec::new();
        assert(texts(changed@) =~= Seq::empty());
        let previous_ensemble = self.ensemble;
        let previous_blend = self.blend_primary;
        let previous_strategy = self.aggregation;
        if let Some(e) = member(&value, "ensemble") {
            if let JsonNode::Bool(b) = json_node(e) {
                if b != previous_ensemble {
                    self.ensemble = b;
                    push_text(&mut changed, "ensemble".to_string());
                }
            }
        }
        let ghost first = crate::text::only_if(
            self.ensemble != old(self).ensemble,
            "ensemble"@,
        );
        assert(texts(changed@) =~= first);
        if let Some(b) = blend {
            let new = b.min(Score { units: ONE_UNITS });
            let distance = if new.units > previous_blend.units {
                new.minus(previous_blend)
            } else {
                previous_blend.minus(new)
            };
            if distance.units > WEIGHTLESS_UNITS {
                self.blend_primary = new;
                push_text(&mut changed, "blend_primary".to_string());
            }
        }
        let ghost change = blend_changes(blend, old(self).blend_primary);
        let ghost second = first + crate::text::only_if(change is Some, "blend_primary"@);
        assert(texts(changed@) =~= second);
        if let Some(s) = member(&value, "strategy") {
            if let JsonNode::Text(name) = json_node(s) {
                match EnsembleStrategy::parse(name) {
                    Some(parsed) => {
                        if parsed != previous_strategy {
                            self.aggregation = parsed;
                            push_text(&mut changed, "strategy".to_string());
                        }
                    },
                    None => return Err(
                        LoadError::Ai(
                            AiError::Model(concat2("unsupported ensemble strategy: ", name)),
                        ),
                    ),
                }
            }
        }
        let ghost third = second + crate::text::only_if(
            self.aggregation != old(self).aggregation,
            "strategy"@,
        );
        assert(texts(changed@) =~= third);
        let mut skipped: Vec<String> = Vec::new();
        assert(texts(skipped@) =~= Seq::empty());
        let models = member(&value, "models").is_some();
        if models {
            match registry {
                Ok((strategy, entries)) => {
                    let report = self.load_model_registry(&strategy, &entries);
                    skipped = report.skipped;
                    push_text(&mut changed, "models".to_string());
                },
                Err(e) => return Err(LoadError::Ai(e)),
            }
        }
        assert(texts(changed@) =~= third + crate::text::only_if(models, "models"@));
        Ok(
            ConfigReloadSummary {
                changed_keys: changed,
                previous_ensemble,
                new_ensemble: self.ensemble,
                previous_blend,
                new_blend: self.blend_primary,
                loaded_models: self.additional_models.len(),
                skipped_models: skipped,
                strategy: self.aggregation.as_str().to_string(),
            },
        )
    }
}

} // verus!
