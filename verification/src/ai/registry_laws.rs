//! What the registry of models must hold.

use crate::ai::config::{entry_fault, entry_id, models_loaded, names_seen, RegistryEntry};
use crate::ai::model::{
    bounded_setting, is_id_char, is_model_id, is_weight, model_file_fault, ModelFile,
    MAX_IMPORTED_MODEL_BYTES,
};
use crate::ai::registry::{
    changed_info, enabled_models, index_of_id, is_registered, weight_of_id, without_id, InfoView,
};
use crate::score::Score;
use crate::text::{lowered, parsed_unsigned};
use vstd::prelude::*;

verus! {

/// No name of a model leads out of a directory: it holds no separator, no drive and is no pair
/// of dots.
pub proof fn law_names_lead_nowhere(id: Seq<char>)
    requires
        is_model_id(id),
    ensures
        !id.contains('/'),
        !id.contains('\\'),
        !id.contains(':'),
        !id.contains(' '),
        id != ".."@,
        id != "."@,
{
    assert forall|c: char| id.contains(c) implies ('0' <= c <= '9' || 'a' <= c <= 'z' || 'A' <= c
        <= 'Z' || c == '-' || c == '_' || c == '.') by {
        let i = id.index_of(c);
        assert(is_id_char(id[i]));
    }
}

/// The finite numbers that are not below zero are weights, and nothing else is: neither a
/// negative number but zero, nor an infinite one, nor what is no number.
pub proof fn law_weights_are_finite(bits: u32)
    ensures
        bits < 0x7f80_0000 ==> is_weight(bits),
        0x7f80_0000 <= bits < 0x8000_0000 ==> !is_weight(bits),
        bits > 0x8000_0000 ==> !is_weight(bits),
        is_weight(0x8000_0000),
{
}

/// A removed name is gone and every other model stays, in its order.
pub proof fn law_removed_models_are_gone(models: Seq<InfoView>, id: Seq<char>, m: InfoView)
    ensures
        without_id(models, id).contains(m) <==> models.contains(m) && m.id != id,
    decreases models.len(),
{
    if models.len() > 0 {
        let front = models.drop_last();
        law_removed_models_are_gone(front, id, m);
        assert(front.push(models.last()) =~= models);
        vstd::seq_lib::lemma_seq_contains_after_push(front, models.last(), m);
        vstd::seq_lib::lemma_seq_contains_after_push(
            without_id(front, id),
            models.last(),
            m,
        );
    }
}

/// The models in use are those that are switched on.
pub proof fn law_models_in_use_are_switched_on(models: Seq<InfoView>, m: InfoView)
    ensures
        enabled_models(models).contains(m) <==> models.contains(m) && m.enabled,
        enabled_models(models).len() <= models.len(),
    decreases models.len(),
{
    if models.len() > 0 {
        let rest = models.skip(1);
        law_models_in_use_are_switched_on(rest, m);
        let used = enabled_models(models);
        let later = enabled_models(rest);
        if models.contains(m) {
            let i = models.index_of(m);
            if i > 0 {
                assert(rest[i - 1] == m);
            }
        }
        if rest.contains(m) {
            let i = rest.index_of(m);
            assert(models[i + 1] == m);
        }
        if models[0].enabled {
            assert(used[0] == models[0]);
            if later.contains(m) {
                let i = later.index_of(m);
                assert(used[i + 1] == m);
            }
            if used.contains(m) {
                let i = used.index_of(m);
                if i > 0 {
                    assert(later[i - 1] == m);
                }
            }
        }
    }
}

/// A name has the weight of the first model that bears it, and none where no model does.
pub proof fn law_names_have_the_weight_of_their_model(
    models: Seq<InfoView>,
    id: Seq<char>,
    at: int,
)
    ensures
        0 <= at < models.len() && models[at].id == id && (forall|k: int|
            0 <= k < at ==> (#[trigger] models[k]).id != id) ==> weight_of_id(models, id) == Some(
            models[at].weight,
        ) && index_of_id(models, id) == at,
        (forall|k: int| 0 <= k < models.len() ==> (#[trigger] models[k]).id != id)
            ==> weight_of_id(models, id) is None && index_of_id(models, id) == models.len(),
    decreases models.len(),
{
    if models.len() > 0 {
        let rest = models.skip(1);
        law_names_have_the_weight_of_their_model(rest, id, at - 1);
        if 0 <= at < models.len() && models[at].id == id && (forall|k: int|
            0 <= k < at ==> (#[trigger] models[k]).id != id) {
            if at > 0 {
                assert(models[0].id != id);
                assert(rest[at - 1] == models[at]);
                assert forall|k: int| 0 <= k < at - 1 implies (#[trigger] rest[k]).id != id by {
                    assert(rest[k] == models[k + 1]);
                }
            }
        }
        if forall|k: int| 0 <= k < models.len() ==> (#[trigger] models[k]).id != id {
            assert(models[0].id != id);
            assert forall|k: int| 0 <= k < rest.len() implies (#[trigger] rest[k]).id != id by {
                assert(rest[k] == models[k + 1]);
            }
        }
    }
}

/// A model cannot be added under a name or from a file that another one has.
pub proof fn law_names_and_files_are_taken_once(
    models: Seq<InfoView>,
    k: int,
    id: Seq<char>,
    path: Seq<char>,
)
    requires
        0 <= k < models.len(),
    ensures
        is_registered(models, models[k].id, path),
        is_registered(models, id, models[k].path),
{
    assert(models[k].id == models[k].id);
}

/// A change leaves what it does not speak of.
pub proof fn law_changes_leave_the_rest(m: InfoView, weight: Score, enabled: bool)
    ensures
        changed_info(m, None, None) == m,
        changed_info(m, Some(weight), None).weight == weight,
        changed_info(m, Some(weight), None).enabled == m.enabled,
        changed_info(m, None, Some(enabled)).enabled == enabled,
        changed_info(m, None, Some(enabled)).weight == m.weight,
        changed_info(m, Some(weight), Some(enabled)).id == m.id,
        changed_info(m, Some(weight), Some(enabled)).path == m.path,
{
}

proof fn lemma_loaded_are_seen(entries: Seq<RegistryEntry>, i: int)
    requires
        0 <= i < models_loaded(entries).len(),
    ensures
        names_seen(entries).contains(models_loaded(entries)[i].id),
        is_model_id(models_loaded(entries)[i].id),
    decreases entries.len(),
{
    let front = entries.drop_last();
    let before = models_loaded(front);
    let seen = names_seen(front);
    let id = entry_id(entries.last());
    vstd::seq_lib::lemma_seq_contains_after_push(seen, id, models_loaded(entries)[i].id);
    if i < before.len() {
        lemma_loaded_are_seen(front, i);
        assert(models_loaded(entries)[i] == before[i]);
    } else {
        assert(entry_fault(entries.last(), seen) is None);
        assert(models_loaded(entries)[i].id == id);
    }
}

/// The models that are loaded have proper names, and no two have the same.
pub proof fn law_loaded_models_have_names_of_their_own(
    entries: Seq<RegistryEntry>,
    i: int,
    j: int,
)
    requires
        0 <= i < j < models_loaded(entries).len(),
    ensures
        models_loaded(entries)[i].id != models_loaded(entries)[j].id,
        is_model_id(models_loaded(entries)[i].id),
    decreases entries.len(),
{
    let front = entries.drop_last();
    let before = models_loaded(front);
    lemma_loaded_are_seen(entries, i);
    if j < before.len() {
        law_loaded_models_have_names_of_their_own(front, i, j);
    } else {
        lemma_loaded_are_seen(front, i);
        assert(models_loaded(entries)[i] == before[i]);
        assert(entry_fault(entries.last(), names_seen(front)) is None);
    }
}

/// A number within the bounds is taken as it is; one outside them, at the nearer bound; and
/// what is no number as the default.
pub proof fn law_settings_stay_within_bounds(
    text: &str,
    limit: nat,
    default: nat,
    low: nat,
    high: nat,
)
    requires
        low <= default <= high,
    ensures
        low <= bounded_setting(Some(text), limit, default, low, high) <= high,
        bounded_setting(None, limit, default, low, high) == default,
        parsed_unsigned(text@, limit) is None ==> bounded_setting(
            Some(text),
            limit,
            default,
            low,
            high,
        ) == default,
        parsed_unsigned(text@, limit) is Some && low <= parsed_unsigned(text@, limit)->0 <= high
            ==> bounded_setting(Some(text), limit, default, low, high) == parsed_unsigned(
            text@,
            limit,
        )->0,
{
}

/// A model is loaded from a regular file with the extension of models that is neither empty nor
/// above the limit, and from no other.
pub proof fn law_model_files_are_checked(file: ModelFile)
    ensures
        model_file_fault(file) is None <==> file.path is Ok && file.regular && file.extension
            is Some && lowered(file.extension->0@) == "onnx"@ && file.size is Ok && 0
            < file.size->Ok_0 <= MAX_IMPORTED_MODEL_BYTES,
{
}

} // verus!
