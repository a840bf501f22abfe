//! The files that lie beside a model and describe it: the features it is fed, and how its
//! output is to be read.

use vstd::prelude::*;

use crate::ai::inference::{ModelContract, OutputKind};
use crate::ai::model::{
    model_file_fault, sidecar_fault, tidied, tidy, validate_onnx_model_file, validate_sidecar_file,
    AiError, AiErrorView, ModelFile,
};
use crate::ai::registry::{feature_names, AiModel};
use crate::json::{
    json_document, json_fault, json_node, json_tree, list_trees, member_trees, parse_json, JsonNode,
    JsonTree,
};
use crate::text::{push_text, same_text, texts};

verus! {

/// A file beside a model, as it was found.
#[derive(Debug)]
pub struct Sidecar {
    pub size: Result<u64, String>,
    pub text: Result<String, String>,
}

/// Why a model or one of its files cannot be loaded.
#[derive(Debug)]
pub enum LoadError {
    Ai(AiError),
    /// The file of this name is no JSON document, for the reason given.
    Json { name: String, reason: String },
}

pub enum LoadErrorView {
    Ai(AiErrorView),
    Json(Seq<char>, Seq<char>),
}

impl View for LoadError {
    type V = LoadErrorView;

    open spec fn view(&self) -> LoadErrorView {
        match *self {
            LoadError::Ai(e) => LoadErrorView::Ai(e@),
            LoadError::Json { name, reason } => LoadErrorView::Json(name@, reason@),
        }
    }
}

/// The texts among the items of a list.
pub open spec fn texts_among(items: Seq<JsonTree>) -> Seq<Seq<char>>
    decreases items.len(),
{
    if items.len() == 0 {
        Seq::empty()
    } else {
        let before = texts_among(items.drop_last());
        match items.last() {
            JsonTree::Text(t) => before.push(t),
            _ => before,
        }
    }
}

/// The feature names that a document lists.
pub open spec fn listed_names(tree: JsonTree) -> Option<Seq<Seq<char>>> {
    match tree {
        JsonTree::List(items) => Some(texts_among(items)),
        _ => None,
    }
}

/// The member of an object.
pub open spec fn member_of(members: Seq<(Seq<char>, JsonTree)>, key: Seq<char>) -> Option<JsonTree>
    decreases members.len(),
{
    if members.len() == 0 {
        None
    } else if members[0].0 == key {
        Some(members[0].1)
    } else {
        member_of(members.skip(1), key)
    }
}

pub open spec fn get_member(tree: JsonTree, key: Seq<char>) -> Option<JsonTree> {
    match tree {
        JsonTree::Object(members) => member_of(members, key),
        _ => None,
    }
}

/// What is said under a key, or under a key of the `output` object where the document
/// itself does not have it.
pub open spec fn said_of(tree: JsonTree, key: Seq<char>, inner: Seq<char>) -> Option<JsonTree> {
    match get_member(tree, key) {
        Some(t) => Some(t),
        None => match get_member(tree, "output"@) {
            Some(output) => get_member(output, inner),
            None => None,
        },
    }
}

pub open spec fn index_said(tree: JsonTree, key: Seq<char>) -> Option<usize> {
    match said_of(tree, key, key) {
        Some(JsonTree::Number { integer, natural: Some(n) }) => if n <= usize::MAX {
            Some(n as usize)
        } else {
            None
        },
        _ => None,
    }
}

pub open spec fn kind_said(tree: JsonTree) -> OutputKind {
    match said_of(tree, "output_kind"@, "kind"@) {
        Some(JsonTree::Text(t)) => if tidy(t) == "probability"@ || tidy(t) == "probabilities"@
            || tidy(t) == "prob"@ {
            OutputKind::Probability
        } else if tidy(t) == "logit"@ || tidy(t) == "logits"@ {
            OutputKind::Logit
        } else {
            OutputKind::Auto
        },
        _ => OutputKind::Auto,
    }
}

/// What a document says of the output of a model.
pub open spec fn contract_said(tree: JsonTree) -> ModelContract {
    ModelContract {
        output_index: index_said(tree, "output_index"@),
        malicious_index: index_said(tree, "malicious_index"@),
        output_kind: kind_said(tree),
    }
}

/// What is wrong with a file that is to be a document.
pub open spec fn document_fault(sidecar: Sidecar, name: Seq<char>) -> Option<LoadErrorView> {
    match sidecar_fault(sidecar.size, name) {
        Some(e) => Some(LoadErrorView::Ai(e)),
        None => match sidecar.text {
            Err(e) => Some(LoadErrorView::Ai(AiErrorView::Io(e@))),
            Ok(text) => if json_document(text@) is None {
                Some(LoadErrorView::Json(name, json_fault(text@)))
            } else {
                None
            },
        },
    }
}

/// The feature names beside a model; none where there is no file.
pub open spec fn sidecar_names(sidecar: Option<Sidecar>) -> Result<
    Option<Seq<Seq<char>>>,
    LoadErrorView,
> {
    match sidecar {
        None => Ok(None),
        Some(s) => match document_fault(s, "features.json"@) {
            Some(e) => Err(e),
            None => Ok(listed_names(json_document(s.text->Ok_0@)->0)),
        },
    }
}

/// The contract beside a model; a silent one where there is no file.
pub open spec fn sidecar_contract(sidecar: Option<Sidecar>) -> Result<ModelContract, LoadErrorView> {
    match sidecar {
        None => Ok(ModelContract::silent()),
        Some(s) => match document_fault(s, "model_contract.json"@) {
            Some(e) => Err(e),
            None => Ok(contract_said(json_document(s.text->Ok_0@)->0)),
        },
    }
}

fn read_document(sidecar: &Sidecar, name: &str) -> (r: Result<serde_json::Value, LoadError>)
    ensures
        match r {
            Ok(value) => document_fault(*sidecar, name@) is None && sidecar.text is Ok
                && json_document(sidecar.text->Ok_0@) == Some(json_tree(value)),
            Err(e) => document_fault(*sidecar, name@) == Some(e@),
        },
{
    if let Err(e) = validate_sidecar_file(&sidecar.size, name) {
        return Err(LoadError::Ai(e));
    }
    match &sidecar.text {
        Err(e) => Err(LoadError::Ai(AiError::Io(e.clone()))),
        Ok(text) => match parse_json(text.as_str()) {
            Ok(value) => Ok(value),
            Err(fault) => Err(LoadError::Json { name: name.to_string(), reason: fault.text }),
        },
    }
}

fn names_in(value: &serde_json::Value) -> (names: Option<Vec<String>>)
    ensures
        feature_names(names) == listed_names(json_tree(*value)),
{
    match json_node(value) {
        JsonNode::List(items) => {
            let mut names: Vec<String> = Vec::new();
            let ghost all = list_trees(items@);
            let mut i: usize = 0;
            assert(texts(names@) =~= texts_among(all.take(0)));
            while i < items.len()
                invariant
                    i <= items@.len(),
                    all == list_trees(items@),
                    texts(names@) == texts_among(all.take(i as int)),
                decreases items@.len() - i,
            {
                assert(all.take(i + 1).drop_last() =~= all.take(i as int));
                assert(all.take(i + 1).last() == json_tree(*items@[i as int]));
                if let JsonNode::Text(t) = json_node(items[i]) {
                    push_text(&mut names, t.to_string());
                }
                i = i + 1;
            }
            assert(all.take(i as int) =~= all);
            Some(names)
        },
        _ => None,
    }
}

/// A member of a value, where it is an object that has it.
pub(crate) fn member<'a>(value: &'a serde_json::Value, key: &str) -> (found: Option<
    &'a serde_json::Value,
>)
    ensures
        found matches Some(v) ==> get_member(json_tree(*value), key@) == Some(json_tree(*v)),
        found is None <==> get_member(json_tree(*value), key@) is None,
{
    match json_node(value) {
        JsonNode::Object(members) => {
            let ghost all = member_trees(members@);
            let mut i: usize = 0;
            assert(all.skip(0) =~= all);
            while i < members.len()
                invariant
                    i <= members@.len(),
                    all == member_trees(members@),
                    member_of(all, key@) == member_of(all.skip(i as int), key@),
                    json_tree(*value) == JsonTree::Object(all),
                decreases members@.len() - i,
            {
                let (name, inner) = members[i];
                assert(all.skip(i as int)[0] == (name@, json_tree(*inner)));
                if same_text(name, key) {
                    return Some(inner);
                }
                assert(all.skip(i as int).skip(1) =~= all.skip(i + 1));
                i = i + 1;
            }
            None
        },
        _ => None,
    }
}

fn said<'a>(value: &'a serde_json::Value, key: &str, inner: &str) -> (found: Option<
    &'a serde_json::Value,
>)
    ensures
        found matches Some(v) ==> said_of(json_tree(*value), key@, inner@) == Some(json_tree(*v)),
        found is None <==> said_of(json_tree(*value), key@, inner@) is None,
{
    match member(value, key) {
        Some(v) => Some(v),
        None => match member(value, "output") {
            Some(output) => member(output, inner),
            None => None,
        },
    }
}

fn index_in(value: &serde_json::Value, key: &str) -> (index: Option<usize>)
    ensures
        index == index_said(json_tree(*value), key@),
{
    match said(value, key, key) {
        Some(v) => match json_node(v) {
            JsonNode::Number { natural: Some(n), .. } => if n <= usize::MAX as u64 {
                Some(n as usize)
            } else {
                None
            },
            _ => None,
        },
        None => None,
    }
}

fn kind_in(value: &serde_json::Value) -> (kind: OutputKind)
    ensures
        kind == kind_said(json_tree(*value)),
{
    match said(value, "output_kind", "kind") {
        Some(v) => match json_node(v) {
            JsonNode::Text(t) => {
                let name = tidied(t);
                let n = name.as_str();
                if same_text(n, "probability") || same_text(n, "probabilities") || same_text(
                    n,
                    "prob",
                ) {
                    OutputKind::Probability
                } else if same_text(n, "logit") || same_text(n, "logits") {
                    OutputKind::Logit
                } else {
                    OutputKind::Auto
                }
            },
            _ => OutputKind::Auto,
        },
        None => OutputKind::Auto,
    }
}

impl AiModel {
    /// Takes in the feature names beside the model. Where they cannot be read, the model
    /// stays as it is.
    pub fn load_feature_map(&mut self, sidecar: &Option<Sidecar>) -> (r: Result<(), LoadError>)
        ensures
            match sidecar_names(*sidecar) {
                Ok(names) => {
                    &&& r is Ok
                    &&& *final(self) == (AiModel {
                        feature_map: final(self).feature_map,
                        ..*old(self)
                    })
                    &&& feature_names(final(self).feature_map) == names
                },
                Err(e) => r matches Err(error) && error@ == e && *final(self) == *old(self),
            },
    {
        match sidecar {
            None => {
                self.feature_map = None;
                Ok(())
            },
            Some(s) => match read_document(s, "features.json") {
                Ok(value) => {
                    self.feature_map = names_in(&value);
                    Ok(())
                },
                Err(e) => Err(e),
            },
        }
    }

    /// Takes in what the file beside the model says of its output. Where it cannot be read,
    /// the model stays as it is.
    pub fn load_model_contract(&mut self, sidecar: &Option<Sidecar>) -> (r: Result<(), LoadError>)
        ensures
            match sidecar_contract(*sidecar) {
                Ok(contract) => r is Ok && *final(self) == (AiModel {
                    model_contract: contract,
                    ..*old(self)
                }),
                Err(e) => r matches Err(error) && error@ == e && *final(self) == *old(self),
            },
    {
        match sidecar {
            None => {
                self.model_contract = ModelContract::default();
                Ok(())
            },
            Some(s) => match read_document(s, "model_contract.json") {
                Ok(value) => {
                    self.model_contract = ModelContract {
                        output_index: index_in(&value, "output_index"),
                        malicious_index: index_in(&value, "malicious_index"),
                        output_kind: kind_in(&value),
                    };
                    Ok(())
                },
                Err(e) => Err(e),
            },
        }
    }

    /// Takes in a model file that was compiled, with the files beside it, and makes it the
    /// primary model. Where the file or its compilation fails nothing changes; where a file
    /// beside it fails, the model keeps its path and its plan.
    pub fn load_model_from_path(
        &mut self,
        file: &ModelFile,
        compiled: Result<(), AiError>,
        contract: &Option<Sidecar>,
        features: &Option<Sidecar>,
    ) -> (r: Result<(), LoadError>)
        ensures
            final(self).kind == old(self).kind,
            final(self).fallback == old(self).fallback,
            final(self).ensemble == old(self).ensemble,
            final(self).blend_primary == old(self).blend_primary,
            final(self).additional_models == old(self).additional_models,
            final(self).aggregation == old(self).aggregation,
            r is Ok <==> model_file_fault(*file) is None && compiled is Ok && sidecar_contract(
                *contract,
            ) is Ok && sidecar_names(*features) is Ok,
            r is Ok ==> {
                &&& final(self).loaded
                &&& final(self).model_path@ == file.path->Ok_0@
                &&& final(self).model_contract == sidecar_contract(*contract)->Ok_0
                &&& feature_names(final(self).feature_map) == sidecar_names(*features)->Ok_0
            },
            r matches Err(error) ==> {
                &&& final(self).loaded == old(self).loaded
                &&& final(self).model_path@ == old(self).model_path@
                &&& final(self).feature_map == old(self).feature_map
                &&& if model_file_fault(*file) is Some {
                    error@ == LoadErrorView::Ai(model_file_fault(*file)->0)
                        && final(self).model_contract == old(self).model_contract
                } else if compiled is Err {
                    error@ == LoadErrorView::Ai(compiled->Err_0@) && final(self).model_contract
                        == old(self).model_contract
                } else if sidecar_contract(*contract) is Err {
                    error@ == sidecar_contract(*contract)->Err_0 && final(self).model_contract
                        == old(self).model_contract
                } else {
                    error@ == sidecar_names(*features)->Err_0 && final(self).model_contract
                        == sidecar_contract(*contract)->Ok_0
                }
            },
    {
        let path = match validate_onnx_model_file(file) {
            Ok(path) => path,
            Err(e) => return Err(LoadError::Ai(e)),
        };
        if let Err(e) = compiled {
            return Err(LoadError::Ai(e));
        }
        if let Err(e) = self.load_model_contract(contract) {
            return Err(e);
        }
        if let Err(e) = self.load_feature_map(features) {
            return Err(e);
        }
        self.loaded = true;
        self.model_path = path;
        Ok(())
    }
}

} // verus!
