//! Models: what kinds there are, which files and names are taken for one, and the settings
//! that bound how they are loaded and run.

use vstd::prelude::*;
use vstd::utf8::encode_utf8;

use crate::text::{
    chars_of, concat2, concat3, decimal, decimal_text, is_alphanumeric, lower, lowered,
    parse_unsigned, parsed_unsigned, same_text, trim, trimmed,
};

verus! {

/// A model file is at most this long.
pub const MAX_IMPORTED_MODEL_BYTES: u64 = 536_870_912;

/// A file beside a model is at most this long.
pub const MAX_MODEL_SIDECAR_BYTES: u64 = 1_048_576;

pub const DEFAULT_MODEL_LOAD_TIMEOUT_MS: u64 = 30_000;

/// The number of features of a model that names none.
pub const BASE_FEATURES: usize = 12;

/// What goes wrong with a model.
#[derive(Debug, Clone, PartialEq, Eq)]
pub enum AiError {
    Io(String),
    Model(String),
    Infer(String),
}

pub enum AiErrorView {
    Io(Seq<char>),
    Model(Seq<char>),
    Infer(Seq<char>),
}

impl View for AiError {
    type V = AiErrorView;

    open spec fn view(&self) -> AiErrorView {
        match *self {
            AiError::Io(e) => AiErrorView::Io(e@),
            AiError::Model(e) => AiErrorView::Model(e@),
            AiError::Infer(e) => AiErrorView::Infer(e@),
        }
    }
}

impl AiErrorView {
    /// The error in words.
    pub open spec fn text(self) -> Seq<char> {
        match self {
            AiErrorView::Io(e) => "I/O error: "@ + e,
            AiErrorView::Model(e) => "model load error: "@ + e,
            AiErrorView::Infer(e) => "inference error: "@ + e,
        }
    }
}

impl AiError {
    pub fn message(&self) -> (text: String)
        ensures
            text@ == self@.text(),
    {
        match self {
            AiError::Io(e) => concat2("I/O error: ", e.as_str()),
            AiError::Model(e) => concat2("model load error: ", e.as_str()),
            AiError::Infer(e) => concat2("inference error: ", e.as_str()),
        }
    }

    pub fn duplicate(&self) -> (copy: Self)
        ensures
            copy@ == self@,
    {
        match self {
            AiError::Io(e) => AiError::Io(e.clone()),
            AiError::Model(e) => AiError::Model(e.clone()),
            AiError::Infer(e) => AiError::Infer(e.clone()),
        }
    }
}

/// The family of a model.
#[derive(Debug, Clone, Copy, PartialEq, Eq, Structural)]
pub enum AiModelKind {
    CNN,
    Transformer,
}

/// The text, where there is one, without white space around it and in lower case.
pub open spec fn tidy(value: Seq<char>) -> Seq<char> {
    lowered(trimmed(value))
}

pub(crate) fn tidied(value: &str) -> (t: String)
    ensures
        t@ == tidy(value@),
{
    lower(trim(value).as_str())
}

pub open spec fn kind_setting(value: Option<&str>) -> AiModelKind {
    match value {
        Some(v) => if tidy(v@) == "transformer"@ || tidy(v@) == "tf"@ {
            AiModelKind::Transformer
        } else {
            AiModelKind::CNN
        },
        None => AiModelKind::CNN,
    }
}

/// The kind that a registry names.
pub open spec fn kind_named(value: Option<&str>) -> Option<AiModelKind> {
    match value {
        Some(v) => if tidy(v@) == "transformer"@ || tidy(v@) == "tf"@ {
            Some(AiModelKind::Transformer)
        } else if tidy(v@) == "cnn"@ || tidy(v@) == "mlp"@ || tidy(v@) == "classifier"@ {
            Some(AiModelKind::CNN)
        } else {
            None
        },
        None => None,
    }
}

impl AiModelKind {
    /// The kind that the environment sets.
    pub fn from_env(value: Option<&str>) -> (kind: Self)
        ensures
            kind == kind_setting(value),
    {
        match value {
            Some(v) => {
                let name = tidied(v);
                if same_text(name.as_str(), "transformer") || same_text(name.as_str(), "tf") {
                    AiModelKind::Transformer
                } else {
                    AiModelKind::CNN
                }
            },
            None => AiModelKind::CNN,
        }
    }

    pub open spec fn default_path(self) -> Seq<char> {
        match self {
            AiModelKind::Transformer => "pyas_transformer.onnx"@,
            AiModelKind::CNN => "heliosav_feature_cnn.onnx"@,
        }
    }

    pub fn default_model_path(&self) -> (path: &'static str)
        ensures
            path@ == self.default_path(),
    {
        match self {
            AiModelKind::Transformer => "pyas_transformer.onnx",
            AiModelKind::CNN => "heliosav_feature_cnn.onnx",
        }
    }

    pub open spec fn label(self) -> Seq<char> {
        match self {
            AiModelKind::Transformer => "Transformer"@,
            AiModelKind::CNN => "CNN"@,
        }
    }

    pub fn as_str(self) -> (label: &'static str)
        ensures
            label@ == self.label(),
    {
        match self {
            AiModelKind::Transformer => "Transformer",
            AiModelKind::CNN => "CNN",
        }
    }
}

pub fn parse_model_kind(value: Option<&str>) -> (kind: Option<AiModelKind>)
    ensures
        kind == kind_named(value),
{
    match value {
        Some(v) => {
            let name = tidied(v);
            let n = name.as_str();
            if same_text(n, "transformer") || same_text(n, "tf") {
                Some(AiModelKind::Transformer)
            } else if same_text(n, "cnn") || same_text(n, "mlp") || same_text(n, "classifier") {
                Some(AiModelKind::CNN)
            } else {
                None
            }
        },
        None => None,
    }
}

/// A setting that is on.
pub open spec fn is_on(value: Seq<char>) -> bool {
    tidy(value) == "1"@ || tidy(value) == "true"@ || tidy(value) == "yes"@ || tidy(value) == "on"@
}

/// Whether the environment sets several models to work together, which they do unless it
/// says otherwise.
pub fn ensemble_setting(value: Option<&str>) -> (enabled: bool)
    ensures
        enabled == (match value {
            Some(v) => is_on(v@),
            None => true,
        }),
{
    match value {
        Some(v) => {
            let name = tidied(v);
            let n = name.as_str();
            same_text(n, "1") || same_text(n, "true") || same_text(n, "yes") || same_text(n, "on")
        },
        None => true,
    }
}

/// The number up to `limit` that a setting holds, or the default, within the bounds.
pub open spec fn bounded_setting(
    value: Option<&str>,
    limit: nat,
    default: nat,
    low: nat,
    high: nat,
) -> nat {
    let n = match value {
        Some(v) => match parsed_unsigned(v@, limit) {
            Some(n) => n,
            None => default,
        },
        None => default,
    };
    if n < low {
        low
    } else if n > high {
        high
    } else {
        n
    }
}

fn bounded(value: Option<&str>, limit: u64, default: u64, low: u64, high: u64) -> (n: u64)
    requires
        low <= high,
    ensures
        n == bounded_setting(value, limit as nat, default as nat, low as nat, high as nat),
        low <= n <= high,
{
    let n: u64 = match value {
        Some(v) => match parse_unsigned(&chars_of(v), limit) {
            Some(n) => n,
            None => default,
        },
        None => default,
    };
    if n < low {
        low
    } else if n > high {
        high
    } else {
        n
    }
}

/// How long a model may take to load, in milliseconds.
pub fn model_load_timeout(value: Option<&str>) -> (millis: u64)
    ensures
        millis == bounded_setting(
            value,
            u64::MAX as nat,
            DEFAULT_MODEL_LOAD_TIMEOUT_MS as nat,
            1_000,
            120_000,
        ),
{
    bounded(value, u64::MAX, DEFAULT_MODEL_LOAD_TIMEOUT_MS, 1_000, 120_000)
}

/// How long a request may wait for its turn, in milliseconds.
pub fn queue_timeout(value: Option<&str>) -> (millis: u64)
    ensures
        millis == bounded_setting(value, u64::MAX as nat, 5_000, 100, 60_000),
{
    bounded(value, u64::MAX, 5_000, 100, 60_000)
}

pub open spec fn at_most(n: nat, limit: nat) -> nat {
    if n < limit {
        n
    } else {
        limit
    }
}

/// How many requests run at once on a machine with this many processors: what the setting
/// says, or two, but no more than four and no more than there are processors.
pub fn inference_slots(value: Option<&str>, processors: usize) -> (slots: usize)
    requires
        processors >= 1,
    ensures
        slots == bounded_setting(
            value,
            usize::MAX as nat,
            at_most(processors as nat, 2),
            1,
            at_most(processors as nat, 4),
        ),
        1 <= slots <= 4,
{
    let default: u64 = if processors < 2 {
        1
    } else {
        2
    };
    let high: u64 = if processors < 4 {
        processors as u64
    } else {
        4
    };
    bounded(value, usize::MAX as u64, default, 1, high) as usize
}

/// A single-precision bit pattern is a finite number that is not below zero.
pub open spec fn is_weight(bits: u32) -> bool {
    bits < 0x7F80_0000 || bits == 0x8000_0000
}

pub fn validate_model_weight(bits: u32) -> (checked: Result<(), AiError>)
    ensures
        checked is Ok <==> is_weight(bits),
        checked matches Err(e) ==> e@ == AiErrorView::Model(
            "model weight must be finite and non-negative"@,
        ),
{
    if bits < 0x7F80_0000 || bits == 0x8000_0000 {
        Ok(())
    } else {
        Err(AiError::Model("model weight must be finite and non-negative".to_string()))
    }
}

pub open spec fn id_candidate(requested: Seq<char>, stem: Option<&str>) -> Seq<char> {
    if trimmed(requested).len() > 0 {
        trimmed(requested)
    } else {
        match stem {
            Some(s) => s@,
            None => "custom-model"@,
        }
    }
}

pub open spec fn is_id_char(c: char) -> bool {
    is_alphanumeric(c) || c == '-' || c == '_' || c == '.'
}

/// A name that can stand for a model and for a directory.
pub open spec fn is_model_id(id: Seq<char>) -> bool {
    &&& encode_utf8(id).len() <= 64
    &&& id != "."@
    &&& id != ".."@
    &&& forall|i: int| 0 <= i < id.len() ==> is_id_char(#[trigger] id[i])
}

pub open spec fn bad_id_text() -> Seq<char> {
    "model id must use only ASCII letters, numbers, '-', '_' or '.' and be <=64 characters"@
}

fn id_char(c: char) -> (b: bool)
    ensures
        b == is_id_char(c),
{
    ('a' <= c && c <= 'z') || ('A' <= c && c <= 'Z') || ('0' <= c && c <= '9') || c == '-' || c
        == '_' || c == '.'
}

/// The name of a model: the one that is asked for, or the stem of its file.
pub fn normalize_model_id(requested: &str, stem: Option<&str>) -> (id: Result<String, AiError>)
    ensures
        match id {
            Ok(name) => name@ == id_candidate(requested@, stem) && is_model_id(name@),
            Err(e) => !is_model_id(id_candidate(requested@, stem)) && e@ == AiErrorView::Model(
                bad_id_text(),
            ),
        },
{
    let asked = trim(requested);
    let candidate: String = if asked.as_str().unicode_len() > 0 {
        asked
    } else {
        match stem {
            Some(s) => s.to_string(),
            None => "custom-model".to_string(),
        }
    };
    let chars = chars_of(candidate.as_str());
    let mut good = candidate.as_str().as_bytes().len() <= 64 && !same_text(
        candidate.as_str(),
        ".",
    ) && !same_text(candidate.as_str(), "..");
    let mut i: usize = 0;
    while i < chars.len()
        invariant
            i <= chars@.len(),
            chars@ == candidate@,
            good == (encode_utf8(candidate@).len() <= 64 && candidate@ != "."@ && candidate@
                != ".."@ && forall|k: int| 0 <= k < i ==> is_id_char(#[trigger] candidate@[k])),
        decreases chars@.len() - i,
    {
        if !id_char(chars[i]) {
            good = false;
        }
        i = i + 1;
    }
    if good {
        Ok(candidate)
    } else {
        Err(
            AiError::Model(
                "model id must use only ASCII letters, numbers, '-', '_' or '.' and be <=64 characters".to_string(),
            ),
        )
    }
}

/// A name that is taken is taken as it is: no later use changes it.
pub proof fn law_model_id_is_stable(id: Seq<char>, stem: Option<&str>)
    requires
        is_model_id(id),
        id.len() > 0,
    ensures
        id_candidate(id, stem) == id,
{
    assert(is_id_char(id[0]));
    assert(is_id_char(id[id.len() - 1]));
    crate::text::lemma_trimmed(id);
}

/// What is known of a file that is to be a model.
#[derive(Debug)]
pub struct ModelFile {
    /// Where it lies, with links resolved.
    pub path: Result<String, String>,
    pub regular: bool,
    pub extension: Option<String>,
    pub size: Result<u64, String>,
}

pub open spec fn is_onnx(extension: Option<String>) -> bool {
    match extension {
        Some(e) => lowered(e@) == "onnx"@,
        None => false,
    }
}

pub open spec fn limit_text(limit: nat) -> Seq<char> {
    decimal(limit / 1_048_576) + " MiB"@
}

/// What is wrong with a file that is to be a model.
pub open spec fn model_file_fault(file: ModelFile) -> Option<AiErrorView> {
    match file.path {
        Err(e) => Some(AiErrorView::Model("model path is not accessible: "@ + e@)),
        Ok(_) => if !file.regular {
            Some(AiErrorView::Model("model path must be a regular file"@))
        } else if !is_onnx(file.extension) {
            Some(AiErrorView::Model("only .onnx model files may be loaded"@))
        } else {
            match file.size {
                Err(e) => Some(AiErrorView::Io(e@)),
                Ok(size) => if size == 0 || size > MAX_IMPORTED_MODEL_BYTES {
                    Some(
                        AiErrorView::Model(
                            "model size must be between 1 byte and "@ + limit_text(
                                MAX_IMPORTED_MODEL_BYTES as nat,
                            ),
                        ),
                    )
                } else {
                    None
                },
            }
        },
    }
}

fn limit_words(limit: u64) -> (text: String)
    ensures
        text@ == limit_text(limit as nat),
{
    concat2(decimal_text(limit / 1_048_576).as_str(), " MiB")
}

/// Where a file that can be a model lies.
pub fn validate_onnx_model_file(file: &ModelFile) -> (checked: Result<String, AiError>)
    ensures
        match checked {
            Ok(path) => model_file_fault(*file) is None && file.path is Ok && path@ == file.path->Ok_0@,
            Err(e) => model_file_fault(*file) == Some(e@),
        },
{
    let path = match &file.path {
        Ok(p) => p,
        Err(e) => return Err(
            AiError::Model(concat2("model path is not accessible: ", e.as_str())),
        ),
    };
    if !file.regular {
        return Err(AiError::Model("model path must be a regular file".to_string()));
    }
    let onnx = match &file.extension {
        Some(e) => same_text(lower(e.as_str()).as_str(), "onnx"),
        None => false,
    };
    if !onnx {
        return Err(AiError::Model("only .onnx model files may be loaded".to_string()));
    }
    match &file.size {
        Err(e) => Err(AiError::Io(e.clone())),
        Ok(size) => if *size == 0 || *size > MAX_IMPORTED_MODEL_BYTES {
            let limit = limit_words(MAX_IMPORTED_MODEL_BYTES);
            Err(
                AiError::Model(
                    concat2("model size must be between 1 byte and ", limit.as_str()),
                ),
            )
        } else {
            Ok(path.clone())
        },
    }
}

/// What is wrong with a file beside a model.
pub open spec fn sidecar_fault(size: Result<u64, String>, name: Seq<char>) -> Option<AiErrorView> {
    match size {
        Err(e) => Some(AiErrorView::Io(e@)),
        Ok(n) => if n > MAX_MODEL_SIDECAR_BYTES {
            Some(
                AiErrorView::Model(
                    name + " exceeds the "@ + limit_text(MAX_MODEL_SIDECAR_BYTES as nat)
                        + " safety limit"@,
                ),
            )
        } else {
            None
        },
    }
}

pub fn validate_sidecar_file(size: &Result<u64, String>, name: &str) -> (checked: Result<
    (),
    AiError,
>)
    ensures
        checked is Ok <==> sidecar_fault(*size, name@) is None,
        checked matches Err(e) ==> sidecar_fault(*size, name@) == Some(e@),
{
    match size {
        Err(e) => Err(AiError::Io(e.clone())),
        Ok(n) => if *n > MAX_MODEL_SIDECAR_BYTES {
            let limit = limit_words(MAX_MODEL_SIDECAR_BYTES);
            let head = concat3(name, " exceeds the ", limit.as_str());
            Err(AiError::Model(concat2(head.as_str(), " safety limit")))
        } else {
            Ok(())
        },
    }
}

} // verus!
