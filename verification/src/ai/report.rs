//! What is told about models: whether a file can be used as one, and a token that changes
//! whenever the models do.

use vstd::prelude::*;
use vstd::utf8::encode_utf8;

use crate::ai::model::{model_file_fault, validate_onnx_model_file, AiError, AiModelKind, ModelFile};
use crate::bytes::{append_bytes, append_u32, append_u64, u32_bytes, u64_bytes};
use crate::digest::{sha256, sha256_of};
use crate::score::{Score, ONE_UNITS};
use crate::text::{concat2, concat3, decimal, decimal_text, push_text, push_when, only_if, texts};

verus! {

/// More features than this slow scans down.
pub const MANY_FEATURES: usize = 4096;

/// What a compiled model needs and gives.
#[derive(Debug)]
pub struct RunnableFacts {
    pub inputs: usize,
    pub outputs: usize,
    pub input0: Option<String>,
    pub output0: Option<String>,
}

/// What a run on an empty feature vector gave.
#[derive(Debug)]
pub enum DryRun {
    Score(Score),
    /// A value that is no number, in words.
    NotFinite(String),
    Failed(AiError),
}

/// What was found out about a file that is to be a model.
#[derive(Debug)]
pub struct ModelTrial {
    pub requested: String,
    pub kind: AiModelKind,
    pub file: ModelFile,
    /// The size of the file once it was found good.
    pub size: Result<u64, String>,
    pub has_parent: bool,
    pub has_features: bool,
    pub has_contract: bool,
    /// How loading went, and how many features the model is fed.
    pub loading: Result<usize, AiError>,
    pub runnable: Option<RunnableFacts>,
    pub dry_run: DryRun,
}

/// Whether a file can be used as a model, and why not.
#[derive(Debug)]
pub struct AiModelValidationReport {
    pub usable: bool,
    pub path: String,
    pub size_bytes: Option<u64>,
    pub kind: String,
    pub feature_dim: Option<usize>,
    pub input_count: Option<usize>,
    pub output_count: Option<usize>,
    pub input0: Option<String>,
    pub output0: Option<String>,
    pub dry_run_score: Option<Score>,
    pub warnings: Vec<String>,
    pub errors: Vec<String>,
}

pub struct ReportView {
    pub usable: bool,
    pub path: Seq<char>,
    pub size_bytes: Option<u64>,
    pub kind: Seq<char>,
    pub feature_dim: Option<usize>,
    pub input_count: Option<usize>,
    pub output_count: Option<usize>,
    pub input0: Option<Seq<char>>,
    pub output0: Option<Seq<char>>,
    pub dry_run_score: Option<Score>,
    pub warnings: Seq<Seq<char>>,
    pub errors: Seq<Seq<char>>,
}

pub open spec fn maybe(t: Option<String>) -> Option<Seq<char>> {
    match t {
        Some(s) => Some(s@),
        None => None,
    }
}

impl View for AiModelValidationReport {
    type V = ReportView;

    open spec fn view(&self) -> ReportView {
        ReportView {
            usable: self.usable,
            path: self.path@,
            size_bytes: self.size_bytes,
            kind: self.kind@,
            feature_dim: self.feature_dim,
            input_count: self.input_count,
            output_count: self.output_count,
            input0: maybe(self.input0),
            output0: maybe(self.output0),
            dry_run_score: self.dry_run_score,
            warnings: texts(self.warnings@),
            errors: texts(self.errors@),
        }
    }
}

/// A report that knows nothing yet.
pub open spec fn empty_report(path: Seq<char>, kind: AiModelKind) -> ReportView {
    ReportView {
        usable: false,
        path,
        size_bytes: None,
        kind: kind.label(),
        feature_dim: None,
        input_count: None,
        output_count: None,
        input0: None,
        output0: None,
        dry_run_score: None,
        warnings: Seq::empty(),
        errors: Seq::empty(),
    }
}

pub open spec fn with_error(report: ReportView, error: Seq<char>) -> ReportView {
    ReportView { errors: report.errors.push(error), ..report }
}

/// What the files themselves tell: size, and which files are missing.
pub open spec fn file_stage(trial: ModelTrial) -> ReportView {
    let base = empty_report(trial.file.path->Ok_0@, trial.kind);
    let size_note = match trial.size {
        Ok(_) => Seq::empty(),
        Err(e) => seq!["unable to read model size after validation: "@ + e@],
    };
    ReportView {
        size_bytes: match trial.size {
            Ok(n) => Some(n),
            Err(_) => None,
        },
        warnings: size_note + only_if(
            trial.has_parent && !trial.has_features,
            "features.json not found; the scanner will provide the built-in 12-feature vector"@,
        ) + only_if(
            trial.has_parent && !trial.has_contract,
            "model_contract.json not found; output decoding will use automatic probability/logit heuristics"@,
        ),
        ..base
    }
}

/// What loading adds: how many features the model is fed.
pub open spec fn feature_stage(trial: ModelTrial) -> ReportView {
    let base = file_stage(trial);
    let features = trial.loading->Ok_0;
    ReportView {
        feature_dim: Some(features),
        warnings: base.warnings + only_if(
            features > MANY_FEATURES,
            "feature vector has "@ + decimal(features as nat)
                + " entries; very large feature maps may slow scans"@,
        ),
        ..base
    }
}

/// What the compiled model adds.
pub open spec fn runnable_stage(trial: ModelTrial) -> ReportView {
    let facts = trial.runnable->0;
    ReportView {
        input_count: Some(facts.inputs),
        output_count: Some(facts.outputs),
        input0: maybe(facts.input0),
        output0: maybe(facts.output0),
        ..feature_stage(trial)
    }
}

/// The report on a file that is to be a model. It is usable only if it loads, takes one
/// feature vector, has an output, and gives a number when it is tried.
pub open spec fn report_of(trial: ModelTrial) -> ReportView {
    if model_file_fault(trial.file) is Some {
        with_error(
            empty_report(trial.requested@, trial.kind),
            model_file_fault(trial.file)->0.text(),
        )
    } else if trial.loading is Err {
        with_error(file_stage(trial), trial.loading->Err_0@.text())
    } else if trial.loading->Ok_0 == 0 {
        with_error(
            ReportView { feature_dim: Some(0), ..file_stage(trial) },
            "feature vector is empty; features.json has no usable entries"@,
        )
    } else if trial.runnable is None {
        with_error(feature_stage(trial), "model compiled but no runnable plan is loaded"@)
    } else if trial.runnable->0.inputs != 1 {
        with_error(
            runnable_stage(trial),
            "model requires "@ + decimal(trial.runnable->0.inputs as nat)
                + " inputs; HeliosAV currently supplies one feature tensor"@,
        )
    } else if trial.runnable->0.outputs == 0 {
        with_error(runnable_stage(trial), "model has no outputs to decode as a malware score"@)
    } else {
        match trial.dry_run {
            DryRun::Score(score) => ReportView {
                usable: true,
                dry_run_score: Some(score.lesser(Score::one())),
                ..runnable_stage(trial)
            },
            DryRun::NotFinite(value) => with_error(
                runnable_stage(trial),
                "dry-run returned a non-finite score: "@ + value@,
            ),
            DryRun::Failed(e) => with_error(
                runnable_stage(trial),
                "dry-run inference failed: "@ + e@.text(),
            ),
        }
    }
}

fn copy_maybe(t: &Option<String>) -> (copy: Option<String>)
    ensures
        maybe(copy) == maybe(*t),
{
    match t {
        Some(s) => Some(s.clone()),
        None => None,
    }
}

impl AiModelValidationReport {
    fn blank(path: String, kind: AiModelKind) -> (report: Self)
        ensures
            report@ == empty_report(path@, kind),
    {
        let warnings: Vec<String> = Vec::new();
        let errors: Vec<String> = Vec::new();
        assert(texts(warnings@) =~= Seq::empty());
        assert(texts(errors@) =~= Seq::empty());
        AiModelValidationReport {
            usable: false,
            path,
            size_bytes: None,
            kind: kind.as_str().to_string(),
            feature_dim: None,
            input_count: None,
            output_count: None,
            input0: None,
            output0: None,
            dry_run_score: None,
            warnings,
            errors,
        }
    }

    fn failed(self, error: String) -> (report: Self)
        ensures
            report@ == with_error(self@, error@),
    {
        let mut report = self;
        push_text(&mut report.errors, error);
        report
    }
}

/// Whether a file can be used as a model, from what was found out about it.
pub fn validate_model_for_scanner(trial: &ModelTrial) -> (report: AiModelValidationReport)
    ensures
        report@ == report_of(*trial),
{
    let path = match validate_onnx_model_file(&trial.file) {
        Ok(path) => path,
        Err(e) => return AiModelValidationReport::blank(
            trial.requested.clone(),
            trial.kind,
        ).failed(e.message()),
    };
    let mut report = AiModelValidationReport::blank(path, trial.kind);
    match &trial.size {
        Ok(n) => {
            report.size_bytes = Some(*n);
        },
        Err(e) => {
            push_text(
                &mut report.warnings,
                concat2("unable to read model size after validation: ", e.as_str()),
            );
        },
    }
    push_when(
        &mut report.warnings,
        trial.has_parent && !trial.has_features,
        "features.json not found; the scanner will provide the built-in 12-feature vector",
    );
    push_when(
        &mut report.warnings,
        trial.has_parent && !trial.has_contract,
        "model_contract.json not found; output decoding will use automatic probability/logit heuristics",
    );
    assert(report@.warnings =~= file_stage(*trial).warnings);
    assert(report@ == file_stage(*trial));
    let features: usize = match &trial.loading {
        Ok(n) => *n,
        Err(e) => return report.failed(e.message()),
    };
    report.feature_dim = Some(features);
    if features == 0 {
        return report.failed(
            "feature vector is empty; features.json has no usable entries".to_string(),
        );
    }
    let note = concat3(
        "feature vector has ",
        decimal_text(features as u64).as_str(),
        " entries; very large feature maps may slow scans",
    );
    push_when(&mut report.warnings, features > MANY_FEATURES, note.as_str());
    assert(report@ == feature_stage(*trial));
    let facts = match &trial.runnable {
        Some(facts) => facts,
        None => return report.failed("model compiled but no runnable plan is loaded".to_string()),
    };
    report.input_count = Some(facts.inputs);
    report.output_count = Some(facts.outputs);
    report.input0 = copy_maybe(&facts.input0);
    report.output0 = copy_maybe(&facts.output0);
    assert(report@ == runnable_stage(*trial));
    if facts.inputs != 1 {
        return report.failed(
            concat3(
                "model requires ",
                decimal_text(facts.inputs as u64).as_str(),
                " inputs; HeliosAV currently supplies one feature tensor",
            ),
        );
    }
    if facts.outputs == 0 {
        return report.failed("model has no outputs to decode as a malware score".to_string());
    }
    match &trial.dry_run {
        DryRun::Score(score) => {
            report.dry_run_score = Some(score.min(Score { units: ONE_UNITS }));
            report.usable = true;
            report
        },
        DryRun::NotFinite(value) => report.failed(
            concat2("dry-run returned a non-finite score: ", value.as_str()),
        ),
        DryRun::Failed(e) => report.failed(
            concat2("dry-run inference failed: ", e.message().as_str()),
        ),
    }
}

/// A usable model has no error against it and has been tried, and the other way round.
pub proof fn law_usable_means_no_error(trial: ModelTrial)
    ensures
        report_of(trial).usable == (report_of(trial).errors.len() == 0),
        report_of(trial).usable == (report_of(trial).dry_run_score is Some),
{
}

/// A file as it lies on disk: its size, and when it was last written as seconds and
/// nanoseconds, as far as that is known.
#[derive(Debug, Clone, Copy)]
pub struct FileStamp {
    pub size: u64,
    pub modified: Option<(u64, u32)>,
}

/// What tells the state of a file apart.
pub open spec fn stamp_bytes(path: Seq<char>, stamp: Option<FileStamp>) -> Seq<u8> {
    encode_utf8(path) + seq![0u8] + match stamp {
        None => Seq::empty(),
        Some(s) => u64_bytes(s.size as nat) + match s.modified {
            None => Seq::empty(),
            Some(m) => u64_bytes(m.0 as nat) + u32_bytes(m.1 as nat),
        },
    }
}

/// A further model as the token sees it.
#[derive(Debug)]
pub struct MemberStamp {
    pub id: String,
    pub path: String,
    pub stamp: Option<FileStamp>,
    /// The weight as a single-precision bit pattern.
    pub weight_bits: u32,
    pub enabled: bool,
}

pub open spec fn member_bytes(m: MemberStamp) -> Seq<u8> {
    encode_utf8(m.id@) + seq![0u8] + stamp_bytes(m.path@, m.stamp) + u32_bytes(
        m.weight_bits as nat,
    ) + seq![
        if m.enabled {
            1u8
        } else {
            0u8
        },
    ]
}

pub open spec fn members_bytes(members: Seq<MemberStamp>) -> Seq<u8>
    decreases members.len(),
{
    if members.len() == 0 {
        Seq::empty()
    } else {
        members_bytes(members.drop_last()) + member_bytes(members.last())
    }
}

/// Everything that a change of the models changes.
pub open spec fn version_bytes(
    path: Seq<char>,
    stamp: Option<FileStamp>,
    kind: AiModelKind,
    fallback: Option<u64>,
    members: Seq<MemberStamp>,
) -> Seq<u8> {
    stamp_bytes(path, stamp) + seq![
        match kind {
            AiModelKind::CNN => 1u8,
            AiModelKind::Transformer => 2u8,
        },
    ] + match fallback {
        Some(v) => u64_bytes(v as nat),
        None => Seq::empty(),
    } + members_bytes(members)
}

/// The number that eight bytes hold, the lowest first.
pub open spec fn low_number(bytes: Seq<u8>) -> nat {
    (bytes[0] + 0x100 * bytes[1] + 0x1_0000 * bytes[2] + 0x100_0000 * bytes[3] + 0x1_0000_0000
        * bytes[4] + 0x100_0000_0000 * bytes[5] + 0x1_0000_0000_0000 * bytes[6]
        + 0x100_0000_0000_0000 * bytes[7]) as nat
}

fn append_byte(bytes: &mut Vec<u8>, b: u8)
    ensures
        final(bytes)@ == old(bytes)@ + seq![b],
{
    bytes.push(b);
    assert(bytes@ =~= old(bytes)@ + seq![b]);
}

fn append_stamp(bytes: &mut Vec<u8>, path: &str, stamp: &Option<FileStamp>)
    ensures
        final(bytes)@ == old(bytes)@ + stamp_bytes(path@, *stamp),
{
    append_bytes(bytes, path.as_bytes());
    append_byte(bytes, 0);
    if let Some(s) = stamp {
        append_u64(bytes, s.size);
        if let Some((seconds, nanos)) = s.modified {
            append_u64(bytes, seconds);
            append_u32(bytes, nanos);
        }
    }
    assert(bytes@ =~= old(bytes)@ + stamp_bytes(path@, *stamp));
}

fn append_member(bytes: &mut Vec<u8>, m: &MemberStamp)
    ensures
        final(bytes)@ == old(bytes)@ + member_bytes(*m),
{
    append_bytes(bytes, m.id.as_str().as_bytes());
    append_byte(bytes, 0);
    append_stamp(bytes, m.path.as_str(), &m.stamp);
    append_u32(bytes, m.weight_bits);
    append_byte(
        bytes,
        if m.enabled {
            1
        } else {
            0
        },
    );
    assert(bytes@ =~= old(bytes)@ + member_bytes(*m));
}

/// A token for the models as they are: the start of a digest over where their files lie,
/// what state these are in, and how the models are used.
pub fn model_version(
    path: &str,
    stamp: &Option<FileStamp>,
    kind: AiModelKind,
    fallback: Option<u64>,
    members: &[MemberStamp],
) -> (version: u64)
    ensures
        version == low_number(sha256_of(version_bytes(path@, *stamp, kind, fallback, members@))),
{
    let mut bytes: Vec<u8> = Vec::new();
    append_stamp(&mut bytes, path, stamp);
    append_byte(
        &mut bytes,
        match kind {
            AiModelKind::CNN => 1,
            AiModelKind::Transformer => 2,
        },
    );
    if let Some(v) = fallback {
        append_u64(&mut bytes, v);
    }
    let ghost head = bytes@;
    let mut i: usize = 0;
    assert(bytes@ =~= head + members_bytes(members@.take(0)));
    while i < members.len()
        invariant
            i <= members@.len(),
            bytes@ == head + members_bytes(members@.take(i as int)),
        decreases members@.len() - i,
    {
        let ghost before = members_bytes(members@.take(i as int));
        append_member(&mut bytes, &members[i]);
        assert(members@.take(i + 1).drop_last() =~= members@.take(i as int));
        assert(head + before + member_bytes(members@[i as int]) =~= head + (before + member_bytes(
            members@[i as int],
        )));
        i = i + 1;
    }
    assert(members@.take(i as int) =~= members@);
    assert(bytes@ =~= version_bytes(path@, *stamp, kind, fallback, members@));
    let digest = sha256(&bytes);
    digest[0] as u64 + 0x100 * digest[1] as u64 + 0x1_0000 * digest[2] as u64 + 0x100_0000
        * digest[3] as u64 + 0x1_0000_0000 * digest[4] as u64 + 0x100_0000_0000 * digest[5] as u64
        + 0x1_0000_0000_0000 * digest[6] as u64 + 0x100_0000_0000_0000 * digest[7] as u64
}

} // verus!
