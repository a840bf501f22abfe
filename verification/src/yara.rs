//! A scanner over compiled YARA rules: which rule files it takes, how it holds them to a
//! manifest of expected digests, and when it swaps the rules it scans with.
//!
//! Rules are compiled and run by the `yara` crate. A rule can read the clock, so nothing is
//! promised here of what compiles or matches. Files that a rule text reads in are handed over
//! with it; the compiler never opens one. Texts on which the crate would not return are never
//! handed to it.

use vstd::prelude::*;
use vstd::utf8::encode_utf8;

use crate::digest::{hex, hex_text, sha256, sha256_of};
use crate::rule_text::{
    can_be_compiled, can_be_read_in, file_pairs, find_file, is_compilable, is_readable_in,
    ReadInFile,
};
use crate::text::{
    begins_with, behind_first, chars_of, concat2, find_char, first_of, join, joined, lines, lines_of,
    lower, lowered, push_text, same_text, starts_with, text_between, texts, to_lowercase, trim,
    trimmed, unicode_lower,
};

verus! {

/// How many seconds a scan may take.
pub const SCAN_TIMEOUT_SECONDS: i32 = 10;

/// `yara::Compiler`.
#[verifier::external_type_specification]
#[verifier::external_body]
pub struct ExCompiler(::yara::Compiler);

/// `yara::Rules`.
#[verifier::external_type_specification]
#[verifier::external_body]
pub struct ExRules(::yara::Rules);

/// A rule text with the files that it can read in, each under its path.
pub struct SourceText {
    pub text: Seq<char>,
    pub files: Seq<(Seq<char>, Seq<char>)>,
}

/// The rule texts that a compiler has taken, in order.
pub uninterp spec fn compiler_texts(compiler: ::yara::Compiler) -> Seq<SourceText>;

/// The rule texts that compiled rules come from.
pub uninterp spec fn rule_texts(rules: ::yara::Rules) -> Seq<SourceText>;

/// The creation of a compiler may succeed, or fail, as the machine has it.
pub uninterp spec fn creation_may_end(made: bool) -> bool;

/// A compiler that has taken some rule texts may take a further one, or refuse it.
pub uninterp spec fn addition_may_end(
    before: Seq<SourceText>,
    source: SourceText,
    taken: bool,
) -> bool;

/// The compilation of some rule texts may succeed, or fail.
pub uninterp spec fn compilation_may_end(sources: Seq<SourceText>, compiled: bool) -> bool;

/// A scan of some bytes with rules from these texts may end so within so many seconds. How it
/// ends can rest on the time.
pub uninterp spec fn scan_may_give(
    sources: Seq<SourceText>,
    data: Seq<u8>,
    timeout: i32,
    outcome: Result<Seq<HitView>, Seq<char>>,
) -> bool;

/// No rule texts.
pub open spec fn no_texts() -> Seq<SourceText> {
    Seq::empty()
}

/// The rule text can be handed to the compiler, and so can what it can read in.
pub open spec fn source_fits(source: SourceText) -> bool {
    is_compilable(source.text) && files_fit(source.files)
}

pub open spec fn files_fit(files: Seq<(Seq<char>, Seq<char>)>) -> bool {
    forall|i: int| 0 <= i < files.len() ==> is_readable_in((#[trigger] files[i]).1)
}

/// Each of the rule texts can be handed to the compiler.
pub open spec fn all_fit(sources: Seq<SourceText>) -> bool {
    forall|i: int| 0 <= i < sources.len() ==> source_fits(#[trigger] sources[i])
}

/// `yara::Compiler::new`: a compiler that has taken nothing. Whether there is one rests on
/// the machine.
#[verifier::external_body]
fn new_compiler() -> (compiler: Result<::yara::Compiler, String>)
    ensures
        creation_may_end(compiler is Ok),
        compiler matches Ok(c) ==> compiler_texts(c) == no_texts(),
{
    ::yara::Compiler::new().map_err(|error| error.to_string())
}

/// `yara::Compiler::add_rules_str`, where `yara::Compiler::set_include_callback` has the
/// compiler take the files that the text reads in from those given: the compiler has taken the
/// text too, or is given up. Which texts it takes is left unsaid. It cannot take a text with a
/// NUL, and it takes the messages of the compiler for UTF-8, which they are not where they
/// quote other bytes or cut a character.
#[verifier::external_body]
fn add_rules(compiler: ::yara::Compiler, source: &str, files: Vec<ReadInFile>) -> (added: Result<
    ::yara::Compiler,
    String,
>)
    requires
        source_fits(SourceText { text: source@, files: file_pairs(files@) }),
    ensures
        addition_may_end(
            compiler_texts(compiler),
            (SourceText { text: source@, files: file_pairs(files@) }),
            added is Ok,
        ),
        added matches Ok(next) ==> compiler_texts(next) == compiler_texts(compiler).push(
            (SourceText { text: source@, files: file_pairs(files@) }),
        ),
{
    let mut serving = compiler;
    serving.set_include_callback(move |name, _, _| find_file(&files, name));
    serving.add_rules_str(source).map_err(|error| error.to_string())
}

/// `yara::Compiler::compile_rules`: rules from the texts that the compiler has taken. When it
/// fails is left unsaid.
#[verifier::external_body]
fn compile_rules(compiler: ::yara::Compiler) -> (compiled: Result<::yara::Rules, String>)
    ensures
        compilation_may_end(compiler_texts(compiler), compiled is Ok),
        compiled matches Ok(rules) ==> rule_texts(rules) == compiler_texts(compiler),
{
    compiler.compile_rules().map_err(|error| error.to_string())
}

/// `yara::Rules::scan_mem`, each matching rule with its name, its namespace and the number
/// of its tags. The outcome is one that such a scan may have; which one is left unsaid, for
/// a scan has a time limit and a rule can read the clock. The crate takes the metadata of a
/// matching rule for UTF-8, which a rule's text keeps to unless it writes other bytes there by
/// escapes.
#[verifier::external_body]
fn scan_mem(rules: &::yara::Rules, data: &[u8], timeout: i32) -> (found: Result<
    Vec<RuleHit>,
    String,
>)
    requires
        all_fit(rule_texts(*rules)),
    ensures
        scan_may_give(rule_texts(*rules), data@, timeout, outcome_of(found)),
{
    match rules.scan_mem(data, timeout) {
        Ok(matches) => Ok(
            matches.iter().map(
                |rule|
                    RuleHit {
                        identifier: rule.identifier.to_string(),
                        namespace: rule.namespace.to_string(),
                        tags: rule.tags.len(),
                    },
            ).collect(),
        ),
        Err(error) => Err(error.to_string()),
    }
}

/// A rule that matched, as the scan reports it.
#[derive(Debug, Clone, PartialEq, Eq)]
pub struct RuleHit {
    pub identifier: String,
    pub namespace: String,
    pub tags: usize,
}

pub struct HitView {
    pub identifier: Seq<char>,
    pub namespace: Seq<char>,
    pub tags: usize,
}

impl View for RuleHit {
    type V = HitView;

    open spec fn view(&self) -> HitView {
        HitView {
            identifier: self.identifier@,
            namespace: self.namespace@,
            tags: self.tags,
        }
    }
}

/// How a scan ended.
pub open spec fn outcome_of(found: Result<Vec<RuleHit>, String>) -> Result<
    Seq<HitView>,
    Seq<char>,
> {
    match found {
        Ok(hits) => Ok(hits@.map_values(|h: RuleHit| h@)),
        Err(e) => Err(e@),
    }
}

/// A rule that matched.
#[derive(Debug, Clone, PartialEq, Eq)]
pub struct YaraMatch {
    pub rule_name: String,
    pub namespace: String,
    pub score: i32,
}

pub struct MatchView {
    pub rule_name: Seq<char>,
    pub namespace: Seq<char>,
    pub score: i32,
}

impl View for YaraMatch {
    type V = MatchView;

    open spec fn view(&self) -> MatchView {
        MatchView {
            rule_name: self.rule_name@,
            namespace: self.namespace@,
            score: self.score,
        }
    }
}

#[derive(Debug, Clone, PartialEq, Eq)]
pub enum YaraError {
    /// The rules directory could not be read.
    Io { path: String, message: String },
    /// The rules cannot be used.
    Compile(String),
    /// A scan did not end.
    Scan(String),
}

pub enum YaraErrorView {
    Io(Seq<char>, Seq<char>),
    Compile(Seq<char>),
    Scan(Seq<char>),
}

impl View for YaraError {
    type V = YaraErrorView;

    open spec fn view(&self) -> YaraErrorView {
        match *self {
            YaraError::Io { path, message } => YaraErrorView::Io(path@, message@),
            YaraError::Compile(message) => YaraErrorView::Compile(message@),
            YaraError::Scan(message) => YaraErrorView::Scan(message@),
        }
    }
}

impl YaraError {
    /// The error in words.
    pub fn message(&self) -> (text: String)
        ensures
            text@ == (match self@ {
                YaraErrorView::Io(path, message) => "I/O error reading rules from "@ + path + ": "@
                    + message,
                YaraErrorView::Compile(message) => "YARA compile error: "@ + message,
                YaraErrorView::Scan(message) => "YARA scan error: "@ + message,
            }),
    {
        match self {
            YaraError::Io { path, message } => {
                let place = concat2("I/O error reading rules from ", path.as_str());
                let head = concat2(place.as_str(), ": ");
                concat2(head.as_str(), message.as_str())
            },
            YaraError::Compile(message) => concat2("YARA compile error: ", message.as_str()),
            YaraError::Scan(message) => concat2("YARA scan error: ", message.as_str()),
        }
    }
}

/// The digest of a rule text, in hexadecimal.
pub open spec fn source_digest(source: Seq<char>) -> Seq<char> {
    hex_text(sha256_of(encode_utf8(source)))
}

pub fn sha256_digest(data: &[u8]) -> (digest: String)
    ensures
        digest@ == hex_text(sha256_of(data@)),
{
    hex(&sha256(data))
}

/// A rule file that is loaded: its name, where it has one, and the digest of its text.
#[derive(Debug, Clone, PartialEq, Eq)]
pub struct SourceHash {
    pub name: Option<String>,
    pub hash: String,
}

pub struct SourceView {
    pub name: Seq<char>,
    pub hash: Seq<char>,
}

pub open spec fn file_name(name: Option<String>) -> Seq<char> {
    match name {
        Some(n) => n@,
        None => "unknown"@,
    }
}

impl View for SourceHash {
    type V = SourceView;

    open spec fn view(&self) -> SourceView {
        SourceView { name: file_name(self.name), hash: self.hash@ }
    }
}

pub open spec fn sources(hashes: Seq<SourceHash>) -> Seq<SourceView> {
    hashes.map_values(|h: SourceHash| h@)
}

/// The line of a manifest names a file: it is no comment, and holds an equals sign.
pub open spec fn is_entry(line: Seq<char>) -> bool {
    trimmed(line).len() > 0 && !begins_with(trimmed(line), "#"@) && line.contains('=')
}

/// The file that a line of a manifest names: what stands before the first equals sign.
pub open spec fn entry_name(line: Seq<char>) -> Seq<char> {
    trimmed(line.take(first_of(line, '=')))
}

/// The digest that a line of a manifest gives: what stands behind the first equals sign.
pub open spec fn entry_hash(line: Seq<char>) -> Seq<char> {
    trimmed(behind_first(line, '='))
}

/// The digest that a manifest expects of a file: that of the last line that names it.
pub open spec fn expected_hash(manifest: Seq<Seq<char>>, name: Seq<char>) -> Option<Seq<char>>
    decreases manifest.len(),
{
    if manifest.len() == 0 {
        None
    } else if is_entry(manifest.last()) && entry_name(manifest.last()) == name {
        Some(entry_hash(manifest.last()))
    } else {
        expected_hash(manifest.drop_last(), name)
    }
}

/// A file is not what the manifest expects.
pub open spec fn differs(manifest: Seq<Seq<char>>, source: SourceView) -> bool {
    match expected_hash(manifest, source.name) {
        Some(expected) => unicode_lower(source.hash) != unicode_lower(expected),
        None => false,
    }
}

pub open spec fn mismatch_text(manifest: Seq<Seq<char>>, source: SourceView) -> Seq<char> {
    "rule integrity mismatch for "@ + source.name + ": expected "@ + expected_hash(
        manifest,
        source.name,
    )->0 + ", computed "@ + source.hash
}

/// What the first file that is not what the manifest expects gives for a message.
pub open spec fn first_mismatch(manifest: Seq<Seq<char>>, files: Seq<SourceView>) -> Option<
    Seq<char>,
>
    decreases files.len(),
{
    if files.len() == 0 {
        None
    } else if differs(manifest, files[0]) {
        Some(mismatch_text(manifest, files[0]))
    } else {
        first_mismatch(manifest, files.skip(1))
    }
}

/// What the check of the loaded files against a manifest finds wrong. Without a manifest
/// nothing is wrong; a manifest that cannot be read is.
pub open spec fn integrity_failure(
    manifest: Option<Result<String, String>>,
    files: Seq<SourceView>,
) -> Option<Seq<char>> {
    match manifest {
        None => None,
        Some(Err(e)) => Some("failed to read manifest: "@ + e@),
        Some(Ok(text)) => first_mismatch(lines_of(text@), files),
    }
}

fn find_expected(manifest: &[String], name: &str) -> (expected: Option<String>)
    ensures
        expected matches Some(e) ==> expected_hash(texts(manifest@), name@) == Some(e@),
        expected is None <==> expected_hash(texts(manifest@), name@) is None,
{
    let mut i: usize = manifest.len();
    let ghost all = texts(manifest@);
    assert(all.take(i as int) =~= all);
    while i > 0
        invariant
            i <= manifest@.len(),
            all == texts(manifest@),
            expected_hash(all, name@) == expected_hash(all.take(i as int), name@),
        decreases i,
    {
        let line = manifest[i - 1].as_str();
        assert(all.take(i as int).last() == line@);
        assert(all.take(i as int).drop_last() =~= all.take(i - 1));
        let body = trim(line);
        let chars = chars_of(line);
        let cut: usize = find_char(&chars, '=');
        let size: usize = chars.len();
        proof {
            crate::text::lemma_first_of(line@, '=');
        }
        if body.as_str().unicode_len() > 0 && !starts_with(body.as_str(), "#") && cut < size {
            let head = text_between(&chars, 0, cut);
            assert(head@ =~= line@.take(cut as int));
            if same_text(trim(head.as_str()).as_str(), name) {
                let tail = text_between(&chars, cut + 1, size);
                assert(tail@ =~= behind_first(line@, '='));
                return Some(trim(tail.as_str()));
            }
        }
        i = i - 1;
    }
    None
}

/// Holds the digests of loaded rule files to a manifest: lines of a file's name, an equals
/// sign and the digest that is expected. A file that the manifest does not name passes.
pub fn verify_rule_integrity(
    manifest: &Option<Result<String, String>>,
    source_hashes: &[SourceHash],
) -> (checked: Result<bool, String>)
    ensures
        checked is Ok <==> integrity_failure(*manifest, sources(source_hashes@)) is None,
        checked matches Ok(passed) ==> passed,
        checked matches Err(e) ==> integrity_failure(*manifest, sources(source_hashes@)) == Some(e@),
{
    match manifest {
        None => Ok(true),
        Some(Err(e)) => Err(concat2("failed to read manifest: ", e.as_str())),
        Some(Ok(text)) => {
            let rows = lines(text.as_str());
            let ghost files = sources(source_hashes@);
            let ghost all = texts(rows@);
            let mut i: usize = 0;
            assert(files.skip(0) =~= files);
            while i < source_hashes.len()
                invariant
                    i <= source_hashes@.len(),
                    files == sources(source_hashes@),
                    all == texts(rows@),
                    all == lines_of(text@),
                    *manifest == Some(Ok::<String, String>(*text)),
                    first_mismatch(all, files) == first_mismatch(all, files.skip(i as int)),
                decreases source_hashes@.len() - i,
            {
                let source = &source_hashes[i];
                assert(files.skip(i as int)[0] == source@);
                let name = match &source.name {
                    Some(n) => n.as_str(),
                    None => "unknown",
                };
                if let Some(expected) = find_expected(&rows, name) {
                    let same = same_text(
                        to_lowercase(source.hash.as_str()).as_str(),
                        to_lowercase(expected.as_str()).as_str(),
                    );
                    if !same {
                        let place = concat2("rule integrity mismatch for ", name);
                        let head = concat2(place.as_str(), ": expected ");
                        let wanted = concat2(head.as_str(), expected.as_str());
                        let middle = concat2(wanted.as_str(), ", computed ");
                        return Err(concat2(middle.as_str(), source.hash.as_str()));
                    }
                }
                assert(files.skip(i as int).skip(1) =~= files.skip(i + 1));
                i = i + 1;
            }
            Ok(true)
        },
    }
}

/// A file of the rules directory: its name and extension, where they are text, and its
/// content.
#[derive(Debug)]
pub struct RuleFile {
    pub name: Option<String>,
    pub extension: Option<String>,
    pub content: Result<String, String>,
}

/// The extension is one of a rule file.
pub open spec fn is_rule_extension(extension: Option<String>) -> bool {
    match extension {
        Some(e) => lowered(e@) == "yar"@ || lowered(e@) == "yara"@,
        None => false,
    }
}

pub fn has_rule_extension(extension: &Option<String>) -> (b: bool)
    ensures
        b == is_rule_extension(*extension),
{
    match extension {
        Some(e) => {
            let low = lower(e.as_str());
            same_text(low.as_str(), "yar") || same_text(low.as_str(), "yara")
        },
        None => false,
    }
}

/// The file may hold rules: its extension is that of a rule file, and its content is text
/// that can be handed to the compiler.
pub open spec fn is_candidate(file: RuleFile) -> bool {
    is_rule_extension(file.extension) && match file.content {
        Ok(text) => is_compilable(text@),
        Err(_) => false,
    }
}

/// The text of a file that could be read.
pub open spec fn rule_text(file: RuleFile) -> Seq<char> {
    match file.content {
        Ok(text) => text@,
        Err(_) => Seq::empty(),
    }
}

/// The files whose rules are well formed, in their order.
pub open spec fn chosen(files: Seq<RuleFile>, valid: Seq<bool>) -> Seq<RuleFile>
    decreases files.len(),
{
    if files.len() == 0 || valid.len() != files.len() {
        Seq::empty()
    } else {
        let before = chosen(files.drop_last(), valid.drop_last());
        if valid.last() {
            before.push(files.last())
        } else {
            before
        }
    }
}

/// The rule text that is compiled: the texts of the well-formed files, each on new lines.
pub open spec fn whole_source(files: Seq<RuleFile>, valid: Seq<bool>) -> Seq<char> {
    joined(chosen(files, valid).map_values(|f: RuleFile| rule_text(f)), "\n"@)
}

/// The rule text that is compiled, with the files that it can read in.
pub open spec fn whole_rules(
    files: Seq<RuleFile>,
    read_in: Seq<(Seq<char>, Seq<char>)>,
    valid: Seq<bool>,
) -> SourceText {
    SourceText { text: whole_source(files, valid), files: read_in }
}

/// The names and digests of the well-formed files.
pub open spec fn chosen_hashes(files: Seq<RuleFile>, valid: Seq<bool>) -> Seq<SourceView> {
    chosen(files, valid).map_values(
        |f: RuleFile| SourceView { name: file_name(f.name), hash: source_digest(rule_text(f)) },
    )
}

/// Only files that may hold rules are well formed.
pub open spec fn only_candidates(files: Seq<RuleFile>, valid: Seq<bool>) -> bool {
    valid.len() == files.len() && forall|i: int|
        0 <= i < files.len() && #[trigger] valid[i] ==> is_candidate(files[i])
}

/// What is compiled of a rule file: its text, with the files that it can read in.
pub open spec fn file_source(
    file: RuleFile,
    read_in: Seq<(Seq<char>, Seq<char>)>,
) -> SourceText {
    SourceText { text: rule_text(file), files: read_in }
}

/// Only files whose text may compile alone are well formed.
pub open spec fn only_standing(
    files: Seq<RuleFile>,
    read_in: Seq<(Seq<char>, Seq<char>)>,
    valid: Seq<bool>,
) -> bool {
    forall|i: int|
        0 <= i < files.len() && #[trigger] valid[i] ==> may_stand_alone(
            file_source(files[i], read_in),
        )
}

/// The files that may hold rules and are left out do not compile alone, as far as that can be
/// told.
pub open spec fn only_failing_left_out(
    files: Seq<RuleFile>,
    read_in: Seq<(Seq<char>, Seq<char>)>,
    valid: Seq<bool>,
) -> bool {
    forall|i: int|
        0 <= i < files.len() && !(#[trigger] valid[i]) && is_candidate(files[i]) ==> may_fail(
            file_source(files[i], read_in),
        )
}

/// A selection of rule files that a reload can make.
pub open spec fn is_selection(
    files: Seq<RuleFile>,
    read_in: Seq<(Seq<char>, Seq<char>)>,
    valid: Seq<bool>,
) -> bool {
    only_candidates(files, valid) && only_standing(files, read_in, valid) && only_failing_left_out(
        files,
        read_in,
        valid,
    )
}

/// The files that rule texts can read in, out of those that are there: a file that cannot be
/// handed to the compiler is as one that is not there.
pub open spec fn fitting(files: Seq<(Seq<char>, Seq<char>)>) -> Seq<(Seq<char>, Seq<char>)>
    decreases files.len(),
{
    if files.len() == 0 {
        Seq::empty()
    } else {
        let before = fitting(files.drop_last());
        if is_readable_in(files.last().1) {
            before.push(files.last())
        } else {
            before
        }
    }
}

fn push_file(files: &mut Vec<ReadInFile>, file: &ReadInFile)
    ensures
        file_pairs(final(files)@) == file_pairs(old(files)@).push((file.path@, file.text@)),
{
    let copy = ReadInFile { path: file.path.clone(), text: file.text.clone() };
    assert(file_pairs(files@.push(copy)) =~= file_pairs(files@).push((file.path@, file.text@)));
    files.push(copy);
}

fn fitting_files(files: &[ReadInFile]) -> (kept: Vec<ReadInFile>)
    ensures
        file_pairs(kept@) == fitting(file_pairs(files@)),
        files_fit(file_pairs(kept@)),
{
    let ghost all = file_pairs(files@);
    let mut kept: Vec<ReadInFile> = Vec::new();
    let mut i: usize = 0;
    assert(file_pairs(kept@) =~= fitting(all.take(0)));
    while i < files.len()
        invariant
            i <= files@.len(),
            all == file_pairs(files@),
            file_pairs(kept@) == fitting(all.take(i as int)),
            files_fit(file_pairs(kept@)),
        decreases files@.len() - i,
    {
        assert(all.take(i + 1).drop_last() =~= all.take(i as int));
        assert(all.take(i + 1).last() == (files@[i as int].path@, files@[i as int].text@));
        if can_be_read_in(files[i].text.as_str()) {
            push_file(&mut kept, &files[i]);
        }
        i = i + 1;
    }
    assert(all.take(i as int) =~= all);
    kept
}

fn copy_files(files: &[ReadInFile]) -> (copy: Vec<ReadInFile>)
    ensures
        file_pairs(copy@) == file_pairs(files@),
{
    let ghost all = file_pairs(files@);
    let mut copy: Vec<ReadInFile> = Vec::new();
    let mut i: usize = 0;
    assert(file_pairs(copy@) =~= all.take(0));
    while i < files.len()
        invariant
            i <= files@.len(),
            all == file_pairs(files@),
            file_pairs(copy@) == all.take(i as int),
        decreases files@.len() - i,
    {
        push_file(&mut copy, &files[i]);
        assert(all.take(i + 1) =~= all.take(i as int).push(all[i as int]));
        i = i + 1;
    }
    assert(all.take(i as int) =~= all);
    copy
}

pub fn may_hold_rules(file: &RuleFile) -> (b: bool)
    ensures
        b == is_candidate(*file),
{
    has_rule_extension(&file.extension) && match &file.content {
        Ok(text) => can_be_compiled(text.as_str()),
        Err(_) => false,
    }
}

/// A rule text may compile alone.
pub open spec fn may_stand_alone(source: SourceText) -> bool {
    addition_may_end(no_texts(), source, true) && compilation_may_end(
        no_texts().push(source),
        true,
    )
}

/// A compiler for a rule text may not come about, refuse the text, or not compile it.
pub open spec fn may_fail(source: SourceText) -> bool {
    creation_may_end(false) || addition_may_end(no_texts(), source, false) || compilation_may_end(
        no_texts().push(source),
        false,
    )
}

/// Whether a rule text compiles alone.
fn compiles_alone(source: &str, files: &[ReadInFile]) -> (b: bool)
    requires
        is_compilable(source@),
        files_fit(file_pairs(files@)),
    ensures
        b ==> may_stand_alone(SourceText { text: source@, files: file_pairs(files@) }),
        !b ==> may_fail(SourceText { text: source@, files: file_pairs(files@) }),
{
    match new_compiler() {
        Ok(compiler) => match add_rules(compiler, source, copy_files(files)) {
            Ok(added) => compile_rules(added).is_ok(),
            Err(_) => false,
        },
        Err(_) => false,
    }
}

/// What is compiled and what is held to the manifest.
#[derive(Debug)]
pub struct ReloadPlan {
    pub source: String,
    pub hashes: Vec<SourceHash>,
    pub loaded: usize,
}

/// Gathers the well-formed rule files.
pub fn plan_reload(files: &[RuleFile], valid: &[bool]) -> (plan: ReloadPlan)
    requires
        only_candidates(files@, valid@),
    ensures
        plan.source@ == whole_source(files@, valid@),
        sources(plan.hashes@) == chosen_hashes(files@, valid@),
        plan.loaded == chosen(files@, valid@).len(),
{
    let mut parts: Vec<String> = Vec::new();
    let mut hashes: Vec<SourceHash> = Vec::new();
    let mut i: usize = 0;
    let ghost text_part = |f: RuleFile| rule_text(f);
    let ghost hash_part = |f: RuleFile|
        SourceView { name: file_name(f.name), hash: source_digest(rule_text(f)) };
    let ghost view_part = |h: SourceHash| h@;
    assert(texts(parts@) =~= chosen(files@.take(0), valid@.take(0)).map_values(text_part));
    assert(sources(hashes@) =~= chosen(files@.take(0), valid@.take(0)).map_values(hash_part));
    while i < files.len()
        invariant
            i <= files@.len(),
            only_candidates(files@, valid@),
            text_part == (|f: RuleFile| rule_text(f)),
            hash_part == (|f: RuleFile|
                SourceView { name: file_name(f.name), hash: source_digest(rule_text(f)) }),
            view_part == (|h: SourceHash| h@),
            texts(parts@) == chosen(files@.take(i as int), valid@.take(i as int)).map_values(
                text_part,
            ),
            sources(hashes@) == chosen(files@.take(i as int), valid@.take(i as int)).map_values(
                hash_part,
            ),
            parts@.len() == chosen(files@.take(i as int), valid@.take(i as int)).len(),
        decreases files@.len() - i,
    {
        let ghost before = chosen(files@.take(i as int), valid@.take(i as int));
        let ghost after = chosen(files@.take(i + 1), valid@.take(i + 1));
        assert(files@.take(i + 1).drop_last() =~= files@.take(i as int));
        assert(valid@.take(i + 1).drop_last() =~= valid@.take(i as int));
        if valid[i] {
            assert(is_candidate(files@[i as int]));
            assert(after == before.push(files@[i as int]));
            if let Ok(text) = &files[i].content {
                assert(after.map_values(text_part) =~= before.map_values(text_part).push(text@));
                push_text(&mut parts, text.clone());
                let name = match &files[i].name {
                    Some(n) => Some(n.clone()),
                    None => None,
                };
                let entry = SourceHash { name, hash: sha256_digest(text.as_str().as_bytes()) };
                assert(entry@ == hash_part(files@[i as int]));
                assert(after.map_values(hash_part) =~= before.map_values(hash_part).push(entry@));
                assert(sources(hashes@.push(entry)) =~= sources(hashes@).push(entry@));
                hashes.push(entry);
            }
        } else {
            assert(after == before);
        }
        i = i + 1;
    }
    assert(files@.take(i as int) =~= files@);
    assert(valid@.take(i as int) =~= valid@);
    let loaded: usize = parts.len();
    let source = join(&parts, "\n");
    ReloadPlan { source, hashes, loaded }
}

/// What keeps rules from being loaded: a file that is not what a manifest expects. A
/// manifest that cannot be read keeps nothing.
pub open spec fn refusal(
    manifest: Option<Result<String, String>>,
    files: Seq<SourceView>,
) -> Option<Seq<char>> {
    match manifest {
        Some(Ok(text)) => first_mismatch(lines_of(text@), files),
        _ => None,
    }
}

/// The matches that a scan reports: a rule's score is the number of its tags.
pub open spec fn matches_of(hits: Seq<HitView>) -> Seq<MatchView> {
    hits.map_values(
        |h: HitView|
            MatchView { rule_name: h.identifier, namespace: h.namespace, score: h.tags as i32 },
    )
}

pub open spec fn match_views(matches: Seq<YaraMatch>) -> Seq<MatchView> {
    matches.map_values(|m: YaraMatch| m@)
}

/// What is reported of a scan that ended so.
pub open spec fn report_of(outcome: Result<Seq<HitView>, Seq<char>>) -> Result<
    Seq<MatchView>,
    YaraErrorView,
> {
    match outcome {
        Ok(hits) => Ok(matches_of(hits)),
        Err(e) => Err(YaraErrorView::Scan("scan failed: "@ + e)),
    }
}

pub open spec fn report_view(report: Result<Vec<YaraMatch>, YaraError>) -> Result<
    Seq<MatchView>,
    YaraErrorView,
> {
    match report {
        Ok(matches) => Ok(match_views(matches@)),
        Err(e) => Err(e@),
    }
}

/// What a scan gives, once the rules have run.
pub fn report_matches(found: &Result<Vec<RuleHit>, String>) -> (report: Result<
    Vec<YaraMatch>,
    YaraError,
>)
    ensures
        report_view(report) == report_of(outcome_of(*found)),
{
    match found {
        Ok(hits) => {
            let ghost views = hits@.map_values(|h: RuleHit| h@);
            let mut matches: Vec<YaraMatch> = Vec::new();
            let mut i: usize = 0;
            while i < hits.len()
                invariant
                    i <= hits@.len(),
                    views == hits@.map_values(|h: RuleHit| h@),
                    match_views(matches@) == matches_of(views).take(i as int),
                decreases hits@.len() - i,
            {
                let hit = &hits[i];
                let entry = YaraMatch {
                    rule_name: hit.identifier.clone(),
                    namespace: hit.namespace.clone(),
                    score: #[verifier::truncate]
                    (hit.tags as i32),
                };
                assert(entry@ == matches_of(views)[i as int]);
                assert(match_views(matches@.push(entry)) =~= match_views(matches@).push(entry@));
                assert(matches_of(views).take(i + 1) =~= matches_of(views).take(i as int).push(
                    matches_of(views)[i as int],
                ));
                matches.push(entry);
                i = i + 1;
            }
            assert(matches_of(views).take(i as int) =~= matches_of(views));
            Ok(matches)
        },
        Err(e) => Err(YaraError::Scan(concat2("scan failed: ", e.as_str()))),
    }
}

/// Why gathered rules are not loaded: their texts cannot be handed to the compiler as one, a
/// file is not what the manifest expects, or the compiler fails.
pub open spec fn may_stop_loading(
    source: SourceText,
    files: Seq<SourceView>,
    manifest: Option<Result<String, String>>,
    e: YaraErrorView,
) -> bool {
    let fits = is_compilable(source.text);
    &&& e is Compile
    &&& {
        ||| !fits && e == YaraErrorView::Compile(
            "compile failed: the rules cannot be compiled as one"@,
        )
        ||| fits && creation_may_end(false)
        ||| fits && addition_may_end(no_texts(), source, false)
        ||| fits && (refusal(manifest, files) matches Some(m) && e == YaraErrorView::Compile(m))
        ||| fits && refusal(manifest, files) is None && compilation_may_end(
            no_texts().push(source),
            false,
        )
    }
}

/// Compiles what was gathered, unless a file is not what the manifest expects.
fn compile_plan(
    plan: &ReloadPlan,
    files: &[ReadInFile],
    manifest: &Option<Result<String, String>>,
) -> (compiled: Result<::yara::Rules, YaraError>)
    requires
        files_fit(file_pairs(files@)),
    ensures
        compiled matches Ok(rules) ==> rule_texts(rules) == no_texts().push(
            (SourceText { text: plan.source@, files: file_pairs(files@) }),
        ) && is_compilable(plan.source@) && refusal(*manifest, sources(plan.hashes@)) is None,
        compiled matches Err(e) ==> may_stop_loading(
            (SourceText { text: plan.source@, files: file_pairs(files@) }),
            sources(plan.hashes@),
            *manifest,
            e@,
        ),
{
    if !can_be_compiled(plan.source.as_str()) {
        return Err(
            YaraError::Compile("compile failed: the rules cannot be compiled as one".to_string()),
        );
    }
    let compiler = match new_compiler() {
        Ok(compiler) => compiler,
        Err(e) => return Err(YaraError::Compile(concat2("init: ", e.as_str()))),
    };
    let added = match add_rules(compiler, plan.source.as_str(), copy_files(files)) {
        Ok(added) => added,
        Err(e) => return Err(YaraError::Compile(concat2("compile failed: ", e.as_str()))),
    };
    let readable = match manifest {
        Some(Ok(_)) => true,
        _ => false,
    };
    if readable {
        if let Err(e) = verify_rule_integrity(manifest, &plan.hashes) {
            return Err(YaraError::Compile(e));
        }
    }
    match compile_rules(added) {
        Ok(rules) => Ok(rules),
        Err(e) => Err(YaraError::Compile(concat2("compile failed: ", e.as_str()))),
    }
}

/// A scanner whose rules can be replaced while it is in use.
pub struct YaraScanner {
    pub rules: Option<::yara::Rules>,
    pub rules_dir: String,
    pub version: u64,
}

impl YaraScanner {
    /// The rules come from texts that can be handed to the compiler.
    pub open spec fn wf(&self) -> bool {
        self.rules matches Some(rules) ==> all_fit(rule_texts(rules))
    }

    /// A scanner over the rules of a directory, given what the directory holds and the files
    /// that rule texts can read in.
    pub fn new(
        rules_dir: &str,
        listing: &Result<Vec<RuleFile>, String>,
        read_in: &[ReadInFile],
        manifest: &Option<Result<String, String>>,
    ) -> (scanner: Result<Self, YaraError>)
        ensures
            scanner matches Ok(s) ==> {
                &&& s.wf()
                &&& s.rules is Some
                &&& s.rules_dir@ == rules_dir@
                &&& s.version == 2
                &&& listing matches Ok(files) && exists|valid: Seq<bool>| #[trigger]
                    is_selection(files@, fitting(file_pairs(read_in@)), valid) && rule_texts(
                        s.rules->0,
                    ) == no_texts().push(
                        whole_rules(files@, fitting(file_pairs(read_in@)), valid),
                    ) && refusal(*manifest, chosen_hashes(files@, valid)) is None
            },
            scanner matches Err(e) ==> match *listing {
                Ok(files) => exists|valid: Seq<bool>| #[trigger]
                    is_selection(files@, fitting(file_pairs(read_in@)), valid)
                        && may_stop_loading(
                        whole_rules(files@, fitting(file_pairs(read_in@)), valid),
                        chosen_hashes(files@, valid),
                        *manifest,
                        e@,
                    ),
                Err(m) => e@ == YaraErrorView::Io(rules_dir@, m@),
            },
    {
        let mut scanner = YaraScanner {
            rules: None,
            rules_dir: rules_dir.to_string(),
            version: 1,
        };
        match scanner.reload_rules(listing, read_in, manifest) {
            Ok(_) => Ok(scanner),
            Err(e) => Err(e),
        }
    }

    /// How many times the rules were replaced, which tells results of older rules apart.
    pub fn version(&self) -> (version: u64)
        ensures
            version == self.version,
    {
        self.version
    }

    /// Takes in compiled rules, or leaves everything as it is.
    pub fn settle_reload(
        &mut self,
        loaded: usize,
        compiled: Result<::yara::Rules, YaraError>,
    ) -> (r: Result<usize, YaraError>)
        ensures
            final(self).rules_dir == old(self).rules_dir,
            match compiled {
                Ok(rules) => {
                    &&& r == Ok::<usize, YaraError>(loaded)
                    &&& final(self).rules == Some(rules)
                    &&& final(self).version == old(self).version.wrapping_add(1)
                },
                Err(e) => {
                    &&& r == Err::<usize, YaraError>(e)
                    &&& final(self).rules == old(self).rules
                    &&& final(self).version == old(self).version
                },
            },
    {
        match compiled {
            Ok(rules) => {
                self.rules = Some(rules);
                self.version = self.version.wrapping_add(1);
                Ok(loaded)
            },
            Err(e) => Err(e),
        }
    }

    /// Compiles the rules of the directory anew and swaps them in. A rule file that is
    /// malformed is left out, and the rest is compiled. Where the rules as a whole do not
    /// compile, or a file is not what the manifest expects, the scanner keeps what it has.
    pub fn reload_rules(
        &mut self,
        listing: &Result<Vec<RuleFile>, String>,
        read_in: &[ReadInFile],
        manifest: &Option<Result<String, String>>,
    ) -> (r: Result<usize, YaraError>)
        requires
            old(self).wf(),
        ensures
            final(self).wf(),
            final(self).rules_dir@ == old(self).rules_dir@,
            r is Err ==> final(self).rules == old(self).rules && final(self).version == old(
                self,
            ).version,
            r matches Err(e) ==> match *listing {
                Ok(files) => exists|valid: Seq<bool>| #[trigger]
                    is_selection(files@, fitting(file_pairs(read_in@)), valid)
                        && may_stop_loading(
                        whole_rules(files@, fitting(file_pairs(read_in@)), valid),
                        chosen_hashes(files@, valid),
                        *manifest,
                        e@,
                    ),
                Err(m) => e@ == YaraErrorView::Io(old(self).rules_dir@, m@),
            },
            r matches Ok(loaded) ==> {
                &&& final(self).rules is Some
                &&& final(self).version == old(self).version.wrapping_add(1)
                &&& listing matches Ok(files) && exists|valid: Seq<bool>| #[trigger]
                    is_selection(files@, fitting(file_pairs(read_in@)), valid) && loaded == chosen(
                        files@,
                        valid,
                    ).len() && rule_texts(final(self).rules->0) == no_texts().push(
                        whole_rules(files@, fitting(file_pairs(read_in@)), valid),
                    ) && refusal(*manifest, chosen_hashes(files@, valid)) is None
            },
    {
        let files = match listing {
            Ok(files) => files,
            Err(m) => {
                let path = self.rules_dir.clone();
                return Err(YaraError::Io { path, message: m.clone() });
            },
        };
        let kept = fitting_files(read_in);
        let ghost pairs = fitting(file_pairs(read_in@));
        let mut valid: Vec<bool> = Vec::new();
        let mut i: usize = 0;
        while i < files.len()
            invariant
                i <= files@.len(),
                valid@.len() == i,
                pairs == file_pairs(kept@),
                files_fit(pairs),
                forall|k: int|
                    0 <= k < i && #[trigger] valid@[k] ==> is_candidate(files@[k])
                        && may_stand_alone(file_source(files@[k], pairs)),
                forall|k: int|
                    0 <= k < i && !(#[trigger] valid@[k]) && is_candidate(files@[k]) ==> may_fail(
                        file_source(files@[k], pairs),
                    ),
            decreases files@.len() - i,
        {
            let file = &files[i];
            let mut good = false;
            if may_hold_rules(file) {
                if let Ok(text) = &file.content {
                    good = compiles_alone(text.as_str(), &kept);
                }
            }
            valid.push(good);
            i = i + 1;
        }
        assert(is_selection(files@, pairs, valid@));
        let plan = plan_reload(files, &valid);
        let compiled = compile_plan(&plan, &kept, manifest);
        self.settle_reload(plan.loaded, compiled)
    }

    /// Scans some bytes with the rules that are loaded; without rules nothing matches.
    pub fn scan_bytes(&self, data: &[u8]) -> (report: Result<Vec<YaraMatch>, YaraError>)
        requires
            self.wf(),
        ensures
            match self.rules {
                Some(rules) => exists|outcome: Result<Seq<HitView>, Seq<char>>| #[trigger]
                    scan_may_give(rule_texts(rules), data@, SCAN_TIMEOUT_SECONDS, outcome)
                        && report_view(report) == report_of(outcome),
                None => report matches Ok(matches) && matches@.len() == 0,
            },
    {
        match &self.rules {
            Some(rules) => report_matches(&scan_mem(rules, data, SCAN_TIMEOUT_SECONDS)),
            None => Ok(Vec::new()),
        }
    }
}

/// A file that is not what a manifest expects is never among the files of rules that are
/// loaded, whatever else is.
pub proof fn law_tampered_rules_are_refused(
    text: String,
    files: Seq<SourceView>,
    index: int,
)
    requires
        0 <= index < files.len(),
        differs(lines_of(text@), files[index]),
    ensures
        refusal(Some(Ok(text)), files) is Some,
    decreases files.len(),
{
    if index > 0 && !differs(lines_of(text@), files[0]) {
        assert(files.skip(1)[index - 1] == files[index]);
        law_tampered_rules_are_refused(text, files.skip(1), index - 1);
    }
}

/// What is selected is among the chosen files.
proof fn lemma_selected_is_chosen(files: Seq<RuleFile>, valid: Seq<bool>, index: int)
    requires
        valid.len() == files.len(),
        0 <= index < files.len(),
        valid[index],
    ensures
        chosen(files, valid).contains(files[index]),
    decreases files.len(),
{
    let before = chosen(files.drop_last(), valid.drop_last());
    if index == files.len() - 1 {
        assert(before.push(files.last()).last() == files[index]);
    } else {
        lemma_selected_is_chosen(files.drop_last(), valid.drop_last(), index);
        assert(before.contains(files[index]));
        let at = choose|k: int| 0 <= k < before.len() && before[k] == files[index];
        assert(chosen(files, valid)[at] == files[index]);
    }
}

/// A rule file that compiles alone and is not what a manifest expects keeps rules from being
/// loaded: of every selection of files that a reload can make, the manifest refuses it.
pub proof fn law_tampered_file_stops_reload(
    text: String,
    files: Seq<RuleFile>,
    read_in: Seq<(Seq<char>, Seq<char>)>,
    valid: Seq<bool>,
    index: int,
)
    requires
        0 <= index < files.len(),
        is_candidate(files[index]),
        !may_fail(file_source(files[index], read_in)),
        differs(
            lines_of(text@),
            SourceView {
                name: file_name(files[index].name),
                hash: source_digest(rule_text(files[index])),
            },
        ),
        is_selection(files, read_in, valid),
    ensures
        refusal(Some(Ok(text)), chosen_hashes(files, valid)) is Some,
{
    assert(valid[index]);
    lemma_selected_is_chosen(files, valid, index);
    let kept = chosen(files, valid);
    let at = choose|k: int| 0 <= k < kept.len() && kept[k] == files[index];
    assert(chosen_hashes(files, valid)[at].name == file_name(files[index].name));
    law_tampered_rules_are_refused(text, chosen_hashes(files, valid), at);
}

} // verus!
