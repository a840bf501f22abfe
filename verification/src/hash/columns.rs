//! The vocabulary of hash databases: column names, algorithms, verdicts and hashes.

use crate::hash::error::HashError;
use crate::hash::similarity::{normalize_fuzzy_hash, normalized_fuzzy};
use crate::text::{chars_of, is_hex_digit, lower_chars, lowered, same_text, strip_around};
use crate::text::{strip_start, text_of, to_lowercase, trim, trim_chars, trimmed, unicode_lower};
use crate::text::{without_around, without_start};
use vstd::prelude::*;

verus! {

/// One hash of a database.
#[derive(Debug)]
pub struct HashDbEntry {
    pub hash: String,
    pub algorithm: String,
    pub is_malicious: bool,
    pub source: String,
}

#[verifier::ext_equal]
pub struct DbEntryView {
    pub hash: Seq<char>,
    pub algorithm: Seq<char>,
    pub is_malicious: bool,
    pub source: Seq<char>,
}

impl View for HashDbEntry {
    type V = DbEntryView;

    open spec fn view(&self) -> DbEntryView {
        db_entry(self.hash@, self.algorithm@, self.is_malicious, self.source@)
    }
}

pub open spec fn db_entry(
    hash: Seq<char>,
    algorithm: Seq<char>,
    is_malicious: bool,
    source: Seq<char>,
) -> DbEntryView {
    DbEntryView { hash, algorithm, is_malicious, source }
}

pub open spec fn db_entries(entries: Seq<HashDbEntry>) -> Seq<DbEntryView> {
    entries.map_values(|e: HashDbEntry| e@)
}

/// Appends an entry to a list.
pub fn push_entry(entries: &mut Vec<HashDbEntry>, entry: HashDbEntry)
    ensures
        db_entries(final(entries)@) == db_entries(old(entries)@).push(entry@),
{
    let ghost one = entry@;
    entries.push(entry);
    assert(db_entries(entries@) =~= db_entries(old(entries)@).push(one));
}

/// Hyphens and spaces as underscores.
pub open spec fn underscored(s: Seq<char>) -> Seq<char> {
    Seq::new(
        s.len(),
        |i: int|
            if s[i] == '-' || s[i] == ' ' {
                '_'
            } else {
                s[i]
            },
    )
}

/// A column name without what varies between databases.
pub open spec fn column_name(value: Seq<char>) -> Seq<char> {
    underscored(lowered(without_start(trimmed(value), '\u{feff}')))
}

pub fn normalize_column_name(value: &str) -> (name: String)
    ensures
        name@ == column_name(value@),
{
    let chars = chars_of(value);
    let body = trim_chars(&chars);
    let bare = strip_start(&body, '\u{feff}');
    let low = lower_chars(&bare);
    let mut name = String::new();
    let mut i: usize = 0;
    assert(name@ =~= underscored(low@).take(0));
    while i < low.len()
        invariant
            i <= low@.len(),
            name@ == underscored(low@).take(i as int),
        decreases low@.len() - i,
    {
        let c = low[i];
        name.push(if c == '-' || c == ' ' { '_' } else { c });
        assert(underscored(low@).take(i + 1) =~= underscored(low@).take(i as int).push(
            underscored(low@)[i as int],
        ));
        i = i + 1;
    }
    assert(underscored(low@).take(i as int) =~= underscored(low@));
    name
}

/// The algorithm that a column holds hashes of. It is empty for a column that holds any
/// kind, so that the row can name the algorithm.
pub open spec fn column_algorithm(value: Seq<char>) -> Option<Seq<char>> {
    let name = column_name(value);
    if name == "hash"@
        || name == "hashes"@
        || name == "value"@
        || name == "indicator"@
        || name == "hash_value"@ {
        Some(""@)
    } else if name == "md5"@
        || name == "md5_hash"@ {
        Some("md5"@)
    } else if name == "sha1"@
        || name == "sha_1"@
        || name == "sha1_hash"@
        || name == "sha_1_hash"@ {
        Some("sha1"@)
    } else if name == "sha256"@
        || name == "sha_256"@
        || name == "sha256_hash"@
        || name == "sha_256_hash"@ {
        Some("sha256"@)
    } else if name == "sha512"@
        || name == "sha_512"@
        || name == "sha512_hash"@
        || name == "sha_512_hash"@ {
        Some("sha512"@)
    } else if name == "ssdeep"@
        || name == "ssdeep_hash"@
        || name == "fuzzy"@
        || name == "fuzzy_hash"@
        || name == "spamsum"@ {
        Some("ssdeep"@)
    } else {
        None
    }
}

pub fn hash_column_algorithm(value: &str) -> (algorithm: Option<&'static str>)
    ensures
        match algorithm {
            Some(a) => column_algorithm(value@) == Some(a@),
            None => column_algorithm(value@) is None,
        },
{
    let text = normalize_column_name(value);
    let name = text.as_str();
    if same_text(name, "hash")
        || same_text(name, "hashes")
        || same_text(name, "value")
        || same_text(name, "indicator")
        || same_text(name, "hash_value") {
        Some("")
    } else if same_text(name, "md5")
        || same_text(name, "md5_hash") {
        Some("md5")
    } else if same_text(name, "sha1")
        || same_text(name, "sha_1")
        || same_text(name, "sha1_hash")
        || same_text(name, "sha_1_hash") {
        Some("sha1")
    } else if same_text(name, "sha256")
        || same_text(name, "sha_256")
        || same_text(name, "sha256_hash")
        || same_text(name, "sha_256_hash") {
        Some("sha256")
    } else if same_text(name, "sha512")
        || same_text(name, "sha_512")
        || same_text(name, "sha512_hash")
        || same_text(name, "sha_512_hash") {
        Some("sha512")
    } else if same_text(name, "ssdeep")
        || same_text(name, "ssdeep_hash")
        || same_text(name, "fuzzy")
        || same_text(name, "fuzzy_hash")
        || same_text(name, "spamsum") {
        Some("ssdeep")
    } else {
        None
    }
}

/// A column that says whether the row is malicious.
pub open spec fn names_verdict(value: Seq<char>) -> bool {
    let name = column_name(value);
    name == "is_malicious"@
        || name == "malicious"@
        || name == "detected"@
        || name == "verdict"@
        || name == "status"@
        || name == "threat"@
}

pub fn is_malicious_column(value: &str) -> (b: bool)
    ensures
        b == names_verdict(value@),
{
    let text = normalize_column_name(value);
    let name = text.as_str();
    same_text(name, "is_malicious")
        || same_text(name, "malicious")
        || same_text(name, "detected")
        || same_text(name, "verdict")
        || same_text(name, "status")
        || same_text(name, "threat")
}

/// A column that says where the row comes from.
pub open spec fn names_source(value: Seq<char>) -> bool {
    let name = column_name(value);
    name == "source"@
        || name == "provider"@
        || name == "feed"@
        || name == "dataset"@
        || name == "origin"@
}

pub fn is_source_column(value: &str) -> (b: bool)
    ensures
        b == names_source(value@),
{
    let text = normalize_column_name(value);
    let name = text.as_str();
    same_text(name, "source")
        || same_text(name, "provider")
        || same_text(name, "feed")
        || same_text(name, "dataset")
        || same_text(name, "origin")
}

/// The name of an algorithm in its canonical form.
pub open spec fn algorithm_name(value: Seq<char>) -> Option<Seq<char>> {
    let name = column_name(value);
    if name == "exact"@
        || name == "hash"@ {
        Some("exact"@)
    } else if name == "md5"@ {
        Some("md5"@)
    } else if name == "sha1"@
        || name == "sha_1"@ {
        Some("sha1"@)
    } else if name == "sha256"@
        || name == "sha_256"@ {
        Some("sha256"@)
    } else if name == "sha512"@
        || name == "sha_512"@ {
        Some("sha512"@)
    } else if name == "fuzzy"@
        || name == "ssdeep"@
        || name == "ssdeep_lite"@
        || name == "spamsum"@ {
        Some("ssdeep"@)
    } else {
        None
    }
}

pub fn canonical_algorithm(value: &str) -> (algorithm: Option<&'static str>)
    ensures
        match algorithm {
            Some(a) => algorithm_name(value@) == Some(a@),
            None => algorithm_name(value@) is None,
        },
{
    let text = normalize_column_name(value);
    let name = text.as_str();
    if same_text(name, "exact")
        || same_text(name, "hash") {
        Some("exact")
    } else if same_text(name, "md5") {
        Some("md5")
    } else if same_text(name, "sha1")
        || same_text(name, "sha_1") {
        Some("sha1")
    } else if same_text(name, "sha256")
        || same_text(name, "sha_256") {
        Some("sha256")
    } else if same_text(name, "sha512")
        || same_text(name, "sha_512") {
        Some("sha512")
    } else if same_text(name, "fuzzy")
        || same_text(name, "ssdeep")
        || same_text(name, "ssdeep_lite")
        || same_text(name, "spamsum") {
        Some("ssdeep")
    } else {
        None
    }
}

/// Whether a value says malicious or not, if it says either; an empty value stands for the
/// default.
pub open spec fn verdict(value: Seq<char>, default: bool) -> Option<bool> {
    let word = lowered(without_around(trimmed(value), '"'));
    if word == "1"@
        || word == "true"@
        || word == "yes"@
        || word == "y"@
        || word == "malicious"@
        || word == "infected"@
        || word == "detected"@
        || word == "online"@ {
        Some(true)
    } else if word == "0"@
        || word == "false"@
        || word == "no"@
        || word == "n"@
        || word == "clean"@
        || word == "benign"@
        || word == "allow"@
        || word == "allowed"@
        || word == "undetected"@
        || word == "whitelisted"@ {
        Some(false)
    } else {
        if word.len() == 0 {
            Some(default)
        } else {
            None
        }
    }
}

pub fn parse_malicious_value(value: &str, default: bool) -> (r: Option<bool>)
    ensures
        r == verdict(value@, default),
{
    let chars = chars_of(value);
    let body = trim_chars(&chars);
    let bare = strip_around(&body, '"');
    let low = lower_chars(&bare);
    let text = text_of(&low);
    let word = text.as_str();
    if same_text(word, "1")
        || same_text(word, "true")
        || same_text(word, "yes")
        || same_text(word, "y")
        || same_text(word, "malicious")
        || same_text(word, "infected")
        || same_text(word, "detected")
        || same_text(word, "online") {
        Some(true)
    } else if same_text(word, "0")
        || same_text(word, "false")
        || same_text(word, "no")
        || same_text(word, "n")
        || same_text(word, "clean")
        || same_text(word, "benign")
        || same_text(word, "allow")
        || same_text(word, "allowed")
        || same_text(word, "undetected")
        || same_text(word, "whitelisted") {
        Some(false)
    } else {
        if low.len() == 0 {
            Some(default)
        } else {
            None
        }
    }
}

/// Every character is a hexadecimal digit.
pub open spec fn all_hex(s: Seq<char>) -> bool {
    forall|i: int| 0 <= i < s.len() ==> is_hex_digit(#[trigger] s[i])
}

/// The length of an MD5, SHA-1, SHA-256 or SHA-512 hash in hexadecimal digits.
pub open spec fn is_hash_len(n: nat) -> bool {
    n == 32 || n == 40 || n == 64 || n == 128
}

/// An exact hash in lower case, if the text is one.
pub open spec fn normalized_hash(hash: Seq<char>) -> Option<Seq<char>> {
    let low = unicode_lower(trimmed(hash));
    if is_hash_len(low.len()) && all_hex(low) {
        Some(low)
    } else {
        None
    }
}

fn only_hex(chars: &[char]) -> (b: bool)
    ensures
        b == all_hex(chars@),
{
    let mut i: usize = 0;
    while i < chars.len()
        invariant
            i <= chars@.len(),
            forall|k: int| 0 <= k < i ==> is_hex_digit(#[trigger] chars@[k]),
        decreases chars@.len() - i,
    {
        let c = chars[i];
        if !(('0' <= c && c <= '9') || ('a' <= c && c <= 'f') || ('A' <= c && c <= 'F')) {
            assert(!is_hex_digit(chars@[i as int]));
            return false;
        }
        i = i + 1;
    }
    true
}

pub fn normalize_hash(hash: &str) -> (r: Result<String, HashError>)
    ensures
        match r {
            Ok(text) => normalized_hash(hash@) == Some(text@),
            Err(HashError::InvalidHashFormat { value }) => normalized_hash(hash@) is None
                && value@ == hash@,
            Err(_) => false,
        },
{
    let body = trim(hash);
    let low = to_lowercase(body.as_str());
    let chars = chars_of(low.as_str());
    let n: usize = chars.len();
    if (n == 32 || n == 40 || n == 64 || n == 128) && only_hex(&chars) {
        Ok(low)
    } else {
        Err(HashError::InvalidHashFormat { value: hash.to_owned() })
    }
}

/// The algorithm that a hash is of, going by its form.
pub open spec fn inferred_algorithm(value: Seq<char>) -> Option<Seq<char>> {
    if normalized_fuzzy(value) is Some {
        Some("ssdeep"@)
    } else {
        match normalized_hash(value) {
            Some(hash) => {
                if hash.len() == 32 {
                    Some("md5"@)
                } else if hash.len() == 40 {
                    Some("sha1"@)
                } else if hash.len() == 64 {
                    Some("sha256"@)
                } else {
                    Some("sha512"@)
                }
            },
            None => None,
        }
    }
}

pub fn infer_algorithm(value: &str) -> (algorithm: Option<&'static str>)
    ensures
        match algorithm {
            Some(a) => inferred_algorithm(value@) == Some(a@),
            None => inferred_algorithm(value@) is None,
        },
{
    match normalize_fuzzy_hash(value) {
        Ok(_) => {
            return Some("ssdeep");
        },
        Err(_) => {},
    }
    match normalize_hash(value) {
        Ok(hash) => {
            let n: usize = hash.as_str().unicode_len();
            if n == 32 {
                Some("md5")
            } else if n == 40 {
                Some("sha1")
            } else if n == 64 {
                Some("sha256")
            } else {
                Some("sha512")
            }
        },
        Err(_) => None,
    }
}

/// An algorithm whose hashes are fuzzy signatures.
pub open spec fn names_fuzzy(algorithm: Seq<char>) -> bool {
    let name = lowered(trimmed(algorithm));
    name == "fuzzy"@ || name == "ssdeep"@ || name == "ssdeep-lite"@
}

pub fn is_fuzzy_algorithm(algorithm: &str) -> (b: bool)
    ensures
        b == names_fuzzy(algorithm@),
{
    let chars = chars_of(algorithm);
    let body = trim_chars(&chars);
    let low = lower_chars(&body);
    let text = text_of(&low);
    let name = text.as_str();
    same_text(name, "fuzzy") || same_text(name, "ssdeep") || same_text(name, "ssdeep-lite")
}

/// A given text by its characters.
pub open spec fn given(text: Option<&str>) -> Option<Seq<char>> {
    match text {
        Some(t) => Some(t@),
        None => None,
    }
}

/// The algorithm of a hash: the one given, unless that is blank, else the one that its
/// form shows.
pub open spec fn chosen_algorithm(value: Seq<char>, algorithm: Option<Seq<char>>) -> Seq<char> {
    if algorithm is Some && trimmed(algorithm->0).len() > 0 {
        algorithm->0
    } else {
        match inferred_algorithm(value) {
            Some(a) => a,
            None => "exact"@,
        }
    }
}

/// The entry of a hash, if the text is one of its algorithm.
pub open spec fn hash_entry(
    value: Seq<char>,
    algorithm: Option<Seq<char>>,
    is_malicious: bool,
) -> Option<DbEntryView> {
    let text = without_around(trimmed(value), '"');
    let name = chosen_algorithm(text, algorithm);
    let hash = if names_fuzzy(name) {
        normalized_fuzzy(text)
    } else {
        normalized_hash(text)
    };
    if text.len() == 0 {
        None
    } else {
        match hash {
            Some(h) => Some(db_entry(h, name, is_malicious, Seq::empty())),
            None => None,
        }
    }
}

pub fn make_hash_entry(value: &str, algorithm: Option<&str>, is_malicious: bool) -> (entry: Option<
    HashDbEntry,
>)
    ensures
        match entry {
            Some(e) => hash_entry(value@, given(algorithm), is_malicious) == Some(e@),
            None => hash_entry(value@, given(algorithm), is_malicious) is None,
        },
{
    let chars = chars_of(value);
    let body = trim_chars(&chars);
    let bare = strip_around(&body, '"');
    let text = text_of(&bare);
    if bare.len() == 0 {
        return None;
    }
    let mut named: Option<String> = None;
    if let Some(a) = algorithm {
        if trim(a).as_str().unicode_len() > 0 {
            named = Some(a.to_owned());
        }
    }
    let name = match named {
        Some(n) => n,
        None => match infer_algorithm(text.as_str()) {
            Some(a) => a.to_owned(),
            None => "exact".to_owned(),
        },
    };
    let hash = if is_fuzzy_algorithm(name.as_str()) {
        normalize_fuzzy_hash(text.as_str())
    } else {
        normalize_hash(text.as_str())
    };
    match hash {
        Ok(hash) => {
            let source = String::new();
            assert(source@ =~= Seq::empty());
            Some(HashDbEntry { hash, algorithm: name, is_malicious, source })
        },
        Err(_) => None,
    }
}

} // verus!
