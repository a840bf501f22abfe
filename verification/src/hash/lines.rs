//! Hash lists in lines of text.

use crate::hash::columns::{algorithm_name, canonical_algorithm, column_algorithm, db_entries};
use crate::hash::columns::{db_entry, hash_column_algorithm, infer_algorithm, inferred_algorithm};
use crate::hash::columns::{normalize_hash, normalized_hash, parse_malicious_value, push_entry};
use crate::hash::columns::{verdict, DbEntryView, HashDbEntry};
use crate::hash::error::HashError;
use crate::hash::similarity::{fuzzy_algorithm_name, fuzzy_name, normalize_fuzzy_hash};
use crate::hash::similarity::normalized_fuzzy;
use crate::text::{before_first, begins_with, behind_first, chars_between, chars_of, find_char};
use crate::text::{first_of, from_utf8_lossy, lemma_first_of, lines, lines_of, lossy_text};
use crate::text::{lower, lowered, not_empty, push_text, same_text, stands_at, strip_around, strip_start};
use crate::text::{text_before, text_between, text_of, texts, trim_chars, trim_start_chars};
use crate::text::{trimmed, without_around, without_leading, without_start, is_white};
use vstd::prelude::*;

verus! {

/// What stands between the fields of a line.
pub open spec fn is_separator(c: char) -> bool {
    c == ',' || c == ';' || c == '|' || c == '\t' || c == ' ' || c == '\n' || c == '\u{c}' || c
        == '\r'
}

/// The pieces of a line between separators.
pub open spec fn pieces_of(s: Seq<char>) -> Seq<Seq<char>>
    decreases s.len(),
{
    if s.len() == 0 {
        seq![Seq::<char>::empty()]
    } else {
        let rest = pieces_of(s.drop_last());
        if is_separator(s.last()) {
            rest.push(Seq::<char>::empty())
        } else {
            rest.update(rest.len() - 1, rest.last().push(s.last()))
        }
    }
}

/// The fields of a line: what stands between separators, where anything does.
pub open spec fn fields_of(s: Seq<char>) -> Seq<Seq<char>> {
    not_empty(pieces_of(s))
}

/// The algorithm that the last field naming one names.
pub open spec fn named_algorithm(fields: Seq<Seq<char>>) -> Option<Seq<char>>
    decreases fields.len(),
{
    if fields.len() == 0 {
        None
    } else if algorithm_name(fields.last()) is Some {
        algorithm_name(fields.last())
    } else {
        named_algorithm(fields.drop_last())
    }
}

/// The verdict that the last field giving one gives; a list holds malicious hashes.
pub open spec fn given_verdict(fields: Seq<Seq<char>>) -> bool
    decreases fields.len(),
{
    if fields.len() == 0 {
        true
    } else if algorithm_name(fields.last()) is None && verdict(fields.last(), true) is Some {
        verdict(fields.last(), true)->0
    } else {
        given_verdict(fields.drop_last())
    }
}

/// A field as a candidate: what stands behind an equals sign, without quotes.
pub open spec fn candidate_of(field: Seq<char>) -> Seq<char> {
    if field.contains('=') {
        without_around(behind_first(field, '='), '"')
    } else {
        without_around(field, '"')
    }
}

/// The algorithm that a candidate starts with, before a colon.
pub open spec fn prefix_algorithm(candidate: Seq<char>) -> Option<Seq<char>> {
    if candidate.contains(':') {
        algorithm_name(candidate.take(first_of(candidate, ':')))
    } else {
        None
    }
}

pub open spec fn first_named(
    first: Option<Seq<char>>,
    second: Option<Seq<char>>,
    other: Seq<char>,
) -> Seq<char> {
    match (first, second) {
        (Some(a), _) => a,
        (None, Some(a)) => a,
        (None, None) => other,
    }
}

/// The entry that a field makes, if it holds a hash.
pub open spec fn field_entry(
    field: Seq<char>,
    algorithm: Option<Seq<char>>,
    malicious: bool,
) -> Option<DbEntryView> {
    let raw = candidate_of(field);
    let prefix = prefix_algorithm(raw);
    let candidate = if prefix is Some {
        behind_first(raw, ':')
    } else {
        raw
    };
    if normalized_fuzzy(raw) is Some {
        let hash = normalized_fuzzy(raw)->0;
        Some(db_entry(hash, fuzzy_name(hash), malicious, Seq::empty()))
    } else if normalized_fuzzy(candidate) is Some {
        Some(
            db_entry(
                normalized_fuzzy(candidate)->0,
                first_named(prefix, algorithm, "ssdeep"@),
                malicious,
                Seq::empty(),
            ),
        )
    } else if normalized_hash(candidate) is Some {
        Some(
            db_entry(
                without_around(candidate, '"'),
                first_named(prefix, algorithm, "exact"@),
                malicious,
                Seq::empty(),
            ),
        )
    } else {
        None
    }
}

/// The entry of the first field that holds a hash.
pub open spec fn first_entry(
    fields: Seq<Seq<char>>,
    algorithm: Option<Seq<char>>,
    malicious: bool,
) -> Option<DbEntryView>
    decreases fields.len(),
{
    if fields.len() == 0 {
        None
    } else if field_entry(fields[0], algorithm, malicious) is Some {
        field_entry(fields[0], algorithm, malicious)
    } else {
        first_entry(fields.skip(1), algorithm, malicious)
    }
}

/// A line without white space around it and a byte order mark before it.
pub open spec fn bare_line(line: Seq<char>) -> Seq<char> {
    without_start(trimmed(line), '\u{feff}')
}

/// The entry that a line of a hash list makes. Comments make none.
pub open spec fn line_entry(line: Seq<char>) -> Option<DbEntryView> {
    let bare = bare_line(line);
    let fields = fields_of(trimmed(before_first(bare, " #"@)));
    if bare.len() == 0 || bare[0] == '#' || begins_with(bare, "//"@) {
        None
    } else {
        first_entry(fields, named_algorithm(fields), given_verdict(fields))
    }
}

fn separator(c: char) -> (b: bool)
    ensures
        b == is_separator(c),
{
    c == ',' || c == ';' || c == '|' || c == '\t' || c == ' ' || c == '\n' || c == '\u{c}' || c
        == '\r'
}

proof fn lemma_not_empty_push(items: Seq<Seq<char>>, item: Seq<char>)
    ensures
        not_empty(items.push(item)) == if item.len() == 0 {
            not_empty(items)
        } else {
            not_empty(items).push(item)
        },
{
    assert(items.push(item).drop_last() =~= items);
    assert(items.push(item).last() == item);
}

proof fn lemma_pieces_some(s: Seq<char>)
    ensures
        pieces_of(s).len() >= 1,
    decreases s.len(),
{
    if s.len() > 0 {
        lemma_pieces_some(s.drop_last());
    }
}

/// The fields of a line.
fn fields(chars: &[char]) -> (r: Vec<String>)
    ensures
        texts(r@) == fields_of(chars@),
{
    let mut r: Vec<String> = Vec::new();
    let mut piece: Vec<char> = Vec::new();
    let mut i: usize = 0;
    let ghost mut done: Seq<Seq<char>> = Seq::empty();
    assert(done.push(piece@) =~= pieces_of(chars@.take(0)));
    assert(texts(r@) =~= not_empty(done));
    while i < chars.len()
        invariant
            i <= chars@.len(),
            done.push(piece@) == pieces_of(chars@.take(i as int)),
            texts(r@) == not_empty(done),
        decreases chars@.len() - i,
    {
        let c = chars[i];
        let ghost before = done.push(piece@);
        assert(chars@.take(i + 1).drop_last() =~= chars@.take(i as int));
        assert(chars@.take(i + 1).last() == c);
        if separator(c) {
            proof {
                lemma_not_empty_push(done, piece@);
                done = done.push(piece@);
            }
            if piece.len() > 0 {
                push_text(&mut r, text_of(&piece));
            }
            piece = Vec::new();
            assert(done.push(piece@) =~= before.push(Seq::<char>::empty()));
        } else {
            piece.push(c);
            assert(done.push(piece@) =~= before.update(
                before.len() - 1,
                before.last().push(c),
            ));
        }
        i = i + 1;
    }
    assert(chars@.take(i as int) =~= chars@);
    proof {
        lemma_not_empty_push(done, piece@);
    }
    if piece.len() > 0 {
        push_text(&mut r, text_of(&piece));
    }
    r
}

/// The algorithm and the verdict that the fields give.
fn read_flags(items: &[String]) -> (r: (Option<&'static str>, bool))
    ensures
        match r.0 {
            Some(a) => named_algorithm(texts(items@)) == Some(a@),
            None => named_algorithm(texts(items@)) is None,
        },
        r.1 == given_verdict(texts(items@)),
{
    let ghost views = texts(items@);
    let mut algorithm: Option<&'static str> = None;
    let mut malicious = true;
    let mut i: usize = 0;
    while i < items.len()
        invariant
            i <= items@.len(),
            views == texts(items@),
            match algorithm {
                Some(a) => named_algorithm(views.take(i as int)) == Some(a@),
                None => named_algorithm(views.take(i as int)) is None,
            },
            malicious == given_verdict(views.take(i as int)),
        decreases items@.len() - i,
    {
        assert(views.take(i + 1).drop_last() =~= views.take(i as int));
        assert(views.take(i + 1).last() == items@[i as int]@);
        match canonical_algorithm(items[i].as_str()) {
            Some(a) => {
                algorithm = Some(a);
            },
            None => {
                if let Some(value) = parse_malicious_value(items[i].as_str(), true) {
                    malicious = value;
                }
            },
        }
        i = i + 1;
    }
    assert(views.take(i as int) =~= views);
    (algorithm, malicious)
}

/// A field as a candidate.
fn candidate(field: &[char]) -> (r: Vec<char>)
    ensures
        r@ == candidate_of(field@),
{
    proof {
        lemma_first_of(field@, '=');
    }
    let at: usize = find_char(field, '=');
    if at < field.len() {
        let rest = chars_between(field, at + 1, field.len());
        assert(rest@ =~= behind_first(field@, '='));
        strip_around(&rest, '"')
    } else {
        strip_around(field, '"')
    }
}

/// The given name by its characters.
spec fn name_view(name: Option<&'static str>) -> Option<Seq<char>> {
    match name {
        Some(n) => Some(n@),
        None => None,
    }
}

fn pick_name(
    first: Option<&'static str>,
    second: Option<&'static str>,
    other: &'static str,
) -> (name: String)
    ensures
        name@ == first_named(name_view(first), name_view(second), other@),
{
    match first {
        Some(a) => a.to_owned(),
        None => match second {
            Some(a) => a.to_owned(),
            None => other.to_owned(),
        },
    }
}

fn new_entry(hash: String, algorithm: String, is_malicious: bool) -> (entry: HashDbEntry)
    ensures
        entry@ == db_entry(hash@, algorithm@, is_malicious, Seq::empty()),
{
    let source = String::new();
    assert(source@ =~= Seq::empty());
    HashDbEntry { hash, algorithm, is_malicious, source }
}

/// The entry that a field makes, if it holds a hash.
fn entry_of_field(field: &str, algorithm: Option<&'static str>, malicious: bool) -> (entry: Option<
    HashDbEntry,
>)
    ensures
        match entry {
            Some(e) => field_entry(field@, name_view(algorithm), malicious) == Some(e@),
            None => field_entry(field@, name_view(algorithm), malicious) is None,
        },
{
    let chars = chars_of(field);
    let raw = candidate(&chars);
    let raw_text = text_of(&raw);
    if let Ok(hash) = normalize_fuzzy_hash(raw_text.as_str()) {
        let name = fuzzy_algorithm_name(hash.as_str());
        return Some(new_entry(hash, name, malicious));
    }
    proof {
        lemma_first_of(raw@, ':');
    }
    let at: usize = find_char(&raw, ':');
    let mut prefix: Option<&'static str> = None;
    if at < raw.len() {
        let head = text_between(&raw, 0, at);
        assert(head@ =~= raw@.take(at as int));
        prefix = canonical_algorithm(head.as_str());
    }
    let rest = if prefix.is_some() {
        let rest = chars_between(&raw, at + 1, raw.len());
        assert(rest@ =~= behind_first(raw@, ':'));
        rest
    } else {
        chars_between(&raw, 0, raw.len())
    };
    assert(prefix is None ==> rest@ =~= raw@);
    let text = text_of(&rest);
    if let Ok(hash) = normalize_fuzzy_hash(text.as_str()) {
        let name = pick_name(prefix, algorithm, "ssdeep");
        return Some(new_entry(hash, name, malicious));
    }
    if let Ok(_) = normalize_hash(text.as_str()) {
        let bare = strip_around(&rest, '"');
        let name = pick_name(prefix, algorithm, "exact");
        return Some(new_entry(text_of(&bare), name, malicious));
    }
    None
}

/// The entry of the first field that holds a hash.
fn find_entry(items: &[String], algorithm: Option<&'static str>, malicious: bool) -> (entry: Option<
    HashDbEntry,
>)
    ensures
        match entry {
            Some(e) => first_entry(texts(items@), name_view(algorithm), malicious) == Some(e@),
            None => first_entry(texts(items@), name_view(algorithm), malicious) is None,
        },
{
    let ghost views = texts(items@);
    let mut i: usize = 0;
    assert(views.skip(0) =~= views);
    while i < items.len()
        invariant
            i <= items@.len(),
            views == texts(items@),
            first_entry(views, name_view(algorithm), malicious) == first_entry(
                views.skip(i as int),
                name_view(algorithm),
                malicious,
            ),
        decreases items@.len() - i,
    {
        assert(views.skip(i as int)[0] == items@[i as int]@);
        if let Some(entry) = entry_of_field(items[i].as_str(), algorithm, malicious) {
            return Some(entry);
        }
        assert(views.skip(i as int).skip(1) =~= views.skip(i + 1));
        i = i + 1;
    }
    None
}

/// The entry that a line of a hash list makes.
pub fn parse_text_hash_line(line: &str) -> (entry: Option<HashDbEntry>)
    ensures
        match entry {
            Some(e) => line_entry(line@) == Some(e@),
            None => line_entry(line@) is None,
        },
{
    let chars = chars_of(line);
    let body = trim_chars(&chars);
    let bare = strip_start(&body, '\u{feff}');
    let slashes = chars_of("//");
    if bare.len() == 0 || bare[0] == '#' || stands_at(&bare, &slashes, 0) {
        return None;
    }
    let bare_text = text_of(&bare);
    let head = text_before(bare_text.as_str(), " #");
    let head_chars = chars_of(head.as_str());
    let content = trim_chars(&head_chars);
    let items = fields(&content);
    let (algorithm, malicious) = read_flags(&items);
    find_entry(&items, algorithm, malicious)
}

/// The hash that starts a `hash:size:name` record.
pub open spec fn record_hash(line: Seq<char>) -> Seq<char> {
    let body = trimmed(line);
    without_around(trimmed(body.take(first_of(body, ':'))), '"')
}

/// The entry that a `hash:size:name` record makes.
pub open spec fn record_entry(line: Seq<char>) -> Option<DbEntryView> {
    let hash = record_hash(line);
    if normalized_hash(hash) is Some {
        Some(
            db_entry(
                hash,
                match inferred_algorithm(hash) {
                    Some(a) => a,
                    None => "exact"@,
                },
                true,
                Seq::empty(),
            ),
        )
    } else {
        None
    }
}

pub fn parse_clamav_hash_line(line: &str) -> (entry: Option<HashDbEntry>)
    ensures
        match entry {
            Some(e) => record_entry(line@) == Some(e@),
            None => record_entry(line@) is None,
        },
{
    let chars = chars_of(line);
    let body = trim_chars(&chars);
    let at: usize = find_char(&body, ':');
    let head = chars_between(&body, 0, at);
    assert(head@ =~= body@.take(at as int));
    let part = trim_chars(&head);
    let bare = strip_around(&part, '"');
    let hash = text_of(&bare);
    if let Ok(_) = normalize_hash(hash.as_str()) {
        let name = match infer_algorithm(hash.as_str()) {
            Some(a) => a.to_owned(),
            None => "exact".to_owned(),
        };
        Some(new_entry(hash, name, true))
    } else {
        None
    }
}

/// The entries that lines make.
pub open spec fn list_entries(lines: Seq<Seq<char>>, records: bool) -> Seq<DbEntryView>
    decreases lines.len(),
{
    if lines.len() == 0 {
        Seq::empty()
    } else {
        let before = list_entries(lines.drop_last(), records);
        match any_entry(lines.last(), records) {
            Some(e) => before.push(e),
            None => before,
        }
    }
}

/// The entry of a line, which may be a `hash:size:name` record where `records` says so.
pub open spec fn any_entry(line: Seq<char>, records: bool) -> Option<DbEntryView> {
    if records && record_entry(line) is Some {
        record_entry(line)
    } else {
        line_entry(line)
    }
}

fn read_list(text: &str, records: bool) -> (entries: Vec<HashDbEntry>)
    ensures
        db_entries(entries@) == list_entries(lines_of(text@), records),
{
    let items = lines(text);
    let ghost views = texts(items@);
    let mut entries: Vec<HashDbEntry> = Vec::new();
    let mut i: usize = 0;
    assert(db_entries(entries@) =~= Seq::empty());
    while i < items.len()
        invariant
            i <= items@.len(),
            views == texts(items@),
            db_entries(entries@) == list_entries(views.take(i as int), records),
        decreases items@.len() - i,
    {
        assert(views.take(i + 1).drop_last() =~= views.take(i as int));
        assert(views.take(i + 1).last() == items@[i as int]@);
        let mut entry: Option<HashDbEntry> = None;
        if records {
            entry = parse_clamav_hash_line(items[i].as_str());
        }
        if entry.is_none() {
            entry = parse_text_hash_line(items[i].as_str());
        }
        if let Some(e) = entry {
            push_entry(&mut entries, e);
        }
        i = i + 1;
    }
    assert(views.take(i as int) =~= views);
    entries
}

/// The entries of a hash list: one hash to a line.
pub fn read_hashes_from_text(text: &str) -> (entries: Vec<HashDbEntry>)
    ensures
        db_entries(entries@) == list_entries(lines_of(text@), false),
{
    read_list(text, false)
}

/// The entries of a text-based data file, whose lines may be `hash:size:name` records.
/// A file with a zero byte is no text.
pub fn read_hashes_from_dat(bytes: &[u8]) -> (r: Result<Vec<HashDbEntry>, HashError>)
    ensures
        match r {
            Ok(entries) => !bytes@.contains(0) && db_entries(entries@) == list_entries(
                lines_of(lossy_text(bytes@)),
                true,
            ),
            Err(HashError::MissingHeader { field }) => bytes@.contains(0) && field@
                == "text-based DAT hash list"@,
            Err(_) => false,
        },
{
    let mut i: usize = 0;
    while i < bytes.len()
        invariant
            i <= bytes@.len(),
            forall|k: int| 0 <= k < i ==> bytes@[k] != 0,
        decreases bytes@.len() - i,
    {
        if bytes[i] == 0 {
            assert(bytes@[i as int] == 0);
            return Err(
                HashError::MissingHeader { field: "text-based DAT hash list".to_owned() },
            );
        }
        i = i + 1;
    }
    let text = from_utf8_lossy(bytes);
    Ok(read_list(text.as_str(), true))
}

/// What a hash database is written in.
#[derive(Debug, Clone, Copy, PartialEq, Eq, Structural)]
pub enum HashFileFormat {
    Sqlite,
    Csv,
    Json,
    JsonLines,
    Text,
    Dat,
}

/// The format that a file extension in lower case stands for.
pub open spec fn extension_format(extension: Seq<char>) -> Option<HashFileFormat> {
    if extension == "sqlite"@ || extension == "sqlite3"@ || extension == "db"@ {
        Some(HashFileFormat::Sqlite)
    } else if extension == "csv"@ || extension == "tsv"@ {
        Some(HashFileFormat::Csv)
    } else if extension == "json"@ {
        Some(HashFileFormat::Json)
    } else if extension == "jsonl"@ || extension == "ndjson"@ {
        Some(HashFileFormat::JsonLines)
    } else if extension == "txt"@ || extension == "list"@ || extension == "hashes"@ {
        Some(HashFileFormat::Text)
    } else if extension == "dat"@ {
        Some(HashFileFormat::Dat)
    } else {
        None
    }
}

/// The columns of a header line.
pub open spec fn header_columns(line: Seq<char>) -> Seq<Seq<char>>
    decreases line.len(),
{
    if line.len() == 0 {
        seq![Seq::<char>::empty()]
    } else {
        let rest = header_columns(line.drop_last());
        let c = line.last();
        if c == ',' || c == '\t' || c == ';' {
            rest.push(Seq::<char>::empty())
        } else {
            rest.update(rest.len() - 1, rest.last().push(c))
        }
    }
}

/// A line with a hash column is the header of a table.
pub open spec fn is_hash_header(line: Seq<char>) -> bool {
    exists|i: int|
        0 <= i < header_columns(line).len() && column_algorithm(
            trimmed(#[trigger] header_columns(line)[i]),
        ) is Some
}

/// The format of a text whose name does not tell.
pub open spec fn content_format(text: Seq<char>) -> HashFileFormat {
    let body = without_leading(without_start(text, '\u{feff}'), |c: char| is_white(c));
    let rows = lines_of(body);
    if body.len() > 0 && (body[0] == '{' || body[0] == '[') {
        HashFileFormat::Json
    } else if rows.len() > 0 && is_hash_header(rows[0]) {
        HashFileFormat::Csv
    } else {
        HashFileFormat::Text
    }
}

pub fn looks_like_hash_csv_header(line: &str) -> (b: bool)
    ensures
        b == is_hash_header(line@),
{
    let chars = chars_of(line);
    let mut found = false;
    let mut piece: Vec<char> = Vec::new();
    let ghost mut done: Seq<Seq<char>> = Seq::empty();
    let mut i: usize = 0;
    assert(done.push(piece@) =~= header_columns(chars@.take(0)));
    while i < chars.len()
        invariant
            i <= chars@.len(),
            done.push(piece@) == header_columns(chars@.take(i as int)),
            found == exists|k: int|
                0 <= k < done.len() && column_algorithm(trimmed(#[trigger] done[k])) is Some,
        decreases chars@.len() - i,
    {
        let c = chars[i];
        let ghost before = done.push(piece@);
        assert(chars@.take(i + 1).drop_last() =~= chars@.take(i as int));
        assert(chars@.take(i + 1).last() == c);
        if c == ',' || c == '\t' || c == ';' {
            let ghost old_done = done;
            let ghost old_found = found;
            if names_hash_column(&piece) {
                found = true;
            }
            proof {
                done = done.push(piece@);
                lemma_any_pushed(old_done, piece@);
            }
            piece = Vec::new();
            assert(done.push(piece@) =~= before.push(Seq::<char>::empty()));
        } else {
            piece.push(c);
            assert(done.push(piece@) =~= before.update(
                before.len() - 1,
                before.last().push(c),
            ));
        }
        i = i + 1;
    }
    assert(chars@.take(i as int) =~= chars@);
    proof {
        lemma_any_pushed(done, piece@);
    }
    if names_hash_column(&piece) {
        found = true;
    }
    found
}

/// Some text is the name of a hash column.
spec fn any_column(items: Seq<Seq<char>>) -> bool {
    exists|k: int|
        0 <= k < items.len() && column_algorithm(trimmed(#[trigger] items[k])) is Some
}

proof fn lemma_any_pushed(items: Seq<Seq<char>>, item: Seq<char>)
    ensures
        any_column(items.push(item)) == (any_column(items) || column_algorithm(
            trimmed(item),
        ) is Some),
{
    let more = items.push(item);
    if any_column(items) {
        let k = choose|k: int|
            0 <= k < items.len() && column_algorithm(trimmed(#[trigger] items[k])) is Some;
        assert(more[k] == items[k]);
    }
    assert(more[items.len() as int] == item);
    if any_column(more) {
        let k = choose|k: int|
            0 <= k < more.len() && column_algorithm(trimmed(#[trigger] more[k])) is Some;
        if k < items.len() {
            assert(items[k] == more[k]);
        }
    }
}

fn names_hash_column(piece: &[char]) -> (b: bool)
    ensures
        b == (column_algorithm(trimmed(piece@)) is Some),
{
    let body = trim_chars(piece);
    let text = text_of(&body);
    hash_column_algorithm(text.as_str()).is_some()
}

/// The format that a file extension stands for, in whatever case it is written.
pub fn format_of_extension(extension: &str) -> (format: Option<HashFileFormat>)
    ensures
        format == extension_format(lowered(extension@)),
{
    let low = lower(extension);
    let name = low.as_str();
    if same_text(name, "sqlite") || same_text(name, "sqlite3")
        || same_text(name, "db") {
        Some(HashFileFormat::Sqlite)
    } else if same_text(name, "csv") || same_text(name, "tsv") {
        Some(HashFileFormat::Csv)
    } else if same_text(name, "json") {
        Some(HashFileFormat::Json)
    } else if same_text(name, "jsonl") || same_text(name, "ndjson") {
        Some(HashFileFormat::JsonLines)
    } else if same_text(name, "txt") || same_text(name, "list")
        || same_text(name, "hashes") {
        Some(HashFileFormat::Text)
    } else if same_text(name, "dat") {
        Some(HashFileFormat::Dat)
    } else {
        None
    }
}

/// The format of a text whose name does not tell.
pub fn format_of_content(text: &str) -> (format: HashFileFormat)
    ensures
        format == content_format(text@),
{
    let chars = chars_of(text);
    let unmarked = strip_start(&chars, '\u{feff}');
    let body = trim_start_chars(&unmarked);
    if body.len() > 0 && (body[0] == '{' || body[0] == '[') {
        return HashFileFormat::Json;
    }
    let body_text = text_of(&body);
    let rows = lines(body_text.as_str());
    if rows.len() > 0 {
        assert(texts(rows@)[0] == rows@[0]@);
        if looks_like_hash_csv_header(rows[0].as_str()) {
            return HashFileFormat::Csv;
        }
    }
    HashFileFormat::Text
}

} // verus!
