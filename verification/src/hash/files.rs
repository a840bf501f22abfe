//! Loading databases of every format into a matcher.

use crate::hash::columns::{db_entries, DbEntryView, HashDbEntry};
use crate::hash::documents::{document_entries, lines_entries};
use crate::hash::documents::{read_hashes_from_json, read_hashes_from_jsonl};
use crate::hash::error::HashError;
use crate::hash::lines::{content_format, extension_format, format_of_content};
use crate::hash::lines::{format_of_extension, list_entries, read_hashes_from_dat};
use crate::hash::lines::{read_hashes_from_text, HashFileFormat};
use crate::hash::matcher::{valid_records, with_default, with_default_source, HashMatcher};
use crate::hash::matcher::{
    law_database_gives_all_entries, row_gives_exact, row_gives_fuzzy, MatcherView,
};
use crate::hash::tables::{csv_delimiter, csv_outcome, has_hash_column, read_hashes_from_csv};
use crate::hash::tables::{read_hashes_from_sqlite_table, sql_entries, sql_row_views};
use crate::hash::tables::{CsvOutcome, SqlValue};
use crate::text::{from_utf8, lines_of, lossy_text, lowered, texts};
use vstd::prelude::*;
use vstd::utf8::{decode_utf8, valid_utf8};

verus! {

/// What reading a database gives: the entries, or what is wrong with it.
pub enum ReadOutcome {
    Entries(Seq<DbEntryView>),
    NotText,
    NotJson,
    NotCsv,
    MissingHeader(Seq<char>),
}

/// The result is the outcome.
pub open spec fn reads_as(r: Result<Vec<HashDbEntry>, HashError>, outcome: ReadOutcome) -> bool {
    match r {
        Ok(entries) => outcome == ReadOutcome::Entries(db_entries(entries@)),
        Err(HashError::NotText) => outcome == ReadOutcome::NotText,
        Err(HashError::Json(_)) => outcome == ReadOutcome::NotJson,
        Err(HashError::Csv(_)) => outcome == ReadOutcome::NotCsv,
        Err(HashError::MissingHeader { field }) => outcome == ReadOutcome::MissingHeader(field@),
        Err(_) => false,
    }
}

/// The delimiter of a table in a file with this extension.
pub open spec fn delimiter_of(extension: Seq<char>) -> u8 {
    if lowered(extension) == "tsv"@ {
        9
    } else {
        44
    }
}

pub open spec fn csv_read(bytes: Seq<u8>, extension: Seq<char>) -> ReadOutcome {
    match csv_outcome(bytes, delimiter_of(extension)) {
        CsvOutcome::Unreadable => ReadOutcome::NotCsv,
        CsvOutcome::NoHashColumn => ReadOutcome::MissingHeader("hash column"@),
        CsvOutcome::Entries(entries) => ReadOutcome::Entries(entries),
    }
}

pub open spec fn json_read(text: Seq<char>, in_lines: bool) -> ReadOutcome {
    let entries = if in_lines {
        lines_entries(lines_of(text))
    } else {
        document_entries(text)
    };
    match entries {
        Some(e) => ReadOutcome::Entries(e),
        None => ReadOutcome::NotJson,
    }
}

pub open spec fn dat_read(bytes: Seq<u8>) -> ReadOutcome {
    if bytes.contains(0) {
        ReadOutcome::MissingHeader("text-based DAT hash list"@)
    } else {
        ReadOutcome::Entries(list_entries(lines_of(lossy_text(bytes)), true))
    }
}

pub open spec fn text_read(text: Seq<char>) -> ReadOutcome {
    ReadOutcome::Entries(list_entries(lines_of(text), false))
}

/// The format of a file: what its extension says, else what its text looks like.
pub open spec fn file_format(extension: Seq<char>, bytes: Seq<u8>) -> HashFileFormat {
    match extension_format(lowered(extension)) {
        Some(format) => format,
        None => content_format(decode_utf8(bytes)),
    }
}

/// What reading the content of a file gives. JSON and plain lists must be text, and so
/// must a file whose extension does not tell its format.
pub open spec fn file_read(extension: Seq<char>, bytes: Seq<u8>) -> ReadOutcome {
    let told = extension_format(lowered(extension)) is Some;
    match file_format(extension, bytes) {
        HashFileFormat::Dat => dat_read(bytes),
        HashFileFormat::Csv => if told || valid_utf8(bytes) {
            csv_read(bytes, extension)
        } else {
            ReadOutcome::NotText
        },
        HashFileFormat::Json => if valid_utf8(bytes) {
            json_read(decode_utf8(bytes), false)
        } else {
            ReadOutcome::NotText
        },
        HashFileFormat::JsonLines => if valid_utf8(bytes) {
            json_read(decode_utf8(bytes), true)
        } else {
            ReadOutcome::NotText
        },
        _ => if valid_utf8(bytes) {
            text_read(decode_utf8(bytes))
        } else {
            ReadOutcome::NotText
        },
    }
}

fn read_csv_file(bytes: &[u8], extension: &str) -> (r: Result<Vec<HashDbEntry>, HashError>)
    ensures
        reads_as(r, csv_read(bytes@, extension@)),
{
    let delimiter: u8 = csv_delimiter(extension);
    read_hashes_from_csv(bytes, delimiter)
}

/// The entries of the content of a file that is no SQL database.
pub fn read_hash_entries(extension: &str, bytes: &[u8]) -> (r: Result<
    Vec<HashDbEntry>,
    HashError,
>)
    requires
        extension_format(lowered(extension@)) != Some(HashFileFormat::Sqlite),
    ensures
        reads_as(r, file_read(extension@, bytes@)),
{
    let told = format_of_extension(extension);
    if let Some(HashFileFormat::Dat) = told {
        return read_hashes_from_dat(bytes);
    }
    if let Some(HashFileFormat::Csv) = told {
        return read_csv_file(bytes, extension);
    }
    let text = match from_utf8(bytes) {
        Some(t) => t,
        None => {
            proof {
                lemma_not_sql(decode_utf8(bytes@));
            }
            return Err(HashError::NotText);
        },
    };
    let format = match told {
        Some(f) => f,
        None => format_of_content(text.as_str()),
    };
    match format {
        HashFileFormat::Json => read_hashes_from_json(text.as_str()),
        HashFileFormat::JsonLines => read_hashes_from_jsonl(text.as_str()),
        HashFileFormat::Csv => read_csv_file(bytes, extension),
        _ => Ok(read_hashes_from_text(text.as_str())),
    }
}

/// Content is sniffed as JSON, a table or a list.
proof fn lemma_not_sql(text: Seq<char>)
    ensures
        content_format(text) is Json || content_format(text) is Csv || content_format(text) is Text,
{
}

/// What loading a database does to a matcher.
pub open spec fn loads_as(
    r: Result<usize, HashError>,
    outcome: ReadOutcome,
    before: MatcherView,
    after: MatcherView,
    source: Seq<char>,
) -> bool {
    match (r, outcome) {
        (Ok(loaded), ReadOutcome::Entries(entries)) => {
            let records = with_default(entries, source);
            after == before.add_records(records) && loaded == valid_records(records)
        },
        (Err(HashError::NotText), ReadOutcome::NotText) => after == before,
        (Err(HashError::Json(_)), ReadOutcome::NotJson) => after == before,
        (Err(HashError::Csv(_)), ReadOutcome::NotCsv) => after == before,
        (Err(HashError::MissingHeader { field }), ReadOutcome::MissingHeader(name)) => after
            == before && field@ == name,
        _ => false,
    }
}

/// What replacing the hashes of a matcher by a database does.
pub open spec fn replaces_as(
    r: Result<usize, HashError>,
    outcome: ReadOutcome,
    before: MatcherView,
    after: MatcherView,
    source: Seq<char>,
) -> bool {
    match (r, outcome) {
        (Ok(loaded), ReadOutcome::Entries(entries)) => {
            let records = with_default(entries, source);
            &&& after == MatcherView::empty(before.label).add_records(records)
            &&& loaded == valid_records(records)
            &&& loaded > 0
        },
        (Err(HashError::EmptyDatabase), ReadOutcome::Entries(entries)) => after == before
            && valid_records(with_default(entries, source)) == 0,
        (Err(HashError::NotText), ReadOutcome::NotText) => after == before,
        (Err(HashError::Json(_)), ReadOutcome::NotJson) => after == before,
        (Err(HashError::Csv(_)), ReadOutcome::NotCsv) => after == before,
        (Err(HashError::MissingHeader { field }), ReadOutcome::MissingHeader(name)) => after
            == before && field@ == name,
        _ => false,
    }
}

/// What reading an SQL table gives.
pub open spec fn sql_read(headers: Seq<String>, rows: Seq<Vec<SqlValue>>) -> ReadOutcome {
    if has_hash_column(texts(headers)) {
        ReadOutcome::Entries(sql_entries(texts(headers), sql_row_views(rows)))
    } else {
        ReadOutcome::MissingHeader("hash column"@)
    }
}

impl HashMatcher {
    /// Adds what was read, with `source` for entries that name none.
    fn load_read(&mut self, read: Result<Vec<HashDbEntry>, HashError>, source: &str) -> (r: Result<
        usize,
        HashError,
    >)
        ensures
            forall|outcome: ReadOutcome| #[trigger]
                reads_as(read, outcome) ==> loads_as(
                    r,
                    outcome,
                    old(self)@,
                    final(self)@,
                    source@,
                ),
    {
        match read {
            Ok(entries) => {
                let records = with_default_source(entries, source);
                Ok(self.load_records(records))
            },
            Err(error) => Err(error),
        }
    }

    fn replace_read(&mut self, read: Result<Vec<HashDbEntry>, HashError>, source: &str) -> (r:
        Result<usize, HashError>)
        ensures
            forall|outcome: ReadOutcome| #[trigger]
                reads_as(read, outcome) ==> replaces_as(
                    r,
                    outcome,
                    old(self)@,
                    final(self)@,
                    source@,
                ),
    {
        match read {
            Ok(entries) => {
                let records = with_default_source(entries, source);
                self.replace_records(records)
            },
            Err(error) => Err(error),
        }
    }

    /// Adds the hashes of a file that is no SQL database.
    pub fn load_from_file(&mut self, extension: &str, bytes: &[u8], source: &str) -> (r: Result<
        usize,
        HashError,
    >)
        requires
            extension_format(lowered(extension@)) != Some(HashFileFormat::Sqlite),
        ensures
            loads_as(
                r,
                file_read(extension@, bytes@),
                old(self)@,
                final(self)@,
                source@,
            ),
    {
        let read = read_hash_entries(extension, bytes);
        self.load_read(read, source)
    }

    /// Replaces all hashes by those of a file that is no SQL database. Nothing changes
    /// where the file cannot be read or holds no valid hash.
    pub fn replace_from_file(&mut self, extension: &str, bytes: &[u8], source: &str) -> (r: Result<
        usize,
        HashError,
    >)
        requires
            extension_format(lowered(extension@)) != Some(HashFileFormat::Sqlite),
        ensures
            replaces_as(
                r,
                file_read(extension@, bytes@),
                old(self)@,
                final(self)@,
                source@,
            ),
    {
        let read = read_hash_entries(extension, bytes);
        self.replace_read(read, source)
    }

    /// Adds the hashes of a table file.
    pub fn load_hashes_from_csv(&mut self, extension: &str, bytes: &[u8], source: &str) -> (r:
        Result<usize, HashError>)
        ensures
            loads_as(r, csv_read(bytes@, extension@), old(self)@, final(self)@, source@),
    {
        let read = read_csv_file(bytes, extension);
        self.load_read(read, source)
    }

    /// Adds the hashes of a JSON document.
    pub fn load_hashes_from_json(&mut self, text: &str, source: &str) -> (r: Result<
        usize,
        HashError,
    >)
        ensures
            loads_as(r, json_read(text@, false), old(self)@, final(self)@, source@),
    {
        let read = read_hashes_from_json(text);
        assert(reads_as(read, json_read(text@, false)));
        self.load_read(read, source)
    }

    /// Adds the hashes of a list, one to a line.
    pub fn load_hashes_from_text(&mut self, text: &str, source: &str) -> (loaded: usize)
        ensures
            loads_as(Ok(loaded), text_read(text@), old(self)@, final(self)@, source@),
    {
        let entries = read_hashes_from_text(text);
        let records = with_default_source(entries, source);
        self.load_records(records)
    }

    /// Adds the hashes of the rows of an SQL table.
    pub fn load_hashes_from_sqlite_db(
        &mut self,
        headers: &[String],
        rows: &[Vec<SqlValue>],
        source: &str,
    ) -> (r: Result<usize, HashError>)
        ensures
            loads_as(r, sql_read(headers@, rows@), old(self)@, final(self)@, source@),
    {
        let read = read_hashes_from_sqlite_table(headers, rows);
        assert(reads_as(read, sql_read(headers@, rows@)));
        self.load_read(read, source)
    }

    /// Replaces all hashes by those of the rows of an SQL table. Nothing changes where the
    /// table holds no valid hash.
    pub fn replace_hashes_from_sqlite_db(
        &mut self,
        headers: &[String],
        rows: &[Vec<SqlValue>],
        source: &str,
    ) -> (r: Result<usize, HashError>)
        ensures
            replaces_as(r, sql_read(headers@, rows@), old(self)@, final(self)@, source@),
    {
        let read = read_hashes_from_sqlite_table(headers, rows);
        assert(reads_as(read, sql_read(headers@, rows@)));
        self.replace_read(read, source)
    }
}

/// A database that holds no valid hash, or cannot be read, never replaces the hashes of a
/// matcher.
pub proof fn law_failed_replacement_changes_nothing(
    r: Result<usize, HashError>,
    outcome: ReadOutcome,
    before: MatcherView,
    after: MatcherView,
    source: Seq<char>,
)
    requires
        replaces_as(r, outcome, before, after, source),
        r is Err,
    ensures
        after == before,
{
}

/// A replacement that counts rows counts at least one, and the matcher then holds at least
/// one entry, no more than the rows, and none that the new database does not give.
pub proof fn law_replacement_holds_the_new_database(
    loaded: usize,
    entries: Seq<DbEntryView>,
    before: MatcherView,
    after: MatcherView,
    source: Seq<char>,
)
    requires
        replaces_as(Ok(loaded), ReadOutcome::Entries(entries), before, after, source),
    ensures
        loaded >= 1,
        after.exact.dom().finite(),
        1 <= after.exact.len() + after.fuzzy.len() <= loaded,
        after.label == before.label,
        forall|hash: Seq<char>| #[trigger]
            after.exact.contains_key(hash) ==> row_gives_exact(
                with_default(entries, source),
                hash,
            ),
        forall|k: int|
            0 <= k < after.fuzzy.len() ==> row_gives_fuzzy(
                with_default(entries, source),
                (#[trigger] after.fuzzy[k]).signature,
            ),
{
    law_database_gives_all_entries(before.label, with_default(entries, source));
    lemma_records_keep_label(MatcherView::empty(before.label), with_default(entries, source));
}

proof fn lemma_records_keep_label(matcher: MatcherView, entries: Seq<DbEntryView>)
    ensures
        matcher.add_records(entries).label == matcher.label,
    decreases entries.len(),
{
    if entries.len() > 0 {
        lemma_records_keep_label(matcher, entries.drop_last());
    }
}

} // verus!
