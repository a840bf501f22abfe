//! Hash databases in tables: CSV files and the rows of an SQL database.

use crate::hash::columns::{column_algorithm, column_name, db_entries, db_entry};
use crate::hash::columns::{hash_column_algorithm, is_malicious_column, is_source_column};
use crate::hash::columns::{names_source, names_verdict, normalize_column_name};
use crate::hash::columns::{parse_malicious_value, push_entry, verdict, DbEntryView, HashDbEntry};
use crate::hash::error::HashError;
use crate::text::{concat2, decimal, decimal_text, from_utf8_lossy, lossy_text, same_text, texts};
use crate::text::{lower, lowered, trim, trimmed};
use vstd::prelude::*;

verus! {

/// The header fields of a CSV text.
pub uninterp spec fn csv_header_fields(bytes: Seq<u8>, delimiter: u8) -> Option<Seq<Seq<char>>>;

/// The fields of each record of a CSV text after its header.
pub uninterp spec fn csv_record_fields(bytes: Seq<u8>, delimiter: u8) -> Option<
    Seq<Seq<Seq<char>>>,
>;

pub open spec fn row_views(rows: Seq<Vec<String>>) -> Seq<Seq<Seq<char>>> {
    rows.map_values(|r: Vec<String>| texts(r@))
}

/// `csv::Reader::headers` of a reader with a header row, records of any length and white
/// space trimmed: the fields of the first record, if it can be read.
#[verifier::external_body]
fn csv_headers(bytes: &[u8], delimiter: u8) -> (r: Result<Vec<String>, csv::Error>)
    ensures
        match r {
            Ok(fields) => csv_header_fields(bytes@, delimiter) == Some(texts(fields@)),
            Err(_) => csv_header_fields(bytes@, delimiter) is None,
        },
{
    csv::ReaderBuilder::new()
        .has_headers(true)
        .flexible(true)
        .delimiter(delimiter)
        .trim(csv::Trim::All)
        .from_reader(bytes)
        .headers()
        .map(|fields| fields.iter().map(str::to_string).collect())
}

/// `csv::Reader::into_records` of a reader with a header row, records of any length and
/// white space trimmed: the fields of the records after the first, if all can be read.
#[verifier::external_body]
fn csv_records(bytes: &[u8], delimiter: u8) -> (r: Result<Vec<Vec<String>>, csv::Error>)
    ensures
        match r {
            Ok(rows) => csv_record_fields(bytes@, delimiter) == Some(row_views(rows@)),
            Err(_) => csv_record_fields(bytes@, delimiter) is None,
        },
{
    csv::ReaderBuilder::new()
        .has_headers(true)
        .flexible(true)
        .delimiter(delimiter)
        .trim(csv::Trim::All)
        .from_reader(bytes)
        .into_records()
        .map(|row| row.map(|fields| fields.iter().map(str::to_string).collect()))
        .collect()
}

/// The column named `algorithm`.
pub open spec fn algorithm_column(headers: Seq<Seq<char>>) -> int
    decreases headers.len(),
{
    if headers.len() == 0 || column_name(headers[0]) == "algorithm"@ {
        0
    } else {
        1 + algorithm_column(headers.skip(1))
    }
}

/// The first column that holds verdicts, or the number of columns.
pub open spec fn verdict_column(headers: Seq<Seq<char>>) -> int
    decreases headers.len(),
{
    if headers.len() == 0 || names_verdict(headers[0]) {
        0
    } else {
        1 + verdict_column(headers.skip(1))
    }
}

/// The first column that holds sources, or the number of columns.
pub open spec fn source_column(headers: Seq<Seq<char>>) -> int
    decreases headers.len(),
{
    if headers.len() == 0 || names_source(headers[0]) {
        0
    } else {
        1 + source_column(headers.skip(1))
    }
}

/// Some column holds hashes.
pub open spec fn has_hash_column(headers: Seq<Seq<char>>) -> bool {
    exists|i: int| 0 <= i < headers.len() && column_algorithm(#[trigger] headers[i]) is Some
}

/// Where the columns of a table stand that say something of the whole row.
#[derive(Clone, Copy)]
pub struct Columns {
    pub algorithm: usize,
    pub malicious: usize,
    pub source: usize,
}

pub open spec fn columns_of(columns: Columns, headers: Seq<Seq<char>>) -> bool {
    &&& columns.algorithm == algorithm_column(headers)
    &&& columns.malicious == verdict_column(headers)
    &&& columns.source == source_column(headers)
}

/// What a row says of all its hashes.
pub struct RowFacts {
    pub algorithm: Seq<char>,
    pub is_malicious: bool,
    pub source: Seq<char>,
}

/// The entry of a hash in column `i`.
pub open spec fn cell_entry(
    headers: Seq<Seq<char>>,
    i: int,
    hash: Seq<char>,
    row: RowFacts,
) -> DbEntryView {
    let fixed = column_algorithm(headers[i])->0;
    db_entry(
        hash,
        if fixed.len() == 0 {
            row.algorithm
        } else {
            fixed
        },
        row.is_malicious,
        row.source,
    )
}

/// The entries of the first `n` columns of a row whose hashes are `hash_at`.
pub open spec fn row_entries(
    headers: Seq<Seq<char>>,
    hash_at: Seq<Option<Seq<char>>>,
    row: RowFacts,
    n: nat,
) -> Seq<DbEntryView>
    decreases n,
{
    if n == 0 {
        Seq::empty()
    } else {
        let before = row_entries(headers, hash_at, row, (n - 1) as nat);
        if column_algorithm(headers[n - 1]) is Some && n - 1 < hash_at.len() && hash_at[n
            - 1] is Some {
            before.push(cell_entry(headers, n - 1, hash_at[n - 1]->0, row))
        } else {
            before
        }
    }
}

/// The field of a record, if it is that long.
pub open spec fn field_at(record: Seq<Seq<char>>, i: int) -> Option<Seq<char>> {
    if i < record.len() {
        Some(record[i])
    } else {
        None
    }
}

/// What a record says of all its hashes.
pub open spec fn record_facts(headers: Seq<Seq<char>>, record: Seq<Seq<char>>) -> RowFacts {
    RowFacts {
        algorithm: match column_field(headers, record, algorithm_column(headers)) {
            Some(a) => if trimmed(a).len() > 0 {
                a
            } else {
                "exact"@
            },
            None => "exact"@,
        },
        is_malicious: match column_field(headers, record, verdict_column(headers)) {
            Some(v) => match verdict(v, true) {
                Some(b) => b,
                None => true,
            },
            None => true,
        },
        source: match column_field(headers, record, source_column(headers)) {
            Some(s) => trimmed(s),
            None => Seq::empty(),
        },
    }
}

/// The field of a record in a column, where there is such a column.
pub open spec fn column_field(headers: Seq<Seq<char>>, record: Seq<Seq<char>>, i: int) -> Option<
    Seq<char>,
> {
    if i < headers.len() {
        field_at(record, i)
    } else {
        None
    }
}

/// The hashes in the fields of a record: what is not blank.
pub open spec fn record_hashes(record: Seq<Seq<char>>) -> Seq<Option<Seq<char>>> {
    record.map_values(
        |f: Seq<char>|
            if trimmed(f).len() > 0 {
                Some(trimmed(f))
            } else {
                None
            },
    )
}

/// The entries of a record.
pub open spec fn record_entries(headers: Seq<Seq<char>>, record: Seq<Seq<char>>) -> Seq<DbEntryView> {
    row_entries(
        headers,
        record_hashes(record),
        record_facts(headers, record),
        headers.len(),
    )
}

/// The entries of all records.
pub open spec fn table_entries(headers: Seq<Seq<char>>, rows: Seq<Seq<Seq<char>>>) -> Seq<
    DbEntryView,
>
    decreases rows.len(),
{
    if rows.len() == 0 {
        Seq::empty()
    } else {
        table_entries(headers, rows.drop_last()) + record_entries(headers, rows.last())
    }
}

fn find_column(headers: &[String], wanted: ColumnKind) -> (at: usize)
    ensures
        at == (match wanted {
            ColumnKind::Algorithm => algorithm_column(texts(headers@)),
            ColumnKind::Verdict => verdict_column(texts(headers@)),
            ColumnKind::Source => source_column(texts(headers@)),
        }),
{
    let ghost views = texts(headers@);
    let mut i: usize = 0;
    assert(views.skip(0) =~= views);
    while i < headers.len()
        invariant
            i <= headers@.len(),
            views == texts(headers@),
            wanted == ColumnKind::Algorithm ==> algorithm_column(views) == i + algorithm_column(
                views.skip(i as int),
            ),
            wanted == ColumnKind::Verdict ==> verdict_column(views) == i + verdict_column(
                views.skip(i as int),
            ),
            wanted == ColumnKind::Source ==> source_column(views) == i + source_column(
                views.skip(i as int),
            ),
        decreases headers@.len() - i,
    {
        let name = headers[i].as_str();
        assert(views.skip(i as int)[0] == name@);
        let found = match wanted {
            ColumnKind::Algorithm => same_text(normalize_column_name(name).as_str(), "algorithm"),
            ColumnKind::Verdict => is_malicious_column(name),
            ColumnKind::Source => is_source_column(name),
        };
        if found {
            return i;
        }
        assert(views.skip(i as int).skip(1) =~= views.skip(i + 1));
        i = i + 1;
    }
    i
}

#[derive(Clone, Copy, PartialEq, Eq, Structural)]
enum ColumnKind {
    Algorithm,
    Verdict,
    Source,
}

fn find_columns(headers: &[String]) -> (columns: Columns)
    ensures
        columns_of(columns, texts(headers@)),
{
    Columns {
        algorithm: find_column(headers, ColumnKind::Algorithm),
        malicious: find_column(headers, ColumnKind::Verdict),
        source: find_column(headers, ColumnKind::Source),
    }
}

fn any_hash_column(headers: &[String]) -> (b: bool)
    ensures
        b == has_hash_column(texts(headers@)),
{
    let mut i: usize = 0;
    while i < headers.len()
        invariant
            i <= headers@.len(),
            forall|k: int|
                0 <= k < i ==> column_algorithm(#[trigger] texts(headers@)[k]) is None,
        decreases headers@.len() - i,
    {
        assert(texts(headers@)[i as int] == headers@[i as int]@);
        if hash_column_algorithm(headers[i].as_str()).is_some() {
            return true;
        }
        i = i + 1;
    }
    false
}

/// Appends the entry of a hash in column `i`.
fn push_cell(
    entries: &mut Vec<HashDbEntry>,
    fixed: &str,
    hash: String,
    algorithm: &str,
    is_malicious: bool,
    source: &str,
)
    ensures
        db_entries(final(entries)@) == db_entries(old(entries)@).push(
            db_entry(
                hash@,
                if fixed@.len() == 0 {
                    algorithm@
                } else {
                    fixed@
                },
                is_malicious,
                source@,
            ),
        ),
{
    let name = if fixed.unicode_len() == 0 {
        algorithm.to_owned()
    } else {
        fixed.to_owned()
    };
    push_entry(
        entries,
        HashDbEntry { hash, algorithm: name, is_malicious, source: source.to_owned() },
    );
}

/// Appends the entries of a record.
fn push_record(
    entries: &mut Vec<HashDbEntry>,
    headers: &[String],
    columns: &Columns,
    record: &Vec<String>,
)
    requires
        columns_of(*columns, texts(headers@)),
    ensures
        db_entries(final(entries)@) == db_entries(old(entries)@) + record_entries(
            texts(headers@),
            texts(record@),
        ),
{
    let ghost names = texts(headers@);
    let ghost fields = texts(record@);
    let ghost row = record_facts(names, fields);
    let ghost hashes = record_hashes(fields);
    let size: usize = record.len();
    let width: usize = headers.len();
    let mut algorithm = "exact".to_owned();
    if columns.algorithm < width && columns.algorithm < size {
        assert(fields[columns.algorithm as int] == record@[columns.algorithm as int]@);
        if trim(record[columns.algorithm].as_str()).as_str().unicode_len() > 0 {
            algorithm = record[columns.algorithm].clone();
        }
    }
    let mut is_malicious = true;
    if columns.malicious < width && columns.malicious < size {
        assert(fields[columns.malicious as int] == record@[columns.malicious as int]@);
        if let Some(b) = parse_malicious_value(record[columns.malicious].as_str(), true) {
            is_malicious = b;
        }
    }
    let mut source = String::new();
    assert(source@ =~= Seq::empty());
    if columns.source < width && columns.source < size {
        assert(fields[columns.source as int] == record@[columns.source as int]@);
        source = trim(record[columns.source].as_str());
    }
    assert(row.algorithm == algorithm@ && row.is_malicious == is_malicious && row.source
        == source@);
    let mut i: usize = 0;
    assert(db_entries(entries@) =~= db_entries(old(entries)@) + row_entries(names, hashes, row, 0));
    while i < width
        invariant
            i <= width == headers@.len(),
            size == record@.len(),
            names == texts(headers@),
            fields == texts(record@),
            hashes == record_hashes(fields),
            row.algorithm == algorithm@ && row.is_malicious == is_malicious && row.source
                == source@,
            db_entries(entries@) == db_entries(old(entries)@) + row_entries(
                names,
                hashes,
                row,
                i as nat,
            ),
        decreases width - i,
    {
        let ghost before = row_entries(names, hashes, row, i as nat);
        assert(names[i as int] == headers@[i as int]@);
        if let Some(fixed) = hash_column_algorithm(headers[i].as_str()) {
            if i < size {
                assert(fields[i as int] == record@[i as int]@);
                let hash = trim(record[i].as_str());
                if hash.as_str().unicode_len() > 0 {
                    push_cell(
                        entries,
                        fixed,
                        hash,
                        algorithm.as_str(),
                        is_malicious,
                        source.as_str(),
                    );
                }
            }
        }
        assert(db_entries(entries@) =~= db_entries(old(entries)@) + row_entries(
            names,
            hashes,
            row,
            (i + 1) as nat,
        ));
        i = i + 1;
    }
}

/// What reading a CSV database gives: an error where the header cannot be read, else one
/// where no column holds hashes, else one where a record cannot be read, else the entries.
pub enum CsvOutcome {
    Unreadable,
    NoHashColumn,
    Entries(Seq<DbEntryView>),
}

pub open spec fn csv_outcome(bytes: Seq<u8>, delimiter: u8) -> CsvOutcome {
    match csv_header_fields(bytes, delimiter) {
        None => CsvOutcome::Unreadable,
        Some(headers) => {
            if !has_hash_column(headers) {
                CsvOutcome::NoHashColumn
            } else {
                match csv_record_fields(bytes, delimiter) {
                    None => CsvOutcome::Unreadable,
                    Some(rows) => CsvOutcome::Entries(table_entries(headers, rows)),
                }
            }
        },
    }
}

/// The delimiter of a table file: a tab where the extension says so.
pub fn csv_delimiter(extension: &str) -> (delimiter: u8)
    ensures
        delimiter == (if lowered(extension@) == "tsv"@ {
            9u8
        } else {
            44u8
        }),
{
    let low = lower(extension);
    if same_text(low.as_str(), "tsv") {
        9
    } else {
        44
    }
}

/// The entries of the records of a table with these headers.
pub fn entries_of_records(headers: &[String], rows: &[Vec<String>]) -> (entries: Vec<HashDbEntry>)
    ensures
        db_entries(entries@) == table_entries(texts(headers@), row_views(rows@)),
{
    let columns = find_columns(headers);
    let ghost names = texts(headers@);
    let ghost views = row_views(rows@);
    let mut entries: Vec<HashDbEntry> = Vec::new();
    let mut i: usize = 0;
    assert(db_entries(entries@) =~= Seq::empty());
    while i < rows.len()
        invariant
            i <= rows@.len(),
            names == texts(headers@),
            views == row_views(rows@),
            columns_of(columns, names),
            db_entries(entries@) == table_entries(names, views.take(i as int)),
        decreases rows@.len() - i,
    {
        assert(views.take(i + 1).drop_last() =~= views.take(i as int));
        assert(views.take(i + 1).last() == texts(rows@[i as int]@));
        push_record(&mut entries, headers, &columns, &rows[i]);
        i = i + 1;
    }
    assert(views.take(i as int) =~= views);
    entries
}

/// The entries of a CSV database. Columns are found by their names: a generic hash column
/// with an algorithm beside it, or one column for each algorithm.
pub fn read_hashes_from_csv(bytes: &[u8], delimiter: u8) -> (r: Result<
    Vec<HashDbEntry>,
    HashError,
>)
    ensures
        match r {
            Ok(entries) => csv_outcome(bytes@, delimiter) == CsvOutcome::Entries(
                db_entries(entries@),
            ),
            Err(HashError::Csv(_)) => csv_outcome(bytes@, delimiter) == CsvOutcome::Unreadable,
            Err(HashError::MissingHeader { field }) => csv_outcome(bytes@, delimiter)
                == CsvOutcome::NoHashColumn && field@ == "hash column"@,
            Err(_) => false,
        },
{
    let headers = match csv_headers(bytes, delimiter) {
        Ok(fields) => fields,
        Err(source) => {
            return Err(HashError::Csv(source));
        },
    };
    if !any_hash_column(&headers) {
        return Err(HashError::MissingHeader { field: "hash column".to_owned() });
    }
    match csv_records(bytes, delimiter) {
        Ok(rows) => Ok(entries_of_records(&headers, &rows)),
        Err(source) => Err(HashError::Csv(source)),
    }
}

/// One value of an SQL row.
#[derive(Debug)]
pub enum SqlValue {
    Null,
    Integer(i64),
    /// A real number: as text, and whether it is zero.
    Real { text: String, is_zero: bool },
    Text(Vec<u8>),
    Blob,
}

pub enum SqlView {
    Null,
    Integer(i64),
    Real { text: Seq<char>, is_zero: bool },
    Text(Seq<u8>),
    Blob,
}

impl View for SqlValue {
    type V = SqlView;

    open spec fn view(&self) -> SqlView {
        match self {
            SqlValue::Null => SqlView::Null,
            SqlValue::Integer(n) => SqlView::Integer(*n),
            SqlValue::Real { text, is_zero } => SqlView::Real { text: text@, is_zero: *is_zero },
            SqlValue::Text(bytes) => SqlView::Text(bytes@),
            SqlValue::Blob => SqlView::Blob,
        }
    }
}

pub open spec fn sql_views(row: Seq<SqlValue>) -> Seq<SqlView> {
    row.map_values(|v: SqlValue| v@)
}

/// The decimal digits of a number, behind a sign where it is negative.
pub open spec fn signed_decimal(n: int) -> Seq<char> {
    if n < 0 {
        "-"@ + decimal((-n) as nat)
    } else {
        decimal(n as nat)
    }
}

/// A value as text.
pub open spec fn sql_text(value: SqlView) -> Option<Seq<char>> {
    match value {
        SqlView::Text(bytes) => Some(lossy_text(bytes)),
        SqlView::Integer(n) => Some(signed_decimal(n as int)),
        SqlView::Real { text, .. } => Some(text),
        SqlView::Blob | SqlView::Null => None,
    }
}

/// A value as a verdict.
pub open spec fn sql_verdict(value: SqlView) -> Option<bool> {
    match value {
        SqlView::Integer(n) => Some(n != 0),
        SqlView::Real { is_zero, .. } => Some(!is_zero),
        SqlView::Text(bytes) => verdict(lossy_text(bytes), true),
        SqlView::Blob | SqlView::Null => None,
    }
}

pub fn signed_decimal_text(n: i64) -> (s: String)
    ensures
        s@ == signed_decimal(n as int),
{
    if n < 0 {
        let size: u64 = (-(n as i128)) as u64;
        concat2("-", decimal_text(size).as_str())
    } else {
        decimal_text(n as u64)
    }
}

pub fn sqlite_value_to_string(value: &SqlValue) -> (text: Option<String>)
    ensures
        match text {
            Some(t) => sql_text(value@) == Some(t@),
            None => sql_text(value@) is None,
        },
{
    match value {
        SqlValue::Text(bytes) => Some(from_utf8_lossy(bytes)),
        SqlValue::Integer(n) => Some(signed_decimal_text(*n)),
        SqlValue::Real { text, .. } => Some(text.clone()),
        SqlValue::Blob => None,
        SqlValue::Null => None,
    }
}

pub fn sqlite_value_to_bool(value: &SqlValue) -> (b: Option<bool>)
    ensures
        b == sql_verdict(value@),
{
    match value {
        SqlValue::Integer(n) => Some(*n != 0),
        SqlValue::Real { is_zero, .. } => Some(!*is_zero),
        SqlValue::Text(bytes) => {
            let text = from_utf8_lossy(bytes);
            parse_malicious_value(text.as_str(), true)
        },
        SqlValue::Blob => None,
        SqlValue::Null => None,
    }
}

/// The value of a row in a column, where there is such a column.
pub open spec fn column_value(headers: Seq<Seq<char>>, row: Seq<SqlView>, i: int) -> SqlView {
    if i < headers.len() && i < row.len() {
        row[i]
    } else {
        SqlView::Null
    }
}

/// What a row says of all its hashes.
pub open spec fn sql_facts(headers: Seq<Seq<char>>, row: Seq<SqlView>) -> RowFacts {
    RowFacts {
        algorithm: match sql_text(column_value(headers, row, algorithm_column(headers))) {
            Some(a) => a,
            None => "exact"@,
        },
        is_malicious: match sql_verdict(column_value(headers, row, verdict_column(headers))) {
            Some(b) => b,
            None => true,
        },
        source: match sql_text(column_value(headers, row, source_column(headers))) {
            Some(s) => s,
            None => Seq::empty(),
        },
    }
}

/// The hashes in the values of a row: what has text that is not blank.
pub open spec fn sql_hashes(row: Seq<SqlView>) -> Seq<Option<Seq<char>>> {
    row.map_values(
        |v: SqlView|
            match sql_text(v) {
                Some(t) => if trimmed(t).len() > 0 {
                    Some(t)
                } else {
                    None
                },
                None => None,
            },
    )
}

pub open spec fn sql_row_entries(headers: Seq<Seq<char>>, row: Seq<SqlView>) -> Seq<DbEntryView> {
    row_entries(headers, sql_hashes(row), sql_facts(headers, row), headers.len())
}

pub open spec fn sql_row_views(rows: Seq<Vec<SqlValue>>) -> Seq<Seq<SqlView>> {
    rows.map_values(|r: Vec<SqlValue>| sql_views(r@))
}

pub open spec fn sql_entries(headers: Seq<Seq<char>>, rows: Seq<Seq<SqlView>>) -> Seq<DbEntryView>
    decreases rows.len(),
{
    if rows.len() == 0 {
        Seq::empty()
    } else {
        sql_entries(headers, rows.drop_last()) + sql_row_entries(headers, rows.last())
    }
}

/// Appends the entries of an SQL row.
fn push_sql_row(
    entries: &mut Vec<HashDbEntry>,
    headers: &[String],
    columns: &Columns,
    row: &Vec<SqlValue>,
)
    requires
        columns_of(*columns, texts(headers@)),
    ensures
        db_entries(final(entries)@) == db_entries(old(entries)@) + sql_row_entries(
            texts(headers@),
            sql_views(row@),
        ),
{
    let ghost names = texts(headers@);
    let ghost values = sql_views(row@);
    let ghost facts = sql_facts(names, values);
    let ghost hashes = sql_hashes(values);
    let size: usize = row.len();
    let width: usize = headers.len();
    let mut algorithm = "exact".to_owned();
    if columns.algorithm < width && columns.algorithm < size {
        assert(values[columns.algorithm as int] == row@[columns.algorithm as int]@);
        if let Some(a) = sqlite_value_to_string(&row[columns.algorithm]) {
            algorithm = a;
        }
    }
    let mut is_malicious = true;
    if columns.malicious < width && columns.malicious < size {
        assert(values[columns.malicious as int] == row@[columns.malicious as int]@);
        if let Some(b) = sqlite_value_to_bool(&row[columns.malicious]) {
            is_malicious = b;
        }
    }
    let mut source = String::new();
    assert(source@ =~= Seq::empty());
    if columns.source < width && columns.source < size {
        assert(values[columns.source as int] == row@[columns.source as int]@);
        if let Some(s) = sqlite_value_to_string(&row[columns.source]) {
            source = s;
        }
    }
    assert(facts.algorithm == algorithm@ && facts.is_malicious == is_malicious && facts.source
        == source@);
    let mut i: usize = 0;
    assert(db_entries(entries@) =~= db_entries(old(entries)@) + row_entries(
        names,
        hashes,
        facts,
        0,
    ));
    while i < width
        invariant
            i <= width == headers@.len(),
            size == row@.len(),
            names == texts(headers@),
            values == sql_views(row@),
            hashes == sql_hashes(values),
            facts.algorithm == algorithm@ && facts.is_malicious == is_malicious && facts.source
                == source@,
            db_entries(entries@) == db_entries(old(entries)@) + row_entries(
                names,
                hashes,
                facts,
                i as nat,
            ),
        decreases width - i,
    {
        assert(names[i as int] == headers@[i as int]@);
        if let Some(fixed) = hash_column_algorithm(headers[i].as_str()) {
            if i < size {
                assert(values[i as int] == row@[i as int]@);
                if let Some(hash) = sqlite_value_to_string(&row[i]) {
                    if trim(hash.as_str()).as_str().unicode_len() > 0 {
                        push_cell(
                            entries,
                            fixed,
                            hash,
                            algorithm.as_str(),
                            is_malicious,
                            source.as_str(),
                        );
                    }
                }
            }
        }
        assert(db_entries(entries@) =~= db_entries(old(entries)@) + row_entries(
            names,
            hashes,
            facts,
            (i + 1) as nat,
        ));
        i = i + 1;
    }
}

/// The entries of the rows of an SQL table with these columns.
pub fn read_hashes_from_sqlite_table(headers: &[String], rows: &[Vec<SqlValue>]) -> (r: Result<
    Vec<HashDbEntry>,
    HashError,
>)
    ensures
        match r {
            Ok(entries) => has_hash_column(texts(headers@)) && db_entries(entries@) == sql_entries(
                texts(headers@),
                sql_row_views(rows@),
            ),
            Err(HashError::MissingHeader { field }) => !has_hash_column(texts(headers@)) && field@
                == "hash column"@,
            Err(_) => false,
        },
{
    if !any_hash_column(headers) {
        return Err(HashError::MissingHeader { field: "hash column".to_owned() });
    }
    let columns = find_columns(headers);
    let ghost names = texts(headers@);
    let ghost views = sql_row_views(rows@);
    let mut entries: Vec<HashDbEntry> = Vec::new();
    let mut i: usize = 0;
    assert(db_entries(entries@) =~= Seq::empty());
    while i < rows.len()
        invariant
            i <= rows@.len(),
            names == texts(headers@),
            views == sql_row_views(rows@),
            columns_of(columns, names),
            db_entries(entries@) == sql_entries(names, views.take(i as int)),
        decreases rows@.len() - i,
    {
        assert(views.take(i + 1).drop_last() =~= views.take(i as int));
        assert(views.take(i + 1).last() == sql_views(rows@[i as int]@));
        push_sql_row(&mut entries, headers, &columns, &rows[i]);
        i = i + 1;
    }
    assert(views.take(i as int) =~= views);
    Ok(entries)
}

/// The table of an SQL database that holds the hashes, if there is one: the current schema
/// before the legacy one.
pub fn hash_table_name(has_hashes: bool, has_legacy: bool) -> (r: Result<&'static str, HashError>)
    ensures
        match r {
            Ok(name) => if has_hashes {
                name@ == "hashes"@
            } else {
                has_legacy && name@ == "HashDB"@
            },
            Err(HashError::MissingHeader { field }) => !has_hashes && !has_legacy && field@
                == "hashes or HashDB table"@,
            Err(_) => false,
        },
{
    if has_hashes {
        Ok("hashes")
    } else if has_legacy {
        Ok("HashDB")
    } else {
        Err(HashError::MissingHeader { field: "hashes or HashDB table".to_owned() })
    }
}

} // verus!
