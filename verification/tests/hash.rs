use heliosav_layers::hash::columns::{make_hash_entry, normalize_hash};
use heliosav_layers::hash::distance::{has_common_substring_7, levenshtein, longest_common};
use heliosav_layers::hash::error::HashError;
use heliosav_layers::hash::files::read_hash_entries;
use heliosav_layers::hash::fuzzy::{ssdeep_block_size, ssdeep_hash_bytes};
use heliosav_layers::hash::lines::{parse_clamav_hash_line, parse_text_hash_line};
use heliosav_layers::hash::matcher::{
    compute_exact_hashes, sort_verdicts, BatchVerdict, HashMatcher,
};
use heliosav_layers::hash::similarity::{
    fuzzy_algorithm_name, fuzzy_similarity, normalize_fuzzy_hash, parse_fuzzy_signature,
    FUZZY_MATCH_THRESHOLD,
};
use heliosav_layers::hash::tables::{
    hash_table_name, read_hashes_from_csv, sqlite_value_to_bool, sqlite_value_to_string, SqlValue,
};
use rusqlite::types::ValueRef;
use rusqlite::Connection;

fn sha256_hex(data: &[u8]) -> String {
    hex::encode(<sha2::Sha256 as sha2::Digest>::digest(data))
}

fn sha512_hex(data: &[u8]) -> String {
    hex::encode(<sha2::Sha512 as sha2::Digest>::digest(data))
}

fn sha1_hex(data: &[u8]) -> String {
    hex::encode(<sha1::Sha1 as sha1::Digest>::digest(data))
}

fn md5_hex(data: &[u8]) -> String {
    hex::encode(<md5::Md5 as md5::Digest>::digest(data))
}

fn database() -> Connection {
    Connection::open_in_memory().expect("open sqlite db")
}

fn sql_value(value: ValueRef) -> SqlValue {
    match value {
        ValueRef::Null => SqlValue::Null,
        ValueRef::Integer(n) => SqlValue::Integer(n),
        ValueRef::Real(x) => SqlValue::Real {
            text: x.to_string(),
            is_zero: x == 0.0,
        },
        ValueRef::Text(bytes) => SqlValue::Text(bytes.to_vec()),
        ValueRef::Blob(_) => SqlValue::Blob,
    }
}

fn table(connection: &Connection) -> Result<(Vec<String>, Vec<Vec<SqlValue>>), HashError> {
    let exists = |name: &str| {
        connection
            .query_row(
                "SELECT count(*) FROM sqlite_master WHERE type = 'table' AND name = ?1",
                [name],
                |row| row.get::<_, i64>(0),
            )
            .expect("count tables")
            > 0
    };
    let name = hash_table_name(exists("hashes"), exists("HashDB"))?;
    let mut statement = connection
        .prepare(&format!("SELECT * FROM {name}"))
        .expect("prepare");
    let headers: Vec<String> = statement
        .column_names()
        .map(|column| column.to_string())
        .collect();
    let width = headers.len();
    let mut rows = statement.query([]).expect("query");
    let mut values = Vec::new();
    while let Some(row) = rows.next().expect("row") {
        values.push(
            (0..width)
                .map(|index| sql_value(row.get_ref(index).expect("value")))
                .collect(),
        );
    }
    Ok((headers, values))
}

const HASHES_TABLE: &str = "CREATE TABLE hashes (hash TEXT PRIMARY KEY, algorithm TEXT, source TEXT, first_seen TEXT, meta TEXT)";

#[test]
fn test_load_hashes_from_sqlite_db() {
    let connection = database();
    connection.execute(HASHES_TABLE, []).expect("create hashes table");
    let sha256_hash = "0".repeat(64);
    connection
        .execute(
            "INSERT INTO hashes (hash, algorithm, source, first_seen, meta) VALUES (?1, ?2, 'test', NULL, '{}')",
            [sha256_hash.as_str(), "sha256"],
        )
        .expect("insert sha256 hash");

    let mut matcher = HashMatcher::new(None);
    let (headers, rows) = table(&connection).expect("hash table");
    let loaded = matcher
        .load_hashes_from_sqlite_db(&headers, &rows, "hashes.sqlite")
        .expect("load sqlite db");
    assert_eq!(loaded, 1);
    assert_eq!(matcher.entry_count(), 1);
}

#[test]
fn test_match_file_returns_match_for_loaded_sqlite_hash() {
    let connection = database();
    connection.execute(HASHES_TABLE, []).expect("create hashes table");
    let sample_hash = sha256_hex(b"sample-content");
    connection
        .execute(
            "INSERT INTO hashes (hash, algorithm, source, first_seen, meta) VALUES (?1, ?2, 'test', NULL, '{}')",
            [sample_hash.as_str(), "sha256"],
        )
        .expect("insert sample hash");

    let mut matcher = HashMatcher::new_with_label(None, "local_db".to_string());
    let (headers, rows) = table(&connection).expect("hash table");
    matcher
        .load_hashes_from_sqlite_db(&headers, &rows, "hashes.sqlite")
        .expect("load sqlite db");
    let matched = matcher.match_file(b"sample-content");
    assert!(matched.is_some());
    assert_eq!(matched.unwrap().label, "local_db");
}

#[test]
fn test_load_fuzzy_hash_from_sqlite_algorithm_column() {
    let original: Vec<u8> = (0..20_000).map(|index| (index % 251) as u8).collect();
    let signature = ssdeep_hash_bytes(&original);
    let mut edited = original;
    edited[12_345] ^= 0x5a;

    let connection = database();
    connection.execute(HASHES_TABLE, []).expect("create hashes table");
    connection
        .execute(
            "INSERT INTO hashes (hash, algorithm, source, first_seen, meta) VALUES (?1, 'fuzzy', 'test', NULL, '{}')",
            [signature.as_str()],
        )
        .expect("insert fuzzy hash");

    let mut matcher = HashMatcher::new_with_label(None, "fuzzy_sqlite".to_string());
    let (headers, rows) = table(&connection).expect("hash table");
    assert_eq!(
        matcher
            .load_hashes_from_sqlite_db(&headers, &rows, "fuzzy.sqlite")
            .expect("load sqlite"),
        1
    );
    let matched = matcher.match_file(&edited).expect("expected fuzzy match");
    assert_eq!(matched.algorithm, "ssdeep");
}

#[test]
fn test_load_and_match_legacy_md5_database() {
    let sample_hash = md5_hex(b"legacy sample");
    let connection = database();
    connection
        .execute("CREATE TABLE HashDB (hash TEXT NOT NULL, name TEXT NOT NULL)", [])
        .expect("create legacy table");
    connection
        .execute(
            "INSERT INTO HashDB (hash, name) VALUES (?1, ?2)",
            [sample_hash.as_str(), "legacy-malware"],
        )
        .expect("insert hash");

    let mut matcher = HashMatcher::new_with_label(None, "legacy_db".to_string());
    let (headers, rows) = table(&connection).expect("legacy table");
    assert_eq!(
        matcher
            .load_hashes_from_sqlite_db(&headers, &rows, "HashDB.db")
            .expect("load legacy db"),
        1
    );
    let matched = matcher.match_file(b"legacy sample");
    assert!(matched.is_some());
    assert_eq!(matched.unwrap().hash.len(), 32);

    let invalid = database();
    assert!(matches!(table(&invalid), Err(HashError::MissingHeader { .. })));
    assert!(matches!(
        matcher.replace_hashes_from_sqlite_db(&[], &[], "invalid.sqlite"),
        Err(_)
    ));
    assert_eq!(matcher.entry_count(), 1);
}

#[test]
fn test_load_hashes_from_csv() {
    let text = format!(
        "hash,is_malicious\n{},false\n{},true\n",
        "0".repeat(64),
        "1".repeat(64)
    );
    let mut matcher = HashMatcher::new(None);
    let loaded = matcher
        .load_hashes_from_csv("csv", text.as_bytes(), "hashes.csv")
        .expect("load csv");
    assert_eq!(loaded, 2);
    assert_eq!(matcher.entry_count(), 2);
}

#[test]
fn test_loads_json_and_sha512_hashes() {
    let data = b"json-format-sample";
    let md5_hash = md5_hex(data);
    let sha512_hash = sha512_hex(data);
    let text = format!("[{{\"md5_hash\":\"{md5_hash}\"}},{{\"sha512_hash\":\"{sha512_hash}\"}}]");

    let mut matcher = HashMatcher::new_with_label(None, "json_db".to_string());
    assert_eq!(
        matcher
            .load_from_file("json", text.as_bytes(), "hashes.json")
            .expect("load json"),
        2
    );
    let matched = matcher.match_file(data).expect("expected sha512 match");
    assert_eq!(matched.hash, sha512_hash);
}

#[test]
fn test_loads_multicolumn_csv_and_plain_text() {
    let data = b"multi-format-sample";
    let sha256_hash = sha256_hex(data);
    let sha512_hash = sha512_hex(data);

    let feed = format!("sha256_hash,sha512_hash,status\n{sha256_hash},{sha512_hash},malicious\n");
    let mut csv_matcher = HashMatcher::new(None);
    assert_eq!(
        csv_matcher
            .load_from_file("csv", feed.as_bytes(), "feed.csv")
            .expect("load feed"),
        2
    );
    assert!(csv_matcher.match_file(data).is_some());

    let list = format!("# comments are ignored\nsha512 {sha512_hash} true\n");
    let mut text_matcher = HashMatcher::new(None);
    assert_eq!(
        text_matcher
            .load_from_file("list", list.as_bytes(), "hashes.list")
            .expect("load text"),
        1
    );
    assert!(text_matcher.match_file(data).is_some());
}

#[test]
fn test_loads_jsonl_and_sqlite_hash_columns() {
    let data = b"jsonl-and-sqlite-sample";
    let sha1_hash = sha1_hex(data);

    let jsonl = format!("{{\"sha1_hash\":\"{sha1_hash}\",\"malicious\":true}}\n");
    let mut jsonl_matcher = HashMatcher::new(None);
    assert_eq!(
        jsonl_matcher
            .load_from_file("jsonl", jsonl.as_bytes(), "hashes.jsonl")
            .expect("load jsonl"),
        1
    );
    assert!(jsonl_matcher.match_file(data).is_some());

    let connection = database();
    connection
        .execute(
            "CREATE TABLE hashes (md5_hash TEXT, sha1_hash TEXT, malicious INTEGER)",
            [],
        )
        .expect("create multi-column schema");
    connection
        .execute(
            "INSERT INTO hashes (md5_hash, sha1_hash, malicious) VALUES (NULL, ?1, 1)",
            [sha1_hash.as_str()],
        )
        .expect("insert multi-column hash");
    let mut sqlite_matcher = HashMatcher::new(None);
    let (headers, rows) = table(&connection).expect("hash table");
    assert_eq!(
        sqlite_matcher
            .load_hashes_from_sqlite_db(&headers, &rows, "columns.sqlite")
            .expect("load sqlite columns"),
        1
    );
    assert!(sqlite_matcher.match_file(data).is_some());
}

#[test]
fn test_dat_support_and_cross_source_merge() {
    let data = b"dat-merge-sample";
    let sha256_hash = sha256_hex(data);
    let dat = format!("# clamav-style DAT\n{sha256_hash}:0:Test.Detected\n");
    let feed = format!("hash,is_malicious\n{sha256_hash},false\n");

    let mut matcher = HashMatcher::new_with_label(None, "merged".to_string());
    assert_eq!(
        matcher
            .load_from_file("dat", dat.as_bytes(), "vendor-a.dat")
            .expect("load dat"),
        1
    );
    assert_eq!(
        matcher
            .load_from_file("csv", feed.as_bytes(), "vendor-b.csv")
            .expect("load csv"),
        1
    );
    assert_eq!(matcher.entry_count(), 1);

    let matched = matcher.match_file(data).expect("expected merged match");
    assert_eq!(matched.sources.len(), 2);
    assert!(matched.sources.contains(&"vendor-a.dat".to_string()));
    assert!(matched.sources.contains(&"vendor-b.csv".to_string()));
}

#[test]
fn test_match_batch_classification() {
    let mut matcher = HashMatcher::new(None);
    let bad_hash = sha256_hex(b"bad-content");
    matcher.load_hashes(vec![(bad_hash, true)]);

    let result = matcher.match_batch(vec![
        ("clean.bin".to_string(), Some(b"clean-content".to_vec())),
        ("bad.bin".to_string(), Some(b"bad-content".to_vec())),
        ("unknown.bin".to_string(), None),
    ]);
    assert_eq!(result.malicious, vec!["bad.bin".to_string()]);
    assert_eq!(result.clean.len(), 0);
    assert_eq!(result.unknown.len(), 2);
}

#[test]
fn test_normalize_hash_failure() {
    let err = normalize_hash("not-a-valid-hash").unwrap_err();
    assert!(matches!(err, HashError::InvalidHashFormat { .. }));
}

#[test]
fn test_fuzzy_match_survives_local_edit() {
    let original: Vec<u8> = (0..20_000).map(|index| (index % 251) as u8).collect();
    let signature = ssdeep_hash_bytes(&original);
    let mut edited = original;
    edited[12_345] ^= 0x5a;

    let mut matcher = HashMatcher::new_with_label(None, "fuzzy_db".to_string());
    assert_eq!(matcher.load_fuzzy_hashes(vec![(signature, true)]), 1);
    let matched = matcher.match_file(&edited).expect("expected fuzzy match");
    assert_eq!(matched.algorithm, "ssdeep");
    assert!(matched.similarity >= FUZZY_MATCH_THRESHOLD);
}

#[test]
fn test_clean_fuzzy_signature_does_not_classify() {
    let data: Vec<u8> = (0..20_000).map(|index| (index % 251) as u8).collect();
    let signature = ssdeep_hash_bytes(&data);

    let mut matcher = HashMatcher::new(None);
    assert_eq!(matcher.load_fuzzy_hashes(vec![(signature, false)]), 1);
    assert!(matcher.match_file(&data).is_none());
}

#[test]
fn test_ssdeep_matches_known_interoperability_vector() {
    assert_eq!(ssdeep_hash_bytes(b"Hello there!"), "3:aNRn:aNRn");
    assert_eq!(fuzzy_similarity("3:aNRn:aNRn", "3:aNRn:aNRn"), 100);
}

#[test]
fn test_legacy_ssdeep_lite_signature_remains_readable() {
    let legacy = "ssdeep-lite:3:ABCDEFG:ABCDEFG";
    assert_eq!(
        normalize_fuzzy_hash(legacy).expect("legacy signature"),
        legacy
    );
    assert_eq!(fuzzy_algorithm_name(legacy), "ssdeep-lite");
}

#[test]
fn exact_digests_are_those_of_the_content() {
    let hashes = compute_exact_hashes(b"abc");
    for expected in [
        md5_hex(b"abc"),
        sha1_hex(b"abc"),
        sha256_hex(b"abc"),
        sha512_hex(b"abc"),
    ] {
        assert!(hashes.contains(&expected), "missing {expected}");
    }
    assert!(hashes.contains(&"900150983cd24fb0d6963f7d28e17f72".to_string()));
    assert!(hashes.contains(&"a9993e364706816aba3e25717850c26c9cd0d89d".to_string()));
}

#[test]
fn distances_are_those_of_edits() {
    assert_eq!(levenshtein(b"kitten", b"sitting"), 3);
    assert_eq!(levenshtein(b"", b"abc"), 3);
    assert_eq!(levenshtein(b"abc", b"abc"), 0);
    assert_eq!(longest_common(b"abcdef", b"zbcdz"), 3);
    assert!(has_common_substring_7(b"xxABCDEFGyy", b"ABCDEFG"));
    assert!(!has_common_substring_7(b"ABCDEF", b"ABCDEF"));
}

#[test]
fn signatures_are_checked_when_they_are_read() {
    assert_eq!(ssdeep_block_size(0), 3);
    let parsed = parse_fuzzy_signature("3:aNRn:aNRn").expect("signature");
    assert_eq!(parsed.block_size, 3);
    assert_eq!(parsed.primary, "aNRn");
    assert!(!parsed.legacy);
    assert!(matches!(
        parse_fuzzy_signature("3:only-one-part"),
        Err(HashError::InvalidFuzzyHash { .. })
    ));
    assert!(matches!(
        normalize_fuzzy_hash("four:aNRn:aNRn"),
        Err(HashError::InvalidFuzzyHash { .. })
    ));
    assert_eq!(fuzzy_similarity("3:aNRn:aNRn", "not a signature"), 0);
}

#[test]
fn lines_name_their_algorithm_or_show_it() {
    let hash = "a".repeat(40);
    let entry = parse_text_hash_line(&format!("sha1 {hash} false")).expect("entry");
    assert_eq!(entry.hash, hash);
    assert_eq!(entry.algorithm, "sha1");
    assert!(!entry.is_malicious);
    assert!(parse_text_hash_line("# note").is_none());
    let clam = parse_clamav_hash_line(&format!("{hash}:12:Name")).expect("entry");
    assert_eq!(clam.algorithm, "sha1");
    assert!(make_hash_entry("nothing", None, true).is_none());
}

#[test]
fn every_fault_of_a_hash_file_is_told() {
    assert!(matches!(
        read_hash_entries("json", b"{"),
        Err(HashError::Json(_))
    ));
    assert!(matches!(
        read_hash_entries("json", &[0xff, 0xfe]),
        Err(HashError::NotText)
    ));
    assert!(matches!(
        read_hash_entries("csv", b"name,size\nx,1\n"),
        Err(HashError::MissingHeader { .. })
    ));
    assert!(matches!(
        read_hash_entries("csv", b"hash,x\n\xff\xfe,1\n"),
        Err(HashError::Csv(_))
    ));
    assert!(matches!(
        read_hash_entries("dat", b"\0binary"),
        Err(HashError::MissingHeader { .. })
    ));
    let mut matcher = HashMatcher::new(Some(vec![("0".repeat(64), true)]));
    assert!(matches!(
        matcher.replace_from_file("json", b"[]", "empty.json"),
        Err(HashError::EmptyDatabase)
    ));
    assert_eq!(matcher.entry_count(), 1);
}

#[test]
fn tables_keep_quoted_fields_together() {
    let hash = "b".repeat(64);
    let text = format!("source,hash\n\"a, b\",{hash}\n");
    let entries = read_hashes_from_csv(text.as_bytes(), b',').expect("csv");
    assert_eq!(entries.len(), 1);
    assert_eq!(entries[0].source, "a, b");
    let tabs = format!("source\thash\nfeed\t{hash}\n");
    assert_eq!(read_hashes_from_csv(tabs.as_bytes(), b'\t').expect("tsv").len(), 1);
}

#[test]
fn database_values_are_read_by_their_kind() {
    assert_eq!(sqlite_value_to_string(&SqlValue::Integer(-7)).as_deref(), Some("-7"));
    assert_eq!(
        sqlite_value_to_string(&SqlValue::Text(b"abc".to_vec())).as_deref(),
        Some("abc")
    );
    assert_eq!(sqlite_value_to_string(&SqlValue::Null), None);
    assert_eq!(sqlite_value_to_bool(&SqlValue::Integer(0)), Some(false));
    assert_eq!(sqlite_value_to_bool(&SqlValue::Integer(2)), Some(true));
    assert_eq!(sqlite_value_to_bool(&SqlValue::Blob), None);
    assert_eq!(hash_table_name(true, true).expect("table"), "hashes");
    assert_eq!(hash_table_name(false, true).expect("table"), "HashDB");
}

#[test]
fn upper_case_and_unicode_do_not_hide_a_hash() {
    let mut matcher = HashMatcher::new(None);
    matcher.load_hashes(vec![(format!("  {}  ", sha256_hex(b"x").to_uppercase()), true)]);
    assert!(matcher.match_file(b"x").is_some());
    assert!(normalize_hash(&"\u{212a}".repeat(32)).is_err());
}

#[test]
fn a_replacement_holds_the_new_database_alone() {
    let mut matcher = HashMatcher::new(Some(vec![("0".repeat(64), true), ("1".repeat(64), true)]));
    let text = format!(
        "hash,is_malicious\n{0},true\n{1},true\n{0},false\nno hash,true\n",
        "2".repeat(64),
        "3".repeat(64)
    );
    let loaded = matcher.replace_from_file("csv", text.as_bytes(), "new.csv").expect("replace");
    assert_eq!(loaded, 3);
    assert_eq!(matcher.entry_count(), 2);
}

#[test]
fn verdicts_are_sorted_in_order() {
    let verdict = |name: &str, verdict: BatchVerdict| (name.to_string(), verdict);
    let sorted = sort_verdicts(&[
        verdict("a", BatchVerdict::Unknown),
        verdict("b", BatchVerdict::Malicious),
        verdict("c", BatchVerdict::Clean),
        verdict("d", BatchVerdict::Malicious),
        verdict("e", BatchVerdict::Unknown),
    ]);
    assert_eq!(sorted.clean, ["c"]);
    assert_eq!(sorted.malicious, ["b", "d"]);
    assert_eq!(sorted.unknown, ["a", "e"]);
}
