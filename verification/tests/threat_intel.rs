use heliosav_layers::calendar::{days_from_civil, parse_rfc3339_epoch};
use heliosav_layers::net::{ip_in_network, ip_to_text, mask_ip, parse_ip, IpAddress};
use heliosav_layers::order::{comes_before, sorted_set};
use heliosav_layers::threat_intel::{
    endpoint_host, normalize_domain, parse_cidr, IocRow, ThreatIntelMatcher,
};
use rusqlite::Connection;

const IOCS_TABLE: &str = "CREATE TABLE iocs (value TEXT, ioc_type TEXT, source TEXT, confidence INTEGER, first_seen TEXT, last_seen TEXT, expires_at TEXT, malware TEXT, tags TEXT, reference TEXT, meta TEXT, PRIMARY KEY(value, ioc_type, source))";

fn database(insert: &str) -> Connection {
    let connection = Connection::open_in_memory().unwrap();
    connection.execute(IOCS_TABLE, []).unwrap();
    connection.execute(insert, []).unwrap();
    connection
}

fn rows(connection: &Connection) -> Vec<IocRow> {
    let mut statement = connection
        .prepare("SELECT value, ioc_type, source, confidence, first_seen, last_seen, expires_at, malware, tags, reference FROM iocs")
        .unwrap();
    let mut found = statement.query([]).unwrap();
    let mut rows = Vec::new();
    while let Some(row) = found.next().unwrap() {
        rows.push(IocRow {
            value: row.get(0).unwrap(),
            ioc_type: row.get(1).unwrap(),
            source: row.get(2).unwrap(),
            confidence: row.get(3).unwrap(),
            first_seen: row.get(4).unwrap(),
            last_seen: row.get(5).unwrap(),
            expires_at: row.get(6).unwrap(),
            malware: row.get(7).unwrap(),
            tags: row.get(8).unwrap(),
            reference: row.get(9).unwrap(),
        });
    }
    rows
}

#[test]
fn matches_endpoint_with_port_and_url() {
    let connection = database(
        "INSERT INTO iocs VALUES ('bad.example', 'domain', 'urlhaus', 85, NULL, NULL, '2099-01-01T00:00:00Z', 'test', NULL, NULL, '{}')",
    );
    let mut matcher = ThreatIntelMatcher::with_default_confidence();
    assert_eq!(matcher.load_from_sqlite_db(&rows(&connection)), 1);
    let matches = matcher.match_observation("tcp://bad.example:443");
    assert_eq!(matches.len(), 1);
    assert_eq!(matches[0].record.source, "urlhaus");
}

#[test]
fn matches_ip_inside_cidr_network() {
    let connection = database(
        "INSERT INTO iocs VALUES ('192.0.2.0/24', 'cidr', 'spamhaus_drop_v4', 96, NULL, NULL, '2099-01-01T00:00:00Z', NULL, NULL, 'test', '{}')",
    );
    let mut matcher = ThreatIntelMatcher::with_default_confidence();
    assert_eq!(matcher.load_from_sqlite_db(&rows(&connection)), 1);
    assert_eq!(
        matcher.match_observation("tcp://192.0.2.42:443")[0]
            .record
            .ioc_type,
        "cidr"
    );
    assert!(matcher
        .match_observation("tcp://198.51.100.42:443")
        .is_empty());
}

#[test]
fn ignores_expired_and_low_confidence_entries() {
    let connection = database(
        "INSERT INTO iocs VALUES ('expired.example', 'domain', 'test', 90, NULL, NULL, '2000-01-01T00:00:00Z', NULL, NULL, NULL, '{}'), ('weak.example', 'domain', 'test', 20, NULL, NULL, '2099-01-01T00:00:00Z', NULL, NULL, NULL, '{}')",
    );
    let mut matcher = ThreatIntelMatcher::with_default_confidence();
    assert_eq!(matcher.load_from_sqlite_db(&rows(&connection)), 0);
    assert!(matcher.match_observation("expired.example").is_empty());
}

#[test]
fn a_record_expires_while_it_is_held() {
    let connection = database(
        "INSERT INTO iocs VALUES ('bad.example', 'domain', 'a', 90, NULL, NULL, '2001-01-01T00:00:00Z', NULL, NULL, NULL, '{}')",
    );
    let end = parse_rfc3339_epoch("2001-01-01T00:00:00Z").expect("time") as i64;
    let mut matcher = ThreatIntelMatcher::new(50);
    assert_eq!(matcher.load_from_sqlite_db_at(&rows(&connection), end - 1), 1);
    assert_eq!(matcher.entry_count_at(end - 1), 1);
    assert_eq!(matcher.match_observation_at("bad.example", end - 1).len(), 1);
    assert_eq!(matcher.match_observation_at("bad.example", end + 1).len(), 0);
    assert_eq!(matcher.entry_count_at(end + 1), 0);
    assert_eq!(matcher.replace_from_sqlite_db_at(&[], 0), 0);
    assert_eq!(matcher.entry_count_at(0), 0);
}

#[test]
fn several_observations_give_distinct_matches() {
    let connection = database(
        "INSERT INTO iocs VALUES ('bad.example', 'domain', 'a', 90, NULL, NULL, NULL, NULL, NULL, NULL, '{}')",
    );
    let mut matcher = ThreatIntelMatcher::new(50);
    matcher.load_from_sqlite_db_at(&rows(&connection), 0);
    let matches = matcher.match_observations_at(&["https://bad.example/x", "nothing.example"], 0);
    assert_eq!(matches.len(), 1);
    assert!(matches[0].description().contains("bad.example"));
}

#[test]
fn addresses_read_back() {
    for text in ["0.0.0.0", "192.0.2.42", "::", "::1", "2001:db8::1", "::ffff:192.0.2.1"] {
        let ip = parse_ip(text).expect(text);
        assert_eq!(ip_to_text(ip), text);
    }
    for bad in ["256.1.1.1", "1.2.3", "01.2.3.4", ":::", "1::2::3", "12345::", ""] {
        assert!(parse_ip(bad).is_none(), "{bad}");
    }
    assert_eq!(parse_ip("10.1.2.3"), Some(IpAddress::V4(0x0a01_0203)));
}

#[test]
fn networks_hold_their_addresses() {
    let network = parse_ip("10.1.0.0").unwrap();
    assert!(ip_in_network(parse_ip("10.1.255.1").unwrap(), network, 16));
    assert!(!ip_in_network(parse_ip("10.2.0.1").unwrap(), network, 16));
    assert!(!ip_in_network(parse_ip("::1").unwrap(), network, 0));
    assert_eq!(mask_ip(parse_ip("10.1.2.3").unwrap(), 8), parse_ip("10.0.0.0").unwrap());
    assert_eq!(parse_cidr("10.1.2.3/8"), Some((parse_ip("10.0.0.0").unwrap(), 8)));
    assert_eq!(parse_cidr("10.1.2.3/33"), None);
}

#[test]
fn hosts_are_taken_out_of_endpoints() {
    assert_eq!(endpoint_host("https://Bad.Example:8443/path?q").as_deref(), Some("bad.example"));
    assert_eq!(normalize_domain(" Bad.Example. ").as_deref(), Some("bad.example"));
    assert_eq!(normalize_domain("not a domain"), None);
}

#[test]
fn days_are_counted_from_the_epoch() {
    assert_eq!(days_from_civil(1970, 1, 1), Some(0));
    assert_eq!(days_from_civil(2000, 3, 1), Some(11017));
    assert_eq!(parse_rfc3339_epoch("1970-01-02T00:00:01Z"), Some(86_401));
    // The distance from UTC is not taken into account.
    assert_eq!(parse_rfc3339_epoch("2024-02-29T12:00:00+01:00"), Some(1_709_208_000));
    assert_eq!(parse_rfc3339_epoch("yesterday"), None);
}

#[test]
fn texts_are_ordered_by_their_characters() {
    assert!(comes_before("a", "b"));
    assert!(comes_before("a", "aa"));
    assert!(!comes_before("b", "a"));
    let list: Vec<String> = ["b", "a", "b", "c"].iter().map(|s| s.to_string()).collect();
    assert_eq!(sorted_set(&list), vec!["a", "b", "c"]);
}

#[test]
fn a_match_carries_the_observation_it_comes_from() {
    let connection = database(
        "INSERT INTO iocs VALUES ('bad.example', 'domain', 'urlhaus', 85, NULL, NULL, '2099-01-01T00:00:00Z', 'test', NULL, NULL, '{}'), ('192.0.2.7', 'ip', 'feed', 90, NULL, NULL, '2099-01-01T00:00:00Z', NULL, NULL, NULL, '{}')",
    );
    let mut matcher = ThreatIntelMatcher::with_default_confidence();
    assert_eq!(matcher.load_from_sqlite_db(&rows(&connection)), 2);
    let seen = ["192.0.2.7:80", "good.example", "https://bad.example/x"];
    let matches = matcher.match_observations(&seen);
    let observed: Vec<&str> = matches.iter().map(|m| m.observed.as_str()).collect();
    assert_eq!(observed, ["192.0.2.7:80", "https://bad.example/x"]);
    assert_eq!(matches[0].record.source, "feed");
    assert_eq!(matches[1].record.source, "urlhaus");
}
