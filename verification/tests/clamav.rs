use heliosav_layers::clamav::{
    extract_database_version, frame_chunk, parse_scan_response, read_response,
    trim_clamd_response, version_request, ClamAvClient, ClamAvEnvironment, ClamAvVerdict,
    ConnectOutcome, ResponseProgress, ScanAction, ScanEvent, ScanStage, MAX_RESPONSE_BYTES,
};

const MILLI: u128 = 1_000_000;
const SECOND: u128 = 1_000_000_000;

fn message_contains(verdict: &ClamAvVerdict, needle: &str) -> bool {
    match verdict {
        ClamAvVerdict::Unavailable { message } => message.contains(needle),
        _ => false,
    }
}

fn stopped(action: ScanAction) -> ClamAvVerdict {
    match action {
        ScanAction::Stop(verdict) => verdict,
        other => panic!("the scan goes on: {other:?}"),
    }
}

fn client() -> ClamAvClient {
    ClamAvClient::new(
        "127.0.0.1:1".to_string(),
        250 * MILLI,
        500 * MILLI,
        1024 * 1024,
        1,
        300 * SECOND,
    )
}

#[test]
fn parses_clean_response() {
    assert_eq!(parse_scan_response("stream: OK"), ClamAvVerdict::Clean);
}

#[test]
fn parses_found_response() {
    assert_eq!(
        parse_scan_response("stream: Win.Trojan.Test FOUND"),
        ClamAvVerdict::Found {
            signature: "Win.Trojan.Test".to_string()
        }
    );
}

#[test]
fn keeps_errors_explicit() {
    assert!(matches!(
        parse_scan_response("stream: ERROR"),
        ClamAvVerdict::Unavailable { .. }
    ));
}

#[test]
fn failed_connection_starts_retry_cooldown() {
    let mut client = client();
    let (stage, action) = client.scan_path(
        ScanStage::Measuring,
        &ScanEvent::Measured(Ok(14)),
        0,
    );
    assert_eq!(action, ScanAction::Open);
    let (stage, action) = client.scan_path(stage, &ScanEvent::Opened(Ok(())), 1);
    assert_eq!(action, ScanAction::Connect);
    let refused = ConnectOutcome::Refused("connection refused".to_string());
    let (stage, action) = client.scan_path(stage, &ScanEvent::Connected(refused.clone()), 2);
    assert_eq!(stage, ScanStage::Over);
    let first = stopped(action);
    assert!(
        message_contains(&first, "connection failed"),
        "unexpected first verdict message: {first:?}"
    );
    assert!(!client.status().available);

    // The second attempt must short-circuit without another connection.
    let (_, action) = client.scan_path(
        ScanStage::Measuring,
        &ScanEvent::Measured(Ok(14)),
        2 + 100 * MILLI,
    );
    let second = stopped(action);
    assert!(
        message_contains(&second, "retrying in"),
        "unexpected cooldown verdict message: {second:?}"
    );
    assert_eq!(
        second,
        ClamAvVerdict::Unavailable {
            message: "clamd unavailable; retrying in 299s".to_string()
        }
    );

    // An explicit probe bypasses the cooldown and refreshes state again.
    let probed = client.probe(&refused, &Err(String::new()), 3);
    assert!(!probed.available);
    assert_eq!(
        probed.message,
        "clamd unavailable at 127.0.0.1:1: connection refused"
    );
}

#[test]
fn the_cooldown_ends() {
    let mut client = client();
    client.note_connect_result(&ConnectOutcome::Refused(String::new()), 10);
    assert_eq!(client.in_retry_cooldown(10), Some(300 * SECOND));
    assert_eq!(client.in_retry_cooldown(10 + 300 * SECOND - 1), Some(1));
    assert_eq!(client.in_retry_cooldown(10 + 300 * SECOND), None);
    client.note_connect_result(&ConnectOutcome::NoAddress(String::new()), 20);
    assert!(client.in_retry_cooldown(20).is_some());
    client.note_connect_result(&ConnectOutcome::Ready, 20);
    assert_eq!(client.in_retry_cooldown(20), None);
}

#[test]
fn a_whole_conversation_finds_a_threat() {
    let mut client = client();
    let steps = [
        (ScanEvent::Measured(Ok(3)), ScanAction::Open),
        (ScanEvent::Opened(Ok(())), ScanAction::Connect),
        (
            ScanEvent::Connected(ConnectOutcome::Ready),
            ScanAction::Write(b"zINSTREAM\0".to_vec()),
        ),
        (ScanEvent::Written(Ok(())), ScanAction::Read),
        (
            ScanEvent::Read(Ok(b"abc".to_vec())),
            ScanAction::Write(vec![0, 0, 0, 3, b'a', b'b', b'c']),
        ),
        (ScanEvent::Written(Ok(())), ScanAction::Read),
        (
            ScanEvent::Read(Ok(Vec::new())),
            ScanAction::Write(vec![0, 0, 0, 0]),
        ),
        (ScanEvent::Written(Ok(())), ScanAction::Receive),
        (
            ScanEvent::Received(Ok(b"stream: Eicar-Test-Signature FOUND\0".to_vec())),
            ScanAction::Stop(ClamAvVerdict::Found {
                signature: "Eicar-Test-Signature".to_string(),
            }),
        ),
    ];
    let mut stage = ScanStage::Measuring;
    for (event, expected) in steps {
        let (next, action) = client.scan_path(stage, &event, 0);
        assert_eq!(action, expected);
        stage = next;
    }
    assert_eq!(stage, ScanStage::Over);
    assert!(client.status().available);
    assert_eq!(client.status().message, "threat found: Eicar-Test-Signature");
}

#[test]
fn every_fault_of_a_conversation_is_named() {
    let mut client = client();
    let fault = || Err::<(), String>("gone".to_string());
    let cases = [
        (
            ScanStage::Measuring,
            ScanEvent::Measured(Err("gone".to_string())),
            "unable to read metadata: gone",
        ),
        (
            ScanStage::Measuring,
            ScanEvent::Measured(Ok(1_048_577)),
            "file size 1048577 exceeds clamd stream limit 1048576",
        ),
        (ScanStage::Opening, ScanEvent::Opened(fault()), "unable to open file: gone"),
        (
            ScanStage::Connecting,
            ScanEvent::Connected(ConnectOutcome::Unusable("gone".to_string())),
            "connection failed: gone",
        ),
        (
            ScanStage::Greeting,
            ScanEvent::Written(fault()),
            "unable to start clamd stream: gone",
        ),
        (
            ScanStage::Sending,
            ScanEvent::Written(fault()),
            "unable to send file to clamd: gone",
        ),
        (
            ScanStage::Finishing,
            ScanEvent::Written(fault()),
            "unable to finish clamd stream: gone",
        ),
        (
            ScanStage::Reading,
            ScanEvent::Read(Err("gone".to_string())),
            "unable to read file: gone",
        ),
        (
            ScanStage::Receiving,
            ScanEvent::Received(Err("gone".to_string())),
            "clamd response failed: gone",
        ),
    ];
    for (stage, event, message) in cases {
        let (next, action) = client.scan_path(stage, &event, 0);
        assert_eq!(next, ScanStage::Over);
        assert_eq!(
            stopped(action),
            ClamAvVerdict::Unavailable {
                message: message.to_string()
            }
        );
    }
}

#[test]
fn a_clean_scan_and_a_probe_set_the_status() {
    let mut client = client();
    assert_eq!(client.status().message, "not probed");
    client.scan_path(
        ScanStage::Receiving,
        &ScanEvent::Received(Ok(b"stream: OK\n".to_vec())),
        0,
    );
    assert_eq!(client.status().message, "last scan clean");
    let reply = Ok(b"ClamAV 1.2.0 daily.cvd 27100\n".to_vec());
    let status = client.probe(&ConnectOutcome::Ready, &reply, 0);
    assert!(status.available);
    assert_eq!(status.version.as_deref(), Some("ClamAV 1.2.0 daily.cvd 27100"));
    assert_eq!(status.database_version.as_deref(), Some("daily.cvd"));
    assert_eq!(status.message, "clamd ready at 127.0.0.1:1");
    assert_eq!(client.endpoint(), "127.0.0.1:1");
}

#[test]
fn answers_end_at_a_line_end() {
    let mut response = Vec::new();
    assert_eq!(read_response(&mut response, b"stream"), ResponseProgress::More);
    assert_eq!(read_response(&mut response, b": OK\0"), ResponseProgress::Complete);
    assert_eq!(response, b"stream: OK\0");
    assert_eq!(trim_clamd_response(b"\0\r\n stream: OK \n\0"), "stream: OK");
    assert_eq!(trim_clamd_response(&[0xff, b'O', b'K']), "\u{fffd}OK");

    let mut empty = Vec::new();
    let progress = read_response(&mut empty, b"");
    assert_eq!(progress.failure().as_deref(), Some("clamd returned an empty response"));
    let mut long = vec![b'a'; MAX_RESPONSE_BYTES - 1];
    let progress = read_response(&mut long, b"a");
    assert_eq!(progress.failure().as_deref(), Some("clamd response exceeds limit"));
    let mut closed = b"OK".to_vec();
    assert_eq!(read_response(&mut closed, b""), ResponseProgress::Complete);
    assert_eq!(ResponseProgress::Complete.failure(), None);
}

#[test]
fn frames_carry_their_length_first() {
    let chunk = vec![7u8; 0x1_0203];
    let frame = frame_chunk(&chunk);
    assert_eq!(frame[..4], [0, 1, 2, 3]);
    assert_eq!(frame[4..], chunk[..]);
    assert_eq!(version_request(), b"nVERSION\n");
}

#[test]
fn permits_are_taken_and_given_back() {
    let mut client = client();
    assert!(client.acquire());
    assert!(!client.acquire());
    client.release();
    assert!(client.acquire());
}

#[test]
fn the_environment_sets_what_it_can() {
    let plain = ClamAvClient::from_environment(&ClamAvEnvironment::default());
    assert_eq!(plain.endpoint, "127.0.0.1:3310");
    assert_eq!(plain.connect_timeout, 750 * MILLI);
    assert_eq!(plain.scan_timeout, 60 * SECOND);
    assert_eq!(plain.max_stream_bytes, 4 * 1024 * 1024 * 1024);
    assert_eq!(plain.capacity, 2);
    assert_eq!(plain.retry_cooldown, 300 * SECOND);

    let set = ClamAvClient::from_environment(&ClamAvEnvironment {
        endpoint: Some("10.0.0.1:9".to_string()),
        connect_timeout_ms: Some("20".to_string()),
        scan_timeout_ms: Some("0".to_string()),
        max_stream_bytes: Some("many".to_string()),
        max_inflight: Some("5".to_string()),
        retry_cooldown_secs: Some("0".to_string()),
    });
    assert_eq!(set.endpoint, "10.0.0.1:9");
    assert_eq!(set.connect_timeout, 20 * MILLI);
    assert_eq!(set.scan_timeout, 60 * SECOND);
    assert_eq!(set.max_stream_bytes, 4 * 1024 * 1024 * 1024);
    assert_eq!(set.capacity, 5);
    assert_eq!(set.retry_cooldown, 0);
    let blank = ClamAvClient::from_environment(&ClamAvEnvironment {
        endpoint: Some("  ".to_string()),
        ..ClamAvEnvironment::default()
    });
    assert_eq!(blank.endpoint, "127.0.0.1:3310");
}

#[test]
fn only_database_words_name_a_database() {
    assert_eq!(
        extract_database_version("ClamAV\tmain.cvd\u{a0}daily.cld").as_deref(),
        Some("main.cvd")
    );
    assert_eq!(extract_database_version("ClamAV 1.2.0 (daily)"), None);
    assert_eq!(
        parse_scan_response("  FOUND "),
        ClamAvVerdict::Unavailable {
            message: "clamd returned: FOUND".to_string()
        }
    );
}
