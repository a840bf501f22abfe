//! A client for a local, resident ClamAV daemon: what it says to the daemon, what it makes
//! of the answers, and when it leaves the daemon alone. The caller owns the socket and the
//! file, performs each action and reports how it went.
//!
//! Times are nanoseconds; a point in time is a reading of a monotonic clock.

use vstd::prelude::*;
use vstd::utf8::encode_utf8;

use crate::text::{
    begins_with, chars_of, concat2, decimal, decimal_text, ends_with, finishes_with,
    from_utf8_lossy, is_white, lossy_text, parse_unsigned, parsed_unsigned, same_text, split_by,
    split_chars, starts_with, text_between, texts, trim, trimmed, white, wide_decimal_text,
    without_leading, without_trailing,
};

verus! {

pub const DEFAULT_ENDPOINT: &'static str = "127.0.0.1:3310";

pub const DEFAULT_CONNECT_TIMEOUT: u128 = 750_000_000;

pub const DEFAULT_SCAN_TIMEOUT: u128 = 60_000_000_000;

pub const DEFAULT_MAX_STREAM_BYTES: u64 = 4_294_967_296;

pub const DEFAULT_MAX_INFLIGHT: usize = 2;

pub const DEFAULT_RETRY_COOLDOWN: u128 = 300_000_000_000;

/// How much of a file goes into one frame at most.
pub const STREAM_CHUNK_SIZE: usize = 1_048_576;

/// How long an answer may grow without an end of line.
pub const MAX_RESPONSE_BYTES: usize = 16_384;

pub const NANOS_PER_MILLI: u128 = 1_000_000;

pub const NANOS_PER_SECOND: u128 = 1_000_000_000;

/// What the daemon says of a file.
#[derive(Debug, Clone, PartialEq, Eq)]
pub enum ClamAvVerdict {
    Clean,
    Found { signature: String },
    Unavailable { message: String },
}

/// A verdict as a mathematical value.
pub enum VerdictView {
    Clean,
    Found(Seq<char>),
    Unavailable(Seq<char>),
}

impl View for ClamAvVerdict {
    type V = VerdictView;

    open spec fn view(&self) -> VerdictView {
        match *self {
            ClamAvVerdict::Clean => VerdictView::Clean,
            ClamAvVerdict::Found { signature } => VerdictView::Found(signature@),
            ClamAvVerdict::Unavailable { message } => VerdictView::Unavailable(message@),
        }
    }
}

/// What is known of the daemon.
#[derive(Debug, Clone, PartialEq, Eq)]
pub struct ClamAvStatus {
    pub available: bool,
    pub version: Option<String>,
    pub database_version: Option<String>,
    pub message: String,
}

pub struct StatusView {
    pub available: bool,
    pub version: Option<Seq<char>>,
    pub database_version: Option<Seq<char>>,
    pub message: Seq<char>,
}

pub open spec fn maybe_text(t: Option<String>) -> Option<Seq<char>> {
    match t {
        Some(s) => Some(s@),
        None => None,
    }
}

impl View for ClamAvStatus {
    type V = StatusView;

    open spec fn view(&self) -> StatusView {
        StatusView {
            available: self.available,
            version: maybe_text(self.version),
            database_version: maybe_text(self.database_version),
            message: self.message@,
        }
    }
}

fn copy_maybe(t: &Option<String>) -> (copy: Option<String>)
    ensures
        maybe_text(copy) == maybe_text(*t),
{
    match t {
        Some(s) => Some(s.clone()),
        None => None,
    }
}

impl ClamAvStatus {
    fn duplicate(&self) -> (copy: Self)
        ensures
            copy@ == self@,
    {
        ClamAvStatus {
            available: self.available,
            version: copy_maybe(&self.version),
            database_version: copy_maybe(&self.database_version),
            message: self.message.clone(),
        }
    }
}

impl Default for ClamAvStatus {
    fn default() -> (status: Self)
        ensures
            status@ == plain_status(false, Seq::empty()),
    {
        let message = String::new();
        assert(message@ =~= Seq::empty());
        ClamAvStatus { available: false, version: None, database_version: None, message }
    }
}

/// A status that knows no versions.
pub open spec fn plain_status(available: bool, message: Seq<char>) -> StatusView {
    StatusView { available, version: None, database_version: None, message }
}

fn status_with(available: bool, message: String) -> (status: ClamAvStatus)
    ensures
        status@ == plain_status(available, message@),
{
    ClamAvStatus { available, version: None, database_version: None, message }
}

/// A NUL, a carriage return or a line feed.
pub open spec fn is_line_end(c: char) -> bool {
    c == '\0' || c == '\r' || c == '\n'
}

/// An answer of the daemon as text, without the line ends and then without the white space
/// around it.
pub open spec fn answer_text(response: Seq<u8>) -> Seq<char> {
    let text = lossy_text(response);
    trimmed(without_trailing(without_leading(text, |c: char| is_line_end(c)), |c: char| is_line_end(c)))
}

pub fn trim_clamd_response(response: &[u8]) -> (text: String)
    ensures
        text@ == answer_text(response@),
{
    let whole = from_utf8_lossy(response);
    let chars = chars_of(whole.as_str());
    let ghost drop = |c: char| is_line_end(c);
    let mut from: usize = 0;
    assert(chars@.skip(0) =~= chars@);
    while from < chars.len() && (chars[from] == '\0' || chars[from] == '\r' || chars[from] == '\n')
        invariant
            from <= chars@.len(),
            drop == (|c: char| is_line_end(c)),
            without_leading(chars@, drop) == without_leading(chars@.skip(from as int), drop),
        decreases chars@.len() - from,
    {
        assert(chars@.skip(from as int).skip(1) =~= chars@.skip(from + 1));
        from = from + 1;
    }
    let ghost body = chars@.skip(from as int);
    assert(without_leading(chars@, drop) == body);
    let mut to: usize = chars.len();
    assert(body.take(to - from) =~= body);
    while to > from && (chars[to - 1] == '\0' || chars[to - 1] == '\r' || chars[to - 1] == '\n')
        invariant
            from <= to <= chars@.len(),
            drop == (|c: char| is_line_end(c)),
            body == chars@.skip(from as int),
            without_trailing(body, drop) == without_trailing(body.take(to - from), drop),
        decreases to,
    {
        assert(body.take(to - from).last() == chars@[to - 1]);
        assert(body.take(to - from).drop_last() =~= body.take(to - 1 - from));
        to = to - 1;
    }
    assert(without_trailing(body, drop) == body.take(to - from)) by {
        if to > from {
            assert(body.take(to - from).last() == chars@[to - 1]);
        }
    }
    let inner = text_between(&chars, from, to);
    assert(inner@ =~= body.take(to - from));
    trim(inner.as_str())
}

/// The signature that an answer names: what stands before ` FOUND`, without the stream's
/// name and without white space around it.
pub open spec fn named_signature(answer: Seq<char>) -> Seq<char> {
    let head = answer.take(answer.len() - " FOUND"@.len());
    trimmed(
        if begins_with(head, "stream: "@) {
            head.skip("stream: "@.len() as int)
        } else {
            head
        },
    )
}

/// What an answer to a scan says.
pub open spec fn verdict_of(response: Seq<char>) -> VerdictView {
    let answer = trimmed(response);
    if finishes_with(answer, " OK"@) || answer == "OK"@ {
        VerdictView::Clean
    } else if finishes_with(answer, " FOUND"@) && named_signature(answer).len() > 0 {
        VerdictView::Found(named_signature(answer))
    } else {
        VerdictView::Unavailable("clamd returned: "@ + answer)
    }
}

pub fn parse_scan_response(response: &str) -> (verdict: ClamAvVerdict)
    ensures
        verdict@ == verdict_of(response@),
{
    let answer = trim(response);
    if ends_with(answer.as_str(), " OK") || same_text(answer.as_str(), "OK") {
        return ClamAvVerdict::Clean;
    }
    if ends_with(answer.as_str(), " FOUND") {
        let chars = chars_of(answer.as_str());
        let tail: usize = " FOUND".unicode_len();
        let size: usize = chars.len();
        let head = text_between(&chars, 0, size - tail);
        assert(head@ =~= answer@.take(answer@.len() - " FOUND"@.len()));
        let named = if starts_with(head.as_str(), "stream: ") {
            let letters = chars_of(head.as_str());
            let start: usize = "stream: ".unicode_len();
            let cut = text_between(&letters, start, letters.len());
            assert(cut@ =~= head@.skip("stream: "@.len() as int));
            cut
        } else {
            head
        };
        let signature = trim(named.as_str());
        assert(signature@ == named_signature(answer@));
        if signature.as_str().unicode_len() > 0 {
            return ClamAvVerdict::Found { signature };
        }
    }
    ClamAvVerdict::Unavailable { message: concat2("clamd returned: ", answer.as_str()) }
}

/// Every white space as a blank.
pub open spec fn spaced(s: Seq<char>) -> Seq<char> {
    Seq::new(
        s.len(),
        |i: int|
            if is_white(s[i]) {
                ' '
            } else {
                s[i]
            },
    )
}

/// The word is the name of a signature database.
pub open spec fn names_database(word: Seq<char>) -> bool {
    begins_with(word, "daily."@) || begins_with(word, "main."@) || begins_with(word, "bytecode."@)
}

pub open spec fn first_database(words: Seq<Seq<char>>) -> Option<Seq<char>>
    decreases words.len(),
{
    if words.len() == 0 {
        None
    } else if names_database(words[0]) {
        Some(words[0])
    } else {
        first_database(words.skip(1))
    }
}

/// The first word of a version text that is the name of a signature database.
pub open spec fn database_version(version: Seq<char>) -> Option<Seq<char>> {
    first_database(split_by(spaced(version), ' '))
}

pub fn extract_database_version(version: &str) -> (found: Option<String>)
    ensures
        maybe_text(found) == database_version(version@),
{
    let chars = chars_of(version);
    let mut blank: Vec<char> = Vec::new();
    let mut i: usize = 0;
    while i < chars.len()
        invariant
            i <= chars@.len(),
            chars@ == version@,
            blank@ == spaced(version@).take(i as int),
        decreases chars@.len() - i,
    {
        blank.push(if white(chars[i]) { ' ' } else { chars[i] });
        assert(spaced(version@).take(i + 1) =~= spaced(version@).take(i as int).push(
            spaced(version@)[i as int],
        ));
        i = i + 1;
    }
    assert(spaced(version@).take(i as int) =~= spaced(version@));
    let words = split_chars(&blank, ' ');
    let ghost all = texts(words@);
    let mut k: usize = 0;
    assert(all.skip(0) =~= all);
    while k < words.len()
        invariant
            k <= words@.len(),
            all == texts(words@),
            all == split_by(spaced(version@), ' '),
            first_database(all) == first_database(all.skip(k as int)),
        decreases words@.len() - k,
    {
        let word = words[k].as_str();
        assert(all.skip(k as int)[0] == word@);
        if starts_with(word, "daily.") || starts_with(word, "main.") || starts_with(
            word,
            "bytecode.",
        ) {
            return Some(words[k].clone());
        }
        assert(all.skip(k as int).skip(1) =~= all.skip(k + 1));
        k = k + 1;
    }
    None
}

/// What is left to do with an answer after one more read.
#[derive(Debug, Clone, Copy, PartialEq, Eq, Structural)]
pub enum ResponseProgress {
    /// The answer is not complete.
    More,
    /// The answer is complete.
    Complete,
    /// The daemon closed the connection without an answer.
    Empty,
    /// The answer is too long.
    TooLong,
}

/// The answer after a read that gave `part`; an empty part is the end of the connection.
/// An answer ends at a NUL, at a line feed or with the connection.
pub open spec fn progress_of(response: Seq<u8>, part: Seq<u8>) -> ResponseProgress {
    let whole = response + part;
    if part.len() == 0 {
        if response.len() == 0 {
            ResponseProgress::Empty
        } else {
            ResponseProgress::Complete
        }
    } else if whole.contains(0u8) || whole.contains(10u8) {
        ResponseProgress::Complete
    } else if whole.len() >= MAX_RESPONSE_BYTES {
        ResponseProgress::TooLong
    } else {
        ResponseProgress::More
    }
}

impl ResponseProgress {
    /// What is wrong with the answer.
    pub open spec fn failure_text(self) -> Option<Seq<char>> {
        match self {
            ResponseProgress::Empty => Some("clamd returned an empty response"@),
            ResponseProgress::TooLong => Some("clamd response exceeds limit"@),
            _ => None,
        }
    }

    pub fn failure(self) -> (message: Option<String>)
        ensures
            maybe_text(message) == self.failure_text(),
    {
        match self {
            ResponseProgress::Empty => Some("clamd returned an empty response".to_string()),
            ResponseProgress::TooLong => Some("clamd response exceeds limit".to_string()),
            _ => None,
        }
    }
}

fn holds_byte(bytes: &[u8], b: u8) -> (found: bool)
    ensures
        found == bytes@.contains(b),
{
    let mut i: usize = 0;
    while i < bytes.len()
        invariant
            i <= bytes@.len(),
            forall|k: int| 0 <= k < i ==> bytes@[k] != b,
        decreases bytes@.len() - i,
    {
        if bytes[i] == b {
            return true;
        }
        i = i + 1;
    }
    false
}

/// Appends a read to an answer and says what is left to do.
pub fn read_response(response: &mut Vec<u8>, part: &[u8]) -> (progress: ResponseProgress)
    ensures
        final(response)@ == old(response)@ + part@,
        progress == progress_of(old(response)@, part@),
{
    if part.len() == 0 {
        assert(response@ + part@ =~= response@);
        return if response.len() == 0 {
            ResponseProgress::Empty
        } else {
            ResponseProgress::Complete
        };
    }
    crate::bytes::append_bytes(response, part);
    if holds_byte(response, 0) || holds_byte(response, 10) {
        return ResponseProgress::Complete;
    }
    let size: usize = response.len();
    if size >= MAX_RESPONSE_BYTES {
        return ResponseProgress::TooLong;
    }
    ResponseProgress::More
}

/// The four bytes of a big-endian 32-bit number.
pub open spec fn length_bytes(n: nat) -> Seq<u8> {
    seq![(n / 0x100_0000 % 256) as u8, (n / 0x1_0000 % 256) as u8, (n / 256 % 256) as u8, (n % 256) as u8]
}

/// A piece of a file behind its length.
pub open spec fn framed(chunk: Seq<u8>) -> Seq<u8> {
    length_bytes(chunk.len()) + chunk
}

pub fn frame_chunk(chunk: &[u8]) -> (frame: Vec<u8>)
    requires
        chunk@.len() <= 0xFFFF_FFFF,
    ensures
        frame@ == framed(chunk@),
{
    let size: usize = chunk.len();
    let n: u32 = size as u32;
    let mut frame: Vec<u8> = Vec::new();
    frame.push((n / 0x100_0000 % 256) as u8);
    frame.push((n / 0x1_0000 % 256) as u8);
    frame.push((n / 256 % 256) as u8);
    frame.push((n % 256) as u8);
    assert(frame@ =~= length_bytes(chunk@.len()));
    crate::bytes::append_bytes(&mut frame, chunk);
    frame
}

/// The command that starts a stream.
pub open spec fn stream_command() -> Seq<u8> {
    encode_utf8("zINSTREAM\0"@)
}

/// The command that asks for the version.
pub open spec fn version_command() -> Seq<u8> {
    encode_utf8("nVERSION\n"@)
}

fn command_bytes(command: &str) -> (bytes: Vec<u8>)
    ensures
        bytes@ == encode_utf8(command@),
{
    let mut bytes: Vec<u8> = Vec::new();
    crate::bytes::append_bytes(&mut bytes, command.as_bytes());
    assert(bytes@ =~= encode_utf8(command@));
    bytes
}

pub fn version_request() -> (bytes: Vec<u8>)
    ensures
        bytes@ == version_command(),
{
    command_bytes("nVERSION\n")
}

/// The frames of a file that was read in these pieces.
pub open spec fn frames_of(chunks: Seq<Seq<u8>>) -> Seq<u8>
    decreases chunks.len(),
{
    if chunks.len() == 0 {
        Seq::empty()
    } else {
        framed(chunks[0]) + frames_of(chunks.skip(1))
    }
}

pub open spec fn pieces_joined(chunks: Seq<Seq<u8>>) -> Seq<u8>
    decreases chunks.len(),
{
    if chunks.len() == 0 {
        Seq::empty()
    } else {
        chunks[0] + pieces_joined(chunks.skip(1))
    }
}

/// The big-endian 32-bit number that the bytes start with.
pub open spec fn length_at_start(bytes: Seq<u8>) -> int {
    bytes[0] * 0x100_0000 + bytes[1] * 0x1_0000 + bytes[2] * 256 + bytes[3]
}

/// What a reader of the stream makes of it: pieces behind their lengths, up to an empty
/// one. Nothing, where the stream breaks off before that or goes on behind it.
pub open spec fn unframed(stream: Seq<u8>) -> Option<Seq<u8>>
    decreases stream.len(),
{
    if stream.len() < 4 {
        None
    } else {
        let size = length_at_start(stream);
        if size == 0 {
            if stream.len() == 4 {
                Some(Seq::empty())
            } else {
                None
            }
        } else if stream.len() < 4 + size {
            None
        } else {
            match unframed(stream.skip(4 + size)) {
                Some(rest) => Some(stream.subrange(4, 4 + size) + rest),
                None => None,
            }
        }
    }
}

/// What a file's frames and the empty frame behind them carry is the file, however it was
/// cut into pieces.
pub proof fn law_stream_carries_the_file(chunks: Seq<Seq<u8>>)
    requires
        forall|i: int|
            0 <= i < chunks.len() ==> 0 < (#[trigger] chunks[i]).len() <= STREAM_CHUNK_SIZE,
    ensures
        unframed(frames_of(chunks) + framed(Seq::empty())) == Some(pieces_joined(chunks)),
    decreases chunks.len(),
{
    let last = framed(Seq::<u8>::empty());
    assert(last =~= seq![0u8, 0u8, 0u8, 0u8]);
    if chunks.len() == 0 {
        assert(frames_of(chunks) + last =~= last);
        assert(length_at_start(last) == 0);
    } else {
        let chunk = chunks[0];
        let rest = chunks.skip(1);
        assert forall|i: int| 0 <= i < rest.len() implies 0 < (#[trigger] rest[i]).len()
            <= STREAM_CHUNK_SIZE by {
            assert(rest[i] == chunks[i + 1]);
        }
        law_stream_carries_the_file(rest);
        let tail = frames_of(rest) + last;
        let stream = frames_of(chunks) + last;
        assert(stream =~= length_bytes(chunk.len()) + chunk + tail);
        assert(length_at_start(stream) == chunk.len());
        assert(stream.skip(4 + chunk.len() as int) =~= tail);
        assert(stream.subrange(4, 4 + chunk.len() as int) =~= chunk);
    }
}

/// What the environment says of the client; each setting may be missing.
#[derive(Debug, Clone, Default)]
pub struct ClamAvEnvironment {
    pub endpoint: Option<String>,
    pub connect_timeout_ms: Option<String>,
    pub scan_timeout_ms: Option<String>,
    pub max_stream_bytes: Option<String>,
    pub max_inflight: Option<String>,
    pub retry_cooldown_secs: Option<String>,
}

/// The number that a setting holds.
pub open spec fn setting_of(value: Option<String>, limit: nat) -> Option<nat> {
    match value {
        Some(text) => parsed_unsigned(text@, limit),
        None => None,
    }
}

/// The number that a setting holds, where it is not zero.
pub open spec fn positive_setting(value: Option<String>, limit: nat) -> Option<nat> {
    match setting_of(value, limit) {
        Some(n) => if n > 0 {
            Some(n)
        } else {
            None
        },
        None => None,
    }
}

pub open spec fn maybe_nat(n: Option<u64>) -> Option<nat> {
    match n {
        Some(v) => Some(v as nat),
        None => None,
    }
}

fn read_setting(value: &Option<String>, limit: u64) -> (n: Option<u64>)
    ensures
        maybe_nat(n) == setting_of(*value, limit as nat),
        n matches Some(v) ==> v <= limit,
{
    match value {
        Some(text) => parse_unsigned(&chars_of(text.as_str()), limit),
        None => None,
    }
}

fn read_positive(value: &Option<String>, limit: u64) -> (n: Option<u64>)
    ensures
        maybe_nat(n) == positive_setting(*value, limit as nat),
        n matches Some(v) ==> 0 < v <= limit,
{
    match read_setting(value, limit) {
        Some(v) => if v > 0 {
            Some(v)
        } else {
            None
        },
        None => None,
    }
}

/// A time limit that is set in milliseconds, in nanoseconds.
pub open spec fn millis_setting(value: Option<String>) -> Option<nat> {
    match positive_setting(value, u64::MAX as nat) {
        Some(n) => Some(n * 1_000_000),
        None => None,
    }
}

pub fn env_duration_ms(value: &Option<String>) -> (nanos: Option<u128>)
    ensures
        nanos matches Some(n) ==> millis_setting(*value) == Some(n as nat),
        nanos is None <==> millis_setting(*value) is None,
{
    match read_positive(value, u64::MAX) {
        Some(ms) => Some(ms as u128 * NANOS_PER_MILLI),
        None => None,
    }
}

pub open spec fn or_else(n: Option<nat>, default: nat) -> nat {
    match n {
        Some(v) => v,
        None => default,
    }
}

/// The endpoint that the environment names; the local one where it names none.
pub open spec fn endpoint_setting(value: Option<String>) -> Seq<char> {
    match value {
        Some(text) => if trimmed(text@).len() > 0 {
            text@
        } else {
            DEFAULT_ENDPOINT@
        },
        None => DEFAULT_ENDPOINT@,
    }
}

/// How an attempt to reach the daemon ended.
#[derive(Debug, Clone, PartialEq, Eq)]
pub enum ConnectOutcome {
    Ready,
    /// The endpoint has no address: nothing was tried.
    NoAddress(String),
    /// The daemon did not answer.
    Refused(String),
    /// The daemon answered, but the connection could not be set up.
    Unusable(String),
}

impl ConnectOutcome {
    pub open spec fn error_text(self) -> Option<Seq<char>> {
        match self {
            ConnectOutcome::Ready => None,
            ConnectOutcome::NoAddress(e) => Some(e@),
            ConnectOutcome::Refused(e) => Some(e@),
            ConnectOutcome::Unusable(e) => Some(e@),
        }
    }

    fn error(&self) -> (e: Option<String>)
        ensures
            maybe_text(e) == self.error_text(),
    {
        match self {
            ConnectOutcome::Ready => None,
            ConnectOutcome::NoAddress(e) => Some(e.clone()),
            ConnectOutcome::Refused(e) => Some(e.clone()),
            ConnectOutcome::Unusable(e) => Some(e.clone()),
        }
    }
}

/// A client of a local daemon.
#[derive(Debug)]
pub struct ClamAvClient {
    pub endpoint: String,
    pub connect_timeout: u128,
    pub scan_timeout: u128,
    pub max_stream_bytes: u64,
    pub retry_cooldown: u128,
    /// How many scans may run at once.
    pub capacity: usize,
    /// How many more scans may start.
    pub permits: usize,
    /// When the daemon was last found out of reach, unless it has been reached since.
    pub unavailable_since: Option<u128>,
    pub status: ClamAvStatus,
}

/// What does not change while a client is used.
pub open spec fn same_settings(a: ClamAvClient, b: ClamAvClient) -> bool {
    &&& a.endpoint@ == b.endpoint@
    &&& a.connect_timeout == b.connect_timeout
    &&& a.scan_timeout == b.scan_timeout
    &&& a.max_stream_bytes == b.max_stream_bytes
    &&& a.retry_cooldown == b.retry_cooldown
    &&& a.capacity == b.capacity
}

/// How much of the cooldown is left at `now`: nothing, unless a connection failed less than
/// the cooldown ago.
pub open spec fn cooldown_left(since: Option<u128>, cooldown: u128, now: u128) -> Option<nat> {
    match since {
        Some(failed) => {
            let elapsed = if now >= failed {
                now - failed
            } else {
                0
            };
            if elapsed < cooldown {
                Some((cooldown - elapsed) as nat)
            } else {
                None
            }
        },
        None => None,
    }
}

/// When the daemon was last out of reach, after an attempt to reach it.
pub open spec fn since_after(
    since: Option<u128>,
    outcome: ConnectOutcome,
    now: u128,
) -> Option<u128> {
    match outcome {
        ConnectOutcome::Ready => None,
        ConnectOutcome::NoAddress(_) => since,
        ConnectOutcome::Refused(_) => Some(now),
        ConnectOutcome::Unusable(_) => None,
    }
}

/// The version that the daemon told, or what went wrong.
pub open spec fn probe_answer(
    connection: ConnectOutcome,
    reply: Result<Vec<u8>, String>,
) -> Result<Seq<char>, Seq<char>> {
    match connection.error_text() {
        Some(e) => Err(e),
        None => match reply {
            Ok(response) => Ok(answer_text(response@)),
            Err(e) => Err(e@),
        },
    }
}

/// The status after a probe.
pub open spec fn probed_status(
    endpoint: Seq<char>,
    answer: Result<Seq<char>, Seq<char>>,
) -> StatusView {
    match answer {
        Ok(version) => StatusView {
            available: true,
            version: Some(version),
            database_version: database_version(version),
            message: "clamd ready at "@ + endpoint,
        },
        Err(error) => plain_status(
            false,
            "clamd unavailable at "@ + endpoint + ": "@ + error,
        ),
    }
}

/// The status after a scan: an answer of the daemon replaces it.
pub open spec fn scanned_status(status: StatusView, verdict: VerdictView) -> StatusView {
    match verdict {
        VerdictView::Found(signature) => plain_status(true, "threat found: "@ + signature),
        VerdictView::Clean => plain_status(true, "last scan clean"@),
        VerdictView::Unavailable(_) => status,
    }
}

/// What the caller is to do next in the scan of a file.
#[derive(Debug, Clone, PartialEq, Eq)]
pub enum ScanAction {
    /// Take a permit and open the file.
    Open,
    /// Connect to the daemon.
    Connect,
    /// Send the bytes to the daemon.
    Write(Vec<u8>),
    /// Read a piece of the file, no longer than a frame may be.
    Read,
    /// Read the daemon's answer.
    Receive,
    /// The scan is over.
    Stop(ClamAvVerdict),
}

pub enum ActionView {
    Open,
    Connect,
    Write(Seq<u8>),
    Read,
    Receive,
    Stop(VerdictView),
}

impl View for ScanAction {
    type V = ActionView;

    open spec fn view(&self) -> ActionView {
        match *self {
            ScanAction::Open => ActionView::Open,
            ScanAction::Connect => ActionView::Connect,
            ScanAction::Write(bytes) => ActionView::Write(bytes@),
            ScanAction::Read => ActionView::Read,
            ScanAction::Receive => ActionView::Receive,
            ScanAction::Stop(verdict) => ActionView::Stop(verdict@),
        }
    }
}

/// How the last action of a scan went.
#[derive(Debug, PartialEq, Eq)]
pub enum ScanEvent {
    /// The size of the file.
    Measured(Result<u64, String>),
    Opened(Result<(), String>),
    Connected(ConnectOutcome),
    Written(Result<(), String>),
    /// A piece of the file; an empty one is its end.
    Read(Result<Vec<u8>, String>),
    Received(Result<Vec<u8>, String>),
}

/// How far the scan of a file has come.
#[derive(Debug, Clone, Copy, PartialEq, Eq, Structural)]
pub enum ScanStage {
    Measuring,
    Opening,
    Connecting,
    Greeting,
    Reading,
    Sending,
    Finishing,
    Receiving,
    Over,
}

impl ScanStage {
    /// The event is one that the stage waits for.
    pub open spec fn awaits(self, event: ScanEvent) -> bool {
        match self {
            ScanStage::Measuring => event is Measured,
            ScanStage::Opening => event is Opened,
            ScanStage::Connecting => event is Connected,
            ScanStage::Greeting | ScanStage::Sending | ScanStage::Finishing => event is Written,
            ScanStage::Reading => match event {
                ScanEvent::Read(Ok(chunk)) => chunk@.len() <= STREAM_CHUNK_SIZE,
                ScanEvent::Read(Err(_)) => true,
                _ => false,
            },
            ScanStage::Receiving => event is Received,
            ScanStage::Over => false,
        }
    }
}

pub open spec fn stopped(message: Seq<char>) -> (ScanStage, ActionView) {
    (ScanStage::Over, ActionView::Stop(VerdictView::Unavailable(message)))
}

/// The message for a file that is too large for a stream.
pub open spec fn oversize_text(size: nat, limit: nat) -> Seq<char> {
    "file size "@ + decimal(size) + " exceeds clamd stream limit "@ + decimal(limit)
}

/// The seconds that a message gives for a wait: whole ones, but never none.
pub open spec fn wait_seconds(nanos: nat) -> nat {
    if nanos / 1_000_000_000 > 1 {
        nanos / 1_000_000_000
    } else {
        1
    }
}

pub open spec fn waiting_text(left: nat) -> Seq<char> {
    "clamd unavailable; retrying in "@ + decimal(wait_seconds(left)) + "s"@
}

/// What happens in the scan of a file when the event arrives.
pub open spec fn step_of(
    limit: u64,
    left: Option<nat>,
    stage: ScanStage,
    event: ScanEvent,
) -> (ScanStage, ActionView) {
    match event {
        ScanEvent::Measured(Err(e)) => stopped("unable to read metadata: "@ + e@),
        ScanEvent::Measured(Ok(size)) => if size > limit {
            stopped(oversize_text(size as nat, limit as nat))
        } else {
            match left {
                Some(nanos) => stopped(waiting_text(nanos)),
                None => (ScanStage::Opening, ActionView::Open),
            }
        },
        ScanEvent::Opened(Err(e)) => stopped("unable to open file: "@ + e@),
        ScanEvent::Opened(Ok(_)) => (ScanStage::Connecting, ActionView::Connect),
        ScanEvent::Connected(outcome) => match outcome.error_text() {
            Some(e) => stopped("connection failed: "@ + e),
            None => (ScanStage::Greeting, ActionView::Write(stream_command())),
        },
        ScanEvent::Written(Err(e)) => match stage {
            ScanStage::Greeting => stopped("unable to start clamd stream: "@ + e@),
            ScanStage::Sending => stopped("unable to send file to clamd: "@ + e@),
            _ => stopped("unable to finish clamd stream: "@ + e@),
        },
        ScanEvent::Written(Ok(_)) => if stage == ScanStage::Finishing {
            (ScanStage::Receiving, ActionView::Receive)
        } else {
            (ScanStage::Reading, ActionView::Read)
        },
        ScanEvent::Read(Err(e)) => stopped("unable to read file: "@ + e@),
        ScanEvent::Read(Ok(chunk)) => (
            if chunk@.len() == 0 {
                ScanStage::Finishing
            } else {
                ScanStage::Sending
            },
            ActionView::Write(framed(chunk@)),
        ),
        ScanEvent::Received(Err(e)) => stopped("clamd response failed: "@ + e@),
        ScanEvent::Received(Ok(response)) => (
            ScanStage::Over,
            ActionView::Stop(verdict_of(answer_text(response@))),
        ),
    }
}

pub open spec fn status_after(status: StatusView, action: ActionView) -> StatusView {
    match action {
        ActionView::Stop(verdict) => scanned_status(status, verdict),
        _ => status,
    }
}

fn unavailable(prefix: &str, error: &str) -> (step: (ScanStage, ScanAction))
    ensures
        (step.0, step.1@) == stopped(prefix@ + error@),
{
    (
        ScanStage::Over,
        ScanAction::Stop(ClamAvVerdict::Unavailable { message: concat2(prefix, error) }),
    )
}

impl ClamAvClient {
    /// A client that has not connected yet.
    pub fn new(
        endpoint: String,
        connect_timeout: u128,
        scan_timeout: u128,
        max_stream_bytes: u64,
        max_inflight: usize,
        retry_cooldown: u128,
    ) -> (client: Self)
        ensures
            client.endpoint@ == endpoint@,
            client.connect_timeout == connect_timeout,
            client.scan_timeout == scan_timeout,
            client.max_stream_bytes == (if max_stream_bytes == 0 {
                1
            } else {
                max_stream_bytes
            }),
            client.retry_cooldown == retry_cooldown,
            client.capacity == (if max_inflight == 0 {
                1
            } else {
                max_inflight
            }),
            client.permits == client.capacity,
            client.unavailable_since is None,
            client.status@ == plain_status(false, "not probed"@),
    {
        let capacity: usize = if max_inflight == 0 {
            1
        } else {
            max_inflight
        };
        ClamAvClient {
            endpoint,
            connect_timeout,
            scan_timeout,
            max_stream_bytes: if max_stream_bytes == 0 {
                1
            } else {
                max_stream_bytes
            },
            retry_cooldown,
            capacity,
            permits: capacity,
            unavailable_since: None,
            status: status_with(false, "not probed".to_string()),
        }
    }

    /// A client as the environment asks for it: what it does not set, or sets to something
    /// that cannot be read, has its default.
    pub fn from_environment(environment: &ClamAvEnvironment) -> (client: Self)
        ensures
            client.endpoint@ == endpoint_setting(environment.endpoint),
            client.connect_timeout == or_else(
                millis_setting(environment.connect_timeout_ms),
                DEFAULT_CONNECT_TIMEOUT as nat,
            ),
            client.scan_timeout == or_else(
                millis_setting(environment.scan_timeout_ms),
                DEFAULT_SCAN_TIMEOUT as nat,
            ),
            client.max_stream_bytes == or_else(
                positive_setting(environment.max_stream_bytes, u64::MAX as nat),
                DEFAULT_MAX_STREAM_BYTES as nat,
            ),
            client.capacity == or_else(
                positive_setting(environment.max_inflight, usize::MAX as nat),
                DEFAULT_MAX_INFLIGHT as nat,
            ),
            client.retry_cooldown == (match setting_of(
                environment.retry_cooldown_secs,
                u64::MAX as nat,
            ) {
                Some(seconds) => seconds * 1_000_000_000,
                None => DEFAULT_RETRY_COOLDOWN as nat,
            }),
            client.permits == client.capacity,
            client.unavailable_since is None,
            client.status@ == plain_status(false, "not probed"@),
    {
        let endpoint = match &environment.endpoint {
            Some(text) => if trim(text.as_str()).as_str().unicode_len() > 0 {
                text.clone()
            } else {
                DEFAULT_ENDPOINT.to_string()
            },
            None => DEFAULT_ENDPOINT.to_string(),
        };
        let connect_timeout: u128 = match env_duration_ms(&environment.connect_timeout_ms) {
            Some(nanos) => nanos,
            None => DEFAULT_CONNECT_TIMEOUT,
        };
        let scan_timeout: u128 = match env_duration_ms(&environment.scan_timeout_ms) {
            Some(nanos) => nanos,
            None => DEFAULT_SCAN_TIMEOUT,
        };
        let max_stream_bytes: u64 = match read_positive(&environment.max_stream_bytes, u64::MAX) {
            Some(n) => n,
            None => DEFAULT_MAX_STREAM_BYTES,
        };
        let max_inflight: usize = match read_positive(
            &environment.max_inflight,
            usize::MAX as u64,
        ) {
            Some(n) => n as usize,
            None => DEFAULT_MAX_INFLIGHT,
        };
        let retry_cooldown: u128 = match read_setting(&environment.retry_cooldown_secs, u64::MAX) {
            Some(seconds) => seconds as u128 * NANOS_PER_SECOND,
            None => DEFAULT_RETRY_COOLDOWN,
        };
        ClamAvClient::new(
            endpoint,
            connect_timeout,
            scan_timeout,
            max_stream_bytes,
            max_inflight,
            retry_cooldown,
        )
    }

    pub fn endpoint(&self) -> (endpoint: &str)
        ensures
            endpoint@ == self.endpoint@,
    {
        self.endpoint.as_str()
    }

    pub fn status(&self) -> (status: ClamAvStatus)
        ensures
            status@ == self.status@,
    {
        self.status.duplicate()
    }

    /// Takes one of the permits, where one is left.
    pub fn acquire(&mut self) -> (taken: bool)
        ensures
            same_settings(*final(self), *old(self)),
            final(self).unavailable_since == old(self).unavailable_since,
            final(self).status@ == old(self).status@,
            taken == (old(self).permits > 0),
            final(self).permits == (if taken {
                old(self).permits - 1
            } else {
                0
            }),
    {
        if self.permits > 0 {
            self.permits = self.permits - 1;
            true
        } else {
            false
        }
    }

    /// Gives back a permit that was taken.
    pub fn release(&mut self)
        requires
            old(self).permits < old(self).capacity,
        ensures
            same_settings(*final(self), *old(self)),
            final(self).unavailable_since == old(self).unavailable_since,
            final(self).status@ == old(self).status@,
            final(self).permits == old(self).permits + 1,
    {
        self.permits = self.permits + 1;
    }

    /// How much longer scans leave the daemon alone, after a connection failed a short time
    /// ago. While they do, a batch of files does not pay the connect timeout for each file.
    pub fn in_retry_cooldown(&self, now: u128) -> (left: Option<u128>)
        ensures
            left matches Some(n) ==> cooldown_left(
                self.unavailable_since,
                self.retry_cooldown,
                now,
            ) == Some(n as nat),
            left is None <==> cooldown_left(
                self.unavailable_since,
                self.retry_cooldown,
                now,
            ) is None,
    {
        match self.unavailable_since {
            Some(failed) => {
                let elapsed: u128 = if now >= failed {
                    now - failed
                } else {
                    0
                };
                if elapsed < self.retry_cooldown {
                    Some(self.retry_cooldown - elapsed)
                } else {
                    None
                }
            },
            None => None,
        }
    }

    /// Remembers how an attempt to reach the daemon ended.
    pub fn note_connect_result(&mut self, outcome: &ConnectOutcome, now: u128)
        ensures
            same_settings(*final(self), *old(self)),
            final(self).permits == old(self).permits,
            final(self).status@ == old(self).status@,
            final(self).unavailable_since == since_after(
                old(self).unavailable_since,
                *outcome,
                now,
            ),
    {
        match outcome {
            ConnectOutcome::Ready => {
                self.unavailable_since = None;
            },
            ConnectOutcome::NoAddress(_) => {},
            ConnectOutcome::Refused(_) => {
                self.unavailable_since = Some(now);
            },
            ConnectOutcome::Unusable(_) => {
                self.unavailable_since = None;
            },
        }
    }

    /// Takes in the answer to a version request and remembers the status that follows. A
    /// probe is made in the cooldown too, so that it can see a daemon that came back.
    pub fn probe(
        &mut self,
        connection: &ConnectOutcome,
        reply: &Result<Vec<u8>, String>,
        now: u128,
    ) -> (status: ClamAvStatus)
        ensures
            same_settings(*final(self), *old(self)),
            final(self).permits == old(self).permits,
            status@ == probed_status(old(self).endpoint@, probe_answer(*connection, *reply)),
            final(self).status@ == status@,
            final(self).unavailable_since == (if probe_answer(*connection, *reply) is Ok {
                None
            } else {
                Some(now)
            }),
    {
        let answer: Result<String, String> = match connection.error() {
            Some(e) => Err(e),
            None => match reply {
                Ok(response) => Ok(trim_clamd_response(response)),
                Err(e) => Err(e.clone()),
            },
        };
        let status = match answer {
            Ok(version) => {
                self.unavailable_since = None;
                ClamAvStatus {
                    available: true,
                    database_version: extract_database_version(version.as_str()),
                    version: Some(version),
                    message: concat2("clamd ready at ", self.endpoint.as_str()),
                }
            },
            Err(error) => {
                self.unavailable_since = Some(now);
                let place = concat2("clamd unavailable at ", self.endpoint.as_str());
                let head = concat2(place.as_str(), ": ");
                status_with(false, concat2(head.as_str(), error.as_str()))
            },
        };
        self.publish_status(&status);
        status
    }

    fn publish_status(&mut self, status: &ClamAvStatus)
        ensures
            same_settings(*final(self), *old(self)),
            final(self).permits == old(self).permits,
            final(self).unavailable_since == old(self).unavailable_since,
            final(self).status@ == status@,
    {
        self.status = status.duplicate();
    }

    /// Whether a file of this size is scanned now.
    fn consider(&self, size: u64, now: u128) -> (step: (ScanStage, ScanAction))
        ensures
            (step.0, step.1@) == step_of(
                self.max_stream_bytes,
                cooldown_left(self.unavailable_since, self.retry_cooldown, now),
                ScanStage::Measuring,
                ScanEvent::Measured(Ok(size)),
            ),
    {
        if size > self.max_stream_bytes {
            let head = concat2("file size ", decimal_text(size).as_str());
            let middle = concat2(head.as_str(), " exceeds clamd stream limit ");
            let limit = decimal_text(self.max_stream_bytes);
            return unavailable(middle.as_str(), limit.as_str());
        }
        match self.in_retry_cooldown(now) {
            Some(left) => {
                let whole: u128 = left / NANOS_PER_SECOND;
                let seconds = wide_decimal_text(if whole > 1 { whole } else { 1 });
                let head = concat2("clamd unavailable; retrying in ", seconds.as_str());
                unavailable(head.as_str(), "s")
            },
            None => (ScanStage::Opening, ScanAction::Open),
        }
    }

    /// One step in the scan of a file: takes in how the last action went, and says how far
    /// the scan has come and what is to be done next.
    pub fn scan_path(&mut self, stage: ScanStage, event: &ScanEvent, now: u128) -> (step: (
        ScanStage,
        ScanAction,
    ))
        requires
            stage.awaits(*event),
        ensures
            same_settings(*final(self), *old(self)),
            final(self).permits == old(self).permits,
            (step.0, step.1@) == step_of(
                old(self).max_stream_bytes,
                cooldown_left(old(self).unavailable_since, old(self).retry_cooldown, now),
                stage,
                *event,
            ),
            final(self).unavailable_since == (match *event {
                ScanEvent::Connected(outcome) => since_after(
                    old(self).unavailable_since,
                    outcome,
                    now,
                ),
                _ => old(self).unavailable_since,
            }),
            final(self).status@ == status_after(old(self).status@, step.1@),
    {
        match event {
            ScanEvent::Measured(Err(e)) => unavailable("unable to read metadata: ", e.as_str()),
            ScanEvent::Measured(Ok(size)) => self.consider(*size, now),
            ScanEvent::Opened(Err(e)) => unavailable("unable to open file: ", e.as_str()),
            ScanEvent::Opened(Ok(_)) => (ScanStage::Connecting, ScanAction::Connect),
            ScanEvent::Connected(outcome) => {
                self.note_connect_result(outcome, now);
                match outcome.error() {
                    Some(e) => unavailable("connection failed: ", e.as_str()),
                    None => (
                        ScanStage::Greeting,
                        ScanAction::Write(command_bytes("zINSTREAM\0")),
                    ),
                }
            },
            ScanEvent::Written(Err(e)) => match stage {
                ScanStage::Greeting => unavailable("unable to start clamd stream: ", e.as_str()),
                ScanStage::Sending => unavailable("unable to send file to clamd: ", e.as_str()),
                _ => unavailable("unable to finish clamd stream: ", e.as_str()),
            },
            ScanEvent::Written(Ok(_)) => match stage {
                ScanStage::Finishing => (ScanStage::Receiving, ScanAction::Receive),
                _ => (ScanStage::Reading, ScanAction::Read),
            },
            ScanEvent::Read(Err(e)) => unavailable("unable to read file: ", e.as_str()),
            ScanEvent::Read(Ok(chunk)) => (
                if chunk.len() == 0 {
                    ScanStage::Finishing
                } else {
                    ScanStage::Sending
                },
                ScanAction::Write(frame_chunk(chunk)),
            ),
            ScanEvent::Received(Err(e)) => unavailable("clamd response failed: ", e.as_str()),
            ScanEvent::Received(Ok(response)) => {
                let answer = trim_clamd_response(response);
                let verdict = parse_scan_response(answer.as_str());
                match &verdict {
                    ClamAvVerdict::Found { signature } => {
                        let message = concat2("threat found: ", signature.as_str());
                        self.publish_status(&status_with(true, message));
                    },
                    ClamAvVerdict::Clean => {
                        self.publish_status(&status_with(true, "last scan clean".to_string()));
                    },
                    ClamAvVerdict::Unavailable { .. } => {},
                }
                (ScanStage::Over, ScanAction::Stop(verdict))
            },
        }
    }
}

/// After a connection failed, a scan ends at once without another attempt until the
/// cooldown is over, whatever file it is for.
pub proof fn law_failed_connection_starts_cooldown(
    since: Option<u128>,
    error: String,
    failed: u128,
    cooldown: u128,
    now: u128,
    limit: u64,
    size: u64,
)
    requires
        failed <= now < failed + cooldown,
    ensures
        ({
            let after = since_after(since, ConnectOutcome::Refused(error), failed);
            step_of(
                limit,
                cooldown_left(after, cooldown, now),
                ScanStage::Measuring,
                ScanEvent::Measured(Ok(size)),
            ).1 is Stop
        }),
{
}

/// Once the cooldown is over, a file that is small enough is tried again.
pub proof fn law_cooldown_ends(since: Option<u128>, cooldown: u128, now: u128, limit: u64, size: u64)
    requires
        since matches Some(failed) ==> failed + cooldown <= now,
        size <= limit,
    ensures
        step_of(
            limit,
            cooldown_left(since, cooldown, now),
            ScanStage::Measuring,
            ScanEvent::Measured(Ok(size)),
        ) == (ScanStage::Opening, ActionView::Open),
{
}

/// Reaching the daemon ends the cooldown.
pub proof fn law_connection_ends_cooldown(since: Option<u128>, cooldown: u128, at: u128, now: u128)
    ensures
        cooldown_left(since_after(since, ConnectOutcome::Ready, at), cooldown, now) is None,
{
}

} // verus!
