//! Debug records, one JSON object to a line.
use crate::latency::{as_millis, millis, time_since_epoch, was_read};
use crate::paths::{components, join};
use crate::utils::text::{chars_of, decimal, push_decimal, push_text};
use std::path::PathBuf;
use vstd::prelude::*;

verus! {

/// How many of the first reads are recorded.
pub const FIRST_READS: u64 = 3;

/// How many reads there are between those that are recorded later.
pub const READ_INTERVAL: u64 = 500;

/// How many times dither is applied for one record of it.
pub const DITHER_INTERVAL: u64 = 60;

/// The file of the debug records, below the directory of the package.
pub fn log_path(package_dir: &PathBuf) -> (path: PathBuf)
    ensures
        components(path) == components(*package_dir).push(".cursor"@).push("debug-2feb3d.log"@),
{
    proof {
        reveal_strlit(".cursor");
        reveal_strlit("debug-2feb3d.log");
        assert(".cursor"@[1] == 'c');
        assert("debug-2feb3d.log"@[0] == 'd');
    }
    let dir: PathBuf = join(package_dir, ".cursor");
    join(&dir, "debug-2feb3d.log")
}

/// Whether a character is a control character, which JSON strings do not hold.
pub open spec fn is_control(c: char) -> bool {
    (c as int) < 32
}

/// The hexadecimal digit of a number below sixteen.
pub open spec fn hex_digit(d: int) -> char {
    if d < 10 {
        (('0' as int) + d) as char
    } else {
        (('a' as int) + d - 10) as char
    }
}

/// A character as it stands in a JSON string: quotes and backslashes have a
/// backslash before them, and control characters are given by their number.
pub open spec fn escaped_char(c: char) -> Seq<char> {
    if c == '\\' || c == '"' {
        seq!['\\', c]
    } else if is_control(c) {
        seq!['\\', 'u', '0', '0', hex_digit(c as int / 16), hex_digit(c as int % 16)]
    } else {
        seq![c]
    }
}

/// A text as it stands in a JSON string.
pub open spec fn escaped(s: Seq<char>) -> Seq<char>
    decreases s.len(),
{
    if s.len() == 0 {
        Seq::empty()
    } else {
        escaped(s.drop_last()) + escaped_char(s.last())
    }
}

/// The hexadecimal digit of a number below sixteen.
fn hex_char(d: u32) -> (c: char)
    requires
        d < 16,
    ensures
        c == hex_digit(d as int),
{
    match d {
        0 => '0',
        1 => '1',
        2 => '2',
        3 => '3',
        4 => '4',
        5 => '5',
        6 => '6',
        7 => '7',
        8 => '8',
        9 => '9',
        10 => 'a',
        11 => 'b',
        12 => 'c',
        13 => 'd',
        14 => 'e',
        _ => 'f',
    }
}

/// A text as it stands in a JSON string.
pub fn escape(message: &str) -> (r: String)
    ensures
        r@ == escaped(message@),
{
    let chars: Vec<char> = chars_of(message);
    let mut r: String = String::new();
    let mut i: usize = 0;
    while i < chars.len()
        invariant
            i <= chars@.len(),
            chars@ == message@,
            r@ == escaped(message@.take(i as int)),
        decreases chars@.len() - i,
    {
        let c: char = chars[i];
        proof {
            lemma_char_number(c);
        }
        let n: u32 = c as u32;
        let ghost before = r@;
        if c == '\\' || c == '"' {
            r.push('\\');
            r.push(c);
        } else if n < 32 {
            r.push('\\');
            r.push('u');
            r.push('0');
            r.push('0');
            r.push(hex_char(n / 16));
            r.push(hex_char(n % 16));
        } else {
            r.push(c);
        }
        i += 1;
        assert(message@.take(i as int).drop_last() =~= message@.take(i - 1));
        assert(r@ =~= before + escaped_char(c));
    }
    assert(message@.take(i as int) =~= message@);
    r
}

/// A debug record: a JSON object on a line of its own, with the line feed that ends it.
pub open spec fn record(
    hypothesis_id: Seq<char>,
    location: Seq<char>,
    message: Seq<char>,
    data: Seq<char>,
    timestamp: nat,
) -> Seq<char> {
    "{\"sessionId\":\""@ + "2feb3d"@ + "\",\"hypothesisId\":\""@ + escaped(hypothesis_id)
        + "\",\"location\":\""@ + escaped(location) + "\",\"message\":\""@ + escaped(message)
        + "\",\"data\":"@ + data + ",\"timestamp\":"@ + decimal(timestamp) + "}\n"@
}

/// A debug record, with the line feed that ends it. `data` should be a small JSON
/// object, such as `{}` or `{"k":1}`; the other texts may hold anything.
pub fn record_line(
    hypothesis_id: &str,
    location: &str,
    message: &str,
    data: &str,
    timestamp: u128,
) -> (r: String)
    ensures
        r@ == record(hypothesis_id@, location@, message@, data@, timestamp as nat),
{
    let mut r: String = String::new();
    let id_escaped: String = escape(hypothesis_id);
    let location_escaped: String = escape(location);
    let message_escaped: String = escape(message);
    push_text(&mut r, "{\"sessionId\":\"");
    push_text(&mut r, "2feb3d");
    push_text(&mut r, "\",\"hypothesisId\":\"");
    push_text(&mut r, id_escaped.as_str());
    push_text(&mut r, "\",\"location\":\"");
    push_text(&mut r, location_escaped.as_str());
    push_text(&mut r, "\",\"message\":\"");
    push_text(&mut r, message_escaped.as_str());
    push_text(&mut r, "\",\"data\":");
    push_text(&mut r, data);
    push_text(&mut r, ",\"timestamp\":");
    push_decimal(&mut r, timestamp);
    push_text(&mut r, "}\n");
    assert(r@ =~= record(hypothesis_id@, location@, message@, data@, timestamp as nat));
    r
}

/// The time of a record in milliseconds since the epoch, zero when the clock is set
/// before it.
pub open spec fn time_of(since_epoch: Option<(u64, u32)>) -> int {
    match since_epoch {
        Some(t) => millis(t.0, t.1),
        None => 0,
    }
}

/// The time of a record.
pub fn record_time(since_epoch: Option<(u64, u32)>) -> (r: u128)
    ensures
        r == time_of(since_epoch),
{
    match since_epoch {
        Some(t) => as_millis(t.0, t.1),
        None => 0,
    }
}

/// The line that is appended to the debug records now, with the time that is read from
/// the clock.
pub fn agent_log(hypothesis_id: &str, location: &str, message: &str, data: &str) -> (line: String)
    ensures
        exists|t: Option<(u64, u32)>| #[trigger]
            was_read(t) && line@ == record(
                hypothesis_id@,
                location@,
                message@,
                data@,
                time_of(t) as nat,
            ),
{
    let t: Option<(u64, u32)> = time_since_epoch();
    assert(was_read(t));
    let timestamp: u128 = record_time(t);
    record_line(hypothesis_id, location, message, data, timestamp)
}

/// Whether a read is recorded: the first few, then one in many.
pub open spec fn is_recorded(calls: u64) -> bool {
    calls <= FIRST_READS || calls as int % READ_INTERVAL as int == 0
}

/// The data of a record of reads.
pub open spec fn progress_text(calls: nat, returned: nat, cumulative: nat) -> Seq<char> {
    "{\"calls\":"@ + decimal(calls) + ",\"returned_bytes\":"@ + decimal(returned)
        + ",\"cumulative_bytes\":"@ + decimal(cumulative) + "}"@
}

/// A counter after `n` more: beyond its greatest value it starts again at zero.
pub open spec fn counted(count: u64, n: u64) -> u64 {
    ((count + n) % 0x1_0000_0000_0000_0000) as u64
}

/// Counts one more read of `returned` bytes, after `calls` reads of `cumulative`
/// bytes in all: the new counts, and the data of the record when one is made.
pub fn read_progress(calls: u64, cumulative: u64, returned: u64) -> (r: (u64, u64, Option<String>))
    ensures
        r.0 == counted(calls, 1),
        r.1 == counted(cumulative, returned),
        r.2 is Some <==> is_recorded(r.0),
        r.2 matches Some(data) ==> data@ == progress_text(r.0 as nat, returned as nat, r.1 as nat),
{
    let n: u64 = calls.wrapping_add(1);
    let bytes: u64 = cumulative.wrapping_add(returned);
    if n <= FIRST_READS || n % READ_INTERVAL == 0 {
        let mut data: String = String::new();
        push_text(&mut data, "{\"calls\":");
        push_decimal(&mut data, n as u128);
        push_text(&mut data, ",\"returned_bytes\":");
        push_decimal(&mut data, returned as u128);
        push_text(&mut data, ",\"cumulative_bytes\":");
        push_decimal(&mut data, bytes as u128);
        push_text(&mut data, "}");
        assert(data@ =~= progress_text(n as nat, returned as nat, bytes as nat));
        (n, bytes, Some(data))
    } else {
        (n, bytes, None)
    }
}

/// What was dithered.
#[derive(Clone, Copy, Debug, PartialEq, Eq, Structural)]
pub enum DitherTag {
    /// Quiet samples that were captured.
    CaptureOk,
    /// The silence that bridges a stalled capture.
    RecvTimeoutSilence,
}

impl DitherTag {
    /// The tag as it stands in a record.
    pub open spec fn text(self) -> Seq<char> {
        match self {
            DitherTag::CaptureOk => "capture_ok"@,
            DitherTag::RecvTimeoutSilence => "recv_timeout_silence"@,
        }
    }
}

/// The data of a record of dither.
pub open spec fn dither_text(tag: DitherTag, applies: nat) -> Seq<char> {
    "{\"tag\":\""@ + tag.text() + "\",\"applies\":"@ + decimal(applies) + "}"@
}

/// Counts one more time that dither was applied, after `applies` of them: the new
/// count, and the data of the record when one is made.
pub fn dither_progress(applies: u64, tag: DitherTag) -> (r: (u64, Option<String>))
    ensures
        r.0 == counted(applies, 1),
        r.1 is Some <==> r.0 as int % DITHER_INTERVAL as int == 0,
        r.1 matches Some(data) ==> data@ == dither_text(tag, r.0 as nat),
{
    let n: u64 = applies.wrapping_add(1);
    if n % DITHER_INTERVAL == 0 {
        let mut data: String = String::new();
        push_text(&mut data, "{\"tag\":\"");
        match tag {
            DitherTag::CaptureOk => push_text(&mut data, "capture_ok"),
            DitherTag::RecvTimeoutSilence => push_text(&mut data, "recv_timeout_silence"),
        }
        push_text(&mut data, "\",\"applies\":");
        push_decimal(&mut data, n as u128);
        push_text(&mut data, "}");
        assert(data@ =~= dither_text(tag, n as nat));
        (n, Some(data))
    } else {
        (n, None)
    }
}

/// The data of a record of a buffer with no room for four samples.
pub fn partial_buffer_data(buf_len: usize, chunk_bytes: usize) -> (r: String)
    ensures
        r@ == "{\"buf_len\":"@ + decimal(buf_len as nat) + ",\"buf_chunksize\":"@ + decimal(
            chunk_bytes as nat,
        ) + "}"@,
{
    let mut r: String = String::new();
    push_text(&mut r, "{\"buf_len\":");
    push_decimal(&mut r, buf_len as u128);
    push_text(&mut r, ",\"buf_chunksize\":");
    push_decimal(&mut r, chunk_bytes as u128);
    push_text(&mut r, "}");
    r
}

/// The number of a hexadecimal digit.
pub open spec fn hex_value(c: char) -> Option<int> {
    if '0' <= c && c <= '9' {
        Some(c as int - '0' as int)
    } else if 'a' <= c && c <= 'f' {
        Some(c as int - 'a' as int + 10)
    } else if 'A' <= c && c <= 'F' {
        Some(c as int - 'A' as int + 10)
    } else {
        None
    }
}

/// The number of the four hexadecimal digits with which `s` starts.
pub open spec fn hex4(s: Seq<char>) -> Option<int> {
    if s.len() < 4 {
        None
    } else {
        match (hex_value(s[0]), hex_value(s[1]), hex_value(s[2]), hex_value(s[3])) {
            (Some(a), Some(b), Some(c), Some(d)) => Some(4096 * a + 256 * b + 16 * c + d),
            _ => None,
        }
    }
}

/// Reads what follows a backslash in a JSON string: the character that it stands for,
/// and how long it is. A character beyond the first 65536 is given by two numbers.
pub open spec fn read_escape(s: Seq<char>) -> Option<(char, int)> {
    if s.len() == 0 {
        None
    } else if s[0] == '"' || s[0] == '\\' || s[0] == '/' {
        Some((s[0], 1))
    } else if s[0] == 'b' {
        Some((8int as char, 1))
    } else if s[0] == 'f' {
        Some((12int as char, 1))
    } else if s[0] == 'n' {
        Some(('\n', 1))
    } else if s[0] == 'r' {
        Some(('\r', 1))
    } else if s[0] == 't' {
        Some(('\t', 1))
    } else if s[0] == 'u' {
        match hex4(s.skip(1)) {
            None => None,
            Some(v) => if 0xd800 <= v <= 0xdbff {
                if s.len() < 11 || s[5] != '\\' || s[6] != 'u' {
                    None
                } else {
                    match hex4(s.skip(7)) {
                        Some(w) => if 0xdc00 <= w <= 0xdfff {
                            Some(((0x10000 + 0x400 * (v - 0xd800) + (w - 0xdc00)) as char, 11))
                        } else {
                            None
                        },
                        None => None,
                    }
                }
            } else if 0xdc00 <= v <= 0xdfff {
                None
            } else {
                Some((v as char, 5))
            },
        }
    } else {
        None
    }
}

/// Reads a JSON string up to the quote that ends it: its text, and what follows.
pub open spec fn read_string(s: Seq<char>) -> Option<(Seq<char>, Seq<char>)>
    decreases s.len(),
{
    if s.len() == 0 || is_control(s[0]) {
        None
    } else if s[0] == '"' {
        Some((Seq::empty(), s.skip(1)))
    } else if s[0] == '\\' {
        match read_escape(s.skip(1)) {
            Some((c, n)) => match read_string(s.skip(1 + n)) {
                Some(r) => Some((seq![c] + r.0, r.1)),
                None => None,
            },
            None => None,
        }
    } else {
        match read_string(s.skip(1)) {
            Some(r) => Some((seq![s[0]] + r.0, r.1)),
            None => None,
        }
    }
}

/// A JSON reader gets an escaped text back, whatever it holds, and goes on behind it.
pub proof fn law_escaped_text_is_read_back(text: Seq<char>, rest: Seq<char>)
    ensures
        read_string(escaped(text) + seq!['"'] + rest) == Some((text, rest)),
    decreases text.len(),
{
    let s = escaped(text) + seq!['"'] + rest;
    if text.len() == 0 {
        assert(s.skip(1) =~= rest);
        assert(text =~= Seq::empty());
    } else {
        let c = text[0];
        let tail = text.drop_first();
        lemma_escaped_front(text);
        law_escaped_text_is_read_back(tail, rest);
        let t = escaped(tail) + seq!['"'] + rest;
        assert(s =~= escaped_char(c) + t);
        lemma_char_is_read_back(c, t, tail, rest);
        assert(seq![c] + tail =~= text);
    }
}

/// A character is a number that is not negative, and that number's character.
pub proof fn lemma_char_number(c: char)
    ensures
        0 <= c as int,
        c as u32 == c as int,
        (c as int) as char == c,
{
}

/// A character that stands before a JSON string is read before it.
proof fn lemma_char_is_read_back(c: char, t: Seq<char>, text: Seq<char>, rest: Seq<char>)
    requires
        read_string(t) == Some((text, rest)),
    ensures
        read_string(escaped_char(c) + t) == Some((seq![c] + text, rest)),
{
    let s = escaped_char(c) + t;
    if c == '\\' || c == '"' {
        assert(s.skip(1)[0] == c);
        assert(read_escape(s.skip(1)) == Some((c, 1int)));
        assert(s.skip(2) =~= t);
    } else if is_control(c) {
        lemma_control_is_read_back(c, t);
        assert(s.skip(6) =~= t);
    } else {
        assert(s.skip(1) =~= t);
    }
}

/// A control character is read back from its number.
proof fn lemma_control_is_read_back(c: char, rest: Seq<char>)
    requires
        is_control(c),
    ensures
        read_escape((escaped_char(c) + rest).skip(1)) == Some((c, 5int)),
{
    let u = (escaped_char(c) + rest).skip(1);
    let h = u.skip(1);
    assert(u[0] == 'u');
    assert(h[0] == '0' && h[1] == '0');
    assert(h[2] == hex_digit(c as int / 16) && h[3] == hex_digit(c as int % 16));
    lemma_hex_digit(c as int / 16);
    lemma_hex_digit(c as int % 16);
    assert(hex4(h) == Some(c as int));
}

/// A hexadecimal digit has its number.
proof fn lemma_hex_digit(d: int)
    requires
        0 <= d < 16,
    ensures
        hex_value(hex_digit(d)) == Some(d),
{
}

/// What follows `literal` in `s`, when `s` starts with it.
pub open spec fn after_literal(s: Seq<char>, literal: Seq<char>) -> Option<Seq<char>> {
    if literal.len() <= s.len() && s.take(literal.len() as int) == literal {
        Some(s.skip(literal.len() as int))
    } else {
        None
    }
}

/// The JSON string behind `literal` in `s`, and what follows it.
pub open spec fn read_field(s: Seq<char>, literal: Seq<char>) -> Option<(Seq<char>, Seq<char>)> {
    match after_literal(s, literal) {
        Some(rest) => read_string(rest),
        None => None,
    }
}

/// A field of a record is read back.
proof fn lemma_field_is_read_back(literal: Seq<char>, text: Seq<char>, rest: Seq<char>)
    ensures
        read_field(literal + escaped(text) + seq!['"'] + rest, literal) == Some((text, rest)),
{
    let s = literal + escaped(text) + seq!['"'] + rest;
    assert(s.take(literal.len() as int) =~= literal);
    assert(s.skip(literal.len() as int) =~= escaped(text) + seq!['"'] + rest);
    law_escaped_text_is_read_back(text, rest);
}

/// What a reader gets out of a record before its data.
pub struct RecordTexts {
    pub session: Seq<char>,
    pub hypothesis_id: Seq<char>,
    pub location: Seq<char>,
    pub message: Seq<char>,
    pub rest: Seq<char>,
}

/// Reads the four texts of a record, one after the other.
pub open spec fn read_record(s: Seq<char>) -> Option<RecordTexts> {
    match read_field(s, "{\"sessionId\":\""@) {
        None => None,
        Some((session, s1)) => match read_field(s1, ",\"hypothesisId\":\""@) {
            None => None,
            Some((hypothesis_id, s2)) => match read_field(s2, ",\"location\":\""@) {
                None => None,
                Some((location, s3)) => match read_field(s3, ",\"message\":\""@) {
                    None => None,
                    Some((message, rest)) => Some(
                        RecordTexts { session, hypothesis_id, location, message, rest },
                    ),
                },
            },
        },
    }
}

/// A reader of a record gets its texts back, whatever they hold, and then the data and
/// the time.
pub proof fn law_record_is_read_back(
    hypothesis_id: Seq<char>,
    location: Seq<char>,
    message: Seq<char>,
    data: Seq<char>,
    timestamp: nat,
)
    ensures
        read_record(record(hypothesis_id, location, message, data, timestamp)) == Some(
            RecordTexts {
                session: "2feb3d"@,
                hypothesis_id,
                location,
                message,
                rest: ",\"data\":"@ + data + ",\"timestamp\":"@ + decimal(timestamp) + "}\n"@,
            },
        ),
{
    reveal_strlit("2feb3d");
    reveal_strlit("\",\"hypothesisId\":\"");
    reveal_strlit(",\"hypothesisId\":\"");
    reveal_strlit("\",\"location\":\"");
    reveal_strlit(",\"location\":\"");
    reveal_strlit("\",\"message\":\"");
    reveal_strlit(",\"message\":\"");
    reveal_strlit("\",\"data\":");
    reveal_strlit(",\"data\":");
    let q = seq!['"'];
    assert("\",\"hypothesisId\":\""@ =~= q + ",\"hypothesisId\":\""@);
    assert("\",\"location\":\""@ =~= q + ",\"location\":\""@);
    assert("\",\"message\":\""@ =~= q + ",\"message\":\""@);
    assert("\",\"data\":"@ =~= q + ",\"data\":"@);
    lemma_plain_text("2feb3d"@);
    let r4 = ",\"data\":"@ + data + ",\"timestamp\":"@ + decimal(timestamp) + "}\n"@;
    let r3 = ",\"message\":\""@ + escaped(message) + q + r4;
    let r2 = ",\"location\":\""@ + escaped(location) + q + r3;
    let r1 = ",\"hypothesisId\":\""@ + escaped(hypothesis_id) + q + r2;
    let r = record(hypothesis_id, location, message, data, timestamp);
    assert(r =~= "{\"sessionId\":\""@ + escaped("2feb3d"@) + q + r1);
    lemma_field_is_read_back("{\"sessionId\":\""@, "2feb3d"@, r1);
    lemma_field_is_read_back(",\"hypothesisId\":\""@, hypothesis_id, r2);
    lemma_field_is_read_back(",\"location\":\""@, location, r3);
    lemma_field_is_read_back(",\"message\":\""@, message, r4);
}

/// A text without quotes, backslashes and control characters stands for itself.
proof fn lemma_plain_text(s: Seq<char>)
    requires
        forall|i: int|
            0 <= i < s.len() ==> !is_control(#[trigger] s[i]) && s[i] != '"' && s[i] != '\\',
    ensures
        escaped(s) == s,
    decreases s.len(),
{
    if s.len() > 0 {
        assert(forall|i: int| 0 <= i < s.len() - 1 ==> #[trigger] s.drop_last()[i] == s[i]);
        lemma_plain_text(s.drop_last());
        assert(s.last() == s[s.len() - 1]);
        assert(escaped(s) =~= s);
    } else {
        assert(escaped(s) =~= s);
    }
}

/// A text is escaped from its front as from its end.
proof fn lemma_escaped_front(s: Seq<char>)
    requires
        s.len() > 0,
    ensures
        escaped(s) == escaped_char(s[0]) + escaped(s.drop_first()),
    decreases s.len(),
{
    if s.len() == 1 {
        assert(s.drop_last() =~= Seq::empty());
        assert(s.drop_first() =~= Seq::empty());
        assert(escaped(s) =~= escaped_char(s[0]) + escaped(s.drop_first()));
    } else {
        lemma_escaped_front(s.drop_last());
        assert(s.drop_last().drop_first() =~= s.drop_first().drop_last());
        assert(escaped(s) =~= escaped_char(s[0]) + escaped(s.drop_first()));
    }
}

/// Whether a text is free of line feeds.
pub open spec fn single_line(s: Seq<char>) -> bool {
    forall|i: int| 0 <= i < s.len() ==> #[trigger] s[i] != '\n'
}

/// An escaped text has no line feeds, whatever it holds.
proof fn lemma_escaped_single_line(s: Seq<char>)
    ensures
        single_line(escaped(s)),
    decreases s.len(),
{
    if s.len() > 0 {
        lemma_escaped_single_line(s.drop_last());
        let c = s.last();
        lemma_char_number(c);
        if is_control(c) {
            lemma_hex_digit(c as int / 16);
            lemma_hex_digit(c as int % 16);
        }
        assert(single_line(escaped_char(c)));
    }
}

/// Digits are no line feeds.
proof fn lemma_decimal_single_line(n: nat)
    ensures
        single_line(decimal(n)),
{
    crate::utils::text::law_decimal_round_trip(n);
    assert forall|i: int| 0 <= i < decimal(n).len() implies #[trigger] decimal(n)[i] != '\n' by {
        assert(crate::utils::text::is_digit(decimal(n)[i]));
    }
}

/// A record of data without line feeds is one line, whatever the other texts hold: its
/// only line feed is its last character.
pub proof fn law_record_is_one_line(
    hypothesis_id: Seq<char>,
    location: Seq<char>,
    message: Seq<char>,
    data: Seq<char>,
    timestamp: nat,
)
    requires
        single_line(data),
    ensures
        ({
            let r = record(hypothesis_id, location, message, data, timestamp);
            r.len() > 0 && r.last() == '\n' && single_line(r.drop_last())
        }),
{
    let r = record(hypothesis_id, location, message, data, timestamp);
    reveal_strlit("{\"sessionId\":\"");
    reveal_strlit("2feb3d");
    reveal_strlit("\",\"hypothesisId\":\"");
    reveal_strlit("\",\"location\":\"");
    reveal_strlit("\",\"message\":\"");
    reveal_strlit("\",\"data\":");
    reveal_strlit(",\"timestamp\":");
    reveal_strlit("}\n");
    lemma_escaped_single_line(hypothesis_id);
    lemma_escaped_single_line(location);
    lemma_escaped_single_line(message);
    lemma_decimal_single_line(timestamp);
    let a = "{\"sessionId\":\""@ + "2feb3d"@ + "\",\"hypothesisId\":\""@ + escaped(hypothesis_id)
        + "\",\"location\":\""@ + escaped(location) + "\",\"message\":\""@ + escaped(message)
        + "\",\"data\":"@ + data + ",\"timestamp\":"@ + decimal(timestamp);
    assert(single_line(a));
    assert(r =~= a.push('}').push('\n'));
    assert(r.drop_last() =~= a.push('}'));
}

} // verus!
