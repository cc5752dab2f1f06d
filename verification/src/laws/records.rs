//! The debug records.
use crate::debug_agent::{
    agent_log, dither_progress, escape, escaped, escaped_char, law_escaped_text_is_read_back,
    log_path, partial_buffer_data, read_progress, read_string, record_line, record_time, DitherTag,
};
use crate::latency::was_read;
use crate::laws::text::{lemma_decimal_spells, spells};
use crate::paths::components;
use crate::utils::text::decimal;
use std::path::PathBuf;
use vstd::prelude::*;

verus! {

/// An escaped text ends at its own quote, and a JSON reader gets the text out of it.
pub proof fn law_escaped_text_can_be_read(text: &str, r: String, rest: Seq<char>)
    requires
        call_ensures(escape, (text,), r),
    ensures
        read_string(r@ + seq!['"'] + rest) == Some((text@, rest)),
{
    law_escaped_text_is_read_back(text@, rest);
}

/// The escapes of a text are those of its characters, one after the other.
pub proof fn law_texts_are_escaped_one_after_the_other(
    a: &str,
    b: &str,
    ab: &str,
    ra: String,
    rb: String,
    rab: String,
)
    requires
        ab@ == a@ + b@,
        call_ensures(escape, (a,), ra),
        call_ensures(escape, (b,), rb),
        call_ensures(escape, (ab,), rab),
    ensures
        rab@ == ra@ + rb@,
{
    lemma_escaped_concat(a@, b@);
}

/// Escaped parts are those of the whole.
proof fn lemma_escaped_concat(a: Seq<char>, b: Seq<char>)
    ensures
        escaped(a + b) == escaped(a) + escaped(b),
    decreases b.len(),
{
    if b.len() == 0 {
        assert(a + b =~= a);
        assert(escaped(a) + escaped(b) =~= escaped(a));
    } else {
        lemma_escaped_concat(a, b.drop_last());
        assert((a + b).drop_last() =~= a + b.drop_last());
        assert(escaped(a + b) =~= escaped(a) + escaped(b));
    }
}

/// A backslash (92) or a quote (34) gets a backslash before it, a character below 32 is
/// written as `\u00` and its two hexadecimal digits, and any other stays as it is.
pub proof fn law_characters_are_escaped(text: &str, r: String)
    requires
        call_ensures(escape, (text,), r),
        text@.len() == 1,
    ensures
        ({
            let c = text@[0] as int;
            if c == 92 || c == 34 {
                r@ == seq!['\\', text@[0]]
            } else if c < 32 {
                &&& r@.len() == 6
                &&& r@.take(4) == seq!['\\', 'u', '0', '0']
                &&& r@[4] as int == 48 + c / 16
                &&& r@[5] as int == if c % 16 < 10 {
                    48 + c % 16
                } else {
                    87 + c % 16
                }
            } else {
                r@ == text@
            }
        }),
{
    reveal_with_fuel(escaped, 2);
    assert(text@.drop_last() =~= Seq::empty());
    let c = text@[0];
    assert(text@.last() == c);
    crate::debug_agent::lemma_char_number(c);
    assert(r@ =~= escaped_char(c));
    if (c as int) < 32 {
        assert(r@.take(4) =~= seq!['\\', 'u', '0', '0']);
    } else if c as int != 92 && c as int != 34 {
        assert(r@ =~= text@);
    }
}

/// A record is the JSON object of the session `2feb3d` with the three texts, each as it is
/// escaped, the data as it is given and the time in digits, on a line of its own.
pub proof fn law_record_is_the_object_of_its_parts(
    hypothesis_id: &str,
    location: &str,
    message: &str,
    data: &str,
    timestamp: u128,
    r: String,
    id_escaped: String,
    location_escaped: String,
    message_escaped: String,
)
    requires
        call_ensures(record_line, (hypothesis_id, location, message, data, timestamp), r),
        call_ensures(escape, (hypothesis_id,), id_escaped),
        call_ensures(escape, (location,), location_escaped),
        call_ensures(escape, (message,), message_escaped),
    ensures
        exists|digits: Seq<char>|
            {
                &&& #[trigger] spells(digits, timestamp as int)
                &&& r@ == "{\"sessionId\":\"2feb3d\",\"hypothesisId\":\""@ + id_escaped@
                    + "\",\"location\":\""@ + location_escaped@ + "\",\"message\":\""@
                    + message_escaped@ + "\",\"data\":"@ + data@ + ",\"timestamp\":"@ + digits
                    + "}\n"@
            },
{
    lemma_decimal_spells(timestamp as nat);
    reveal_strlit("{\"sessionId\":\"2feb3d\",\"hypothesisId\":\"");
    reveal_strlit("{\"sessionId\":\"");
    reveal_strlit("2feb3d");
    reveal_strlit("\",\"hypothesisId\":\"");
    assert("{\"sessionId\":\""@ + "2feb3d"@ + "\",\"hypothesisId\":\""@
        =~= "{\"sessionId\":\"2feb3d\",\"hypothesisId\":\""@);
}

/// The time of a record is in whole milliseconds, zero for a clock that is set before the
/// epoch.
pub proof fn law_record_time_is_milliseconds(since_epoch: Option<(u64, u32)>, r: u128)
    requires
        call_ensures(record_time, (since_epoch,), r),
    ensures
        since_epoch is None ==> r == 0,
        since_epoch matches Some(t) ==> r * 1_000_000 <= t.0 * 1_000_000_000 + t.1 < r * 1_000_000
            + 1_000_000,
{
}

/// What is logged now is the record of the texts with the time of the clock.
pub proof fn law_log_has_the_time_of_the_clock(
    hypothesis_id: &str,
    location: &str,
    message: &str,
    data: &str,
    line: String,
    id_escaped: String,
    location_escaped: String,
    message_escaped: String,
)
    requires
        call_ensures(agent_log, (hypothesis_id, location, message, data), line),
        call_ensures(escape, (hypothesis_id,), id_escaped),
        call_ensures(escape, (location,), location_escaped),
        call_ensures(escape, (message,), message_escaped),
    ensures
        exists|t: Option<(u64, u32)>, time: int, digits: Seq<char>|
            {
                &&& #[trigger] was_read(t)
                &&& t is None ==> time == 0
                &&& t matches Some(p) ==> time == p.0 * 1000 + p.1 as int / 1_000_000
                &&& #[trigger] spells(digits, time)
                &&& line@ == "{\"sessionId\":\"2feb3d\",\"hypothesisId\":\""@ + id_escaped@
                    + "\",\"location\":\""@ + location_escaped@ + "\",\"message\":\""@
                    + message_escaped@ + "\",\"data\":"@ + data@ + ",\"timestamp\":"@ + digits
                    + "}\n"@
            },
{
    let t = choose|t: Option<(u64, u32)>| #[trigger]
        was_read(t) && line@ == crate::debug_agent::record(
            hypothesis_id@,
            location@,
            message@,
            data@,
            crate::debug_agent::time_of(t) as nat,
        );
    let time = crate::debug_agent::time_of(t);
    assert(time >= 0);
    lemma_decimal_spells(time as nat);
    let digits = decimal(time as nat);
    reveal_strlit("{\"sessionId\":\"2feb3d\",\"hypothesisId\":\"");
    reveal_strlit("{\"sessionId\":\"");
    reveal_strlit("2feb3d");
    reveal_strlit("\",\"hypothesisId\":\"");
    assert("{\"sessionId\":\""@ + "2feb3d"@ + "\",\"hypothesisId\":\""@
        =~= "{\"sessionId\":\"2feb3d\",\"hypothesisId\":\""@);
    assert(spells(digits, time));
}

/// Reads and their bytes are counted in 64 bits. The first three reads and every 500th are
/// recorded, with both counts and the bytes of the read.
pub proof fn law_reads_are_counted(
    calls: u64,
    cumulative: u64,
    returned: u64,
    r: (u64, u64, Option<String>),
)
    requires
        call_ensures(read_progress, (calls, cumulative, returned), r),
    ensures
        r.0 == calls + 1 || (calls == 0xffff_ffff_ffff_ffff && r.0 == 0),
        r.1 == cumulative + returned || r.1 == cumulative + returned - 0x1_0000_0000_0000_0000,
        r.2 is Some <==> r.0 <= 3 || r.0 as int % 500 == 0,
        r.2 matches Some(data) ==> exists|a: Seq<char>, b: Seq<char>, c: Seq<char>|
            {
                &&& #[trigger] spells(a, r.0 as int)
                &&& #[trigger] spells(b, returned as int)
                &&& #[trigger] spells(c, r.1 as int)
                &&& data@ == "{\"calls\":"@ + a + ",\"returned_bytes\":"@ + b
                    + ",\"cumulative_bytes\":"@ + c + "}"@
            },
{
    lemma_decimal_spells(r.0 as nat);
    lemma_decimal_spells(returned as nat);
    lemma_decimal_spells(r.1 as nat);
}

/// Every 60th time that dither is applied is recorded, with its tag and the count.
pub proof fn law_dither_is_counted(applies: u64, tag: DitherTag, r: (u64, Option<String>))
    requires
        call_ensures(dither_progress, (applies, tag), r),
    ensures
        r.0 == applies + 1 || (applies == 0xffff_ffff_ffff_ffff && r.0 == 0),
        r.1 is Some <==> r.0 as int % 60 == 0,
        r.1 matches Some(data) ==> exists|n: Seq<char>|
            {
                &&& #[trigger] spells(n, r.0 as int)
                &&& tag is CaptureOk ==> data@ == "{\"tag\":\""@ + "capture_ok"@
                    + "\",\"applies\":"@ + n + "}"@
                &&& tag is RecvTimeoutSilence ==> data@ == "{\"tag\":\""@ + "recv_timeout_silence"@
                    + "\",\"applies\":"@ + n + "}"@
            },
{
    lemma_decimal_spells(r.0 as nat);
}

/// The data on a buffer that is too small has its length and what four samples need.
pub proof fn law_small_buffer_is_described(buf_len: usize, chunk_bytes: usize, r: String)
    requires
        call_ensures(partial_buffer_data, (buf_len, chunk_bytes), r),
    ensures
        exists|a: Seq<char>, b: Seq<char>|
            {
                &&& #[trigger] spells(a, buf_len as int)
                &&& #[trigger] spells(b, chunk_bytes as int)
                &&& r@ == "{\"buf_len\":"@ + a + ",\"buf_chunksize\":"@ + b + "}"@
            },
{
    lemma_decimal_spells(buf_len as nat);
    lemma_decimal_spells(chunk_bytes as nat);
}

/// The records are in the directory `.cursor` of the package.
pub proof fn law_records_are_below_the_package(dir: &PathBuf, path: PathBuf)
    requires
        call_ensures(log_path, (dir,), path),
    ensures
        components(path).len() == components(*dir).len() + 2,
        components(path).take(components(*dir).len() as int) == components(*dir),
        components(path)[components(*dir).len() as int] == ".cursor"@,
        components(path).last() == "debug-2feb3d.log"@,
{
    assert(components(path).take(components(*dir).len() as int) =~= components(*dir));
}

} // verus!
