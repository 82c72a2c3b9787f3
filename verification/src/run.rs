//! Run identity: minting the short random run id, the derived project name,
//! and the started-at timestamp.

use vstd::prelude::*;

use crate::strings::all_digits;

verus! {

/// Relies on `getrandom::fill`: fills the buffer with random bytes, keeping
/// its length; nothing can be promised of the values.
#[verifier::external_body]
fn fill_random(buf: &mut [u8; 3]) -> (ok: bool)
{
    getrandom::fill(buf).is_ok()
}

/// Relies on `std::time::SystemTime::now`: nanoseconds since the epoch,
/// saturated into a `u64`; the value depends on the clock.
#[verifier::external_body]
fn now_unix_nanos() -> (r: u64)
{
    match std::time::SystemTime::now().duration_since(std::time::UNIX_EPOCH) {
        Ok(d) => u64::try_from(d.as_nanos()).unwrap_or(u64::MAX),
        Err(_) => 0,
    }
}

/// Relies on `std::time::SystemTime::now`: milliseconds since the epoch,
/// saturated into a `u64`; the value depends on the clock.
#[verifier::external_body]
pub fn current_time_ms() -> (r: u64)
{
    match std::time::SystemTime::now().duration_since(std::time::UNIX_EPOCH) {
        Ok(d) => u64::try_from(d.as_millis()).unwrap_or(u64::MAX),
        Err(_) => 0,
    }
}

/// Relies on `time::OffsetDateTime::now_utc` and its RFC 3339 formatting:
/// the wall-clock time rendered as a calendar timestamp; the value depends
/// on the clock.
#[verifier::external_body]
pub fn run_started_at() -> (r: String)
{
    time::OffsetDateTime::now_utc()
        .format(&time::format_description::well_known::Rfc3339)
        .unwrap_or_else(|_| time::OffsetDateTime::now_utc().unix_timestamp().to_string())
}

pub open spec fn is_hex_digit(c: char) -> bool {
    crate::strings::is_digit(c) || ('a' <= c && c <= 'f')
}

/// The shape every run id has: `run_` then six lowercase hex digits.
pub open spec fn is_run_id(s: Seq<char>) -> bool {
    s.len() == 10 && s.subrange(0, 4) == "run_"@ && forall|i: int|
        4 <= i < 10 ==> is_hex_digit(#[trigger] s[i])
}

/// The lowercase hex digit of a value below sixteen.
pub open spec fn hex_digit_of(n: u8) -> char {
    if n < 10 {
        (n + 48) as char
    } else {
        (n + 87) as char
    }
}

/// The two lowercase hex digits of one byte, high nibble first.
pub open spec fn hex_of_byte(b: u8) -> Seq<char> {
    seq![hex_digit_of((b / 16) as u8), hex_digit_of((b % 16) as u8)]
}

fn push_hex_byte(out: &mut Vec<char>, b: u8)
    ensures
        final(out)@ == old(out)@ + hex_of_byte(b),
        final(out)@.len() == old(out)@.len() + 2,
        forall|i: int| 0 <= i < old(out)@.len() ==> #[trigger] final(out)@[i] == old(out)@[i],
        is_hex_digit(final(out)@[final(out)@.len() - 2]),
        is_hex_digit(final(out)@[final(out)@.len() - 1]),
{
    let hi: u8 = b / 16;
    let lo: u8 = b % 16;
    out.push(hex_char(hi));
    out.push(hex_char(lo));
    proof {
        assert(out@ =~= old(out)@ + hex_of_byte(b));
    }
}

fn hex_char(n: u8) -> (r: char)
    requires
        n < 16,
    ensures
        is_hex_digit(r),
        r == hex_digit_of(n),
{
    if n < 10 {
        ((n + 48) as char)
    } else {
        ((n + 87) as char)
    }
}

/// The run id spelled from three random bytes: `run_` and their hex form.
fn run_id_from_bytes(bytes: &[u8; 3]) -> (r: String)
    ensures
        is_run_id(r@),
        r@ == "run_"@ + hex_of_byte(bytes[0]) + hex_of_byte(bytes[1]) + hex_of_byte(bytes[2]),
{
    proof {
        reveal_strlit("run_");
    }
    let mut v = crate::strings::str_chars("run_");
    push_hex_byte(&mut v, bytes[0]);
    push_hex_byte(&mut v, bytes[1]);
    push_hex_byte(&mut v, bytes[2]);
    proof {
        assert(v@.subrange(0, 4) =~= "run_"@);
        assert(v@ =~= "run_"@ + hex_of_byte(bytes[0]) + hex_of_byte(bytes[1]) + hex_of_byte(
            bytes[2],
        ));
    }
    crate::strings::chars_into_string(v)
}

/// Mints a fresh run id: three random bytes in hex, or, if no randomness is
/// available, a mix of the clock and a caller-supplied seed (the process
/// id). Either way the id has the fixed `run_` hex shape.
pub fn new_run_id(fallback_seed: u64) -> (r: String)
    ensures
        is_run_id(r@),
{
    let mut bytes: [u8; 3] = [0u8, 0u8, 0u8];
    if fill_random(&mut bytes) {
        return run_id_from_bytes(&bytes);
    }
    let nanos = now_unix_nanos();
    let mixed: u64 = nanos ^ (fallback_seed << 16);
    let masked: u32 = (mixed & 0x00ff_ffff) as u32;
    let b: [u8; 3] = [((masked >> 16) & 0xff) as u8, ((masked >> 8) & 0xff) as u8, (masked
        & 0xff) as u8];
    run_id_from_bytes(&b)
}

/// The engine project name of a run: the fixed tool prefix and the run id.
pub fn project_name_from_run_id(run_id: &str) -> (r: String)
    ensures
        r@ == "sanelens_"@ + run_id@,
{
    let mut out = "sanelens_".to_owned();
    out.append(run_id);
    out
}

} // verus!
