//! Reading the responses of a machine's control channel.
use vstd::prelude::*;
use crate::registry::{MAX_MB, MIB};

verus! {

/// What `serde_json` reads from `text` at key `outer`, then key `inner`:
/// `None` if the text is not JSON, `Some(None)` if no unsigned integer
/// stands at that place, `Some(Some(n))` if `n` does.
pub uninterp spec fn json_u64_at(text: Seq<char>, outer: Seq<char>, inner: Seq<char>) -> Option<Option<u64>>;

/// Relies on `serde_json::from_str` to parse the text into a
/// `serde_json::Value`, on indexing a `Value` by key (which yields `Null`
/// for a missing key), and on `Value::as_u64` to read the number.
#[verifier::external_body]
fn lookup_u64(text: &str, outer: &str, inner: &str) -> (r: Option<Option<u64>>)
    ensures
        r == json_u64_at(text@, outer@, inner@),
{
    match serde_json::from_str::<serde_json::Value>(text) {
        Ok(v) => Some(v[outer][inner].as_u64()),
        Err(_) => None,
    }
}

/// Why a memory-summary response yields no usage.
#[derive(Clone, Copy, Debug, PartialEq, Eq, Structural)]
pub enum ResponseError {
    /// The response is not a JSON document.
    Malformed,
    /// The response has no byte count at `return.base-memory`.
    MissingField,
}

/// The usage, in MiB, that a looked-up byte count stands for.
pub open spec fn usage_of(lookup: Option<Option<u64>>) -> Result<u64, ResponseError> {
    match lookup {
        None => Err(ResponseError::Malformed),
        Some(None) => Err(ResponseError::MissingField),
        Some(Some(bytes)) => Ok((bytes / MIB) as u64),
    }
}

/// The lookup that a memory-summary response is read with.
pub open spec fn summary_lookup(text: Seq<char>) -> Option<Option<u64>> {
    json_u64_at(text, "return"@, "base-memory"@)
}

/// Whether a response is a well-formed JSON document.
pub open spec fn well_formed(text: Seq<char>) -> bool {
    summary_lookup(text) is Some
}

/// Turns a looked-up byte count into whole MiB, truncating.
pub fn usage_from_lookup(lookup: Option<Option<u64>>) -> (r: Result<u64, ResponseError>)
    ensures
        r == usage_of(lookup),
        r is Ok ==> r->Ok_0 <= MAX_MB,
{
    match lookup {
        None => Err(ResponseError::Malformed),
        Some(None) => Err(ResponseError::MissingField),
        Some(Some(bytes)) => {
            assert(bytes / MIB <= MAX_MB) by (nonlinear_arith)
                requires
                    bytes <= u64::MAX,
            ;
            Ok(bytes / MIB)
        },
    }
}

/// The usage, in MiB, that a memory-summary response reports.
pub fn usage_from_response(text: &str) -> (r: Result<u64, ResponseError>)
    ensures
        r == usage_of(summary_lookup(text@)),
        r is Ok ==> r->Ok_0 <= MAX_MB,
{
    let lookup = lookup_u64(text, "return", "base-memory");
    usage_from_lookup(lookup)
}

/// Whether a response parses as JSON; the handshake asks no more of it.
pub fn response_well_formed(text: &str) -> (r: bool)
    ensures
        r == well_formed(text@),
{
    lookup_u64(text, "return", "base-memory").is_some()
}

/// The byte count of an allocation in MiB.
pub fn mb_to_bytes(mb: u64) -> (r: u64)
    requires
        mb <= MAX_MB,
    ensures
        r == mb * MIB,
{
    assert(mb * MIB <= u64::MAX) by (nonlinear_arith)
        requires
            mb <= MAX_MB,
    ;
    mb * MIB
}

/// A request on the control channel.
#[derive(Clone, Copy, Debug, PartialEq, Eq, Structural)]
pub enum Request {
    /// The capability handshake that opens every session.
    Capabilities,
    /// The query for the machine's memory summary.
    MemorySummary,
    /// Resize the balloon so that the machine has `bytes` of memory.
    Balloon { bytes: u64 },
}

/// The character of a decimal digit.
pub open spec fn digit_char(d: int) -> char {
    if d == 0 {
        '0'
    } else if d == 1 {
        '1'
    } else if d == 2 {
        '2'
    } else if d == 3 {
        '3'
    } else if d == 4 {
        '4'
    } else if d == 5 {
        '5'
    } else if d == 6 {
        '6'
    } else if d == 7 {
        '7'
    } else if d == 8 {
        '8'
    } else {
        '9'
    }
}

/// A number in decimal, without leading zeros.
pub open spec fn decimal_text(n: nat) -> Seq<char>
    decreases n,
{
    if n < 10 {
        seq![digit_char(n as int)]
    } else {
        decimal_text(n / 10) + seq![digit_char((n % 10) as int)]
    }
}

/// The line that carries a request: one JSON object and a newline.
pub open spec fn request_text(r: Request) -> Seq<char> {
    match r {
        Request::Capabilities => "{\"execute\":\"qmp_capabilities\"}\n"@,
        Request::MemorySummary => "{\"execute\":\"query-memory-size-summary\"}\n"@,
        Request::Balloon { bytes } => "{\"execute\":\"balloon\",\"arguments\":{\"value\":"@
            + decimal_text(bytes as nat) + "}}\n"@,
    }
}

fn digit_str(d: u64) -> (r: &'static str)
    requires
        d < 10,
    ensures
        r@ == seq![digit_char(d as int)],
{
    proof {
        reveal_strlit("0");
        reveal_strlit("1");
        reveal_strlit("2");
        reveal_strlit("3");
        reveal_strlit("4");
        reveal_strlit("5");
        reveal_strlit("6");
        reveal_strlit("7");
        reveal_strlit("8");
        reveal_strlit("9");
    }
    if d == 0 {
        "0"
    } else if d == 1 {
        "1"
    } else if d == 2 {
        "2"
    } else if d == 3 {
        "3"
    } else if d == 4 {
        "4"
    } else if d == 5 {
        "5"
    } else if d == 6 {
        "6"
    } else if d == 7 {
        "7"
    } else if d == 8 {
        "8"
    } else {
        "9"
    }
}

fn append_decimal(out: &mut String, n: u64)
    ensures
        final(out)@ == old(out)@ + decimal_text(n as nat),
    decreases n,
{
    if n >= 10 {
        append_decimal(out, n / 10);
    }
    out.append(digit_str(n % 10));
    assert(out@ =~= old(out)@ + decimal_text(n as nat));
}

/// The line to write for a request.
pub fn encode_request(r: Request) -> (s: String)
    ensures
        s@ == request_text(r),
{
    match r {
        Request::Capabilities => String::from_str("{\"execute\":\"qmp_capabilities\"}\n"),
        Request::MemorySummary => String::from_str("{\"execute\":\"query-memory-size-summary\"}\n"),
        Request::Balloon { bytes } => {
            let mut s = String::from_str("{\"execute\":\"balloon\",\"arguments\":{\"value\":");
            append_decimal(&mut s, bytes);
            s.append("}}\n");
            proof {
                assert(s@ =~= request_text(r));
            }
            s
        },
    }
}

} // verus!
