//! The rejection responder: the fixed-shape deny response.
//!
//! A denied request is answered with HTTP status 429 and a JSON body of a
//! fixed frame around the current RFC 3339 timestamp. The frame is built
//! and specified here character for character; only the timestamp itself
//! comes from the clock.

use vstd::prelude::*;
use vstd::string::StringExecFns;

verus! {

/// HTTP status of the rejection response: Too Many Requests.
pub const REJECTION_STATUS: u16 = 429;

/// The deny response body around a timestamp: success flag down, the fixed
/// human-readable message, and the timestamp, as one JSON object.
pub open spec fn rejection_body_view(ts: Seq<char>) -> Seq<char> {
    "{\"success\": false, \"error\": \"Rate limit excedido. Por favor, inténtalo más tarde.\", \"timestamp\": \""@
        + ts + "\"}"@
}

/// Builds the deny response body for the given RFC 3339 timestamp.
pub fn rejection_body(timestamp: &str) -> (body: String)
    ensures
        body@ == rejection_body_view(timestamp@),
{
    let mut body = String::new();
    body.append(
        "{\"success\": false, \"error\": \"Rate limit excedido. Por favor, inténtalo más tarde.\", \"timestamp\": \"",
    );
    body.append(timestamp);
    body.append("\"}");
    proof {
        assert(body@ =~= rejection_body_view(timestamp@));
    }
    body
}

/// The shape every timestamp of the clock wrapper has: at least the 25
/// characters of `YYYY-MM-DDTHH:MM:SS+00:00`, drawn from the decimal digits
/// and the separators `- T : . +` alone. In particular it holds no quote
/// and no backslash, so it embeds verbatim in the JSON frame without
/// breaking it.
pub open spec fn rfc3339_shaped(ts: Seq<char>) -> bool {
    &&& ts.len() >= 25
    &&& forall|i: int|
        0 <= i < ts.len() ==> (('0' <= #[trigger] ts[i] && ts[i] <= '9') || ts[i] == '-'
            || ts[i] == ':' || ts[i] == 'T' || ts[i] == '.' || ts[i] == '+')
}

/// Relies on chrono's `Utc::now` and `DateTime::to_rfc3339`: the current
/// instant, rendered as an RFC 3339 timestamp such as
/// `1996-12-19T16:39:57+00:00`. When the instant itself is unknowable, its
/// shape is not: chrono's writer emits the date, the `T`, the time, an
/// optional `.`-and-digits fraction, and for UTC the offset `+00:00` — a
/// year outside four digits adds only a sign and digits — so every outcome
/// has at least 25 characters, all decimal digits or `- T : . +`.
/// `Utc::now` reads the system clock and panics when it is set before the
/// Unix epoch: the library assumes a clock at or past it.
#[verifier::external_body]
fn now_rfc3339() -> (ts: String)
    ensures
        rfc3339_shaped(ts@),
{
    chrono::Utc::now().to_rfc3339()
}

/// The deny response at the current instant: status 429 and the JSON body
/// framed around the clock's RFC 3339 timestamp. The timestamp's shape
/// keeps the body well-formed JSON.
pub fn rejection_response() -> (r: (u16, String))
    ensures
        r.0 == REJECTION_STATUS,
        exists|ts: Seq<char>| #[trigger] rfc3339_shaped(ts) && r.1@ == rejection_body_view(ts),
{
    let ts = now_rfc3339();
    let body = rejection_body(ts.as_str());
    proof {
        assert(rfc3339_shaped(ts@) && body@ == rejection_body_view(ts@));
    }
    (REJECTION_STATUS, body)
}

/// The liveness probe's verdict as an HTTP status: 200 when the webhook
/// answered the probe, 504 when it could not be reached.
pub fn health_status(webhook_ok: bool) -> (status: u16)
    ensures
        webhook_ok ==> status == 200,
        !webhook_ok ==> status == 504,
{
    if webhook_ok {
        200
    } else {
        504
    }
}

} // verus!
