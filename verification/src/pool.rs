//! NIP-01 relay protocol bookkeeping for the per-relay connection pool: the
//! subscription ids handed out, the frames sent to a relay, and what becomes
//! of each frame a relay sends back. The socket, the timers and the channel
//! to each subscriber live outside this crate; the table of open
//! subscriptions and every decision on it are here.

use vstd::prelude::*;
use crate::crypto::hex_digit;
use crate::keyed::KeyedList;
use crate::text::push_char;

verus! {

broadcast use vstd::seq_lib::group_seq_properties;

/// The decimal digits of `n`, most significant first.
pub open spec fn spec_decimal(n: nat) -> Seq<char>
    decreases n,
{
    if n < 10 {
        seq![(48 + n) as char]
    } else {
        spec_decimal(n / 10).push((48 + n % 10) as char)
    }
}

/// The decimal digit for `d` (below 10).
fn digit_char(d: u64) -> (c: char)
    requires
        d < 10,
    ensures
        c == (48 + d) as char,
{
    let b: u8 = 48u8 + d as u8;
    b as char
}

/// Appends the decimal digits of `n` to `s`.
fn push_decimal(s: &mut String, n: u64)
    ensures
        final(s)@ == old(s)@ + spec_decimal(n as nat),
    decreases n,
{
    let ghost start = s@;
    if n >= 10 {
        push_decimal(s, n / 10);
    }
    push_char(s, digit_char(n % 10));
    proof {
        if n >= 10 {
            assert(s@ =~= start + spec_decimal(n as nat));
        } else {
            assert(s@ =~= start + spec_decimal(n as nat));
        }
    }
}

/// The subscription id for counter value `n`: `origilink-<n>`.
pub open spec fn spec_sub_id(n: nat) -> Seq<char> {
    "origilink-"@ + spec_decimal(n)
}

/// The subscription id handed out for counter value `n` (a process-wide
/// counter, so no two subscriptions share one).
pub fn sub_id_for(n: u64) -> (id: String)
    ensures
        id@ == spec_sub_id(n as nat),
{
    let mut id = String::from_str("origilink-");
    push_decimal(&mut id, n);
    id
}

/// How a JSON string escapes `c` (as serde_json writes it).
pub open spec fn escape_char(c: char) -> Seq<char> {
    if c == '"' {
        seq!['\\', '"']
    } else if c == '\\' {
        seq!['\\', '\\']
    } else if c == '\n' {
        seq!['\\', 'n']
    } else if c == '\r' {
        seq!['\\', 'r']
    } else if c == '\t' {
        seq!['\\', 't']
    } else if c == '\x08' {
        seq!['\\', 'b']
    } else if c == '\x0c' {
        seq!['\\', 'f']
    } else if (c as u32) < 0x20 {
        seq!['\\', 'u', '0', '0', hex_digit(c as int / 16), hex_digit(c as int % 16)]
    } else {
        seq![c]
    }
}

/// The escaped body of a JSON string holding `s`.
pub open spec fn escape_chars(s: Seq<char>) -> Seq<char>
    decreases s.len(),
{
    if s.len() == 0 {
        seq![]
    } else {
        escape_chars(s.drop_last()) + escape_char(s.last())
    }
}

/// `s` as a JSON string literal.
pub open spec fn spec_json_string(s: Seq<char>) -> Seq<char> {
    seq!['"'] + escape_chars(s) + seq!['"']
}

/// The lowercase hex digit for `n` (below 16).
fn hex_char(n: u32) -> (c: char)
    requires
        n < 16,
    ensures
        c == hex_digit(n as int),
{
    if n < 10 {
        let b: u8 = 48u8 + n as u8;
        b as char
    } else {
        let b: u8 = 87u8 + n as u8;
        b as char
    }
}

/// Appends the escaped form of `c` to `s`.
fn push_escaped(s: &mut String, c: char)
    ensures
        final(s)@ == old(s)@ + escape_char(c),
{
    let ghost start = s@;
    if c == '"' {
        push_char(s, '\\');
        push_char(s, '"');
    } else if c == '\\' {
        push_char(s, '\\');
        push_char(s, '\\');
    } else if c == '\n' {
        push_char(s, '\\');
        push_char(s, 'n');
    } else if c == '\r' {
        push_char(s, '\\');
        push_char(s, 'r');
    } else if c == '\t' {
        push_char(s, '\\');
        push_char(s, 't');
    } else if c == '\x08' {
        push_char(s, '\\');
        push_char(s, 'b');
    } else if c == '\x0c' {
        push_char(s, '\\');
        push_char(s, 'f');
    } else if (c as u32) < 0x20 {
        let v = c as u32;
        push_char(s, '\\');
        push_char(s, 'u');
        push_char(s, '0');
        push_char(s, '0');
        push_char(s, hex_char(v / 16));
        push_char(s, hex_char(v % 16));
    } else {
        push_char(s, c);
    }
    assert(s@ =~= start + escape_char(c));
}

/// Appends `text` as a JSON string literal to `s`.
fn push_json_string(s: &mut String, text: &str)
    ensures
        final(s)@ == old(s)@ + spec_json_string(text@),
{
    let ghost start = s@;
    push_char(s, '"');
    let n = text.unicode_len();
    let mut i: usize = 0;
    while i < n
        invariant
            n == text@.len(),
            i <= n,
            s@ == start + seq!['"'] + escape_chars(text@.take(i as int)),
        decreases n - i,
    {
        let c = text.get_char(i);
        let ghost before = s@;
        push_escaped(s, c);
        proof {
            assert(text@.take(i + 1).drop_last() == text@.take(i as int));
            assert(text@.take(i + 1).last() == c);
            assert(s@ =~= start + seq!['"'] + escape_chars(text@.take(i + 1)));
        }
        i = i + 1;
    }
    push_char(s, '"');
    assert(text@.take(n as int) == text@);
    assert(s@ =~= start + spec_json_string(text@));
}

/// The frame opening subscription `sub_id` with the filter `filter_json`
/// (already JSON): `["REQ",<sub_id>,<filter>]`.
pub open spec fn spec_req_frame(sub_id: Seq<char>, filter_json: Seq<char>) -> Seq<char> {
    "[\"REQ\","@ + spec_json_string(sub_id) + seq![','] + filter_json + seq![']']
}

/// The frame closing subscription `sub_id`: `["CLOSE",<sub_id>]`.
pub open spec fn spec_close_frame(sub_id: Seq<char>) -> Seq<char> {
    "[\"CLOSE\","@ + spec_json_string(sub_id) + seq![']']
}

/// The frame publishing an event (already JSON): `["EVENT",<event>]`.
pub open spec fn spec_event_frame(event_json: Seq<char>) -> Seq<char> {
    "[\"EVENT\","@ + event_json + seq![']']
}

/// The `REQ` frame for subscription `sub_id` with filter `filter_json`.
pub fn req_frame(sub_id: &str, filter_json: &str) -> (f: String)
    ensures
        f@ == spec_req_frame(sub_id@, filter_json@),
{
    let mut f = String::from_str("[\"REQ\",");
    push_json_string(&mut f, sub_id);
    push_char(&mut f, ',');
    f.append(filter_json);
    push_char(&mut f, ']');
    assert(f@ =~= spec_req_frame(sub_id@, filter_json@));
    f
}

/// The `CLOSE` frame for subscription `sub_id`.
pub fn close_frame(sub_id: &str) -> (f: String)
    ensures
        f@ == spec_close_frame(sub_id@),
{
    let mut f = String::from_str("[\"CLOSE\",");
    push_json_string(&mut f, sub_id);
    push_char(&mut f, ']');
    assert(f@ =~= spec_close_frame(sub_id@));
    f
}

/// The `EVENT` frame publishing `event_json`.
pub fn event_frame(event_json: &str) -> (f: String)
    ensures
        f@ == spec_event_frame(event_json@),
{
    let mut f = String::from_str("[\"EVENT\",");
    f.append(event_json);
    push_char(&mut f, ']');
    assert(f@ =~= spec_event_frame(event_json@));
    f
}

/// What a WebSocket read gave.
pub enum FrameKind {
    /// A text frame.
    Text,
    /// A keepalive ping.
    Ping,
    /// A close frame, a read error, or the end of the stream.
    Closed,
    /// Any other frame (binary, pong, ...).
    Other,
}

/// What to do with a WebSocket read.
#[derive(PartialEq, Eq, Structural)]
pub enum FrameAction {
    /// Read the text as a relay message.
    Read,
    /// Answer with a pong carrying the same payload.
    Pong,
    /// The connection is gone: stop, dropping it from the pool.
    Stop,
    /// Ignore it.
    Skip,
}

/// The action for each kind of read: only a close, an error or the end of
/// the stream ends the connection — a keepalive ping is answered, never
/// mistaken for a dead connection.
pub open spec fn spec_frame_action(kind: FrameKind) -> FrameAction {
    match kind {
        FrameKind::Text => FrameAction::Read,
        FrameKind::Ping => FrameAction::Pong,
        FrameKind::Closed => FrameAction::Stop,
        FrameKind::Other => FrameAction::Skip,
    }
}

/// Decides what to do with a WebSocket read (see [spec_frame_action]).
pub fn frame_action(kind: FrameKind) -> (a: FrameAction)
    ensures
        a == spec_frame_action(kind),
{
    match kind {
        FrameKind::Text => FrameAction::Read,
        FrameKind::Ping => FrameAction::Pong,
        FrameKind::Closed => FrameAction::Stop,
        FrameKind::Other => FrameAction::Skip,
    }
}

/// The first two elements of a relay message, when it is JSON: each the
/// element's text when it is a JSON string.
pub uninterp spec fn spec_relay_fields(text: Seq<char>) -> Option<(Option<Seq<char>>, Option<Seq<char>>)>;

/// `serde_json::from_str::<serde_json::Value>`, then the first two
/// elements' `as_str`; `None` when the text is not JSON.
#[verifier::external_body]
fn relay_fields(text: &str) -> (r: Option<(Option<String>, Option<String>)>)
    ensures
        match r {
            None => spec_relay_fields(text@) is None,
            Some((a, b)) => spec_relay_fields(text@) == Some(
                (crate::text::opt_view(a), crate::text::opt_view(b)),
            ),
        },
{
    let value = serde_json::from_str::<serde_json::Value>(text).ok()?;
    let label = value.get(0).and_then(|v| v.as_str()).map(|s| s.to_string());
    let sub_id = value.get(1).and_then(|v| v.as_str()).map(|s| s.to_string());
    Some((label, sub_id))
}

/// Where a relay message goes.
pub enum Route {
    /// An event for this open subscription: hand it to its subscriber.
    Deliver(String),
    /// The end of stored events for this open subscription.
    EndOfStored(String),
    /// Nothing to hand on.
    Drop,
}

/// Where a relay message with first elements `label` and `sub_id` goes,
/// given the open subscriptions `subs` and whether its third element is an
/// event: events and end-of-stored notices reach a subscription only while
/// it is open.
pub open spec fn spec_route(
    subs: Map<Seq<char>, ()>,
    label: Option<Seq<char>>,
    sub_id: Option<Seq<char>>,
    has_event: bool,
) -> Option<(bool, Seq<char>)> {
    match (label, sub_id) {
        (Some(l), Some(s)) => if l == "EVENT"@ && has_event && subs.dom().contains(s) {
            Some((true, s))
        } else if l == "EOSE"@ && subs.dom().contains(s) {
            Some((false, s))
        } else {
            None
        },
        _ => None,
    }
}

/// The route's meaning: `Some((true, s))` to deliver an event to `s`,
/// `Some((false, s))` to signal the end of stored events to `s`.
pub open spec fn route_view(r: Route) -> Option<(bool, Seq<char>)> {
    match r {
        Route::Deliver(s) => Some((true, s@)),
        Route::EndOfStored(s) => Some((false, s@)),
        Route::Drop => None,
    }
}

/// Routes a relay message (see [spec_route]) given its first elements and
/// whether its third element parsed as an event.
pub fn route_message(
    subs: &KeyedList<()>,
    label: &Option<String>,
    sub_id: &Option<String>,
    has_event: bool,
) -> (r: Route)
    ensures
        route_view(r) == spec_route(subs@, crate::text::opt_view(*label), crate::text::opt_view(*sub_id), has_event),
{
    proof {
        reveal_strlit("EVENT");
        reveal_strlit("EOSE");
    }
    match (label, sub_id) {
        (Some(l), Some(s)) => {
            let event_label = String::from_str("EVENT");
            let eose_label = String::from_str("EOSE");
            let is_event = *l == event_label;
            let is_eose = *l == eose_label;
            if is_event && has_event && subs.contains_key(s) {
                Route::Deliver(s.clone())
            } else if is_eose && subs.contains_key(s) {
                Route::EndOfStored(s.clone())
            } else {
                Route::Drop
            }
        },
        _ => Route::Drop,
    }
}

/// Routes a relay text frame: it is read as JSON for its label and
/// subscription id; anything that is not JSON is dropped.
pub fn route_text(subs: &KeyedList<()>, text: &str, has_event: bool) -> (r: Route)
    ensures
        route_view(r) == match spec_relay_fields(text@) {
            Some((label, sub_id)) => spec_route(subs@, label, sub_id, has_event),
            None => None,
        },
{
    match relay_fields(text) {
        Some((label, sub_id)) => route_message(subs, &label, &sub_id, has_event),
        None => Route::Drop,
    }
}

/// Once a subscription is closed, nothing more reaches it.
pub proof fn lemma_closed_gets_nothing(
    subs: Map<Seq<char>, ()>,
    s: Seq<char>,
    label: Option<Seq<char>>,
    has_event: bool,
)
    ensures
        spec_route(subs.remove(s), label, Some(s), has_event) is None,
{
}

/// A subscription that was just opened receives its events.
pub proof fn lemma_opened_gets_events(subs: Map<Seq<char>, ()>, s: Seq<char>)
    ensures
        spec_route(subs.insert(s, ()), Some("EVENT"@), Some(s), true) == Some((true, s)),
{
}

} // verus!
