//! The wire format: one JSON object per event frame,
//! `{"kind":K,"timestamp":N,"device":D,"data":B}`, with externally tagged
//! bundles. Serialization and parsing are defined here as functions on
//! character sequences, and parsing inverts serialization exactly.

use vstd::prelude::*;
use vstd::string::StrSliceExecFns;
use vstd::string::StringExecFns;

use crate::model::{Bundle, BundleV, DeviceType, Event, EventKind, EventV};

verus! {

/// The exact string form of an event kind; kinds round-trip through it
/// case-sensitively.
pub open spec fn spec_kind_str(kind: EventKind) -> Seq<char> {
    match kind {
        EventKind::HealthCheck => "HealthCheck"@,
        EventKind::PollDevice => "PollDevice"@,
        EventKind::EventHistory => "EventHistory"@,
        EventKind::MailStatus => "MailStatus"@,
        EventKind::PinCheck => "PinCheck"@,
        EventKind::MailDelivered => "MailDelivered"@,
        EventKind::MailPickedUp => "MailPickedUp"@,
        EventKind::DoorOpened => "DoorOpened"@,
        EventKind::PollDeviceResult => "PollDeviceResult"@,
        EventKind::PinResult => "PinResult"@,
        EventKind::Error => "Error"@,
    }
}

/// The exact string form of a device tag; tags round-trip through it
/// case-sensitively.
pub open spec fn spec_device_str(device: DeviceType) -> Seq<char> {
    match device {
        DeviceType::Camera => "Camera"@,
        DeviceType::Light => "Light"@,
        DeviceType::ContactSensor => "ContactSensor"@,
    }
}

/// How one character appears inside a JSON string: quotes and backslashes
/// get a backslash escape, everything else stands for itself.
pub open spec fn esc_char(c: char) -> Seq<char> {
    if c == '"' || c == '\\' {
        seq!['\\', c]
    } else {
        seq![c]
    }
}

/// A string's characters, escaped (the surrounding quotes are not included).
pub open spec fn ser_str(s: Seq<char>) -> Seq<char>
    decreases s.len(),
{
    if s.len() == 0 {
        Seq::empty()
    } else {
        esc_char(s[0]) + ser_str(s.drop_first())
    }
}

/// The decimal digit characters.
pub open spec fn digit_char(d: int) -> char {
    if d == 0 { '0' }
    else if d == 1 { '1' }
    else if d == 2 { '2' }
    else if d == 3 { '3' }
    else if d == 4 { '4' }
    else if d == 5 { '5' }
    else if d == 6 { '6' }
    else if d == 7 { '7' }
    else if d == 8 { '8' }
    else { '9' }
}

/// A number in decimal, most significant digit first, no leading zeros.
pub open spec fn ser_nat(n: nat) -> Seq<char>
    decreases n,
{
    if n < 10 {
        seq![digit_char(n as int)]
    } else {
        ser_nat(n / 10) + seq![digit_char((n % 10) as int)]
    }
}

pub open spec fn ser_bool(b: bool) -> Seq<char> {
    if b {
        "true"@
    } else {
        "false"@
    }
}

/// The wire form of an event.
pub open spec fn ser_event(e: EventV) -> Seq<char>
    decreases e,
{
    "{\"kind\":\""@ + spec_kind_str(e.kind)
        + "\",\"timestamp\":"@ + ser_nat(e.timestamp as nat)
        + ",\"device\":"@ + (match e.device {
            None => "null"@,
            Some(d) => seq!['"'] + spec_device_str(d) + seq!['"'],
        })
        + ",\"data\":"@ + (match e.data {
            None => "null"@,
            Some(b) => ser_bundle(b),
        })
        + seq!['}']
}

/// The wire form of a bundle: an externally tagged one-variant object.
pub open spec fn ser_bundle(b: BundleV) -> Seq<char>
    decreases b,
{
    match b {
        BundleV::ContactSensor { open } =>
            "{\"ContactSensor\":{\"open\":"@ + ser_bool(open) + "}}"@,
        BundleV::Error { msg } =>
            "{\"Error\":{\"msg\":\""@ + ser_str(msg) + "\"}}"@,
        BundleV::Camera { file_name } =>
            "{\"Camera\":{\"file_name\":\""@ + ser_str(file_name) + "\"}}"@,
        BundleV::Light { on } =>
            "{\"Light\":{\"on\":"@ + ser_bool(on) + "}}"@,
        BundleV::EventHistory { events } =>
            "{\"EventHistory\":{\"events\":["@ + ser_events(events) + "]}}"@,
        BundleV::PinCheck { pin } =>
            "{\"PinCheck\":{\"pin\":"@ + ser_nat(pin as nat) + "}}"@,
        BundleV::PinResult { authorized } =>
            "{\"PinResult\":{\"authorized\":"@ + ser_bool(authorized) + "}}"@,
    }
}

/// A comma-separated list of events.
pub open spec fn ser_events(events: Seq<EventV>) -> Seq<char>
    decreases events,
{
    if events.len() == 0 {
        Seq::empty()
    } else if events.len() == 1 {
        ser_event(events[0])
    } else {
        ser_event(events[0]) + seq![','] + ser_events(events.drop_first())
    }
}

/// Escaping one more character on the right extends the escaped form on
/// the right.
pub proof fn lemma_ser_str_push(s: Seq<char>, c: char)
    ensures
        ser_str(s.push(c)) == ser_str(s) + esc_char(c),
    decreases s.len(),
{
    if s.len() == 0 {
        assert(s.push(c).len() == 1);
        assert(s.push(c)[0] == c);
        assert(s.push(c).drop_first() =~= Seq::<char>::empty());
        assert(ser_str(s.push(c)) == esc_char(c) + ser_str(Seq::<char>::empty()));
        assert(ser_str(s.push(c)) =~= ser_str(s) + esc_char(c));
    } else {
        assert(s.push(c)[0] == s[0]);
        assert(s.push(c).drop_first() =~= s.drop_first().push(c));
        lemma_ser_str_push(s.drop_first(), c);
        assert(ser_str(s.push(c)) =~= ser_str(s) + esc_char(c));
    }
}

/// Serializing one more event on the right extends the list form on the
/// right, with a comma separator once the list is nonempty.
pub proof fn lemma_ser_events_push(events: Seq<EventV>, e: EventV)
    ensures
        events.len() == 0 ==> ser_events(events.push(e)) == ser_event(e),
        events.len() > 0 ==> ser_events(events.push(e)) == ser_events(events) + seq![','] + ser_event(e),
    decreases events.len(),
{
    if events.len() == 0 {
        assert(events.push(e)[0] == e);
        assert(ser_events(events.push(e)) == ser_event(e));
    } else {
        assert(events.push(e).drop_first() =~= events.drop_first().push(e));
        lemma_ser_events_push(events.drop_first(), e);
        if events.len() == 1 {
            assert(events.drop_first().len() == 0);
            assert(ser_events(events.push(e)) =~= ser_events(events) + seq![','] + ser_event(e));
        } else {
            assert(ser_events(events.push(e)) =~= ser_events(events) + seq![','] + ser_event(e));
        }
    }
}

// ------------------------------------------------------------------
// The parser, at the specification level: a recursive descent over the
// character sequence. It accepts exactly the serializer's output, with
// the timestamp, device and data fields each optional (a client request
// may omit them); a missing timestamp reads as 0.
// ------------------------------------------------------------------

/// How much input remains at position `i`.
pub open spec fn rem(s: Seq<char>, i: int) -> nat {
    if 0 <= i <= s.len() {
        (s.len() - i) as nat
    } else {
        0
    }
}

/// Whether the literal `lit` stands at position `i`.
pub open spec fn sp_lit(s: Seq<char>, i: int, lit: Seq<char>) -> bool {
    0 <= i && i + lit.len() <= s.len() && s.subrange(i, i + lit.len()) == lit
}

pub open spec fn is_digit(c: char) -> bool {
    digit_val(c) < 10
}

/// The value of a digit character; 10 marks a non-digit.
pub open spec fn digit_val(c: char) -> nat {
    if c == '0' { 0 }
    else if c == '1' { 1 }
    else if c == '2' { 2 }
    else if c == '3' { 3 }
    else if c == '4' { 4 }
    else if c == '5' { 5 }
    else if c == '6' { 6 }
    else if c == '7' { 7 }
    else if c == '8' { 8 }
    else if c == '9' { 9 }
    else { 10 }
}

/// The length of the run of digit characters starting at `i`.
pub open spec fn digit_run_len(s: Seq<char>, i: int) -> nat
    decreases rem(s, i),
{
    if 0 <= i < s.len() && is_digit(s[i]) {
        1 + digit_run_len(s, i + 1)
    } else {
        0
    }
}

/// The numeric value of a digit sequence, folded onto an accumulator.
pub open spec fn digits_val(ds: Seq<char>, acc: nat) -> nat
    decreases ds.len(),
{
    if ds.len() == 0 {
        acc
    } else {
        digits_val(ds.drop_first(), acc * 10 + digit_val(ds[0]))
    }
}

/// The length of the run of characters before the next double quote.
pub open spec fn name_run_len(s: Seq<char>, i: int) -> nat
    decreases rem(s, i),
{
    if 0 <= i < s.len() && s[i] != '"' {
        1 + name_run_len(s, i + 1)
    } else {
        0
    }
}

/// The event kind a name token denotes.
pub open spec fn spec_kind_from_token(token: Seq<char>) -> Option<EventKind> {
    if token == "HealthCheck"@ { Some(EventKind::HealthCheck) }
    else if token == "PollDevice"@ { Some(EventKind::PollDevice) }
    else if token == "EventHistory"@ { Some(EventKind::EventHistory) }
    else if token == "MailStatus"@ { Some(EventKind::MailStatus) }
    else if token == "PinCheck"@ { Some(EventKind::PinCheck) }
    else if token == "MailDelivered"@ { Some(EventKind::MailDelivered) }
    else if token == "MailPickedUp"@ { Some(EventKind::MailPickedUp) }
    else if token == "DoorOpened"@ { Some(EventKind::DoorOpened) }
    else if token == "PollDeviceResult"@ { Some(EventKind::PollDeviceResult) }
    else if token == "PinResult"@ { Some(EventKind::PinResult) }
    else if token == "Error"@ { Some(EventKind::Error) }
    else { None }
}

/// The device tag a name token denotes.
pub open spec fn spec_device_from_token(token: Seq<char>) -> Option<DeviceType> {
    if token == "Camera"@ { Some(DeviceType::Camera) }
    else if token == "Light"@ { Some(DeviceType::Light) }
    else if token == "ContactSensor"@ { Some(DeviceType::ContactSensor) }
    else { None }
}

/// Parses a JSON string body starting at `i` (just past the opening
/// quote): the unescaped content, and the count of characters consumed
/// including the closing quote.
pub open spec fn sp_string(s: Seq<char>, i: int) -> Option<(Seq<char>, nat)>
    decreases rem(s, i),
{
    if !(0 <= i < s.len()) {
        None
    } else if s[i] == '"' {
        Some((Seq::empty(), 1))
    } else if s[i] == '\\' {
        if i + 1 < s.len() && (s[i + 1] == '"' || s[i + 1] == '\\') {
            match sp_string(s, i + 2) {
                Some((content, c)) => Some((seq![s[i + 1]] + content, 2 + c)),
                None => None,
            }
        } else {
            None
        }
    } else {
        match sp_string(s, i + 1) {
            Some((content, c)) => Some((seq![s[i]] + content, 1 + c)),
            None => None,
        }
    }
}

/// Parses a decimal number at `i`, bounded by `max`: its value and the
/// count of digit characters. A missing digit or a value above `max` is
/// rejected.
pub open spec fn sp_number(s: Seq<char>, i: int, max: nat) -> Option<(nat, nat)> {
    let run = digit_run_len(s, i);
    if run == 0 {
        None
    } else {
        let value = digits_val(s.subrange(i, i + run), 0);
        if value <= max {
            Some((value, run))
        } else {
            None
        }
    }
}

/// Parses `true` or `false` at `i`.
pub open spec fn sp_bool(s: Seq<char>, i: int) -> Option<(bool, nat)> {
    if sp_lit(s, i, "true"@) {
        Some((true, "true"@.len()))
    } else if sp_lit(s, i, "false"@) {
        Some((false, "false"@.len()))
    } else {
        None
    }
}

/// Parses a quoted name token at `i` (just past the opening quote) and
/// the closing quote: the token and the count consumed including the
/// closing quote.
pub open spec fn sp_name(s: Seq<char>, i: int) -> Option<(Seq<char>, nat)> {
    let run = name_run_len(s, i);
    if 0 <= i && i + run < s.len() && s[i + run] == '"' {
        Some((s.subrange(i, i + run), run + 1))
    } else {
        None
    }
}

/// Parses an event at `i`: the event model and the count of characters
/// consumed. The wire object opens with its kind; the timestamp, device
/// and data fields may each be absent.
pub open spec fn sp_event(s: Seq<char>, i: int) -> Option<(EventV, nat)>
    decreases rem(s, i), 0int,
{
    if !(0 <= i && i <= s.len()) {
        None
    } else if !sp_lit(s, i, "{\"kind\":\""@) {
        None
    } else {
        let j0 = i + "{\"kind\":\""@.len();
        match sp_name(s, j0) {
            None => None,
            Some((token, c0)) => match spec_kind_from_token(token) {
                None => None,
                Some(kind) => {
                    let j1 = j0 + c0;
                    let (timestamp, j2): (nat, int) = if sp_lit(s, j1, ",\"timestamp\":"@) {
                        let jn = j1 + ",\"timestamp\":"@.len();
                        match sp_number(s, jn, 0xffff_ffff) {
                            None => (0, -1),
                            Some((value, cn)) => (value, jn + cn),
                        }
                    } else {
                        (0, j1)
                    };
                    if j2 < 0 {
                        None
                    } else {
                        let (device, j3): (Option<Option<DeviceType>>, int) =
                            if sp_lit(s, j2, ",\"device\":"@) {
                                let jd = j2 + ",\"device\":"@.len();
                                if sp_lit(s, jd, "null"@) {
                                    (Some(None), jd + "null"@.len())
                                } else if sp_lit(s, jd, "\""@) {
                                    match sp_name(s, jd + 1) {
                                        None => (None, -1),
                                        Some((dtoken, cd)) => match spec_device_from_token(dtoken) {
                                            None => (None, -1),
                                            Some(d) => (Some(Some(d)), jd + 1 + cd),
                                        },
                                    }
                                } else {
                                    (None, -1)
                                }
                            } else {
                                (Some(None), j2)
                            };
                        match device {
                            None => None,
                            Some(device) => {
                                if !(i < j3 && j3 <= s.len()) {
                                    None
                                } else if sp_lit(s, j3, ",\"data\":"@) {
                                    let jb = j3 + ",\"data\":"@.len();
                                    if sp_lit(s, jb, "null"@) {
                                        let j4 = jb + "null"@.len();
                                        if sp_lit(s, j4, "}"@) {
                                            Some((
                                                EventV {
                                                    kind,
                                                    timestamp: timestamp as u32,
                                                    device,
                                                    data: None,
                                                },
                                                (j4 + 1 - i) as nat,
                                            ))
                                        } else {
                                            None
                                        }
                                    } else {
                                        match sp_bundle(s, jb) {
                                            None => None,
                                            Some((bundle, cb)) => {
                                                let j4 = jb + cb;
                                                if sp_lit(s, j4, "}"@) {
                                                    Some((
                                                        EventV {
                                                            kind,
                                                            timestamp: timestamp as u32,
                                                            device,
                                                            data: Some(bundle),
                                                        },
                                                        (j4 + 1 - i) as nat,
                                                    ))
                                                } else {
                                                    None
                                                }
                                            },
                                        }
                                    }
                                } else if sp_lit(s, j3, "}"@) {
                                    Some((
                                        EventV { kind, timestamp: timestamp as u32, device, data: None },
                                        (j3 + 1 - i) as nat,
                                    ))
                                } else {
                                    None
                                }
                            },
                        }
                    }
                },
            },
        }
    }
}

/// Parses a bundle at `i`: the bundle model and the count consumed.
pub open spec fn sp_bundle(s: Seq<char>, i: int) -> Option<(BundleV, nat)>
    decreases rem(s, i), 1int,
{
    if !(0 <= i && i <= s.len()) {
        None
    } else if sp_lit(s, i, "{\"ContactSensor\":{\"open\":"@) {
        let j = i + "{\"ContactSensor\":{\"open\":"@.len();
        match sp_bool(s, j) {
            None => None,
            Some((open, c)) => if sp_lit(s, j + c, "}}"@) {
                Some((BundleV::ContactSensor { open }, (j + c + 2 - i) as nat))
            } else {
                None
            },
        }
    } else if sp_lit(s, i, "{\"Error\":{\"msg\":\""@) {
        let j = i + "{\"Error\":{\"msg\":\""@.len();
        match sp_string(s, j) {
            None => None,
            Some((msg, c)) => if sp_lit(s, j + c, "}}"@) {
                Some((BundleV::Error { msg }, (j + c + 2 - i) as nat))
            } else {
                None
            },
        }
    } else if sp_lit(s, i, "{\"Camera\":{\"file_name\":\""@) {
        let j = i + "{\"Camera\":{\"file_name\":\""@.len();
        match sp_string(s, j) {
            None => None,
            Some((file_name, c)) => if sp_lit(s, j + c, "}}"@) {
                Some((BundleV::Camera { file_name }, (j + c + 2 - i) as nat))
            } else {
                None
            },
        }
    } else if sp_lit(s, i, "{\"Light\":{\"on\":"@) {
        let j = i + "{\"Light\":{\"on\":"@.len();
        match sp_bool(s, j) {
            None => None,
            Some((on, c)) => if sp_lit(s, j + c, "}}"@) {
                Some((BundleV::Light { on }, (j + c + 2 - i) as nat))
            } else {
                None
            },
        }
    } else if sp_lit(s, i, "{\"EventHistory\":{\"events\":["@) {
        let j = i + "{\"EventHistory\":{\"events\":["@.len();
        if !(i < j && j <= s.len()) {
            None
        } else if sp_lit(s, j, "]}}"@) {
            Some((BundleV::EventHistory { events: Seq::empty() }, (j + 3 - i) as nat))
        } else {
            match sp_events(s, j) {
                None => None,
                Some((events, c)) => if sp_lit(s, j + c, "]}}"@) {
                    Some((BundleV::EventHistory { events }, (j + c + 3 - i) as nat))
                } else {
                    None
                },
            }
        }
    } else if sp_lit(s, i, "{\"PinCheck\":{\"pin\":"@) {
        let j = i + "{\"PinCheck\":{\"pin\":"@.len();
        match sp_number(s, j, 0xffff) {
            None => None,
            Some((pin, c)) => if sp_lit(s, j + c, "}}"@) {
                Some((BundleV::PinCheck { pin: pin as u16 }, (j + c + 2 - i) as nat))
            } else {
                None
            },
        }
    } else if sp_lit(s, i, "{\"PinResult\":{\"authorized\":"@) {
        let j = i + "{\"PinResult\":{\"authorized\":"@.len();
        match sp_bool(s, j) {
            None => None,
            Some((authorized, c)) => if sp_lit(s, j + c, "}}"@) {
                Some((BundleV::PinResult { authorized }, (j + c + 2 - i) as nat))
            } else {
                None
            },
        }
    } else {
        None
    }
}

/// Parses a nonempty comma-separated list of events at `i`.
pub open spec fn sp_events(s: Seq<char>, i: int) -> Option<(Seq<EventV>, nat)>
    decreases rem(s, i), 2int,
{
    if !(0 <= i && i <= s.len()) {
        None
    } else {
        match sp_event(s, i) {
            None => None,
            Some((event, c)) => {
                if i + c < s.len() && s[i + c] == ',' {
                    match sp_events(s, i + c + 1) {
                        None => None,
                        Some((rest, c2)) => Some((seq![event] + rest, c + 1 + c2)),
                    }
                } else {
                    Some((seq![event], c))
                }
            },
        }
    }
}

/// The exact string form of an event kind.
pub fn kind_as_str(kind: &EventKind) -> (s: &'static str)
    ensures
        s@ == spec_kind_str(*kind),
{
    match kind {
        EventKind::HealthCheck => "HealthCheck",
        EventKind::PollDevice => "PollDevice",
        EventKind::EventHistory => "EventHistory",
        EventKind::MailStatus => "MailStatus",
        EventKind::PinCheck => "PinCheck",
        EventKind::MailDelivered => "MailDelivered",
        EventKind::MailPickedUp => "MailPickedUp",
        EventKind::DoorOpened => "DoorOpened",
        EventKind::PollDeviceResult => "PollDeviceResult",
        EventKind::PinResult => "PinResult",
        EventKind::Error => "Error",
    }
}

/// The exact string form of a device tag.
pub fn device_as_str(device: &DeviceType) -> (s: &'static str)
    ensures
        s@ == spec_device_str(*device),
{
    match device {
        DeviceType::Camera => "Camera",
        DeviceType::Light => "Light",
        DeviceType::ContactSensor => "ContactSensor",
    }
}

/// Appends one character to a string.
///
/// Relies on String::push: appends the given char to the end of the string.
#[verifier::external_body]
fn push_char(out: &mut String, c: char)
    ensures
        final(out)@ == old(out)@.push(c),
{
    out.push(c);
}

/// Appends a decimal digit character.
fn push_digit(out: &mut String, d: u32)
    requires
        d < 10,
    ensures
        final(out)@ == old(out)@.push(digit_char(d as int)),
{
    let c = match d {
        0 => '0',
        1 => '1',
        2 => '2',
        3 => '3',
        4 => '4',
        5 => '5',
        6 => '6',
        7 => '7',
        8 => '8',
        _ => '9',
    };
    push_char(out, c);
}

/// Appends a number in decimal.
fn push_u32(out: &mut String, n: u32)
    ensures
        final(out)@ == old(out)@ + ser_nat(n as nat),
    decreases n,
{
    if n < 10 {
        push_digit(out, n);
        proof {
            assert(final(out)@ =~= old(out)@ + ser_nat(n as nat));
        }
    } else {
        push_u32(out, n / 10);
        push_digit(out, n % 10);
        proof {
            assert(final(out)@ =~= old(out)@ + ser_nat(n as nat));
        }
    }
}

/// Appends a string's characters in escaped form.
fn push_escaped(out: &mut String, s: &str)
    ensures
        final(out)@ == old(out)@ + ser_str(s@),
{
    let len = s.unicode_len();
    let mut i: usize = 0;
    while i < len
        invariant
            i <= len,
            len == s@.len(),
            out@ == old(out)@ + ser_str(s@.take(i as int)),
        decreases len - i,
    {
        let c = s.get_char(i);
        proof {
            assert(s@.take(i + 1 as int) =~= s@.take(i as int).push(s@[i as int]));
            lemma_ser_str_push(s@.take(i as int), s@[i as int]);
        }
        if c == '"' || c == '\\' {
            push_char(out, '\\');
        }
        push_char(out, c);
        proof {
            assert(out@ =~= old(out)@ + ser_str(s@.take(i + 1 as int)));
        }
        i = i + 1;
    }
    proof {
        assert(s@.take(len as int) =~= s@);
    }
}

/// Appends `true` or `false`.
fn push_bool(out: &mut String, b: bool)
    ensures
        final(out)@ == old(out)@ + ser_bool(b),
{
    if b {
        out.append("true");
    } else {
        out.append("false");
    }
}

/// Appends the wire form of an event.
fn write_event_json(out: &mut String, e: &Event)
    ensures
        final(out)@ == old(out)@ + ser_event(e.deep_view()),
    decreases *e,
{
    out.append("{\"kind\":\"");
    out.append(kind_as_str(&e.kind));
    out.append("\",\"timestamp\":");
    push_u32(out, e.timestamp);
    out.append(",\"device\":");
    match &e.device {
        None => out.append("null"),
        Some(d) => {
            push_char(out, '"');
            out.append(device_as_str(d));
            push_char(out, '"');
        },
    }
    out.append(",\"data\":");
    match &e.data {
        None => out.append("null"),
        Some(b) => {
            write_bundle_json(out, b);
        },
    }
    push_char(out, '}');
    proof {
        assert(out@ =~= old(out)@ + ser_event(e.deep_view()));
    }
}

/// Appends the wire form of a bundle.
fn write_bundle_json(out: &mut String, b: &Bundle)
    ensures
        final(out)@ == old(out)@ + ser_bundle(b.deep_view()),
    decreases *b,
{
    match b {
        Bundle::ContactSensor { open } => {
            out.append("{\"ContactSensor\":{\"open\":");
            push_bool(out, *open);
            out.append("}}");
            proof {
                assert(out@ =~= old(out)@ + ser_bundle(b.deep_view()));
            }
        },
        Bundle::Error { msg } => {
            out.append("{\"Error\":{\"msg\":\"");
            push_escaped(out, msg.as_str());
            out.append("\"}}");
            proof {
                assert(out@ =~= old(out)@ + ser_bundle(b.deep_view()));
            }
        },
        Bundle::Camera { file_name } => {
            out.append("{\"Camera\":{\"file_name\":\"");
            push_escaped(out, file_name.as_str());
            out.append("\"}}");
            proof {
                assert(out@ =~= old(out)@ + ser_bundle(b.deep_view()));
            }
        },
        Bundle::Light { on } => {
            out.append("{\"Light\":{\"on\":");
            push_bool(out, *on);
            out.append("}}");
            proof {
                assert(out@ =~= old(out)@ + ser_bundle(b.deep_view()));
            }
        },
        Bundle::EventHistory { events } => {
            out.append("{\"EventHistory\":{\"events\":[");
            let ghost base = out@;
            let ghost models = b.deep_view()->EventHistory_events;
            let mut i: usize = 0;
            while i < events.len()
                invariant
                    i <= events@.len(),
                    models.len() == events@.len(),
                    forall|k: int| 0 <= k < events@.len() ==> models[k] == #[trigger] events@[k].deep_view(),
                    out@ == base + ser_events(models.take(i as int)),
                    *b matches Bundle::EventHistory { events: evs } && evs == events,
                decreases events@.len() - i,
            {
                if i > 0 {
                    push_char(out, ',');
                }
                write_event_json(out, &events[i]);
                proof {
                    assert(models.take(i + 1 as int) =~= models.take(i as int).push(models[i as int]));
                    lemma_ser_events_push(models.take(i as int), models[i as int]);
                    assert(out@ =~= base + ser_events(models.take(i + 1 as int)));
                }
                i = i + 1;
            }
            out.append("]}}");
            proof {
                assert(models.take(events@.len() as int) =~= models);
                assert(out@ =~= old(out)@ + ser_bundle(b.deep_view()));
            }
        },
        Bundle::PinCheck { pin } => {
            out.append("{\"PinCheck\":{\"pin\":");
            push_u32(out, *pin as u32);
            out.append("}}");
            proof {
                assert(out@ =~= old(out)@ + ser_bundle(b.deep_view()));
            }
        },
        Bundle::PinResult { authorized } => {
            out.append("{\"PinResult\":{\"authorized\":");
            push_bool(out, *authorized);
            out.append("}}");
            proof {
                assert(out@ =~= old(out)@ + ser_bundle(b.deep_view()));
            }
        },
    }
}

// ------------------------------------------------------------------
// The parser, executable: a recursive descent that mirrors the
// specification parser step for step.
// ------------------------------------------------------------------

/// The characters of a string slice, as a vector.
fn str_chars(s: &str) -> (chars: Vec<char>)
    ensures
        chars@ == s@,
{
    let len = s.unicode_len();
    let mut chars: Vec<char> = Vec::new();
    let mut i: usize = 0;
    while i < len
        invariant
            i <= len,
            len == s@.len(),
            chars@ == s@.take(i as int),
        decreases len - i,
    {
        chars.push(s.get_char(i));
        proof {
            assert(chars@ =~= s@.take(i + 1));
        }
        i = i + 1;
    }
    proof {
        assert(s@.take(len as int) =~= s@);
    }
    chars
}

/// Whether the literal stands at position `i`; on success the position
/// just past it.
fn expect_lit(v: &Vec<char>, i: usize, lit: &str) -> (res: Option<usize>)
    requires
        i <= v@.len(),
    ensures
        res matches Some(j) ==> sp_lit(v@, i as int, lit@) && j == i + lit@.len() && j <= v@.len(),
        res is None ==> !sp_lit(v@, i as int, lit@),
{
    let n = lit.unicode_len();
    let vlen = v.len();
    if n > vlen - i {
        return None;
    }
    let mut k: usize = 0;
    while k < n
        invariant
            k <= n,
            i + n <= vlen,
            vlen == v@.len(),
            n == lit@.len(),
            forall|m: int| 0 <= m < k ==> v@[i + m] == lit@[m],
        decreases n - k,
    {
        if v[i + k] != lit.get_char(k) {
            proof {
                assert(v@.subrange(i as int, i + lit@.len())[k as int] != lit@[k as int]);
            }
            return None;
        }
        k = k + 1;
    }
    proof {
        assert(v@.subrange(i as int, i + lit@.len()) =~= lit@);
    }
    Some(i + n)
}

/// Scans a name token up to a closing double quote: the token and the
/// position just past the quote.
fn scan_name(v: &Vec<char>, i: usize) -> (res: Option<(String, usize)>)
    requires
        i <= v@.len(),
    ensures
        match sp_name(v@, i as int) {
            Some((token, c)) => res matches Some((t, j)) && t@ == token && j == i + c && j <= v@.len(),
            None => res is None,
        },
{
    let mut token = String::new();
    let mut j: usize = i;
    while j < v.len() && v[j] != '"'
        invariant
            i <= j <= v@.len(),
            token@ == v@.subrange(i as int, j as int),
            forall|m: int| i <= m < j ==> v@[m] != '"',
        decreases v@.len() - j,
    {
        push_char(&mut token, v[j]);
        proof {
            assert(token@ =~= v@.subrange(i as int, j + 1));
        }
        j = j + 1;
    }
    proof {
        lemma_name_run_from_range(v@, i as int, j as int);
    }
    if j == v.len() {
        proof {
            assert(sp_name(v@, i as int) is None);
        }
        return None;
    }
    proof {
        assert(sp_name(v@, i as int) matches Some((t, c)) && t == v@.subrange(i as int, j as int)
            && c == (j - i) + 1);
    }
    Some((token, j + 1))
}

/// A scan that stopped at `j` pins the name run: everything before `j`
/// is not a quote, and `j` is the end of input or a quote.
proof fn lemma_name_run_from_range(s: Seq<char>, i: int, j: int)
    requires
        0 <= i <= j <= s.len(),
        forall|m: int| i <= m < j ==> s[m] != '"',
        j == s.len() || s[j] == '"',
    ensures
        name_run_len(s, i) == j - i,
    decreases j - i,
{
    if i < j {
        lemma_name_run_from_range(s, i + 1, j);
    }
}

/// The event kind a name token denotes.
fn kind_from_token(token: &String) -> (kind: Option<EventKind>)
    ensures
        kind == spec_kind_from_token(token@),
{
    if token.eq(&String::from_str("HealthCheck")) { Some(EventKind::HealthCheck) }
    else if token.eq(&String::from_str("PollDevice")) { Some(EventKind::PollDevice) }
    else if token.eq(&String::from_str("EventHistory")) { Some(EventKind::EventHistory) }
    else if token.eq(&String::from_str("MailStatus")) { Some(EventKind::MailStatus) }
    else if token.eq(&String::from_str("PinCheck")) { Some(EventKind::PinCheck) }
    else if token.eq(&String::from_str("MailDelivered")) { Some(EventKind::MailDelivered) }
    else if token.eq(&String::from_str("MailPickedUp")) { Some(EventKind::MailPickedUp) }
    else if token.eq(&String::from_str("DoorOpened")) { Some(EventKind::DoorOpened) }
    else if token.eq(&String::from_str("PollDeviceResult")) { Some(EventKind::PollDeviceResult) }
    else if token.eq(&String::from_str("PinResult")) { Some(EventKind::PinResult) }
    else if token.eq(&String::from_str("Error")) { Some(EventKind::Error) }
    else { None }
}

/// The device tag a name token denotes.
fn device_from_token(token: &String) -> (device: Option<DeviceType>)
    ensures
        device == spec_device_from_token(token@),
{
    if token.eq(&String::from_str("Camera")) { Some(DeviceType::Camera) }
    else if token.eq(&String::from_str("Light")) { Some(DeviceType::Light) }
    else if token.eq(&String::from_str("ContactSensor")) { Some(DeviceType::ContactSensor) }
    else { None }
}

/// Folding one more digit onto the accumulator.
proof fn lemma_digits_val_push(ds: Seq<char>, d: char, acc: nat)
    ensures
        digits_val(ds.push(d), acc) == digits_val(ds, acc) * 10 + digit_val(d),
    decreases ds.len(),
{
    if ds.len() == 0 {
        assert(ds.push(d)[0] == d);
        assert(ds.push(d).drop_first() =~= Seq::<char>::empty());
        assert(digits_val(ds.push(d), acc)
            == digits_val(Seq::<char>::empty(), acc * 10 + digit_val(d)));
        assert(digits_val(ds, acc) == acc);
    } else {
        assert(ds.push(d)[0] == ds[0]);
        assert(ds.push(d).drop_first() =~= ds.drop_first().push(d));
        lemma_digits_val_push(ds.drop_first(), d, acc * 10 + digit_val(ds[0]));
    }
}

/// The folded value never drops below the accumulator it started from.
proof fn lemma_digits_val_lower_bound(ds: Seq<char>, acc: nat)
    ensures
        digits_val(ds, acc) >= acc,
    decreases ds.len(),
{
    if ds.len() > 0 {
        lemma_digits_val_lower_bound(ds.drop_first(), acc * 10 + digit_val(ds[0]));
    }
}

/// Splitting a digit sequence splits the fold.
proof fn lemma_digits_val_concat(a: Seq<char>, b: Seq<char>, acc: nat)
    ensures
        digits_val(a + b, acc) == digits_val(b, digits_val(a, acc)),
    decreases a.len(),
{
    if a.len() == 0 {
        assert(a + b =~= b);
    } else {
        assert((a + b)[0] == a[0]);
        assert((a + b).drop_first() =~= a.drop_first() + b);
        lemma_digits_val_concat(a.drop_first(), b, acc * 10 + digit_val(a[0]));
    }
}

/// A scan that stopped at `j` pins the digit run.
proof fn lemma_digit_run_from_range(s: Seq<char>, i: int, j: int)
    requires
        0 <= i <= j <= s.len(),
        forall|m: int| i <= m < j ==> is_digit(s[m]),
        j == s.len() || !is_digit(s[j]),
    ensures
        digit_run_len(s, i) == j - i,
    decreases j - i,
{
    if i < j {
        lemma_digit_run_from_range(s, i + 1, j);
    }
}

/// The numeric value of the digit character at `j`, or 10 if it is none.
fn digit_of(v: &Vec<char>, j: usize) -> (d: u32)
    requires
        j < v@.len(),
    ensures
        d == digit_val(v@[j as int]),
        (d < 10) == is_digit(v@[j as int]),
{
    match v[j] {
        '0' => 0,
        '1' => 1,
        '2' => 2,
        '3' => 3,
        '4' => 4,
        '5' => 5,
        '6' => 6,
        '7' => 7,
        '8' => 8,
        '9' => 9,
        _ => 10,
    }
}

/// Parses a decimal number bounded by `max`: its value and the position
/// just past its digits.
fn parse_number(v: &Vec<char>, i: usize, max: u32) -> (res: Option<(u32, usize)>)
    requires
        i <= v@.len(),
    ensures
        match sp_number(v@, i as int, max as nat) {
            Some((value, c)) => res matches Some((n, j)) && n == value && j == i + c && j <= v@.len(),
            None => res is None,
        },
{
    // First find the digit run.
    let mut j: usize = i;
    while j < v.len() && digit_of(v, j) < 10
        invariant
            i <= j <= v@.len(),
            forall|m: int| i <= m < j ==> is_digit(v@[m]),
        decreases v@.len() - j,
    {
        j = j + 1;
    }
    proof {
        lemma_digit_run_from_range(v@, i as int, j as int);
    }
    if j == i {
        return None;
    }
    // Then fold the digits into a value, rejecting anything above `max`.
    let ghost run = (j - i) as nat;
    let ghost digits = v@.subrange(i as int, j as int);
    let mut value: u64 = 0;
    let mut k: usize = i;
    while k < j
        invariant
            i < j <= v@.len(),
            i <= k <= j,
            digits == v@.subrange(i as int, j as int),
            digit_run_len(v@, i as int) == j - i,
            forall|m: int| i <= m < j ==> is_digit(v@[m]),
            value == digits_val(v@.subrange(i as int, k as int), 0),
            value <= max,
            max <= 0xffff_ffff,
        decreases j - k,
    {
        let d = digit_of(v, k);
        proof {
            assert(v@.subrange(i as int, k + 1) =~= v@.subrange(i as int, k as int).push(v@[k as int]));
            lemma_digits_val_push(v@.subrange(i as int, k as int), v@[k as int], 0);
        }
        let next = value * 10 + d as u64;
        if next > max as u64 {
            proof {
                assert(digits =~= v@.subrange(i as int, k + 1) + v@.subrange(k + 1, j as int));
                lemma_digits_val_concat(v@.subrange(i as int, k + 1), v@.subrange(k + 1, j as int), 0);
                lemma_digits_val_lower_bound(v@.subrange(k + 1, j as int), digits_val(v@.subrange(i as int, k + 1), 0));
                assert(digits_val(digits, 0) > max);
                assert(sp_number(v@, i as int, max as nat) is None);
            }
            return None;
        }
        value = next;
        k = k + 1;
    }
    proof {
        assert(v@.subrange(i as int, j as int) == digits);
    }
    Some((value as u32, j))
}

/// Parses `true` or `false`.
fn parse_bool(v: &Vec<char>, i: usize) -> (res: Option<(bool, usize)>)
    requires
        i <= v@.len(),
    ensures
        match sp_bool(v@, i as int) {
            Some((value, c)) => res matches Some((b, j)) && b == value && j == i + c && j <= v@.len(),
            None => res is None,
        },
{
    if let Some(j) = expect_lit(v, i, "true") {
        return Some((true, j));
    }
    if let Some(j) = expect_lit(v, i, "false") {
        return Some((false, j));
    }
    None
}

/// Parses a JSON string body just past its opening quote: the unescaped
/// content and the position just past the closing quote.
fn parse_string(v: &Vec<char>, i: usize) -> (res: Option<(String, usize)>)
    requires
        i <= v@.len(),
    ensures
        match sp_string(v@, i as int) {
            Some((content, c)) => res matches Some((out, j)) && out@ == content && j == i + c
                && j <= v@.len(),
            None => res is None,
        },
{
    let mut out = String::new();
    let mut j: usize = i;
    loop
        invariant
            i <= j <= v@.len(),
            match sp_string(v@, j as int) {
                Some((content, c)) => sp_string(v@, i as int)
                    == Some::<(Seq<char>, nat)>((out@ + content, ((j - i) as nat + c) as nat)),
                None => sp_string(v@, i as int) is None,
            },
        ensures
            match sp_string(v@, i as int) {
                Some((content, c)) => out@ == content && j == i + c && j <= v@.len(),
                None => true,
            },
        decreases v@.len() - j,
    {
        if j >= v.len() {
            // Unterminated string.
            proof {
                assert(sp_string(v@, j as int) is None);
            }
            return None;
        }
        let c = v[j];
        if c == '"' {
            proof {
                assert(sp_string(v@, j as int) == Some::<(Seq<char>, nat)>((Seq::empty(), 1nat)));
                assert(out@ + Seq::<char>::empty() =~= out@);
            }
            return Some((out, j + 1));
        }
        if c == '\\' {
            if j + 1 < v.len() {
                let e = v[j + 1];
                if e == '"' || e == '\\' {
                    let ghost old_out = out@;
                    push_char(&mut out, e);
                    proof {
                        match sp_string(v@, j + 2) {
                            Some((content, c2)) => {
                                assert(sp_string(v@, j as int)
                                    == Some::<(Seq<char>, nat)>((seq![e] + content, (2 + c2) as nat)));
                                assert(old_out + (seq![e] + content) =~= out@ + content);
                            },
                            None => {
                                assert(sp_string(v@, j as int) is None);
                            },
                        }
                    }
                    j = j + 2;
                    continue;
                }
            }
            proof {
                assert(sp_string(v@, j as int) is None);
            }
            return None;
        }
        let ghost old_out = out@;
        push_char(&mut out, c);
        proof {
            match sp_string(v@, j + 1) {
                Some((content, c2)) => {
                    assert(sp_string(v@, j as int)
                        == Some::<(Seq<char>, nat)>((seq![c] + content, (1 + c2) as nat)));
                    assert(old_out + (seq![c] + content) =~= out@ + content);
                },
                None => {
                    assert(sp_string(v@, j as int) is None);
                },
            }
        }
        j = j + 1;
    }
}

// ------------------------------------------------------------------
// Round trip: the parser inverts the serializer. The lemmas walk the
// grammar; `lemma_round_trip` at the end states the law.
// ------------------------------------------------------------------

/// A region that holds a concatenation splits into its two halves.
proof fn lemma_split(s: Seq<char>, i: int, a: Seq<char>, b: Seq<char>)
    requires
        0 <= i,
        i + a.len() + b.len() <= s.len(),
        s.subrange(i, i + a.len() + b.len()) == a + b,
    ensures
        s.subrange(i, i + a.len()) == a,
        s.subrange(i + a.len(), i + a.len() + b.len()) == b,
{
    assert forall|k: int| 0 <= k < a.len() implies s.subrange(i, i + a.len())[k] == a[k] by {
        assert(s.subrange(i, i + a.len() + b.len())[k] == (a + b)[k]);
    }
    assert(s.subrange(i, i + a.len()) =~= a);
    assert forall|k: int| 0 <= k < b.len() implies s.subrange(
        i + a.len(),
        i + a.len() + b.len(),
    )[k] == b[k] by {
        assert(s.subrange(i, i + a.len() + b.len())[a.len() + k] == (a + b)[a.len() + k]);
        assert(s.subrange(i, i + a.len() + b.len())[a.len() + k] == s[i + a.len() + k]);
        assert(s.subrange(i + a.len(), i + a.len() + b.len())[k] == s[i + a.len() + k]);
    }
    assert(s.subrange(i + a.len(), i + a.len() + b.len()) =~= b);
}

/// A literal matches a region that holds it.
proof fn lemma_lit_here(s: Seq<char>, i: int, lit: Seq<char>)
    requires
        0 <= i,
        i + lit.len() <= s.len(),
        s.subrange(i, i + lit.len()) == lit,
    ensures
        sp_lit(s, i, lit),
{
}

/// A literal cannot match a region whose contents differ from it at `k`.
proof fn lemma_lit_mismatch(s: Seq<char>, i: int, lit: Seq<char>, region: Seq<char>, k: int)
    requires
        0 <= i,
        i + region.len() <= s.len(),
        s.subrange(i, i + region.len()) == region,
        0 <= k < region.len(),
        k < lit.len(),
        region[k] != lit[k],
    ensures
        !sp_lit(s, i, lit),
{
    if sp_lit(s, i, lit) {
        assert(s.subrange(i, i + lit.len())[k] == lit[k]);
        assert(s.subrange(i, i + region.len())[k] == region[k]);
    }
}

/// A token without quotes followed by a closing quote parses as a name.
pub open spec fn no_quote(token: Seq<char>) -> bool {
    forall|k: int| 0 <= k < token.len() ==> token[k] != '"'
}

proof fn lemma_name_here(s: Seq<char>, i: int, token: Seq<char>)
    requires
        0 <= i,
        i + token.len() < s.len(),
        s.subrange(i, i + token.len()) == token,
        no_quote(token),
        s[i + token.len()] == '"',
    ensures
        sp_name(s, i) == Some((token, (token.len() + 1) as nat)),
{
    assert forall|m: int| i <= m < i + token.len() implies s[m] != '"' by {
        assert(s.subrange(i, i + token.len())[m - i] == token[m - i]);
    }
    lemma_name_run_from_range(s, i, i + token.len());
}

/// No event-kind name contains a double quote.
proof fn lemma_kind_str_no_quote(kind: EventKind)
    ensures
        no_quote(spec_kind_str(kind)),
        spec_kind_str(kind).len() >= 1,
{
    reveal_strlit("HealthCheck");
    reveal_strlit("PollDevice");
    reveal_strlit("EventHistory");
    reveal_strlit("MailStatus");
    reveal_strlit("PinCheck");
    reveal_strlit("MailDelivered");
    reveal_strlit("MailPickedUp");
    reveal_strlit("DoorOpened");
    reveal_strlit("PollDeviceResult");
    reveal_strlit("PinResult");
    reveal_strlit("Error");
}

/// Two sequences that differ at one index differ.
proof fn lemma_seq_ne_at(a: Seq<char>, b: Seq<char>, k: int)
    requires
        0 <= k < a.len(),
        0 <= k < b.len(),
        a[k] != b[k],
    ensures
        a != b,
{
    if a == b {
        assert(a[k] == b[k]);
    }
}

/// Each event-kind name reads back as its kind: the kind strings
/// round-trip exactly, case-sensitively.
pub proof fn lemma_kind_token(kind: EventKind)
    ensures
        spec_kind_from_token(spec_kind_str(kind)) == Some(kind),
{
    reveal_strlit("HealthCheck");
    reveal_strlit("PollDevice");
    reveal_strlit("EventHistory");
    reveal_strlit("MailStatus");
    reveal_strlit("PinCheck");
    reveal_strlit("MailDelivered");
    reveal_strlit("MailPickedUp");
    reveal_strlit("DoorOpened");
    reveal_strlit("PollDeviceResult");
    reveal_strlit("PinResult");
    reveal_strlit("Error");
    match kind {
        EventKind::HealthCheck => {},
        EventKind::PollDevice => {
            lemma_seq_ne_at("PollDevice"@, "HealthCheck"@, 0);
        },
        EventKind::EventHistory => {
            lemma_seq_ne_at("EventHistory"@, "HealthCheck"@, 0);
            lemma_seq_ne_at("EventHistory"@, "PollDevice"@, 0);
        },
        EventKind::MailStatus => {
            lemma_seq_ne_at("MailStatus"@, "HealthCheck"@, 0);
            lemma_seq_ne_at("MailStatus"@, "PollDevice"@, 0);
            lemma_seq_ne_at("MailStatus"@, "EventHistory"@, 0);
        },
        EventKind::PinCheck => {
            lemma_seq_ne_at("PinCheck"@, "HealthCheck"@, 0);
            lemma_seq_ne_at("PinCheck"@, "PollDevice"@, 1);
            lemma_seq_ne_at("PinCheck"@, "EventHistory"@, 0);
            lemma_seq_ne_at("PinCheck"@, "MailStatus"@, 0);
        },
        EventKind::MailDelivered => {
            lemma_seq_ne_at("MailDelivered"@, "HealthCheck"@, 0);
            lemma_seq_ne_at("MailDelivered"@, "PollDevice"@, 0);
            lemma_seq_ne_at("MailDelivered"@, "EventHistory"@, 0);
            lemma_seq_ne_at("MailDelivered"@, "MailStatus"@, 4);
            lemma_seq_ne_at("MailDelivered"@, "PinCheck"@, 0);
        },
        EventKind::MailPickedUp => {
            lemma_seq_ne_at("MailPickedUp"@, "HealthCheck"@, 0);
            lemma_seq_ne_at("MailPickedUp"@, "PollDevice"@, 0);
            lemma_seq_ne_at("MailPickedUp"@, "EventHistory"@, 0);
            lemma_seq_ne_at("MailPickedUp"@, "MailStatus"@, 4);
            lemma_seq_ne_at("MailPickedUp"@, "PinCheck"@, 0);
            lemma_seq_ne_at("MailPickedUp"@, "MailDelivered"@, 4);
        },
        EventKind::DoorOpened => {
            lemma_seq_ne_at("DoorOpened"@, "HealthCheck"@, 0);
            lemma_seq_ne_at("DoorOpened"@, "PollDevice"@, 0);
            lemma_seq_ne_at("DoorOpened"@, "EventHistory"@, 0);
            lemma_seq_ne_at("DoorOpened"@, "MailStatus"@, 0);
            lemma_seq_ne_at("DoorOpened"@, "PinCheck"@, 0);
            lemma_seq_ne_at("DoorOpened"@, "MailDelivered"@, 0);
            lemma_seq_ne_at("DoorOpened"@, "MailPickedUp"@, 0);
        },
        EventKind::PollDeviceResult => {
            lemma_seq_ne_at("PollDeviceResult"@, "HealthCheck"@, 0);
            lemma_seq_ne_at("PollDeviceResult"@, "EventHistory"@, 0);
            lemma_seq_ne_at("PollDeviceResult"@, "MailStatus"@, 0);
            lemma_seq_ne_at("PollDeviceResult"@, "PinCheck"@, 1);
            lemma_seq_ne_at("PollDeviceResult"@, "MailDelivered"@, 0);
            lemma_seq_ne_at("PollDeviceResult"@, "MailPickedUp"@, 0);
            lemma_seq_ne_at("PollDeviceResult"@, "DoorOpened"@, 0);
            assert("PollDeviceResult"@.len() != "PollDevice"@.len());
        },
        EventKind::PinResult => {
            lemma_seq_ne_at("PinResult"@, "HealthCheck"@, 0);
            lemma_seq_ne_at("PinResult"@, "PollDevice"@, 1);
            lemma_seq_ne_at("PinResult"@, "EventHistory"@, 0);
            lemma_seq_ne_at("PinResult"@, "MailStatus"@, 0);
            lemma_seq_ne_at("PinResult"@, "PinCheck"@, 3);
            lemma_seq_ne_at("PinResult"@, "MailDelivered"@, 0);
            lemma_seq_ne_at("PinResult"@, "MailPickedUp"@, 0);
            lemma_seq_ne_at("PinResult"@, "DoorOpened"@, 0);
            lemma_seq_ne_at("PinResult"@, "PollDeviceResult"@, 1);
        },
        EventKind::Error => {
            lemma_seq_ne_at("Error"@, "HealthCheck"@, 0);
            lemma_seq_ne_at("Error"@, "PollDevice"@, 0);
            lemma_seq_ne_at("Error"@, "EventHistory"@, 1);
            lemma_seq_ne_at("Error"@, "MailStatus"@, 0);
            lemma_seq_ne_at("Error"@, "PinCheck"@, 0);
            lemma_seq_ne_at("Error"@, "MailDelivered"@, 0);
            lemma_seq_ne_at("Error"@, "MailPickedUp"@, 0);
            lemma_seq_ne_at("Error"@, "DoorOpened"@, 0);
            lemma_seq_ne_at("Error"@, "PollDeviceResult"@, 0);
            lemma_seq_ne_at("Error"@, "PinResult"@, 0);
        },
    }
}

/// No device name contains a double quote.
proof fn lemma_device_str_no_quote(device: DeviceType)
    ensures
        no_quote(spec_device_str(device)),
        spec_device_str(device).len() >= 1,
{
    reveal_strlit("Camera");
    reveal_strlit("Light");
    reveal_strlit("ContactSensor");
}

/// Each device name reads back as its tag.
/// Each device name reads back as its tag: the device strings
/// round-trip exactly, case-sensitively.
pub proof fn lemma_device_token(device: DeviceType)
    ensures
        spec_device_from_token(spec_device_str(device)) == Some(device),
{
    reveal_strlit("Camera");
    reveal_strlit("Light");
    reveal_strlit("ContactSensor");
    match device {
        DeviceType::Camera => {},
        DeviceType::Light => {
            lemma_seq_ne_at("Light"@, "Camera"@, 0);
        },
        DeviceType::ContactSensor => {
            lemma_seq_ne_at("ContactSensor"@, "Camera"@, 1);
            lemma_seq_ne_at("ContactSensor"@, "Light"@, 0);
        },
    }
}

/// The decimal form of a number is a nonempty digit string whose value
/// folds back to the number.
proof fn lemma_ser_nat_digits(n: nat)
    ensures
        ser_nat(n).len() >= 1,
        forall|k: int| 0 <= k < ser_nat(n).len() ==> is_digit(#[trigger] ser_nat(n)[k]),
        digits_val(ser_nat(n), 0) == n,
    decreases n,
{
    if n < 10 {
        assert(ser_nat(n) == seq![digit_char(n as int)]);
        assert(seq![digit_char(n as int)].drop_first() =~= Seq::<char>::empty());
        assert(digits_val(seq![digit_char(n as int)], 0)
            == digits_val(Seq::<char>::empty(), digit_val(digit_char(n as int))));
        assert(digit_val(digit_char(n as int)) == n);
    } else {
        lemma_ser_nat_digits(n / 10);
        let prefix = ser_nat(n / 10);
        let d = digit_char((n % 10) as int);
        assert(ser_nat(n) =~= prefix.push(d));
        lemma_digits_val_push(prefix, d, 0);
        assert(digits_val(prefix, 0) * 10 + digit_val(d) == (n / 10) * 10 + n % 10);
        vstd::arithmetic::div_mod::lemma_fundamental_div_mod(n as int, 10);
        assert forall|k: int| 0 <= k < ser_nat(n).len() implies is_digit(#[trigger] ser_nat(n)[k]) by {
            if k < prefix.len() {
                assert(ser_nat(n)[k] == prefix[k]);
            } else {
                assert(ser_nat(n)[k] == d);
            }
        }
    }
}

/// A decimal region followed by a non-digit parses as its number.
proof fn lemma_number_here(s: Seq<char>, i: int, n: nat, max: nat)
    requires
        0 <= i,
        i + ser_nat(n).len() < s.len(),
        s.subrange(i, i + ser_nat(n).len()) == ser_nat(n),
        !is_digit(s[i + ser_nat(n).len()]),
        n <= max,
    ensures
        sp_number(s, i, max) == Some((n, ser_nat(n).len())),
{
    lemma_ser_nat_digits(n);
    assert forall|m: int| i <= m < i + ser_nat(n).len() implies is_digit(s[m]) by {
        assert(s.subrange(i, i + ser_nat(n).len())[m - i] == ser_nat(n)[m - i]);
    }
    lemma_digit_run_from_range(s, i, i + ser_nat(n).len());
    assert(s.subrange(i, i + ser_nat(n).len()) == ser_nat(n));
}

/// A boolean region parses as its value.
proof fn lemma_bool_here(s: Seq<char>, i: int, b: bool)
    requires
        0 <= i,
        i + ser_bool(b).len() <= s.len(),
        s.subrange(i, i + ser_bool(b).len()) == ser_bool(b),
    ensures
        sp_bool(s, i) == Some((b, ser_bool(b).len())),
{
    reveal_strlit("true");
    reveal_strlit("false");
    if b {
        lemma_lit_here(s, i, "true"@);
    } else {
        lemma_lit_mismatch(s, i, "true"@, "false"@, 0);
        lemma_lit_here(s, i, "false"@);
    }
}

/// An escaped string region closed by a quote parses back to the string.
proof fn lemma_string_here(s: Seq<char>, i: int, m: Seq<char>)
    requires
        0 <= i,
        i + ser_str(m).len() < s.len(),
        s.subrange(i, i + ser_str(m).len()) == ser_str(m),
        s[i + ser_str(m).len()] == '"',
    ensures
        sp_string(s, i) == Some((m, (ser_str(m).len() + 1) as nat)),
    decreases m.len(),
{
    if m.len() == 0 {
        assert(s[i] == '"');
    } else {
        let c = m[0];
        let rest = m.drop_first();
        assert(ser_str(m) == esc_char(c) + ser_str(rest));
        lemma_split(s, i, esc_char(c), ser_str(rest));
        if c == '"' || c == '\\' {
            assert(esc_char(c) == seq!['\\', c]);
            assert(s.subrange(i, i + 2)[0] == '\\');
            assert(s.subrange(i, i + 2)[1] == c);
            assert(s[i] == '\\');
            assert(s[i + 1] == c);
            lemma_string_here(s, i + 2, rest);
            assert(seq![c] + rest =~= m);
        } else {
            assert(esc_char(c) == seq![c]);
            assert(s.subrange(i, i + 1)[0] == c);
            assert(s[i] == c);
            lemma_string_here(s, i + 1, rest);
            assert(seq![c] + rest =~= m);
        }
    }
}

/// Every serialized bundle opens with a brace.
proof fn lemma_ser_bundle_first(b: BundleV)
    ensures
        ser_bundle(b).len() >= 1,
        ser_bundle(b)[0] == '{',
{
    reveal_strlit("{\"ContactSensor\":{\"open\":");
    reveal_strlit("{\"Error\":{\"msg\":\"");
    reveal_strlit("{\"Camera\":{\"file_name\":\"");
    reveal_strlit("{\"Light\":{\"on\":");
    reveal_strlit("{\"EventHistory\":{\"events\":[");
    reveal_strlit("{\"PinCheck\":{\"pin\":");
    reveal_strlit("{\"PinResult\":{\"authorized\":");
    match b {
        BundleV::ContactSensor { open } => {
            assert(ser_bundle(b)[0] == "{\"ContactSensor\":{\"open\":"@[0]);
        },
        BundleV::Error { msg } => {
            assert(ser_bundle(b)[0] == "{\"Error\":{\"msg\":\""@[0]);
        },
        BundleV::Camera { file_name } => {
            assert(ser_bundle(b)[0] == "{\"Camera\":{\"file_name\":\""@[0]);
        },
        BundleV::Light { on } => {
            assert(ser_bundle(b)[0] == "{\"Light\":{\"on\":"@[0]);
        },
        BundleV::EventHistory { events } => {
            assert(ser_bundle(b)[0] == "{\"EventHistory\":{\"events\":["@[0]);
        },
        BundleV::PinCheck { pin } => {
            assert(ser_bundle(b)[0] == "{\"PinCheck\":{\"pin\":"@[0]);
        },
        BundleV::PinResult { authorized } => {
            assert(ser_bundle(b)[0] == "{\"PinResult\":{\"authorized\":"@[0]);
        },
    }
}

/// A region that holds a serialized event parses back to that event.
proof fn lemma_rt_event(s: Seq<char>, i: int, e: EventV)
    requires
        0 <= i,
        i + ser_event(e).len() <= s.len(),
        s.subrange(i, i + ser_event(e).len()) == ser_event(e),
    ensures
        sp_event(s, i) == Some((e, ser_event(e).len())),
    decreases e, 0int,
{
    reveal_strlit("{\"kind\":\"");
    reveal_strlit("\",\"timestamp\":");
    reveal_strlit(",\"timestamp\":");
    reveal_strlit(",\"device\":");
    reveal_strlit(",\"data\":");
    reveal_strlit("null");
    reveal_strlit("\"");
    reveal_strlit("}");
    let p1 = "{\"kind\":\""@;
    let kn = spec_kind_str(e.kind);
    let p2 = "\",\"timestamp\":"@;
    let ts = ser_nat(e.timestamp as nat);
    let p3 = ",\"device\":"@;
    let dv = match e.device {
        None => "null"@,
        Some(d) => seq!['"'] + spec_device_str(d) + seq!['"'],
    };
    let p4 = ",\"data\":"@;
    let bd = match e.data {
        None => "null"@,
        Some(b) => ser_bundle(b),
    };
    let p5 = seq!['}'];
    assert(ser_event(e) == p1 + kn + p2 + ts + p3 + dv + p4 + bd + p5);
    let o1 = i + p1.len();
    let o2 = o1 + kn.len();
    let o3 = o2 + p2.len();
    let o4 = o3 + ts.len();
    let o5 = o4 + p3.len();
    let o6 = o5 + dv.len();
    let o7 = o6 + p4.len();
    let o8 = o7 + bd.len();
    lemma_split(s, i, p1 + kn + p2 + ts + p3 + dv + p4 + bd, p5);
    lemma_split(s, i, p1 + kn + p2 + ts + p3 + dv + p4, bd);
    lemma_split(s, i, p1 + kn + p2 + ts + p3 + dv, p4);
    lemma_split(s, i, p1 + kn + p2 + ts + p3, dv);
    lemma_split(s, i, p1 + kn + p2 + ts, p3);
    lemma_split(s, i, p1 + kn + p2, ts);
    lemma_split(s, i, p1 + kn, p2);
    lemma_split(s, i, p1, kn);

    // The kind literal and name.
    lemma_lit_here(s, i, p1);
    lemma_kind_str_no_quote(e.kind);
    assert(s.subrange(o2, o3)[0] == p2[0]);
    assert(s[o2] == '"');
    lemma_name_here(s, o1, kn);
    lemma_kind_token(e.kind);

    // The timestamp field; the closing quote of the kind was consumed by
    // the name scan, and the rest of `p2` is the timestamp label.
    assert(p2 =~= seq!['"'] + ",\"timestamp\":"@);
    lemma_split(s, o2, seq!['"'], ",\"timestamp\":"@);
    lemma_lit_here(s, o2 + 1, ",\"timestamp\":"@);
    assert(s.subrange(o4, o5)[0] == p3[0]);
    assert(s[o4] == ',');
    assert(!is_digit(s[o4]));
    lemma_number_here(s, o3, e.timestamp as nat, 0xffff_ffff);

    // The device field.
    lemma_lit_here(s, o4, p3);
    match e.device {
        None => {
            lemma_lit_here(s, o5, "null"@);
        },
        Some(d) => {
            lemma_device_str_no_quote(d);
            assert(dv[0] == (seq!['"'] + spec_device_str(d))[0]);
            lemma_lit_mismatch(s, o5, "null"@, dv, 0);
            lemma_split(s, o5, seq!['"'] + spec_device_str(d), seq!['"']);
            lemma_split(s, o5, seq!['"'], spec_device_str(d));
            assert(s.subrange(o5, o5 + 1) =~= "\""@);
            lemma_lit_here(s, o5, "\""@);
            assert(s.subrange(o6 - 1, o6)[0] == '"');
            assert(s[o6 - 1] == '"');
            lemma_name_here(s, o5 + 1, spec_device_str(d));
            lemma_device_token(d);
        },
    }

    // The data field.
    lemma_lit_here(s, o6, p4);
    match e.data {
        None => {
            lemma_lit_here(s, o7, "null"@);
        },
        Some(b) => {
            lemma_ser_bundle_first(b);
            lemma_lit_mismatch(s, o7, "null"@, bd, 0);
            lemma_rt_bundle(s, o7, b);
        },
    }

    // The closing brace.
    assert(s.subrange(o8, o8 + 1)[0] == '}');
    assert(s[o8] == '}');
    assert(s.subrange(o8, o8 + 1) =~= "}"@);
    lemma_lit_here(s, o8, "}"@);
    assert((e.timestamp as nat) as u32 == e.timestamp);
    assert(sp_event(s, i) == Some((e, ser_event(e).len())));
}

/// A region that holds a serialized bundle parses back to that bundle.
#[verifier::rlimit(100)]
#[verifier::spinoff_prover]
proof fn lemma_rt_bundle(s: Seq<char>, i: int, b: BundleV)
    requires
        0 <= i,
        i + ser_bundle(b).len() <= s.len(),
        s.subrange(i, i + ser_bundle(b).len()) == ser_bundle(b),
    ensures
        sp_bundle(s, i) == Some((b, ser_bundle(b).len())),
    decreases b, 1int,
{
    reveal_strlit("{\"ContactSensor\":{\"open\":");
    reveal_strlit("{\"Error\":{\"msg\":\"");
    reveal_strlit("{\"Camera\":{\"file_name\":\"");
    reveal_strlit("{\"Light\":{\"on\":");
    reveal_strlit("{\"EventHistory\":{\"events\":[");
    reveal_strlit("{\"PinCheck\":{\"pin\":");
    reveal_strlit("{\"PinResult\":{\"authorized\":");
    reveal_strlit("}}");
    reveal_strlit("\"}}");
    reveal_strlit("]}}");
    let l0 = "{\"ContactSensor\":{\"open\":"@;
    let l1 = "{\"Error\":{\"msg\":\""@;
    let l2 = "{\"Camera\":{\"file_name\":\""@;
    let l3 = "{\"Light\":{\"on\":"@;
    let l4 = "{\"EventHistory\":{\"events\":["@;
    let l5 = "{\"PinCheck\":{\"pin\":"@;
    let l6 = "{\"PinResult\":{\"authorized\":"@;
    let r = ser_bundle(b);
    match b {
        BundleV::ContactSensor { open } => {
            assert(r == l0 + ser_bool(open) + "}}"@);
            lemma_split(s, i, l0 + ser_bool(open), "}}"@);
            lemma_split(s, i, l0, ser_bool(open));
            lemma_lit_here(s, i, l0);
            lemma_bool_here(s, i + l0.len(), open);
            lemma_lit_here(s, i + l0.len() + ser_bool(open).len(), "}}"@);
        },
        BundleV::Error { msg } => {
            assert(r == l1 + ser_str(msg) + "\"}}"@);
            assert(r[2] == l1[2]);
            lemma_lit_mismatch(s, i, l0, r, 2);
            lemma_split(s, i, l1 + ser_str(msg), "\"}}"@);
            lemma_split(s, i, l1, ser_str(msg));
            lemma_lit_here(s, i, l1);
            let j = i + l1.len();
            let j2 = j + ser_str(msg).len();
            assert("\"}}"@ =~= seq!['"'] + "}}"@);
            lemma_split(s, j2, seq!['"'], "}}"@);
            assert(s.subrange(j2, j2 + 1)[0] == '"');
            assert(s[j2] == '"');
            lemma_string_here(s, j, msg);
            lemma_lit_here(s, j2 + 1, "}}"@);
        },
        BundleV::Camera { file_name } => {
            assert(r == l2 + ser_str(file_name) + "\"}}"@);
            assert(r[3] == l2[3]);
            assert(r[2] == l2[2]);
            lemma_lit_mismatch(s, i, l0, r, 3);
            lemma_lit_mismatch(s, i, l1, r, 2);
            lemma_split(s, i, l2 + ser_str(file_name), "\"}}"@);
            lemma_split(s, i, l2, ser_str(file_name));
            lemma_lit_here(s, i, l2);
            let j = i + l2.len();
            let j2 = j + ser_str(file_name).len();
            assert("\"}}"@ =~= seq!['"'] + "}}"@);
            lemma_split(s, j2, seq!['"'], "}}"@);
            assert(s.subrange(j2, j2 + 1)[0] == '"');
            assert(s[j2] == '"');
            lemma_string_here(s, j, file_name);
            lemma_lit_here(s, j2 + 1, "}}"@);
        },
        BundleV::Light { on } => {
            assert(r == l3 + ser_bool(on) + "}}"@);
            assert(r[2] == l3[2]);
            lemma_lit_mismatch(s, i, l0, r, 2);
            lemma_lit_mismatch(s, i, l1, r, 2);
            lemma_lit_mismatch(s, i, l2, r, 2);
            lemma_split(s, i, l3 + ser_bool(on), "}}"@);
            lemma_split(s, i, l3, ser_bool(on));
            lemma_lit_here(s, i, l3);
            lemma_bool_here(s, i + l3.len(), on);
            lemma_lit_here(s, i + l3.len() + ser_bool(on).len(), "}}"@);
        },
        BundleV::EventHistory { events } => {
            assert(r == l4 + ser_events(events) + "]}}"@);
            assert(r[2] == l4[2]);
            assert(r[3] == l4[3]);
            lemma_lit_mismatch(s, i, l0, r, 2);
            lemma_lit_mismatch(s, i, l1, r, 3);
            lemma_lit_mismatch(s, i, l2, r, 2);
            lemma_lit_mismatch(s, i, l3, r, 2);
            lemma_split(s, i, l4 + ser_events(events), "]}}"@);
            lemma_split(s, i, l4, ser_events(events));
            lemma_lit_here(s, i, l4);
            let j = i + l4.len();
            let j2 = j + ser_events(events).len();
            assert(s.subrange(j2, j2 + 3)[0] == ']');
            assert(s[j2] == ']');
            if events.len() == 0 {
                assert(events =~= Seq::<EventV>::empty());
                assert(ser_events(events).len() == 0);
                assert(s.subrange(j, j + 3) =~= "]}}"@);
                lemma_lit_here(s, j, "]}}"@);
            } else {
                let first = ser_event(events[0]);
                assert(ser_events(events)[0] == first[0]) by {
                    if events.len() == 1 {
                        assert(ser_events(events) == first);
                    } else {
                        assert(ser_events(events)
                            == first + seq![','] + ser_events(events.drop_first()));
                        assert((first + seq![','] + ser_events(events.drop_first()))[0] == first[0]);
                    }
                }
                reveal_strlit("{\"kind\":\"");
                assert(first == "{\"kind\":\""@ + spec_kind_str(events[0].kind)
                    + "\",\"timestamp\":"@ + ser_nat(events[0].timestamp as nat) + ",\"device\":"@
                    + (match events[0].device {
                        None => "null"@,
                        Some(d) => seq!['"'] + spec_device_str(d) + seq!['"'],
                    }) + ",\"data\":"@ + (match events[0].data {
                        None => "null"@,
                        Some(eb) => ser_bundle(eb),
                    }) + seq!['}']);
                assert(first[0] == "{\"kind\":\""@[0]);
                let region2 = ser_events(events) + "]}}"@;
                assert(s.subrange(j, j2 + 3) =~= region2);
                assert(region2[0] == '{');
                lemma_lit_mismatch(s, j, "]}}"@, region2, 0);
                lemma_rt_events(s, j, events);
                lemma_lit_here(s, j2, "]}}"@);
            }
        },
        BundleV::PinCheck { pin } => {
            assert(r == l5 + ser_nat(pin as nat) + "}}"@);
            assert(r[2] == l5[2]);
            lemma_lit_mismatch(s, i, l0, r, 2);
            lemma_lit_mismatch(s, i, l1, r, 2);
            lemma_lit_mismatch(s, i, l2, r, 2);
            lemma_lit_mismatch(s, i, l3, r, 2);
            lemma_lit_mismatch(s, i, l4, r, 2);
            lemma_split(s, i, l5 + ser_nat(pin as nat), "}}"@);
            lemma_split(s, i, l5, ser_nat(pin as nat));
            lemma_lit_here(s, i, l5);
            let j = i + l5.len();
            let j2 = j + ser_nat(pin as nat).len();
            assert(s.subrange(j2, j2 + 2)[0] == '}');
            assert(s[j2] == '}');
            assert(!is_digit(s[j2]));
            lemma_number_here(s, j, pin as nat, 0xffff);
            lemma_lit_here(s, j2, "}}"@);
            assert((pin as nat) as u16 == pin);
        },
        BundleV::PinResult { authorized } => {
            assert(r == l6 + ser_bool(authorized) + "}}"@);
            assert(r[2] == l6[2]);
            assert(r[5] == l6[5]);
            lemma_lit_mismatch(s, i, l0, r, 2);
            lemma_lit_mismatch(s, i, l1, r, 2);
            lemma_lit_mismatch(s, i, l2, r, 2);
            lemma_lit_mismatch(s, i, l3, r, 2);
            lemma_lit_mismatch(s, i, l4, r, 2);
            lemma_lit_mismatch(s, i, l5, r, 5);
            lemma_split(s, i, l6 + ser_bool(authorized), "}}"@);
            lemma_split(s, i, l6, ser_bool(authorized));
            lemma_lit_here(s, i, l6);
            lemma_bool_here(s, i + l6.len(), authorized);
            lemma_lit_here(s, i + l6.len() + ser_bool(authorized).len(), "}}"@);
        },
    }
}

/// A region that holds a serialized nonempty event list, closed by the
/// list's closing bracket, parses back to that list.
proof fn lemma_rt_events(s: Seq<char>, i: int, events: Seq<EventV>)
    requires
        0 <= i,
        events.len() >= 1,
        i + ser_events(events).len() < s.len(),
        s.subrange(i, i + ser_events(events).len()) == ser_events(events),
        s[i + ser_events(events).len()] == ']',
    ensures
        sp_events(s, i) == Some((events, ser_events(events).len())),
    decreases events, 2int,
{
    if events.len() == 1 {
        assert(ser_events(events) == ser_event(events[0]));
        lemma_rt_event(s, i, events[0]);
        let c = ser_event(events[0]).len();
        assert(s[i + c] == ']');
        assert(seq![events[0]] =~= events);
    } else {
        let first = ser_event(events[0]);
        let rest = ser_events(events.drop_first());
        assert(ser_events(events) == first + seq![','] + rest);
        lemma_split(s, i, first + seq![','], rest);
        lemma_split(s, i, first, seq![',']);
        lemma_rt_event(s, i, events[0]);
        let c = first.len();
        assert(s.subrange(i + c, i + c + 1)[0] == ',');
        assert(s[i + c] == ',');
        assert(events.drop_first().len() >= 1);
        assert(s[i + c + 1 + rest.len()] == ']');
        lemma_rt_events(s, i + c + 1, events.drop_first());
        assert(seq![events[0]] + events.drop_first() =~= events);
    }
}

/// Round trip: parsing the wire form of any event yields that event
/// back, whole and unchanged.
pub proof fn lemma_round_trip(e: EventV)
    ensures
        spec_parse_event(ser_event(e)) == Some(e),
{
    let s = ser_event(e);
    assert(s.subrange(0, s.len() as int) =~= s);
    lemma_rt_event(s, 0, e);
}

/// Parses an event at `i`: the event and the position just past it.
fn parse_event(v: &Vec<char>, i: usize) -> (res: Option<(Event, usize)>)
    requires
        i <= v@.len(),
    ensures
        match sp_event(v@, i as int) {
            Some((m, c)) => res matches Some((e, j)) && e.deep_view() == m && j == i + c
                && j <= v@.len(),
            None => res is None,
        },
    decreases rem(v@, i as int), 0int,
{
    proof {
        reveal_strlit("{\"kind\":\"");
        reveal_strlit("\"");
        reveal_strlit("}");
        reveal_strlit("null");
    }
    let j0 = match expect_lit(v, i, "{\"kind\":\"") {
        Some(j) => j,
        None => {
            return None;
        },
    };
    let (token, j1) = match scan_name(v, j0) {
        Some(p) => p,
        None => {
            return None;
        },
    };
    let kind = match kind_from_token(&token) {
        Some(k) => k,
        None => {
            return None;
        },
    };
    let (timestamp, j2) = if let Some(jn) = expect_lit(v, j1, ",\"timestamp\":") {
        match parse_number(v, jn, 0xffff_ffff) {
            Some((value, j)) => (value, j),
            None => {
                return None;
            },
        }
    } else {
        (0u32, j1)
    };
    let (device, j3) = if let Some(jd) = expect_lit(v, j2, ",\"device\":") {
        if let Some(jn) = expect_lit(v, jd, "null") {
            (None, jn)
        } else if let Some(jq) = expect_lit(v, jd, "\"") {
            let (dtoken, jd2) = match scan_name(v, jq) {
                Some(p) => p,
                None => {
                    return None;
                },
            };
            match device_from_token(&dtoken) {
                Some(d) => (Some(d), jd2),
                None => {
                    return None;
                },
            }
        } else {
            return None;
        }
    } else {
        (None, j2)
    };
    if let Some(jb) = expect_lit(v, j3, ",\"data\":") {
        if let Some(j4) = expect_lit(v, jb, "null") {
            match expect_lit(v, j4, "}") {
                Some(j5) => Some((Event::at(kind, timestamp, device, None), j5)),
                None => None,
            }
        } else {
            let (bundle, j4) = match parse_bundle(v, jb) {
                Some(p) => p,
                None => {
                    return None;
                },
            };
            match expect_lit(v, j4, "}") {
                Some(j5) => Some((Event::at(kind, timestamp, device, Some(bundle)), j5)),
                None => None,
            }
        }
    } else if let Some(j5) = expect_lit(v, j3, "}") {
        Some((Event::at(kind, timestamp, device, None), j5))
    } else {
        None
    }
}

/// Parses a bundle at `i`: the bundle and the position just past it.
fn parse_bundle(v: &Vec<char>, i: usize) -> (res: Option<(Bundle, usize)>)
    requires
        i <= v@.len(),
    ensures
        match sp_bundle(v@, i as int) {
            Some((m, c)) => res matches Some((b, j)) && b.deep_view() == m && j == i + c
                && j <= v@.len(),
            None => res is None,
        },
    decreases rem(v@, i as int), 1int,
{
    proof {
        reveal_strlit("{\"EventHistory\":{\"events\":[");
        reveal_strlit("]}}");
        reveal_strlit("}}");
    }
    if let Some(j) = expect_lit(v, i, "{\"ContactSensor\":{\"open\":") {
        match parse_bool(v, j) {
            Some((open, j2)) => match expect_lit(v, j2, "}}") {
                Some(j3) => Some((Bundle::ContactSensor { open }, j3)),
                None => None,
            },
            None => None,
        }
    } else if let Some(j) = expect_lit(v, i, "{\"Error\":{\"msg\":\"") {
        match parse_string(v, j) {
            Some((msg, j2)) => match expect_lit(v, j2, "}}") {
                Some(j3) => Some((Bundle::Error { msg }, j3)),
                None => None,
            },
            None => None,
        }
    } else if let Some(j) = expect_lit(v, i, "{\"Camera\":{\"file_name\":\"") {
        match parse_string(v, j) {
            Some((file_name, j2)) => match expect_lit(v, j2, "}}") {
                Some(j3) => Some((Bundle::Camera { file_name }, j3)),
                None => None,
            },
            None => None,
        }
    } else if let Some(j) = expect_lit(v, i, "{\"Light\":{\"on\":") {
        match parse_bool(v, j) {
            Some((on, j2)) => match expect_lit(v, j2, "}}") {
                Some(j3) => Some((Bundle::Light { on }, j3)),
                None => None,
            },
            None => None,
        }
    } else if let Some(j) = expect_lit(v, i, "{\"EventHistory\":{\"events\":[") {
        if let Some(j2) = expect_lit(v, j, "]}}") {
            let events: Vec<Event> = Vec::new();
            let result = Bundle::EventHistory { events };
            proof {
                assert(result.deep_view()->EventHistory_events =~= Seq::<EventV>::empty());
            }
            Some((result, j2))
        } else {
            match parse_events(v, j) {
                Some((events, j2)) => match expect_lit(v, j2, "]}}") {
                    Some(j3) => {
                        let ghost models = events.deep_view();
                        let result = Bundle::EventHistory { events };
                        proof {
                            assert(result.deep_view()->EventHistory_events =~= models);
                        }
                        Some((result, j3))
                    },
                    None => None,
                },
                None => None,
            }
        }
    } else if let Some(j) = expect_lit(v, i, "{\"PinCheck\":{\"pin\":") {
        match parse_number(v, j, 0xffff) {
            Some((pin, j2)) => match expect_lit(v, j2, "}}") {
                Some(j3) => Some((Bundle::PinCheck { pin: pin as u16 }, j3)),
                None => None,
            },
            None => None,
        }
    } else if let Some(j) = expect_lit(v, i, "{\"PinResult\":{\"authorized\":") {
        match parse_bool(v, j) {
            Some((authorized, j2)) => match expect_lit(v, j2, "}}") {
                Some(j3) => Some((Bundle::PinResult { authorized }, j3)),
                None => None,
            },
            None => None,
        }
    } else {
        None
    }
}

/// Parses a nonempty comma-separated list of events at `i`.
fn parse_events(v: &Vec<char>, i: usize) -> (res: Option<(Vec<Event>, usize)>)
    requires
        i <= v@.len(),
    ensures
        match sp_events(v@, i as int) {
            Some((models, c)) => res matches Some((events, j)) && events.deep_view() == models
                && j == i + c && j <= v@.len(),
            None => res is None,
        },
    decreases rem(v@, i as int), 2int,
{
    match parse_event(v, i) {
        None => None,
        Some((event, j)) => {
            let ghost model = event.deep_view();
            if j < v.len() && v[j] == ',' {
                match parse_events(v, j + 1) {
                    None => None,
                    Some((mut events, j2)) => {
                        let ghost rest_models = events.deep_view();
                        events.insert(0, event);
                        proof {
                            assert(events.deep_view() =~= seq![model] + rest_models);
                        }
                        Some((events, j2))
                    },
                }
            } else {
                let mut events: Vec<Event> = Vec::new();
                events.push(event);
                proof {
                    assert(events.deep_view() =~= seq![model]);
                }
                Some((events, j))
            }
        },
    }
}

/// Whether the whole character sequence is one wire-format event.
pub open spec fn spec_parse_event(s: Seq<char>) -> Option<EventV> {
    match sp_event(s, 0) {
        Some((m, c)) => if c == s.len() {
            Some(m)
        } else {
            None
        },
        None => None,
    }
}

/// Parses one complete wire-format frame; trailing content or any
/// malformed input yields None.
pub fn parse_event_str(text: &str) -> (res: Option<Event>)
    ensures
        match spec_parse_event(text@) {
            Some(m) => res matches Some(e) && e.deep_view() == m,
            None => res is None,
        },
{
    let chars = str_chars(text);
    match parse_event(&chars, 0) {
        Some((event, j)) => {
            if j == chars.len() {
                Some(event)
            } else {
                None
            }
        },
        None => None,
    }
}

/// The wire form of an event, as sent to every subscriber.
pub fn event_to_json(e: &Event) -> (out: String)
    ensures
        out@ == ser_event(e.deep_view()),
{
    let mut out = String::new();
    write_event_json(&mut out, e);
    proof {
        assert(out@ =~= ser_event(e.deep_view()));
    }
    out
}

/// The wire form of a bundle alone; the shape of a stored row's data
/// column.
pub fn bundle_to_json(b: &Bundle) -> (out: String)
    ensures
        out@ == ser_bundle(b.deep_view()),
{
    let mut out = String::new();
    write_bundle_json(&mut out, b);
    proof {
        assert(out@ =~= ser_bundle(b.deep_view()));
    }
    out
}

/// Reads an event kind back from its exact string form.
pub fn kind_from_str(token: &str) -> (kind: Option<EventKind>)
    ensures
        kind == spec_kind_from_token(token@),
{
    kind_from_token(&String::from_str(token))
}

/// Reads a device tag back from its exact string form.
pub fn device_from_str(token: &str) -> (device: Option<DeviceType>)
    ensures
        device == spec_device_from_token(token@),
{
    device_from_token(&String::from_str(token))
}

/// Parses one complete bundle, as read back from a stored row's data
/// column; trailing content or any malformed input yields None.
pub fn parse_bundle_str(text: &str) -> (res: Option<Bundle>)
    ensures
        match sp_bundle(text@, 0) {
            Some((m, c)) => if c == text@.len() {
                res matches Some(b) && b.deep_view() == m
            } else {
                res is None
            },
            None => res is None,
        },
{
    let chars = str_chars(text);
    match parse_bundle(&chars, 0) {
        Some((bundle, j)) => {
            if j == chars.len() {
                Some(bundle)
            } else {
                None
            }
        },
        None => None,
    }
}

} // verus!
