//! Topic and payload routing of the ingester.
//!
//! Routing contract:
//! - topic `sensors/<room>/<device_id>/status` → device status row
//! - payload containing key `f1_415`           → AS7341 spectral row
//! - otherwise                                 → one sensor row per numeric key
//!
//! The JSON text itself is decoded by `serde_json` outside this crate; what
//! the routing reads of it arrives here as a list of [`PayloadField`]s.

use vstd::prelude::*;
use crate::text::{push_char, push_str, str_eq, views_of};

verus! {

/// Splits `s` at every occurrence of `sep`, as `str::split` does: `n`
/// separators give `n + 1` parts, empty parts included.
pub open spec fn split_on(s: Seq<char>, sep: char) -> Seq<Seq<char>>
    decreases s.len(),
{
    if s.len() == 0 {
        seq![Seq::<char>::empty()]
    } else {
        let prev = split_on(s.drop_last(), sep);
        if s.last() == sep {
            prev.push(Seq::<char>::empty())
        } else {
            prev.update(prev.len() - 1, prev.last().push(s.last()))
        }
    }
}

/// `split_on` always yields at least one part.
pub proof fn lemma_split_nonempty(s: Seq<char>, sep: char)
    ensures
        split_on(s, sep).len() >= 1,
    decreases s.len(),
{
    if s.len() > 0 {
        lemma_split_nonempty(s.drop_last(), sep);
    }
}

/// A string without the separator is a single part.
pub proof fn lemma_split_no_sep(s: Seq<char>, sep: char)
    requires
        !s.contains(sep),
    ensures
        split_on(s, sep) == seq![s],
    decreases s.len(),
{
    if s.len() > 0 {
        assert(!s.drop_last().contains(sep)) by {
            if s.drop_last().contains(sep) {
                let k = choose|k: int| 0 <= k < s.drop_last().len() && s.drop_last()[k] == sep;
                assert(s[k] == sep);
            }
        }
        lemma_split_no_sep(s.drop_last(), sep);
        assert(s.last() != sep) by {
            assert(s[s.len() - 1] == s.last());
        }
        assert(s.drop_last().push(s.last()) =~= s);
        assert(split_on(s, sep) =~= seq![s]);
    } else {
        assert(s =~= Seq::<char>::empty());
    }
}

/// Splitting `a`, a separator and `b` splits `a` and `b` apart.
pub proof fn lemma_split_concat(a: Seq<char>, b: Seq<char>, sep: char)
    ensures
        split_on(a.push(sep) + b, sep) == split_on(a, sep) + split_on(b, sep),
    decreases b.len(),
{
    lemma_split_nonempty(a, sep);
    lemma_split_nonempty(b, sep);
    if b.len() == 0 {
        assert(a.push(sep) + b =~= a.push(sep));
        assert(a.push(sep).drop_last() =~= a);
        assert(split_on(a, sep) + split_on(b, sep) =~= split_on(a, sep).push(Seq::<char>::empty()));
    } else {
        let b0 = b.drop_last();
        lemma_split_concat(a, b0, sep);
        lemma_split_nonempty(b0, sep);
        let whole = a.push(sep) + b;
        assert(whole.drop_last() =~= a.push(sep) + b0);
        assert(whole.last() == b.last());
        let pa = split_on(a, sep);
        let pb0 = split_on(b0, sep);
        if b.last() == sep {
            assert(split_on(whole, sep) =~= (pa + pb0).push(Seq::<char>::empty()));
            assert(split_on(b, sep) =~= pb0.push(Seq::<char>::empty()));
            assert(split_on(whole, sep) =~= pa + split_on(b, sep));
        } else {
            let prev = pa + pb0;
            assert(prev.last() == pb0.last());
            assert(split_on(b, sep) =~= pb0.update(pb0.len() - 1, pb0.last().push(b.last())));
            assert(split_on(whole, sep) =~= prev.update(prev.len() - 1, prev.last().push(b.last())));
            assert(split_on(whole, sep) =~= pa + split_on(b, sep));
        }
    }
}

/// Where a message came from, read off its topic.
#[derive(Debug, Clone)]
pub struct Topic {
    pub room: String,
    pub device_id: String,
    /// The topic ends in `/status`.
    pub is_status: bool,
}

/// The `(room, device_id, is_status)` of a topic, or `None` when the topic is
/// neither `sensors/<room>/<device>` nor `sensors/<room>/<device>/status`.
pub open spec fn topic_view(topic: Seq<char>) -> Option<(Seq<char>, Seq<char>, bool)> {
    let parts = split_on(topic, '/');
    if parts.len() == 3 && parts[0] == "sensors"@ {
        Some((parts[1], parts[2], false))
    } else if parts.len() == 4 && parts[0] == "sensors"@ && parts[3] == "status"@ {
        Some((parts[1], parts[2], true))
    } else {
        None
    }
}

/// Splits `s` at every `sep`.
pub fn split_string(s: &str, sep: char) -> (r: Vec<String>)
    ensures
        views_of(r@) == split_on(s@, sep),
{
    let n = s.unicode_len();
    let mut parts: Vec<String> = Vec::new();
    let mut cur = String::new();
    let mut i: usize = 0;
    while i < n
        invariant
            n == s@.len(),
            i <= n,
            views_of(parts@).push(cur@) == split_on(s@.subrange(0, i as int), sep),
        decreases n - i,
    {
        let c = s.get_char(i);
        let ghost pre = s@.subrange(0, i as int);
        let ghost post = s@.subrange(0, i + 1);
        assert(post.drop_last() =~= pre);
        assert(post.last() == c);
        if c == sep {
            let ghost old_parts = parts@;
            parts.push(cur);
            cur = String::new();
            assert(views_of(parts@) =~= views_of(old_parts).push(views_of(parts@).last()));
            assert(views_of(parts@).push(cur@) =~= split_on(post, sep));
        } else {
            let ghost old_cur = cur@;
            push_char(&mut cur, c);
            assert(views_of(parts@).push(cur@) =~= views_of(parts@).push(old_cur).update(
                views_of(parts@).len() as int,
                old_cur.push(c),
            ));
        }
        i = i + 1;
    }
    assert(s@.subrange(0, n as int) =~= s@);
    parts.push(cur);
    assert(views_of(parts@) =~= split_on(s@, sep));
    parts
}

/// Reads the room, device and kind of a message off its topic.
pub fn parse_topic(topic: &str) -> (r: Option<Topic>)
    ensures
        match (r, topic_view(topic@)) {
            (Some(t), Some((room, device, status))) => t.room@ == room && t.device_id@ == device
                && t.is_status == status,
            (None, None) => true,
            _ => false,
        },
{
    let parts = split_string(topic, '/');
    proof {
        assert(views_of(parts@).len() == parts@.len());
    }
    if parts.len() < 3 || parts.len() > 4 {
        return None;
    }
    assert(views_of(parts@)[0] == parts@[0]@);
    assert(views_of(parts@)[1] == parts@[1]@);
    assert(views_of(parts@)[2] == parts@[2]@);
    if !str_eq(parts[0].as_str(), "sensors") {
        return None;
    }
    if parts.len() == 3 {
        return Some(Topic { room: parts[1].clone(), device_id: parts[2].clone(), is_status: false });
    }
    assert(views_of(parts@)[3] == parts@[3]@);
    if str_eq(parts[3].as_str(), "status") {
        Some(Topic { room: parts[1].clone(), device_id: parts[2].clone(), is_status: true })
    } else {
        None
    }
}

/// The topic a device publishes its readings on.
pub open spec fn data_topic_view(room: Seq<char>, device_id: Seq<char>) -> Seq<char> {
    "sensors/"@ + room + "/"@ + device_id
}

/// `sensors/<room>/<device_id>`: where a device publishes its readings.
pub fn data_topic(room: &str, device_id: &str) -> (r: String)
    ensures
        r@ == data_topic_view(room@, device_id@),
{
    let mut t = String::new();
    push_str(&mut t, "sensors/");
    push_str(&mut t, room);
    push_str(&mut t, "/");
    push_str(&mut t, device_id);
    t
}

/// `sensors/<room>/<device_id>/status`: where a device publishes its status
/// and registers its last will.
pub fn status_topic(room: &str, device_id: &str) -> (r: String)
    ensures
        r@ == data_topic_view(room@, device_id@) + "/status"@,
{
    let mut t = data_topic(room, device_id);
    push_str(&mut t, "/status");
    t
}

/// A publisher's data and status topics route back to the room and device
/// they were built from, as long as neither contains a `/`.
pub proof fn lemma_topics_roundtrip(room: Seq<char>, device_id: Seq<char>)
    requires
        !room.contains('/'),
        !device_id.contains('/'),
    ensures
        topic_view(data_topic_view(room, device_id)) == Some((room, device_id, false)),
        topic_view(data_topic_view(room, device_id) + "/status"@) == Some(
            (room, device_id, true),
        ),
{
    reveal_strlit("sensors/");
    reveal_strlit("/");
    reveal_strlit("/status");
    reveal_strlit("sensors");
    reveal_strlit("status");
    let sensors = "sensors"@;
    let status = "status"@;
    assert("sensors/"@ =~= sensors.push('/'));
    assert("/"@ =~= Seq::<char>::empty().push('/'));
    assert("/status"@ =~= Seq::<char>::empty().push('/') + status);
    assert(!sensors.contains('/')) by {
        if sensors.contains('/') {
            let k = choose|k: int| 0 <= k < sensors.len() && sensors[k] == '/';
        }
    }
    assert(!status.contains('/')) by {
        if status.contains('/') {
            let k = choose|k: int| 0 <= k < status.len() && status[k] == '/';
        }
    }
    lemma_split_no_sep(sensors, '/');
    lemma_split_no_sep(room, '/');
    lemma_split_no_sep(device_id, '/');
    lemma_split_no_sep(status, '/');
    let t = data_topic_view(room, device_id);
    // sensors / room / device
    assert(room.push('/') + device_id =~= room + "/"@ + device_id);
    lemma_split_concat(room, device_id, '/');
    assert(t =~= sensors.push('/') + (room.push('/') + device_id));
    lemma_split_concat(sensors, room.push('/') + device_id, '/');
    assert(split_on(t, '/') =~= seq![sensors, room, device_id]);
    // ... / status
    let ts = t + "/status"@;
    assert(ts =~= sensors.push('/') + (room.push('/') + (device_id.push('/') + status)));
    lemma_split_concat(device_id, status, '/');
    lemma_split_concat(room, device_id.push('/') + status, '/');
    lemma_split_concat(sensors, room.push('/') + (device_id.push('/') + status), '/');
    assert(split_on(ts, '/') =~= seq![sensors, room, device_id, status]);
}

/// A JSON value of the payload object, as far as routing reads it.
#[derive(Debug, Clone, Copy, PartialEq, Eq, Structural)]
pub enum JsonScalar {
    /// A JSON number; `whole` is what it reads as an integer: the number itself
    /// when it is an integer that fits `i64`, otherwise the number truncated
    /// toward zero and saturated to the `i64` range.
    Number { whole: i64 },
    Bool(bool),
    /// A string, array, object or null.
    Other,
}

/// One key/value entry of the payload object, in the object's order.
#[derive(Debug, Clone)]
pub struct PayloadField {
    pub key: String,
    pub value: JsonScalar,
}

/// Why the payload could not be read as a JSON object.
#[derive(Debug, Clone, Copy, PartialEq, Eq, Structural)]
pub enum PayloadError {
    InvalidJson,
    NotAnObject,
}

/// Why a message was skipped.
#[derive(Debug, Clone, Copy, PartialEq, Eq, Structural)]
pub enum IngestError {
    /// The topic is neither `sensors/<room>/<device>` nor its `/status`.
    UnrecognizedTopic,
    InvalidJson,
    NotAnObject,
    /// A sensor payload without any numeric or boolean value.
    NoNumericMetrics,
}

/// Device status fields: signal strength, uptime and the online flag.
#[derive(Debug, Clone, Copy, PartialEq, Eq, Structural)]
pub struct StatusReading {
    pub rssi: i16,
    pub uptime_s: u32,
    pub online: bool,
}

/// One AS7341 measurement: gain, integration settings and the channels.
#[derive(Debug, Clone, Copy, PartialEq, Eq, Structural)]
pub struct As7341Reading {
    pub gain: u8,
    pub atime: u16,
    pub astep: u16,
    pub f1_415: u16,
    pub f2_445: u16,
    pub f3_480: u16,
    pub f4_515: u16,
    pub f5_555: u16,
    pub f6_590: u16,
    pub f7_630: u16,
    pub f8_680: u16,
    pub clear: u16,
    pub nir: u16,
}

/// Where a message goes.
#[derive(Debug, Clone)]
pub enum Route {
    /// One sensor row per listed payload field (indices into the payload,
    /// in payload order).
    Sensor { metric_fields: Vec<usize> },
    As7341(As7341Reading),
    Status(StatusReading),
}

/// A routed message: its origin and its destination.
#[derive(Debug, Clone)]
pub struct Routed {
    pub room: String,
    pub device_id: String,
    pub route: Route,
}

/// The value stored under `key` (the first entry with that key).
pub open spec fn lookup(fields: Seq<PayloadField>, key: Seq<char>) -> Option<JsonScalar>
    decreases fields.len(),
{
    if fields.len() == 0 {
        None
    } else if fields[0].key@ == key {
        Some(fields[0].value)
    } else {
        lookup(fields.drop_first(), key)
    }
}

/// A value read as an integer: numbers as described at [`JsonScalar`],
/// booleans as 0/1, anything else (or a missing key) as nothing.
pub open spec fn as_int(v: Option<JsonScalar>) -> Option<i64> {
    match v {
        Some(JsonScalar::Number { whole }) => Some(whole),
        Some(JsonScalar::Bool(b)) => Some(if b { 1i64 } else { 0i64 }),
        _ => None,
    }
}

/// The integer under `key`, 0 when absent or not numeric.
pub open spec fn int_or_zero(fields: Seq<PayloadField>, key: Seq<char>) -> int {
    match as_int(lookup(fields, key)) {
        Some(v) => v as int,
        None => 0,
    }
}

/// `v` clamped into `lo..=hi`.
pub open spec fn clamp(v: int, lo: int, hi: int) -> int {
    if v < lo { lo } else if v > hi { hi } else { v }
}

/// An AS7341 channel: the integer under `key`, clamped to `u16`.
pub open spec fn channel(fields: Seq<PayloadField>, key: Seq<char>) -> u16 {
    clamp(int_or_zero(fields, key), 0, 65535) as u16
}

/// The status fields of a payload: `rssi` truncated to `i16`, `uptime_s`
/// floored at 0 and truncated to `u32`, `online` set by any non-zero value.
pub open spec fn status_of(fields: Seq<PayloadField>) -> StatusReading {
    StatusReading {
        rssi: int_or_zero(fields, "rssi"@) as i16,
        uptime_s: (if int_or_zero(fields, "uptime_s"@) < 0 {
            0
        } else {
            int_or_zero(fields, "uptime_s"@)
        }) as u32,
        online: match as_int(lookup(fields, "online"@)) {
            Some(v) => v != 0,
            None => false,
        },
    }
}

/// The AS7341 fields of a payload: `gain` clamped to `u8`, every other
/// field clamped to `u16`.
pub open spec fn as7341_of(fields: Seq<PayloadField>) -> As7341Reading {
    As7341Reading {
        gain: clamp(int_or_zero(fields, "gain"@), 0, 255) as u8,
        atime: channel(fields, "atime"@),
        astep: channel(fields, "astep"@),
        f1_415: channel(fields, "f1_415"@),
        f2_445: channel(fields, "f2_445"@),
        f3_480: channel(fields, "f3_480"@),
        f4_515: channel(fields, "f4_515"@),
        f5_555: channel(fields, "f5_555"@),
        f6_590: channel(fields, "f6_590"@),
        f7_630: channel(fields, "f7_630"@),
        f8_680: channel(fields, "f8_680"@),
        clear: channel(fields, "clear"@),
        nir: channel(fields, "nir"@),
    }
}

/// Numbers and booleans become sensor rows; strings, arrays, objects and
/// nulls are skipped.
pub open spec fn is_metric(v: JsonScalar) -> bool {
    v is Number || v is Bool
}

/// The positions of the payload's numeric and boolean values, in order.
pub open spec fn metric_positions(fields: Seq<PayloadField>) -> Seq<usize>
    decreases fields.len(),
{
    if fields.len() == 0 {
        Seq::<usize>::empty()
    } else {
        let prev = metric_positions(fields.drop_last());
        if is_metric(fields.last().value) {
            prev.push((fields.len() - 1) as usize)
        } else {
            prev
        }
    }
}

/// Where a message with this topic and payload goes.
pub open spec fn route_view(topic: Seq<char>, payload: Result<Seq<PayloadField>, PayloadError>) -> Result<(Seq<char>, Seq<char>, RouteView), IngestError> {
    match topic_view(topic) {
        None => Err(IngestError::UnrecognizedTopic),
        Some((room, device, is_status)) => match payload {
            Err(PayloadError::InvalidJson) => Err(IngestError::InvalidJson),
            Err(PayloadError::NotAnObject) => Err(IngestError::NotAnObject),
            Ok(fields) => if is_status {
                Ok((room, device, RouteView::Status(status_of(fields))))
            } else if lookup(fields, "f1_415"@) is Some {
                Ok((room, device, RouteView::As7341(as7341_of(fields))))
            } else if metric_positions(fields).len() == 0 {
                Err(IngestError::NoNumericMetrics)
            } else {
                Ok((room, device, RouteView::Sensor(metric_positions(fields))))
            },
        },
    }
}

/// The mathematical form of a [`Route`].
pub enum RouteView {
    Sensor(Seq<usize>),
    As7341(As7341Reading),
    Status(StatusReading),
}

impl Route {
    pub open spec fn view_of(&self) -> RouteView {
        match self {
            Route::Sensor { metric_fields } => RouteView::Sensor(metric_fields@),
            Route::As7341(r) => RouteView::As7341(*r),
            Route::Status(r) => RouteView::Status(*r),
        }
    }
}

/// The payload as seen by the routing: its fields, or why there are none.
pub open spec fn payload_view(payload: &Result<Vec<PayloadField>, PayloadError>) -> Result<Seq<PayloadField>, PayloadError> {
    match payload {
        Ok(v) => Ok(v@),
        Err(e) => Err(*e),
    }
}

/// The value stored under `key`.
pub fn lookup_field(fields: &Vec<PayloadField>, key: &str) -> (r: Option<JsonScalar>)
    ensures
        r == lookup(fields@, key@),
{
    let mut i: usize = 0;
    assert(fields@.subrange(0, fields@.len() as int) =~= fields@);
    while i < fields.len()
        invariant
            i <= fields.len(),
            lookup(fields@, key@) == lookup(fields@.subrange(i as int, fields@.len() as int), key@),
        decreases fields.len() - i,
    {
        let ghost rest = fields@.subrange(i as int, fields@.len() as int);
        assert(rest.drop_first() =~= fields@.subrange(i + 1, fields@.len() as int));
        assert(rest[0] == fields@[i as int]);
        if str_eq(fields[i].key.as_str(), key) {
            return Some(fields[i].value);
        }
        i = i + 1;
    }
    None
}

/// The value under `key` read as an integer.
pub fn get_int(fields: &Vec<PayloadField>, key: &str) -> (r: Option<i64>)
    ensures
        r == as_int(lookup(fields@, key@)),
{
    match lookup_field(fields, key) {
        Some(JsonScalar::Number { whole }) => Some(whole),
        Some(JsonScalar::Bool(b)) => Some(if b { 1 } else { 0 }),
        _ => None,
    }
}

fn int_or_zero_exec(fields: &Vec<PayloadField>, key: &str) -> (r: i64)
    ensures
        r == int_or_zero(fields@, key@),
{
    match get_int(fields, key) {
        Some(v) => v,
        None => 0,
    }
}

fn channel_exec(fields: &Vec<PayloadField>, key: &str) -> (r: u16)
    ensures
        r == channel(fields@, key@),
{
    let v = int_or_zero_exec(fields, key);
    if v < 0 {
        0
    } else if v > 65535 {
        65535
    } else {
        v as u16
    }
}

/// The status fields of a status payload.
pub fn status_reading(fields: &Vec<PayloadField>) -> (r: StatusReading)
    ensures
        r == status_of(fields@),
{
    let rssi = int_or_zero_exec(fields, "rssi");
    let uptime = int_or_zero_exec(fields, "uptime_s");
    let online = match get_int(fields, "online") {
        Some(v) => v != 0,
        None => false,
    };
    StatusReading {
        rssi: rssi as i16,
        uptime_s: (if uptime < 0 { 0 } else { uptime }) as u32,
        online,
    }
}

/// The fields of an AS7341 payload.
pub fn as7341_reading(fields: &Vec<PayloadField>) -> (r: As7341Reading)
    ensures
        r == as7341_of(fields@),
{
    let g = int_or_zero_exec(fields, "gain");
    As7341Reading {
        gain: if g < 0 { 0 } else if g > 255 { 255 } else { g as u8 },
        atime: channel_exec(fields, "atime"),
        astep: channel_exec(fields, "astep"),
        f1_415: channel_exec(fields, "f1_415"),
        f2_445: channel_exec(fields, "f2_445"),
        f3_480: channel_exec(fields, "f3_480"),
        f4_515: channel_exec(fields, "f4_515"),
        f5_555: channel_exec(fields, "f5_555"),
        f6_590: channel_exec(fields, "f6_590"),
        f7_630: channel_exec(fields, "f7_630"),
        f8_680: channel_exec(fields, "f8_680"),
        clear: channel_exec(fields, "clear"),
        nir: channel_exec(fields, "nir"),
    }
}

/// The positions of the numeric and boolean values of a payload.
pub fn metric_fields(fields: &Vec<PayloadField>) -> (r: Vec<usize>)
    ensures
        r@ == metric_positions(fields@),
{
    let mut out: Vec<usize> = Vec::new();
    let mut i: usize = 0;
    while i < fields.len()
        invariant
            i <= fields.len(),
            out@ == metric_positions(fields@.subrange(0, i as int)),
        decreases fields.len() - i,
    {
        let ghost pre = fields@.subrange(0, i as int);
        let ghost post = fields@.subrange(0, i + 1);
        assert(post.drop_last() =~= pre);
        let v = fields[i].value;
        let is_num = match v {
            JsonScalar::Number { .. } => true,
            JsonScalar::Bool(_) => true,
            JsonScalar::Other => false,
        };
        if is_num {
            out.push(i);
        }
        i = i + 1;
    }
    assert(fields@.subrange(0, fields@.len() as int) =~= fields@);
    out
}

/// Routes one message: the topic decides between status and data, the
/// payload between AS7341 and plain sensor rows.
pub fn route_message(topic: &str, payload: &Result<Vec<PayloadField>, PayloadError>) -> (r: Result<Routed, IngestError>)
    ensures
        match (r, route_view(topic@, payload_view(payload))) {
            (Ok(m), Ok((room, device, route))) => m.room@ == room && m.device_id@ == device
                && m.route.view_of() == route,
            (Err(e), Err(f)) => e == f,
            _ => false,
        },
{
    let t = match parse_topic(topic) {
        Some(t) => t,
        None => return Err(IngestError::UnrecognizedTopic),
    };
    let fields = match payload {
        Ok(f) => f,
        Err(PayloadError::InvalidJson) => return Err(IngestError::InvalidJson),
        Err(PayloadError::NotAnObject) => return Err(IngestError::NotAnObject),
    };
    let route = if t.is_status {
        Route::Status(status_reading(fields))
    } else if lookup_field(fields, "f1_415").is_some() {
        Route::As7341(as7341_reading(fields))
    } else {
        let m = metric_fields(fields);
        if m.len() == 0 {
            return Err(IngestError::NoNumericMetrics);
        }
        Route::Sensor { metric_fields: m }
    };
    Ok(Routed { room: t.room, device_id: t.device_id, route })
}

/// The positions of the metric values are exactly the positions, in
/// increasing order, whose value is a number or a boolean.
pub proof fn lemma_metric_positions_exact(fields: Seq<PayloadField>)
    requires
        fields.len() <= usize::MAX,
    ensures
        forall|k: int|
            0 <= k < metric_positions(fields).len() ==> {
                let p = #[trigger] metric_positions(fields)[k] as int;
                0 <= p < fields.len() && is_metric(fields[p].value)
            },
        forall|k: int, l: int|
            0 <= k < l < metric_positions(fields).len() ==> #[trigger] metric_positions(fields)[k]
                < #[trigger] metric_positions(fields)[l],
        forall|i: int|
            0 <= i < fields.len() && is_metric(#[trigger] fields[i].value) ==> metric_positions(
                fields,
            ).contains(i as usize),
    decreases fields.len(),
{
    if fields.len() > 0 {
        let prev = fields.drop_last();
        lemma_metric_positions_exact(prev);
        let mp = metric_positions(prev);
        let m = metric_positions(fields);
        assert forall|k: int| 0 <= k < m.len() implies {
            let p = #[trigger] m[k] as int;
            0 <= p < fields.len() && is_metric(fields[p].value)
        } by {
            if k < mp.len() {
                assert(m[k] == mp[k]);
                assert(fields[mp[k] as int] == prev[mp[k] as int]);
            }
        }
        assert forall|k: int, l: int| 0 <= k < l < m.len() implies #[trigger] m[k] < #[trigger] m[l] by {
            if l < mp.len() {
                assert(m[k] == mp[k] && m[l] == mp[l]);
            } else {
                assert(m[k] == mp[k]);
                assert(mp[k] < prev.len());
            }
        }
        assert forall|i: int|
            0 <= i < fields.len() && is_metric(#[trigger] fields[i].value) implies metric_positions(
            fields,
        ).contains(i as usize) by {
            if i < fields.len() - 1 {
                assert(prev[i] == fields[i]);
                let k = choose|k: int| 0 <= k < mp.len() && mp[k] == i as usize;
                assert(metric_positions(fields)[k] == i as usize);
            } else {
                assert(metric_positions(fields).last() == i as usize);
            }
        }
    }
}

/// A payload holds metric readings exactly when one of its values is a
/// number or a boolean.
pub proof fn lemma_metric_positions_nonempty(fields: Seq<PayloadField>)
    requires
        fields.len() <= usize::MAX,
    ensures
        metric_positions(fields).len() > 0 <==> exists|i: int|
            0 <= i < fields.len() && is_metric(#[trigger] fields[i].value),
{
    lemma_metric_positions_exact(fields);
    if metric_positions(fields).len() > 0 {
        let p = metric_positions(fields)[0] as int;
        assert(0 <= p < fields.len() && is_metric(fields[p].value));
    }
}

/// A message is routed exactly when its topic is a sensor topic, its payload
/// is a JSON object, and the topic is a status topic, or the object has an
/// `f1_415` key, or one of its values is a number or a boolean. A status
/// topic always gives a status reading, an `f1_415` key on a data topic an
/// AS7341 reading, and any other routed message a sensor reading.
pub proof fn lemma_route_ok(topic: Seq<char>, payload: Result<Seq<PayloadField>, PayloadError>)
    requires
        payload matches Ok(fields) ==> fields.len() <= usize::MAX,
    ensures
        route_view(topic, payload) is Ok <==> {
            &&& topic_view(topic) is Some
            &&& payload is Ok
            &&& (topic_view(topic).unwrap().2 || lookup(payload.unwrap(), "f1_415"@) is Some
                || exists|i: int|
                0 <= i < payload.unwrap().len() && is_metric(#[trigger] payload.unwrap()[i].value))
        },
        route_view(topic, payload) matches Ok((_, _, r)) ==> {
            &&& (topic_view(topic).unwrap().2 <==> r is Status)
            &&& (!topic_view(topic).unwrap().2 && lookup(payload.unwrap(), "f1_415"@) is Some
                <==> r is As7341)
        },
{
    if payload is Ok {
        lemma_metric_positions_nonempty(payload.unwrap());
    }
}

/// `value` is what the first entry under `key` reads as, held within
/// `0..=max`: a number saturated into the range, a boolean as 0 or 1, and 0
/// for a missing key or any other value.
pub open spec fn reads_key_within(fields: Seq<PayloadField>, key: Seq<char>, value: int, max: int) -> bool {
    match lookup(fields, key) {
        Some(JsonScalar::Number { whole }) => value == if whole < 0 {
            0
        } else if whole > max {
            max
        } else {
            whole as int
        },
        Some(JsonScalar::Bool(b)) => value == if b {
            1int
        } else {
            0int
        },
        _ => value == 0,
    }
}

/// A data-topic payload with an `f1_415` key is an AS7341 reading from the
/// same room and device, and each of its fields is read from the payload
/// key of the same name: `gain` within `0..=255`, every other field within
/// `0..=65535`.
pub proof fn lemma_as7341_fields_from_own_keys(topic: Seq<char>, fields: Seq<PayloadField>)
    requires
        topic_view(topic) matches Some((_, _, is_status)) && !is_status,
        lookup(fields, "f1_415"@) is Some,
    ensures
        route_view(topic, Ok(fields)) matches Ok((room, device, RouteView::As7341(r))) && {
            &&& topic_view(topic) == Some((room, device, false))
            &&& reads_key_within(fields, "gain"@, r.gain as int, 255)
            &&& reads_key_within(fields, "atime"@, r.atime as int, 65535)
            &&& reads_key_within(fields, "astep"@, r.astep as int, 65535)
            &&& reads_key_within(fields, "f1_415"@, r.f1_415 as int, 65535)
            &&& reads_key_within(fields, "f2_445"@, r.f2_445 as int, 65535)
            &&& reads_key_within(fields, "f3_480"@, r.f3_480 as int, 65535)
            &&& reads_key_within(fields, "f4_515"@, r.f4_515 as int, 65535)
            &&& reads_key_within(fields, "f5_555"@, r.f5_555 as int, 65535)
            &&& reads_key_within(fields, "f6_590"@, r.f6_590 as int, 65535)
            &&& reads_key_within(fields, "f7_630"@, r.f7_630 as int, 65535)
            &&& reads_key_within(fields, "f8_680"@, r.f8_680 as int, 65535)
            &&& reads_key_within(fields, "clear"@, r.clear as int, 65535)
            &&& reads_key_within(fields, "nir"@, r.nir as int, 65535)
        },
{
}

/// The integer a payload value stands for: a number's integer reading, a
/// boolean as 1 or 0; `None` for a missing key or any other value.
pub open spec fn key_integer(fields: Seq<PayloadField>, key: Seq<char>) -> Option<int> {
    match lookup(fields, key) {
        Some(JsonScalar::Number { whole }) => Some(whole as int),
        Some(JsonScalar::Bool(b)) => Some(if b { 1int } else { 0int }),
        _ => None,
    }
}

/// A status-topic payload is a status reading of the same room and device:
/// `rssi` and `uptime_s` are the integers under those keys (0 when missing
/// or not numeric; a negative uptime counts as 0) whenever they fit their
/// fields, and the device is online exactly when `online` holds a non-zero
/// number or `true`.
pub proof fn lemma_status_fields_from_own_keys(topic: Seq<char>, fields: Seq<PayloadField>)
    requires
        topic_view(topic) matches Some((_, _, is_status)) && is_status,
    ensures
        route_view(topic, Ok(fields)) matches Ok((room, device, RouteView::Status(r))) && {
            let rssi = match key_integer(fields, "rssi"@) { Some(v) => v, None => 0 };
            let up = match key_integer(fields, "uptime_s"@) { Some(v) => if v < 0 { 0 } else { v }, None => 0 };
            &&& topic_view(topic) == Some((room, device, true))
            &&& (-32768 <= rssi <= 32767 ==> r.rssi == rssi)
            &&& (up <= 4294967295 ==> r.uptime_s == up)
            &&& (r.online <==> (key_integer(fields, "online"@) matches Some(v) && v != 0))
        },
{
}

} // verus!
