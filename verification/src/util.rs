//! Formatting helpers of the dashboard: JST timestamps, relative times,
//! uptimes, online status, epoch milliseconds and encoded URLs.

use vstd::prelude::*;
use crate::text::{chars_of, decimal, digit_char, push_char, push_decimal, push_str};
use crate::config::{digits_value, is_digit};
use crate::ingest::{lemma_split_nonempty, split_on, split_string};
use vstd::string::StringSliceAdditionalSpecFns;

verus! {

/// An instant: whole seconds since the Unix epoch plus a sub-second part.
#[derive(Debug, Clone, Copy, PartialEq, Eq, Structural)]
pub struct Timestamp {
    pub unix_secs: i64,
    /// Nanoseconds past `unix_secs`.
    pub nanos: u32,
}

impl Timestamp {
    /// Nanoseconds since the Unix epoch.
    pub open spec fn unix_nanos(self) -> int {
        self.unix_secs * 1_000_000_000 + self.nanos
    }

    /// Nanoseconds since the Unix epoch.
    pub fn nanos_since_epoch(self) -> (r: i128)
        ensures
            r == self.unix_nanos(),
    {
        let secs = self.unix_secs as i128;
        assert(-0x8000_0000_0000_0000 * 1_000_000_000 <= secs * 1_000_000_000
            <= 0x8000_0000_0000_0000 * 1_000_000_000) by (nonlinear_arith)
            requires
                -0x8000_0000_0000_0000 <= secs <= 0x8000_0000_0000_0000,
        ;
        secs * NANOS_PER_SEC + self.nanos as i128
    }

    /// The instant `unix_secs` seconds after the epoch.
    pub fn from_unix_secs(unix_secs: i64) -> (r: Timestamp)
        ensures
            r.unix_secs == unix_secs,
            r.nanos == 0,
    {
        Timestamp { unix_secs, nanos: 0 }
    }
}

/// Nanoseconds from `earlier` to `later` (negative when `earlier` is later).
pub open spec fn elapsed_nanos(later: Timestamp, earlier: Timestamp) -> int {
    later.unix_nanos() - earlier.unix_nanos()
}

pub const NANOS_PER_SEC: i128 = 1_000_000_000;

fn elapsed(later: Timestamp, earlier: Timestamp) -> (r: i128)
    ensures
        r == elapsed_nanos(later, earlier),
{
    let ds: i128 = later.unix_secs as i128 - earlier.unix_secs as i128;
    let dn: i128 = later.nanos as i128 - earlier.nanos as i128;
    assert(-0x1_0000_0000_0000_0000 <= ds <= 0x1_0000_0000_0000_0000);
    assert(-0x1_0000_0000_0000_0000 * 1_000_000_000 <= ds * 1_000_000_000
        <= 0x1_0000_0000_0000_0000 * 1_000_000_000) by (nonlinear_arith)
        requires
            -0x1_0000_0000_0000_0000 <= ds <= 0x1_0000_0000_0000_0000,
    ;
    assert(later.unix_nanos() - earlier.unix_nanos() == ds * 1_000_000_000 + dn) by (nonlinear_arith)
        requires
            ds == later.unix_secs - earlier.unix_secs,
            dn == later.nanos - earlier.nanos,
    ;
    ds * NANOS_PER_SEC + dn
}

/// Decimal rendering of `n`, zero-padded to at least two digits.
pub open spec fn two_digits(n: nat) -> Seq<char> {
    if n < 10 {
        seq!['0'] + decimal(n)
    } else {
        decimal(n)
    }
}

/// Month and day, in the proleptic Gregorian calendar, of the day that lies
/// `days` days after 1970-01-01 (days counted from March 1st of year 0, in
/// 400-year eras of 146097 days).
pub open spec fn civil_month_day(days: int) -> (int, int) {
    let z = days + 719468;
    let era = z / 146097;
    let doe = z - era * 146097;
    let yoe = (doe - doe / 1460 + doe / 36524 - doe / 146096) / 365;
    let doy = doe - (365 * yoe + yoe / 4 - yoe / 100);
    let mp = (5 * doy + 2) / 153;
    let day = doy - (153 * mp + 2) / 5 + 1;
    let month = if mp < 10 {
        mp + 3
    } else {
        mp - 9
    };
    (month, day)
}

/// Unix time of -9999-01-01 00:00:00 UTC, the earliest instant the `time`
/// crate represents in every configuration.
pub const EARLIEST_UNIX_SECS: i64 = -377_705_116_800;

/// Unix time of 9999-12-31 23:59:59 UTC, the latest instant the `time` crate
/// represents in every configuration.
pub const LATEST_UNIX_SECS: i64 = 253_402_300_799;

/// Japan Standard Time, UTC+09:00, as seconds east of UTC.
pub const JST: i32 = 32400;

/// The wall-clock fields `(month, day, hour, minute, second)`, at the UTC
/// offset of `offset_secs` seconds, of the instant `unix_secs` seconds after
/// the epoch, as the `time` crate computes them; `None` when the crate
/// rejects the offset, or that instant or its wall clock lies outside the
/// range the crate supports.
pub uninterp spec fn wall_clock_of(unix_secs: i64, offset_secs: i32) -> Option<(u8, u8, u8, u8, u8)>;

/// Converts through `time::UtcOffset::from_whole_seconds`,
/// `time::OffsetDateTime::from_unix_timestamp`, `checked_to_offset` and the
/// month, day, hour, minute and second getters. Claims: the result is a
/// function of the two arguments alone; it is `Some` when the offset lies
/// within ±23:59:59 and both the instant and its wall clock lie between
/// -9999-01-01 00:00:00 and 9999-12-31 23:59:59 (the crate's range without
/// its `large-dates` feature, which only widens it); the fields are those of
/// the timestamp shifted by the offset: hour, minute and second from the
/// Euclidean remainder of the seconds by a day, month and day from the day
/// number in the proleptic Gregorian calendar.
#[verifier::external_body]
fn wall_clock(unix_secs: i64, offset_secs: i32) -> (r: Option<(u8, u8, u8, u8, u8)>)
    ensures
        r == wall_clock_of(unix_secs, offset_secs),
        -86400 < offset_secs < 86400 && EARLIEST_UNIX_SECS <= unix_secs <= LATEST_UNIX_SECS
            && EARLIEST_UNIX_SECS <= unix_secs + offset_secs <= LATEST_UNIX_SECS ==> r is Some,
        r matches Some((mo, d, h, mi, s)) ==> {
            &&& (mo as int, d as int) == civil_month_day((unix_secs + offset_secs) / 86400)
            &&& h == ((unix_secs + offset_secs) % 86400) / 3600
            &&& mi == ((unix_secs + offset_secs) % 3600) / 60
            &&& s == (unix_secs + offset_secs) % 60
        },
{
    let offset = time::UtcOffset::from_whole_seconds(offset_secs).ok()?;
    let t = time::OffsetDateTime::from_unix_timestamp(unix_secs).ok()?.checked_to_offset(offset)?;
    Some((u8::from(t.month()), t.day(), t.hour(), t.minute(), t.second()))
}

/// `MM-DD HH:MM:SS` of wall-clock fields `(month, day, hour, minute,
/// second)`, or `-` when there are none.
pub open spec fn jst_fields_view(fields: Option<(u8, u8, u8, u8, u8)>) -> Seq<char> {
    match fields {
        Some((mo, d, h, mi, s)) => two_digits(mo as nat) + "-"@ + two_digits(d as nat) + " "@
            + two_digits(h as nat) + ":"@ + two_digits(mi as nat) + ":"@ + two_digits(s as nat),
        None => "-"@,
    }
}

/// `MM-DD HH:MM:SS` of the JST wall clock, or `-` when there is none.
pub open spec fn jst_text(unix_secs: i64) -> Seq<char> {
    jst_fields_view(wall_clock_of(unix_secs, JST))
}

fn push_two_digits(out: &mut String, n: u8)
    ensures
        final(out)@ == old(out)@ + two_digits(n as nat),
{
    if n < 10 {
        push_char(out, '0');
    }
    push_decimal(out, n as u128);
    assert(final(out)@ =~= old(out)@ + two_digits(n as nat));
}

/// Renders wall-clock fields `(month, day, hour, minute, second)` as
/// `MM-DD HH:MM:SS`, or `-` when there are none.
pub fn jst_fields_text(fields: Option<(u8, u8, u8, u8, u8)>) -> (r: String)
    ensures
        r@ == jst_fields_view(fields),
{
    let mut out = String::new();
    match fields {
        Some((mo, d, h, mi, s)) => {
            push_two_digits(&mut out, mo);
            push_str(&mut out, "-");
            push_two_digits(&mut out, d);
            push_str(&mut out, " ");
            push_two_digits(&mut out, h);
            push_str(&mut out, ":");
            push_two_digits(&mut out, mi);
            push_str(&mut out, ":");
            push_two_digits(&mut out, s);
        },
        None => {
            push_str(&mut out, "-");
        },
    }
    out
}

/// `MM-DD HH:MM:SS` of the instant `unix_secs` seconds after the epoch, in
/// JST (UTC+09:00) and the proleptic Gregorian calendar.
pub open spec fn jst_clock_text(unix_secs: int) -> Seq<char> {
    let local = unix_secs + JST;
    let (month, day) = civil_month_day(local / 86400);
    two_digits(month as nat) + "-"@ + two_digits(day as nat) + " "@ + two_digits(
        ((local % 86400) / 3600) as nat,
    ) + ":"@ + two_digits(((local % 3600) / 60) as nat) + ":"@ + two_digits((local % 60) as nat)
}

/// Formats a timestamp as JST `MM-DD HH:MM:SS`.
pub fn fmt_jst(ts: Timestamp) -> (r: String)
    ensures
        r@ == jst_text(ts.unix_secs),
        EARLIEST_UNIX_SECS <= ts.unix_secs <= LATEST_UNIX_SECS - JST ==> r@ == jst_clock_text(
            ts.unix_secs as int,
        ),
{
    let fields = wall_clock(ts.unix_secs, JST);
    jst_fields_text(fields)
}

/// How long ago an instant was, given the nanoseconds elapsed since.
pub open spec fn ago_text(elapsed: int) -> Seq<char> {
    if elapsed < 5_000_000_000 {
        "たった今"@
    } else {
        let s = elapsed / 1_000_000_000;
        if s < 60 {
            decimal(s as nat) + "秒前"@
        } else if s < 3600 {
            decimal((s / 60) as nat) + "分前"@
        } else if s < 86_400 {
            decimal((s / 3600) as nat) + "時間前"@
        } else {
            decimal((s / 86_400) as nat) + "日前"@
        }
    }
}

/// Humanizes how long ago `ts` was, relative to `now`.
pub fn ago(now: Timestamp, ts: Timestamp) -> (r: String)
    ensures
        r@ == ago_text(elapsed_nanos(now, ts)),
{
    let e = elapsed(now, ts);
    let mut out = String::new();
    if e < 5 * NANOS_PER_SEC {
        push_str(&mut out, "たった今");
        return out;
    }
    let s = (e / NANOS_PER_SEC) as u128;
    if s < 60 {
        push_decimal(&mut out, s);
        push_str(&mut out, "秒前");
    } else if s < 3600 {
        push_decimal(&mut out, s / 60);
        push_str(&mut out, "分前");
    } else if s < 86_400 {
        push_decimal(&mut out, s / 3600);
        push_str(&mut out, "時間前");
    } else {
        push_decimal(&mut out, s / 86_400);
        push_str(&mut out, "日前");
    }
    out
}

/// An uptime in seconds, in its two most significant units: `1日 2時間`,
/// `3時間 4分`, `5分` or `42秒`.
pub open spec fn uptime_text(s: nat) -> Seq<char> {
    let days = s / 86_400;
    let hours = (s % 86_400) / 3600;
    let minutes = (s % 3600) / 60;
    let seconds = s % 60;
    if days > 0 {
        decimal(days) + "日 "@ + decimal(hours) + "時間"@
    } else if hours > 0 {
        decimal(hours) + "時間 "@ + decimal(minutes) + "分"@
    } else if minutes > 0 {
        decimal(minutes) + "分"@
    } else {
        decimal(seconds) + "秒"@
    }
}

/// Humanizes an uptime in seconds, e.g. `1日 2時間` / `3時間 4分` / `42秒`.
pub fn humanize_uptime(uptime_s: u32) -> (r: String)
    ensures
        r@ == uptime_text(uptime_s as nat),
{
    let s = uptime_s as u128;
    let days = s / 86_400;
    let hours = (s % 86_400) / 3600;
    let minutes = (s % 3600) / 60;
    let seconds = s % 60;
    let mut out = String::new();
    if days > 0 {
        push_decimal(&mut out, days);
        push_str(&mut out, "日 ");
        push_decimal(&mut out, hours);
        push_str(&mut out, "時間");
    } else if hours > 0 {
        push_decimal(&mut out, hours);
        push_str(&mut out, "時間 ");
        push_decimal(&mut out, minutes);
        push_str(&mut out, "分");
    } else if minutes > 0 {
        push_decimal(&mut out, minutes);
        push_str(&mut out, "分");
    } else {
        push_decimal(&mut out, seconds);
        push_str(&mut out, "秒");
    }
    out
}

/// Fifteen minutes, in nanoseconds.
pub open spec fn online_window_nanos() -> int {
    900_000_000_000int
}

/// A device is shown online only when its `online` flag is set AND it has been
/// seen within the last 15 minutes.
pub fn is_online(flag: bool, last_seen: Timestamp, now: Timestamp) -> (r: bool)
    ensures
        r == (flag && elapsed_nanos(now, last_seen) <= online_window_nanos()),
{
    flag && elapsed(now, last_seen) <= 15 * 60 * NANOS_PER_SEC
}

/// `n / d` rounded toward zero, as Rust's integer division does.
pub open spec fn div_toward_zero(n: int, d: int) -> int {
    if n >= 0 { n / d } else { -((-n) / d) }
}

/// Milliseconds since the Unix epoch, for ECharts time-axis data points
/// (rounded toward zero, then truncated to 64 bits).
pub fn epoch_ms(ts: Timestamp) -> (r: i64)
    ensures
        r == div_toward_zero(ts.unix_nanos(), 1_000_000) as i64,
{
    let secs = ts.unix_secs as i128;
    assert(-0x8000_0000_0000_0000 * 1_000_000_000 <= secs * 1_000_000_000
        <= 0x8000_0000_0000_0000 * 1_000_000_000) by (nonlinear_arith)
        requires
            -0x8000_0000_0000_0000 <= secs <= 0x8000_0000_0000_0000,
    ;
    let n: i128 = secs * NANOS_PER_SEC + ts.nanos as i128;
    let q: i128 = if n >= 0 { n / 1_000_000 } else { -((-n) / 1_000_000) };
    q as i64
}

/// Bytes that `application/x-www-form-urlencoded` leaves as they are.
pub open spec fn form_unreserved(b: u8) -> bool {
    b == 42 || b == 45 || b == 46 || b == 95 || (48 <= b <= 57) || (65 <= b <= 90) || (97 <= b
        <= 122)
}

/// Upper-case hexadecimal digit of `d` (`d < 16`).
pub open spec fn hex_upper(d: nat) -> char {
    if d < 10 { (d + 48) as char } else { (d + 55) as char }
}

/// The form encoding of one byte: unreserved bytes stay, a space becomes
/// `+`, anything else becomes `%XX`.
pub open spec fn form_byte(b: u8) -> Seq<char> {
    if form_unreserved(b) {
        seq![b as char]
    } else if b == 32 {
        seq!['+']
    } else {
        seq!['%', hex_upper(b as nat / 16), hex_upper(b as nat % 16)]
    }
}

/// The form encoding of a byte string.
pub open spec fn form_encoded(bytes: Seq<u8>) -> Seq<char>
    decreases bytes.len(),
{
    if bytes.len() == 0 {
        Seq::<char>::empty()
    } else {
        form_encoded(bytes.drop_last()) + form_byte(bytes.last())
    }
}

/// Encodes one query-string component with
/// `form_urlencoded::byte_serialize` over the UTF-8 bytes of `s`. Claims
/// that the result is the concatenation of the byte encodings of
/// [`form_byte`], as `byte_serialize` writes unreserved runs unchanged,
/// a space as `+` and every other byte with `percent_encode_byte`.
#[verifier::external_body]
fn form_component(s: &str) -> (r: String)
    ensures
        r@ == form_encoded(s.spec_bytes()),
{
    form_urlencoded::byte_serialize(s.as_bytes()).collect()
}

/// Characters that may stand inside a form-encoded component.
pub open spec fn query_safe(c: char) -> bool {
    c == '*' || c == '-' || c == '.' || c == '_' || c == '%' || c == '+' || ('0' <= c <= '9')
        || ('A' <= c <= 'Z') || ('a' <= c <= 'z')
}

/// A form-encoded component only holds unreserved characters, `%` and `+`,
/// so it can never end a parameter (`&`), start a value (`=`) or the
/// fragment (`#`).
pub proof fn lemma_form_encoded_query_safe(bytes: Seq<u8>)
    ensures
        forall|i: int| 0 <= i < form_encoded(bytes).len() ==> query_safe(#[trigger] form_encoded(bytes)[i]),
    decreases bytes.len(),
{
    if bytes.len() > 0 {
        lemma_form_encoded_query_safe(bytes.drop_last());
        let prev = form_encoded(bytes.drop_last());
        let last = form_byte(bytes.last());
        let b = bytes.last();
        assert(forall|i: int| 0 <= i < last.len() ==> query_safe(#[trigger] last[i])) by {
            if !form_unreserved(b) && b != 32 {
                let hi = b as nat / 16;
                let lo = b as nat % 16;
                assert(hi < 16 && lo < 16);
                assert(query_safe(hex_upper(hi)));
                assert(query_safe(hex_upper(lo)));
            }
        }
        assert forall|i: int| 0 <= i < form_encoded(bytes).len() implies query_safe(
            #[trigger] form_encoded(bytes)[i],
        ) by {
            if i < prev.len() {
                assert(form_encoded(bytes)[i] == prev[i]);
            } else {
                assert(form_encoded(bytes)[i] == last[i - prev.len()]);
            }
        }
    }
}

/// The chart fragment URL of a selection.
pub open spec fn chart_fragment_url_view(metric: Seq<u8>, device: Seq<u8>, range_code: Seq<u8>) -> Seq<char> {
    "/fragments/chart?metric="@ + form_encoded(metric) + "&device="@ + form_encoded(device)
        + "&range="@ + form_encoded(range_code)
}

/// Builds the chart fragment URL with properly encoded query parameters.
pub fn chart_fragment_url(metric: &str, device: &str, range_code: &str) -> (r: String)
    ensures
        r@ == chart_fragment_url_view(metric.spec_bytes(), device.spec_bytes(), range_code.spec_bytes()),
{
    let mut url = String::new();
    push_str(&mut url, "/fragments/chart?metric=");
    push_str(&mut url, form_component(metric).as_str());
    push_str(&mut url, "&device=");
    push_str(&mut url, form_component(device).as_str());
    push_str(&mut url, "&range=");
    push_str(&mut url, form_component(range_code).as_str());
    url
}

/// The chart page URL that a card of the overview grid links to.
pub open spec fn chart_link_view(metric: Seq<u8>, device: Seq<u8>) -> Seq<char> {
    "/chart?metric="@ + form_encoded(metric) + "&device="@ + form_encoded(device) + "&range="@
        + form_encoded("1h".spec_bytes())
}

/// The chart page of one (metric, device) pair over the last hour.
pub fn chart_link(metric: &str, device: &str) -> (r: String)
    ensures
        r@ == chart_link_view(metric.spec_bytes(), device.spec_bytes()),
{
    let mut url = String::new();
    push_str(&mut url, "/chart?metric=");
    push_str(&mut url, form_component(metric).as_str());
    push_str(&mut url, "&device=");
    push_str(&mut url, form_component(device).as_str());
    push_str(&mut url, "&range=");
    push_str(&mut url, form_component(crate::range::Range::Hour1.code()).as_str());
    url
}

/// Every character of `s` is an ASCII digit.
pub open spec fn all_digits(s: Seq<char>) -> bool {
    forall|i: int| 0 <= i < s.len() ==> is_digit(#[trigger] s[i])
}

/// `n` zeros.
pub open spec fn zeros(n: nat) -> Seq<char> {
    Seq::new(n, |_i: int| '0')
}

/// A digit string plus one: trailing nines turn into zeros and the digit
/// before them goes up by one; a string of nines gains a leading `1`.
pub open spec fn increment_digits(d: Seq<char>) -> Seq<char>
    decreases d.len(),
{
    if d.len() == 0 {
        seq!['1']
    } else if d.last() == '9' {
        increment_digits(d.drop_last()).push('0')
    } else {
        d.drop_last().push(digit_char((d.last() as nat - 47) as nat))
    }
}

/// Incrementing a digit string adds one to its value, keeps it a digit
/// string, and lengthens it only when it held nothing but nines.
pub proof fn lemma_increment_digits(d: Seq<char>)
    requires
        all_digits(d),
    ensures
        all_digits(increment_digits(d)),
        digits_value(increment_digits(d)) == digits_value(d) + 1,
        increment_digits(d).len() == d.len() || (increment_digits(d).len() == d.len() + 1
            && forall|i: int| 0 <= i < d.len() ==> d[i] == '9'),
    decreases d.len(),
{
    let r = increment_digits(d);
    if d.len() == 0 {
        assert(r.drop_last() =~= Seq::<char>::empty());
        assert(digits_value(r) == digits_value(r.drop_last()) * 10 + (r.last() as nat - 48) as nat);
        assert(digits_value(r) == 1);
    } else {
        let p = d.drop_last();
        assert(all_digits(p)) by {
            assert forall|i: int| 0 <= i < p.len() implies is_digit(#[trigger] p[i]) by {
                assert(p[i] == d[i]);
            }
        }
        lemma_increment_digits(p);
        assert(r.drop_last() =~= if d.last() == '9' { increment_digits(p) } else { p });
        assert(d.drop_last() =~= p);
        assert(digits_value(d) == digits_value(p) * 10 + (d.last() as nat - 48) as nat);
        if d.last() != '9' {
            assert(is_digit(d[d.len() - 1]));
            let x = (d.last() as nat - 47) as nat;
            assert(x < 10);
            assert(r.last() == digit_char(x));
            assert(digit_char(x) as nat == x + 48);
            assert(digits_value(r) == digits_value(p) * 10 + x);
        } else {
            assert(r.last() == '0');
            assert(digits_value(r) == digits_value(increment_digits(p)) * 10);
        }
        if r.len() == d.len() + 1 {
            assert forall|i: int| 0 <= i < d.len() implies d[i] == '9' by {
                if i < d.len() - 1 {
                    assert(d[i] == p[i]);
                }
            }
        }
    }
}

fn increment_in_place(d: &mut Vec<char>)
    requires
        all_digits(old(d)@),
    ensures
        final(d)@ == increment_digits(old(d)@),
{
    let ghost orig = d@;
    let n = d.len();
    let mut j: usize = n;
    assert(orig.take(n as int) =~= orig);
    assert(orig.take(n as int) + zeros(0) =~= orig);
    while j > 0 && d[j - 1] == '9'
        invariant
            n == orig.len(),
            all_digits(orig),
            j <= n,
            d@ == orig.take(j as int) + zeros((n - j) as nat),
            increment_digits(orig) == increment_digits(orig.take(j as int)) + zeros((n - j) as nat),
        decreases j,
    {
        let ghost t = orig.take(j as int);
        assert(t.last() == '9') by {
            assert(d@[j - 1] == t[j - 1]);
        }
        assert(t.drop_last() =~= orig.take(j - 1));
        assert(increment_digits(t) == increment_digits(orig.take(j - 1)).push('0'));
        assert(increment_digits(orig.take(j - 1)).push('0') + zeros((n - j) as nat)
            =~= increment_digits(orig.take(j - 1)) + zeros((n - j + 1) as nat));
        d.set(j - 1, '0');
        j = j - 1;
        assert(d@ =~= orig.take(j as int) + zeros((n - j) as nat));
    }
    if j == 0 {
        assert(orig.take(0) =~= Seq::<char>::empty());
        d.insert(0, '1');
        assert(d@ =~= seq!['1'] + zeros(n as nat));
    } else {
        let c = d[j - 1];
        let ghost t = orig.take(j as int);
        assert(c == t.last());
        assert(is_digit(orig[j - 1]));
        assert(t.drop_last() =~= orig.take(j - 1));
        let next: char = ((c as u32 + 1) as u8) as char;
        assert(next == digit_char((c as nat - 47) as nat));
        d.set(j - 1, next);
        assert(d@ =~= t.drop_last().push(next) + zeros((n - j) as nat));
    }
}

/// The sign, integer digits and fraction digits of a plain decimal such as
/// `-25.345` or `1234` (one or more digits, then optionally `.` and one or
/// more digits, after an optional `-`); `None` for any other text.
pub open spec fn plain_decimal(s: Seq<char>) -> Option<(bool, Seq<char>, Seq<char>)> {
    let parts = split_on(s, '.');
    let first = parts[0];
    let neg = first.len() > 0 && first[0] == '-';
    let whole = if neg { first.skip(1) } else { first };
    let frac = if parts.len() == 2 { parts[1] } else { Seq::<char>::empty() };
    if (parts.len() == 1 || (parts.len() == 2 && parts[1].len() > 0)) && whole.len() > 0 && all_digits(whole)
        && all_digits(frac) {
        Some((neg, whole, frac))
    } else {
        None
    }
}

/// The first `places` fraction digits, padded with zeros.
pub open spec fn frac_digits(frac: Seq<char>, places: nat) -> Seq<char> {
    if frac.len() >= places {
        frac.take(places as int)
    } else {
        frac + zeros((places - frac.len()) as nat)
    }
}

/// A plain decimal rounded to `places` fraction digits, half away from
/// zero, as its digits are written: the kept digits go up by one exactly when
/// the first dropped digit is 5 or more. `None` when the text is not a plain
/// decimal.
pub open spec fn rounded_view(s: Seq<char>, places: nat) -> Option<Seq<char>> {
    match plain_decimal(s) {
        None => None,
        Some((neg, whole, frac)) => {
            let kept = whole + frac_digits(frac, places);
            let r = if frac.len() > places && frac[places as int] >= '5' {
                increment_digits(kept)
            } else {
                kept
            };
            let cut = r.len() - places;
            Some((if neg { seq!['-'] } else { Seq::<char>::empty() }) + r.take(cut) + (if places > 0 {
                seq!['.'] + r.skip(cut)
            } else {
                Seq::<char>::empty()
            }))
        },
    }
}

fn all_digits_in(v: &Vec<char>, from: usize) -> (r: bool)
    requires
        from <= v.len(),
    ensures
        r == all_digits(v@.skip(from as int)),
{
    let mut i: usize = from;
    while i < v.len()
        invariant
            from <= i <= v.len(),
            forall|k: int| from <= k < i ==> is_digit(#[trigger] v@[k]),
        decreases v.len() - i,
    {
        if !('0' <= v[i] && v[i] <= '9') {
            assert(!is_digit(v@.skip(from as int)[i - from]));
            return false;
        }
        i = i + 1;
    }
    assert forall|k: int| 0 <= k < v@.skip(from as int).len() implies is_digit(
        #[trigger] v@.skip(from as int)[k],
    ) by {
        assert(v@.skip(from as int)[k] == v@[from + k]);
    }
    true
}

fn push_range(out: &mut String, v: &Vec<char>, from: usize, to: usize)
    requires
        from <= to <= v.len(),
    ensures
        final(out)@ == old(out)@ + v@.subrange(from as int, to as int),
{
    let mut i: usize = from;
    while i < to
        invariant
            from <= i <= to <= v.len(),
            out@ == old(out)@ + v@.subrange(from as int, i as int),
        decreases to - i,
    {
        push_char(out, v[i]);
        i = i + 1;
        assert(out@ =~= old(out)@ + v@.subrange(from as int, i as int));
    }
}

/// The parts of a plain decimal, as `plain_decimal` reads them.
fn parse_plain_decimal(text: &str) -> (r: Option<(bool, Vec<char>, Vec<char>)>)
    ensures
        match r {
            Some((neg, whole, frac)) => plain_decimal(text@) == Some((neg, whole@, frac@)),
            None => plain_decimal(text@) is None,
        },
{
    proof {
        lemma_split_nonempty(text@, '.');
    }
    let parts = split_string(text, '.');
    let ghost parts_view = split_on(text@, '.');
    assert(parts_view.len() == parts.len());
    assert(parts@[0]@ == parts_view[0]);
    if parts.len() > 2 {
        return None;
    }
    let first = chars_of(parts[0].as_str());
    let neg = first.len() > 0 && first[0] == '-';
    let start: usize = if neg { 1 } else { 0 };
    assert(first@.skip(0) =~= first@);
    if first.len() == start || !all_digits_in(&first, start) {
        return None;
    }
    let frac: Vec<char> = if parts.len() == 2 {
        assert(parts@[1]@ == parts_view[1]);
        chars_of(parts[1].as_str())
    } else {
        Vec::new()
    };
    assert(frac@.skip(0) =~= frac@);
    if (parts.len() == 2 && frac.len() == 0) || !all_digits_in(&frac, 0) {
        return None;
    }
    assert(parts.len() != 2 ==> frac@ == Seq::<char>::empty());
    let mut whole: Vec<char> = Vec::new();
    let mut i: usize = start;
    while i < first.len()
        invariant
            start <= i <= first.len(),
            whole@ == first@.subrange(start as int, i as int),
        decreases first.len() - i,
    {
        whole.push(first[i]);
        i = i + 1;
    }
    assert(whole@ =~= first@.skip(start as int));
    Some((neg, whole, frac))
}

/// Rounds a plain decimal to `places` fraction digits, half away from zero
/// as the digits are written (so `25.345` gives `25.35` and `1234.5` with no
/// fraction digits gives `1235`); `None` when the text is not a plain
/// decimal.
pub fn round_decimal(text: &str, places: usize) -> (r: Option<String>)
    ensures
        match r {
            Some(t) => rounded_view(text@, places as nat) == Some(t@),
            None => rounded_view(text@, places as nat) is None,
        },
{
    let (neg, whole, frac) = match parse_plain_decimal(text) {
        Some(p) => p,
        None => return None,
    };
    let mut kept = whole;
    let mut k: usize = 0;
    assert(frac_digits(frac@, 0) =~= Seq::<char>::empty());
    assert(kept@ =~= whole@ + frac_digits(frac@, 0));
    while k < places
        invariant
            k <= places,
            kept@ == whole@ + frac_digits(frac@, k as nat),
        decreases places - k,
    {
        if k < frac.len() {
            kept.push(frac[k]);
        } else {
            kept.push('0');
        }
        k = k + 1;
        assert(kept@ =~= whole@ + frac_digits(frac@, k as nat));
    }
    assert(frac_digits(frac@, places as nat).len() == places);
    let up = frac.len() > places && frac[places] >= '5';
    if up {
        assert(all_digits(kept@)) by {
            assert forall|x: int| 0 <= x < kept@.len() implies is_digit(#[trigger] kept@[x]) by {
                if x < whole@.len() {
                    assert(kept@[x] == whole@[x]);
                } else if x - whole@.len() < frac@.len() {
                    assert(kept@[x] == frac@[x - whole@.len()]);
                } else {
                    assert(kept@[x] == '0');
                }
            }
        }
        proof {
            lemma_increment_digits(kept@);
        }
        increment_in_place(&mut kept);
    }
    assert(kept@.len() >= places);
    let cut = kept.len() - places;
    let mut out = String::new();
    if neg {
        push_char(&mut out, '-');
    }
    push_range(&mut out, &kept, 0, cut);
    if places > 0 {
        push_char(&mut out, '.');
        push_range(&mut out, &kept, cut, kept.len());
    }
    assert(kept@.subrange(0, cut as int) =~= kept@.take(cut as int));
    assert(kept@.subrange(cut as int, kept@.len() as int) =~= kept@.skip(cut as int));
    assert(out@ =~= rounded_view(text@, places as nat).unwrap());
    Some(out)
}

/// The uptime text names its two most significant units, each the whole
/// number of that unit left once the larger units are taken out: for one day
/// or more, whole days and then whole hours (fewer than 24); from one hour,
/// whole hours and then whole minutes (fewer than 60); from one minute,
/// whole minutes; below that, the seconds.
pub proof fn lemma_uptime_units(s: nat)
    ensures
        s >= 86400 ==> exists|d: nat, h: nat|
            #![trigger decimal(d), decimal(h)]
            1 <= d && h < 24 && d * 86400 + h * 3600 <= s < d * 86400 + h * 3600 + 3600
                && uptime_text(s) == decimal(d) + "日 "@ + decimal(h) + "時間"@,
        3600 <= s < 86400 ==> exists|h: nat, m: nat|
            #![trigger decimal(h), decimal(m)]
            1 <= h < 24 && m < 60 && h * 3600 + m * 60 <= s < h * 3600 + m * 60 + 60 && uptime_text(s)
                == decimal(h) + "時間 "@ + decimal(m) + "分"@,
        60 <= s < 3600 ==> exists|m: nat|
            #![trigger decimal(m)]
            1 <= m < 60 && m * 60 <= s < m * 60 + 60 && uptime_text(s) == decimal(m) + "分"@,
        s < 60 ==> uptime_text(s) == decimal(s) + "秒"@,
{
    let d = s / 86400;
    let h = (s % 86400) / 3600;
    let m = (s % 3600) / 60;
    if s >= 86400 {
        assert(1 <= d && h < 24 && d * 86400 + h * 3600 <= s < d * 86400 + h * 3600 + 3600);
        assert(uptime_text(s) == decimal(d) + "日 "@ + decimal(h) + "時間"@);
    } else if s >= 3600 {
        assert(d == 0);
        assert(h == s / 3600);
        assert(1 <= h < 24 && m < 60 && h * 3600 + m * 60 <= s < h * 3600 + m * 60 + 60);
        assert(uptime_text(s) == decimal(h) + "時間 "@ + decimal(m) + "分"@);
    } else if s >= 60 {
        assert(d == 0 && h == 0);
        assert(m == s / 60);
        assert(1 <= m < 60 && m * 60 <= s < m * 60 + 60);
        assert(uptime_text(s) == decimal(m) + "分"@);
    } else {
        assert(d == 0 && h == 0 && m == 0 && s % 60 == s);
    }
}

} // verus!
