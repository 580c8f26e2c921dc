use ebishrimp::util::{
    ago, chart_fragment_url, chart_link, epoch_ms, fmt_jst, humanize_uptime, is_online, jst_fields_text, Timestamp,
    round_decimal, EARLIEST_UNIX_SECS, JST, LATEST_UNIX_SECS,
};

const NOON: i64 = 1_784_548_800; // 2026-07-20T12:00:00Z

fn at(secs: i64) -> Timestamp {
    Timestamp::from_unix_secs(secs)
}

#[test]
fn fmt_jst_converts_utc_to_jst() {
    // 2026-07-20T00:30:00Z = 09:30 JST
    let ts = at(1_784_507_400);
    assert_eq!(fmt_jst(ts), "07-20 09:30:00");
}

#[test]
fn fmt_jst_crosses_the_year() {
    // 2026-12-31T20:00:00Z = 2027-01-01 05:00 JST
    assert_eq!(fmt_jst(at(1_798_747_200)), "01-01 05:00:00");
    assert_eq!(fmt_jst(at(i64::MAX)), "-");
}

#[test]
fn jst_fields_text_pads_each_field() {
    assert_eq!(jst_fields_text(Some((7, 20, 9, 30, 0))), "07-20 09:30:00");
    assert_eq!(jst_fields_text(Some((12, 1, 23, 5, 59))), "12-01 23:05:59");
    assert_eq!(jst_fields_text(Some((1, 31, 0, 0, 9))), "01-31 00:00:09");
    assert_eq!(jst_fields_text(None), "-");
}

/// Month and day of a day number after 1970-01-01, written out for the test.
fn civil(days: i64) -> (i64, i64) {
    let z = days + 719_468;
    let era = z.div_euclid(146_097);
    let doe = z - era * 146_097;
    let yoe = (doe - doe / 1460 + doe / 36_524 - doe / 146_096) / 365;
    let doy = doe - (365 * yoe + yoe / 4 - yoe / 100);
    let mp = (5 * doy + 2) / 153;
    let day = doy - (153 * mp + 2) / 5 + 1;
    (if mp < 10 { mp + 3 } else { mp - 9 }, day)
}

#[test]
fn fmt_jst_matches_the_gregorian_calendar() {
    let last = LATEST_UNIX_SECS - JST as i64;
    let mut secs = EARLIEST_UNIX_SECS;
    while secs <= last {
        let local = secs + JST as i64;
        let (month, day) = civil(local.div_euclid(86_400));
        let within = local.rem_euclid(86_400);
        let expected = format!(
            "{:02}-{:02} {:02}:{:02}:{:02}",
            month,
            day,
            within / 3600,
            (within % 3600) / 60,
            within % 60
        );
        assert_eq!(fmt_jst(at(secs)), expected, "at {secs}");
        secs += 33_333_337;
    }
    assert_eq!(fmt_jst(at(EARLIEST_UNIX_SECS)), "01-01 09:00:00");
    assert_eq!(fmt_jst(at(last)), "12-31 23:59:59");
    assert_eq!(fmt_jst(at(-1)), "01-01 08:59:59");
    assert_eq!(fmt_jst(at(951_782_400 - JST as i64)), "02-29 00:00:00");
}

#[test]
fn ago_buckets() {
    let now = at(NOON);
    assert_eq!(ago(now, now), "たった今");
    assert_eq!(ago(now, at(NOON - 42)), "42秒前");
    assert_eq!(ago(now, at(NOON - 3 * 60)), "3分前");
    assert_eq!(ago(now, at(NOON - 2 * 3600)), "2時間前");
    assert_eq!(ago(now, at(NOON - 5 * 86_400)), "5日前");
}

#[test]
fn ago_sub_second_edges() {
    let now = Timestamp { unix_secs: NOON, nanos: 999_999_999 };
    assert_eq!(ago(now, at(NOON - 4)), "たった今");
    assert_eq!(ago(now, Timestamp { unix_secs: NOON - 5, nanos: 999_999_999 }), "5秒前");
    assert_eq!(ago(at(NOON), at(NOON + 100)), "たった今");
    assert_eq!(ago(at(i64::MAX), at(i64::MIN)), "213503982334601日前");
}

#[test]
fn humanize_uptime_buckets() {
    assert_eq!(humanize_uptime(42), "42秒");
    assert_eq!(humanize_uptime(5 * 60), "5分");
    assert_eq!(humanize_uptime(3 * 3600 + 4 * 60), "3時間 4分");
    assert_eq!(humanize_uptime(86_400 + 2 * 3600), "1日 2時間");
}

#[test]
fn humanize_uptime_edges() {
    assert_eq!(humanize_uptime(0), "0秒");
    assert_eq!(humanize_uptime(3600), "1時間 0分");
    assert_eq!(humanize_uptime(u32::MAX), "49710日 6時間");
}

#[test]
fn is_online_requires_flag_and_recency() {
    let now = at(NOON);
    let recent = at(NOON - 5 * 60);
    let stale = at(NOON - 16 * 60);
    assert!(is_online(true, recent, now));
    assert!(!is_online(false, recent, now));
    assert!(!is_online(true, stale, now));
    assert!(is_online(true, at(NOON - 15 * 60), now));
}

#[test]
fn epoch_ms_rounds_toward_zero() {
    assert_eq!(epoch_ms(at(NOON)), 1_784_548_800_000);
    assert_eq!(epoch_ms(Timestamp { unix_secs: 1, nanos: 999_999 }), 1000);
    assert_eq!(epoch_ms(Timestamp { unix_secs: -1, nanos: 500_000_000 }), -500);
    assert_eq!(epoch_ms(Timestamp { unix_secs: -1, nanos: 999_999 }), -999);
}

#[test]
fn chart_fragment_url_encodes_params() {
    let url = chart_fragment_url("temp&hum", "dev 01", "1h");
    assert_eq!(url, "/fragments/chart?metric=temp%26hum&device=dev+01&range=1h");
}

#[test]
fn chart_fragment_url_encodes_utf8_and_reserved() {
    let url = chart_fragment_url("温度", "a=b?c#d", "");
    assert_eq!(url, "/fragments/chart?metric=%E6%B8%A9%E5%BA%A6&device=a%3Db%3Fc%23d&range=");
}

#[test]
fn chart_link_encodes() {
    assert_eq!(chart_link("temp", "dev/01"), "/chart?metric=temp&device=dev%2F01&range=1h");
}

#[test]
fn data_points_are_epoch_ms_pairs() {
    assert_eq!(epoch_ms(at(1_753_000_000)), 1_753_000_000_000_i64);
    assert_eq!(epoch_ms(Timestamp { unix_secs: 1_753_000_000, nanos: 640_000_000 }), 1_753_000_000_640_i64);
}

#[test]
fn round_decimal_rounds_half_away_from_zero_as_written() {
    assert_eq!(round_decimal("25.345", 2).as_deref(), Some("25.35"));
    assert_eq!(round_decimal("101.34", 1).as_deref(), Some("101.3"));
    assert_eq!(round_decimal("1234.5", 0).as_deref(), Some("1235"));
    assert_eq!(round_decimal("-1234.5", 0).as_deref(), Some("-1235"));
    assert_eq!(round_decimal("99.995", 2).as_deref(), Some("100.00"));
    assert_eq!(round_decimal("999.96", 1).as_deref(), Some("1000.0"));
    assert_eq!(round_decimal("0.004", 2).as_deref(), Some("0.00"));
    assert_eq!(round_decimal("7", 2).as_deref(), Some("7.00"));
    assert_eq!(round_decimal("3.1", 3).as_deref(), Some("3.100"));
    assert_eq!(round_decimal("0.0000001", 2).as_deref(), Some("0.00"));
    assert_eq!(round_decimal("12.5", 0).as_deref(), Some("13"));
    for bad in ["", "-", ".5", "5.", "1.2.3", "1e5", "+1", "--1", "1,5"] {
        assert_eq!(round_decimal(bad, 2), None, "{bad:?}");
    }
}
