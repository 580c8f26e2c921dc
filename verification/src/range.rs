//! Time-range selection for the chart screen and the mapping from a range to
//! the ClickHouse table and query that serve it.

use vstd::prelude::*;
use crate::text::{push_str, str_eq};

verus! {

/// Which table a range reads from.
#[derive(Debug, Clone, Copy, PartialEq, Eq, Structural)]
pub enum Source {
    /// `sensor_raw`: raw 10 s cadence points.
    Raw,
    /// `sensor_1m`: 1-minute aggregates (`avgMerge`/`minMerge`/`maxMerge`).
    Agg1m,
    /// `sensor_1d`: daily aggregates.
    Agg1d,
}

/// A selectable chart time range.
#[derive(Debug, Clone, Copy, PartialEq, Eq, Structural)]
pub enum Range {
    Min10,
    Hour1,
    Hour6,
    Hour24,
    Day7,
    Day30,
}

impl Range {
    /// Every range, in the order the selector lists them.
    pub const ALL: [Range; 6] = [
        Range::Min10,
        Range::Hour1,
        Range::Hour6,
        Range::Hour24,
        Range::Day7,
        Range::Day30,
    ];

    /// The URL code of a range.
    pub open spec fn code_view(self) -> Seq<char> {
        match self {
            Range::Min10 => "10m"@,
            Range::Hour1 => "1h"@,
            Range::Hour6 => "6h"@,
            Range::Hour24 => "24h"@,
            Range::Day7 => "7d"@,
            Range::Day30 => "30d"@,
        }
    }

    /// The UTF-8 bytes of the URL code of a range.
    pub open spec fn code_view_bytes(self) -> Seq<u8> {
        vstd::utf8::encode_utf8(self.code_view())
    }

    /// The human-readable label of a range.
    pub open spec fn label_view(self) -> Seq<char> {
        match self {
            Range::Min10 => "10分"@,
            Range::Hour1 => "1時間"@,
            Range::Hour6 => "6時間"@,
            Range::Hour24 => "24時間"@,
            Range::Day7 => "7日"@,
            Range::Day30 => "30日"@,
        }
    }

    /// The SQL `INTERVAL` expression of a range.
    pub open spec fn interval_view(self) -> Seq<char> {
        match self {
            Range::Min10 => "INTERVAL 10 MINUTE"@,
            Range::Hour1 => "INTERVAL 1 HOUR"@,
            Range::Hour6 => "INTERVAL 6 HOUR"@,
            Range::Hour24 => "INTERVAL 24 HOUR"@,
            Range::Day7 => "INTERVAL 7 DAY"@,
            Range::Day30 => "INTERVAL 30 DAY"@,
        }
    }

    /// Raw points for the last few minutes, 1-minute aggregates up to 24 h,
    /// daily aggregates beyond that.
    pub open spec fn source_of(self) -> Source {
        match self {
            Range::Min10 => Source::Raw,
            Range::Hour1 | Range::Hour6 | Range::Hour24 => Source::Agg1m,
            Range::Day7 | Range::Day30 => Source::Agg1d,
        }
    }

    /// The range whose code is `s`, if any.
    pub open spec fn parse_view(s: Seq<char>) -> Option<Range> {
        if s == "10m"@ {
            Some(Range::Min10)
        } else if s == "1h"@ {
            Some(Range::Hour1)
        } else if s == "6h"@ {
            Some(Range::Hour6)
        } else if s == "24h"@ {
            Some(Range::Hour24)
        } else if s == "7d"@ {
            Some(Range::Day7)
        } else if s == "30d"@ {
            Some(Range::Day30)
        } else {
            None
        }
    }

    /// Parses the `range` query parameter. Unknown values yield `None`.
    pub fn parse(s: &str) -> (r: Option<Range>)
        ensures
            r == Range::parse_view(s@),
    {
        if str_eq(s, "10m") {
            Some(Range::Min10)
        } else if str_eq(s, "1h") {
            Some(Range::Hour1)
        } else if str_eq(s, "6h") {
            Some(Range::Hour6)
        } else if str_eq(s, "24h") {
            Some(Range::Hour24)
        } else if str_eq(s, "7d") {
            Some(Range::Day7)
        } else if str_eq(s, "30d") {
            Some(Range::Day30)
        } else {
            None
        }
    }

    /// The value used in URLs.
    pub fn code(self) -> (r: &'static str)
        ensures
            r@ == self.code_view(),
    {
        match self {
            Range::Min10 => "10m",
            Range::Hour1 => "1h",
            Range::Hour6 => "6h",
            Range::Hour24 => "24h",
            Range::Day7 => "7d",
            Range::Day30 => "30d",
        }
    }

    /// Human-readable label.
    pub fn label(self) -> (r: &'static str)
        ensures
            r@ == self.label_view(),
    {
        match self {
            Range::Min10 => "10分",
            Range::Hour1 => "1時間",
            Range::Hour6 => "6時間",
            Range::Hour24 => "24時間",
            Range::Day7 => "7日",
            Range::Day30 => "30日",
        }
    }

    /// Which table serves this range.
    pub fn source(self) -> (r: Source)
        ensures
            r == self.source_of(),
    {
        match self {
            Range::Min10 => Source::Raw,
            Range::Hour1 | Range::Hour6 | Range::Hour24 => Source::Agg1m,
            Range::Day7 | Range::Day30 => Source::Agg1d,
        }
    }

    /// The SQL `INTERVAL` expression bounding the range. Static strings only;
    /// never derived from user input.
    pub fn interval_sql(self) -> (r: &'static str)
        ensures
            r@ == self.interval_view(),
    {
        match self {
            Range::Min10 => "INTERVAL 10 MINUTE",
            Range::Hour1 => "INTERVAL 1 HOUR",
            Range::Hour6 => "INTERVAL 6 HOUR",
            Range::Hour24 => "INTERVAL 24 HOUR",
            Range::Day7 => "INTERVAL 7 DAY",
            Range::Day30 => "INTERVAL 30 DAY",
        }
    }
}

/// Every range's code parses back to that range.
pub proof fn lemma_parse_code_roundtrip(r: Range)
    ensures
        Range::parse_view(r.code_view()) == Some(r),
{
    reveal_strlit("10m");
    reveal_strlit("1h");
    reveal_strlit("6h");
    reveal_strlit("24h");
    reveal_strlit("7d");
    reveal_strlit("30d");
    // Codes differ in length or in their first character.
    assert("10m"@.len() == 3 && "1h"@.len() == 2 && "6h"@.len() == 2);
    assert("24h"@.len() == 3 && "7d"@.len() == 2 && "30d"@.len() == 3);
    assert("10m"@[0] != "24h"@[0] && "10m"@[0] != "30d"@[0] && "24h"@[0] != "30d"@[0]);
    assert("1h"@[0] != "6h"@[0] && "1h"@[0] != "7d"@[0] && "6h"@[0] != "7d"@[0]);
}

/// A string parses to a range exactly when it is that range's code.
pub proof fn lemma_parse_only_codes(s: Seq<char>, r: Range)
    ensures
        Range::parse_view(s) == Some(r) <==> s == r.code_view(),
{
    lemma_parse_code_roundtrip(r);
}

/// The `SELECT ... WHERE metric = ?` head of a source's series query.
pub open spec fn series_head(src: Source) -> Seq<char> {
    match src {
        Source::Raw => "SELECT device_id, ts, value AS avg_v, value AS min_v, value AS max_v FROM sensor_raw WHERE metric = ?"@,
        Source::Agg1m => "SELECT device_id, ts_min AS ts, avgMerge(avg_v) AS avg_v, minMerge(min_v) AS min_v, maxMerge(max_v) AS max_v FROM sensor_1m WHERE metric = ?"@,
        Source::Agg1d => "SELECT device_id, ts_day AS ts, avgMerge(avg_v) AS avg_v, minMerge(min_v) AS min_v, maxMerge(max_v) AS max_v FROM sensor_1d WHERE metric = ?"@,
    }
}

/// The optional device filter, bound as the second `?`.
pub open spec fn device_filter_sql(with_device: bool) -> Seq<char> {
    if with_device { " AND device_id = ?"@ } else { ""@ }
}

/// The time-bound comparison of a source, followed by the interval.
pub open spec fn series_time_bound(src: Source) -> Seq<char> {
    match src {
        Source::Raw => " AND ts > now() - "@,
        Source::Agg1m => " AND ts_min > now() - "@,
        Source::Agg1d => " AND ts_day > now() - "@,
    }
}

/// Grouping and ordering of a source's series query.
pub open spec fn series_tail(src: Source) -> Seq<char> {
    match src {
        Source::Raw => " ORDER BY device_id, ts"@,
        Source::Agg1m => " GROUP BY device_id, ts_min ORDER BY device_id, ts_min"@,
        Source::Agg1d => " GROUP BY device_id, ts_day ORDER BY device_id, ts_day"@,
    }
}

/// The full series query of a range.
pub open spec fn series_sql_view(range: Range, with_device: bool) -> Seq<char> {
    series_head(range.source_of()) + device_filter_sql(with_device) + series_time_bound(
        range.source_of(),
    ) + range.interval_view() + series_tail(range.source_of())
}

/// Builds the series query for a range. `metric` is always bound as the first
/// `?`; when `with_device` is set a second `?` binds the device id. Only
/// static SQL fragments are interpolated here.
pub fn series_sql(range: Range, with_device: bool) -> (r: String)
    ensures
        r@ == series_sql_view(range, with_device),
{
    let src = range.source();
    let head = match src {
        Source::Raw => "SELECT device_id, ts, value AS avg_v, value AS min_v, value AS max_v FROM sensor_raw WHERE metric = ?",
        Source::Agg1m => "SELECT device_id, ts_min AS ts, avgMerge(avg_v) AS avg_v, minMerge(min_v) AS min_v, maxMerge(max_v) AS max_v FROM sensor_1m WHERE metric = ?",
        Source::Agg1d => "SELECT device_id, ts_day AS ts, avgMerge(avg_v) AS avg_v, minMerge(min_v) AS min_v, maxMerge(max_v) AS max_v FROM sensor_1d WHERE metric = ?",
    };
    let filter = if with_device { " AND device_id = ?" } else { "" };
    let bound = match src {
        Source::Raw => " AND ts > now() - ",
        Source::Agg1m => " AND ts_min > now() - ",
        Source::Agg1d => " AND ts_day > now() - ",
    };
    let tail = match src {
        Source::Raw => " ORDER BY device_id, ts",
        Source::Agg1m => " GROUP BY device_id, ts_min ORDER BY device_id, ts_min",
        Source::Agg1d => " GROUP BY device_id, ts_day ORDER BY device_id, ts_day",
    };
    let mut sql = String::new();
    push_str(&mut sql, head);
    push_str(&mut sql, filter);
    push_str(&mut sql, bound);
    push_str(&mut sql, range.interval_sql());
    push_str(&mut sql, tail);
    assert(sql@ =~= series_sql_view(range, with_device));
    sql
}

/// How many times `c` occurs in `s`.
pub open spec fn occurrences(s: Seq<char>, c: char) -> nat
    decreases s.len(),
{
    if s.len() == 0 {
        0
    } else {
        occurrences(s.drop_last(), c) + if s.last() == c { 1nat } else { 0nat }
    }
}

proof fn lemma_occurrences_concat(a: Seq<char>, b: Seq<char>, c: char)
    ensures
        occurrences(a + b, c) == occurrences(a, c) + occurrences(b, c),
    decreases b.len(),
{
    if b.len() > 0 {
        lemma_occurrences_concat(a, b.drop_last(), c);
        assert((a + b).drop_last() =~= a + b.drop_last());
    } else {
        assert(a + b =~= a);
    }
}

proof fn lemma_occurrences_absent(s: Seq<char>, c: char)
    requires
        forall|i: int| 0 <= i < s.len() ==> s[i] != c,
    ensures
        occurrences(s, c) == 0,
    decreases s.len(),
{
    if s.len() > 0 {
        lemma_occurrences_absent(s.drop_last(), c);
    }
}

/// The series query has exactly one `?` per bound value: the metric, and the
/// device when it filters on one.
pub proof fn lemma_series_sql_placeholders(range: Range, with_device: bool)
    ensures
        occurrences(series_sql_view(range, with_device), '?') == if with_device { 2nat } else { 1nat },
{
    let src = range.source_of();
    let head = series_head(src);
    reveal_strlit("SELECT device_id, ts, value AS avg_v, value AS min_v, value AS max_v FROM sensor_raw WHERE metric = ?");
    reveal_strlit("SELECT device_id, ts_min AS ts, avgMerge(avg_v) AS avg_v, minMerge(min_v) AS min_v, maxMerge(max_v) AS max_v FROM sensor_1m WHERE metric = ?");
    reveal_strlit("SELECT device_id, ts_day AS ts, avgMerge(avg_v) AS avg_v, minMerge(min_v) AS min_v, maxMerge(max_v) AS max_v FROM sensor_1d WHERE metric = ?");
    reveal_strlit(" AND device_id = ?");
    reveal_strlit("");
    reveal_strlit(" AND ts > now() - ");
    reveal_strlit(" AND ts_min > now() - ");
    reveal_strlit(" AND ts_day > now() - ");
    reveal_strlit(" ORDER BY device_id, ts");
    reveal_strlit(" GROUP BY device_id, ts_min ORDER BY device_id, ts_min");
    reveal_strlit(" GROUP BY device_id, ts_day ORDER BY device_id, ts_day");
    reveal_strlit("INTERVAL 10 MINUTE");
    reveal_strlit("INTERVAL 1 HOUR");
    reveal_strlit("INTERVAL 6 HOUR");
    reveal_strlit("INTERVAL 24 HOUR");
    reveal_strlit("INTERVAL 7 DAY");
    reveal_strlit("INTERVAL 30 DAY");
    // The head ends in its only `?`.
    let body = head.drop_last();
    assert(head.last() == '?');
    lemma_occurrences_absent(body, '?');
    assert(occurrences(head, '?') == 1);
    let filter = device_filter_sql(with_device);
    if with_device {
        lemma_occurrences_absent(filter.drop_last(), '?');
        assert(occurrences(filter, '?') == 1);
    } else {
        assert(occurrences(filter, '?') == 0);
    }
    lemma_occurrences_absent(series_time_bound(src), '?');
    lemma_occurrences_absent(range.interval_view(), '?');
    lemma_occurrences_absent(series_tail(src), '?');
    lemma_occurrences_concat(head, filter, '?');
    lemma_occurrences_concat(head + filter, series_time_bound(src), '?');
    lemma_occurrences_concat(head + filter + series_time_bound(src), range.interval_view(), '?');
    lemma_occurrences_concat(
        head + filter + series_time_bound(src) + range.interval_view(),
        series_tail(src),
        '?',
    );
}

/// `sub` occurs in `s` starting at position `k`.
pub open spec fn occurs_at(s: Seq<char>, sub: Seq<char>, k: int) -> bool {
    0 <= k && k + sub.len() <= s.len() && s.subrange(k, k + sub.len()) == sub
}

/// The table a source reads.
pub open spec fn source_table(src: Source) -> Seq<char> {
    match src {
        Source::Raw => "sensor_raw"@,
        Source::Agg1m => "sensor_1m"@,
        Source::Agg1d => "sensor_1d"@,
    }
}

/// The series query reads its source's table over the range's interval; it
/// starts with the head that ends in `metric = ?`, the first `?` of the
/// query, which binds the metric; and the device filter is inserted right
/// after that `?`, all else unchanged.
pub proof fn lemma_series_sql_shape(range: Range, with_device: bool)
    ensures
        ({
            let src = range.source_of();
            let head = series_head(src);
            let q = series_sql_view(range, with_device);
            &&& q.take(head.len() as int) == head
            &&& head.skip(head.len() - 10) == "metric = ?"@
            &&& q[head.len() - 1] == '?'
            &&& forall|i: int| 0 <= i < head.len() - 1 ==> q[i] != '?'
            &&& series_sql_view(range, true) == head + " AND device_id = ?"@ + series_sql_view(
                range,
                false,
            ).skip(head.len() as int)
            &&& exists|k: int| occurs_at(q, "FROM "@ + source_table(src), k)
            &&& exists|k: int| occurs_at(q, range.interval_view(), k)
        }),
{
    let src = range.source_of();
    let head = series_head(src);
    let q = series_sql_view(range, with_device);
    reveal_strlit("SELECT device_id, ts, value AS avg_v, value AS min_v, value AS max_v FROM sensor_raw WHERE metric = ?");
    reveal_strlit("SELECT device_id, ts_min AS ts, avgMerge(avg_v) AS avg_v, minMerge(min_v) AS min_v, maxMerge(max_v) AS max_v FROM sensor_1m WHERE metric = ?");
    reveal_strlit("SELECT device_id, ts_day AS ts, avgMerge(avg_v) AS avg_v, minMerge(min_v) AS min_v, maxMerge(max_v) AS max_v FROM sensor_1d WHERE metric = ?");
    reveal_strlit("metric = ?");
    reveal_strlit("FROM ");
    reveal_strlit("sensor_raw");
    reveal_strlit("sensor_1m");
    reveal_strlit("sensor_1d");
    reveal_strlit(" AND device_id = ?");
    reveal_strlit("");
    let filter = device_filter_sql(with_device);
    let rest = series_time_bound(src) + range.interval_view() + series_tail(src);
    assert(q =~= head + (filter + rest));
    assert(q.take(head.len() as int) =~= head);
    assert(head.skip(head.len() - 10) =~= "metric = ?"@);
    assert(series_sql_view(range, false) =~= head + rest);
    assert(series_sql_view(range, false).skip(head.len() as int) =~= rest);
    assert(series_sql_view(range, true) =~= head + " AND device_id = ?"@ + rest);
    let from = "FROM "@ + source_table(src);
    let at: int = if src == Source::Raw { 69 } else { 109 };
    assert(q.subrange(at, at + from.len()) =~= from);
    assert(occurs_at(q, from, at));
    let iv: int = (head.len() + filter.len() + series_time_bound(src).len()) as int;
    assert(q =~= head + filter + series_time_bound(src) + range.interval_view() + series_tail(src));
    assert(q.subrange(iv, iv + range.interval_view().len()) =~= range.interval_view());
    assert(occurs_at(q, range.interval_view(), iv));
}

/// The time column of a source's table: `ts` in `sensor_raw`, `ts_min` in
/// `sensor_1m`, `ts_day` in `sensor_1d`.
pub open spec fn source_time_column(src: Source) -> Seq<char> {
    match src {
        Source::Raw => "ts"@,
        Source::Agg1m => "ts_min"@,
        Source::Agg1d => "ts_day"@,
    }
}

/// Whatever the range and device filter, the query bounds its source
/// table's own time column by now minus the range's interval.
pub proof fn lemma_series_sql_time_bound(range: Range, with_device: bool)
    ensures
        exists|k: int|
            occurs_at(
                series_sql_view(range, with_device),
                " AND "@ + source_time_column(range.source_of()) + " > now() - "@ + range.interval_view(),
                k,
            ),
{
    let src = range.source_of();
    reveal_strlit(" AND ts > now() - ");
    reveal_strlit(" AND ts_min > now() - ");
    reveal_strlit(" AND ts_day > now() - ");
    reveal_strlit(" AND ");
    reveal_strlit(" > now() - ");
    reveal_strlit("ts");
    reveal_strlit("ts_min");
    reveal_strlit("ts_day");
    let bound = series_time_bound(src);
    assert(bound =~= " AND "@ + source_time_column(src) + " > now() - "@);
    let pre = series_head(src) + device_filter_sql(with_device);
    let sub = bound + range.interval_view();
    let q = series_sql_view(range, with_device);
    assert(q =~= pre + sub + series_tail(src));
    assert(q.subrange(pre.len() as int, (pre.len() + sub.len()) as int) =~= sub);
    assert(occurs_at(q, sub, pre.len() as int));
}

/// The query ends by ordering each device's points by its source table's
/// time column, and an aggregated table's rows are first grouped by device
/// and that column.
pub proof fn lemma_series_sql_grouping(range: Range, with_device: bool)
    ensures
        ({
            let src = range.source_of();
            let col = source_time_column(src);
            let q = series_sql_view(range, with_device);
            let order = " ORDER BY device_id, "@ + col;
            let group = if src == Source::Raw {
                Seq::<char>::empty()
            } else {
                " GROUP BY device_id, "@ + col
            };
            q.len() >= group.len() + order.len() && q.skip(q.len() - group.len() - order.len()) == group
                + order
        }),
{
    let src = range.source_of();
    reveal_strlit(" ORDER BY device_id, ts");
    reveal_strlit(" GROUP BY device_id, ts_min ORDER BY device_id, ts_min");
    reveal_strlit(" GROUP BY device_id, ts_day ORDER BY device_id, ts_day");
    reveal_strlit(" ORDER BY device_id, ");
    reveal_strlit(" GROUP BY device_id, ");
    reveal_strlit("ts");
    reveal_strlit("ts_min");
    reveal_strlit("ts_day");
    let col = source_time_column(src);
    let order = " ORDER BY device_id, "@ + col;
    let group = if src == Source::Raw { Seq::<char>::empty() } else { " GROUP BY device_id, "@ + col };
    let tail = series_tail(src);
    assert(tail =~= group + order);
    let pre = series_head(src) + device_filter_sql(with_device) + series_time_bound(src) + range.interval_view();
    let q = series_sql_view(range, with_device);
    assert(q =~= pre + tail);
    assert(q.skip(q.len() - tail.len()) =~= tail);
}

} // verus!
