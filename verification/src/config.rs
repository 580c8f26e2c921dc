//! Dashboard configuration, read through a lookup of environment variables
//! with defaults.

use vstd::prelude::*;
use crate::text::{chars_of, push_str};

verus! {

/// Runtime configuration, read from environment variables with defaults.
#[derive(Debug, Clone, PartialEq, Eq)]
pub struct Config {
    pub clickhouse_url: String,
    pub clickhouse_user: String,
    pub clickhouse_password: String,
    pub clickhouse_database: String,
    pub listen_addr: String,
}

/// The looked-up value, or the default when the variable is unset.
pub open spec fn value_or(found: Option<String>, default: Seq<char>) -> Seq<char> {
    match found {
        Some(v) => v@,
        None => default,
    }
}

/// Whether `value` is what the lookup may give for `key` (or the default).
pub open spec fn read_as<F: Fn(&str) -> Option<String>>(get: F, key: &str, default: Seq<char>, value: Seq<char>) -> bool {
    exists|found: Option<String>| #[trigger] get.ensures((key,), found) && value == value_or(found, default)
}

fn var<F: Fn(&str) -> Option<String>>(get: &F, key: &str, default: &str) -> (r: String)
    requires
        forall|k: &str| get.requires((k,)),
    ensures
        read_as(*get, key, default@, r@),
{
    let found = get(key);
    let r = match &found {
        Some(v) => v.clone(),
        None => {
            let mut d = String::new();
            push_str(&mut d, default);
            d
        },
    };
    assert(get.ensures((key,), found) && r@ == value_or(found, default@));
    r
}

impl Config {
    /// Reads the configuration through an arbitrary lookup function
    /// (injectable for tests).
    pub fn from_lookup<F: Fn(&str) -> Option<String>>(get: F) -> (c: Config)
        requires
            forall|k: &str| get.requires((k,)),
        ensures
            read_as(get, "CLICKHOUSE_URL", "http://localhost:8123"@, c.clickhouse_url@),
            read_as(get, "CLICKHOUSE_USER", "dashboard"@, c.clickhouse_user@),
            read_as(get, "CLICKHOUSE_PASSWORD", ""@, c.clickhouse_password@),
            read_as(get, "CLICKHOUSE_DATABASE", "default"@, c.clickhouse_database@),
            read_as(get, "LISTEN_ADDR", "0.0.0.0:8080"@, c.listen_addr@),
    {
        Config {
            clickhouse_url: var(&get, "CLICKHOUSE_URL", "http://localhost:8123"),
            clickhouse_user: var(&get, "CLICKHOUSE_USER", "dashboard"),
            clickhouse_password: var(&get, "CLICKHOUSE_PASSWORD", ""),
            clickhouse_database: var(&get, "CLICKHOUSE_DATABASE", "default"),
            listen_addr: var(&get, "LISTEN_ADDR", "0.0.0.0:8080"),
        }
    }
}

/// The value of a run of ASCII digits.
pub open spec fn digits_value(d: Seq<char>) -> nat
    decreases d.len(),
{
    if d.len() == 0 {
        0
    } else {
        digits_value(d.drop_last()) * 10 + (d.last() as nat - 48) as nat
    }
}

pub open spec fn is_digit(c: char) -> bool {
    '0' <= c <= '9'
}

/// An unsigned decimal as integer parsing reads it: an optional `+`, then
/// one or more ASCII digits, whose value must not exceed `max`.
/// The digits of an unsigned decimal: the text after an optional `+`.
pub open spec fn unsigned_digits(s: Seq<char>) -> Seq<char> {
    if s.len() > 0 && s[0] == '+' { s.skip(1) } else { s }
}

pub open spec fn parse_unsigned_view(s: Seq<char>, max: nat) -> Option<nat> {
    let digits = unsigned_digits(s);
    if digits.len() == 0 || exists|i: int| 0 <= i < digits.len() && !is_digit(#[trigger] digits[i]) {
        None
    } else if digits_value(digits) > max {
        None
    } else {
        Some(digits_value(digits))
    }
}

proof fn lemma_digits_value_monotone(d: Seq<char>, k: int)
    requires
        0 <= k <= d.len(),
        forall|i: int| 0 <= i < d.len() ==> is_digit(#[trigger] d[i]),
    ensures
        digits_value(d.take(k)) <= digits_value(d),
    decreases d.len() - k,
{
    if k < d.len() {
        lemma_digits_value_monotone(d, k + 1);
        assert(d.take(k + 1).drop_last() =~= d.take(k));
    } else {
        assert(d.take(k) =~= d);
    }
}

/// Parses an unsigned decimal no larger than `max`, as `str::parse` does
/// for unsigned integers.
pub fn parse_unsigned(s: &str, max: u64) -> (r: Option<u64>)
    ensures
        match (r, parse_unsigned_view(s@, max as nat)) {
            (Some(v), Some(w)) => v == w,
            (None, None) => true,
            _ => false,
        },
{
    let cs = chars_of(s);
    let start: usize = if cs.len() > 0 && cs[0] == '+' { 1 } else { 0 };
    let ghost digits = unsigned_digits(s@);
    assert(digits =~= s@.skip(start as int));
    if start >= cs.len() {
        return None;
    }
    let mut acc: u64 = 0;
    let mut i: usize = start;
    while i < cs.len()
        invariant
            cs@ == s@,
            start <= i <= cs.len(),
            digits =~= s@.skip(start as int),
            digits == unsigned_digits(s@),
            forall|j: int| 0 <= j < i - start ==> is_digit(#[trigger] digits[j]),
            acc as nat == digits_value(digits.take(i - start)),
            acc <= max,
        decreases cs.len() - i,
    {
        let c = cs[i];
        let ghost k = i - start;
        assert(digits[k] == c);
        if !('0' <= c && c <= '9') {
            assert(!is_digit(digits[k]));
            return None;
        }
        let d = (c as u32 - 48) as u64;
        assert(digits.take(k + 1).drop_last() =~= digits.take(k));
        if d > max || acc > (max - d) / 10 {
            proof {
                assert(forall|j: int| 0 <= j < k + 1 ==> is_digit(#[trigger] digits[j]));
                assert(digits_value(digits.take(k + 1)) > max) by (nonlinear_arith)
                    requires
                        digits_value(digits.take(k + 1)) == acc * 10 + d,
                        d > max || acc > (max - d) / 10,
                ;
                if forall|j: int| 0 <= j < digits.len() ==> is_digit(#[trigger] digits[j]) {
                    lemma_digits_value_monotone(digits, k + 1);
                }
            }
            return None;
        }
        acc = acc * 10 + d;
        i = i + 1;
    }
    assert(digits.take(digits.len() as int) =~= digits);
    Some(acc)
}

/// Why the ingester configuration could not be read.
#[derive(Debug, Clone, Copy, PartialEq, Eq, Structural)]
pub enum ConfigError {
    /// `MQTT_PORT` is not a port number.
    MqttPort,
    /// `BATCH_MAX_ROWS` is not an unsigned integer.
    BatchMaxRows,
    /// `BATCH_MAX_SECS` is not an unsigned integer.
    BatchMaxSecs,
}

/// The ingester's runtime configuration.
#[derive(Debug, Clone)]
pub struct IngesterConfig {
    pub mqtt_host: String,
    pub mqtt_port: u16,
    pub mqtt_username: String,
    pub mqtt_password: String,
    pub mqtt_client_id: String,
    pub clickhouse_url: String,
    pub clickhouse_user: String,
    pub clickhouse_password: String,
    pub clickhouse_database: String,
    pub batch_max_rows: usize,
    pub batch_max_secs: u64,
    pub metrics_addr: String,
}

/// Whether `value` is what parsing the variable `key` (with its default)
/// may give.
pub open spec fn parsed_as<F: Fn(&str) -> Option<String>>(get: F, key: &str, default: Seq<char>, max: nat, value: Option<nat>) -> bool {
    exists|found: Option<String>| #[trigger] get.ensures((key,), found) && value == parse_unsigned_view(value_or(found, default), max)
}

fn parse_var<F: Fn(&str) -> Option<String>>(get: &F, key: &str, default: &str, max: u64) -> (r: Option<u64>)
    requires
        forall|k: &str| get.requires((k,)),
    ensures
        parsed_as(*get, key, default@, max as nat, match r { Some(v) => Some(v as nat), None => None }),
{
    let text = var(get, key, default);
    let r = parse_unsigned(text.as_str(), max);
    let ghost found = choose|found: Option<String>| #[trigger] get.ensures((key,), found) && text@ == value_or(found, default@);
    assert(get.ensures((key,), found) && (match r { Some(v) => Some(v as nat), None => None }) == parse_unsigned_view(value_or(found, default@), max as nat));
    r
}

/// What reading the ingester configuration through `get` gives: every
/// setting read with its default, or the first numeric setting that does
/// not parse, the ones before it having parsed.
pub open spec fn config_outcome<F: Fn(&str) -> Option<String>>(get: F, r: Result<IngesterConfig, ConfigError>) -> bool {
    &&& r matches Ok(c) ==> {
        &&& read_as(get, "MQTT_HOST", "localhost"@, c.mqtt_host@)
        &&& parsed_as(get, "MQTT_PORT", "1883"@, 65535, Some(c.mqtt_port as nat))
        &&& read_as(get, "MQTT_USERNAME", "ingester"@, c.mqtt_username@)
        &&& read_as(get, "MQTT_PASSWORD", ""@, c.mqtt_password@)
        &&& read_as(get, "MQTT_CLIENT_ID", "ingester"@, c.mqtt_client_id@)
        &&& read_as(get, "CLICKHOUSE_URL", "http://localhost:8123"@, c.clickhouse_url@)
        &&& read_as(get, "CLICKHOUSE_USER", "ingester"@, c.clickhouse_user@)
        &&& read_as(get, "CLICKHOUSE_PASSWORD", ""@, c.clickhouse_password@)
        &&& read_as(get, "CLICKHOUSE_DATABASE", "default"@, c.clickhouse_database@)
        &&& parsed_as(get, "BATCH_MAX_ROWS", "5000"@, usize::MAX as nat, Some(c.batch_max_rows as nat))
        &&& parsed_as(get, "BATCH_MAX_SECS", "60"@, u64::MAX as nat, Some(c.batch_max_secs as nat))
        &&& read_as(get, "METRICS_ADDR", "0.0.0.0:9090"@, c.metrics_addr@)
    }
    &&& r == Err::<IngesterConfig, ConfigError>(ConfigError::MqttPort) ==> parsed_as(get, "MQTT_PORT", "1883"@, 65535, None)
    &&& r == Err::<IngesterConfig, ConfigError>(ConfigError::BatchMaxRows) ==> {
        &&& exists|p: nat| parsed_as(get, "MQTT_PORT", "1883"@, 65535, Some(p))
        &&& parsed_as(get, "BATCH_MAX_ROWS", "5000"@, usize::MAX as nat, None)
    }
    &&& r == Err::<IngesterConfig, ConfigError>(ConfigError::BatchMaxSecs) ==> {
        &&& exists|p: nat| parsed_as(get, "MQTT_PORT", "1883"@, 65535, Some(p))
        &&& exists|n: nat| parsed_as(get, "BATCH_MAX_ROWS", "5000"@, usize::MAX as nat, Some(n))
        &&& parsed_as(get, "BATCH_MAX_SECS", "60"@, u64::MAX as nat, None)
    }
}

/// `get` gives one answer per variable.
pub open spec fn lookup_is_function<F: Fn(&str) -> Option<String>>(get: F) -> bool {
    forall|k: &str, x: Option<String>, y: Option<String>|
        #[trigger] get.ensures((k,), x) && #[trigger] get.ensures((k,), y) ==> x == y
}

/// Through a lookup that gives one answer per variable, a setting parses to
/// one outcome only.
pub proof fn lemma_parsed_as_unique<F: Fn(&str) -> Option<String>>(
    get: F,
    key: &str,
    default: Seq<char>,
    max: nat,
    a: Option<nat>,
    b: Option<nat>,
)
    requires
        lookup_is_function(get),
        parsed_as(get, key, default, max, a),
        parsed_as(get, key, default, max, b),
    ensures
        a == b,
{
    let fa = choose|found: Option<String>| #[trigger] get.ensures((key,), found) && a == parse_unsigned_view(value_or(found, default), max);
    let fb = choose|found: Option<String>| #[trigger] get.ensures((key,), found) && b == parse_unsigned_view(value_or(found, default), max);
    assert(fa == fb);
}

/// Through a lookup that gives one answer per variable (such as the process
/// environment), reading the ingester configuration fails exactly when
/// `MQTT_PORT`, `BATCH_MAX_ROWS` or `BATCH_MAX_SECS` does not parse, and the
/// error names the first of them that does not.
pub proof fn lemma_config_fails_iff_unparsable<F: Fn(&str) -> Option<String>>(
    get: F,
    r: Result<IngesterConfig, ConfigError>,
)
    requires
        lookup_is_function(get),
        config_outcome(get, r),
    ensures
        r is Err <==> {
            ||| parsed_as(get, "MQTT_PORT", "1883"@, 65535, None)
            ||| parsed_as(get, "BATCH_MAX_ROWS", "5000"@, usize::MAX as nat, None)
            ||| parsed_as(get, "BATCH_MAX_SECS", "60"@, u64::MAX as nat, None)
        },
        r == Err::<IngesterConfig, ConfigError>(ConfigError::BatchMaxRows) ==> !parsed_as(get, "MQTT_PORT", "1883"@, 65535, None),
        r == Err::<IngesterConfig, ConfigError>(ConfigError::BatchMaxSecs) ==> {
            &&& !parsed_as(get, "MQTT_PORT", "1883"@, 65535, None)
            &&& !parsed_as(get, "BATCH_MAX_ROWS", "5000"@, usize::MAX as nat, None)
        },
{
    if let Ok(c) = r {
        if parsed_as(get, "MQTT_PORT", "1883"@, 65535, None) {
            lemma_parsed_as_unique(get, "MQTT_PORT", "1883"@, 65535, None, Some(c.mqtt_port as nat));
        }
        if parsed_as(get, "BATCH_MAX_ROWS", "5000"@, usize::MAX as nat, None) {
            lemma_parsed_as_unique(get, "BATCH_MAX_ROWS", "5000"@, usize::MAX as nat, None, Some(c.batch_max_rows as nat));
        }
        if parsed_as(get, "BATCH_MAX_SECS", "60"@, u64::MAX as nat, None) {
            lemma_parsed_as_unique(get, "BATCH_MAX_SECS", "60"@, u64::MAX as nat, None, Some(c.batch_max_secs as nat));
        }
    }
    if let Err(e) = r {
        match e {
            ConfigError::MqttPort => assert(parsed_as(get, "MQTT_PORT", "1883"@, 65535, None)),
            ConfigError::BatchMaxRows => assert(parsed_as(get, "BATCH_MAX_ROWS", "5000"@, usize::MAX as nat, None)),
            ConfigError::BatchMaxSecs => assert(parsed_as(get, "BATCH_MAX_SECS", "60"@, u64::MAX as nat, None)),
        }
    }
    if r == Err::<IngesterConfig, ConfigError>(ConfigError::BatchMaxRows) || r == Err::<IngesterConfig, ConfigError>(ConfigError::BatchMaxSecs) {
        let p = choose|p: nat| parsed_as(get, "MQTT_PORT", "1883"@, 65535, Some(p));
        if parsed_as(get, "MQTT_PORT", "1883"@, 65535, None) {
            lemma_parsed_as_unique(get, "MQTT_PORT", "1883"@, 65535, None, Some(p));
        }
    }
    if r == Err::<IngesterConfig, ConfigError>(ConfigError::BatchMaxSecs) {
        let n = choose|n: nat| parsed_as(get, "BATCH_MAX_ROWS", "5000"@, usize::MAX as nat, Some(n));
        if parsed_as(get, "BATCH_MAX_ROWS", "5000"@, usize::MAX as nat, None) {
            lemma_parsed_as_unique(get, "BATCH_MAX_ROWS", "5000"@, usize::MAX as nat, None, Some(n));
        }
    }
}

impl IngesterConfig {
    /// Reads the ingester configuration through a lookup of environment
    /// variables, with defaults; the numeric settings must parse.
    pub fn from_lookup<F: Fn(&str) -> Option<String>>(get: F) -> (r: Result<IngesterConfig, ConfigError>)
        requires
            forall|k: &str| get.requires((k,)),
        ensures
            config_outcome(get, r),
    {
        let mqtt_host = var(&get, "MQTT_HOST", "localhost");
        let mqtt_port = match parse_var(&get, "MQTT_PORT", "1883", 65535) {
            Some(p) => p as u16,
            None => return Err(ConfigError::MqttPort),
        };
        let mqtt_username = var(&get, "MQTT_USERNAME", "ingester");
        let mqtt_password = var(&get, "MQTT_PASSWORD", "");
        let mqtt_client_id = var(&get, "MQTT_CLIENT_ID", "ingester");
        let clickhouse_url = var(&get, "CLICKHOUSE_URL", "http://localhost:8123");
        let clickhouse_user = var(&get, "CLICKHOUSE_USER", "ingester");
        let clickhouse_password = var(&get, "CLICKHOUSE_PASSWORD", "");
        let clickhouse_database = var(&get, "CLICKHOUSE_DATABASE", "default");
        let batch_max_rows = match parse_var(&get, "BATCH_MAX_ROWS", "5000", usize::MAX as u64) {
            Some(v) => v as usize,
            None => return Err(ConfigError::BatchMaxRows),
        };
        let batch_max_secs = match parse_var(&get, "BATCH_MAX_SECS", "60", u64::MAX) {
            Some(v) => v,
            None => return Err(ConfigError::BatchMaxSecs),
        };
        let metrics_addr = var(&get, "METRICS_ADDR", "0.0.0.0:9090");
        Ok(IngesterConfig {
            mqtt_host,
            mqtt_port,
            mqtt_username,
            mqtt_password,
            mqtt_client_id,
            clickhouse_url,
            clickhouse_user,
            clickhouse_password,
            clickhouse_database,
            batch_max_rows,
            batch_max_secs,
            metrics_addr,
        })
    }
}

} // verus!
