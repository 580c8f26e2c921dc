//! The ingester's control decisions: the buffers that hold rows between
//! flushes, when the batcher flushes, in which order sensor rows are
//! inserted, how failed inserts are retried, and how the MQTT loop backs off
//! between reconnects.

use vstd::prelude::*;
use crate::util::Timestamp;
use vstd::string::StringSliceAdditionalSpecFns;
use vstd::arithmetic::power2::{lemma2_to64, lemma_pow2_unfold, pow2};
use vstd::utf8::encode_utf8;

verus! {

// ---------------------------------------------------------------------------
// Batching
// ---------------------------------------------------------------------------

/// What the batcher just observed.
#[derive(Debug, Clone, Copy, PartialEq, Eq, Structural)]
pub enum BatchEvent {
    /// A parsed message was buffered; `sensor_rows` sensor rows are now
    /// buffered.
    Received { sensor_rows: usize },
    /// The message channel closed.
    Closed,
    /// The flush timer fired.
    Tick { buffers_empty: bool },
}

/// What the batcher does next.
#[derive(Debug, Clone, Copy, PartialEq, Eq, Structural)]
pub enum BatchAction {
    /// Keep buffering.
    Wait,
    /// Insert and clear the buffers; restart the timer when `reset_timer`.
    Flush { reset_timer: bool },
    /// Insert what is buffered and stop.
    FlushAndStop,
}

/// Two-stage batching: flush when the sensor buffer reaches `max_rows`
/// (restarting the timer), or when the timer fires with anything buffered;
/// flush once more and stop when the channel closes.
pub open spec fn batch_step_view(event: BatchEvent, max_rows: usize) -> BatchAction {
    match event {
        BatchEvent::Received { sensor_rows } => if sensor_rows >= max_rows {
            BatchAction::Flush { reset_timer: true }
        } else {
            BatchAction::Wait
        },
        BatchEvent::Closed => BatchAction::FlushAndStop,
        BatchEvent::Tick { buffers_empty } => if buffers_empty {
            BatchAction::Wait
        } else {
            BatchAction::Flush { reset_timer: false }
        },
    }
}

/// Decides what the batcher does after an event.
pub fn batch_step(event: BatchEvent, max_rows: usize) -> (r: BatchAction)
    ensures
        r == batch_step_view(event, max_rows),
{
    match event {
        BatchEvent::Received { sensor_rows } => if sensor_rows >= max_rows {
            BatchAction::Flush { reset_timer: true }
        } else {
            BatchAction::Wait
        },
        BatchEvent::Closed => BatchAction::FlushAndStop,
        BatchEvent::Tick { buffers_empty } => if buffers_empty {
            BatchAction::Wait
        } else {
            BatchAction::Flush { reset_timer: false }
        },
    }
}

/// The sensor buffer never stays at or above `max_rows` after a message,
/// and an empty buffer set is never flushed by the timer.
pub proof fn lemma_batch_bounded(sensor_rows: usize, max_rows: usize)
    ensures
        sensor_rows >= max_rows ==> batch_step_view(
            BatchEvent::Received { sensor_rows },
            max_rows,
        ) is Flush,
        batch_step_view(BatchEvent::Tick { buffers_empty: true }, max_rows) == BatchAction::Wait,
{
}

/// The rows waiting for the next flush, one list per table, in arrival
/// order.
pub struct Buffers<S, A, T> {
    sensor: Vec<S>,
    as7341: Vec<A>,
    status: Vec<T>,
}

impl<S, A, T> Buffers<S, A, T> {
    /// The buffered sensor rows.
    pub closed spec fn sensor_rows(&self) -> Seq<S> {
        self.sensor@
    }

    /// The buffered AS7341 rows.
    pub closed spec fn as7341_rows(&self) -> Seq<A> {
        self.as7341@
    }

    /// The buffered status rows.
    pub closed spec fn status_rows(&self) -> Seq<T> {
        self.status@
    }

    /// Empty buffers.
    pub fn new() -> (r: Self)
        ensures
            r.sensor_rows() == Seq::<S>::empty(),
            r.as7341_rows() == Seq::<A>::empty(),
            r.status_rows() == Seq::<T>::empty(),
    {
        Buffers { sensor: Vec::new(), as7341: Vec::new(), status: Vec::new() }
    }

    /// Whether nothing is buffered.
    pub fn is_empty(&self) -> (r: bool)
        ensures
            r == (self.sensor_rows().len() == 0 && self.as7341_rows().len() == 0
                && self.status_rows().len() == 0),
    {
        self.sensor.len() == 0 && self.as7341.len() == 0 && self.status.len() == 0
    }

    /// How many sensor rows are buffered.
    pub fn sensor_len(&self) -> (r: usize)
        ensures
            r == self.sensor_rows().len(),
    {
        self.sensor.len()
    }

    /// Appends the sensor rows of one message.
    pub fn add_sensor(&mut self, rows: Vec<S>)
        ensures
            final(self).sensor_rows() == old(self).sensor_rows() + rows@,
            final(self).as7341_rows() == old(self).as7341_rows(),
            final(self).status_rows() == old(self).status_rows(),
    {
        let mut rows = rows;
        self.sensor.append(&mut rows);
    }

    /// Appends one AS7341 row.
    pub fn add_as7341(&mut self, row: A)
        ensures
            final(self).sensor_rows() == old(self).sensor_rows(),
            final(self).as7341_rows() == old(self).as7341_rows().push(row),
            final(self).status_rows() == old(self).status_rows(),
    {
        self.as7341.push(row);
    }

    /// Appends one status row.
    pub fn add_status(&mut self, row: T)
        ensures
            final(self).sensor_rows() == old(self).sensor_rows(),
            final(self).as7341_rows() == old(self).as7341_rows(),
            final(self).status_rows() == old(self).status_rows().push(row),
    {
        self.status.push(row);
    }

    /// Hands out everything buffered, in arrival order, and empties the
    /// buffers.
    pub fn take_all(&mut self) -> (r: (Vec<S>, Vec<A>, Vec<T>))
        ensures
            r.0@ == old(self).sensor_rows(),
            r.1@ == old(self).as7341_rows(),
            r.2@ == old(self).status_rows(),
            final(self).sensor_rows() == Seq::<S>::empty(),
            final(self).as7341_rows() == Seq::<A>::empty(),
            final(self).status_rows() == Seq::<T>::empty(),
    {
        let mut sensor = Vec::new();
        let mut as7341 = Vec::new();
        let mut status = Vec::new();
        std::mem::swap(&mut sensor, &mut self.sensor);
        std::mem::swap(&mut as7341, &mut self.as7341);
        std::mem::swap(&mut status, &mut self.status);
        (sensor, as7341, status)
    }
}

/// No row is lost or duplicated: if what was flushed so far followed by
/// what is buffered is everything received, in order, then it stays so when
/// more rows arrive (they are appended to the buffer) and when the buffer
/// is flushed (its rows go, in order, after those flushed before, and the
/// buffer is left empty).
pub proof fn lemma_rows_conserved<R>(received: Seq<R>, flushed: Seq<R>, buffered: Seq<R>, arriving: Seq<R>)
    requires
        flushed + buffered == received,
    ensures
        flushed + (buffered + arriving) == received + arriving,
        (flushed + buffered) + Seq::<R>::empty() == received,
{
    assert(flushed + (buffered + arriving) =~= (flushed + buffered) + arriving);
    assert((flushed + buffered) + Seq::<R>::empty() =~= flushed + buffered);
}

// ---------------------------------------------------------------------------
// Insert order
// ---------------------------------------------------------------------------

/// The result of comparing two keys.
#[derive(Debug, Clone, Copy, PartialEq, Eq, Structural)]
pub enum KeyOrder {
    Less,
    Equal,
    Greater,
}

impl KeyOrder {
    pub open spec fn reversed(self) -> KeyOrder {
        match self {
            KeyOrder::Less => KeyOrder::Greater,
            KeyOrder::Equal => KeyOrder::Equal,
            KeyOrder::Greater => KeyOrder::Less,
        }
    }
}

/// Lexicographic order of byte strings (the order of `String`s).
pub open spec fn bytes_order(a: Seq<u8>, b: Seq<u8>) -> KeyOrder
    decreases a.len(),
{
    if a.len() == 0 && b.len() == 0 {
        KeyOrder::Equal
    } else if a.len() == 0 {
        KeyOrder::Less
    } else if b.len() == 0 {
        KeyOrder::Greater
    } else if a[0] < b[0] {
        KeyOrder::Less
    } else if a[0] > b[0] {
        KeyOrder::Greater
    } else {
        bytes_order(a.drop_first(), b.drop_first())
    }
}

/// Order of integers.
pub open spec fn int_order(a: int, b: int) -> KeyOrder {
    if a < b {
        KeyOrder::Less
    } else if a > b {
        KeyOrder::Greater
    } else {
        KeyOrder::Equal
    }
}

/// The insert order of sensor rows: by metric, then device, then time
/// (the table's `ORDER BY`, which helps ClickHouse merges).
pub open spec fn sensor_key_order(
    metric_a: Seq<u8>,
    device_a: Seq<u8>,
    ts_a: int,
    metric_b: Seq<u8>,
    device_b: Seq<u8>,
    ts_b: int,
) -> KeyOrder {
    let m = bytes_order(metric_a, metric_b);
    if m != KeyOrder::Equal {
        m
    } else {
        let d = bytes_order(device_a, device_b);
        if d != KeyOrder::Equal {
            d
        } else {
            int_order(ts_a, ts_b)
        }
    }
}

fn compare_bytes(a: &[u8], b: &[u8]) -> (r: KeyOrder)
    ensures
        r == bytes_order(a@, b@),
{
    let mut i: usize = 0;
    assert(a@.skip(0) =~= a@);
    assert(b@.skip(0) =~= b@);
    while i < a.len() && i < b.len()
        invariant
            i <= a.len(),
            i <= b.len(),
            bytes_order(a@, b@) == bytes_order(a@.skip(i as int), b@.skip(i as int)),
        decreases a.len() - i,
    {
        let ghost sa = a@.skip(i as int);
        let ghost sb = b@.skip(i as int);
        assert(sa[0] == a@[i as int]);
        assert(sb[0] == b@[i as int]);
        if a[i] < b[i] {
            return KeyOrder::Less;
        }
        if a[i] > b[i] {
            return KeyOrder::Greater;
        }
        assert(sa.drop_first() =~= a@.skip(i + 1));
        assert(sb.drop_first() =~= b@.skip(i + 1));
        i = i + 1;
    }
    if i < a.len() {
        KeyOrder::Greater
    } else if i < b.len() {
        KeyOrder::Less
    } else {
        KeyOrder::Equal
    }
}

fn compare_timestamps(a: Timestamp, b: Timestamp) -> (r: KeyOrder)
    ensures
        r == int_order(a.unix_nanos(), b.unix_nanos()),
{
    let na = a.nanos_since_epoch();
    let nb = b.nanos_since_epoch();
    if na < nb {
        KeyOrder::Less
    } else if na > nb {
        KeyOrder::Greater
    } else {
        KeyOrder::Equal
    }
}

/// Compares two sensor rows by (metric, device, time).
pub fn compare_sensor_keys(
    metric_a: &str,
    device_a: &str,
    ts_a: Timestamp,
    metric_b: &str,
    device_b: &str,
    ts_b: Timestamp,
) -> (r: KeyOrder)
    ensures
        r == sensor_key_order(
            metric_a.spec_bytes(),
            device_a.spec_bytes(),
            ts_a.unix_nanos(),
            metric_b.spec_bytes(),
            device_b.spec_bytes(),
            ts_b.unix_nanos(),
        ),
{
    let m = compare_bytes(metric_a.as_bytes(), metric_b.as_bytes());
    if m != KeyOrder::Equal {
        return m;
    }
    let d = compare_bytes(device_a.as_bytes(), device_b.as_bytes());
    if d != KeyOrder::Equal {
        return d;
    }
    compare_timestamps(ts_a, ts_b)
}

/// Byte-string comparison is antisymmetric and says `Equal` exactly for
/// equal strings.
pub proof fn lemma_bytes_order_antisymmetric(a: Seq<u8>, b: Seq<u8>)
    ensures
        bytes_order(b, a) == bytes_order(a, b).reversed(),
        bytes_order(a, b) == KeyOrder::Equal <==> a == b,
    decreases a.len(),
{
    if a.len() > 0 && b.len() > 0 && a[0] == b[0] {
        lemma_bytes_order_antisymmetric(a.drop_first(), b.drop_first());
        if a.drop_first() == b.drop_first() {
            assert(a =~= seq![a[0]] + a.drop_first());
            assert(b =~= seq![b[0]] + b.drop_first());
        }
        if a == b {
            assert(a.drop_first() =~= b.drop_first());
        }
    } else if a.len() > 0 && b.len() > 0 {
        assert(a[0] != b[0]);
    } else if a.len() == 0 && b.len() == 0 {
        assert(a =~= b);
    }
}

/// Byte-string comparison is transitive.
pub proof fn lemma_bytes_order_transitive(a: Seq<u8>, b: Seq<u8>, c: Seq<u8>)
    requires
        bytes_order(a, b) == KeyOrder::Less,
        bytes_order(b, c) == KeyOrder::Less,
    ensures
        bytes_order(a, c) == KeyOrder::Less,
    decreases a.len(),
{
    if a.len() > 0 && b.len() > 0 && c.len() > 0 && a[0] == b[0] && b[0] == c[0] {
        lemma_bytes_order_transitive(a.drop_first(), b.drop_first(), c.drop_first());
    }
}

/// The sensor insert order is a total order: comparing the other way round
/// reverses the result, `Equal` means equal keys, and `Less` is transitive.
pub proof fn lemma_sensor_order_total(
    ma: Seq<u8>,
    da: Seq<u8>,
    ta: int,
    mb: Seq<u8>,
    db: Seq<u8>,
    tb: int,
    mc: Seq<u8>,
    dc: Seq<u8>,
    tc: int,
)
    ensures
        sensor_key_order(mb, db, tb, ma, da, ta) == sensor_key_order(ma, da, ta, mb, db, tb).reversed(),
        sensor_key_order(ma, da, ta, mb, db, tb) == KeyOrder::Equal <==> (ma == mb && da == db && ta
            == tb),
        sensor_key_order(ma, da, ta, mb, db, tb) == KeyOrder::Less && sensor_key_order(
            mb,
            db,
            tb,
            mc,
            dc,
            tc,
        ) == KeyOrder::Less ==> sensor_key_order(ma, da, ta, mc, dc, tc) == KeyOrder::Less,
{
    lemma_bytes_order_antisymmetric(ma, mb);
    lemma_bytes_order_antisymmetric(da, db);
    lemma_bytes_order_antisymmetric(mb, mc);
    lemma_bytes_order_antisymmetric(db, dc);
    lemma_bytes_order_antisymmetric(ma, mc);
    lemma_bytes_order_antisymmetric(da, dc);
    if sensor_key_order(ma, da, ta, mb, db, tb) == KeyOrder::Less && sensor_key_order(mb, db, tb, mc, dc, tc)
        == KeyOrder::Less {
        if bytes_order(ma, mb) == KeyOrder::Less && bytes_order(mb, mc) == KeyOrder::Less {
            lemma_bytes_order_transitive(ma, mb, mc);
        }
        if bytes_order(da, db) == KeyOrder::Less && bytes_order(db, dc) == KeyOrder::Less {
            lemma_bytes_order_transitive(da, db, dc);
        }
    }
}

/// The key by which a sensor row is inserted.
pub struct SensorKey {
    pub metric: String,
    pub device_id: String,
    pub ts: Timestamp,
}

/// The insert order of two sensor keys.
#[verifier::opaque]
pub open spec fn key_order(a: SensorKey, b: SensorKey) -> KeyOrder {
    sensor_key_order(
        encode_utf8(a.metric@),
        encode_utf8(a.device_id@),
        a.ts.unix_nanos(),
        encode_utf8(b.metric@),
        encode_utf8(b.device_id@),
        b.ts.unix_nanos(),
    )
}

/// `order` lists every position of `keys` once, by key (metric, device,
/// time), rows with equal keys in arrival order.
pub open spec fn is_insert_order(keys: Seq<SensorKey>, order: Seq<usize>) -> bool {
    &&& order.len() == keys.len()
    &&& forall|k: int| 0 <= k < order.len() ==> #[trigger] order[k] < keys.len()
    &&& forall|k: int, l: int| 0 <= k < l < order.len() ==> #[trigger] order[k] != #[trigger] order[l]
    &&& forall|x: usize| x < keys.len() ==> #[trigger] order.contains(x)
    &&& forall|k: int, l: int|
        0 <= k < l < order.len() ==> key_order(keys[#[trigger] order[k] as int], keys[#[trigger] order[l] as int])
            != KeyOrder::Greater
    &&& forall|k: int, l: int|
        0 <= k < l < order.len() && key_order(keys[#[trigger] order[k] as int], keys[#[trigger] order[l] as int])
            == KeyOrder::Equal ==> order[k] < order[l]
}

proof fn lemma_key_order_facts(a: SensorKey, b: SensorKey, c: SensorKey)
    ensures
        key_order(b, a) == key_order(a, b).reversed(),
        key_order(a, b) != KeyOrder::Greater && key_order(b, c) != KeyOrder::Greater ==> key_order(a, c)
            != KeyOrder::Greater,
        key_order(a, b) == KeyOrder::Equal && key_order(b, c) == KeyOrder::Equal ==> key_order(a, c)
            == KeyOrder::Equal,
        key_order(a, b) == KeyOrder::Equal ==> key_order(a, c) == key_order(b, c),
{
    reveal(key_order);
    let (ma, da, ta) = (encode_utf8(a.metric@), encode_utf8(a.device_id@), a.ts.unix_nanos());
    let (mb, db, tb) = (encode_utf8(b.metric@), encode_utf8(b.device_id@), b.ts.unix_nanos());
    let (mc, dc, tc) = (encode_utf8(c.metric@), encode_utf8(c.device_id@), c.ts.unix_nanos());
    lemma_sensor_order_total(ma, da, ta, mb, db, tb, mc, dc, tc);
    lemma_sensor_order_total(mb, db, tb, mc, dc, tc, ma, da, ta);
    lemma_sensor_order_total(mc, dc, tc, ma, da, ta, mb, db, tb);
    lemma_sensor_order_total(ma, da, ta, mc, dc, tc, mb, db, tb);
}

/// `order` lists the positions below `i` once each, sorted stably by key.
spec fn sorted_prefix(keys: Seq<SensorKey>, order: Seq<usize>, i: nat) -> bool {
    &&& order.len() == i
    &&& forall|k: int| 0 <= k < order.len() ==> #[trigger] order[k] < i
    &&& forall|k: int, l: int| 0 <= k < l < order.len() ==> #[trigger] order[k] != #[trigger] order[l]
    &&& forall|x: usize| x < i ==> #[trigger] order.contains(x)
    &&& forall|k: int, l: int|
        0 <= k < l < order.len() ==> key_order(keys[#[trigger] order[k] as int], keys[#[trigger] order[l] as int])
            != KeyOrder::Greater
    &&& forall|k: int, l: int|
        0 <= k < l < order.len() && key_order(keys[#[trigger] order[k] as int], keys[#[trigger] order[l] as int])
            == KeyOrder::Equal ==> order[k] < order[l]
}

/// Inserting position `i` after the keys not above its own, and before
/// those above it, keeps the order sorted and stable.
proof fn lemma_insert_sorted(keys: Seq<SensorKey>, old_order: Seq<usize>, i: nat, j: int)
    requires
        i < keys.len() <= usize::MAX,
        sorted_prefix(keys, old_order, i),
        0 <= j <= old_order.len(),
        j > 0 ==> key_order(keys[old_order[j - 1] as int], keys[i as int]) != KeyOrder::Greater,
        forall|k: int| j <= k < old_order.len() ==> key_order(keys[#[trigger] old_order[k] as int], keys[i as int])
            == KeyOrder::Greater,
    ensures
        sorted_prefix(keys, old_order.insert(j, i as usize), i + 1),
{
    let o = old_order.insert(j, i as usize);
    assert forall|k: int| 0 <= k < j implies key_order(keys[#[trigger] old_order[k] as int], keys[i as int])
        != KeyOrder::Greater by {
        if k < j - 1 {
            lemma_key_order_facts(keys[old_order[k] as int], keys[old_order[j - 1] as int], keys[i as int]);
        }
    }
    assert forall|k: int| 0 <= k < o.len() implies #[trigger] o[k] < i + 1 by {
        if k < j {
            assert(o[k] == old_order[k]);
        } else if k > j {
            assert(o[k] == old_order[k - 1]);
        }
    }
    assert forall|k: int, l: int| 0 <= k < l < o.len() implies #[trigger] o[k] != #[trigger] o[l] by {
        if k != j && l != j {
            let k0 = if k < j { k } else { k - 1 };
            let l0 = if l < j { l } else { l - 1 };
            assert(o[k] == old_order[k0] && o[l] == old_order[l0]);
        } else if k == j {
            assert(o[k] == i && o[l] == old_order[l - 1]);
            assert(old_order[l - 1] < i);
        } else {
            assert(o[l] == i && o[k] == old_order[k]);
            assert(old_order[k] < i);
        }
    }
    assert forall|x: usize| x < i + 1 implies #[trigger] o.contains(x) by {
        if x < i {
            assert(old_order.contains(x));
            let k = choose|k: int| 0 <= k < old_order.len() && old_order[k] == x;
            if k < j {
                assert(o[k] == x);
            } else {
                assert(o[k + 1] == x);
            }
        } else {
            assert(o[j] == i);
        }
    }
    assert forall|k: int, l: int| 0 <= k < l < o.len() implies key_order(
        keys[#[trigger] o[k] as int],
        keys[#[trigger] o[l] as int],
    ) != KeyOrder::Greater && (key_order(keys[o[k] as int], keys[o[l] as int]) == KeyOrder::Equal ==> o[k]
        < o[l]) by {
        if k != j && l != j {
            let k0 = if k < j { k } else { k - 1 };
            let l0 = if l < j { l } else { l - 1 };
            assert(o[k] == old_order[k0] && o[l] == old_order[l0]);
            assert(k0 < l0);
            assert(key_order(keys[old_order[k0] as int], keys[old_order[l0] as int]) != KeyOrder::Greater);
        } else if k == j {
            assert(o[k] == i && o[l] == old_order[l - 1]);
            assert(key_order(keys[old_order[l - 1] as int], keys[i as int]) == KeyOrder::Greater);
            lemma_key_order_facts(keys[i as int], keys[old_order[l - 1] as int], keys[i as int]);
            assert(key_order(keys[i as int], keys[old_order[l - 1] as int]) == KeyOrder::Less);
        } else {
            assert(o[l] == i && o[k] == old_order[k]);
            assert(old_order[k] < i);
            assert(key_order(keys[old_order[k] as int], keys[i as int]) != KeyOrder::Greater);
        }
    }
}

/// The order in which a flush inserts sensor rows: their positions sorted
/// by (metric, device, time), a stable sort.
pub fn insert_order(keys: &Vec<SensorKey>) -> (r: Vec<usize>)
    ensures
        is_insert_order(keys@, r@),
{
    let n = keys.len();
    let mut order: Vec<usize> = Vec::new();
    let mut i: usize = 0;
    while i < n
        invariant
            n == keys@.len(),
            i <= n,
            sorted_prefix(keys@, order@, i as nat),
        decreases n - i,
    {
        let mut j: usize = order.len();
        while j > 0 && compare_sensor_keys(
            keys[order[j - 1]].metric.as_str(),
            keys[order[j - 1]].device_id.as_str(),
            keys[order[j - 1]].ts,
            keys[i].metric.as_str(),
            keys[i].device_id.as_str(),
            keys[i].ts,
        ) == KeyOrder::Greater
            invariant
                n == keys@.len(),
                i < n,
                j <= order@.len(),
                sorted_prefix(keys@, order@, i as nat),
                forall|k: int| j <= k < order@.len() ==> key_order(keys@[#[trigger] order@[k] as int], keys@[i as int])
                    == KeyOrder::Greater,
            decreases j,
        {
            proof {
                reveal(key_order);
            }
            j = j - 1;
        }
        proof {
            reveal(key_order);
            lemma_insert_sorted(keys@, order@, i as nat, j as int);
        }
        order.insert(j, i);
        i = i + 1;
    }
    order
}

// ---------------------------------------------------------------------------
// Insert retries
// ---------------------------------------------------------------------------

/// How many times an insert is attempted before its rows are dropped.
pub const INSERT_RETRIES: u32 = 3;

/// What follows an insert attempt.
#[derive(Debug, Clone, Copy, PartialEq, Eq, Structural)]
pub enum RetryStep {
    /// The rows are in; count them as inserted.
    Inserted,
    /// Count an insert error, sleep `secs`, then make attempt `next_attempt`.
    SleepThenRetry { secs: u64, next_attempt: u32 },
    /// Count an insert error, sleep `secs`, then drop the rows (the
    /// accepted data-loss policy) and count them as dropped.
    SleepThenDrop { secs: u64 },
}

/// The pause after failed attempt `attempt`: 1 s, 2 s, 4 s, ...
pub open spec fn backoff_after_attempt(attempt: nat) -> nat
    decreases attempt,
{
    if attempt <= 1 { 1 } else { 2 * backoff_after_attempt((attempt - 1) as nat) }
}

/// Bounded retries with exponential backoff.
pub open spec fn retry_step_view(attempt: u32, succeeded: bool) -> RetryStep {
    if succeeded {
        RetryStep::Inserted
    } else if attempt < INSERT_RETRIES {
        RetryStep::SleepThenRetry {
            secs: backoff_after_attempt(attempt as nat) as u64,
            next_attempt: (attempt + 1) as u32,
        }
    } else {
        RetryStep::SleepThenDrop { secs: backoff_after_attempt(attempt as nat) as u64 }
    }
}

/// Decides what follows insert attempt `attempt` (counted from 1).
pub fn retry_step(attempt: u32, succeeded: bool) -> (r: RetryStep)
    requires
        1 <= attempt <= INSERT_RETRIES,
    ensures
        r == retry_step_view(attempt, succeeded),
{
    if succeeded {
        return RetryStep::Inserted;
    }
    let secs: u64 = if attempt == 1 {
        1
    } else if attempt == 2 {
        2
    } else {
        4
    };
    proof {
        reveal_with_fuel(backoff_after_attempt, 3);
    }
    if attempt < INSERT_RETRIES {
        RetryStep::SleepThenRetry { secs, next_attempt: attempt + 1 }
    } else {
        RetryStep::SleepThenDrop { secs }
    }
}

/// An insert that keeps failing is attempted exactly `INSERT_RETRIES`
/// times, pausing 1, 2 and 4 seconds, before its rows are dropped.
pub proof fn lemma_retries_exhaust()
    ensures
        retry_step_view(1, false) == (RetryStep::SleepThenRetry { secs: 1, next_attempt: 2 }),
        retry_step_view(2, false) == (RetryStep::SleepThenRetry { secs: 2, next_attempt: 3 }),
        retry_step_view(3, false) == (RetryStep::SleepThenDrop { secs: 4 }),
        forall|a: u32| 1 <= a <= INSERT_RETRIES ==> #[trigger] retry_step_view(a, true) == RetryStep::Inserted,
{
    reveal_with_fuel(backoff_after_attempt, 3);
}

/// The steps taken for one batch from insert attempt `attempt` on, when the
/// first `failures` attempts fail and every later one succeeds.
pub open spec fn retry_trace(attempt: u32, failures: nat) -> Seq<RetryStep>
    decreases 4 - attempt,
{
    let step = retry_step_view(attempt, attempt > failures);
    match step {
        RetryStep::SleepThenRetry { next_attempt, .. } => if attempt < INSERT_RETRIES {
            seq![step] + retry_trace(next_attempt, failures)
        } else {
            seq![step]
        },
        _ => seq![step],
    }
}

/// A batch whose first `failures` inserts fail is attempted
/// `min(failures + 1, 3)` times; after failed attempt `a` the ingester
/// sleeps `2^(a-1)` seconds; the rows are inserted when fewer than three
/// attempts fail, and dropped after the third failure. So the batch adds
/// `min(failures, 3)` insert errors, and its rows are counted once, as
/// inserted or as dropped.
pub proof fn lemma_retry_trace(failures: nat)
    ensures
        retry_trace(1, failures).len() == if failures < 3 {
            failures + 1
        } else {
            3
        },
        forall|k: int|
            0 <= k < retry_trace(1, failures).len() - 1 ==> #[trigger] retry_trace(1, failures)[k]
                == (RetryStep::SleepThenRetry {
                secs: pow2(k as nat) as u64,
                next_attempt: (k + 2) as u32,
            }),
        failures < 3 ==> retry_trace(1, failures).last() == RetryStep::Inserted,
        failures >= 3 ==> retry_trace(1, failures).last() == (RetryStep::SleepThenDrop {
            secs: pow2(2) as u64,
        }),
{
    reveal_with_fuel(retry_trace, 4);
    reveal_with_fuel(backoff_after_attempt, 3);
    lemma2_to64();
    let t = retry_trace(1, failures);
    if failures == 0 {
        assert(t =~= seq![RetryStep::Inserted]);
    } else if failures == 1 {
        assert(t =~= seq![RetryStep::SleepThenRetry { secs: 1, next_attempt: 2 }, RetryStep::Inserted]);
    } else if failures == 2 {
        assert(t =~= seq![
            RetryStep::SleepThenRetry { secs: 1, next_attempt: 2 },
            RetryStep::SleepThenRetry { secs: 2, next_attempt: 3 },
            RetryStep::Inserted,
        ]);
    } else {
        assert(t =~= seq![
            RetryStep::SleepThenRetry { secs: 1, next_attempt: 2 },
            RetryStep::SleepThenRetry { secs: 2, next_attempt: 3 },
            RetryStep::SleepThenDrop { secs: 4 },
        ]);
    }
}

// ---------------------------------------------------------------------------
// MQTT reconnects
// ---------------------------------------------------------------------------

/// The first pause after a connection error, and the pause after a
/// successful connection.
pub const INITIAL_BACKOFF_SECS: u64 = 1;

/// The longest pause between reconnect attempts.
pub const MAX_BACKOFF_SECS: u64 = 60;

/// What the MQTT event loop reported.
#[derive(Debug, Clone, Copy, PartialEq, Eq, Structural)]
pub enum MqttEvent {
    /// The broker accepted the connection.
    ConnAck,
    /// A message arrived.
    Publish,
    /// Any other packet.
    Other,
    /// The connection failed; the next poll reconnects.
    Error,
}

/// What the MQTT loop does about an event.
#[derive(Debug, Clone, Copy, PartialEq, Eq, Structural)]
pub enum MqttAction {
    /// (Re)subscribe to `sensors/#`.
    Subscribe,
    /// Count, parse and forward the message.
    HandlePublish,
    Ignore,
    /// Count a reconnect and sleep this long before polling again.
    SleepSecs(u64),
}

/// Exponential backoff: a connection resets the pause to one second, an
/// error sleeps the current pause and doubles it up to one minute.
pub open spec fn mqtt_step_view(backoff_secs: u64, event: MqttEvent) -> (u64, MqttAction) {
    match event {
        MqttEvent::ConnAck => (INITIAL_BACKOFF_SECS, MqttAction::Subscribe),
        MqttEvent::Publish => (backoff_secs, MqttAction::HandlePublish),
        MqttEvent::Other => (backoff_secs, MqttAction::Ignore),
        MqttEvent::Error => (
            if 2 * backoff_secs < MAX_BACKOFF_SECS { (2 * backoff_secs) as u64 } else { MAX_BACKOFF_SECS },
            MqttAction::SleepSecs(backoff_secs),
        ),
    }
}

/// The next backoff and the action for an MQTT event.
pub fn mqtt_step(backoff_secs: u64, event: MqttEvent) -> (r: (u64, MqttAction))
    requires
        backoff_secs <= u64::MAX / 2,
    ensures
        r == mqtt_step_view(backoff_secs, event),
{
    match event {
        MqttEvent::ConnAck => (INITIAL_BACKOFF_SECS, MqttAction::Subscribe),
        MqttEvent::Publish => (backoff_secs, MqttAction::HandlePublish),
        MqttEvent::Other => (backoff_secs, MqttAction::Ignore),
        MqttEvent::Error => {
            let doubled = backoff_secs * 2;
            (
                if doubled < MAX_BACKOFF_SECS { doubled } else { MAX_BACKOFF_SECS },
                MqttAction::SleepSecs(backoff_secs),
            )
        },
    }
}

/// Starting from one second, the pause always stays between one second and
/// one minute, whatever the broker does.
pub proof fn lemma_backoff_bounded(backoff_secs: u64, event: MqttEvent)
    requires
        INITIAL_BACKOFF_SECS <= backoff_secs <= MAX_BACKOFF_SECS,
    ensures
        INITIAL_BACKOFF_SECS <= mqtt_step_view(backoff_secs, event).0 <= MAX_BACKOFF_SECS,
        mqtt_step_view(backoff_secs, event).1 matches MqttAction::SleepSecs(s) ==> s
            <= MAX_BACKOFF_SECS,
{
}

/// The pause before the `n`-th connection error since the last successful
/// connection (counted from 1): `2^(n-1)` seconds, at most a minute.
pub open spec fn reconnect_pause(n: nat) -> nat {
    if pow2((n - 1) as nat) < MAX_BACKOFF_SECS {
        pow2((n - 1) as nat)
    } else {
        MAX_BACKOFF_SECS as nat
    }
}

/// The pause held after the MQTT loop handled `events` in order, starting
/// from `backoff_secs`.
pub open spec fn backoff_after(backoff_secs: u64, events: Seq<MqttEvent>) -> u64
    decreases events.len(),
{
    if events.len() == 0 {
        backoff_secs
    } else {
        mqtt_step_view(backoff_after(backoff_secs, events.drop_last()), events.last()).0
    }
}

/// How many connection errors `events` holds after its last `ConnAck` (or
/// from its start, when it holds none).
pub open spec fn errors_since_connect(events: Seq<MqttEvent>) -> nat
    decreases events.len(),
{
    if events.len() == 0 {
        0
    } else if events.last() == MqttEvent::ConnAck {
        0
    } else if events.last() == MqttEvent::Error {
        errors_since_connect(events.drop_last()) + 1
    } else {
        errors_since_connect(events.drop_last())
    }
}

/// Starting from one second, whatever the broker reported before, the
/// `n`-th connection error since the last connection (or the start) makes
/// the loop sleep `min(2^(n-1), 60)` seconds, and a connection makes it
/// subscribe again and resets the pause to one second.
pub proof fn lemma_reconnect_backoff(events: Seq<MqttEvent>)
    ensures
        backoff_after(INITIAL_BACKOFF_SECS, events) == reconnect_pause(
            errors_since_connect(events) + 1,
        ),
        mqtt_step_view(backoff_after(INITIAL_BACKOFF_SECS, events), MqttEvent::Error).1
            == MqttAction::SleepSecs(
            reconnect_pause(errors_since_connect(events.push(MqttEvent::Error))) as u64,
        ),
        mqtt_step_view(backoff_after(INITIAL_BACKOFF_SECS, events), MqttEvent::ConnAck) == (
        INITIAL_BACKOFF_SECS,
        MqttAction::Subscribe,
        ),
    decreases events.len(),
{
    lemma2_to64();
    let p = events.push(MqttEvent::Error);
    assert(p.drop_last() =~= events);
    if events.len() > 0 {
        let prev = events.drop_last();
        lemma_reconnect_backoff(prev);
        let k = errors_since_connect(prev);
        if events.last() == MqttEvent::Error {
            lemma_pow2_unfold(k + 1);
            if pow2(k) >= 60 {
                assert(pow2(k + 1) >= 60);
            }
        }
    }
}

/// Every message that arrives is handled (counted, parsed and forwarded),
/// whatever the pause is, and neither a message nor any other packet
/// changes the pause.
pub proof fn lemma_publish_always_handled(backoff_secs: u64)
    ensures
        mqtt_step_view(backoff_secs, MqttEvent::Publish).1 == MqttAction::HandlePublish,
        mqtt_step_view(backoff_secs, MqttEvent::Publish).0 == backoff_secs,
        mqtt_step_view(backoff_secs, MqttEvent::Other).0 == backoff_secs,
        mqtt_step_view(backoff_secs, MqttEvent::Other).1 == MqttAction::Ignore,
{
}

/// Over any run of events, a message or other packet leaves the pause as
/// the earlier events set it.
pub proof fn lemma_messages_keep_backoff(backoff_secs: u64, events: Seq<MqttEvent>, e: MqttEvent)
    requires
        e == MqttEvent::Publish || e == MqttEvent::Other,
    ensures
        backoff_after(backoff_secs, events.push(e)) == backoff_after(backoff_secs, events),
{
    assert(events.push(e).drop_last() =~= events);
}

} // verus!
