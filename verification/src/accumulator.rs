//! The in-memory aggregation table.
//!
//! The accumulator quantizes each report's timestamp to the bucket it
//! falls in, merges reports that share a bucket key by adding their
//! amounts, and remembers the quantized timestamp of the first report
//! since the last drain so that flush timing can be decided.
//!
//! Timestamps are whole seconds since the Unix epoch; instants before
//! the epoch are not representable.

use vstd::prelude::*;

use crate::accountant::UsageUnit;

verus! {

/// The bucket key: reports merge iff all four fields are equal after
/// timestamp quantization.
#[derive(Clone, Debug)]
pub struct UsageKey {
    pub quantized_timestamp: u64,
    pub resource_id: String,
    pub app_feature: String,
    pub unit: UsageUnit,
}

/// The mathematical image of a bucket key.
pub ghost struct KeyView {
    pub quantized_timestamp: u64,
    pub resource_id: Seq<char>,
    pub app_feature: Seq<char>,
    pub unit: UsageUnit,
}

/// The key with the given fields.
pub open spec fn key_view(
    quantized_timestamp: u64,
    resource_id: Seq<char>,
    app_feature: Seq<char>,
    unit: UsageUnit,
) -> KeyView {
    KeyView { quantized_timestamp, resource_id, app_feature, unit }
}

impl View for UsageKey {
    type V = KeyView;

    open spec fn view(&self) -> KeyView {
        KeyView {
            quantized_timestamp: self.quantized_timestamp,
            resource_id: self.resource_id@,
            app_feature: self.app_feature@,
            unit: self.unit,
        }
    }
}

/// One usage report, as the accumulator sees it: a raw timestamp in
/// seconds, the identifying fields, and the amount.
pub ghost struct ReportView {
    pub time: u64,
    pub resource_id: Seq<char>,
    pub app_feature: Seq<char>,
    pub amount: u64,
    pub unit: UsageUnit,
}

/// The report with the given fields.
pub open spec fn report_view(
    time: u64,
    resource_id: Seq<char>,
    app_feature: Seq<char>,
    amount: u64,
    unit: UsageUnit,
) -> ReportView {
    ReportView { time, resource_id, app_feature, amount, unit }
}

/// The mathematical state of an accumulator: the aggregation table as
/// a map, the bucket width, and the epoch marker (the quantized
/// timestamp of the first report since the last drain, if any).
pub ghost struct AccumModel {
    pub table: Map<KeyView, u64>,
    pub granularity: u64,
    pub first: Option<u64>,
}

/// Truncates `t` down to the start of its bucket of width `g`. A zero
/// width disables quantization: every timestamp is its own bucket.
pub open spec fn quantize_spec(t: u64, g: u64) -> u64 {
    if g == 0 {
        t
    } else {
        (t - (t % g)) as u64
    }
}

/// Addition that stops at the largest representable amount instead of
/// wrapping.
pub open spec fn sat_add_spec(a: u64, b: u64) -> u64 {
    if a + b > u64::MAX {
        u64::MAX
    } else {
        (a + b) as u64
    }
}

/// The bucket key a report lands in, given the bucket width.
pub open spec fn report_key(r: ReportView, g: u64) -> KeyView {
    KeyView {
        quantized_timestamp: quantize_spec(r.time, g),
        resource_id: r.resource_id,
        app_feature: r.app_feature,
        unit: r.unit,
    }
}

/// Adds `amount` to the entry of `k`, creating the entry if absent.
pub open spec fn bump(table: Map<KeyView, u64>, k: KeyView, amount: u64) -> Map<KeyView, u64> {
    if table.contains_key(k) {
        table.insert(k, sat_add_spec(table[k], amount))
    } else {
        table.insert(k, amount)
    }
}

/// What one `record` call does to the accumulator state.
pub open spec fn record_step(m: AccumModel, r: ReportView) -> AccumModel {
    AccumModel {
        table: bump(m.table, report_key(r, m.granularity), r.amount),
        granularity: m.granularity,
        first: if m.first is Some {
            m.first
        } else {
            Some(quantize_spec(r.time, m.granularity))
        },
    }
}

/// What `flush` does to the accumulator state: the table and the
/// epoch marker are cleared as one step.
pub open spec fn flush_step(m: AccumModel) -> AccumModel {
    AccumModel { table: Map::empty(), granularity: m.granularity, first: None }
}

/// A fresh accumulator state with bucket width `g`.
pub open spec fn model_new(g: u64) -> AccumModel {
    AccumModel { table: Map::empty(), granularity: g, first: None }
}

/// Whether a flush is due at `current_time`: a first report exists and
/// at least one bucket width has passed since it.
pub open spec fn should_flush_spec(m: AccumModel, current_time: u64) -> bool {
    match m.first {
        Some(f) => current_time >= f + m.granularity,
        None => false,
    }
}

/// The table that a sequence of entries denotes, later entries taking
/// precedence.
pub open spec fn table_of(s: Seq<(KeyView, u64)>) -> Map<KeyView, u64>
    decreases s.len(),
{
    if s.len() == 0 {
        Map::empty()
    } else {
        table_of(s.drop_last()).insert(s.last().0, s.last().1)
    }
}

/// No two entries share a key.
pub open spec fn unique_keys(s: Seq<(KeyView, u64)>) -> bool {
    forall|i: int, j: int| 0 <= i < j < s.len() ==> s[i].0 != s[j].0
}

/// What one `record` call does to the entry sequence: the matching
/// entry is updated in place, or a new entry is appended.
pub open spec fn contents_step(s: Seq<(KeyView, u64)>, r: ReportView, g: u64) -> Seq<
    (KeyView, u64),
> {
    let k = report_key(r, g);
    if exists|i: int| 0 <= i < s.len() && s[i].0 == k {
        let i = choose|i: int| 0 <= i < s.len() && s[i].0 == k;
        s.update(i, (k, sat_add_spec(s[i].1, r.amount)))
    } else {
        s.push((k, r.amount))
    }
}

pub struct UsageAccumulator {
    entries: Vec<(UsageKey, u64)>,
    granularity: u64,
    first_timestamp: Option<u64>,
}

impl View for UsageAccumulator {
    type V = AccumModel;

    closed spec fn view(&self) -> AccumModel {
        AccumModel {
            table: table_of(self.contents()),
            granularity: self.granularity,
            first: self.first_timestamp,
        }
    }
}

impl UsageAccumulator {
    /// The aggregation table as the sequence of its entries, in
    /// insertion order.
    pub closed spec fn contents(&self) -> Seq<(KeyView, u64)> {
        self.entries@.map_values(|e: (UsageKey, u64)| (e.0@, e.1))
    }

    /// Well-formedness: entry keys are unique, and the epoch marker is
    /// set iff the table has had an insertion since the last drain.
    pub closed spec fn wf(&self) -> bool {
        &&& unique_keys(self.contents())
        &&& (self.first_timestamp is Some <==> self.entries.len() > 0)
    }

    /// Constructs an empty accumulator. The bucket width defaults to
    /// 60 seconds when none is given.
    pub fn new(granularity: Option<u64>) -> (r: Self)
        ensures
            r.wf(),
            r@ == model_new(match granularity {
                Some(g) => g,
                None => 60u64,
            }),
            r.contents() == Seq::<(KeyView, u64)>::empty(),
    {
        let g = match granularity {
            Some(g) => g,
            None => 60,
        };
        let r = UsageAccumulator { entries: Vec::new(), granularity: g, first_timestamp: None };
        proof {
            assert(r.contents() =~= Seq::<(KeyView, u64)>::empty());
            assert(r@.table =~= Map::<KeyView, u64>::empty());
        }
        r
    }

    /// Records an amount of usage for a resource, feature and
    /// timestamp. The timestamp is quantized to its bucket; the amount
    /// is added to the bucket's entry, which is created if absent. The
    /// first report since the last drain sets the epoch marker.
    pub fn record(
        &mut self,
        usage_time: u64,
        resource_id: &str,
        app_feature: &str,
        amount: u64,
        usage_unit: UsageUnit,
    )
        requires
            old(self).wf(),
        ensures
            final(self).wf(),
            final(self)@ == record_step(
                old(self)@,
                report_view(usage_time, resource_id@, app_feature@, amount, usage_unit),
            ),
            final(self).contents() == contents_step(
                old(self).contents(),
                report_view(usage_time, resource_id@, app_feature@, amount, usage_unit),
                old(self)@.granularity,
            ),
    {
        let ghost rep = report_view(usage_time, resource_id@, app_feature@, amount, usage_unit);
        let quantized_timestamp = quantize(usage_time, self.granularity);
        let ghost k = report_key(rep, self.granularity);

        if self.first_timestamp.is_none() {
            self.first_timestamp = Some(quantized_timestamp);
        }
        let ghost pre = self.contents();

        let found = find_entry(&self.entries, quantized_timestamp, resource_id, app_feature, usage_unit);
        match found {
            Some(i) => {
                let merged = sat_add(self.entries[i].1, amount);
                self.entries[i].1 = merged;
                proof {
                    assert(self.contents() =~= pre.update(i as int, (k, merged)));
                    lemma_table_of_index(pre, i as int);
                    lemma_table_of_update(pre, i as int, merged);
                    assert(self.contents() == contents_step(pre, rep, self@.granularity)) by {
                        let wit = choose|w: int| 0 <= w < pre.len() && pre[w].0 == k;
                        assert(pre[i as int].0 == k);
                        assert(wit == i as int);
                    }
                    assert(unique_keys(self.contents())) by {
                        assert(forall|j: int|
                            0 <= j < pre.len() ==> self.contents()[j].0 == pre[j].0);
                    }
                    assert(self@.table =~= bump(table_of(pre), k, amount));
                }
            },
            None => {
                proof {
                    lemma_table_of_not_found(pre, k);
                }
                self.entries.push(
                    (
                        UsageKey {
                            quantized_timestamp,
                            resource_id: resource_id.to_owned(),
                            app_feature: app_feature.to_owned(),
                            unit: usage_unit,
                        },
                        amount,
                    ),
                );
                proof {
                    assert(self.contents() =~= pre.push((k, amount)));
                    assert(self.contents().drop_last() =~= pre);
                    assert(self@.table =~= bump(table_of(pre), k, amount));
                }
            },
        }
    }

    /// Whether the batch is ready to be flushed: a first report exists
    /// and at least one bucket width has passed since its quantized
    /// timestamp. Side-effect free.
    pub fn should_flush(&self, current_time: u64) -> (r: bool)
        ensures
            r == should_flush_spec(self@, current_time),
    {
        match self.first_timestamp {
            None => false,
            Some(first) => current_time >= first && current_time - first >= self.granularity,
        }
    }

    /// Atomically removes and returns every entry of the table, and
    /// clears the epoch marker. Flushing an empty accumulator is legal
    /// and returns an empty vector.
    pub fn flush(&mut self) -> (r: Vec<(UsageKey, u64)>)
        requires
            old(self).wf(),
        ensures
            final(self).wf(),
            final(self)@ == flush_step(old(self)@),
            final(self).contents() == Seq::<(KeyView, u64)>::empty(),
            r@.map_values(|e: (UsageKey, u64)| (e.0@, e.1)) == old(self).contents(),
            unique_keys(r@.map_values(|e: (UsageKey, u64)| (e.0@, e.1))),
    {
        self.first_timestamp = None;
        let mut drained: Vec<(UsageKey, u64)> = Vec::new();
        core::mem::swap(&mut self.entries, &mut drained);
        proof {
            assert(self.contents() =~= Seq::<(KeyView, u64)>::empty());
            assert(self@.table =~= Map::<KeyView, u64>::empty());
        }
        drained
    }
}

/// Truncates `t` down to the start of its bucket of width `g`; `g`
/// zero means no quantization.
pub fn quantize(t: u64, g: u64) -> (r: u64)
    ensures
        r == quantize_spec(t, g),
{
    if g == 0 {
        t
    } else {
        let m = t % g;
        proof {
            assert(m <= t) by (nonlinear_arith)
                requires
                    g > 0,
                    m == t % g,
            ;
        }
        t - m
    }
}

/// Addition that stops at `u64::MAX` instead of wrapping.
fn sat_add(a: u64, b: u64) -> (r: u64)
    ensures
        r == sat_add_spec(a, b),
{
    if a > u64::MAX - b {
        u64::MAX
    } else {
        a + b
    }
}

/// Equality of a string slice and an owned string, by contents.
fn str_eq_string(a: &str, b: &String) -> (r: bool)
    ensures
        r == (a@ == b@),
{
    a.to_owned() == *b
}

/// The index of the entry whose key has the given fields, if any.
fn find_entry(
    entries: &Vec<(UsageKey, u64)>,
    quantized_timestamp: u64,
    resource_id: &str,
    app_feature: &str,
    unit: UsageUnit,
) -> (r: Option<usize>)
    ensures
        match r {
            Some(i) => i < entries@.len() && entries@[i as int].0@ == key_view(
                quantized_timestamp,
                resource_id@,
                app_feature@,
                unit,
            ),
            None => forall|j: int|
                0 <= j < entries@.len() ==> entries@[j].0@ != key_view(
                    quantized_timestamp,
                    resource_id@,
                    app_feature@,
                    unit,
                ),
        },
{
    let n = entries.len();
    let mut i: usize = 0;
    while i < n
        invariant
            n == entries@.len(),
            i <= n,
            forall|j: int|
                0 <= j < i ==> entries@[j].0@ != key_view(
                    quantized_timestamp,
                    resource_id@,
                    app_feature@,
                    unit,
                ),
        decreases n - i,
    {
        let hit = entries[i].0.quantized_timestamp == quantized_timestamp
            && entries[i].0.unit == unit
            && str_eq_string(resource_id, &entries[i].0.resource_id)
            && str_eq_string(app_feature, &entries[i].0.app_feature);
        if hit {
            return Some(i);
        }
        i += 1;
    }
    None
}

/// The accumulator state after a sequence of reports, starting from a
/// fresh accumulator of bucket width `g`.
pub open spec fn model_after(ops: Seq<ReportView>, g: u64) -> AccumModel
    decreases ops.len(),
{
    if ops.len() == 0 {
        model_new(g)
    } else {
        record_step(model_after(ops.drop_last(), g), ops.last())
    }
}

/// The exact sum of the amounts of the reports that land in bucket `k`.
pub open spec fn sum_for_key(ops: Seq<ReportView>, g: u64, k: KeyView) -> int
    decreases ops.len(),
{
    if ops.len() == 0 {
        0
    } else {
        sum_for_key(ops.drop_last(), g, k) + if report_key(ops.last(), g) == k {
            ops.last().amount as int
        } else {
            0
        }
    }
}

proof fn lemma_model_after_granularity(ops: Seq<ReportView>, g: u64)
    ensures
        model_after(ops, g).granularity == g,
    decreases ops.len(),
{
    if ops.len() > 0 {
        lemma_model_after_granularity(ops.drop_last(), g);
    }
}

proof fn lemma_sum_for_key_nonneg(ops: Seq<ReportView>, g: u64, k: KeyView)
    ensures
        sum_for_key(ops, g, k) >= 0,
    decreases ops.len(),
{
    if ops.len() > 0 {
        lemma_sum_for_key_nonneg(ops.drop_last(), g, k);
    }
}

proof fn lemma_sum_for_key_absent(ops: Seq<ReportView>, g: u64, k: KeyView)
    requires
        forall|i: int| 0 <= i < ops.len() ==> report_key(ops[i], g) != k,
    ensures
        sum_for_key(ops, g, k) == 0,
    decreases ops.len(),
{
    if ops.len() > 0 {
        assert(forall|i: int|
            0 <= i < ops.len() - 1 ==> report_key(#[trigger] ops.drop_last()[i], g) != k);
        lemma_sum_for_key_absent(ops.drop_last(), g, k);
        assert(report_key(ops.last(), g) != k);
    }
}

/// Merge correctness: for every sequence of reports, the bucket of key
/// `k` exists iff some report landed in it, and then its amount is the
/// exact sum of the amounts of the reports that landed in it, provided
/// that sum is representable.
pub proof fn lemma_merge_correctness(ops: Seq<ReportView>, g: u64, k: KeyView)
    requires
        sum_for_key(ops, g, k) <= u64::MAX,
    ensures
        model_after(ops, g).table.contains_key(k) <==> exists|i: int|
            0 <= i < ops.len() && report_key(#[trigger] ops[i], g) == k,
        model_after(ops, g).table.contains_key(k) ==> model_after(ops, g).table[k] as int
            == sum_for_key(ops, g, k),
    decreases ops.len(),
{
    if ops.len() == 0 {
    } else {
        let prefix = ops.drop_last();
        let lastop = ops.last();
        let klast = report_key(lastop, g);
        lemma_sum_for_key_nonneg(prefix, g, k);
        if klast == k {
            assert(sum_for_key(prefix, g, k) <= u64::MAX);
        }
        lemma_merge_correctness(prefix, g, k);
        lemma_model_after_granularity(prefix, g);
        let m = model_after(prefix, g);
        let m2 = model_after(ops, g);
        assert(m2 == record_step(m, lastop));
        assert(m.granularity == g);
        assert(m2.table == bump(m.table, klast, lastop.amount));
        assert(forall|i: int| 0 <= i < prefix.len() ==> #[trigger] prefix[i] == ops[i]);
        if klast == k {
            assert(m2.table.contains_key(k));
            assert(report_key(ops[ops.len() - 1], g) == k);
            if m.table.contains_key(k) {
                assert(m.table[k] as int == sum_for_key(prefix, g, k));
                assert(sum_for_key(ops, g, k) == sum_for_key(prefix, g, k) + lastop.amount);
                assert(m2.table[k] == sat_add_spec(m.table[k], lastop.amount));
            } else {
                assert(forall|i: int|
                    0 <= i < prefix.len() ==> report_key(#[trigger] prefix[i], g) != k);
                lemma_sum_for_key_absent(prefix, g, k);
                assert(m2.table[k] == lastop.amount);
            }
        } else {
            assert(m2.table == bump(m.table, klast, lastop.amount));
            assert(m2.table.contains_key(k) == m.table.contains_key(k));
            if m.table.contains_key(k) {
                assert(m2.table[k] == m.table[k]);
            }
            assert((exists|i: int| 0 <= i < ops.len() && report_key(#[trigger] ops[i], g) == k)
                <==> (exists|i: int|
                0 <= i < prefix.len() && report_key(#[trigger] prefix[i], g) == k)) by {
                if exists|i: int| 0 <= i < ops.len() && report_key(#[trigger] ops[i], g) == k {
                    let i = choose|i: int|
                        0 <= i < ops.len() && report_key(#[trigger] ops[i], g) == k;
                    assert(i < ops.len() - 1);
                    assert(report_key(prefix[i], g) == k);
                }
            }
        }
    }
}

/// Bucket separation: two raw timestamps that fall in different
/// quantization windows of width `g` are truncated to different bucket
/// starts.
pub proof fn lemma_bucket_separation(t1: u64, t2: u64, g: u64)
    requires
        g > 0,
        t1 as int / g as int != t2 as int / g as int,
    ensures
        quantize_spec(t1, g) != quantize_spec(t2, g),
{
    let gi = g as int;
    let d1 = t1 as int / gi;
    let d2 = t2 as int / gi;
    vstd::arithmetic::div_mod::lemma_fundamental_div_mod(t1 as int, gi);
    vstd::arithmetic::div_mod::lemma_fundamental_div_mod(t2 as int, gi);
    assert(quantize_spec(t1, g) as int == gi * d1);
    assert(quantize_spec(t2, g) as int == gi * d2);
    assert(gi * d1 != gi * d2) by (nonlinear_arith)
        requires
            gi > 0,
            d1 != d2,
    ;
}

/// Bucket separation, at the key level: two reports whose raw
/// timestamps fall in different quantization windows never share a
/// bucket key, even if all other fields match.
pub proof fn lemma_bucket_separation_keys(r1: ReportView, r2: ReportView, g: u64)
    requires
        g > 0,
        r1.time as int / g as int != r2.time as int / g as int,
    ensures
        report_key(r1, g) != report_key(r2, g),
{
    lemma_bucket_separation(r1.time, r2.time, g);
    assert(report_key(r1, g).quantized_timestamp != report_key(r2, g).quantized_timestamp);
}

/// Idempotent empty flush: a drain clears the table and the marker,
/// and draining again without an intervening report yields the same
/// cleared state.
pub proof fn lemma_idempotent_empty_flush(m: AccumModel)
    ensures
        flush_step(m).table == Map::<KeyView, u64>::empty(),
        flush_step(m).first is None,
        flush_step(flush_step(m)) == flush_step(m),
{
}

/// Drain atomicity: a flush empties the table and clears the marker as
/// one step, and the next report starts a fresh epoch from its own
/// quantized timestamp, independent of the epoch before the flush.
pub proof fn lemma_drain_atomicity(m: AccumModel, r: ReportView)
    ensures
        flush_step(m).table == Map::<KeyView, u64>::empty(),
        flush_step(m).first is None,
        record_step(flush_step(m), r).first == Some(quantize_spec(r.time, m.granularity)),
{
}

/// With quantization disabled (zero bucket width), every raw timestamp
/// is its own bucket: a report's key keeps its raw time, and reports at
/// distinct raw times never share a key.
pub proof fn lemma_zero_granularity_buckets(r1: ReportView, r2: ReportView)
    ensures
        report_key(r1, 0).quantized_timestamp == r1.time,
        r1.time != r2.time ==> report_key(r1, 0) != report_key(r2, 0),
{
    assert(r1.time != r2.time ==> report_key(r1, 0).quantized_timestamp != report_key(
        r2,
        0,
    ).quantized_timestamp);
}

/// A quantized timestamp is an exact multiple of the bucket width, and
/// lies at most one width below the raw timestamp.
pub proof fn lemma_quantize_properties(t: u64, g: u64)
    requires
        g > 0,
    ensures
        quantize_spec(t, g) as int % g as int == 0,
        quantize_spec(t, g) <= t,
        t - quantize_spec(t, g) < g,
        quantize_spec(t, g) as int == g as int * (t as int / g as int),
{
    let gi = g as int;
    vstd::arithmetic::div_mod::lemma_fundamental_div_mod(t as int, gi);
    vstd::arithmetic::div_mod::lemma_mod_bound(t as int, gi);
    assert(quantize_spec(t, g) as int == gi * (t as int / gi));
    assert((gi * (t as int / gi)) % gi == 0) by (nonlinear_arith)
        requires
            gi > 0,
    ;
}

/// The entry of an absent key: if no entry of `s` has key `k`, the
/// denoted table has no entry of `k` either.
proof fn lemma_table_of_not_found(s: Seq<(KeyView, u64)>, k: KeyView)
    requires
        forall|i: int| 0 <= i < s.len() ==> s[i].0 != k,
    ensures
        !table_of(s).contains_key(k),
    decreases s.len(),
{
    if s.len() > 0 {
        lemma_table_of_not_found(s.drop_last(), k);
    }
}

/// The entry of a present key: with unique keys, the denoted table
/// maps each entry's key to that entry's amount.
proof fn lemma_table_of_index(s: Seq<(KeyView, u64)>, i: int)
    requires
        unique_keys(s),
        0 <= i < s.len(),
    ensures
        table_of(s).contains_key(s[i].0),
        table_of(s)[s[i].0] == s[i].1,
    decreases s.len(),
{
    if i == s.len() - 1 {
    } else {
        assert(unique_keys(s.drop_last()));
        lemma_table_of_index(s.drop_last(), i);
        assert(s.drop_last()[i] == s[i]);
        assert(s.last().0 != s[i].0);
    }
}

/// Updating the amount of entry `i` updates the denoted table at that
/// entry's key, when keys are unique.
proof fn lemma_table_of_update(s: Seq<(KeyView, u64)>, i: int, v: u64)
    requires
        unique_keys(s),
        0 <= i < s.len(),
    ensures
        table_of(s.update(i, (s[i].0, v))) =~= table_of(s).insert(s[i].0, v),
    decreases s.len(),
{
    let t = s.update(i, (s[i].0, v));
    if i == s.len() - 1 {
        assert(t.drop_last() =~= s.drop_last());
        assert(t.last() == (s[i].0, v));
        assert(table_of(t) =~= table_of(s).insert(s[i].0, v));
    } else {
        assert(t.drop_last() =~= s.drop_last().update(i, (s[i].0, v)));
        assert(s.drop_last()[i] == s[i]);
        assert(unique_keys(s.drop_last()));
        lemma_table_of_update(s.drop_last(), i, v);
        assert(t.last() == s.last());
        assert(s[i].0 != s.last().0);
        assert(table_of(t) =~= table_of(s).insert(s[i].0, v));
    }
}

} // verus!
