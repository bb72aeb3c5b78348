//! The public entry point: the accountant accepts usage reports,
//! delegates aggregation to the accumulator, decides when a flush is
//! due, and on flush hands one wire message per bucket to the producer.

use vstd::prelude::*;

use crate::accumulator::{
    contents_step, flush_step, model_new, record_step, report_view, should_flush_spec, AccumModel,
    KeyView, UsageAccumulator, UsageKey,
};
use crate::kafka::{KafkaConfig, KafkaProducer, KafkaProducerError};
use crate::producer::Producer;
use crate::wire::{encode_message, message_json, MessageView, OutgoingMessage};

verus! {

/// The unit of measure of a recorded amount. Each variant has a
/// canonical lowercase-with-underscore string form used on the wire.
#[derive(Clone, Copy, Debug, PartialEq, Eq, Hash, Structural)]
pub enum UsageUnit {
    Milliseconds,
    Bytes,
    BytesSec,
}

/// The canonical wire form of a unit.
pub open spec fn unit_wire(u: UsageUnit) -> Seq<char> {
    match u {
        UsageUnit::Milliseconds => "milliseconds"@,
        UsageUnit::Bytes => "bytes"@,
        UsageUnit::BytesSec => "bytes_sec"@,
    }
}

impl UsageUnit {
    /// The canonical wire form of this unit.
    pub fn wire_name(&self) -> (r: &'static str)
        ensures
            r@ == unit_wire(*self),
    {
        match self {
            UsageUnit::Milliseconds => "milliseconds",
            UsageUnit::Bytes => "bytes",
            UsageUnit::BytesSec => "bytes_sec",
        }
    }
}

/// The wire message of one drained entry.
pub open spec fn message_of_entry(e: (KeyView, u64)) -> MessageView {
    MessageView {
        timestamp: e.0.quantized_timestamp,
        shared_resource_id: e.0.resource_id,
        app_feature: e.0.app_feature,
        usage_unit: e.0.unit,
        amount: e.1,
    }
}

/// The serialized wire messages of a drained batch, in drain order.
pub open spec fn payloads(s: Seq<(KeyView, u64)>) -> Seq<Seq<u8>> {
    s.map_values(|e: (KeyView, u64)| message_json(message_of_entry(e)))
}

/// The public entry point. An accountant owns one accumulator and one
/// producer; it accepts usage reports, flushes when a batch is due,
/// and hands one wire message per drained bucket to the producer.
///
/// Accumulating locally is the point of the library: construct an
/// accountant rarely (once per process or per worker thread), not per
/// report.
pub struct UsageAccountant<P: Producer> {
    pub accumulator: UsageAccumulator,
    pub producer: P,
}

impl<P: Producer> UsageAccountant<P> {
    /// The state of the owned accumulator.
    pub closed spec fn acc(&self) -> AccumModel {
        self.accumulator@
    }

    /// The entries of the owned accumulator, in drain order.
    pub closed spec fn acc_contents(&self) -> Seq<(KeyView, u64)> {
        self.accumulator.contents()
    }

    /// Well-formedness of the owned accumulator.
    pub closed spec fn wf(&self) -> bool {
        self.accumulator.wf()
    }

    /// What one `record` call observed at time `t` does: the report is
    /// folded into the accumulator, and if that makes a flush due the
    /// whole batch is drained and sent, stopping at the first send
    /// failure.
    pub open spec fn record_outcome(
        pre: Self,
        post: Self,
        t: u64,
        resource_id: Seq<char>,
        app_feature: Seq<char>,
        amount: u64,
        unit: UsageUnit,
        r: Result<(), P::Error>,
    ) -> bool {
        let rep = report_view(t, resource_id, app_feature, amount, unit);
        let m1 = record_step(pre.acc(), rep);
        let s1 = contents_step(pre.acc_contents(), rep, pre.acc().granularity);
        let msgs = payloads(s1);
        if !should_flush_spec(m1, t) {
            &&& post.acc() == m1
            &&& post.acc_contents() == s1
            &&& r is Ok
            &&& (pre.producer.tracks_sent() ==> post.producer.tracks_sent()
                && post.producer.sent() == pre.producer.sent())
            &&& (pre.producer.infallible() ==> post.producer.infallible())
        } else {
            &&& post.acc() == flush_step(m1)
            &&& post.acc_contents() == Seq::<(KeyView, u64)>::empty()
            &&& (pre.producer.tracks_sent() ==> post.producer.tracks_sent())
            &&& (pre.producer.tracks_sent() && r is Ok ==> post.producer.sent()
                == pre.producer.sent() + msgs)
            &&& (pre.producer.tracks_sent() && r is Err ==> exists|n: int|
                0 <= n < msgs.len() && post.producer.sent() == pre.producer.sent() + msgs.take(n))
            &&& (pre.producer.infallible() ==> r is Ok && post.producer.infallible())
        }
    }

    /// Constructs an accountant around the given producer. The bucket
    /// width defaults to 60 seconds when none is given.
    pub fn new(producer: P, granularity: Option<u64>) -> (r: Self)
        ensures
            r.wf(),
            r.acc() == model_new(match granularity {
                Some(g) => g,
                None => 60u64,
            }),
            r.acc_contents() == Seq::<(KeyView, u64)>::empty(),
            r.producer == producer,
    {
        UsageAccountant { accumulator: UsageAccumulator::new(granularity), producer }
    }

    /// Records an amount of usage for a resource and feature, at the
    /// given timestamp, then flushes if the batch has become due. A
    /// failure is a send failure of that flush; the aggregation step
    /// itself cannot fail.
    pub fn record_at(
        &mut self,
        current_time: u64,
        resource_id: &str,
        app_feature: &str,
        amount: u64,
        unit: UsageUnit,
    ) -> (r: Result<(), P::Error>)
        requires
            old(self).wf(),
        ensures
            final(self).wf(),
            Self::record_outcome(
                *old(self),
                *final(self),
                current_time,
                resource_id@,
                app_feature@,
                amount,
                unit,
                r,
            ),
    {
        self.accumulator.record(current_time, resource_id, app_feature, amount, unit);
        let ghost rep = report_view(current_time, resource_id@, app_feature@, amount, unit);
        let ghost m1 = record_step(old(self).acc(), rep);
        let ghost s1 = contents_step(
            old(self).acc_contents(),
            rep,
            old(self).acc().granularity,
        );
        proof {
            assert(self.acc() == m1);
            assert(self.acc_contents() == s1);
            assert(self.producer == old(self).producer);
        }
        if self.accumulator.should_flush(current_time) {
            let r = self.flush();
            proof {
                let msgs = payloads(s1);
                assert(should_flush_spec(m1, current_time));
                assert(self.acc() == flush_step(m1));
                if old(self).producer.tracks_sent() {
                    if r is Ok {
                        assert(self.producer.sent() == old(self).producer.sent() + msgs);
                    }
                }
            }
            r
        } else {
            Ok(())
        }
    }

    /// Records an amount of usage for a resource and feature, at the
    /// current wall-clock time, then flushes if the batch has become
    /// due. A failure is a send failure of that flush.
    pub fn record(
        &mut self,
        resource_id: &str,
        app_feature: &str,
        amount: u64,
        unit: UsageUnit,
    ) -> (r: Result<(), P::Error>)
        requires
            old(self).wf(),
        ensures
            final(self).wf(),
            exists|t: u64|
                Self::record_outcome(
                    *old(self),
                    *final(self),
                    t,
                    resource_id@,
                    app_feature@,
                    amount,
                    unit,
                    r,
                ),
    {
        let current_time = wall_clock_unix_seconds();
        let r = self.record_at(current_time, resource_id, app_feature, amount, unit);
        proof {
            assert(Self::record_outcome(
                *old(self),
                *self,
                current_time,
                resource_id@,
                app_feature@,
                amount,
                unit,
                r,
            ));
        }
        r
    }

    /// Drains the accumulator and sends one wire message per drained
    /// bucket, in drain order. The drain happens first and is never
    /// undone: on the first send failure the error is returned and the
    /// remaining drained entries of that batch are dropped, not
    /// re-buffered. An empty batch sends nothing and succeeds.
    pub fn flush(&mut self) -> (r: Result<(), P::Error>)
        requires
            old(self).wf(),
        ensures
            final(self).wf(),
            final(self).acc() == flush_step(old(self).acc()),
            final(self).acc_contents() == Seq::<(KeyView, u64)>::empty(),
            old(self).producer.tracks_sent() ==> final(self).producer.tracks_sent(),
            old(self).producer.tracks_sent() && r is Ok ==> final(self).producer.sent() == old(
                self,
            ).producer.sent() + payloads(old(self).acc_contents()),
            old(self).producer.tracks_sent() && r is Err ==> exists|n: int|
                0 <= n < payloads(old(self).acc_contents()).len() && final(self).producer.sent()
                    == old(self).producer.sent() + payloads(old(self).acc_contents()).take(n),
            old(self).acc_contents().len() == 0 ==> r is Ok,
            old(self).producer.infallible() ==> r is Ok && final(self).producer.infallible(),
    {
        let drained = self.accumulator.flush();
        let ghost entries = old(self).acc_contents();
        let ghost msgs = payloads(entries);
        let n = drained.len();
        let mut i: usize = 0;
        while i < n
            invariant
                n == drained@.len(),
                i <= n,
                drained@.map_values(|e: (UsageKey, u64)| (e.0@, e.1)) == entries,
                entries == old(self).acc_contents(),
                msgs == payloads(entries),
                self.accumulator@ == flush_step(old(self).acc()),
                self.accumulator.contents() == Seq::<(KeyView, u64)>::empty(),
                self.accumulator.wf(),
                old(self).producer.tracks_sent() ==> self.producer.tracks_sent()
                    && self.producer.sent() == old(self).producer.sent() + msgs.take(i as int),
                old(self).producer.infallible() ==> self.producer.infallible(),
            decreases n - i,
        {
            let message = OutgoingMessage {
                timestamp: drained[i].0.quantized_timestamp,
                shared_resource_id: drained[i].0.resource_id.clone(),
                app_feature: drained[i].0.app_feature.clone(),
                usage_unit: drained[i].0.unit,
                amount: drained[i].1,
            };
            proof {
                assert(entries[i as int] == (drained@[i as int].0@, drained@[i as int].1));
                assert(message@ == message_of_entry(entries[i as int]));
                assert(msgs[i as int] == message_json(message_of_entry(entries[i as int])));
            }
            let payload = encode_message(&message);
            match self.producer.send(payload) {
                Ok(()) => {},
                Err(e) => {
                    proof {
                        assert(msgs.len() == entries.len());
                        assert(entries.len() == n);
                        if old(self).producer.tracks_sent() {
                            assert(0 <= i < msgs.len() && self.producer.sent() == old(
                                self,
                            ).producer.sent() + msgs.take(i as int));
                        }
                    }
                    return Err(e);
                },
            }
            i += 1;
            proof {
                if old(self).producer.tracks_sent() {
                    assert(msgs.take(i as int) =~= msgs.take(i as int - 1).push(
                        msgs[i as int - 1],
                    ));
                    assert(self.producer.sent() =~= old(self).producer.sent() + msgs.take(
                        i as int,
                    ));
                }
            }
        }
        proof {
            assert(msgs.take(n as int) =~= msgs);
        }
        Ok(())
    }

    /// Flushes the remaining batch and discards any send error: the
    /// teardown path, where no caller is left to report to. The owner
    /// of an accountant is expected to call this on every exit path
    /// before the accountant is dropped.
    pub fn close(&mut self)
        requires
            old(self).wf(),
        ensures
            final(self).wf(),
            final(self).acc() == flush_step(old(self).acc()),
            final(self).acc_contents() == Seq::<(KeyView, u64)>::empty(),
            old(self).producer.tracks_sent() ==> final(self).producer.tracks_sent() && exists|
                n: int,
            |
                0 <= n <= payloads(old(self).acc_contents()).len() && final(self).producer.sent()
                    == old(self).producer.sent() + payloads(old(self).acc_contents()).take(n),
            old(self).producer.infallible() ==> final(self).producer.infallible(),
            old(self).producer.tracks_sent() && old(self).producer.infallible()
                ==> final(self).producer.sent() == old(self).producer.sent() + payloads(
                old(self).acc_contents(),
            ),
    {
        let result = self.flush();
        proof {
            let msgs = payloads(old(self).acc_contents());
            if old(self).producer.tracks_sent() && result is Ok {
                assert(msgs.take(msgs.len() as int) =~= msgs);
                assert(self.producer.sent() == old(self).producer.sent() + msgs.take(
                    msgs.len() as int,
                ));
            }
        }
    }
}

impl UsageAccountant<KafkaProducer> {
    /// Builds an accountant that owns a Kafka-backed producer created
    /// from the given configuration. An invalid configuration is
    /// reported, not panicked on.
    pub fn new_with_kafka(producer_config: KafkaConfig, granularity: Option<u64>) -> (r: Result<
        Self,
        KafkaProducerError,
    >)
        ensures
            r is Ok ==> r->Ok_0.wf() && r->Ok_0.acc() == model_new(match granularity {
                Some(g) => g,
                None => 60u64,
            }) && r->Ok_0.acc_contents() == Seq::<(KeyView, u64)>::empty(),
            r is Ok ==> r->Ok_0.producer.topic_spec() == producer_config.topic@
                && r->Ok_0.producer.sent() == Seq::<Seq<u8>>::empty(),
            r is Err ==> r->Err_0 is InvalidConfig,
    {
        match KafkaProducer::new(producer_config) {
            Ok(p) => Ok(UsageAccountant::new(p, granularity)),
            Err(e) => Err(e),
        }
    }
}

/// Relies on std's SystemTime to read the wall clock, as whole
/// seconds since the Unix epoch; a clock set before the epoch reads
/// as zero. Neither call panics, and nothing is assumed of the value.
#[verifier::external_body]
fn wall_clock_unix_seconds() -> u64 {
    match std::time::SystemTime::now().duration_since(std::time::UNIX_EPOCH) {
        Ok(elapsed) => elapsed.as_secs(),
        Err(_) => 0,
    }
}

} // verus!
