//! The abstract sink capability: anything that accepts one serialized
//! usage record at a time and reports success or failure. The core
//! never depends on a concrete broker client; callers pass whatever
//! implementation satisfies this trait.

use vstd::prelude::*;

verus! {

/// A producer accepts one serialized payload per call.
///
/// An implementation that can account for what it has accepted (a
/// collecting test double, for instance) exposes that log through
/// `sent` and says so through `tracks_sent`; a fire-and-forget
/// transport reports `tracks_sent` false and promises nothing of its
/// log. No ordering or delivery guarantee is required beyond what
/// `send` itself reports.
pub trait Producer: Sized {
    type Error;

    /// The payloads accepted so far, oldest first, where tracked.
    spec fn sent(&self) -> Seq<Seq<u8>>;

    /// Whether `sent` faithfully logs the accepted payloads.
    spec fn tracks_sent(&self) -> bool;

    /// Whether this producer never refuses a payload.
    spec fn infallible(&self) -> bool;

    /// Sends one payload. On success the payload is appended to the
    /// log; on failure the log is unchanged. An infallible producer
    /// succeeds and stays infallible.
    fn send(&mut self, payload: Vec<u8>) -> (r: Result<(), Self::Error>)
        ensures
            old(self).tracks_sent() ==> final(self).tracks_sent(),
            old(self).tracks_sent() && r is Ok ==> final(self).sent() == old(self).sent().push(
                payload@,
            ),
            old(self).tracks_sent() && r is Err ==> final(self).sent() == old(self).sent(),
            old(self).infallible() ==> r is Ok && final(self).infallible(),
    ;
}

/// A collecting producer: stores every payload instead of
/// transmitting, and never fails. The canonical test double.
pub struct DummyProducer {
    pub messages: Vec<Vec<u8>>,
}

impl Default for DummyProducer {
    /// An empty collecting producer.
    fn default() -> (r: Self)
        ensures
            r.messages@ == Seq::<Vec<u8>>::empty(),
            r.sent() == Seq::<Seq<u8>>::empty(),
    {
        let r = DummyProducer { messages: Vec::new() };
        proof {
            assert(r.sent() =~= Seq::<Seq<u8>>::empty());
        }
        r
    }
}

impl Producer for DummyProducer {
    type Error = ();

    open spec fn sent(&self) -> Seq<Seq<u8>> {
        self.messages@.map_values(|v: Vec<u8>| v@)
    }

    open spec fn tracks_sent(&self) -> bool {
        true
    }

    open spec fn infallible(&self) -> bool {
        true
    }

    fn send(&mut self, payload: Vec<u8>) -> (r: Result<(), ()>)
        ensures
            r is Ok,
            final(self).sent() == old(self).sent().push(payload@),
    {
        let ghost pre = self.messages@;
        let ghost p = payload@;
        self.messages.push(payload);
        proof {
            assert(self.sent() =~= pre.map_values(|v: Vec<u8>| v@).push(p));
        }
        Ok(())
    }
}

/// A producer double that accepts a fixed number of payloads and then
/// fails every further call, collecting what it accepted.
pub struct FailingProducer {
    pub messages: Vec<Vec<u8>>,
    pub remaining_successes: u64,
}

impl FailingProducer {
    /// A failing producer that accepts `successes` payloads before it
    /// starts to fail.
    pub fn new(successes: u64) -> (r: Self)
        ensures
            r.messages@ == Seq::<Vec<u8>>::empty(),
            r.sent() == Seq::<Seq<u8>>::empty(),
            r.remaining_successes == successes,
    {
        let r = FailingProducer { messages: Vec::new(), remaining_successes: successes };
        proof {
            assert(r.sent() =~= Seq::<Seq<u8>>::empty());
        }
        r
    }
}

impl Producer for FailingProducer {
    type Error = ();

    open spec fn sent(&self) -> Seq<Seq<u8>> {
        self.messages@.map_values(|v: Vec<u8>| v@)
    }

    open spec fn tracks_sent(&self) -> bool {
        true
    }

    open spec fn infallible(&self) -> bool {
        false
    }

    fn send(&mut self, payload: Vec<u8>) -> (r: Result<(), ()>)
        ensures
            r is Ok <==> old(self).remaining_successes > 0,
            r is Ok ==> final(self).remaining_successes == old(self).remaining_successes - 1
                && final(self).sent() == old(self).sent().push(payload@),
            r is Err ==> *final(self) == *old(self),
    {
        if self.remaining_successes == 0 {
            return Err(());
        }
        self.remaining_successes = self.remaining_successes - 1;
        let ghost pre = self.messages@;
        let ghost p = payload@;
        self.messages.push(payload);
        proof {
            assert(self.sent() =~= pre.map_values(|v: Vec<u8>| v@).push(p));
        }
        Ok(())
    }
}

} // verus!
