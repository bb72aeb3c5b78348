//! The reference transport: a producer backed by a Kafka client. The
//! configuration type keeps the client's details out of the public
//! surface; the client itself is called through a few trusted
//! declarations and nothing is assumed of delivery.

use rdkafka::config::ClientConfig;
use rdkafka::error::KafkaError;
use rdkafka::producer::{BaseRecord, DefaultProducerContext, ThreadedProducer};
use vstd::prelude::*;

use crate::producer::Producer;

verus! {

/// The parameters of a Kafka-backed producer: the destination topic
/// and arbitrary passthrough client options, handed through unchanged.
pub struct KafkaConfig {
    pub topic: String,
    pub config: Vec<(String, String)>,
}

impl Default for KafkaConfig {
    /// The default configuration: the conventional topic and no
    /// client options.
    fn default() -> (r: Self)
        ensures
            r.topic@ == "shared-resources-usage"@,
            r.config@ == Seq::<(String, String)>::empty(),
    {
        KafkaConfig { topic: "shared-resources-usage".to_owned(), config: Vec::new() }
    }
}

#[verifier::external_type_specification]
#[verifier::external_body]
pub struct ExClientConfig(ClientConfig);

/// The Kafka client handle. The threaded producer's type cannot be
/// declared to the verifier (its bounds name the client crate's own
/// traits), so the handle is held behind this opaque struct and
/// reached only through the trusted calls below.
#[verifier::external_body]
pub struct KafkaClient {
    producer: ThreadedProducer<DefaultProducerContext>,
}

#[verifier::external_type_specification]
#[verifier::external_body]
pub struct ExKafkaError(KafkaError);

/// The key/value options a client configuration holds.
pub uninterp spec fn client_config_entries(c: ClientConfig) -> Map<Seq<char>, Seq<char>>;

/// Relies on rdkafka's ClientConfig::new: it creates a configuration
/// with no options set.
#[verifier::external_body]
fn client_config_new() -> (r: ClientConfig)
    ensures
        client_config_entries(r) == entries_of(Seq::empty()),
{
    ClientConfig::new()
}

/// Relies on rdkafka's ClientConfig::set: it inserts one option,
/// overriding any existing value of the same key.
#[verifier::external_body]
fn client_config_set(c: &mut ClientConfig, key: &str, value: &str)
    ensures
        client_config_entries(*final(c)) == client_config_entries(*old(c)).insert(key@, value@),
{
    c.set(key, value);
}

/// The options map that a sequence of key/value pairs denotes, later
/// pairs overriding earlier ones of the same key.
pub open spec fn entries_of(pairs: Seq<(Seq<char>, Seq<char>)>) -> Map<Seq<char>, Seq<char>>
    decreases pairs.len(),
{
    if pairs.len() == 0 {
        Map::empty()
    } else {
        entries_of(pairs.drop_last()).insert(pairs.last().0, pairs.last().1)
    }
}

/// The pairs of a configuration, as sequences of characters.
pub open spec fn config_pairs(c: KafkaConfig) -> Seq<(Seq<char>, Seq<char>)> {
    c.config@.map_values(|p: (String, String)| (p.0@, p.1@))
}

/// Builds a client configuration holding exactly the options of
/// `config`, in order, later pairs overriding earlier ones.
pub fn to_client_config(config: &KafkaConfig) -> (r: ClientConfig)
    ensures
        client_config_entries(r) == entries_of(config_pairs(*config)),
{
    let mut cc = client_config_new();
    let n = config.config.len();
    let mut i: usize = 0;
    proof {
        assert(config_pairs(*config).take(0) =~= Seq::<(Seq<char>, Seq<char>)>::empty());
    }
    while i < n
        invariant
            n == config.config@.len(),
            i <= n,
            client_config_entries(cc) == entries_of(config_pairs(*config).take(i as int)),
        decreases n - i,
    {
        let ghost done = config_pairs(*config).take(i as int);
        client_config_set(&mut cc, config.config[i].0.as_str(), config.config[i].1.as_str());
        i += 1;
        proof {
            assert(config_pairs(*config).take(i as int).drop_last() =~= done);
            assert(config_pairs(*config).take(i as int).last() == config_pairs(*config)[i - 1]);
        }
    }
    proof {
        assert(config_pairs(*config).take(n as int) =~= config_pairs(*config));
    }
    cc
}

/// Relies on rdkafka's ClientConfig::create (ThreadedProducer's
/// FromClientConfig impl): it builds a threaded producer from the
/// configuration, or reports why the configuration is invalid.
#[verifier::external_body]
fn create_threaded_producer(c: &ClientConfig) -> Result<KafkaClient, KafkaError> {
    c.create().map(|producer| KafkaClient { producer })
}

/// Relies on rdkafka's ThreadedProducer::send: it enqueues one payload
/// for the topic; on refusal the error comes back with the record,
/// which is dropped here. Nothing is assumed of delivery.
#[verifier::external_body]
fn threaded_producer_send(p: &KafkaClient, topic: &str, payload: &Vec<u8>) -> Result<
    (),
    KafkaError,
> {
    let record: BaseRecord<'_, [u8], [u8]> = BaseRecord::to(topic).payload(payload.as_slice());
    p.producer.send(record).map_err(|(error, _record)| error)
}

/// What can go wrong in the Kafka-backed producer.
pub enum KafkaProducerError {
    /// The client refused to accept a message for sending.
    SendFailed(KafkaError),
    /// The client could not be created from the configuration.
    InvalidConfig(KafkaError),
}

/// A producer backed by a Kafka client: each payload is enqueued for
/// the configured topic. The log tracks what the client accepted for
/// enqueueing; delivery beyond that is the client's business.
pub struct KafkaProducer {
    topic: String,
    producer: KafkaClient,
    accepted: Ghost<Seq<Seq<u8>>>,
}

impl KafkaProducer {
    /// The destination topic.
    pub closed spec fn topic_spec(&self) -> Seq<char> {
        self.topic@
    }

    /// Builds a producer from a configuration: the client options are
    /// handed through unchanged, and the topic is kept for every later
    /// send. An invalid configuration is reported, not panicked on.
    pub fn new(config: KafkaConfig) -> (r: Result<KafkaProducer, KafkaProducerError>)
        ensures
            r is Ok ==> r->Ok_0.topic_spec() == config.topic@ && r->Ok_0.sent()
                == Seq::<Seq<u8>>::empty(),
            r is Err ==> r->Err_0 is InvalidConfig,
    {
        let cc = to_client_config(&config);
        match create_threaded_producer(&cc) {
            Ok(p) => Ok(
                KafkaProducer {
                    topic: config.topic,
                    producer: p,
                    accepted: Ghost(Seq::empty()),
                },
            ),
            Err(e) => Err(KafkaProducerError::InvalidConfig(e)),
        }
    }
}

impl Producer for KafkaProducer {
    type Error = KafkaProducerError;

    /// The payloads the client has accepted for enqueueing, oldest
    /// first. Acceptance is not delivery: the client may still fail
    /// to deliver an accepted payload.
    closed spec fn sent(&self) -> Seq<Seq<u8>> {
        self.accepted@
    }

    open spec fn tracks_sent(&self) -> bool {
        true
    }

    /// The client can refuse an enqueue, so nothing promises success.
    open spec fn infallible(&self) -> bool {
        false
    }

    fn send(&mut self, payload: Vec<u8>) -> (r: Result<(), KafkaProducerError>)
        ensures
            final(self).topic_spec() == old(self).topic_spec(),
            r is Ok ==> final(self).sent() == old(self).sent().push(payload@),
            r is Err ==> r->Err_0 is SendFailed && *final(self) == *old(self),
    {
        match threaded_producer_send(&self.producer, self.topic.as_str(), &payload) {
            Ok(()) => {
                self.accepted = Ghost(self.accepted@.push(payload@));
                Ok(())
            },
            Err(e) => Err(KafkaProducerError::SendFailed(e)),
        }
    }
}

} // verus!
