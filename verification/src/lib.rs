//! Local usage-metering buffer.
//!
//! Application code repeatedly reports an amount of a shared resource
//! consumed by a feature. The library pre-aggregates those reports in
//! memory, bucketing them by quantized timestamp, and periodically
//! flushes compact summary records to an abstract producer, one wire
//! message per bucket.

mod accountant;
mod accumulator;
mod kafka;
mod producer;
mod wire;

pub use accountant::{UsageAccountant, UsageUnit};
pub use accumulator::{
    lemma_bucket_separation, lemma_bucket_separation_keys, lemma_drain_atomicity,
    lemma_idempotent_empty_flush, lemma_merge_correctness, lemma_quantize_properties,
    lemma_zero_granularity_buckets, quantize, UsageAccumulator, UsageKey,
};
pub use kafka::{to_client_config, KafkaConfig, KafkaProducer, KafkaProducerError};
pub use producer::{DummyProducer, FailingProducer, Producer};
pub use wire::{encode_message, OutgoingMessage};
