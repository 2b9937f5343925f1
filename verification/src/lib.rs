/// The serialized form of a stored block: format, encoder, decoder, and the
/// proof that decoding inverts encoding.
pub mod codec;
/// The durable block store with its filter configuration.
pub mod db;
/// Projection of raw blocks under the filter rules, and the per-block
/// ingestion step with its laws.
pub mod pipeline;
/// The record types and their mathematical views.
pub mod records;
/// The trusted boundary to the database engine and the clock.
pub mod store;
