//! Transaction messages of an object-centric, Byzantine-fault-tolerant ledger: the data
//! model of transactions and their effects, the envelopes that carry them from the
//! client's signature to a quorum certificate, and the rules of that passage.

pub mod aggregator;
pub mod base64;
pub mod base_types;
pub mod certified;
pub mod checkpoint;
pub mod checkpoint_wire;
pub mod codec;
pub mod committee;
pub mod committee_wire;
pub mod consensus;
pub mod consensus_wire;
pub mod crypto;
pub mod describe;
pub mod describe_transaction;
pub mod effects;
pub mod effects_envelope_wire;
pub mod effects_wire;
pub mod envelope;
pub mod envelope_eq;
pub mod envelope_wire;
pub mod error;
pub mod execution_status;
pub mod framing;
pub mod input_kind_wire;
pub mod input_objects;
pub mod lex;
pub mod move_types;
pub mod node;
pub mod object;
pub mod published_modules;
pub mod quorum;
pub mod quorum_wire;
pub mod reading;
pub mod reading_base;
pub mod reading_certificate;
pub mod reading_envelope;
pub mod reading_kinds;
pub mod reading_states;
pub mod reading_transaction;
pub mod requests;
pub mod sign_info;
pub mod status_wire;
pub mod text;
pub mod transaction;
pub mod transaction_data;
pub mod wire;
pub mod wire_laws;
