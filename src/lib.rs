//! Protocol engine for vehicle telemetry acquisition: decoding of CAN
//! traffic relayed by an STN/ELM327 adapter, the adapter's bring-up and
//! monitoring state machine, and framing of u-blox UBX messages.
pub mod metrics;
pub mod text;
pub mod stnobd;
pub mod ublox;
