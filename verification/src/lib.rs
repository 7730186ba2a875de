//! Mode-S / ADS-B and AIS decoding core of the skygate ingest engine.

pub mod aircraft;
pub mod ais;
pub mod alerts;
pub mod api;
pub mod beast;
pub mod bincraft;
pub mod buffers;
pub mod client;
pub mod clock;
pub mod compact_ingest;
pub mod crc;
pub mod enrichment;
pub mod feeder;
pub mod ingest;
pub mod mode_s;
pub mod nmea;
pub mod receiver;
pub mod reduce;
pub mod request_body;
pub mod sbs;
pub mod sdr;
pub mod sdr_tool;
pub mod text;
pub mod wire;
pub mod writer;
pub mod ws;
