//! Core of a SIP load generator: SIP message building and parsing, dialog
//! state, RTP packet codec, G.711 audio, and call statistics.

pub mod agent;
pub mod caller;
pub mod config;
pub mod num;
pub mod registrar;
pub mod reporter;
pub mod rtp;
pub mod sip;
pub mod sip_logger;
pub mod stats;
pub mod text;
