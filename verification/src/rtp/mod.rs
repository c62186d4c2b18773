//! RTP media: packet layout, G.711 audio frames, sending, reception statistics.
pub mod packet;
pub mod audio;
pub mod session;
pub mod stats;
