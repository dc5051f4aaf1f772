//! A picture frame built from an e-paper display: the verified core of the display firmware's
//! transfer loop, of its name lookup, and of the server that picks and packs the pictures.
pub mod frame;
pub mod session;
pub mod packing;
pub mod dns;
pub mod feeds;
