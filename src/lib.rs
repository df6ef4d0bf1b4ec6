//! RTCP (RFC 3550) codec and reception statistics.
//!
//! `compound` decodes and encodes whole datagrams of RTCP packets, built on
//! the per-type codecs of `decode` and `encode` and the byte primitives of
//! `bytes`; `round_trip` proves that decoding inverts encoding. `rtp` reads
//! RTP headers, `ident` holds source identifiers and SDES item types,
//! `source` tracks sequence numbers, jitter and loss of one remote source,
//! and `session` keeps one tracker per source and builds the reports to send.
use vstd::prelude::*;

pub mod bytes;
pub mod error;
pub mod packet;
pub mod decode;
pub mod encode;
pub mod round_trip;
pub mod compound;
pub mod ident;
pub mod rtp;
pub mod source;
pub mod session;

verus! {

} // verus!
