//! Streaming compression and decompression adapters.
//!
//! The codecs themselves are delegated to `flate2`; this crate's substance is
//! the adapter state machinery that drives a synchronous, block-oriented
//! codec through a cooperative, partial-progress byte interface: a core
//! encode/decode driver, a source-style adapter, a sink-style adapter and a
//! chunk-stream adapter. The contracts state byte conservation: the bytes an
//! adapter hands on are exactly the codec transform of the bytes it took in,
//! whatever the chunking, and the stream's end marker is produced exactly
//! once, at the end.

use vstd::prelude::*;

pub mod backend;
pub mod codec;
pub mod driver;
pub mod laws;
pub mod oneshot;
pub mod read;
pub mod stream;
pub mod write;

verus! {

/// The framing used around the raw DEFLATE payload.
#[derive(Clone, Copy, PartialEq, Eq, Structural, Debug)]
pub enum Format {
    /// Raw DEFLATE, no framing (RFC 1951).
    Deflate,
    /// zlib framing (RFC 1950): 2-byte header, Adler-32 trailer.
    Zlib,
    /// gzip framing (RFC 1952): 10-byte header, CRC32 + ISIZE trailer.
    Gzip,
}

impl Format {
    /// A numeric tag for this format, used to index the stream semantics.
    pub open spec fn id(self) -> int {
        match self {
            Format::Deflate => 1,
            Format::Zlib => 2,
            Format::Gzip => 3,
        }
    }
}

/// A compression level: a named preset or a precise backend level.
///
/// Decoders take no level. The backend accepts levels `0 ..= 9`.
#[derive(Clone, Copy, PartialEq, Eq, Structural, Debug)]
pub enum Level {
    /// The fastest setting the backend offers.
    Fastest,
    /// The backend's default trade-off.
    Default,
    /// The strongest setting the backend offers.
    Best,
    /// A precise backend level; valid when at most 9.
    Precise(u32),
}

impl Level {
    /// The backend integer this level stands for.
    pub open spec fn spec_value(self) -> u32 {
        match self {
            Level::Fastest => 1,
            Level::Default => 6,
            Level::Best => 9,
            Level::Precise(n) => n,
        }
    }

    /// Whether the backend accepts this level.
    pub open spec fn valid(self) -> bool {
        self.spec_value() <= 9
    }

    /// The backend integer this level stands for.
    pub fn value(self) -> (r: u32)
        ensures
            r == self.spec_value(),
    {
        match self {
            Level::Fastest => 1,
            Level::Default => 6,
            Level::Best => 9,
            Level::Precise(n) => n,
        }
    }
}

/// Everything an adapter can fail with.
#[derive(Clone, Copy, PartialEq, Eq, Structural, Debug)]
pub enum Error {
    /// Pulling bytes from the upstream collaborator failed.
    UpstreamIo,
    /// Forwarding bytes to the downstream collaborator failed; the
    /// sink-style adapter is poisoned afterwards.
    DownstreamIo,
    /// The decoder saw malformed bytes, or the backend failed; terminal.
    CorruptInput,
    /// Upstream ended before the codec's end-of-stream marker was seen.
    UnexpectedEof,
    /// The caller wrote to, or flushed, a sink-style adapter after closing it.
    WriteAfterClose,
    /// The requested compression level is outside the backend's range.
    InvalidLevel,
}

} // verus!
