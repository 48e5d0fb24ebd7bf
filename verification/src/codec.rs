//! A uniform, verified façade over one backend codec instance.
//!
//! `EncodeCodec` and `DecodeCodec` wrap the opaque backend state and expose
//! the one transform operation the core drivers need, with exact accounting:
//! how many input bytes the backend consumed, which bytes it produced, and
//! whether the stream's end marker has been written or recognised. Encoding
//! cannot fail and always makes progress; decoding fails exactly on bytes no
//! well-formed stream starts with.

use vstd::prelude::*;

use crate::backend::accept_facts;
use crate::backend::compress_new_deflate;
use crate::backend::compress_new_gzip;
use crate::backend::compress_new_zlib;
use crate::backend::compress_finish;
use crate::backend::compress_step;
use crate::backend::compress_total_in;
use crate::backend::dec_absorbed;
use crate::backend::dec_done;
use crate::backend::dec_emitted;
use crate::backend::dec_format;
use crate::backend::dec_pending;
use crate::backend::decompress_new_deflate;
use crate::backend::decompress_new_gzip;
use crate::backend::decompress_new_zlib;
use crate::backend::decompress_step;
use crate::backend::decompress_total_in;
use crate::backend::enc_absorbed;
use crate::backend::enc_done;
use crate::backend::enc_emitted;
use crate::backend::enc_finishing;
use crate::backend::enc_format;
use crate::backend::enc_sealable;
use crate::backend::enc_tail;
use crate::backend::no_end_yet;
use crate::backend::stream_acceptable;
use crate::backend::stream_complete;
use crate::backend::stream_plain;
use crate::Error;
use crate::Format;
use crate::Level;

pub use crate::backend::no_early_end;

verus! {

/// One backend encoder instance together with its framing.
pub struct EncodeCodec {
    raw: flate2::Compress,
    fmt: Format,
}

impl EncodeCodec {
    /// The framing this codec encodes into.
    pub closed spec fn format(self) -> Format {
        self.fmt
    }

    /// All input bytes the backend has consumed so far.
    pub closed spec fn absorbed(self) -> Seq<u8> {
        enc_absorbed(self.raw)
    }

    /// All output bytes the backend has produced so far.
    pub closed spec fn emitted(self) -> Seq<u8> {
        enc_emitted(self.raw)
    }

    /// Whether the end-of-stream marker has been written.
    pub closed spec fn done(self) -> bool {
        enc_done(self.raw)
    }

    /// Whether the finish path has been entered; ordinary transform rounds
    /// are then over.
    pub closed spec fn finishing(self) -> bool {
        enc_finishing(self.raw)
    }

    /// The bytes the finish path would still emit, were it driven now.
    pub closed spec fn tail(self) -> Seq<u8> {
        enc_tail(self.raw)
    }

    /// The stream this state is committed to: emitted so far, extended by
    /// the finish path's remainder.
    pub open spec fn committed(self) -> Seq<u8> {
        self.emitted() + self.tail()
    }

    /// The committed stream is one complete stream, with its end marker only
    /// at the very end, decoding to exactly the absorbed bytes — so what
    /// has been emitted so far is a prefix of a valid encoding of what has
    /// been consumed so far.
    pub open spec fn sealable(self) -> bool {
        &&& stream_complete(self.format().id(), self.committed())
        &&& stream_plain(self.format().id(), self.committed()) == self.absorbed()
        &&& no_early_end(self.format().id(), self.committed())
    }

    /// The emitted bytes form one complete stream whose decode is exactly
    /// the absorbed bytes, with the end marker only at the very end.
    pub open spec fn sealed(self) -> bool {
        &&& stream_complete(self.format().id(), self.emitted())
        &&& stream_plain(self.format().id(), self.emitted()) == self.absorbed()
        &&& no_early_end(self.format().id(), self.emitted())
    }

    /// The backend instance matches the framing this codec claims, and is
    /// always committed to a sealable stream.
    pub closed spec fn wf(self) -> bool {
        &&& enc_format(self.raw) == self.fmt.id()
        &&& enc_sealable(self.fmt.id(), self.raw)
        &&& (self.done() ==> self.tail() == Seq::<u8>::empty())
    }

    /// Well-formedness gives the committed-stream statement outright.
    pub proof fn lemma_sealable(self)
        requires
            self.wf(),
        ensures
            self.sealable(),
            self.done() ==> self.sealed(),
            self.done() ==> self.tail() == Seq::<u8>::empty(),
    {
        if self.done() {
            assert(self.emitted() + Seq::<u8>::empty() =~= self.emitted());
        }
    }

    /// Builds a fresh encoder; rejects a level the backend does not accept.
    pub fn new(fmt: Format, level: Level) -> (r: Result<EncodeCodec, Error>)
        ensures
            r is Ok <==> level.valid(),
            (match r {
                Ok(c) => {
                    &&& c.wf()
                    &&& !c.done()
                    &&& !c.finishing()
                    &&& c.format() == fmt
                    &&& c.absorbed() == Seq::<u8>::empty()
                    &&& c.emitted() == Seq::<u8>::empty()
                },
                Err(e) => e == Error::InvalidLevel,
            }),
    {
        let v = level.value();
        if v > 9 {
            return Err(Error::InvalidLevel);
        }
        let raw = match fmt {
            Format::Deflate => compress_new_deflate(v),
            Format::Zlib => compress_new_zlib(v),
            Format::Gzip => compress_new_gzip(v),
        };
        Ok(EncodeCodec { raw, fmt })
    }

    /// One transform invocation without finish hint: consumes a prefix of
    /// `input` (reported exactly) and hands back the bytes produced. The
    /// whole input is consumed unless output was produced instead, and a
    /// round that consumes nothing leaves the committed stream unchanged.
    pub fn step(&mut self, input: &[u8]) -> (r: (usize, Vec<u8>))
        requires
            old(self).wf(),
            !old(self).done(),
            !old(self).finishing(),
        ensures
            final(self).wf(),
            final(self).format() == old(self).format(),
            !final(self).done(),
            !final(self).finishing(),
            r.0 <= input@.len(),
            final(self).absorbed() == old(self).absorbed() + input@.take(r.0 as int),
            final(self).emitted() == old(self).emitted() + r.1@,
            r.0 == input@.len() || r.1@.len() > 0,
            r.0 == 0 ==> final(self).committed() == old(self).committed(),
    {
        let before = compress_total_in(&self.raw);
        let out = compress_step(&mut self.raw, input);
        let after = compress_total_in(&self.raw);
        proof {
            let k = choose|k: int|
                0 <= k <= input@.len() && enc_absorbed(self.raw) == enc_absorbed(old(self).raw)
                    + input@.take(k) && (k == input@.len() || out@.len() > 0) && (k == 0
                    ==> crate::backend::enc_committed(self.raw) == crate::backend::enc_committed(
                    old(self).raw,
                ));
            assert(after as int == before as int + k);
            assert(after as int - before as int <= input.len() as int);
        }
        let n = (after - before) as usize;
        (n, out)
    }

    /// One transform invocation with finish hint and empty input: reveals
    /// the next part of the committed stream, which it leaves unchanged,
    /// and reports when the end marker has been written; it either produces
    /// bytes or ends.
    pub fn finish_step(&mut self) -> (r: (bool, Vec<u8>))
        requires
            old(self).wf(),
            !old(self).done(),
        ensures
            final(self).wf(),
            final(self).format() == old(self).format(),
            final(self).absorbed() == old(self).absorbed(),
            final(self).emitted() == old(self).emitted() + r.1@,
            final(self).committed() == old(self).committed(),
            r.0 == final(self).done(),
            r.0 || r.1@.len() > 0,
            (r.0 ==> final(self).sealed()),
    {
        let r = compress_finish(&mut self.raw);
        proof {
            if r.0 {
                assert(self.emitted() + Seq::<u8>::empty() =~= self.emitted());
            }
        }
        r
    }
}

/// One backend decoder instance together with its framing.
pub struct DecodeCodec {
    raw: flate2::Decompress,
    fmt: Format,
}

impl DecodeCodec {
    /// The framing this codec decodes from.
    pub closed spec fn format(self) -> Format {
        self.fmt
    }

    /// All input bytes the backend has consumed so far.
    pub closed spec fn absorbed(self) -> Seq<u8> {
        dec_absorbed(self.raw)
    }

    /// All output bytes the backend has produced so far.
    pub closed spec fn emitted(self) -> Seq<u8> {
        dec_emitted(self.raw)
    }

    /// Whether the end-of-stream marker has been recognised.
    pub closed spec fn done(self) -> bool {
        dec_done(self.raw)
    }

    /// The bytes the backend can still produce without further input.
    pub closed spec fn pending(self) -> Seq<u8> {
        dec_pending(self.raw)
    }

    /// The absorbed bytes form one complete stream and the emitted bytes are
    /// exactly its decode.
    pub open spec fn recognised(self) -> bool {
        &&& stream_complete(self.format().id(), self.absorbed())
        &&& self.emitted() == stream_plain(self.format().id(), self.absorbed())
    }

    /// The backend instance matches the framing this codec claims;
    /// everything absorbed is acceptable, and at the end the absorbed
    /// stream is recognised.
    pub closed spec fn wf(self) -> bool {
        &&& dec_format(self.raw) == self.fmt.id()
        &&& stream_acceptable(self.fmt.id(), self.absorbed())
        &&& (self.done() ==> self.recognised())
    }

    /// Well-formedness gives acceptability and recognition outright.
    pub proof fn lemma_wf_facts(self)
        requires
            self.wf(),
        ensures
            stream_acceptable(self.format().id(), self.absorbed()),
            self.done() ==> self.recognised(),
    {
    }

    /// Builds a fresh decoder. Decoders take no level.
    pub fn new(fmt: Format) -> (c: DecodeCodec)
        ensures
            c.wf(),
            !c.done(),
            c.format() == fmt,
            c.absorbed() == Seq::<u8>::empty(),
            c.emitted() == Seq::<u8>::empty(),
            c.pending() == Seq::<u8>::empty(),
            accept_facts(fmt.id()),
    {
        let raw = match fmt {
            Format::Deflate => decompress_new_deflate(),
            Format::Zlib => decompress_new_zlib(),
            Format::Gzip => decompress_new_gzip(),
        };
        DecodeCodec { raw, fmt }
    }

    /// One transform invocation: consumes a prefix of `input` (reported
    /// exactly), hands back the bytes produced, and reports whether the
    /// end-of-stream marker has now been recognised. Given any input, it
    /// consumes bytes, produces bytes, or ends; a round that consumes
    /// nothing only drains the pending continuation, and a round that
    /// produces nothing vouches that no prefix of the absorbed bytes is yet
    /// a complete stream. Fails exactly when the bytes driven across are
    /// not acceptable; the state is then terminal.
    pub fn step(&mut self, input: &[u8]) -> (r: Result<(usize, Vec<u8>, bool), Error>)
        requires
            old(self).wf(),
            !old(self).done(),
        ensures
            final(self).format() == old(self).format(),
            accept_facts(old(self).format().id()),
            (match r {
                Ok((n, out, end)) => {
                    &&& final(self).wf()
                    &&& n <= input@.len()
                    &&& final(self).absorbed() == old(self).absorbed() + input@.take(n as int)
                    &&& final(self).emitted() == old(self).emitted() + out@
                    &&& (input@.len() > 0 ==> n > 0 || out@.len() > 0 || end)
                    &&& (n == 0 ==> out@.len() <= old(self).pending().len() && out@ == old(
                        self,
                    ).pending().take(out@.len() as int) && final(self).pending() == old(
                        self,
                    ).pending().skip(out@.len() as int))
                    &&& end == final(self).done()
                    &&& (!end && out@.len() == 0 ==> no_end_yet(
                        old(self).format().id(),
                        final(self).absorbed(),
                    ))
                    &&& (end ==> final(self).recognised())
                },
                Err(e) => e == Error::CorruptInput && !stream_acceptable(
                    old(self).format().id(),
                    old(self).absorbed() + input@,
                ),
            }),
    {
        let before = decompress_total_in(&self.raw);
        match decompress_step(&mut self.raw, input) {
            Ok((end, out)) => {
                let after = decompress_total_in(&self.raw);
                proof {
                    let k = choose|k: int|
                        0 <= k <= input@.len() && dec_absorbed(self.raw) == dec_absorbed(
                            old(self).raw,
                        ) + input@.take(k) && (input@.len() > 0 ==> k > 0 || out@.len() > 0
                        || end) && (k == 0 ==> out@.len() <= dec_pending(old(self).raw).len()
                        && out@ == dec_pending(old(self).raw).take(out@.len() as int)
                        && dec_pending(self.raw) == dec_pending(old(self).raw).skip(
                        out@.len() as int));
                    assert(after as int == before as int + k);
                    assert(after as int - before as int <= input.len() as int);
                }
                let n = (after - before) as usize;
                Ok((n, out, end))
            },
            Err(()) => Err(Error::CorruptInput),
        }
    }
}

} // verus!
