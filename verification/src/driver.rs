//! The core drive state machines.
//!
//! `CoreEncoder` pumps bytes through an encoding codec until the caller
//! signals end of input, then flushes until the end-of-stream marker is
//! written; encoding cannot fail, and the only error it reports is input
//! offered after the end. `CoreDecoder` pumps coded bytes through a
//! decoding codec until the end-of-stream marker is recognised, then
//! silently discards trailing input; it fails exactly on bytes no
//! well-formed stream starts with (`CorruptInput`) or on end of input
//! before the marker (`UnexpectedEof`), and is then terminal: every later
//! call replays the same error and changes nothing. `Driver` packs the two
//! behind one interface so that the adapters can share their plumbing.
//!
//! Every invocation makes progress: given any input it consumes bytes,
//! produces bytes, or ends — and a round that consumes nothing draws its
//! output from the state's bounded backlog, which is what makes the drive
//! loops above terminate.

use vstd::prelude::*;

use crate::backend::accept_facts;
use crate::backend::no_end_yet;
use crate::codec::no_early_end;
use crate::codec::DecodeCodec;
use crate::codec::EncodeCodec;
use crate::backend::stream_acceptable;
use crate::backend::stream_complete;
use crate::backend::stream_plain;
use crate::Error;
use crate::Format;
use crate::Level;

verus! {

/// `a` is the first `a.len()` bytes of `b`.
pub open spec fn is_prefix_of(a: Seq<u8>, b: Seq<u8>) -> bool {
    a.len() <= b.len() && a == b.take(a.len() as int)
}

/// The outcome of one drive invocation: how many input bytes were consumed,
/// the bytes produced, and whether the driver has reached its end.
pub struct DriveStep {
    /// Bytes of the offered input that were consumed.
    pub consumed: usize,
    /// Bytes produced by this invocation, in stream order.
    pub out: Vec<u8>,
    /// Whether the driver has reached its end state.
    pub end: bool,
}

/// The phase of a `CoreEncoder`.
pub enum EncodePhase {
    /// Input may still arrive; transform without finish hint.
    Encoding,
    /// End of input was signalled; drive toward the end-of-stream marker.
    Flushing,
    /// The end-of-stream marker has been written.
    Done,
}

/// Drives an encoding codec: Encoding, then Flushing, then Done.
pub struct CoreEncoder {
    codec: EncodeCodec,
    phase: EncodePhase,
}

impl CoreEncoder {
    /// The framing being encoded into.
    pub closed spec fn format(self) -> Format {
        self.codec.format()
    }

    /// All input bytes consumed so far.
    pub closed spec fn fed(self) -> Seq<u8> {
        self.codec.absorbed()
    }

    /// All output bytes produced so far.
    pub closed spec fn given(self) -> Seq<u8> {
        self.codec.emitted()
    }

    /// Whether the end-of-stream marker has been written.
    pub closed spec fn ended(self) -> bool {
        self.phase is Done
    }

    /// Whether more input may still arrive: once end of input was signalled
    /// and everything offered was consumed, this turns false for good.
    pub closed spec fn accepting(self) -> bool {
        self.phase is Encoding
    }

    /// The bytes the finish path would still emit: the session's backlog.
    pub closed spec fn stash(self) -> Seq<u8> {
        self.codec.tail()
    }

    /// Internal invariant tying the phase to the codec's state.
    pub closed spec fn wf(self) -> bool {
        &&& self.codec.wf()
        &&& (match self.phase {
            EncodePhase::Encoding => !self.codec.done() && !self.codec.finishing(),
            EncodePhase::Flushing => !self.codec.done(),
            EncodePhase::Done => self.codec.done(),
        })
    }

    /// At the end, the bytes given out form one complete stream whose decode
    /// is exactly the bytes fed in, with the end marker only at the end.
    pub open spec fn complete_session(self) -> bool {
        &&& stream_complete(self.format().id(), self.given())
        &&& stream_plain(self.format().id(), self.given()) == self.fed()
        &&& no_early_end(self.format().id(), self.given())
    }

    /// Mid-session byte conservation: the bytes given out so far, extended
    /// by the backlog the finish path would still emit, form one complete
    /// stream decoding to exactly the bytes fed in — so what has been
    /// handed out is always a prefix of a valid encoding of what was
    /// consumed.
    pub open spec fn conserving(self) -> bool {
        &&& stream_complete(self.format().id(), self.given() + self.stash())
        &&& stream_plain(self.format().id(), self.given() + self.stash()) == self.fed()
        &&& no_early_end(self.format().id(), self.given() + self.stash())
    }

    /// Well-formedness gives mid-session conservation outright.
    pub proof fn lemma_conserving(self)
        requires
            self.wf(),
        ensures
            self.conserving(),
            self.ended() ==> self.stash() == Seq::<u8>::empty(),
    {
        self.codec.lemma_sealable();
    }

    /// A session that has ended satisfies its byte-conservation statement.
    pub proof fn lemma_ended_session(self)
        requires
            self.wf(),
            self.ended(),
        ensures
            self.complete_session(),
    {
        self.codec.lemma_sealable();
    }

    /// While input may still arrive, the session has not ended.
    pub proof fn lemma_accepting(self)
        requires
            self.accepting(),
        ensures
            !self.ended(),
    {
    }

    /// Builds a fresh encode driver; rejects an invalid level.
    pub fn new(fmt: Format, level: Level) -> (r: Result<CoreEncoder, Error>)
        ensures
            r is Ok <==> level.valid(),
            (match r {
                Ok(c) => {
                    &&& c.wf()
                    &&& !c.ended()
                    &&& c.accepting()
                    &&& c.format() == fmt
                    &&& c.fed() == Seq::<u8>::empty()
                    &&& c.given() == Seq::<u8>::empty()
                },
                Err(e) => e == Error::InvalidLevel,
            }),
    {
        match EncodeCodec::new(fmt, level) {
            Ok(codec) => Ok(CoreEncoder { codec, phase: EncodePhase::Encoding }),
            Err(e) => Err(e),
        }
    }

    /// One flushing invocation: no input, work toward the end marker.
    fn do_finish(&mut self) -> (st: DriveStep)
        requires
            old(self).wf(),
            !old(self).codec.done(),
            old(self).phase is Flushing,
        ensures
            final(self).wf(),
            final(self).format() == old(self).format(),
            st.consumed == 0,
            !final(self).accepting(),
            final(self).fed() == old(self).fed(),
            final(self).given() == old(self).given() + st.out@,
            final(self).given() + final(self).stash() == old(self).given() + old(self).stash(),
            st.end == final(self).ended(),
            st.end || st.out@.len() > 0,
            (final(self).ended() ==> final(self).complete_session()),
    {
        let (end, out) = self.codec.finish_step();
        if end {
            self.phase = EncodePhase::Done;
            proof {
                self.codec.lemma_sealable();
            }
        }
        proof {
            assert((old(self).given() + out@) + self.codec.tail() =~= old(self).given() + (out@
                + self.codec.tail()));
        }
        DriveStep { consumed: 0, out, end }
    }

    /// One drive invocation. In Encoding, transforms `input` and reports the
    /// consumed prefix; once `input_over` is signalled and the offered input
    /// is consumed, moves to Flushing and works toward the end marker. At
    /// Done, further input is refused with `WriteAfterClose`; this is the
    /// only error an encode session can report.
    pub fn advance(&mut self, input: &[u8], input_over: bool) -> (r: Result<DriveStep, Error>)
        requires
            old(self).wf(),
        ensures
            final(self).wf(),
            final(self).format() == old(self).format(),
            (match r {
                Ok(st) => {
                    &&& st.consumed <= input@.len()
                    &&& final(self).fed() == old(self).fed() + input@.take(st.consumed as int)
                    &&& final(self).given() == old(self).given() + st.out@
                    &&& st.end == final(self).ended()
                    &&& (final(self).ended() ==> final(self).complete_session())
                    &&& (final(self).ended() ==> !final(self).accepting())
                    &&& (st.consumed == input@.len() || st.out@.len() > 0 || st.end)
                    &&& (input_over && input@.len() == 0 ==> st.out@.len() > 0 || st.end)
                    &&& (st.consumed == 0 ==> final(self).stash().len() + st.out@.len() == old(
                        self,
                    ).stash().len())
                    &&& (old(self).accepting() && !final(self).accepting() ==> st.consumed
                        == input@.len())
                    &&& (old(self).accepting() && !input_over ==> final(self).accepting())
                    &&& (!old(self).accepting() ==> st.consumed == 0 && !final(self).accepting())
                    &&& (old(self).ended() ==> *final(self) == *old(self) && st.consumed == 0
                        && st.out@ == Seq::<u8>::empty() && st.end)
                },
                Err(e) => {
                    &&& e == Error::WriteAfterClose
                    &&& old(self).ended() && input@.len() > 0
                    &&& *final(self) == *old(self)
                },
            }),
            !(old(self).ended() && input@.len() > 0) ==> r is Ok,
    {
        match self.phase {
            EncodePhase::Done => {
                if input.len() > 0 {
                    Err(Error::WriteAfterClose)
                } else {
                    proof {
                        assert(input@.take(0) =~= Seq::<u8>::empty());
                        assert(old(self).given() + Seq::<u8>::empty() =~= old(self).given());
                        assert(old(self).fed() + Seq::<u8>::empty() =~= old(self).fed());
                        self.codec.lemma_sealable();
                    }
                    Ok(DriveStep { consumed: 0, out: Vec::new(), end: true })
                }
            },
            EncodePhase::Flushing => {
                let st = self.do_finish();
                proof {
                    assert(input@.take(0) =~= Seq::<u8>::empty());
                    assert(old(self).fed() + Seq::<u8>::empty() =~= old(self).fed());
                    assert((self.given() + self.stash()).len() == (old(self).given() + old(
                        self,
                    ).stash()).len());
                    assert(self.stash().len() + st.out@.len() == old(self).stash().len());
                }
                Ok(st)
            },
            EncodePhase::Encoding => {
                if input.len() == 0 && input_over {
                    self.phase = EncodePhase::Flushing;
                    let st = self.do_finish();
                    proof {
                        assert(input@.take(0) =~= Seq::<u8>::empty());
                        assert(old(self).fed() + Seq::<u8>::empty() =~= old(self).fed());
                        assert((self.given() + self.stash()).len() == (old(self).given() + old(
                            self,
                        ).stash()).len());
                        assert(self.stash().len() + st.out@.len() == old(self).stash().len());
                    }
                    Ok(st)
                } else {
                    let (n, out) = self.codec.step(input);
                    if input_over && n == input.len() {
                        self.phase = EncodePhase::Flushing;
                    }
                    proof {
                        if n == 0 {
                            assert(self.codec.committed() == old(self).codec.committed());
                            assert((self.given() + self.stash()).len() == (old(self).given()
                                + old(self).stash()).len());
                            assert(self.stash().len() + out@.len() == old(self).stash().len());
                        }
                    }
                    Ok(DriveStep { consumed: n, out, end: false })
                }
            },
        }
    }
}

/// The phase of a `CoreDecoder`.
pub enum DecodePhase {
    /// The end-of-stream marker has not been recognised yet.
    Decoding,
    /// The end-of-stream marker was recognised; trailing input is discarded.
    Done,
    /// A fatal error was reported; terminal, replays the error.
    Failed(Error),
}

/// Drives a decoding codec: Decoding, then Done.
pub struct CoreDecoder {
    codec: DecodeCodec,
    phase: DecodePhase,
    fed_log: Ghost<Seq<u8>>,
}

impl CoreDecoder {
    /// The framing being decoded from.
    pub closed spec fn format(self) -> Format {
        self.codec.format()
    }

    /// All input bytes consumed so far, trailing discarded bytes included.
    pub closed spec fn fed(self) -> Seq<u8> {
        self.fed_log@
    }

    /// All output bytes produced so far.
    pub closed spec fn given(self) -> Seq<u8> {
        self.codec.emitted()
    }

    /// Whether the end-of-stream marker has been recognised.
    pub closed spec fn ended(self) -> bool {
        self.phase is Done
    }

    /// Whether a fatal error was reported.
    pub closed spec fn failed(self) -> bool {
        self.phase is Failed
    }

    /// The fatal error reported, if any.
    pub closed spec fn fail_error(self) -> Error {
        match self.phase {
            DecodePhase::Failed(e) => e,
            _ => Error::CorruptInput,
        }
    }

    /// The bytes the codec can still produce without further input: the
    /// session's backlog.
    pub closed spec fn stash(self) -> Seq<u8> {
        self.codec.pending()
    }

    /// Internal invariant tying the phase to the codec's state.
    pub closed spec fn wf(self) -> bool {
        &&& accept_facts(self.format().id())
        &&& (match self.phase {
            DecodePhase::Decoding => self.codec.wf() && !self.codec.done() && self.codec.absorbed()
                == self.fed_log@,
            DecodePhase::Done => self.codec.wf() && self.codec.done() && is_prefix_of(
                self.codec.absorbed(),
                self.fed_log@,
            ),
            DecodePhase::Failed(e) => e == Error::CorruptInput || e == Error::UnexpectedEof,
        })
    }

    /// At the end, some prefix of the bytes fed in forms one complete stream
    /// and the bytes given out are exactly its decode; what follows that
    /// prefix was discarded as trailing data.
    pub open spec fn complete_session(self) -> bool {
        exists|k: int|
            0 <= k <= self.fed().len() && stream_complete(
                self.format().id(),
                #[trigger] self.fed().take(k),
            ) && self.given() == stream_plain(self.format().id(), self.fed().take(k))
    }

    /// A session that has ended satisfies its byte-conservation statement.
    pub proof fn lemma_ended_session(self)
        requires
            self.wf(),
            self.ended(),
        ensures
            self.complete_session(),
    {
        self.codec.lemma_wf_facts();
        let l = self.codec.absorbed().len() as int;
        assert(self.fed().take(l) == self.codec.absorbed());
        assert(stream_complete(self.format().id(), self.fed().take(l)));
    }

    /// Everything fed so far is acceptable: before the end marker it is what
    /// the decoder absorbed, after it a complete stream plus ignored
    /// trailing bytes.
    pub proof fn lemma_fed_acceptable(self)
        requires
            self.wf(),
            !self.failed(),
        ensures
            stream_acceptable(self.format().id(), self.fed()),
    {
        self.codec.lemma_wf_facts();
        if self.phase is Done {
            let l = self.codec.absorbed().len() as int;
            assert(self.codec.absorbed() + self.fed().skip(l) =~= self.fed());
            assert(stream_acceptable(
                self.format().id(),
                self.codec.absorbed() + self.fed().skip(l),
            ));
        }
    }

    /// Builds a fresh decode driver. Decoders take no level.
    pub fn new(fmt: Format) -> (c: CoreDecoder)
        ensures
            c.wf(),
            !c.ended(),
            !c.failed(),
            c.format() == fmt,
            c.fed() == Seq::<u8>::empty(),
            c.given() == Seq::<u8>::empty(),
            accept_facts(fmt.id()),
    {
        let codec = DecodeCodec::new(fmt);
        CoreDecoder { codec, phase: DecodePhase::Decoding, fed_log: Ghost(Seq::empty()) }
    }

    /// One drive invocation. In Decoding, transforms `input` and reports the
    /// consumed prefix; recognising the end marker moves to Done. At Done,
    /// trailing input is consumed and silently discarded. Fails with
    /// `CorruptInput` exactly when the bytes driven across are not
    /// acceptable, and with `UnexpectedEof` when `input_over` is signalled
    /// and no progress toward the end marker remains; either failure is
    /// terminal and replayed.
    pub fn advance(&mut self, input: &[u8], input_over: bool) -> (r: Result<DriveStep, Error>)
        requires
            old(self).wf(),
        ensures
            final(self).wf(),
            final(self).format() == old(self).format(),
            accept_facts(old(self).format().id()),
            (match r {
                Ok(st) => {
                    &&& st.consumed <= input@.len()
                    &&& final(self).fed() == old(self).fed() + input@.take(st.consumed as int)
                    &&& final(self).given() == old(self).given() + st.out@
                    &&& st.end == final(self).ended()
                    &&& !final(self).failed()
                    &&& (final(self).ended() ==> final(self).complete_session())
                    &&& (input@.len() > 0 ==> st.consumed > 0 || st.out@.len() > 0 || st.end)
                    &&& (input_over ==> st.consumed < input@.len() || st.out@.len() > 0
                        || st.end)
                    &&& (st.consumed == 0 ==> final(self).stash().len() + st.out@.len() == old(
                        self,
                    ).stash().len())
                    &&& (old(self).ended() ==> st.end && st.consumed == input@.len() && st.out@
                        == Seq::<u8>::empty() && final(self).given() == old(self).given()
                        && final(self).stash() == old(self).stash())
                },
                Err(e) => {
                    &&& (e == Error::CorruptInput || e == Error::UnexpectedEof)
                    &&& final(self).failed()
                    &&& final(self).fail_error() == e
                    &&& (!old(self).failed() && e == Error::CorruptInput
                        ==> !stream_acceptable(
                        old(self).format().id(),
                        old(self).fed() + input@,
                    ))
                    &&& (!old(self).failed() && e == Error::UnexpectedEof ==> input_over
                        && no_end_yet(old(self).format().id(), old(self).fed() + input@))
                    &&& (old(self).failed() ==> *final(self) == *old(self) && e == old(
                        self,
                    ).fail_error())
                },
            }),
            old(self).failed() ==> r is Err,
            old(self).ended() ==> r is Ok,
    {
        match self.phase {
            DecodePhase::Failed(e) => Err(e),
            DecodePhase::Done => {
                proof {
                    let l = self.codec.absorbed().len() as int;
                    assert(self.codec.absorbed() =~= (self.fed_log@ + input@).take(l));
                    assert(old(self).given() + Seq::<u8>::empty() =~= old(self).given());
                }
                self.fed_log = Ghost(self.fed_log@ + input@);
                proof {
                    self.codec.lemma_wf_facts();
                    assert(input@.take(input@.len() as int) =~= input@);
                    let l = self.codec.absorbed().len() as int;
                    assert(self.fed().take(l) == self.codec.absorbed());
                    assert(stream_complete(self.format().id(), self.fed().take(l)));
                }
                Ok(DriveStep { consumed: input.len(), out: Vec::new(), end: true })
            },
            DecodePhase::Decoding => {
                match self.codec.step(input) {
                    Ok((n, out, end)) => {
                        self.fed_log = Ghost(self.fed_log@ + input@.take(n as int));
                        proof {
                            if n == 0 {
                                assert(out@.len() == old(self).codec.pending().take(
                                    out@.len() as int,
                                ).len());
                                assert(out@.len() <= old(self).codec.pending().len());
                                assert(self.codec.pending().len() + out@.len() == old(
                                    self,
                                ).codec.pending().len());
                            }
                        }
                        if end {
                            self.phase = DecodePhase::Done;
                            proof {
                                let l = self.codec.absorbed().len() as int;
                                assert(self.codec.absorbed() =~= self.fed_log@.take(l));
                                assert(self.fed_log@.take(l) == self.fed());
                            }
                            Ok(DriveStep { consumed: n, out, end: true })
                        } else if input_over && n == input.len() && out.len() == 0 {
                            self.phase = DecodePhase::Failed(Error::UnexpectedEof);
                            proof {
                                self.codec.lemma_wf_facts();
                                assert(input@.take(input@.len() as int) =~= input@);
                                assert(self.codec.absorbed() == old(self).fed() + input@);
                            }
                            Err(Error::UnexpectedEof)
                        } else {
                            Ok(DriveStep { consumed: n, out, end: false })
                        }
                    },
                    Err(e) => {
                        self.phase = DecodePhase::Failed(Error::CorruptInput);
                        Err(Error::CorruptInput)
                    },
                }
            },
        }
    }
}

/// One core driver of either direction, behind one interface, so that the
/// adapters can share their plumbing.
pub enum Driver {
    /// An encode session.
    Encode(CoreEncoder),
    /// A decode session.
    Decode(CoreDecoder),
}

impl Driver {
    /// Whether this drives an encoder.
    pub open spec fn is_encode(self) -> bool {
        self is Encode
    }

    /// Internal invariant of the underlying core.
    pub open spec fn wf(self) -> bool {
        match self {
            Driver::Encode(c) => c.wf(),
            Driver::Decode(c) => c.wf(),
        }
    }

    /// The framing driven.
    pub open spec fn format(self) -> Format {
        match self {
            Driver::Encode(c) => c.format(),
            Driver::Decode(c) => c.format(),
        }
    }

    /// All input bytes consumed so far.
    pub open spec fn fed(self) -> Seq<u8> {
        match self {
            Driver::Encode(c) => c.fed(),
            Driver::Decode(c) => c.fed(),
        }
    }

    /// All output bytes produced so far.
    pub open spec fn given(self) -> Seq<u8> {
        match self {
            Driver::Encode(c) => c.given(),
            Driver::Decode(c) => c.given(),
        }
    }

    /// Whether the session has reached its end state.
    pub open spec fn ended(self) -> bool {
        match self {
            Driver::Encode(c) => c.ended(),
            Driver::Decode(c) => c.ended(),
        }
    }

    /// Whether a fatal error was reported.
    pub open spec fn failed(self) -> bool {
        match self {
            Driver::Encode(c) => false,
            Driver::Decode(c) => c.failed(),
        }
    }

    /// The fatal error reported, if any.
    pub open spec fn fail_error(self) -> Error {
        match self {
            Driver::Encode(c) => Error::CorruptInput,
            Driver::Decode(c) => c.fail_error(),
        }
    }

    /// The session's backlog: the bytes it can still produce without
    /// consuming further input.
    pub open spec fn stash(self) -> Seq<u8> {
        match self {
            Driver::Encode(c) => c.stash(),
            Driver::Decode(c) => c.stash(),
        }
    }

    /// Whether more caller input can still be accepted: for encode, until
    /// end of input was signalled and consumed; for decode, always — once
    /// the end marker is recognised, trailing input is discarded.
    pub open spec fn accepting(self) -> bool {
        match self {
            Driver::Encode(c) => c.accepting(),
            Driver::Decode(c) => true,
        }
    }

    /// While an encode session accepts input, it has not ended.
    pub proof fn lemma_accepting_not_ended(self)
        requires
            self.is_encode(),
            self.accepting(),
        ensures
            !self.ended(),
            !self.failed(),
    {
        match self {
            Driver::Encode(c) => c.lemma_accepting(),
            Driver::Decode(c) => (),
        }
    }

    /// The direction's byte-conservation statement at the end of a session:
    /// for encode, the bytes given out form one complete stream that decodes
    /// to the bytes fed in, with the end marker only at the end; for decode,
    /// a prefix of the bytes fed in forms one complete stream whose decode
    /// is exactly the bytes given out.
    pub open spec fn complete_session(self) -> bool {
        match self {
            Driver::Encode(c) => c.complete_session(),
            Driver::Decode(c) => c.complete_session(),
        }
    }

    /// Mid-session conservation for an encode session: the bytes given out,
    /// extended by the backlog, form one complete stream decoding to the
    /// bytes fed in.
    pub open spec fn conserving(self) -> bool {
        match self {
            Driver::Encode(c) => c.conserving(),
            Driver::Decode(c) => true,
        }
    }

    /// Well-formedness gives mid-session conservation outright.
    pub proof fn lemma_conserving(self)
        requires
            self.wf(),
        ensures
            self.conserving(),
    {
        match self {
            Driver::Encode(c) => c.lemma_conserving(),
            Driver::Decode(c) => (),
        }
    }

    /// A session that has ended satisfies its byte-conservation statement.
    pub proof fn lemma_ended_session(self)
        requires
            self.wf(),
            self.ended(),
        ensures
            self.complete_session(),
    {
        match self {
            Driver::Encode(c) => c.lemma_ended_session(),
            Driver::Decode(c) => c.lemma_ended_session(),
        }
    }

    /// For a decode session that has not failed, everything fed so far is
    /// acceptable.
    pub proof fn lemma_fed_acceptable(self)
        requires
            self.wf(),
            !self.failed(),
            !self.is_encode(),
        ensures
            stream_acceptable(self.format().id(), self.fed()),
    {
        match self {
            Driver::Encode(c) => (),
            Driver::Decode(c) => c.lemma_fed_acceptable(),
        }
    }

    /// Builds an encode driver; rejects an invalid level.
    pub fn new_encode(fmt: Format, level: Level) -> (r: Result<Driver, Error>)
        ensures
            r is Ok <==> level.valid(),
            (match r {
                Ok(d) => {
                    &&& d.wf()
                    &&& !d.ended()
                    &&& !d.failed()
                    &&& d.accepting()
                    &&& d.is_encode()
                    &&& d.format() == fmt
                    &&& d.fed() == Seq::<u8>::empty()
                    &&& d.given() == Seq::<u8>::empty()
                },
                Err(e) => e == Error::InvalidLevel,
            }),
    {
        match CoreEncoder::new(fmt, level) {
            Ok(c) => Ok(Driver::Encode(c)),
            Err(e) => Err(e),
        }
    }

    /// Builds a decode driver. Decoders take no level.
    pub fn new_decode(fmt: Format) -> (d: Driver)
        ensures
            d.wf(),
            !d.ended(),
            !d.failed(),
            !d.is_encode(),
            d.format() == fmt,
            d.fed() == Seq::<u8>::empty(),
            d.given() == Seq::<u8>::empty(),
            accept_facts(fmt.id()),
    {
        Driver::Decode(CoreDecoder::new(fmt))
    }

    /// One drive invocation, of whichever direction this session has.
    pub fn advance(&mut self, input: &[u8], input_over: bool) -> (r: Result<DriveStep, Error>)
        requires
            old(self).wf(),
        ensures
            final(self).wf(),
            final(self).format() == old(self).format(),
            final(self).is_encode() == old(self).is_encode(),
            (match r {
                Ok(st) => {
                    &&& st.consumed <= input@.len()
                    &&& final(self).fed() == old(self).fed() + input@.take(st.consumed as int)
                    &&& final(self).given() == old(self).given() + st.out@
                    &&& st.end == final(self).ended()
                    &&& !final(self).failed()
                    &&& (final(self).ended() ==> final(self).complete_session())
                    &&& (input@.len() > 0 ==> st.consumed > 0 || st.out@.len() > 0 || st.end)
                    &&& (old(self).is_encode() ==> st.consumed == input@.len() || st.out@.len()
                        > 0 || st.end)
                    &&& (input_over && input@.len() == 0 && old(self).is_encode() ==> st.out@.len()
                        > 0 || st.end)
                    &&& (input_over && !old(self).is_encode() ==> st.consumed < input@.len()
                        || st.out@.len() > 0 || st.end)
                    &&& (st.consumed == 0 ==> final(self).stash().len() + st.out@.len() == old(
                        self,
                    ).stash().len())
                    &&& (old(self).ended() ==> st.end && st.out@ == Seq::<u8>::empty()
                        && final(self).given() == old(self).given())
                    &&& (old(self).ended() && old(self).is_encode() ==> st.consumed == 0
                        && *final(self) == *old(self))
                    &&& (old(self).ended() && !old(self).is_encode() ==> st.consumed
                        == input@.len())
                    &&& (old(self).accepting() && !input_over ==> final(self).accepting())
                    &&& (old(self).accepting() && !final(self).accepting() ==> st.consumed
                        == input@.len())
                },
                Err(e) => {
                    &&& (e == Error::WriteAfterClose <==> old(self).is_encode() && old(
                        self,
                    ).ended() && input@.len() > 0)
                    &&& (e == Error::WriteAfterClose ==> *final(self) == *old(self))
                    &&& (old(self).is_encode() ==> e == Error::WriteAfterClose)
                    &&& (!old(self).is_encode() ==> (e == Error::CorruptInput
                        || e == Error::UnexpectedEof) && final(self).failed()
                        && final(self).fail_error() == e)
                    &&& (!old(self).is_encode() && !old(self).failed() && e == Error::CorruptInput
                        ==> !stream_acceptable(
                        old(self).format().id(),
                        old(self).fed() + input@,
                    ))
                    &&& (!old(self).is_encode() && !old(self).failed() && e == Error::UnexpectedEof
                        ==> input_over && no_end_yet(
                        old(self).format().id(),
                        old(self).fed() + input@,
                    ))
                    &&& (old(self).failed() ==> *final(self) == *old(self) && e == old(
                        self,
                    ).fail_error())
                },
            }),
            old(self).failed() ==> r is Err,
            old(self).is_encode() && !(old(self).ended() && input@.len() > 0) ==> r is Ok,
            old(self).ended() && !old(self).is_encode() ==> r is Ok,
            !old(self).is_encode() ==> accept_facts(old(self).format().id()),
    {
        match self {
            Driver::Encode(c) => c.advance(input, input_over),
            Driver::Decode(c) => c.advance(input, input_over),
        }
    }
}

} // verus!
