//! The sink-style adapter: presents as a byte sink with back-pressure.
//!
//! The caller writes bytes in; produced bytes wait in an internal pending
//! buffer for the caller to forward to the real downstream sink at the
//! sink's own pace (`pending_output` / `ack_output`). When the downstream
//! sink is not ready the caller simply forwards nothing and retries later:
//! nothing observable changes. A downstream failure is reported back with
//! `poison`, after which every operation returns `DownstreamIo`. `close` is
//! idempotent, drives the codec's finish path exactly once, and a write or
//! flush after it fails with `WriteAfterClose`.
//!
//! Dropping the adapter without `close` is legal — bytes already forwarded
//! stay forwarded — but the downstream then holds an incomplete stream,
//! since the end marker is only produced by closing.

use vstd::prelude::*;
use vstd::slice::slice_subrange;

use crate::backend::no_end_yet;
use crate::backend::stream_acceptable;
use crate::backend::stream_complete;
use crate::backend::stream_plain;
use crate::codec::no_early_end;
use crate::driver::Driver;
use crate::Error;
use crate::Format;
use crate::Level;

verus! {

/// Presents an encode or decode session as a byte sink.
pub struct WriteAdapter {
    driver: Driver,
    scratch: Vec<u8>,
    cur: usize,
    done: bool,
    closing: bool,
    flushed: bool,
    poisoned: bool,
    fail: Option<Error>,
    forwarded: Ghost<Seq<u8>>,
}

impl WriteAdapter {
    /// Whether this is an encode session.
    pub closed spec fn is_encode(self) -> bool {
        self.driver.is_encode()
    }

    /// The framing driven.
    pub closed spec fn format(self) -> Format {
        self.driver.format()
    }

    /// All bytes the caller has successfully written in so far.
    pub closed spec fn accepted(self) -> Seq<u8> {
        self.driver.fed()
    }

    /// All produced bytes the caller has forwarded downstream so far.
    pub closed spec fn forwarded(self) -> Seq<u8> {
        self.forwarded@
    }

    /// The produced bytes waiting to be forwarded downstream.
    pub closed spec fn pending(self) -> Seq<u8> {
        self.scratch@.skip(self.cur as int)
    }

    /// All bytes produced so far, forwarded or still pending.
    pub open spec fn produced(self) -> Seq<u8> {
        self.forwarded() + self.pending()
    }

    /// Whether `close` has been called.
    pub closed spec fn closing(self) -> bool {
        self.closing
    }

    /// Whether the session is fully closed: `close` was called, the end
    /// marker is out, and nothing is left to forward.
    pub closed spec fn closed(self) -> bool {
        self.closing && self.done && self.pending().len() == 0
    }

    /// Whether the last flush completed and nothing has been written since.
    pub closed spec fn flushed(self) -> bool {
        self.flushed
    }

    /// Whether the codec reported a fatal error; the adapter is then
    /// terminal and replays it.
    pub closed spec fn failed(self) -> bool {
        self.fail is Some
    }

    /// The fatal error reported, if any.
    pub closed spec fn fail_error(self) -> Error {
        match self.fail {
            Some(e) => e,
            None => Error::CorruptInput,
        }
    }

    /// Whether the session's end marker has been reached.
    pub closed spec fn ended(self) -> bool {
        self.done
    }

    /// Whether a downstream failure was reported; every operation then
    /// returns `DownstreamIo`.
    pub closed spec fn poisoned(self) -> bool {
        self.poisoned
    }

    /// Internal invariant: the cursor is in range, the views account for
    /// every produced byte exactly once, and the mirror flags match the
    /// driver.
    pub closed spec fn wf(self) -> bool {
        &&& self.driver.wf()
        &&& (self.driver.failed() ==> self.fail is Some)
        &&& (match self.fail {
            Some(f) => f == Error::CorruptInput || f == Error::UnexpectedEof,
            None => true,
        })
        &&& self.cur <= self.scratch@.len()
        &&& (!self.failed() ==> self.forwarded@ + self.pending() == self.driver.given())
        &&& (!self.failed() ==> self.done == self.driver.ended())
        &&& (self.flushed ==> self.pending().len() == 0)
        &&& (!self.closing && !self.failed() && self.driver.is_encode()
            ==> self.driver.accepting())
    }

    /// The whole-session statement once closed: for encode, the bytes
    /// produced form one complete stream that decodes to the bytes written
    /// in; for decode, a prefix of the bytes written in forms one complete
    /// stream whose decode is exactly the bytes produced.
    pub open spec fn session_ok(self) -> bool {
        if self.is_encode() {
            &&& stream_complete(self.format().id(), self.produced())
            &&& stream_plain(self.format().id(), self.produced()) == self.accepted()
            &&& no_early_end(self.format().id(), self.produced())
        } else {
            exists|k: int|
                0 <= k <= self.accepted().len() && stream_complete(
                    self.format().id(),
                    #[trigger] self.accepted().take(k),
                ) && self.produced() == stream_plain(self.format().id(), self.accepted().take(k))
        }
    }

    /// The driver's whole-session statement carries over to the adapter's
    /// views.
    proof fn lemma_session_from_driver(self)
        requires
            self.driver.wf(),
            !self.failed(),
            self.forwarded@ + self.pending() == self.driver.given(),
            self.driver.complete_session(),
        ensures
            self.session_ok(),
    {
        assert(self.produced() == self.driver.given());
        if !self.is_encode() {
            let k = choose|k: int|
                0 <= k <= self.driver.fed().len() && stream_complete(
                    self.driver.format().id(),
                    #[trigger] self.driver.fed().take(k),
                ) && self.driver.given() == stream_plain(
                    self.driver.format().id(),
                    self.driver.fed().take(k),
                );
            assert(self.accepted().take(k) == self.driver.fed().take(k));
            assert(stream_complete(self.format().id(), self.accepted().take(k)));
        }
    }

    /// Builds an encoding sink adapter; rejects an invalid level.
    pub fn new_encode(fmt: Format, level: Level) -> (r: Result<WriteAdapter, Error>)
        ensures
            r is Ok <==> level.valid(),
            (match r {
                Ok(a) => {
                    &&& a.wf()
                    &&& a.is_encode()
                    &&& !a.closing()
                    &&& !a.closed()
                    &&& !a.failed()
                    &&& !a.poisoned()
                    &&& a.format() == fmt
                    &&& a.accepted() == Seq::<u8>::empty()
                    &&& a.forwarded() == Seq::<u8>::empty()
                    &&& a.pending() == Seq::<u8>::empty()
                },
                Err(e) => e == Error::InvalidLevel,
            }),
    {
        match Driver::new_encode(fmt, level) {
            Ok(driver) => Ok(
                WriteAdapter {
                    driver,
                    scratch: Vec::new(),
                    cur: 0,
                    done: false,
                    closing: false,
                    flushed: false,
                    poisoned: false,
                    fail: None,
                    forwarded: Ghost(Seq::empty()),
                },
            ),
            Err(e) => Err(e),
        }
    }

    /// Builds a decoding sink adapter. Decoders take no level.
    pub fn new_decode(fmt: Format) -> (a: WriteAdapter)
        ensures
            a.wf(),
            !a.is_encode(),
            !a.closing(),
            !a.closed(),
            !a.failed(),
            !a.poisoned(),
            a.format() == fmt,
            a.accepted() == Seq::<u8>::empty(),
            a.forwarded() == Seq::<u8>::empty(),
            a.pending() == Seq::<u8>::empty(),
    {
        WriteAdapter {
            driver: Driver::new_decode(fmt),
            scratch: Vec::new(),
            cur: 0,
            done: false,
            closing: false,
            flushed: false,
            poisoned: false,
            fail: None,
            forwarded: Ghost(Seq::empty()),
        }
    }

    /// Accepts bytes from the caller: one transform invocation, reporting
    /// how many of the offered bytes were taken. With pending output not
    /// yet forwarded it takes nothing — forward and acknowledge first.
    pub fn write(&mut self, bytes: &[u8]) -> (r: Result<usize, Error>)
        requires
            old(self).wf(),
        ensures
            final(self).wf(),
            final(self).format() == old(self).format(),
            final(self).is_encode() == old(self).is_encode(),
            final(self).forwarded() == old(self).forwarded(),
            final(self).closing() == old(self).closing(),
            (old(self).poisoned() ==> r == Err::<usize, Error>(Error::DownstreamIo) && *final(self) == *old(self)),
            (!old(self).poisoned() && old(self).failed() ==> r == Err::<usize, Error>(
                old(self).fail_error(),
            ) && *final(self) == *old(self)),
            (!old(self).poisoned() && !old(self).failed() && old(self).closing() ==> r == Err::<
                usize,
                Error,
            >(Error::WriteAfterClose) && *final(self) == *old(self)),
            (!old(self).poisoned() && !old(self).failed() && !old(self).closing() && old(self).is_encode() ==> r is Ok),
            (match r {
                Ok(n) => {
                    &&& !old(self).poisoned() && !old(self).closing()
                    &&& !final(self).failed() && !final(self).poisoned()
                    &&& n <= bytes@.len()
                    &&& final(self).accepted() == old(self).accepted() + bytes@.take(n as int)
                    &&& (old(self).pending().len() > 0 ==> n == 0 && *final(self) == *old(self))
                    &&& (old(self).pending().len() == 0 && bytes@.len() > 0 ==> n > 0 || final(self).pending().len() > 0 || final(self).ended())
                },
                Err(e) => {
                    &&& (e == Error::DownstreamIo <==> old(self).poisoned())
                    &&& (e == Error::WriteAfterClose <==> !old(self).poisoned() && !old(self).failed() && old(self).closing())
                    &&& (e != Error::DownstreamIo && e != Error::WriteAfterClose ==> final(self).failed() && (e == Error::CorruptInput || e == Error::UnexpectedEof))
                    &&& (!old(self).failed() && e == Error::CorruptInput ==> !old(self).is_encode() && !stream_acceptable(
                        old(self).format().id(),
                        old(self).accepted() + bytes@,
                    ))
                },
            }),
    {
        if self.poisoned {
            return Err(Error::DownstreamIo);
        }
        match self.fail {
            Some(e) => {
                return Err(e);
            },
            None => {},
        }
        if self.closing {
            return Err(Error::WriteAfterClose);
        }
        if self.cur < self.scratch.len() {
            proof {
                assert(bytes@.take(0) =~= Seq::<u8>::empty());
                assert(old(self).accepted() + Seq::<u8>::empty() =~= old(self).accepted());
            }
            return Ok(0);
        }
        proof {
            if self.driver.is_encode() {
                self.driver.lemma_accepting_not_ended();
            }
        }
        match self.driver.advance(bytes, false) {
            Ok(st) => {
                proof {
                    assert(self.forwarded@ + old(self).pending() =~= self.forwarded@);
                    assert(self.forwarded@ + st.out@ == self.driver.given());
                }
                self.scratch = st.out;
                self.cur = 0;
                self.done = st.end;
                self.flushed = false;
                proof {
                    assert(self.scratch@.skip(0) =~= self.scratch@);
                }
                Ok(st.consumed)
            },
            Err(e) => {
                self.fail = Some(e);
                Err(e)
            },
        }
    }

    /// The produced bytes waiting to be forwarded to the downstream sink.
    pub fn pending_output(&self) -> (r: &[u8])
        requires
            self.wf(),
        ensures
            r@ == self.pending(),
    {
        slice_subrange(self.scratch.as_slice(), self.cur, self.scratch.len())
    }

    /// Acknowledges that the downstream sink accepted the first `n` pending
    /// bytes; they count as forwarded from now on.
    pub fn ack_output(&mut self, n: usize)
        requires
            old(self).wf(),
            n <= old(self).pending().len(),
        ensures
            final(self).wf(),
            final(self).format() == old(self).format(),
            final(self).is_encode() == old(self).is_encode(),
            final(self).accepted() == old(self).accepted(),
            final(self).forwarded() == old(self).forwarded() + old(self).pending().take(n as int),
            final(self).pending() == old(self).pending().skip(n as int),
            final(self).produced() == old(self).produced(),
            final(self).closing() == old(self).closing(),
            final(self).failed() == old(self).failed(),
            final(self).poisoned() == old(self).poisoned(),
    {
        proof {
            assert(old(self).pending().take(n as int) + old(self).pending().skip(n as int)
                =~= old(self).pending());
        }
        let limit = self.scratch.len();
        proof {
            assert(self.cur as int + n as int <= limit as int);
        }
        self.cur = self.cur + n;
        self.forwarded = Ghost(self.forwarded@ + old(self).pending().take(n as int));
        proof {
            assert(self.scratch@.skip(old(self).cur as int).skip(n as int) =~= self.scratch@.skip(
                self.cur as int,
            ));
            assert((old(self).forwarded@ + old(self).pending().take(n as int)) + old(self).pending().skip(n as int) =~= old(self).forwarded@ + old(self).pending());
        }
    }

    /// Drains buffered codec output toward the caller. Returns `Ok(true)`
    /// when nothing is left to do; `Ok(false)` means pending output must be
    /// forwarded (and acknowledged) first, then flush again. Once it has
    /// returned `Ok(true)`, flushing again changes nothing.
    pub fn flush(&mut self) -> (r: Result<bool, Error>)
        requires
            old(self).wf(),
        ensures
            final(self).wf(),
            final(self).format() == old(self).format(),
            final(self).is_encode() == old(self).is_encode(),
            final(self).forwarded() == old(self).forwarded(),
            final(self).closing() == old(self).closing(),
            (old(self).poisoned() ==> r == Err::<bool, Error>(Error::DownstreamIo) && *final(self) == *old(self)),
            (!old(self).poisoned() && old(self).failed() ==> r == Err::<bool, Error>(
                old(self).fail_error(),
            ) && *final(self) == *old(self)),
            (!old(self).poisoned() && !old(self).failed() && old(self).closing() ==> r == Err::<
                bool,
                Error,
            >(Error::WriteAfterClose) && *final(self) == *old(self)),
            (!old(self).poisoned() && !old(self).failed() && !old(self).closing() ==> r is Ok),
            (!old(self).poisoned() && !old(self).failed() && !old(self).closing() && old(self).flushed() ==> r == Ok::<bool, Error>(true) && *final(self) == *old(self)),
            (match r {
                Ok(done) => {
                    &&& !final(self).failed() && !final(self).poisoned()
                    &&& final(self).accepted() == old(self).accepted()
                    &&& (done ==> final(self).pending().len() == 0 && final(self).flushed())
                    &&& (!done ==> final(self).pending().len() > 0)
                },
                Err(e) => {
                    &&& (e == Error::DownstreamIo <==> old(self).poisoned())
                    &&& (e == Error::WriteAfterClose <==> !old(self).poisoned() && !old(self).failed() && old(self).closing())
                    &&& (!old(self).poisoned() && old(self).failed() ==> e == old(self).fail_error())
                },
            }),
    {
        if self.poisoned {
            return Err(Error::DownstreamIo);
        }
        match self.fail {
            Some(e) => {
                return Err(e);
            },
            None => {},
        }
        if self.closing {
            return Err(Error::WriteAfterClose);
        }
        if self.cur < self.scratch.len() {
            return Ok(false);
        }
        if self.flushed {
            return Ok(true);
        }
        proof {
            if self.driver.is_encode() {
                self.driver.lemma_accepting_not_ended();
            } else {
                self.driver.lemma_fed_acceptable();
            }
        }
        let empty: [u8; 0] = [];
        match self.driver.advance(&empty, false) {
            Ok(st) => {
                proof {
                    assert(old(self).accepted() + empty@.take(st.consumed as int) =~= old(self).accepted());
                    assert(self.forwarded@ + old(self).pending() =~= self.forwarded@);
                    assert(self.forwarded@ + st.out@ == self.driver.given());
                }
                let has_output = st.out.len() > 0;
                self.scratch = st.out;
                self.cur = 0;
                self.done = st.end;
                proof {
                    assert(self.scratch@.skip(0) =~= self.scratch@);
                }
                if has_output {
                    Ok(false)
                } else {
                    self.flushed = true;
                    Ok(true)
                }
            },
            Err(e) => {
                proof {
                    assert(old(self).accepted() + empty@ =~= old(self).accepted());
                    assert(false);
                }
                Err(e)
            },
        }
    }

    /// Closes the sink: drives the codec's finish path — entered exactly
    /// once, however many times `close` is called — until the end marker is
    /// out and everything is forwarded. Returns `Ok(true)` when fully
    /// closed; `Ok(false)` means pending output must be forwarded (and
    /// acknowledged) first, then close again. Closing an already closed
    /// adapter is a benign no-op, not an error. On full closure the whole
    /// session's byte conservation holds.
    pub fn close(&mut self) -> (r: Result<bool, Error>)
        requires
            old(self).wf(),
        ensures
            final(self).wf(),
            final(self).format() == old(self).format(),
            final(self).is_encode() == old(self).is_encode(),
            final(self).forwarded() == old(self).forwarded(),
            (old(self).poisoned() ==> r == Err::<bool, Error>(Error::DownstreamIo) && *final(self) == *old(self)),
            (!old(self).poisoned() && old(self).failed() ==> r == Err::<bool, Error>(
                old(self).fail_error(),
            ) && *final(self) == *old(self)),
            (old(self).closed() && !old(self).poisoned() && !old(self).failed() ==> r == Ok::<
                bool,
                Error,
            >(true) && *final(self) == *old(self)),
            (!old(self).poisoned() && !old(self).failed() && old(self).is_encode() ==> r is Ok),
            (match r {
                Ok(done) => {
                    &&& !final(self).failed() && !final(self).poisoned()
                    &&& final(self).accepted() == old(self).accepted()
                    &&& final(self).closing()
                    &&& (done ==> final(self).closed() && final(self).session_ok())
                    &&& (!done ==> !final(self).closed())
                    &&& (old(self).pending().len() == 0 && !old(self).closed() ==> done || final(self).pending().len() > 0)
                    &&& (old(self).closed() ==> final(self).produced() == old(self).produced())
                },
                Err(e) => {
                    &&& (e == Error::DownstreamIo <==> old(self).poisoned())
                    &&& (!old(self).poisoned() && old(self).failed() ==> e == old(self).fail_error())
                    &&& (e != Error::DownstreamIo ==> final(self).failed())
                    &&& (!old(self).failed() && e != Error::DownstreamIo ==> e
                        == Error::UnexpectedEof && !old(self).is_encode() && no_end_yet(
                        old(self).format().id(),
                        old(self).accepted(),
                    ))
                },
            }),
    {
        if self.poisoned {
            return Err(Error::DownstreamIo);
        }
        match self.fail {
            Some(e) => {
                return Err(e);
            },
            None => {},
        }
        if self.closing && self.done && self.cur >= self.scratch.len() {
            proof {
                self.driver.lemma_ended_session();
                self.lemma_session_from_driver();
            }
            return Ok(true);
        }
        self.closing = true;
        if self.cur < self.scratch.len() {
            return Ok(false);
        }
        proof {
            if !self.driver.is_encode() {
                self.driver.lemma_fed_acceptable();
            }
        }
        let empty: [u8; 0] = [];
        match self.driver.advance(&empty, true) {
            Ok(st) => {
                proof {
                    assert(old(self).accepted() + empty@.take(st.consumed as int) =~= old(self).accepted());
                    assert(self.forwarded@ + old(self).pending() =~= self.forwarded@);
                    assert(self.forwarded@ + st.out@ == self.driver.given());
                }
                let has_output = st.out.len() > 0;
                self.scratch = st.out;
                self.cur = 0;
                self.done = st.end;
                self.flushed = false;
                proof {
                    assert(self.scratch@.skip(0) =~= self.scratch@);
                }
                if st.end && !has_output {
                    proof {
                        self.driver.lemma_ended_session();
                        self.lemma_session_from_driver();
                    }
                    Ok(true)
                } else {
                    Ok(false)
                }
            },
            Err(e) => {
                self.fail = Some(e);
                proof {
                    assert(old(self).accepted() + empty@ =~= old(self).accepted());
                }
                Err(e)
            },
        }
    }

    /// Records that the downstream sink failed. Every later operation
    /// returns `DownstreamIo`, as the sink's failure is sticky.
    pub fn poison(&mut self)
        requires
            old(self).wf(),
        ensures
            final(self).wf(),
            final(self).poisoned(),
            final(self).format() == old(self).format(),
            final(self).is_encode() == old(self).is_encode(),
            final(self).accepted() == old(self).accepted(),
            final(self).forwarded() == old(self).forwarded(),
            final(self).pending() == old(self).pending(),
            final(self).closing() == old(self).closing(),
    {
        self.poisoned = true;
    }
}

} // verus!
