//! The source-style adapter: presents as a buffered byte source.
//!
//! The caller offers it the upstream's currently available bytes together
//! with the upstream end-of-stream flag; the adapter drives the core until
//! it has at least one produced byte to hand out, reports end of stream, or
//! needs more input — the caller then suspends and calls again later. The
//! produced bytes sit in an internal scratch buffer and are taken out at the
//! caller's pace; a "needs more input" return leaves every observable view
//! unchanged, so a suspended round can be retried without loss.

use vstd::prelude::*;
use vstd::slice::slice_subrange;

use crate::backend::no_end_yet;
use crate::backend::stream_acceptable;
use crate::backend::stream_complete;
use crate::backend::stream_plain;
use crate::codec::no_early_end;
use crate::driver::Driver;
use crate::Error;
use crate::Format;
use crate::Level;

verus! {

/// What a `fill` call achieved.
#[derive(Clone, Copy, PartialEq, Eq, Structural, Debug)]
pub enum ReadStatus {
    /// At least one produced byte is buffered and can be taken.
    Ready,
    /// Nothing is buffered and the upstream bytes offered are exhausted;
    /// offer more (or signal upstream end of stream) and call again.
    NeedInput,
    /// The session has ended: every produced byte has been made available.
    Eof,
}

/// Presents an encode or decode session as a buffered byte source.
pub struct ReadAdapter {
    driver: Driver,
    scratch: Vec<u8>,
    cur: usize,
    done: bool,
    eof: bool,
    fail: Option<Error>,
    delivered: Ghost<Seq<u8>>,
}

impl ReadAdapter {
    /// Whether this is an encode session.
    pub closed spec fn is_encode(self) -> bool {
        self.driver.is_encode()
    }

    /// The framing driven.
    pub closed spec fn format(self) -> Format {
        self.driver.format()
    }

    /// All upstream bytes consumed so far.
    pub closed spec fn taken(self) -> Seq<u8> {
        self.driver.fed()
    }

    /// All produced bytes the caller has taken out so far.
    pub closed spec fn delivered(self) -> Seq<u8> {
        self.delivered@
    }

    /// The produced bytes buffered and not yet taken out.
    pub closed spec fn buffered(self) -> Seq<u8> {
        self.scratch@.skip(self.cur as int)
    }

    /// All bytes produced so far, taken out or still buffered.
    pub open spec fn produced(self) -> Seq<u8> {
        self.delivered() + self.buffered()
    }

    /// Whether end of stream has been reported to the caller.
    pub closed spec fn ended(self) -> bool {
        self.eof
    }

    /// Whether a fatal error was reported; the adapter is then terminal and
    /// replays it.
    pub closed spec fn failed(self) -> bool {
        self.fail is Some
    }

    /// The fatal error reported, if any.
    pub closed spec fn fail_error(self) -> Error {
        match self.fail {
            Some(e) => e,
            None => Error::CorruptInput,
        }
    }

    /// Internal invariant: the scratch cursor is in range and the views
    /// account for every produced byte exactly once.
    pub closed spec fn wf(self) -> bool {
        &&& self.driver.wf()
        &&& (self.driver.failed() ==> self.fail is Some)
        &&& self.cur <= self.scratch@.len()
        &&& (!self.failed() ==> self.delivered@ + self.buffered() == self.driver.given())
        &&& (!self.failed() ==> self.done == self.driver.ended())
        &&& (self.eof ==> self.done && self.cur == self.scratch@.len())
    }

    /// The whole-session statement at end of stream: for encode, the bytes
    /// produced form one complete stream that decodes to the bytes taken
    /// from upstream; for decode, a prefix of the bytes taken forms one
    /// complete stream whose decode is exactly the bytes produced.
    pub open spec fn session_ok(self) -> bool {
        if self.is_encode() {
            &&& stream_complete(self.format().id(), self.produced())
            &&& stream_plain(self.format().id(), self.produced()) == self.taken()
            &&& no_early_end(self.format().id(), self.produced())
        } else {
            exists|k: int|
                0 <= k <= self.taken().len() && stream_complete(
                    self.format().id(),
                    #[trigger] self.taken().take(k),
                ) && self.produced() == stream_plain(self.format().id(), self.taken().take(k))
        }
    }

    /// Mid-session byte conservation for an encode session: the bytes
    /// produced so far, extended by some remainder, form one complete
    /// stream decoding to exactly the bytes taken from upstream — so what
    /// has been handed out is always a prefix of a valid encoding of what
    /// was consumed.
    pub open spec fn conserving(self) -> bool {
        self.is_encode() ==> exists|t: Seq<u8>|
            (#[trigger] stream_complete(self.format().id(), self.produced() + t))
            && stream_plain(self.format().id(), self.produced() + t) == self.taken()
            && no_early_end(self.format().id(), self.produced() + t)
    }

    /// Well-formedness gives mid-session conservation outright.
    proof fn lemma_conserving_views(self)
        requires
            self.driver.wf(),
            !self.driver.failed(),
            self.delivered@ + self.buffered() == self.driver.given(),
        ensures
            self.conserving(),
    {
        self.driver.lemma_conserving();
        if self.is_encode() {
            assert(self.produced() =~= self.driver.given());
            assert(self.produced() + self.driver.stash() =~= self.driver.given()
                + self.driver.stash());
            assert(stream_complete(self.format().id(), self.produced() + self.driver.stash()));
        }
    }

    /// The driver's whole-session statement carries over to the adapter's
    /// views once every produced byte is accounted for.
    proof fn lemma_session_from_driver(self)
        requires
            self.driver.wf(),
            !self.failed(),
            self.delivered@ + self.buffered() == self.driver.given(),
            self.buffered().len() == 0,
            self.driver.complete_session(),
        ensures
            self.session_ok(),
    {
        assert(self.produced() =~= self.driver.given());
        if !self.is_encode() {
            let k = choose|k: int|
                0 <= k <= self.driver.fed().len() && stream_complete(
                    self.driver.format().id(),
                    #[trigger] self.driver.fed().take(k),
                ) && self.driver.given() == stream_plain(
                    self.driver.format().id(),
                    self.driver.fed().take(k),
                );
            assert(self.taken().take(k) == self.driver.fed().take(k));
            assert(stream_complete(self.format().id(), self.taken().take(k)));
        }
    }

    /// Builds an encoding source adapter; rejects an invalid level.
    pub fn new_encode(fmt: Format, level: Level) -> (r: Result<ReadAdapter, Error>)
        ensures
            r is Ok <==> level.valid(),
            (match r {
                Ok(a) => {
                    &&& a.wf()
                    &&& a.is_encode()
                    &&& !a.ended()
                    &&& !a.failed()
                    &&& a.format() == fmt
                    &&& a.taken() == Seq::<u8>::empty()
                    &&& a.delivered() == Seq::<u8>::empty()
                    &&& a.buffered() == Seq::<u8>::empty()
                },
                Err(e) => e == Error::InvalidLevel,
            }),
    {
        match Driver::new_encode(fmt, level) {
            Ok(driver) => Ok(
                ReadAdapter {
                    driver,
                    scratch: Vec::new(),
                    cur: 0,
                    done: false,
                    eof: false,
                    fail: None,
                    delivered: Ghost(Seq::empty()),
                },
            ),
            Err(e) => Err(e),
        }
    }

    /// Builds a decoding source adapter. Decoders take no level.
    pub fn new_decode(fmt: Format) -> (a: ReadAdapter)
        ensures
            a.wf(),
            !a.is_encode(),
            !a.ended(),
            !a.failed(),
            a.format() == fmt,
            a.taken() == Seq::<u8>::empty(),
            a.delivered() == Seq::<u8>::empty(),
            a.buffered() == Seq::<u8>::empty(),
    {
        ReadAdapter {
            driver: Driver::new_decode(fmt),
            scratch: Vec::new(),
            cur: 0,
            done: false,
            eof: false,
            fail: None,
            delivered: Ghost(Seq::empty()),
        }
    }

    /// Ensures at least one produced byte is buffered, or reports why none
    /// can be: `NeedInput` when the offered upstream bytes are exhausted and
    /// upstream has not ended — a suspension point that changes no
    /// observable view — or `Eof` when the session has ended; a reported
    /// end of stream is absorbing. Reports how many of the offered upstream
    /// bytes were consumed. Encoding cannot fail; decoding fails exactly on
    /// unacceptable bytes or upstream end before the end marker, and a
    /// failed adapter replays its error.
    pub fn fill(&mut self, upstream: &[u8], upstream_eof: bool) -> (r: Result<
        (usize, ReadStatus),
        Error,
    >)
        requires
            old(self).wf(),
        ensures
            final(self).wf(),
            final(self).format() == old(self).format(),
            final(self).is_encode() == old(self).is_encode(),
            final(self).delivered() == old(self).delivered(),
            (old(self).failed() ==> r == Err::<(usize, ReadStatus), Error>(old(self).fail_error())
                && *final(self) == *old(self)),
            (!old(self).failed() && old(self).ended() ==> r == Ok::<(usize, ReadStatus), Error>(
                (0, ReadStatus::Eof),
            ) && *final(self) == *old(self)),
            (!old(self).failed() && old(self).is_encode() ==> r is Ok),
            (match r {
                Ok((n, status)) => {
                    &&& n <= upstream@.len()
                    &&& !final(self).failed()
                    &&& final(self).taken() == old(self).taken() + upstream@.take(n as int)
                    &&& final(self).conserving()
                    &&& (status is Ready ==> final(self).buffered().len() > 0
                        && !final(self).ended())
                    &&& (status is NeedInput ==> final(self).buffered().len() == 0
                        && !final(self).ended() && n == upstream@.len()
                        && final(self).produced() == old(self).produced())
                    &&& (status is Eof ==> final(self).ended() && final(self).buffered().len()
                        == 0 && final(self).session_ok())
                    &&& (upstream@.len() == 0 ==> final(self).taken() == old(self).taken()
                        && final(self).produced() == old(self).produced() || status is Ready)
                },
                Err(e) => {
                    &&& final(self).failed()
                    &&& final(self).fail_error() == e
                    &&& (!old(self).failed() ==> !old(self).is_encode() && (e
                        == Error::CorruptInput || e == Error::UnexpectedEof) && (e
                        == Error::CorruptInput ==> !stream_acceptable(
                        old(self).format().id(),
                        old(self).taken() + upstream@,
                    )) && (e == Error::UnexpectedEof ==> upstream_eof && no_end_yet(
                        old(self).format().id(),
                        old(self).taken() + upstream@,
                    )))
                },
            }),
    {
        match self.fail {
            Some(e) => {
                return Err(e);
            },
            None => {},
        }
        if self.cur < self.scratch.len() {
            proof {
                assert(upstream@.take(0) =~= Seq::<u8>::empty());
                assert(old(self).taken() + Seq::<u8>::empty() =~= old(self).taken());
                self.lemma_conserving_views();
            }
            return Ok((0, ReadStatus::Ready));
        }
        if self.eof {
            proof {
                assert(upstream@.take(0) =~= Seq::<u8>::empty());
                assert(old(self).taken() + Seq::<u8>::empty() =~= old(self).taken());
                self.driver.lemma_ended_session();
                self.lemma_session_from_driver();
                self.lemma_conserving_views();
            }
            return Ok((0, ReadStatus::Eof));
        }
        if self.done {
            self.eof = true;
            proof {
                assert(upstream@.take(0) =~= Seq::<u8>::empty());
                assert(old(self).taken() + Seq::<u8>::empty() =~= old(self).taken());
                self.driver.lemma_ended_session();
                self.lemma_session_from_driver();
                self.lemma_conserving_views();
            }
            return Ok((0, ReadStatus::Eof));
        }
        let mut i: usize = 0;
        loop
            invariant
                self.driver.wf(),
                !self.driver.failed(),
                !self.driver.ended(),
                self.fail is None,
                !old(self).failed(),
                !old(self).ended(),
                !self.done,
                !self.eof,
                self.driver.format() == old(self).format(),
                self.driver.is_encode() == old(self).is_encode(),
                self.scratch == old(self).scratch,
                self.cur == old(self).cur,
                self.cur == self.scratch@.len(),
                self.delivered == old(self).delivered,
                self.delivered@ == self.driver.given(),
                i <= upstream@.len(),
                self.driver.fed() == old(self).taken() + upstream@.take(i as int),
            decreases upstream@.len() - i,
        {
            let tail = slice_subrange(upstream, i, upstream.len());
            match self.driver.advance(tail, upstream_eof) {
                Ok(st) => {
                    proof {
                        assert(upstream@.take(i as int) + tail@.take(st.consumed as int)
                            =~= upstream@.take(i as int + st.consumed as int));
                        assert(old(self).taken() + upstream@.take(i as int) + tail@.take(
                            st.consumed as int,
                        ) =~= old(self).taken() + upstream@.take(i as int + st.consumed as int));
                    }
                    i = i + st.consumed;
                    if st.out.len() > 0 {
                        proof {
                            assert(self.delivered@ + st.out@ == self.driver.given());
                        }
                        self.scratch = st.out;
                        self.cur = 0;
                        self.done = st.end;
                        proof {
                            assert(self.scratch@.skip(0) =~= self.scratch@);
                            self.lemma_conserving_views();
                        }
                        return Ok((i, ReadStatus::Ready));
                    }
                    proof {
                        assert(self.delivered@ + st.out@ =~= self.delivered@);
                        assert(self.scratch@.skip(self.cur as int) =~= Seq::<u8>::empty());
                        assert(self.delivered@ + self.scratch@.skip(self.cur as int)
                            =~= self.delivered@);
                    }
                    if st.end {
                        self.done = true;
                        self.eof = true;
                        proof {
                            self.driver.lemma_ended_session();
                            self.lemma_session_from_driver();
                            self.lemma_conserving_views();
                        }
                        return Ok((i, ReadStatus::Eof));
                    }
                    if i == upstream.len() && !upstream_eof {
                        proof {
                            self.lemma_conserving_views();
                        }
                        return Ok((i, ReadStatus::NeedInput));
                    }
                },
                Err(e) => {
                    self.fail = Some(e);
                    proof {
                        assert(old(self).taken() + upstream@.take(i as int) + tail@ =~= old(
                            self,
                        ).taken() + upstream@);
                    }
                    return Err(e);
                },
            }
        }
    }

    /// How many produced bytes are buffered and can be taken at once.
    pub fn available(&self) -> (n: usize)
        requires
            self.wf(),
        ensures
            n == self.buffered().len(),
    {
        self.scratch.len() - self.cur
    }

    /// Takes out up to `max` buffered bytes, in stream order.
    pub fn take(&mut self, max: usize) -> (out: Vec<u8>)
        requires
            old(self).wf(),
        ensures
            final(self).wf(),
            final(self).format() == old(self).format(),
            final(self).is_encode() == old(self).is_encode(),
            final(self).taken() == old(self).taken(),
            final(self).ended() == old(self).ended(),
            final(self).failed() == old(self).failed(),
            out@ == (if max <= old(self).buffered().len() {
                old(self).buffered().take(max as int)
            } else {
                old(self).buffered()
            }),
            final(self).buffered() == old(self).buffered().skip(out@.len() as int),
            final(self).delivered() == old(self).delivered() + out@,
            final(self).produced() == old(self).produced(),
    {
        let avail = self.scratch.len() - self.cur;
        let n = if max <= avail {
            max
        } else {
            avail
        };
        let mut out: Vec<u8> = Vec::new();
        let mut j: usize = 0;
        while j < n
            invariant
                self.driver == old(self).driver,
                self.scratch == old(self).scratch,
                self.cur == old(self).cur,
                self.done == old(self).done,
                self.eof == old(self).eof,
                self.fail == old(self).fail,
                self.delivered == old(self).delivered,
                self.cur <= self.scratch@.len(),
                self.scratch@.len() <= usize::MAX,
                self.cur + n <= self.scratch@.len(),
                j <= n,
                out@ == self.scratch@.skip(self.cur as int).take(j as int),
            decreases n - j,
        {
            let b = self.scratch[self.cur + j];
            proof {
                assert(self.scratch@.skip(self.cur as int).take(j as int).push(
                    self.scratch@[self.cur as int + j as int],
                ) =~= self.scratch@.skip(self.cur as int).take(j as int + 1));
            }
            out.push(b);
            j = j + 1;
        }
        proof {
            if max > old(self).buffered().len() {
                assert(self.scratch@.skip(self.cur as int).take(n as int) =~= self.scratch@.skip(
                    self.cur as int,
                ));
            }
        }
        let ghost prev = self.delivered@;
        self.cur = self.cur + n;
        self.delivered = Ghost(self.delivered@ + out@);
        proof {
            assert(self.scratch@.skip(old(self).cur as int).skip(n as int) =~= self.scratch@.skip(
                self.cur as int,
            ));
            assert(prev + (old(self).buffered().take(n as int) + self.scratch@.skip(
                self.cur as int,
            )) =~= (prev + old(self).buffered().take(n as int)) + self.scratch@.skip(
                self.cur as int,
            ));
            assert(old(self).buffered().take(n as int) + old(self).buffered().skip(n as int)
                =~= old(self).buffered());
        }
        out
    }
}

} // verus!
