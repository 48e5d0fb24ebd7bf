//! The chunk-stream adapter: a chunked byte-buffer sequence in, a chunked
//! byte-buffer sequence out.
//!
//! Each pushed chunk is fed through the core driver in full; each call hands
//! back one produced batch (possibly empty — the caller suppresses empty
//! emissions). `finish` is called at upstream end of stream: for encode it
//! flushes and seals the stream, for decode it checks that the end marker
//! was seen. Encoding cannot fail; decoding fails exactly on unacceptable
//! bytes or a missing end marker, and a failed adapter is terminal: every
//! later call replays the same error and changes nothing. The adapter's
//! ghost record of the chunks that went in and the batches that came out
//! ties a whole session to the laws: at the end, the batches given out are
//! exactly the codec transform of the concatenation of the chunks fed in,
//! whatever the chunk boundaries were.

use vstd::prelude::*;
use vstd::slice::slice_subrange;

use crate::backend::no_end_yet;
use crate::backend::stream_acceptable;
use crate::backend::stream_complete;
use crate::backend::stream_plain;
use crate::driver::Driver;
use crate::laws::encode_session_ok;
use crate::Error;
use crate::Format;
use crate::Level;

verus! {

/// Maps a chunked sequence of byte buffers to another chunked sequence,
/// through an encode or decode session.
pub struct StreamAdapter {
    driver: Driver,
    chunks_in: Ghost<Seq<Seq<u8>>>,
    chunks_out: Ghost<Seq<Seq<u8>>>,
    finished: bool,
    fail: Option<Error>,
}

impl StreamAdapter {
    /// Whether this is an encode session.
    pub closed spec fn is_encode(self) -> bool {
        self.driver.is_encode()
    }

    /// The framing driven.
    pub closed spec fn format(self) -> Format {
        self.driver.format()
    }

    /// The chunks consumed so far, as they were offered.
    pub closed spec fn fed_chunks(self) -> Seq<Seq<u8>> {
        self.chunks_in@
    }

    /// The non-empty batches handed out so far, in order.
    pub closed spec fn out_chunks(self) -> Seq<Seq<u8>> {
        self.chunks_out@
    }

    /// Whether `finish` has completed.
    pub closed spec fn finished(self) -> bool {
        self.finished
    }

    /// Whether a fatal error was reported; the adapter is then terminal and
    /// replays it.
    pub closed spec fn failed(self) -> bool {
        self.fail is Some
    }

    /// The fatal error reported, if any.
    pub closed spec fn fail_error(self) -> Error {
        match self.fail {
            Some(e) => e,
            None => Error::CorruptInput,
        }
    }

    /// Internal invariant: the ghost chunk records flatten to exactly what
    /// the driver consumed and produced.
    pub closed spec fn wf(self) -> bool {
        &&& self.driver.wf()
        &&& (self.driver.failed() ==> self.fail is Some)
        &&& (!self.failed() ==> {
            &&& self.driver.fed() == self.chunks_in@.flatten()
            &&& self.driver.given() == self.chunks_out@.flatten()
        })
        &&& (!self.failed() && self.driver.is_encode() && !self.finished
            ==> self.driver.accepting())
        &&& (self.finished ==> self.driver.ended())
    }

    /// The whole-session statement at the end: for encode, the batches out
    /// form one complete stream that decodes to the concatenation of the
    /// chunks in; for decode, a prefix of the concatenated chunks in forms
    /// one complete stream whose decode is exactly the batches out.
    pub open spec fn session_ok(self) -> bool {
        if self.is_encode() {
            encode_session_ok(self.format().id(), self.fed_chunks(), self.out_chunks().flatten())
        } else {
            exists|k: int|
                0 <= k <= self.fed_chunks().flatten().len() && stream_complete(
                    self.format().id(),
                    #[trigger] self.fed_chunks().flatten().take(k),
                ) && self.out_chunks().flatten() == stream_plain(
                    self.format().id(),
                    self.fed_chunks().flatten().take(k),
                )
        }
    }

    /// Builds an encoding chunk-stream adapter; rejects an invalid level.
    pub fn new_encode(fmt: Format, level: Level) -> (r: Result<StreamAdapter, Error>)
        ensures
            r is Ok <==> level.valid(),
            (match r {
                Ok(a) => {
                    &&& a.wf()
                    &&& a.is_encode()
                    &&& !a.finished()
                    &&& !a.failed()
                    &&& a.format() == fmt
                    &&& a.fed_chunks() == Seq::<Seq<u8>>::empty()
                    &&& a.out_chunks() == Seq::<Seq<u8>>::empty()
                },
                Err(e) => e == Error::InvalidLevel,
            }),
    {
        match Driver::new_encode(fmt, level) {
            Ok(driver) => Ok(
                StreamAdapter {
                    driver,
                    chunks_in: Ghost(Seq::empty()),
                    chunks_out: Ghost(Seq::empty()),
                    finished: false,
                    fail: None,
                },
            ),
            Err(e) => Err(e),
        }
    }

    /// Builds a decoding chunk-stream adapter. Decoders take no level.
    pub fn new_decode(fmt: Format) -> (a: StreamAdapter)
        ensures
            a.wf(),
            !a.is_encode(),
            !a.finished(),
            !a.failed(),
            a.format() == fmt,
            a.fed_chunks() == Seq::<Seq<u8>>::empty(),
            a.out_chunks() == Seq::<Seq<u8>>::empty(),
    {
        StreamAdapter {
            driver: Driver::new_decode(fmt),
            chunks_in: Ghost(Seq::empty()),
            chunks_out: Ghost(Seq::empty()),
            finished: false,
            fail: None,
        }
    }

    /// Consumes one upstream chunk in full and hands back one produced
    /// batch, possibly empty. An empty chunk — a "not ready" round — is
    /// consumed without driving the codec and produces nothing. Encoding
    /// always succeeds; decoding fails exactly when the bytes driven across
    /// are not acceptable.
    pub fn push_chunk(&mut self, chunk: &[u8]) -> (r: Result<Vec<u8>, Error>)
        requires
            old(self).wf(),
            !old(self).finished(),
        ensures
            final(self).wf(),
            final(self).format() == old(self).format(),
            final(self).is_encode() == old(self).is_encode(),
            !final(self).finished(),
            (old(self).failed() ==> r == Err::<Vec<u8>, Error>(old(self).fail_error())
                && *final(self) == *old(self)),
            (!old(self).failed() && old(self).is_encode() ==> r is Ok),
            (match r {
                Ok(out) => {
                    &&& !final(self).failed()
                    &&& final(self).fed_chunks() == old(self).fed_chunks().push(chunk@)
                    &&& final(self).out_chunks() == (if out@.len() == 0 {
                        old(self).out_chunks()
                    } else {
                        old(self).out_chunks().push(out@)
                    })
                    &&& (chunk@.len() == 0 ==> out@.len() == 0 && final(self).out_chunks()
                        == old(self).out_chunks())
                },
                Err(e) => {
                    &&& final(self).failed()
                    &&& final(self).fail_error() == e
                    &&& (!old(self).failed() ==> e == Error::CorruptInput && !stream_acceptable(
                        old(self).format().id(),
                        old(self).fed_chunks().flatten() + chunk@,
                    ))
                },
            }),
    {
        match self.fail {
            Some(e) => {
                return Err(e);
            },
            None => {},
        }
        if chunk.len() == 0 {
            proof {
                self.chunks_in@.lemma_flatten_push(chunk@);
                assert(self.chunks_in@.flatten() + chunk@ =~= self.chunks_in@.flatten());
            }
            self.chunks_in = Ghost(self.chunks_in@.push(chunk@));
            return Ok(Vec::new());
        }
        let mut acc: Vec<u8> = Vec::new();
        let mut i: usize = 0;
        while i < chunk.len()
            invariant
                self.driver.wf(),
                !self.driver.failed(),
                self.fail is None,
                !old(self).failed(),
                self.driver.format() == old(self).format(),
                self.driver.is_encode() == old(self).is_encode(),
                self.chunks_in == old(self).chunks_in,
                self.chunks_out == old(self).chunks_out,
                !self.finished,
                self.driver.is_encode() ==> self.driver.accepting(),
                i <= chunk@.len(),
                self.driver.fed() == self.chunks_in@.flatten() + chunk@.take(i as int),
                self.driver.given() == self.chunks_out@.flatten() + acc@,
            decreases
                    chunk@.len() - i,
                    self.driver.stash().len(),
                    (if self.driver.ended() {
                        0int
                    } else {
                        1int
                    }),
        {
            proof {
                if self.driver.is_encode() {
                    self.driver.lemma_accepting_not_ended();
                }
            }
            let tail = slice_subrange(chunk, i, chunk.len());
            match self.driver.advance(tail, false) {
                Ok(mut st) => {
                    proof {
                        assert(chunk@.take(i as int) + tail@.take(st.consumed as int)
                            =~= chunk@.take(i as int + st.consumed as int));
                        assert((self.chunks_in@.flatten() + chunk@.take(i as int)) + tail@.take(
                            st.consumed as int,
                        ) =~= self.chunks_in@.flatten() + chunk@.take(
                            i as int + st.consumed as int,
                        ));
                        assert((self.chunks_out@.flatten() + acc@) + st.out@
                            =~= self.chunks_out@.flatten() + (acc@ + st.out@));
                    }
                    i = i + st.consumed;
                    acc.append(&mut st.out);
                },
                Err(e) => {
                    self.fail = Some(e);
                    proof {
                        assert((self.chunks_in@.flatten() + chunk@.take(i as int)) + tail@
                            =~= self.chunks_in@.flatten() + chunk@);
                    }
                    return Err(e);
                },
            }
        }
        proof {
            assert(chunk@.take(chunk@.len() as int) =~= chunk@);
            self.chunks_in@.lemma_flatten_push(chunk@);
            if acc@.len() != 0 {
                self.chunks_out@.lemma_flatten_push(acc@);
            } else {
                assert(self.chunks_out@.flatten() + acc@ =~= self.chunks_out@.flatten());
            }
        }
        self.chunks_in = Ghost(self.chunks_in@.push(chunk@));
        if acc.len() != 0 {
            self.chunks_out = Ghost(self.chunks_out@.push(acc@));
        }
        Ok(acc)
    }

    /// Upstream end of stream: for encode, flushes and seals the stream —
    /// this always succeeds; for decode, checks that the end marker was
    /// recognised, failing with `UnexpectedEof` when the concatenated input
    /// holds no complete stream. Hands back the final produced batch,
    /// possibly empty. On success the whole session's byte conservation
    /// holds.
    pub fn finish(&mut self) -> (r: Result<Vec<u8>, Error>)
        requires
            old(self).wf(),
            !old(self).finished(),
        ensures
            final(self).wf(),
            final(self).format() == old(self).format(),
            final(self).is_encode() == old(self).is_encode(),
            (old(self).failed() ==> r == Err::<Vec<u8>, Error>(old(self).fail_error())
                && *final(self) == *old(self)),
            (!old(self).failed() && old(self).is_encode() ==> r is Ok),
            (!old(self).failed() && (exists|k: int|
                0 <= k <= old(self).fed_chunks().flatten().len() && stream_complete(
                    old(self).format().id(),
                    #[trigger] old(self).fed_chunks().flatten().take(k),
                )) ==> r is Ok),
            (match r {
                Ok(out) => {
                    &&& !final(self).failed()
                    &&& final(self).finished()
                    &&& final(self).fed_chunks() == old(self).fed_chunks()
                    &&& final(self).out_chunks() == (if out@.len() == 0 {
                        old(self).out_chunks()
                    } else {
                        old(self).out_chunks().push(out@)
                    })
                    &&& final(self).session_ok()
                },
                Err(e) => {
                    &&& final(self).failed()
                    &&& final(self).fail_error() == e
                    &&& (!old(self).failed() ==> (e == Error::CorruptInput
                        || e == Error::UnexpectedEof) && (e == Error::CorruptInput
                        ==> !stream_acceptable(
                        old(self).format().id(),
                        old(self).fed_chunks().flatten(),
                    )) && (e == Error::UnexpectedEof ==> no_end_yet(
                        old(self).format().id(),
                        old(self).fed_chunks().flatten(),
                    )))
                },
            }),
    {
        match self.fail {
            Some(e) => {
                return Err(e);
            },
            None => {},
        }
        let mut acc: Vec<u8> = Vec::new();
        let empty: [u8; 0] = [];
        loop
            invariant
                self.driver.wf(),
                !self.driver.failed(),
                self.fail is None,
                !old(self).failed(),
                self.driver.format() == old(self).format(),
                self.driver.is_encode() == old(self).is_encode(),
                self.chunks_in == old(self).chunks_in,
                self.chunks_out == old(self).chunks_out,
                !self.finished,
                self.driver.fed() == self.chunks_in@.flatten(),
                self.driver.given() == self.chunks_out@.flatten() + acc@,
            decreases self.driver.stash().len(),
        {
            proof {
                if !self.driver.is_encode() {
                    self.driver.lemma_fed_acceptable();
                }
            }
            match self.driver.advance(&empty, true) {
                Ok(mut st) => {
                    proof {
                        assert(self.driver.fed() =~= self.chunks_in@.flatten());
                        assert((self.chunks_out@.flatten() + acc@) + st.out@
                            =~= self.chunks_out@.flatten() + (acc@ + st.out@));
                    }
                    acc.append(&mut st.out);
                    if st.end {
                        proof {
                            if acc@.len() != 0 {
                                self.chunks_out@.lemma_flatten_push(acc@);
                            } else {
                                assert(self.chunks_out@.flatten() + acc@
                                    =~= self.chunks_out@.flatten());
                            }
                        }
                        if acc.len() != 0 {
                            self.chunks_out = Ghost(self.chunks_out@.push(acc@));
                        }
                        self.finished = true;
                        proof {
                            if !self.driver.is_encode() {
                                let k = choose|k: int|
                                    0 <= k <= self.driver.fed().len() && stream_complete(
                                        self.driver.format().id(),
                                        #[trigger] self.driver.fed().take(k),
                                    ) && self.driver.given() == stream_plain(
                                        self.driver.format().id(),
                                        self.driver.fed().take(k),
                                    );
                                assert(self.fed_chunks().flatten().take(k)
                                    == self.driver.fed().take(k));
                            }
                        }
                        return Ok(acc);
                    }
                },
                Err(e) => {
                    self.fail = Some(e);
                    proof {
                        assert(self.chunks_in@.flatten() + empty@ =~= self.chunks_in@.flatten());
                        let flat = old(self).fed_chunks().flatten();
                        let fid = old(self).format().id();
                        if exists|k: int|
                            0 <= k <= flat.len() && stream_complete(fid, #[trigger] flat.take(k)) {
                            let k = choose|k: int|
                                0 <= k <= flat.len() && stream_complete(
                                    fid,
                                    #[trigger] flat.take(k),
                                );
                            assert(flat.take(k) + flat.skip(k) =~= flat);
                            assert(stream_acceptable(fid, flat.take(k) + flat.skip(k)));
                            assert(flat.take(flat.len() as int) =~= flat);
                            assert(false);
                        }
                    }
                    return Err(e);
                },
            }
        }
    }
}

} // verus!
