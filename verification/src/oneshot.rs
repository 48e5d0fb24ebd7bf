//! One-shot drives: whole input in, whole output out.
//!
//! These run a core driver to its end over an in-memory buffer. They are the
//! simplest clients of the drivers and the carriers of the round-trip
//! guarantee: encoding a buffer at a valid level always succeeds, decoding
//! its result always succeeds, and what comes back is exactly the input.

use vstd::prelude::*;
use vstd::slice::slice_subrange;

use crate::backend::no_end_yet;
use crate::backend::stream_acceptable;
use crate::backend::stream_complete;
use crate::backend::stream_plain;
use crate::codec::no_early_end;
use crate::driver::CoreDecoder;
use crate::driver::CoreEncoder;
use crate::laws::lemma_round_trip;
use crate::Error;
use crate::Format;
use crate::Level;

verus! {

/// Encodes `plain` as one complete stream in the given framing.
///
/// Succeeds exactly when the level is valid; the one error is
/// `InvalidLevel`. The stream it returns is complete, carries its end marker
/// only at the very end, and decodes to exactly `plain`.
pub fn encode_all(fmt: Format, level: Level, plain: &[u8]) -> (r: Result<Vec<u8>, Error>)
    ensures
        r is Ok <==> level.valid(),
        (match r {
            Ok(coded) => {
                &&& stream_complete(fmt.id(), coded@)
                &&& stream_plain(fmt.id(), coded@) == plain@
                &&& no_early_end(fmt.id(), coded@)
            },
            Err(e) => e == Error::InvalidLevel,
        }),
{
    let mut core = match CoreEncoder::new(fmt, level) {
        Ok(c) => c,
        Err(e) => {
            return Err(e);
        },
    };
    let mut out: Vec<u8> = Vec::new();
    let mut i: usize = 0;
    loop
        invariant
            level.valid(),
            core.wf(),
            !core.ended(),
            core.format() == fmt,
            i <= plain@.len(),
            core.fed() == plain@.take(i as int),
            core.given() == out@,
            !core.accepting() ==> i == plain@.len(),
        decreases plain@.len() - i, core.stash().len(),
    {
        let tail = slice_subrange(plain, i, plain.len());
        match core.advance(tail, true) {
            Ok(mut st) => {
                proof {
                    assert(plain@.take(i as int) + tail@.take(st.consumed as int) =~= plain@.take(
                        i as int + st.consumed as int,
                    ));
                }
                i = i + st.consumed;
                out.append(&mut st.out);
                if st.end {
                    proof {
                        assert(i == plain@.len());
                        assert(plain@.take(plain@.len() as int) =~= plain@);
                    }
                    return Ok(out);
                }
            },
            Err(e) => {
                proof {
                    assert(false);
                }
                return Err(e);
            },
        }
    }
}

/// Decodes one complete stream in the given framing from the front of
/// `coded`; trailing bytes after the stream's end marker are ignored.
///
/// Succeeds exactly when some prefix of `coded` is a complete stream, and
/// the result is then its decode. Bytes no well-formed stream starts with
/// fail with `CorruptInput`; input that ends before a stream's end marker
/// fails with `UnexpectedEof`.
pub fn decode_all(fmt: Format, coded: &[u8]) -> (r: Result<Vec<u8>, Error>)
    ensures
        (match r {
            Ok(plain) => exists|k: int|
                0 <= k <= coded@.len() && stream_complete(fmt.id(), #[trigger] coded@.take(k))
                    && plain@ == stream_plain(fmt.id(), coded@.take(k)),
            Err(e) => {
                &&& (e == Error::CorruptInput || e == Error::UnexpectedEof)
                &&& (e == Error::CorruptInput ==> !stream_acceptable(fmt.id(), coded@))
                &&& (e == Error::UnexpectedEof ==> no_end_yet(fmt.id(), coded@))
            },
        }),
        (exists|k: int|
            0 <= k <= coded@.len() && stream_complete(fmt.id(), #[trigger] coded@.take(k)))
            ==> r is Ok,
{
    let mut core = CoreDecoder::new(fmt);
    let mut out: Vec<u8> = Vec::new();
    let mut i: usize = 0;
    loop
        invariant
            core.wf(),
            !core.failed(),
            !core.ended(),
            core.format() == fmt,
            i <= coded@.len(),
            core.fed() == coded@.take(i as int),
            core.given() == out@,
        decreases coded@.len() - i, core.stash().len(),
    {
        let tail = slice_subrange(coded, i, coded.len());
        match core.advance(tail, true) {
            Ok(mut st) => {
                proof {
                    assert(coded@.take(i as int) + tail@.take(st.consumed as int) =~= coded@.take(
                        i as int + st.consumed as int,
                    ));
                }
                i = i + st.consumed;
                out.append(&mut st.out);
                if st.end {
                    proof {
                        let k = choose|k: int|
                            0 <= k <= core.fed().len() && stream_complete(
                                fmt.id(),
                                #[trigger] core.fed().take(k),
                            ) && core.given() == stream_plain(fmt.id(), core.fed().take(k));
                        assert(core.fed().take(k) =~= coded@.take(k));
                    }
                    return Ok(out);
                }
            },
            Err(e) => {
                proof {
                    assert(coded@.take(i as int) + tail@ =~= coded@);
                    assert(coded@.take(coded@.len() as int) =~= coded@);
                    if exists|k: int|
                        0 <= k <= coded@.len() && stream_complete(
                            fmt.id(),
                            #[trigger] coded@.take(k),
                        ) {
                        let k = choose|k: int|
                            0 <= k <= coded@.len() && stream_complete(
                                fmt.id(),
                                #[trigger] coded@.take(k),
                            );
                        assert(coded@.take(k) + coded@.skip(k) =~= coded@);
                        assert(stream_acceptable(fmt.id(), coded@.take(k) + coded@.skip(k)));
                        assert(false);
                    }
                }
                return Err(e);
            },
        }
    }
}

/// Encodes `plain`, then decodes the result: succeeds exactly when the level
/// is valid, and the bytes that come back are exactly `plain`.
pub fn round_trip(fmt: Format, level: Level, plain: &[u8]) -> (r: Result<Vec<u8>, Error>)
    ensures
        r is Ok <==> level.valid(),
        (match r {
            Ok(p) => p@ == plain@,
            Err(e) => e == Error::InvalidLevel,
        }),
{
    let coded = match encode_all(fmt, level, plain) {
        Ok(c) => c,
        Err(e) => {
            return Err(e);
        },
    };
    proof {
        assert(coded@.take(coded@.len() as int) =~= coded@);
    }
    match decode_all(fmt, coded.as_slice()) {
        Ok(p) => {
            proof {
                let k = choose|k: int|
                    0 <= k <= coded@.len() && stream_complete(
                        fmt.id(),
                        #[trigger] coded@.take(k),
                    ) && p@ == stream_plain(fmt.id(), coded@.take(k));
                lemma_round_trip(fmt.id(), coded@, k);
            }
            Ok(p)
        },
        Err(e) => {
            proof {
                assert(false);
            }
            Err(e)
        },
    }
}

} // verus!
