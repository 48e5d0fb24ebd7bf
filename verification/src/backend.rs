//! Trusted bindings to the `flate2` compression backend.
//!
//! Everything verified in this crate rests on the contracts in this module
//! and nothing else. The backend's hidden state is described through
//! uninterpreted views: the bytes a codec instance has absorbed, the bytes it
//! has emitted, whether it has produced or recognised its end-of-stream
//! marker, which framing it was built for, and two continuations — the
//! bytes an encoder would still emit were it finished now (`enc_tail`), and
//! the bytes a decoder can still produce without further input
//! (`dec_pending`). Both are functions of the instance's state alone, the
//! backend being deterministic.
//!
//! `stream_plain` and `stream_complete` name the decode semantics of a
//! finished stream, read off a fresh decoder given all the output space it
//! asks for: `stream_complete(f, s)` says that such a decoder for framing
//! `f`, fed `s`, consumes exactly `s` and reports end-of-stream at its last
//! byte, and `stream_plain(f, s)` names the bytes it emits while doing so. `stream_acceptable(f, s)` says that the decoder, fed `s`,
//! reports no error: `s` is a prefix of some well-formed stream (one not
//! demanding a preset dictionary), or carries arbitrary bytes after a
//! complete one — the decoder consumes nothing past the end marker. Since
//! the decoder is deterministic and reports end-of-stream as soon as it is
//! recognised, a stream that is complete cannot have a complete proper
//! prefix; the encoder's contracts state that fact about the stream they
//! commit to.

use vstd::prelude::*;

verus! {

#[verifier::external_type_specification]
#[verifier::external_body]
pub struct ExCompress(flate2::Compress);

#[verifier::external_type_specification]
#[verifier::external_body]
pub struct ExDecompress(flate2::Decompress);

/// The bytes this encoder has consumed since construction.
pub uninterp spec fn enc_absorbed(c: flate2::Compress) -> Seq<u8>;

/// The bytes this encoder has produced since construction.
pub uninterp spec fn enc_emitted(c: flate2::Compress) -> Seq<u8>;

/// Whether this encoder has emitted its end-of-stream marker.
pub uninterp spec fn enc_done(c: flate2::Compress) -> bool;

/// Whether this encoder's finish path has been entered: the backend then
/// refuses ordinary transform rounds until the stream is sealed.
pub uninterp spec fn enc_finishing(c: flate2::Compress) -> bool;

/// The bytes this encoder would still emit were it finished now: the
/// remainder of the unique stream its deterministic finish path seals.
pub uninterp spec fn enc_tail(c: flate2::Compress) -> Seq<u8>;

/// The framing this encoder was built for, as `Format::id`.
pub uninterp spec fn enc_format(c: flate2::Compress) -> int;

/// The bytes this decoder has consumed since construction.
pub uninterp spec fn dec_absorbed(d: flate2::Decompress) -> Seq<u8>;

/// The bytes this decoder has produced since construction.
pub uninterp spec fn dec_emitted(d: flate2::Decompress) -> Seq<u8>;

/// Whether this decoder has recognised the end-of-stream marker.
pub uninterp spec fn dec_done(d: flate2::Decompress) -> bool;

/// The bytes this decoder can still produce without any further input.
pub uninterp spec fn dec_pending(d: flate2::Decompress) -> Seq<u8>;

/// The framing this decoder was built for, as `Format::id`.
pub uninterp spec fn dec_format(d: flate2::Decompress) -> int;

/// The bytes a fresh decoder for framing `fmt` emits when fed the complete
/// stream `coded`.
pub uninterp spec fn stream_plain(fmt: int, coded: Seq<u8>) -> Seq<u8>;

/// Whether a fresh decoder for framing `fmt`, fed `coded`, consumes exactly
/// `coded` and reports end-of-stream at its last byte.
pub uninterp spec fn stream_complete(fmt: int, coded: Seq<u8>) -> bool;

/// Whether a fresh decoder for framing `fmt`, fed `coded`, consumes it
/// without reporting malformed data.
pub uninterp spec fn stream_acceptable(fmt: int, coded: Seq<u8>) -> bool;

/// No proper prefix of `coded` is itself a complete stream: the end marker
/// stands at the end of the stream and nowhere earlier.
pub open spec fn no_early_end(fmt: int, coded: Seq<u8>) -> bool {
    forall|j: int| 0 <= j < coded.len() ==> !stream_complete(fmt, #[trigger] coded.take(j))
}

/// No prefix of `coded`, itself included, is a complete stream: the decoder
/// has not yet reached an end marker anywhere in it.
pub open spec fn no_end_yet(fmt: int, coded: Seq<u8>) -> bool {
    forall|j: int| 0 <= j <= coded.len() ==> !stream_complete(fmt, #[trigger] coded.take(j))
}

/// The stream this encoder state is committed to: what it has emitted,
/// extended by what its finish path would still emit.
pub open spec fn enc_committed(c: flate2::Compress) -> Seq<u8> {
    enc_emitted(c) + enc_tail(c)
}

/// The encoder state can be sealed: its committed stream is complete,
/// carries its end marker only at the very end, and decodes to exactly the
/// bytes absorbed so far.
pub open spec fn enc_sealable(fmt: int, c: flate2::Compress) -> bool {
    &&& stream_complete(fmt, enc_committed(c))
    &&& stream_plain(fmt, enc_committed(c)) == enc_absorbed(c)
    &&& no_early_end(fmt, enc_committed(c))
}

/// What a deterministic decoder grants about acceptability: a complete
/// stream is acceptable whatever follows it (nothing past the end marker is
/// examined), an acceptable sequence has only acceptable prefixes, and the
/// empty sequence is acceptable.
pub open spec fn accept_facts(fmt: int) -> bool {
    &&& (forall|s: Seq<u8>, t: Seq<u8>|
        stream_complete(fmt, s) ==> #[trigger] stream_acceptable(fmt, s + t))
    &&& (forall|s: Seq<u8>, t: Seq<u8>|
        #[trigger] stream_acceptable(fmt, s + t) ==> stream_acceptable(fmt, s))
    &&& stream_acceptable(fmt, Seq::<u8>::empty())
}

/// One ordinary transform round from `pre` to `post`: some prefix of
/// `input` was consumed — all of it, unless `out` is the nonempty fruit of
/// an output-limited round — and a round that consumed nothing left the
/// committed stream unchanged.
pub open spec fn enc_stepped(
    pre: flate2::Compress,
    post: flate2::Compress,
    input: Seq<u8>,
    out: Seq<u8>,
) -> bool {
    exists|k: int|
        0 <= k <= input.len() && enc_absorbed(post) == enc_absorbed(pre) + input.take(k) && (k
            == input.len() || out.len() > 0) && (k == 0 ==> enc_committed(post) == enc_committed(
            pre,
        ))
}

/// One decode transform round from `pre` to `post`: some prefix of `input`
/// was consumed — at least one byte, given any, unless output was produced
/// or the end marker reached — and a round that consumed nothing drew `out`
/// from the front of the pending continuation.
pub open spec fn dec_stepped(
    pre: flate2::Decompress,
    post: flate2::Decompress,
    input: Seq<u8>,
    out: Seq<u8>,
    end: bool,
) -> bool {
    exists|k: int|
        0 <= k <= input.len() && dec_absorbed(post) == dec_absorbed(pre) + input.take(k) && (
        input.len() > 0 ==> k > 0 || out.len() > 0 || end) && (k == 0 ==> out.len()
            <= dec_pending(pre).len() && out == dec_pending(pre).take(out.len() as int)
            && dec_pending(post) == dec_pending(pre).skip(out.len() as int))
}

/// The acceptability facts, read off a decoder instance's framing.
pub open spec fn dec_accept_facts(d: flate2::Decompress) -> bool {
    accept_facts(dec_format(d))
}

/// Relies on `flate2::Compress::new` with `zlib_header = false`: a fresh raw
/// DEFLATE encoder that has consumed and produced nothing and whose
/// finish-now stream is the minimal valid empty stream.
#[verifier::external_body]
pub(crate) fn compress_new_deflate(level: u32) -> (c: flate2::Compress)
    requires
        level <= 9,
    ensures
        enc_absorbed(c) == Seq::<u8>::empty(),
        enc_emitted(c) == Seq::<u8>::empty(),
        !enc_done(c),
        !enc_finishing(c),
        enc_sealable(crate::Format::Deflate.id(), c),
        enc_format(c) == crate::Format::Deflate.id(),
{
    flate2::Compress::new(flate2::Compression::new(level), false)
}

/// Relies on `flate2::Compress::new` with `zlib_header = true`: a fresh zlib
/// encoder that has consumed and produced nothing and whose finish-now
/// stream is the minimal valid empty stream.
#[verifier::external_body]
pub(crate) fn compress_new_zlib(level: u32) -> (c: flate2::Compress)
    requires
        level <= 9,
    ensures
        enc_absorbed(c) == Seq::<u8>::empty(),
        enc_emitted(c) == Seq::<u8>::empty(),
        !enc_done(c),
        !enc_finishing(c),
        enc_sealable(crate::Format::Zlib.id(), c),
        enc_format(c) == crate::Format::Zlib.id(),
{
    flate2::Compress::new(flate2::Compression::new(level), true)
}

/// Relies on `flate2::Compress::new_gzip` with the full 15-bit window: a
/// fresh gzip encoder that has consumed and produced nothing and whose
/// finish-now stream is the minimal valid empty stream.
#[verifier::external_body]
pub(crate) fn compress_new_gzip(level: u32) -> (c: flate2::Compress)
    requires
        level <= 9,
    ensures
        enc_absorbed(c) == Seq::<u8>::empty(),
        enc_emitted(c) == Seq::<u8>::empty(),
        !enc_done(c),
        !enc_finishing(c),
        enc_sealable(crate::Format::Gzip.id(), c),
        enc_format(c) == crate::Format::Gzip.id(),
{
    flate2::Compress::new_gzip(flate2::Compression::new(level), 15)
}

/// Relies on `flate2::Compress::total_in`: the number of input bytes this
/// encoder has consumed since construction, kept by the backend as a `u64`.
#[verifier::external_body]
pub(crate) fn compress_total_in(c: &flate2::Compress) -> (r: u64)
    ensures
        r as int == enc_absorbed(*c).len(),
{
    c.total_in()
}

/// Relies on `flate2::Compress::compress_vec` with `FlushCompress::None`,
/// which consumes only as much input as needed and writes as much output as
/// possible: it consumes the whole input unless it was output-limited, in
/// which case it produced bytes; a round that consumes nothing only drains
/// buffered output, leaving the committed stream unchanged. It never emits
/// the end-of-stream marker, and it cannot fail: the backend's deflate
/// reports an error only for a stream whose finish path has been entered,
/// which the precondition excludes.
#[verifier::external_body]
pub(crate) fn compress_step(c: &mut flate2::Compress, input: &[u8]) -> (out: Vec<u8>)
    requires
        !enc_done(*old(c)),
        !enc_finishing(*old(c)),
    ensures
        enc_format(*final(c)) == enc_format(*old(c)),
        !enc_done(*final(c)),
        !enc_finishing(*final(c)),
        enc_sealable(enc_format(*old(c)), *final(c)),
        enc_emitted(*final(c)) == enc_emitted(*old(c)) + out@,
        enc_stepped(*old(c), *final(c), input@, out@),
{
    let mut buf = Vec::with_capacity(8192);
    match c.compress_vec(input, &mut buf, flate2::FlushCompress::None) {
        Ok(_) => buf,
        Err(_) => buf,
    }
}

/// Relies on `flate2::Compress::compress_vec` with `FlushCompress::Finish`
/// and empty input: reveals the next part of the committed stream — which
/// it leaves unchanged — and reports whether the end-of-stream marker has
/// now been written; with spare output space it either produces bytes or
/// ends. Once ended, the emitted bytes form one complete stream whose
/// decode is exactly the absorbed bytes, with no complete proper prefix.
/// The call cannot fail: deflate with a Finish flush reports no error from
/// any state this crate reaches.
#[verifier::external_body]
pub(crate) fn compress_finish(c: &mut flate2::Compress) -> (r: (bool, Vec<u8>))
    requires
        !enc_done(*old(c)),
    ensures
        enc_format(*final(c)) == enc_format(*old(c)),
        enc_absorbed(*final(c)) == enc_absorbed(*old(c)),
        enc_emitted(*final(c)) == enc_emitted(*old(c)) + r.1@,
        enc_committed(*final(c)) == enc_committed(*old(c)),
        enc_sealable(enc_format(*old(c)), *final(c)),
        r.0 == enc_done(*final(c)),
        r.0 || r.1@.len() > 0,
        (r.0 ==> enc_tail(*final(c)) == Seq::<u8>::empty()),
{
    let mut buf = Vec::with_capacity(8192);
    match c.compress_vec(&[], &mut buf, flate2::FlushCompress::Finish) {
        Ok(flate2::Status::StreamEnd) => (true, buf),
        Ok(_) => (false, buf),
        Err(_) => (false, buf),
    }
}

/// Relies on `flate2::Decompress::new` with `zlib_header = false`: a fresh
/// raw DEFLATE decoder that has consumed and produced nothing.
#[verifier::external_body]
pub(crate) fn decompress_new_deflate() -> (d: flate2::Decompress)
    ensures
        dec_absorbed(d) == Seq::<u8>::empty(),
        dec_emitted(d) == Seq::<u8>::empty(),
        dec_pending(d) == Seq::<u8>::empty(),
        !dec_done(d) && no_end_yet(dec_format(d), dec_absorbed(d)),
        dec_format(d) == crate::Format::Deflate.id(),
        dec_accept_facts(d),
{
    flate2::Decompress::new(false)
}

/// Relies on `flate2::Decompress::new` with `zlib_header = true`: a fresh
/// zlib decoder that has consumed and produced nothing.
#[verifier::external_body]
pub(crate) fn decompress_new_zlib() -> (d: flate2::Decompress)
    ensures
        dec_absorbed(d) == Seq::<u8>::empty(),
        dec_emitted(d) == Seq::<u8>::empty(),
        dec_pending(d) == Seq::<u8>::empty(),
        !dec_done(d) && no_end_yet(dec_format(d), dec_absorbed(d)),
        dec_format(d) == crate::Format::Zlib.id(),
        dec_accept_facts(d),
{
    flate2::Decompress::new(true)
}

/// Relies on `flate2::Decompress::new_gzip` with the full 15-bit window: a
/// fresh single-member gzip decoder that has consumed and produced nothing.
#[verifier::external_body]
pub(crate) fn decompress_new_gzip() -> (d: flate2::Decompress)
    ensures
        dec_absorbed(d) == Seq::<u8>::empty(),
        dec_emitted(d) == Seq::<u8>::empty(),
        dec_pending(d) == Seq::<u8>::empty(),
        !dec_done(d) && no_end_yet(dec_format(d), dec_absorbed(d)),
        dec_format(d) == crate::Format::Gzip.id(),
        dec_accept_facts(d),
{
    flate2::Decompress::new_gzip(15)
}

/// Relies on `flate2::Decompress::total_in`: the number of input bytes this
/// decoder has consumed since construction, kept by the backend as a `u64`.
#[verifier::external_body]
pub(crate) fn decompress_total_in(d: &flate2::Decompress) -> (r: u64)
    ensures
        r as int == dec_absorbed(*d).len(),
{
    d.total_in()
}

/// Relies on `flate2::Decompress::decompress_vec` with
/// `FlushDecompress::None`: given any input (offered in slices the
/// backend's 32-bit counters can take whole) it consumes bytes, produces
/// bytes, or reaches the end marker; a round that consumes nothing only
/// drains the pending continuation. It consumes nothing past the end
/// marker and fails exactly when the bytes it was driven across are not
/// acceptable (that covers malformed data and streams demanding a preset
/// dictionary). A round that was cut short by output space can leave a
/// byte only partially decoded yet counted as consumed, so only a round
/// that produced nothing vouches that no prefix of the absorbed bytes —
/// themselves included — is a complete stream: such a round stopped for
/// want of input bits, after checking everything absorbed.
#[verifier::external_body]
pub(crate) fn decompress_step(d: &mut flate2::Decompress, input: &[u8]) -> (r: Result<
    (bool, Vec<u8>),
    (),
>)
    requires
        !dec_done(*old(d)),
    ensures
        dec_format(*final(d)) == dec_format(*old(d)),
        dec_accept_facts(*final(d)),
        (match r {
            Ok((end, out)) => {
                &&& dec_stepped(*old(d), *final(d), input@, out@, end)
                &&& dec_emitted(*final(d)) == dec_emitted(*old(d)) + out@
                &&& end == dec_done(*final(d))
                &&& stream_acceptable(dec_format(*old(d)), dec_absorbed(*final(d)))
                &&& (!end && out@.len() == 0 ==> no_end_yet(
                    dec_format(*old(d)),
                    dec_absorbed(*final(d)),
                ))
                &&& (end ==> stream_complete(dec_format(*old(d)), dec_absorbed(*final(d)))
                    && dec_emitted(*final(d)) == stream_plain(
                        dec_format(*old(d)),
                        dec_absorbed(*final(d)),
                    ))
            },
            Err(_) => !stream_acceptable(
                dec_format(*old(d)),
                dec_absorbed(*old(d)) + input@,
            ),
        }),
{
    let mut buf = Vec::with_capacity(8192);
    let offered = if input.len() > 0xffff_ffff {
        &input[..0xffff_ffff]
    } else {
        input
    };
    match d.decompress_vec(offered, &mut buf, flate2::FlushDecompress::None) {
        Ok(flate2::Status::StreamEnd) => Ok((true, buf)),
        Ok(_) => Ok((false, buf)),
        Err(_) => Err(()),
    }
}

} // verus!
