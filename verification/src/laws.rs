//! The general laws the adapters obey, stated once over whole sessions.
//!
//! An encode session is summarised by the chunks it absorbed and the one
//! complete stream it produced; the laws here say that decoding inverts such
//! a session, that the decoded bytes depend only on the concatenation of the
//! chunks and not on their boundaries, that "not ready" rounds — which reach
//! the adapters as empty chunks, or as no call at all — leave the outcome
//! unchanged, and that the end marker stands at one place only.

use vstd::prelude::*;
use vstd::seq_lib::lemma_flatten_concat;

use crate::backend::stream_complete;
use crate::backend::stream_plain;
use crate::codec::no_early_end;

verus! {

/// An encode session: after absorbing exactly the chunks `fed`, in order,
/// the encoder sealed the single complete stream `coded`.
pub open spec fn encode_session_ok(fmt: int, fed: Seq<Seq<u8>>, coded: Seq<u8>) -> bool {
    &&& stream_complete(fmt, coded)
    &&& stream_plain(fmt, coded) == fed.flatten()
    &&& no_early_end(fmt, coded)
}

/// Round trip: a decoder run over a sealed stream stops exactly at the
/// stream's end — no earlier point of it is complete — so the bytes it
/// emits are exactly the bytes the encoder absorbed.
pub proof fn lemma_round_trip(fmt: int, coded: Seq<u8>, k: int)
    requires
        stream_complete(fmt, coded),
        no_early_end(fmt, coded),
        0 <= k <= coded.len(),
        stream_complete(fmt, coded.take(k)),
    ensures
        k == coded.len(),
        coded.take(k) == coded,
{
    assert(coded.take(coded.len() as int) =~= coded);
}

/// Chunking invariance: two encode sessions over the same bytes, however
/// differently chunked, decode to the same plaintext — the concatenation of
/// those bytes.
pub proof fn lemma_chunking_invariance(
    fmt: int,
    fed1: Seq<Seq<u8>>,
    coded1: Seq<u8>,
    fed2: Seq<Seq<u8>>,
    coded2: Seq<u8>,
)
    requires
        encode_session_ok(fmt, fed1, coded1),
        encode_session_ok(fmt, fed2, coded2),
        fed1.flatten() == fed2.flatten(),
    ensures
        stream_plain(fmt, coded1) == stream_plain(fmt, coded2),
{
}

/// An idle round changes nothing: a chunk list with an empty chunk inserted
/// anywhere carries the same bytes.
pub proof fn lemma_idle_round_inert(chunks: Seq<Seq<u8>>, i: int)
    requires
        0 <= i <= chunks.len(),
    ensures
        chunks.insert(i, Seq::<u8>::empty()).flatten() == chunks.flatten(),
{
    let e = Seq::<u8>::empty();
    let head = chunks.subrange(0, i);
    let tail = chunks.subrange(i, chunks.len() as int);
    assert(chunks.insert(i, e) =~= (head + seq![e]) + tail);
    lemma_flatten_concat(head + seq![e], tail);
    lemma_flatten_concat(head, seq![e]);
    seq![e].lemma_flatten_one_element();
    lemma_flatten_concat(head, tail);
    assert(head + tail =~= chunks);
    assert(head.flatten() + seq![e].flatten() =~= head.flatten());
    assert(chunks.insert(i, e).flatten() =~= chunks.flatten());
}

/// Suspension invariance: an encode session that saw one extra "not ready"
/// round — an empty chunk, anywhere in its input — decodes to the same
/// plaintext as the session without it. Together with the adapters'
/// contracts that a pending round mutates nothing observable, arbitrary
/// interleavings of such rounds cannot change the decoded bytes.
pub proof fn lemma_suspension_invariance(
    fmt: int,
    fed: Seq<Seq<u8>>,
    coded1: Seq<u8>,
    i: int,
    coded2: Seq<u8>,
)
    requires
        encode_session_ok(fmt, fed, coded1),
        0 <= i <= fed.len(),
        encode_session_ok(fmt, fed.insert(i, Seq::<u8>::empty()), coded2),
    ensures
        stream_plain(fmt, coded1) == stream_plain(fmt, coded2),
{
    lemma_idle_round_inert(fed, i);
}

/// The chunk list with its idle (empty) chunks dropped: what remains once
/// every "not ready" round is taken out.
pub open spec fn real_chunks(chunks: Seq<Seq<u8>>) -> Seq<Seq<u8>>
    decreases chunks.len(),
{
    if chunks.len() == 0 {
        Seq::empty()
    } else if chunks.last().len() > 0 {
        real_chunks(chunks.drop_last()).push(chunks.last())
    } else {
        real_chunks(chunks.drop_last())
    }
}

/// Dropping the idle chunks from a chunk list leaves its bytes unchanged.
pub proof fn lemma_flatten_skips_empties(chunks: Seq<Seq<u8>>)
    ensures
        real_chunks(chunks).flatten() == chunks.flatten(),
    decreases chunks.len(),
{
    broadcast use Seq::lemma_flatten_push;

    if chunks.len() == 0 {
        assert(real_chunks(chunks) =~= Seq::<Seq<u8>>::empty());
        assert(chunks =~= Seq::<Seq<u8>>::empty());
    } else {
        let s0 = chunks.drop_last();
        let x = chunks.last();
        lemma_flatten_skips_empties(s0);
        assert(s0.push(x) =~= chunks);
        assert(chunks.flatten() == s0.flatten() + x);
        if x.len() > 0 {
            assert(real_chunks(chunks) == real_chunks(s0).push(x));
            assert(real_chunks(chunks).flatten() == real_chunks(s0).flatten() + x);
        } else {
            assert(x =~= Seq::<u8>::empty());
            assert(real_chunks(chunks) == real_chunks(s0));
            assert(s0.flatten() + x =~= s0.flatten());
        }
    }
}

/// Suspension invariance, composed over arbitrary interleavings: two encode
/// sessions whose chunk lists agree once every idle (empty) chunk is
/// dropped — however many "not ready" rounds were interleaved, and
/// wherever — produce streams that decode to the same bytes.
pub proof fn lemma_idle_interleaving_invariance(
    fmt: int,
    fed1: Seq<Seq<u8>>,
    coded1: Seq<u8>,
    fed2: Seq<Seq<u8>>,
    coded2: Seq<u8>,
)
    requires
        encode_session_ok(fmt, fed1, coded1),
        encode_session_ok(fmt, fed2, coded2),
        real_chunks(fed1) == real_chunks(fed2),
    ensures
        stream_plain(fmt, coded1) == stream_plain(fmt, coded2),
{
    lemma_flatten_skips_empties(fed1);
    lemma_flatten_skips_empties(fed2);
}

/// The end marker stands exactly once: within a sealed stream, the only
/// prefix that is itself a complete stream is the whole of it.
pub proof fn lemma_end_marker_unique(fmt: int, coded: Seq<u8>, j: int, k: int)
    requires
        stream_complete(fmt, coded),
        no_early_end(fmt, coded),
        0 <= j <= coded.len(),
        0 <= k <= coded.len(),
        stream_complete(fmt, coded.take(j)),
        stream_complete(fmt, coded.take(k)),
    ensures
        j == k,
        j == coded.len(),
{
    lemma_round_trip(fmt, coded, j);
    lemma_round_trip(fmt, coded, k);
}

} // verus!
