//! The read loop of one receive call, as a function of what the decoder and
//! the transport do, and the laws it obeys over any self-delimiting codec.
use vstd::prelude::*;

use crate::framing::{settle_next, Decoded};

verus! {

/// What one receive call comes to.
pub enum Receipt<V> {
    /// A decoded value.
    Value(V),
    /// The peer closed its stream with nothing buffered.
    Closed,
    /// The peer closed its stream in the middle of a message.
    Reset,
    /// The buffered bytes can never decode.
    Malformed,
}

/// The read loop of one receive call, run from buffer `buf` against a decoder
/// that maps the buffered bytes as `dec` does and a transport whose reads
/// return the non-empty `chunks` in turn and then report the end of the
/// stream. Each round is `FrameReader::settle` on the decoder's outcome, then
/// `FrameReader::fill` on the next read. Gives the receipt, the buffer left
/// behind and the number of reads taken.
pub open spec fn receive_run<V>(
    dec: spec_fn(Seq<u8>) -> Decoded<V>,
    buf: Seq<u8>,
    chunks: Seq<Seq<u8>>,
) -> (Receipt<V>, Seq<u8>, nat)
    decreases chunks.len(),
{
    match dec(buf) {
        Decoded::Complete { value, .. } => (Receipt::Value(value), settle_next(buf, dec(buf)), 0),
        Decoded::Malformed(_) => (Receipt::Malformed, buf, 0),
        Decoded::Incomplete => {
            if chunks.len() == 0 {
                (if buf.len() == 0 {
                    Receipt::Closed
                } else {
                    Receipt::Reset
                }, buf, 0)
            } else {
                let next = receive_run(dec, buf + chunks[0], chunks.drop_first());
                (next.0, next.1, next.2 + 1)
            }
        },
    }
}

/// Every read hands over at least one byte: an empty read is the end of the
/// stream, not a chunk.
pub open spec fn all_non_empty(chunks: Seq<Seq<u8>>) -> bool {
    forall|i: int| 0 <= i < chunks.len() ==> (#[trigger] chunks[i]).len() > 0
}

/// What the read loop needs of a codec: an encoding followed by anything
/// decodes to the encoded value and takes exactly the encoding's bytes, and a
/// proper prefix of an encoding is reported incomplete.
pub open spec fn self_delimiting<V>(
    enc: spec_fn(V) -> Seq<u8>,
    dec: spec_fn(Seq<u8>) -> Decoded<V>,
) -> bool {
    &&& forall|v: V, rest: Seq<u8>|
        {
            let d = #[trigger] dec(enc(v) + rest);
            &&& d is Complete
            &&& d->value == v
            &&& d->consumed == enc(v).len()
        }
    &&& forall|v: V, k: int| 0 <= k < enc(v).len() ==> (#[trigger] dec(enc(v).take(k))) is Incomplete
}

proof fn lemma_flatten_non_empty(chunks: Seq<Seq<u8>>)
    requires
        all_non_empty(chunks),
        chunks.len() > 0,
    ensures
        chunks.flatten().len() > 0,
{
    assert(chunks[0].len() > 0);
}

/// Where the buffer and the bytes still to come start with an encoding of `v`,
/// the loop returns `v`, and what is left in the buffer followed by the
/// unread chunks is exactly what came after that encoding.
proof fn lemma_receive_front<V>(
    enc: spec_fn(V) -> Seq<u8>,
    dec: spec_fn(Seq<u8>) -> Decoded<V>,
    v: V,
    rest: Seq<u8>,
    buf: Seq<u8>,
    chunks: Seq<Seq<u8>>,
)
    requires
        self_delimiting(enc, dec),
        all_non_empty(chunks),
        buf + chunks.flatten() == enc(v) + rest,
    ensures
        ({
            let run = receive_run(dec, buf, chunks);
            &&& run.0 == Receipt::Value(v)
            &&& run.2 <= chunks.len()
            &&& run.1 + chunks.skip(run.2 as int).flatten() == rest
        }),
    decreases chunks.len(),
{
    let e = enc(v);
    let flat = chunks.flatten();
    if buf.len() >= e.len() {
        let tail = buf.skip(e.len() as int);
        assert((buf + flat).take(e.len() as int) =~= buf.take(e.len() as int));
        assert((e + rest).take(e.len() as int) =~= e);
        assert(buf =~= e + tail);
        assert(dec(e + tail) is Complete);
        assert(chunks.skip(0) =~= chunks);
        assert(rest =~= (buf + flat).skip(e.len() as int));
        assert(rest =~= tail + flat);
    } else {
        assert((buf + flat).take(buf.len() as int) =~= buf);
        assert((e + rest).take(buf.len() as int) =~= e.take(buf.len() as int));
        assert(dec(e.take(buf.len() as int)) is Incomplete);
        if chunks.len() == 0 {
            assert(flat =~= Seq::<u8>::empty());
            assert(buf + flat =~= buf);
            assert(false);
        }
        let buf2 = buf + chunks[0];
        let chunks2 = chunks.drop_first();
        assert(all_non_empty(chunks2)) by {
            assert forall|i: int| 0 <= i < chunks2.len() implies (#[trigger] chunks2[i]).len()
                > 0 by {
                assert(chunks2[i] == chunks[i + 1]);
            }
        }
        assert(flat == chunks.first() + chunks2.flatten());
        assert(buf2 + chunks2.flatten() =~= buf + flat);
        lemma_receive_front(enc, dec, v, rest, buf2, chunks2);
        let run2 = receive_run(dec, buf2, chunks2);
        assert(chunks.skip((run2.2 + 1) as int) =~= chunks2.skip(run2.2 as int));
    }
}

/// Round trip: whatever value is sent, and however the transport cuts its
/// encoding into reads, a receive on a fresh buffer returns that value and
/// leaves the buffer empty.
pub proof fn lemma_round_trip<V>(
    enc: spec_fn(V) -> Seq<u8>,
    dec: spec_fn(Seq<u8>) -> Decoded<V>,
    v: V,
    chunks: Seq<Seq<u8>>,
)
    requires
        self_delimiting(enc, dec),
        all_non_empty(chunks),
        chunks.flatten() == enc(v),
    ensures
        receive_run(dec, Seq::empty(), chunks).0 == Receipt::Value(v),
        receive_run(dec, Seq::empty(), chunks).1 == Seq::<u8>::empty(),
{
    lemma_partial_delivery(enc, dec, v, chunks);
}

/// Partial delivery: where the encoding of one value arrives in any number of
/// fragments, down to single bytes, a receive takes every fragment, one read
/// each, and returns exactly that value with nothing left over.
pub proof fn lemma_partial_delivery<V>(
    enc: spec_fn(V) -> Seq<u8>,
    dec: spec_fn(Seq<u8>) -> Decoded<V>,
    v: V,
    chunks: Seq<Seq<u8>>,
)
    requires
        self_delimiting(enc, dec),
        all_non_empty(chunks),
        chunks.flatten() == enc(v),
    ensures
        receive_run(dec, Seq::empty(), chunks) == (Receipt::Value(v), Seq::<u8>::empty(), chunks.len()),
{
    let empty = Seq::<u8>::empty();
    assert(empty + chunks.flatten() =~= enc(v) + empty);
    lemma_receive_front(enc, dec, v, empty, empty, chunks);
    let run = receive_run(dec, empty, chunks);
    let unread = chunks.skip(run.2 as int);
    assert(run.1 + unread.flatten() == empty);
    assert(run.1.len() == 0);
    assert(run.1 =~= empty);
    if unread.len() > 0 {
        assert(all_non_empty(unread)) by {
            assert forall|i: int| 0 <= i < unread.len() implies (#[trigger] unread[i]).len()
                > 0 by {
                assert(unread[i] == chunks[i + run.2]);
            }
        }
        lemma_flatten_non_empty(unread);
    }
}

/// Orderly close: where the decoder reports nothing buffered as incomplete
/// and the peer closes before sending anything, a receive yields no value and
/// no error.
pub proof fn lemma_orderly_close<V>(dec: spec_fn(Seq<u8>) -> Decoded<V>)
    requires
        dec(Seq::empty()) is Incomplete,
    ensures
        receive_run(dec, Seq::empty(), Seq::empty()).0 == Receipt::<V>::Closed,
{
}

proof fn lemma_receive_truncated<V>(
    enc: spec_fn(V) -> Seq<u8>,
    dec: spec_fn(Seq<u8>) -> Decoded<V>,
    v: V,
    m: int,
    buf: Seq<u8>,
    chunks: Seq<Seq<u8>>,
)
    requires
        self_delimiting(enc, dec),
        all_non_empty(chunks),
        0 < m < enc(v).len(),
        buf + chunks.flatten() == enc(v).take(m),
    ensures
        receive_run(dec, buf, chunks).0 == Receipt::<V>::Reset,
    decreases chunks.len(),
{
    let e = enc(v);
    let flat = chunks.flatten();
    assert((buf + flat).take(buf.len() as int) =~= buf);
    assert(e.take(m).len() == m);
    assert(buf.len() <= m);
    assert(e.take(m).take(buf.len() as int) =~= e.take(buf.len() as int));
    assert(buf =~= e.take(buf.len() as int));
    assert(dec(e.take(buf.len() as int)) is Incomplete);
    if chunks.len() == 0 {
        assert(flat =~= Seq::<u8>::empty());
        assert(buf + flat =~= buf);
    } else {
        let buf2 = buf + chunks[0];
        let chunks2 = chunks.drop_first();
        assert(all_non_empty(chunks2)) by {
            assert forall|i: int| 0 <= i < chunks2.len() implies (#[trigger] chunks2[i]).len()
                > 0 by {
                assert(chunks2[i] == chunks[i + 1]);
            }
        }
        assert(flat == chunks.first() + chunks2.flatten());
        assert(buf2 + chunks2.flatten() =~= buf + flat);
        lemma_receive_truncated(enc, dec, v, m, buf2, chunks2);
    }
}

/// Reset mid-message: where the peer sends a non-empty proper prefix of an
/// encoding, cut into any reads, and then closes, a receive fails with a
/// reset rather than yielding no value.
pub proof fn lemma_reset_mid_message<V>(
    enc: spec_fn(V) -> Seq<u8>,
    dec: spec_fn(Seq<u8>) -> Decoded<V>,
    v: V,
    m: int,
    chunks: Seq<Seq<u8>>,
)
    requires
        self_delimiting(enc, dec),
        all_non_empty(chunks),
        0 < m < enc(v).len(),
        chunks.flatten() == enc(v).take(m),
    ensures
        receive_run(dec, Seq::empty(), chunks).0 == Receipt::<V>::Reset,
{
    assert(Seq::<u8>::empty() + chunks.flatten() =~= chunks.flatten());
    lemma_receive_truncated(enc, dec, v, m, Seq::empty(), chunks);
}

/// Pipelining: where the peer writes two encodings back to back, however the
/// transport cuts them into reads, two receives in a row return the two
/// values in order, and the second leaves the buffer empty: no byte of the
/// second message is lost when the first is taken.
pub proof fn lemma_pipelining<V>(
    enc: spec_fn(V) -> Seq<u8>,
    dec: spec_fn(Seq<u8>) -> Decoded<V>,
    v1: V,
    v2: V,
    chunks: Seq<Seq<u8>>,
)
    requires
        self_delimiting(enc, dec),
        all_non_empty(chunks),
        chunks.flatten() == enc(v1) + enc(v2),
    ensures
        ({
            let first = receive_run(dec, Seq::empty(), chunks);
            let second = receive_run(dec, first.1, chunks.skip(first.2 as int));
            &&& first.0 == Receipt::Value(v1)
            &&& second.0 == Receipt::Value(v2)
            &&& second.1 == Seq::<u8>::empty()
        }),
{
    let empty = Seq::<u8>::empty();
    assert(empty + chunks.flatten() =~= enc(v1) + enc(v2));
    lemma_receive_front(enc, dec, v1, enc(v2), empty, chunks);
    let first = receive_run(dec, empty, chunks);
    let unread = chunks.skip(first.2 as int);
    assert(all_non_empty(unread)) by {
        assert forall|i: int| 0 <= i < unread.len() implies (#[trigger] unread[i]).len() > 0 by {
            assert(unread[i] == chunks[i + first.2]);
        }
    }
    assert(first.1 + unread.flatten() =~= enc(v2) + empty);
    lemma_receive_front(enc, dec, v2, empty, first.1, unread);
    let second = receive_run(dec, first.1, unread);
    let left = unread.skip(second.2 as int);
    assert(second.1 + left.flatten() == empty);
    assert(second.1 =~= empty);
}

} // verus!
