//! Multiplexing: many logical connections on one shared transport.
//!
//! A chunk of bytes read from a connection is cut into pieces that fit in a
//! frame. A writer puts the frames of all connections on the transport, one
//! behind the other; a reader takes them off in the same order and hands
//! each payload to the connection that the frame names. Every connection
//! then receives its own bytes, all of them, in the order in which they were
//! sent, and none of another connection.

use vstd::prelude::*;
use vstd::slice::slice_subrange;

use crate::message::{
    frame_bytes,
    frame_id,
    frame_len,
    frame_payload,
    lemma_frame_roundtrip,
    FrameModel,
    Message,
    CAPACITY,
    FRAME_SIZE,
};

verus! {

/// The messages that carry `chunk` for connection `id`: the chunk cut from
/// the front into pieces of `CAPACITY` bytes, the last piece holding what is
/// left. An empty chunk needs no message.
pub open spec fn pieces(id: u64, chunk: Seq<u8>) -> Seq<FrameModel>
    decreases chunk.len(),
{
    if chunk.len() == 0 {
        Seq::empty()
    } else {
        let n = if chunk.len() <= CAPACITY {
            chunk.len() as int
        } else {
            CAPACITY as int
        };
        seq![FrameModel { id, payload: chunk.subrange(0, n) }] + pieces(
            id,
            chunk.subrange(n, chunk.len() as int),
        )
    }
}

/// The models of a sequence of messages.
pub open spec fn models(messages: Seq<Message>) -> Seq<FrameModel> {
    messages.map_values(|m: Message| m@)
}

/// Every payload fits in a frame.
pub open spec fn all_fit(frames: Seq<FrameModel>) -> bool {
    forall|i: int| 0 <= i < frames.len() ==> (#[trigger] frames[i]).payload.len() <= CAPACITY
}

/// The bytes on the transport when `frames` are written in order.
pub open spec fn wire(frames: Seq<FrameModel>) -> Seq<u8>
    decreases frames.len(),
{
    if frames.len() == 0 {
        Seq::empty()
    } else {
        frame_bytes(frames[0].id, frames[0].payload) + wire(frames.drop_first())
    }
}

/// The bytes that `frames` carry for connection `id`, in order.
pub open spec fn submitted(frames: Seq<FrameModel>, id: u64) -> Seq<u8>
    decreases frames.len(),
{
    if frames.len() == 0 {
        Seq::empty()
    } else if frames[0].id == id {
        frames[0].payload + submitted(frames.drop_first(), id)
    } else {
        submitted(frames.drop_first(), id)
    }
}

/// The bytes that a reader of `stream` hands to connection `id`: it takes
/// one frame after the other and keeps the payloads of those that name
/// `id`. A frame whose length field is too large carries nothing, and bytes
/// at the end that do not fill a frame are not read.
pub open spec fn received(stream: Seq<u8>, id: u64) -> Seq<u8>
    decreases stream.len(),
{
    if stream.len() < FRAME_SIZE {
        Seq::empty()
    } else {
        let frame = stream.subrange(0, FRAME_SIZE as int);
        let rest = stream.subrange(FRAME_SIZE as int, stream.len() as int);
        if frame_id(frame) == id && frame_len(frame) <= CAPACITY {
            frame_payload(frame) + received(rest, id)
        } else {
            received(rest, id)
        }
    }
}

/// What is written is a whole number of frames.
pub proof fn lemma_wire_len(frames: Seq<FrameModel>)
    requires
        all_fit(frames),
    ensures
        wire(frames).len() == frames.len() * FRAME_SIZE,
    decreases frames.len(),
{
    if frames.len() > 0 {
        lemma_frame_roundtrip(frames[0].id, frames[0].payload);
        lemma_wire_len(frames.drop_first());
    }
}

/// Writing two runs of frames one after the other gives the bytes of the
/// first followed by the bytes of the second.
pub proof fn lemma_wire_concat(a: Seq<FrameModel>, b: Seq<FrameModel>)
    ensures
        wire(a + b) == wire(a) + wire(b),
    decreases a.len(),
{
    if a.len() == 0 {
        assert(a + b =~= b);
        assert(wire(a) + wire(b) =~= wire(b));
    } else {
        assert((a + b).drop_first() =~= a.drop_first() + b);
        lemma_wire_concat(a.drop_first(), b);
        assert(wire(a + b) =~= wire(a) + wire(b));
    }
}

/// What two runs of frames carry for a connection is what the first
/// carries, followed by what the second carries.
pub proof fn lemma_submitted_concat(a: Seq<FrameModel>, b: Seq<FrameModel>, id: u64)
    ensures
        submitted(a + b, id) == submitted(a, id) + submitted(b, id),
    decreases a.len(),
{
    if a.len() == 0 {
        assert(a + b =~= b);
        assert(submitted(a, id) + submitted(b, id) =~= submitted(b, id));
    } else {
        assert((a + b).drop_first() =~= a.drop_first() + b);
        lemma_submitted_concat(a.drop_first(), b, id);
        assert(submitted(a + b, id) =~= submitted(a, id) + submitted(b, id));
    }
}

/// Demultiplexing undoes multiplexing: whatever frames of whatever
/// connections are written to the transport, in whatever order, the reader
/// hands to each connection exactly the bytes that were sent for it, in the
/// order in which they were sent.
pub proof fn lemma_demultiplex(frames: Seq<FrameModel>, id: u64)
    requires
        all_fit(frames),
    ensures
        received(wire(frames), id) == submitted(frames, id),
    decreases frames.len(),
{
    if frames.len() > 0 {
        let first = frames[0];
        let rest = frames.drop_first();
        let stream = wire(frames);
        lemma_frame_roundtrip(first.id, first.payload);
        lemma_wire_len(rest);
        assert(stream.subrange(0, FRAME_SIZE as int) =~= frame_bytes(first.id, first.payload));
        assert(stream.subrange(FRAME_SIZE as int, stream.len() as int) =~= wire(rest));
        lemma_demultiplex(rest, id);
    }
}

/// The pieces of a chunk fit in frames, and together they carry the chunk
/// for its connection and nothing for any other.
pub proof fn lemma_pieces(id: u64, chunk: Seq<u8>, other: u64)
    ensures
        all_fit(pieces(id, chunk)),
        submitted(pieces(id, chunk), id) == chunk,
        other != id ==> submitted(pieces(id, chunk), other) == Seq::<u8>::empty(),
    decreases chunk.len(),
{
    if chunk.len() > 0 {
        let n = if chunk.len() <= CAPACITY {
            chunk.len() as int
        } else {
            CAPACITY as int
        };
        let head = seq![FrameModel { id, payload: chunk.subrange(0, n) }];
        let tail = pieces(id, chunk.subrange(n, chunk.len() as int));
        lemma_pieces(id, chunk.subrange(n, chunk.len() as int), other);
        assert((head + tail).drop_first() =~= tail);
        assert(chunk.subrange(0, n) + chunk.subrange(n, chunk.len() as int) =~= chunk);
    } else {
        assert(chunk =~= Seq::<u8>::empty());
    }
}

/// Order within a connection: when a connection sends chunk `a` and later
/// chunk `b`, whatever other frames travel before, between and after them,
/// the receiving side gets all of `a` before any of `b`.
pub proof fn lemma_chunks_arrive_in_order(
    id: u64,
    a: Seq<u8>,
    b: Seq<u8>,
    before: Seq<FrameModel>,
    between: Seq<FrameModel>,
    after: Seq<FrameModel>,
)
    requires
        all_fit(before),
        all_fit(between),
        all_fit(after),
    ensures
        received(wire(before + pieces(id, a) + between + pieces(id, b) + after), id) == submitted(
            before,
            id,
        ) + a + submitted(between, id) + b + submitted(after, id),
{
    let pa = pieces(id, a);
    let pb = pieces(id, b);
    let all = before + pa + between + pb + after;
    lemma_pieces(id, a, id);
    lemma_pieces(id, b, id);
    lemma_demultiplex(all, id);
    lemma_submitted_concat(before + pa + between + pb, after, id);
    lemma_submitted_concat(before + pa + between, pb, id);
    lemma_submitted_concat(before + pa, between, id);
    lemma_submitted_concat(before, pa, id);
}

/// Connections do not mix: when two different connections each send a
/// chunk over the same transport, each receives its own chunk, whole and
/// unchanged, and no byte of the other.
pub proof fn lemma_connections_do_not_mix(x: u64, a: Seq<u8>, y: u64, b: Seq<u8>)
    requires
        x != y,
    ensures
        received(wire(pieces(x, a) + pieces(y, b)), x) == a,
        received(wire(pieces(x, a) + pieces(y, b)), y) == b,
{
    let pa = pieces(x, a);
    let pb = pieces(y, b);
    lemma_pieces(x, a, y);
    lemma_pieces(y, b, x);
    lemma_demultiplex(pa + pb, x);
    lemma_demultiplex(pa + pb, y);
    lemma_submitted_concat(pa, pb, x);
    lemma_submitted_concat(pa, pb, y);
    assert(a + Seq::<u8>::empty() =~= a);
    assert(Seq::<u8>::empty() + b =~= b);
}

/// Cuts `chunk` into the messages that carry it for connection `id`.
pub fn split_chunk(id: u64, chunk: &[u8]) -> (r: Vec<Message>)
    ensures
        models(r@) == pieces(id, chunk@),
{
    let total = chunk.len();
    let mut out: Vec<Message> = Vec::new();
    let mut pos: usize = 0;
    assert(models(out@) =~= Seq::<FrameModel>::empty());
    assert(chunk@.subrange(0, total as int) =~= chunk@);
    while pos < total
        invariant
            pos <= total,
            total == chunk@.len(),
            models(out@) + pieces(id, chunk@.subrange(pos as int, total as int)) == pieces(
                id,
                chunk@,
            ),
        decreases total - pos,
    {
        let n = if total - pos <= CAPACITY {
            total - pos
        } else {
            CAPACITY
        };
        let ghost rest = chunk@.subrange(pos as int, total as int);
        let ghost before = models(out@);
        if let Ok(m) = Message::new(id, slice_subrange(chunk, pos, pos + n)) {
            out.push(m);
            proof {
                assert(rest.subrange(0, n as int) =~= chunk@.subrange(pos as int, pos + n));
                assert(rest.subrange(n as int, rest.len() as int) =~= chunk@.subrange(
                    pos + n,
                    total as int,
                ));
                assert(models(out@) =~= before + seq![m@]);
                assert(models(out@) + pieces(id, chunk@.subrange(pos + n, total as int))
                    =~= before + pieces(id, rest));
            }
        }
        pos += n;
    }
    assert(models(out@) + Seq::<FrameModel>::empty() =~= models(out@));
    out
}

} // verus!
