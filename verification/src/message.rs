//! Frame codec: a payload, its length and a connection id in a frame of
//! fixed size.
//!
//! A frame is `FRAME_SIZE` bytes long whatever it carries. The payload stands
//! at the front of the first `CAPACITY` bytes, followed by zeros; then come
//! the payload's length and the connection id, eight bytes each, least
//! significant byte first.

use byteorder::ByteOrder;
use vstd::arithmetic::div_mod::lemma_div_denominator;
use vstd::prelude::*;
use vstd::slice::slice_subrange;
use vstd::string::StringSliceAdditionalSpecFns;

use crate::error::ProxyError;

verus! {

/// The most payload bytes that one frame carries.
pub const CAPACITY: usize = 496;

/// The size of every frame on the wire.
pub const FRAME_SIZE: usize = 512;

/// The eight bytes that stand for `n`, least significant first.
pub open spec fn le_bytes(n: u64) -> Seq<u8> {
    seq![
        (n % 0x100) as u8,
        (n / 0x100 % 0x100) as u8,
        (n / 0x1_0000 % 0x100) as u8,
        (n / 0x100_0000 % 0x100) as u8,
        (n / 0x1_0000_0000 % 0x100) as u8,
        (n / 0x100_0000_0000 % 0x100) as u8,
        (n / 0x1_0000_0000_0000 % 0x100) as u8,
        (n / 0x100_0000_0000_0000 % 0x100) as u8,
    ]
}

/// The number that the first eight bytes of `s` stand for, least significant
/// byte first.
pub open spec fn le_value(s: Seq<u8>) -> int
    recommends
        s.len() >= 8,
{
    s[0] + s[1] * 0x100 + s[2] * 0x1_0000 + s[3] * 0x100_0000 + s[4] * 0x1_0000_0000 + s[5]
        * 0x100_0000_0000 + s[6] * 0x1_0000_0000_0000 + s[7] * 0x100_0000_0000_0000
}

/// `count` zero bytes.
pub open spec fn zeros(count: int) -> Seq<u8> {
    Seq::new(count as nat, |i: int| 0u8)
}

/// The frame that carries `payload` for connection `id`.
pub open spec fn frame_bytes(id: u64, payload: Seq<u8>) -> Seq<u8>
    recommends
        payload.len() <= CAPACITY,
{
    payload + zeros(CAPACITY - payload.len()) + le_bytes(payload.len() as u64) + le_bytes(id)
}

/// The length field of a frame.
pub open spec fn frame_len(frame: Seq<u8>) -> int
    recommends
        frame.len() >= FRAME_SIZE,
{
    le_value(frame.subrange(CAPACITY as int, CAPACITY + 8))
}

/// The connection id field of a frame.
pub open spec fn frame_id(frame: Seq<u8>) -> int
    recommends
        frame.len() >= FRAME_SIZE,
{
    le_value(frame.subrange(CAPACITY + 8, FRAME_SIZE as int))
}

/// The payload of a frame: as many of its leading bytes as the length field
/// says. Whatever follows them is padding.
pub open spec fn frame_payload(frame: Seq<u8>) -> Seq<u8>
    recommends
        frame.len() >= FRAME_SIZE,
        frame_len(frame) <= CAPACITY,
{
    frame.subrange(0, frame_len(frame))
}

/// Eight bytes always stand for a number that fits in 64 bits.
pub proof fn lemma_le_value_bound(s: Seq<u8>)
    requires
        s.len() >= 8,
    ensures
        0 <= le_value(s) <= u64::MAX,
{
}

/// Reading back the bytes written for `n` gives `n`.
pub proof fn lemma_le_roundtrip(n: u64)
    ensures
        le_bytes(n).len() == 8,
        le_value(le_bytes(n)) == n,
{
    let x = n as int;
    let q1 = x / 0x100;
    let q2 = q1 / 0x100;
    let q3 = q2 / 0x100;
    let q4 = q3 / 0x100;
    let q5 = q4 / 0x100;
    let q6 = q5 / 0x100;
    let q7 = q6 / 0x100;
    lemma_div_denominator(x, 0x100, 0x100);
    lemma_div_denominator(x, 0x1_0000, 0x100);
    lemma_div_denominator(x, 0x100_0000, 0x100);
    lemma_div_denominator(x, 0x1_0000_0000, 0x100);
    lemma_div_denominator(x, 0x100_0000_0000, 0x100);
    lemma_div_denominator(x, 0x1_0000_0000_0000, 0x100);
    assert(q2 == x / 0x1_0000);
    assert(q3 == x / 0x100_0000);
    assert(q4 == x / 0x1_0000_0000);
    assert(q5 == x / 0x100_0000_0000);
    assert(q6 == x / 0x1_0000_0000_0000);
    assert(q7 == x / 0x100_0000_0000_0000);
    assert(q7 < 0x100);
    let b = le_bytes(n);
    assert(b[0] == x % 0x100);
    assert(b[1] == q1 % 0x100);
    assert(b[2] == q2 % 0x100);
    assert(b[3] == q3 % 0x100);
    assert(b[4] == q4 % 0x100);
    assert(b[5] == q5 % 0x100);
    assert(b[6] == q6 % 0x100);
    assert(b[7] == q7);
    assert(q6 == b[6] + q7 * 0x100);
    assert(q5 == b[5] + q6 * 0x100);
    assert(q4 == b[4] + q5 * 0x100);
    assert(q3 == b[3] + q4 * 0x100);
    assert(q2 == b[2] + q3 * 0x100);
    assert(q1 == b[1] + q2 * 0x100);
    assert(x == b[0] + q1 * 0x100);
}

/// What a frame holds can be read back from it: it has the fixed size, its
/// length field gives the payload's length, its id field gives the id, and
/// its payload is the one it was made from.
pub proof fn lemma_frame_roundtrip(id: u64, payload: Seq<u8>)
    requires
        payload.len() <= CAPACITY,
    ensures
        frame_bytes(id, payload).len() == FRAME_SIZE,
        frame_len(frame_bytes(id, payload)) == payload.len(),
        frame_id(frame_bytes(id, payload)) == id,
        frame_payload(frame_bytes(id, payload)) == payload,
{
    let frame = frame_bytes(id, payload);
    let n = payload.len() as u64;
    lemma_le_roundtrip(n);
    lemma_le_roundtrip(id);
    assert(frame.subrange(CAPACITY as int, CAPACITY + 8) =~= le_bytes(n));
    assert(frame.subrange(CAPACITY + 8, FRAME_SIZE as int) =~= le_bytes(id));
    assert(frame.subrange(0, payload.len() as int) =~= payload);
}

/// `byteorder::LittleEndian::write_u64` on a buffer of eight bytes: the
/// buffer then holds `n`, least significant byte first.
#[verifier::external_body]
fn write_u64_le(n: u64) -> (out: [u8; 8])
    ensures
        out@ == le_bytes(n),
{
    let mut out = [0u8; 8];
    byteorder::LittleEndian::write_u64(&mut out, n);
    out
}

/// `byteorder::LittleEndian::read_u64`: the number that the first eight
/// bytes of `buf` stand for, least significant byte first. The outside
/// function panics on a shorter buffer.
#[verifier::external_body]
fn read_u64_le(buf: &[u8]) -> (n: u64)
    requires
        buf@.len() >= 8,
    ensures
        n == le_value(buf@),
{
    byteorder::LittleEndian::read_u64(buf)
}

/// Writes the eight bytes of `n` into `frame`, from index `at` on.
fn put_u64(frame: &mut [u8; FRAME_SIZE], at: usize, n: u64)
    requires
        at + 8 <= FRAME_SIZE,
    ensures
        final(frame)@ == old(frame)@.subrange(0, at as int) + le_bytes(n) + old(frame)@.subrange(
            at + 8,
            FRAME_SIZE as int,
        ),
{
    let field = write_u64_le(n);
    let mut i: usize = 0;
    while i < 8
        invariant
            i <= 8,
            at + 8 <= FRAME_SIZE,
            field@ == le_bytes(n),
            forall|j: int| 0 <= j < at ==> frame@[j] == old(frame)@[j],
            forall|j: int| at <= j < at + i ==> frame@[j] == field@[j - at],
            forall|j: int| at + i <= j < FRAME_SIZE ==> frame@[j] == old(frame)@[j],
        decreases 8 - i,
    {
        frame[at + i] = field[i];
        i += 1;
    }
    assert(frame@ =~= old(frame)@.subrange(0, at as int) + le_bytes(n) + old(frame)@.subrange(
        at + 8,
        FRAME_SIZE as int,
    ));
}

/// Builds the frame that carries `payload` for connection `id`.
///
/// A payload longer than `CAPACITY` is refused, never cut short.
pub fn encode(id: u64, payload: &[u8]) -> (r: Result<[u8; FRAME_SIZE], ProxyError>)
    ensures
        match r {
            Ok(frame) => payload@.len() <= CAPACITY && frame@ == frame_bytes(id, payload@),
            Err(e) => payload@.len() > CAPACITY && e == ProxyError::PayloadTooLarge,
        },
{
    let n = payload.len();
    if n > CAPACITY {
        return Err(ProxyError::PayloadTooLarge);
    }
    let mut frame = [0u8; FRAME_SIZE];
    let mut i: usize = 0;
    while i < n
        invariant
            i <= n,
            n == payload@.len(),
            n <= CAPACITY,
            forall|j: int| 0 <= j < i ==> frame@[j] == payload@[j],
            forall|j: int| i <= j < FRAME_SIZE ==> frame@[j] == 0u8,
        decreases n - i,
    {
        frame[i] = payload[i];
        i += 1;
    }
    put_u64(&mut frame, CAPACITY, n as u64);
    put_u64(&mut frame, CAPACITY + 8, id);
    assert(frame@ =~= frame_bytes(id, payload@));
    Ok(frame)
}

/// The content of one frame: a payload of at most `CAPACITY` bytes and the
/// id of the connection it belongs to.
pub struct Message {
    body: [u8; CAPACITY],
    len: usize,
    id: u64,
}

/// What a message is, as mathematics.
pub struct FrameModel {
    pub id: u64,
    pub payload: Seq<u8>,
}

impl View for Message {
    type V = FrameModel;

    open spec fn view(&self) -> FrameModel {
        FrameModel { id: self.spec_id(), payload: self.spec_payload() }
    }
}

impl Message {
    #[verifier::type_invariant]
    spec fn inv(self) -> bool {
        self.len <= CAPACITY
    }

    /// The connection that the message belongs to.
    pub closed spec fn spec_id(&self) -> u64 {
        self.id
    }

    /// The bytes that the message carries.
    pub closed spec fn spec_payload(&self) -> Seq<u8> {
        self.body@.subrange(0, self.len as int)
    }

    /// The number of bytes that the message carries.
    pub open spec fn spec_len(&self) -> usize {
        self.spec_payload().len() as usize
    }

    /// A message for connection `id` that carries `payload`, unless the
    /// payload is longer than `CAPACITY`.
    pub fn new(id: u64, payload: &[u8]) -> (r: Result<Message, ProxyError>)
        ensures
            match r {
                Ok(m) => payload@.len() <= CAPACITY && m.spec_id() == id && m.spec_payload()
                    == payload@,
                Err(e) => payload@.len() > CAPACITY && e == ProxyError::PayloadTooLarge,
            },
    {
        let n = payload.len();
        if n > CAPACITY {
            return Err(ProxyError::PayloadTooLarge);
        }
        let mut body = [0u8; CAPACITY];
        let mut i: usize = 0;
        while i < n
            invariant
                i <= n,
                n == payload@.len(),
                n <= CAPACITY,
                forall|j: int| 0 <= j < i ==> body@[j] == payload@[j],
            decreases n - i,
        {
            body[i] = payload[i];
            i += 1;
        }
        assert(body@.subrange(0, n as int) =~= payload@);
        Ok(Message { body, len: n, id })
    }

    /// Encodes `req` as the payload of a frame for connection `id`.
    pub fn from_str_to_vec(id: u64, req: &str) -> (r: Result<[u8; FRAME_SIZE], ProxyError>)
        ensures
            match r {
                Ok(frame) => req.spec_bytes().len() <= CAPACITY && frame@ == frame_bytes(
                    id,
                    req.spec_bytes(),
                ),
                Err(e) => req.spec_bytes().len() > CAPACITY && e == ProxyError::PayloadTooLarge,
            },
    {
        encode(id, req.as_bytes())
    }

    /// Turns a buffer whose first `len` bytes are a payload into the frame
    /// that carries this payload for connection `id`, in place. Bytes after
    /// the frame stay as they are; so does the whole buffer when `len` is
    /// more than `CAPACITY`.
    pub fn from_body_to_vec(id: u64, req: &mut [u8], len: usize) -> (r: Result<(), ProxyError>)
        requires
            old(req)@.len() >= FRAME_SIZE,
        ensures
            final(req)@.len() == old(req)@.len(),
            match r {
                Ok(_) => len <= CAPACITY && final(req)@ == frame_bytes(
                    id,
                    old(req)@.subrange(0, len as int),
                ) + old(req)@.subrange(FRAME_SIZE as int, old(req)@.len() as int),
                Err(e) => len > CAPACITY && e == ProxyError::PayloadTooLarge && final(req)@ == old(
                    req,
                )@,
            },
    {
        if len > CAPACITY {
            return Err(ProxyError::PayloadTooLarge);
        }
        let frame = match encode(id, slice_subrange(req, 0, len)) {
            Ok(frame) => frame,
            Err(e) => { return Err(e); },
        };
        let mut i: usize = 0;
        while i < FRAME_SIZE
            invariant
                i <= FRAME_SIZE,
                req@.len() == old(req)@.len(),
                req@.len() >= FRAME_SIZE,
                forall|j: int| 0 <= j < i ==> req@[j] == frame@[j],
                forall|j: int| i <= j < req@.len() ==> req@[j] == old(req)@[j],
            decreases FRAME_SIZE - i,
        {
            req[i] = frame[i];
            i += 1;
        }
        assert(req@ =~= frame@ + old(req)@.subrange(FRAME_SIZE as int, old(req)@.len() as int));
        Ok(())
    }

    /// The connection that the message belongs to.
    #[verifier::when_used_as_spec(spec_id)]
    pub fn id(&self) -> (r: u64)
        ensures
            r == self.spec_id(),
    {
        self.id
    }

    /// The number of bytes that the message carries, never more than
    /// `CAPACITY`.
    #[verifier::when_used_as_spec(spec_len)]
    pub fn len(&self) -> (r: usize)
        ensures
            r == self.spec_payload().len(),
            r == self.spec_len(),
            r <= CAPACITY,
    {
        proof {
            use_type_invariant(self);
        }
        self.len
    }

    /// The length field of the frame in `msg`, whatever the rest of the
    /// frame holds.
    pub fn len_fromn_u8(msg: &[u8]) -> (r: u64)
        requires
            msg@.len() >= FRAME_SIZE,
        ensures
            r == frame_len(msg@),
    {
        read_u64_le(slice_subrange(msg, CAPACITY, CAPACITY + 8))
    }

    /// The connection id field of the frame in `msg`, whatever the rest of
    /// the frame holds.
    pub fn id_fromn_u8(msg: &[u8]) -> (r: u64)
        requires
            msg@.len() >= FRAME_SIZE,
        ensures
            r == frame_id(msg@),
    {
        read_u64_le(slice_subrange(msg, CAPACITY + 8, FRAME_SIZE))
    }

    /// The bytes that the message carries.
    pub fn payload(&self) -> (r: Vec<u8>)
        ensures
            r@ == self.spec_payload(),
    {
        proof {
            use_type_invariant(self);
        }
        let mut out: Vec<u8> = Vec::with_capacity(self.len);
        let mut i: usize = 0;
        while i < self.len
            invariant
                i <= self.len,
                self.len <= CAPACITY,
                out@ == self.body@.subrange(0, i as int),
            decreases self.len - i,
        {
            out.push(self.body[i]);
            i += 1;
            assert(out@ =~= self.body@.subrange(0, i as int));
        }
        out
    }

    /// The frame that carries this message.
    pub fn to_frame(&self) -> (frame: [u8; FRAME_SIZE])
        ensures
            frame@ == frame_bytes(self.spec_id(), self.spec_payload()),
    {
        proof {
            use_type_invariant(self);
        }
        let mut frame = [0u8; FRAME_SIZE];
        let mut i: usize = 0;
        while i < self.len
            invariant
                i <= self.len,
                self.len <= CAPACITY,
                forall|j: int| 0 <= j < i ==> frame@[j] == self.body@[j],
                forall|j: int| i <= j < FRAME_SIZE ==> frame@[j] == 0u8,
            decreases self.len - i,
        {
            frame[i] = self.body[i];
            i += 1;
        }
        put_u64(&mut frame, CAPACITY, self.len as u64);
        put_u64(&mut frame, CAPACITY + 8, self.id);
        assert(frame@ =~= frame_bytes(self.spec_id(), self.spec_payload()));
        frame
    }

    /// Reads the message that a frame carries. There is one if and only if
    /// `msg` has the size of a frame and its length field is no more than
    /// `CAPACITY`; the padding is dropped.
    pub fn from_frame(msg: &[u8]) -> (r: Option<Message>)
        ensures
            r is Some <==> msg@.len() == FRAME_SIZE && frame_len(msg@) <= CAPACITY,
            r matches Some(m) ==> m.spec_id() == frame_id(msg@) && m.spec_payload()
                == frame_payload(msg@),
    {
        if msg.len() != FRAME_SIZE {
            return None;
        }
        let n = Message::len_fromn_u8(msg);
        if n > CAPACITY as u64 {
            return None;
        }
        let id = Message::id_fromn_u8(msg);
        match Message::new(id, slice_subrange(msg, 0, n as usize)) {
            Ok(m) => Some(m),
            Err(_) => None,
        }
    }
}

} // verus!
