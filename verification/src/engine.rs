//! Bookkeeping for the streaming phases of a transfer.
//!
//! The transfer engine proper performs the socket and file operations;
//! the types here carry the exact state those operations need — how many
//! bytes each side has moved, which bytes are still owed — together with
//! ghost histories of every byte accepted and handed on, so that the
//! central claims of the protocol (nothing lost, nothing invented,
//! termination exactly at the declared size) are proved rather than
//! hoped for.

use crate::codec::{
    lemma_frame_round_trip, lemma_metadata_round_trip, metadata_encoding_well_formed,
    spec_decoded_name, spec_decoded_size, spec_frame, spec_metadata_encoding,
    spec_u32_from_be_bytes, append_bytes, decode_metadata, u32_from_be_bytes_slice, FileMetadata,
};
use crate::errors::TransferError;
use vstd::prelude::*;

verus! {

/// Sender-side bookkeeping for the chunked payload phase.
///
/// The sender reads its source file chunk by chunk and writes each chunk
/// to the connection; this records how much has been written, and — as a
/// ghost history — exactly which bytes.
pub struct SendSession {
    /// The payload size declared in the metadata frame.
    pub size: u64,
    /// Count of payload bytes written to the connection so far.
    pub sent: u64,
    /// The payload bytes written to the connection so far, in order.
    pub history: Ghost<Seq<u8>>,
}

impl SendSession {
    /// The count always matches the recorded bytes.
    pub open spec fn wf(&self) -> bool {
        self.history@.len() == self.sent
    }

    /// Starts the payload phase for a declared size.
    pub fn new(size: u64) -> (r: SendSession)
        ensures
            r.wf(),
            r.size == size,
            r.sent == 0,
            r.history@ == Seq::<u8>::empty(),
    {
        SendSession { size, sent: 0, history: Ghost(Seq::empty()) }
    }

    /// Records one chunk written to the connection: the running total
    /// advances by exactly the chunk's length and the history by exactly
    /// its bytes.
    pub fn record_chunk(&mut self, chunk: &[u8])
        requires
            old(self).wf(),
            old(self).sent + chunk@.len() <= u64::MAX,
        ensures
            final(self).wf(),
            final(self).size == old(self).size,
            final(self).sent == old(self).sent + chunk@.len(),
            final(self).history@ == old(self).history@ + chunk@,
    {
        self.sent = self.sent + chunk.len() as u64;
        self.history = Ghost(self.history@ + chunk@);
    }

    /// Whether the running total has reached the declared size exactly.
    pub fn is_complete(&self) -> (r: bool)
        ensures
            r == (self.sent == self.size),
    {
        self.sent == self.size
    }
}

/// The sender's byte accounting is exact: whatever the chunking, the
/// count of written payload bytes equals the number of bytes written, so
/// a sender whose written bytes are precisely an `n`-byte file has
/// written exactly `n` payload bytes.
pub proof fn lemma_sender_accounting(s: SendSession, payload: Seq<u8>)
    requires
        s.wf(),
        s.history@ == payload,
    ensures
        s.sent == payload.len(),
{
}

/// Receiver-side bookkeeping for the chunked payload phase.
///
/// The connection may deliver bytes in pieces of any size; they collect
/// in `pending` until a full chunk (or the final short chunk) is ready to
/// be written to the destination file.  Ghost histories record every
/// byte accepted from the connection and every byte handed on to the
/// file, so completion can be proved to mean "exactly the delivered
/// bytes, exactly the declared count".
pub struct ReceiveSession {
    /// The payload size declared in the metadata frame.
    pub size: u64,
    /// The fixed chunk granularity of this transfer.
    pub chunk_size: usize,
    /// Count of payload bytes already handed on to the destination file.
    pub received: u64,
    /// Bytes accepted from the connection but not yet handed on.
    pub pending: Vec<u8>,
    /// Every payload byte accepted from the connection, in order.
    pub delivered: Ghost<Seq<u8>>,
    /// Every byte handed on to the destination file, in order.
    pub written: Ghost<Seq<u8>>,
}

impl ReceiveSession {
    /// The size of the chunk currently being assembled: a full chunk, or
    /// whatever remains of the declared size.
    pub open spec fn chunk_target(&self) -> int {
        if self.chunk_size as int <= self.size - self.received {
            self.chunk_size as int
        } else {
            self.size - self.received
        }
    }

    /// The session invariant: the histories and counters agree, and no
    /// more has been accepted than the declared size allows.
    pub open spec fn wf(&self) -> bool {
        &&& self.chunk_size > 0
        &&& self.written@.len() == self.received
        &&& self.delivered@ == self.written@ + self.pending@
        &&& self.received + self.pending@.len() <= self.size
        &&& self.pending@.len() <= self.chunk_target()
    }

    /// Starts the payload phase for a declared size and chunk granularity.
    pub fn new(size: u64, chunk_size: usize) -> (r: ReceiveSession)
        requires
            chunk_size > 0,
        ensures
            r.wf(),
            r.size == size,
            r.chunk_size == chunk_size,
            r.received == 0,
            r.pending@ == Seq::<u8>::empty(),
            r.delivered@ == Seq::<u8>::empty(),
            r.written@ == Seq::<u8>::empty(),
    {
        ReceiveSession {
            size,
            chunk_size,
            received: 0,
            pending: Vec::new(),
            delivered: Ghost(Seq::empty()),
            written: Ghost(Seq::empty()),
        }
    }

    /// Whether every declared payload byte has been handed on.
    pub fn is_complete(&self) -> (r: bool)
        ensures
            r == (self.received == self.size),
    {
        self.received == self.size
    }

    /// How many more bytes the current chunk still needs; zero exactly
    /// when a chunk is ready to be taken or the transfer is complete.
    pub fn needed(&self) -> (r: usize)
        requires
            self.wf(),
        ensures
            r == self.chunk_target() - self.pending@.len(),
            r <= self.chunk_size,
    {
        let remaining: u64 = self.size - self.received;
        let target: u64 = if self.chunk_size as u64 <= remaining {
            self.chunk_size as u64
        } else {
            remaining
        };
        (target - self.pending.len() as u64) as usize
    }

    /// Accepts one piece of payload bytes from the connection, of any
    /// size up to what the current chunk still needs.  Only the pending
    /// buffer and the delivered history grow, each by exactly the piece.
    pub fn accept(&mut self, data: &[u8])
        requires
            old(self).wf(),
            old(self).pending@.len() + data@.len() <= old(self).chunk_target(),
        ensures
            final(self).wf(),
            final(self).size == old(self).size,
            final(self).chunk_size == old(self).chunk_size,
            final(self).received == old(self).received,
            final(self).pending@ == old(self).pending@ + data@,
            final(self).delivered@ == old(self).delivered@ + data@,
            final(self).written@ == old(self).written@,
    {
        append_bytes(&mut self.pending, data);
        self.delivered = Ghost(self.delivered@ + data@);
        proof {
            assert(self.delivered@ =~= self.written@ + self.pending@);
        }
    }

    /// Whether a complete chunk is assembled and waiting to be taken.
    pub fn chunk_ready(&self) -> (r: bool)
        requires
            self.wf(),
        ensures
            r == (self.received < self.size && self.pending@.len() == self.chunk_target()),
    {
        let remaining: u64 = self.size - self.received;
        let target: u64 = if self.chunk_size as u64 <= remaining {
            self.chunk_size as u64
        } else {
            remaining
        };
        self.received < self.size && self.pending.len() as u64 == target
    }

    /// Hands on the assembled chunk for the destination file.  The
    /// running total advances by exactly the chunk's length and the
    /// written history by exactly its bytes.
    pub fn take_chunk(&mut self) -> (r: Vec<u8>)
        requires
            old(self).wf(),
            old(self).received < old(self).size,
            old(self).pending@.len() == old(self).chunk_target(),
        ensures
            final(self).wf(),
            final(self).size == old(self).size,
            final(self).chunk_size == old(self).chunk_size,
            r@ == old(self).pending@,
            r@.len() == old(self).chunk_target(),
            r@.len() > 0,
            final(self).received == old(self).received + r@.len(),
            final(self).pending@ == Seq::<u8>::empty(),
            final(self).delivered@ == old(self).delivered@,
            final(self).written@ == old(self).written@ + r@,
    {
        let mut chunk: Vec<u8> = Vec::new();
        chunk.append(&mut self.pending);
        self.received = self.received + chunk.len() as u64;
        self.written = Ghost(self.written@ + chunk@);
        proof {
            assert(chunk@ =~= old(self).pending@);
            assert(self.delivered@ =~= self.written@ + self.pending@);
        }
        chunk
    }
}

/// Completion is exact: a session that has handed on its declared size
/// has handed on precisely the bytes the connection delivered — no byte
/// lost, reordered or invented, however the transport fragmented them —
/// and their count is exactly the declared size.
pub proof fn lemma_receiver_complete(r: ReceiveSession)
    requires
        r.wf(),
        r.received == r.size,
    ensures
        r.written@ == r.delivered@,
        r.written@.len() == r.size,
        r.delivered@.len() == r.size,
{
    assert(r.pending@.len() == 0);
    assert(r.written@ + r.pending@ =~= r.written@);
}

/// A dropped connection cannot pass for success: while fewer payload
/// bytes have been delivered than the declared size, the session is
/// still incomplete, so the receiver reports an error instead of
/// presenting a short file as a finished transfer.
pub proof fn lemma_short_delivery_incomplete(r: ReceiveSession)
    requires
        r.wf(),
        r.delivered@.len() < r.size,
    ensures
        r.received < r.size,
{
}

/// The payload split into chunks of `chunk_size` bytes, the final chunk
/// holding whatever remains.
pub open spec fn spec_chunks(data: Seq<u8>, chunk_size: int) -> Seq<Seq<u8>>
    decreases data.len(),
{
    if chunk_size <= 0 || data.len() == 0 {
        Seq::empty()
    } else if data.len() <= chunk_size {
        seq![data]
    } else {
        seq![data.subrange(0, chunk_size)] + spec_chunks(
            data.subrange(chunk_size, data.len() as int),
            chunk_size,
        )
    }
}

/// The chunking invariant: splitting a payload into bounded chunks loses
/// nothing, for every chunk size — the chunks concatenate back to the
/// payload, so the byte count carried by the chunks equals the payload's
/// length, and every chunk is nonempty and at most `chunk_size` long.
pub proof fn lemma_chunks_concat(data: Seq<u8>, chunk_size: int)
    requires
        chunk_size > 0,
    ensures
        spec_chunks(data, chunk_size).flatten() == data,
        spec_chunks(data, chunk_size).flatten().len() == data.len(),
        forall|i: int|
            0 <= i < spec_chunks(data, chunk_size).len() ==> 0 < (
            #[trigger] spec_chunks(data, chunk_size)[i]).len() <= chunk_size,
    decreases data.len(),
{
    let chunks = spec_chunks(data, chunk_size);
    if data.len() == 0 {
        assert(chunks.flatten() =~= data);
    } else if data.len() <= chunk_size {
        assert(chunks.first() == data);
        assert(chunks.drop_first() =~= Seq::<Seq<u8>>::empty());
        assert(Seq::<Seq<u8>>::empty().flatten() =~= Seq::<u8>::empty());
        assert(chunks.flatten() == data + Seq::<u8>::empty());
        assert(data + Seq::<u8>::empty() =~= data);
    } else {
        let head = data.subrange(0, chunk_size);
        let tail = data.subrange(chunk_size, data.len() as int);
        lemma_chunks_concat(tail, chunk_size);
        assert(chunks.first() == head);
        assert(chunks.drop_first() =~= spec_chunks(tail, chunk_size));
        assert(chunks.flatten() == head + spec_chunks(tail, chunk_size).flatten());
        assert(head + tail =~= data);
    }
}

/// Receiver-side bookkeeping for the metadata handshake.
///
/// The frame is a 4-byte big-endian length prefix followed by exactly
/// that many bytes of encoded metadata.  Bytes may arrive in pieces of
/// any size; this assembles first the prefix, then the body, and records
/// every accepted byte in a ghost history.
pub struct FrameReceiver {
    /// The collected bytes of the length prefix, at most four.
    pub prefix: Vec<u8>,
    /// The collected bytes of the frame body.
    pub body: Vec<u8>,
    /// Every byte accepted from the connection, in order.
    pub delivered: Ghost<Seq<u8>>,
}

impl FrameReceiver {
    /// Whether the whole length prefix has arrived.
    pub open spec fn prefix_complete(&self) -> bool {
        self.prefix@.len() == 4
    }

    /// The body length the prefix announces (meaningful once the prefix
    /// is complete).
    pub open spec fn body_len(&self) -> int {
        spec_u32_from_be_bytes(self.prefix@) as int
    }

    /// The handshake invariant: bytes go first to the prefix, then to
    /// the body, never beyond the announced length, and the ghost
    /// history is exactly their concatenation.
    pub open spec fn wf(&self) -> bool {
        &&& self.prefix@.len() <= 4
        &&& self.delivered@ == self.prefix@ + self.body@
        &&& !self.prefix_complete() ==> self.body@.len() == 0
        &&& self.prefix_complete() ==> self.body@.len() <= self.body_len()
    }

    /// Whether the prefix and the announced body have both arrived.
    pub open spec fn frame_complete(&self) -> bool {
        self.prefix_complete() && self.body@.len() == self.body_len()
    }

    /// Starts a fresh handshake.
    pub fn new() -> (r: FrameReceiver)
        ensures
            r.wf(),
            r.prefix@ == Seq::<u8>::empty(),
            r.body@ == Seq::<u8>::empty(),
            r.delivered@ == Seq::<u8>::empty(),
    {
        FrameReceiver { prefix: Vec::new(), body: Vec::new(), delivered: Ghost(Seq::empty()) }
    }

    /// How many more bytes the current phase still needs; zero exactly
    /// when the frame is complete.
    pub fn needed(&self) -> (r: usize)
        requires
            self.wf(),
        ensures
            !self.prefix_complete() ==> r == 4 - self.prefix@.len(),
            self.prefix_complete() ==> r == self.body_len() - self.body@.len(),
            (r == 0) == self.frame_complete(),
    {
        if self.prefix.len() < 4 {
            4 - self.prefix.len()
        } else {
            let announced = u32_from_be_bytes_slice(self.prefix.as_slice());
            announced as usize - self.body.len()
        }
    }

    /// Accepts one piece of frame bytes from the connection, of any size
    /// up to what the current phase still needs.
    pub fn accept(&mut self, data: &[u8])
        requires
            old(self).wf(),
            !old(self).prefix_complete() ==> old(self).prefix@.len() + data@.len() <= 4,
            old(self).prefix_complete() ==> old(self).body@.len() + data@.len() <= old(self).body_len(),
        ensures
            final(self).wf(),
            final(self).delivered@ == old(self).delivered@ + data@,
            !old(self).prefix_complete() ==> final(self).prefix@ == old(self).prefix@ + data@
                && final(self).body@ == old(self).body@,
            old(self).prefix_complete() ==> final(self).prefix@ == old(self).prefix@
                && final(self).body@ == old(self).body@ + data@,
    {
        if self.prefix.len() < 4 {
            append_bytes(&mut self.prefix, data);
        } else {
            append_bytes(&mut self.body, data);
        }
        self.delivered = Ghost(self.delivered@ + data@);
        proof {
            assert(self.delivered@ =~= self.prefix@ + self.body@);
        }
    }

    /// Whether the whole frame has arrived.
    pub fn is_complete(&self) -> (r: bool)
        requires
            self.wf(),
        ensures
            r == self.frame_complete(),
    {
        if self.prefix.len() < 4 {
            false
        } else {
            let announced = u32_from_be_bytes_slice(self.prefix.as_slice());
            self.body.len() == announced as usize
        }
    }

    /// Decodes the completed frame body, failing with a protocol error
    /// if the body is not exactly one well-formed metadata encoding.
    pub fn finish(&self) -> (r: Result<FileMetadata, TransferError>)
        requires
            self.wf(),
            self.frame_complete(),
        ensures
            r is Ok <==> metadata_encoding_well_formed(self.body@),
            r matches Ok(m) ==> m.name@ == spec_decoded_name(self.body@) && m.size
                == spec_decoded_size(self.body@),
            r matches Err(e) ==> e == TransferError::Protocol,
    {
        decode_metadata(self.body.as_slice())
    }
}

/// A truncated frame can never look complete: while fewer bytes have
/// arrived than the prefix announces (or the prefix itself is short),
/// the receiver reports itself incomplete, so a stream that ends there
/// surfaces as a protocol error rather than a successful handshake.
pub proof fn lemma_truncated_frame_incomplete(fr: FrameReceiver)
    requires
        fr.wf(),
        fr.prefix_complete() ==> fr.delivered@.len() < 4 + fr.body_len(),
        !fr.prefix_complete() ==> fr.delivered@.len() < 4,
    ensures
        !fr.frame_complete(),
{
}

/// Round trip of the whole handshake: a receiver fed exactly one encoded
/// frame for a record — in any fragmentation — holds that record's
/// encoding as its body, which decodes back to the same name and size.
pub proof fn lemma_frame_receiver_round_trip(fr: FrameReceiver, name: Seq<u8>, size: u64)
    requires
        fr.wf(),
        fr.frame_complete(),
        name.len() + 16 <= u32::MAX,
        fr.delivered@ == spec_frame(spec_metadata_encoding(name, size)),
    ensures
        fr.body@ == spec_metadata_encoding(name, size),
        metadata_encoding_well_formed(fr.body@),
        spec_decoded_name(fr.body@) == name,
        spec_decoded_size(fr.body@) == size,
{
    let body = spec_metadata_encoding(name, size);
    lemma_metadata_round_trip(name, size);
    lemma_frame_round_trip(body);
    assert(fr.prefix@ =~= fr.delivered@.subrange(0, 4));
    assert(fr.body@ =~= fr.delivered@.subrange(4, fr.delivered@.len() as int));
}

/// The round trip of a whole transfer: if the handshake receiver was
/// fed exactly the frame the sender encodes for `name` and `size`, and
/// the payload session was fed exactly a payload of the declared size —
/// each in any fragmentation — then the receiver ends with the sender's
/// name and size, and hands on destination bytes identical to the
/// payload, for every size including zero.
pub proof fn lemma_transfer_round_trip(
    fr: FrameReceiver,
    rs: ReceiveSession,
    name: Seq<u8>,
    size: u64,
    payload: Seq<u8>,
)
    requires
        name.len() + 16 <= u32::MAX,
        fr.wf(),
        fr.frame_complete(),
        fr.delivered@ == spec_frame(spec_metadata_encoding(name, size)),
        rs.wf(),
        rs.size == size,
        rs.received == rs.size,
        rs.delivered@ == payload,
    ensures
        metadata_encoding_well_formed(fr.body@),
        spec_decoded_name(fr.body@) == name,
        spec_decoded_size(fr.body@) == size,
        rs.written@ == payload,
        payload.len() == size,
{
    lemma_frame_receiver_round_trip(fr, name, size);
    lemma_receiver_complete(rs);
}

} // verus!
