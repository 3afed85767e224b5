use fastshare::codec::{encode_metadata_frame, FileMetadata};
use fastshare::engine::{FrameReceiver, ReceiveSession, SendSession};
use fastshare::errors::TransferError;

/// Drives a receive session with the payload delivered in pieces of at
/// most `piece` bytes, returning the reassembled destination bytes.
fn run_receiver(payload: &[u8], chunk_size: usize, piece: usize) -> Vec<u8> {
    let mut session = ReceiveSession::new(payload.len() as u64, chunk_size);
    let mut destination = Vec::new();
    let mut offset = 0;
    while !session.is_complete() {
        if session.chunk_ready() {
            destination.extend_from_slice(&session.take_chunk());
            continue;
        }
        let want = session.needed().min(piece);
        assert!(want > 0, "an incomplete session with no ready chunk needs bytes");
        session.accept(&payload[offset..offset + want]);
        offset += want;
    }
    assert_eq!(offset, payload.len());
    destination
}

#[test]
fn sender_accounting_sums_chunks() {
    let mut session = SendSession::new(10);
    assert!(!session.is_complete());
    session.record_chunk(&[1, 2, 3, 4]);
    assert_eq!(session.sent, 4);
    session.record_chunk(&[5, 6, 7, 8, 9, 10]);
    assert_eq!(session.sent, 10);
    assert!(session.is_complete());
}

#[test]
fn sender_zero_byte_file_is_complete_at_once() {
    let session = SendSession::new(0);
    assert!(session.is_complete());
}

#[test]
fn receiver_zero_byte_file_is_complete_at_once() {
    let session = ReceiveSession::new(0, 65536);
    assert!(session.is_complete());
    assert_eq!(session.pending, Vec::<u8>::new());
}

#[test]
fn receiver_assembles_fragmented_payload() {
    // Pieces far smaller than the chunk must still assemble exactly.
    let payload: Vec<u8> = (0..=99).collect();
    assert_eq!(run_receiver(&payload, 16, 1), payload);
    assert_eq!(run_receiver(&payload, 16, 3), payload);
    assert_eq!(run_receiver(&payload, 16, 16), payload);
}

#[test]
fn receiver_chunking_smaller_equal_larger() {
    let payload: Vec<u8> = (0..8).collect();
    // Chunk size smaller than, equal to, and larger than the payload.
    assert_eq!(run_receiver(&payload, 3, 3), payload);
    assert_eq!(run_receiver(&payload, 8, 8), payload);
    assert_eq!(run_receiver(&payload, 64, 64), payload);
}

#[test]
fn receiver_chunk_sizes_observed() {
    let payload: Vec<u8> = (0..8).collect();
    let mut session = ReceiveSession::new(8, 3);
    let mut taken = Vec::new();
    let mut offset = 0;
    while !session.is_complete() {
        if session.chunk_ready() {
            taken.push(session.take_chunk());
            continue;
        }
        let want = session.needed();
        session.accept(&payload[offset..offset + want]);
        offset += want;
    }
    // A full chunk, a full chunk, then the remainder.
    assert_eq!(taken.len(), 3);
    assert_eq!(taken[0], vec![0, 1, 2]);
    assert_eq!(taken[1], vec![3, 4, 5]);
    assert_eq!(taken[2], vec![6, 7]);
}

#[test]
fn mid_transfer_disconnect_is_not_success() {
    // The sender stops after 4 of 10 declared bytes.  The session can
    // never report completion, so the receiver surfaces an error rather
    // than presenting the short file as a finished transfer.
    let mut session = ReceiveSession::new(10, 4);
    session.accept(&[1, 2, 3, 4]);
    let _first = session.take_chunk();
    assert!(!session.is_complete());
    assert!(session.needed() > 0);
    let error = TransferError::Disconnected;
    assert_eq!(error.describe(), "connection lost before the full payload arrived");
}

#[test]
fn frame_receiver_assembles_fragmented_frame() {
    let m = FileMetadata { name: b"notes.md".to_vec(), size: 4096 };
    let frame = encode_metadata_frame(&m);
    let mut receiver = FrameReceiver::new();
    let mut offset = 0;
    // Deliver the frame two bytes at a time.
    while !receiver.is_complete() {
        let want = receiver.needed().min(2);
        assert!(want > 0);
        receiver.accept(&frame[offset..offset + want]);
        offset += want;
    }
    assert_eq!(offset, frame.len());
    let decoded = receiver.finish().unwrap();
    assert_eq!(decoded.name, b"notes.md".to_vec());
    assert_eq!(decoded.size, 4096);
}

#[test]
fn frame_receiver_truncated_frame_stays_incomplete() {
    // The prefix announces 100 body bytes but the stream ends after 3:
    // the handshake never completes, so an ended stream is a protocol
    // error, not a hang on a metadata record that never existed.
    let mut receiver = FrameReceiver::new();
    receiver.accept(&[0, 0, 0, 100]);
    receiver.accept(&[1, 2, 3]);
    assert!(!receiver.is_complete());
    assert_eq!(receiver.needed(), 97);
    let error = TransferError::Protocol;
    assert_eq!(error.describe(), "malformed or truncated metadata frame");
}

#[test]
fn frame_receiver_rejects_malformed_body() {
    // A complete frame whose body is not a metadata encoding.
    let mut receiver = FrameReceiver::new();
    receiver.accept(&[0, 0, 0, 3]);
    receiver.accept(&[1, 2, 3]);
    assert!(receiver.is_complete());
    assert_eq!(receiver.finish(), Err(TransferError::Protocol));
}

#[test]
fn bind_connect_io_errors_are_described() {
    assert_eq!(TransferError::Bind.describe(), "failed to bind to port");
    assert_eq!(TransferError::Connect.describe(), "failed to connect to sender");
    assert_eq!(TransferError::Io.describe(), "local file read or write failed");
    assert_ne!(TransferError::Bind, TransferError::Connect);
}
