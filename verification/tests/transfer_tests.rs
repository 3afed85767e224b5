//! End-to-end loopback transfers: the sender side frames metadata and
//! chunks the payload, a simulated wire fragments the bytes, and the
//! receiver side reassembles both phases.

use fastshare::codec::{encode_metadata_frame, FileMetadata};
use fastshare::engine::{FrameReceiver, ReceiveSession, SendSession};

/// Runs a whole transfer over an in-memory wire that delivers bytes in
/// pieces of at most `piece` bytes, returning the received metadata and
/// destination bytes.
fn loopback(name: &str, payload: &[u8], chunk_size: usize, piece: usize) -> (FileMetadata, Vec<u8>) {
    // Sender side: one frame, then the payload in chunks.
    let metadata = FileMetadata { name: name.as_bytes().to_vec(), size: payload.len() as u64 };
    let mut wire = encode_metadata_frame(&metadata);
    let mut sender = SendSession::new(metadata.size);
    for chunk in payload.chunks(chunk_size.max(1)) {
        wire.extend_from_slice(chunk);
        sender.record_chunk(chunk);
    }
    assert!(sender.is_complete());

    // Receiver side: assemble the frame, then the payload.
    let mut offset = 0;
    let mut frame = FrameReceiver::new();
    while !frame.is_complete() {
        let want = frame.needed().min(piece).min(wire.len() - offset);
        assert!(want > 0, "the wire ended inside the metadata frame");
        frame.accept(&wire[offset..offset + want]);
        offset += want;
    }
    let received = frame.finish().unwrap();

    let mut session = ReceiveSession::new(received.size, chunk_size.max(1));
    let mut destination = Vec::new();
    while !session.is_complete() {
        if session.chunk_ready() {
            destination.extend_from_slice(&session.take_chunk());
            continue;
        }
        let want = session.needed().min(piece).min(wire.len() - offset);
        assert!(want > 0, "the wire ended inside the payload");
        session.accept(&wire[offset..offset + want]);
        offset += want;
    }
    assert_eq!(offset, wire.len(), "every wire byte is consumed");
    (received, destination)
}

#[test]
fn round_trip_small_file() {
    let payload = b"hello, world";
    let (metadata, destination) = loopback("hello.txt", payload, 5, 4);
    assert_eq!(metadata.name, b"hello.txt".to_vec());
    assert_eq!(metadata.size, payload.len() as u64);
    assert_eq!(destination, payload.to_vec());
}

#[test]
fn round_trip_zero_byte_file() {
    let (metadata, destination) = loopback("empty.bin", &[], 65536, 7);
    assert_eq!(metadata.name, b"empty.bin".to_vec());
    assert_eq!(metadata.size, 0);
    assert_eq!(destination, Vec::<u8>::new());
}

#[test]
fn round_trip_chunk_sizes_around_payload() {
    let payload: Vec<u8> = (0u32..1000).map(|i| (i * 7 % 251) as u8).collect();
    for chunk_size in [64, 1000, 4096] {
        let (metadata, destination) = loopback("data.bin", &payload, chunk_size, 17);
        assert_eq!(metadata.size, 1000);
        assert_eq!(destination, payload);
    }
}

#[test]
fn round_trip_non_ascii_name() {
    let payload = b"contents";
    let (metadata, destination) = loopback("r\u{e9}sum\u{e9}.txt", payload, 8, 3);
    assert_eq!(String::from_utf8(metadata.name).unwrap(), "r\u{e9}sum\u{e9}.txt");
    assert_eq!(destination, payload.to_vec());
}

#[test]
fn round_trip_single_byte_wire() {
    let payload: Vec<u8> = (0..=255).collect();
    let (metadata, destination) = loopback("bytes.bin", &payload, 100, 1);
    assert_eq!(metadata.size, 256);
    assert_eq!(destination, payload);
}
