use kernel_net::p2p_transport::{
    append_bytes, idle_outcome, recv_framed, send_framed, transfer_outcome, u32_from_le_bytes,
    u32_to_le_bytes, ConnState, FrameReader, FrameStatus, FrameWriter, StreamPoll,
    LENGTH_PREFIX_LEN, MAX_FRAME_LEN,
};

/// Moves the frame from `writer` to `reader` through a stream that takes at
/// most `chunk` bytes at a time, and returns the bytes that went through.
fn pump(writer: &mut FrameWriter, reader: &mut FrameReader, chunk: usize) -> Vec<u8> {
    let mut wire = Vec::new();
    while !writer.is_done() {
        let pending = writer.pending();
        assert!(!pending.is_empty());
        let n = pending.len().min(chunk);
        let piece = pending[..n].to_vec();
        writer.advance(n);
        wire.extend_from_slice(&piece);
        let mut offset = 0;
        while offset < piece.len() {
            let taken = reader.accept(&piece[offset..]);
            if taken == 0 {
                break;
            }
            offset += taken;
        }
    }
    wire
}

fn payload_of(len: usize) -> Vec<u8> {
    (0..len).map(|i| (i * 31 + 7) as u8).collect()
}

fn round_trip(len: usize, chunk: usize) {
    let payload = payload_of(len);
    let mut writer = send_framed(&payload);
    let mut reader = recv_framed();
    let wire = pump(&mut writer, &mut reader, chunk);
    assert_eq!(wire.len(), 4 + len);
    assert_eq!(&wire[..4], &(len as u32).to_le_bytes());
    assert_eq!(reader.status(), FrameStatus::Complete);
    assert_eq!(reader.wanted(), 0);
    assert_eq!(reader.payload().unwrap(), &payload[..]);
    assert_eq!(reader.into_payload().unwrap(), payload);
}

#[test]
fn limits_are_those_of_the_protocol() {
    assert_eq!(MAX_FRAME_LEN, 1024 * 1024);
    assert_eq!(LENGTH_PREFIX_LEN, 4);
}

#[test]
fn length_prefix_is_little_endian() {
    assert_eq!(u32_to_le_bytes(0), [0, 0, 0, 0]);
    assert_eq!(u32_to_le_bytes(1), [1, 0, 0, 0]);
    assert_eq!(u32_to_le_bytes(0x0102_0304), [4, 3, 2, 1]);
    assert_eq!(u32_to_le_bytes(1_048_576), [0, 0, 0x10, 0]);
    assert_eq!(u32_to_le_bytes(u32::MAX), [0xff; 4]);
    assert_eq!(u32_from_le_bytes([4, 3, 2, 1]), 0x0102_0304);
    assert_eq!(u32_from_le_bytes([0xff; 4]), u32::MAX);
    for x in [0u32, 1, 255, 256, 65_535, 65_536, 16_777_215, 16_777_216, 0xdead_beef] {
        assert_eq!(u32_to_le_bytes(x), x.to_le_bytes());
        assert_eq!(u32_from_le_bytes(x.to_le_bytes()), x);
    }
}

#[test]
fn append_bytes_appends_the_range() {
    let mut dest = vec![1u8, 2];
    append_bytes(&mut dest, &[10, 11, 12, 13], 1, 3);
    assert_eq!(dest, vec![1, 2, 11, 12]);
    append_bytes(&mut dest, &[10, 11], 2, 2);
    assert_eq!(dest, vec![1, 2, 11, 12]);
}

#[test]
fn empty_payload_round_trips() {
    round_trip(0, 1);
    round_trip(0, 64);
}

#[test]
fn small_payloads_round_trip_byte_by_byte() {
    for len in [1usize, 2, 3, 4, 5, 36, 255, 256, 1000] {
        round_trip(len, 1);
        round_trip(len, 3);
        round_trip(len, 4096);
    }
}

#[test]
fn largest_payload_round_trips() {
    round_trip(MAX_FRAME_LEN, 4096);
    round_trip(MAX_FRAME_LEN - 1, 65_535);
}

#[test]
fn writer_offers_the_prefix_before_the_payload() {
    let mut writer = FrameWriter::new(&[9, 8, 7]);
    assert!(!writer.is_done());
    assert_eq!(writer.pending(), &[3, 0, 0, 0]);
    writer.advance(1);
    assert_eq!(writer.pending(), &[0, 0, 0]);
    writer.advance(3);
    assert_eq!(writer.pending(), &[9, 8, 7]);
    writer.advance(0);
    assert_eq!(writer.pending(), &[9, 8, 7]);
    writer.advance(2);
    assert_eq!(writer.pending(), &[7]);
    assert!(!writer.is_done());
    writer.advance(1);
    assert!(writer.is_done());
    assert!(writer.pending().is_empty());
}

#[test]
fn reader_asks_for_the_prefix_then_the_payload() {
    let mut reader = FrameReader::new();
    assert_eq!(reader.wanted(), 4);
    assert_eq!(reader.status(), FrameStatus::Incomplete);
    assert!(reader.payload().is_none());
    assert_eq!(reader.accept(&[2, 0]), 2);
    assert_eq!(reader.wanted(), 2);
    // Only the rest of the prefix is taken from a longer chunk.
    assert_eq!(reader.accept(&[0, 0, 0xaa, 0xbb]), 2);
    assert_eq!(reader.wanted(), 2);
    assert_eq!(reader.status(), FrameStatus::Incomplete);
    assert_eq!(reader.accept(&[0xaa]), 1);
    assert_eq!(reader.wanted(), 1);
    // Nothing beyond the frame is taken.
    assert_eq!(reader.accept(&[0xbb, 0xcc, 0xdd]), 1);
    assert_eq!(reader.status(), FrameStatus::Complete);
    assert_eq!(reader.wanted(), 0);
    assert_eq!(reader.accept(&[0xcc]), 0);
    assert_eq!(reader.payload().unwrap(), &[0xaa, 0xbb]);
}

#[test]
fn over_long_prefix_is_refused_before_any_payload() {
    let mut reader = FrameReader::new();
    // One byte more than the limit.
    assert_eq!(reader.accept(&(1_048_577u32).to_le_bytes()), 4);
    assert_eq!(reader.status(), FrameStatus::TooLong);
    assert_eq!(reader.wanted(), 0);
    assert_eq!(reader.accept(&[1, 2, 3]), 0);
    assert!(reader.payload().is_none());
    assert!(reader.into_payload().is_none());

    let mut reader = FrameReader::new();
    assert_eq!(reader.accept(&[0xff, 0xff, 0xff, 0xff, 0x00]), 4);
    assert_eq!(reader.status(), FrameStatus::TooLong);
}

#[test]
fn prefix_at_the_limit_is_accepted() {
    let mut reader = FrameReader::new();
    assert_eq!(reader.accept(&(1_048_576u32).to_le_bytes()), 4);
    assert_eq!(reader.status(), FrameStatus::Incomplete);
    assert_eq!(reader.wanted(), 1_048_576);
}

#[test]
fn incomplete_frame_has_no_payload() {
    let mut reader = FrameReader::new();
    reader.accept(&[3, 0, 0, 0, 1, 2]);
    reader.accept(&[1, 2]);
    assert_eq!(reader.status(), FrameStatus::Incomplete);
    assert_eq!(reader.wanted(), 1);
    assert!(reader.into_payload().is_none());
}

#[test]
fn transfer_outcome_judges_the_count() {
    assert_eq!(transfer_outcome(Some(5)), StreamPoll::Ready(5));
    assert_eq!(transfer_outcome(Some(1)), StreamPoll::Ready(1));
    assert_eq!(transfer_outcome(Some(0)), StreamPoll::Pending);
    assert_eq!(transfer_outcome(None), StreamPoll::Closed);
}

#[test]
fn idle_outcome_tells_closed_from_waiting() {
    assert_eq!(idle_outcome(true, ConnState::Established), StreamPoll::Pending);
    assert_eq!(idle_outcome(true, ConnState::SynReceived), StreamPoll::Pending);
    assert_eq!(idle_outcome(false, ConnState::Listen), StreamPoll::Closed);
    assert_eq!(idle_outcome(false, ConnState::TimeWait), StreamPoll::Closed);
    assert_eq!(idle_outcome(false, ConnState::Closed), StreamPoll::Closed);
    assert_eq!(idle_outcome(true, ConnState::Closed), StreamPoll::Closed);
}
