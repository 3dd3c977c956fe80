use faery::aedat::Decoder;
use faery::aedat::PacketContent;
use faery::records::FrameFormat;
use faery::records::HeaderError;
use faery::records::PacketError;
use faery::records::StreamContent;
use faery::records::TriggerSource;

fn push_u16(v: &mut Vec<u8>, x: u16) {
    v.extend_from_slice(&x.to_le_bytes());
}

fn push_u32(v: &mut Vec<u8>, x: u32) {
    v.extend_from_slice(&x.to_le_bytes());
}

fn push_u64(v: &mut Vec<u8>, x: u64) {
    v.extend_from_slice(&x.to_le_bytes());
}

fn push_i16(v: &mut Vec<u8>, x: i16) {
    v.extend_from_slice(&x.to_le_bytes());
}

/// Preamble plus one 9-byte descriptor per `(id, kind, width, height)`.
fn header(descriptors: &[(u32, u8, u16, u16)]) -> Vec<u8> {
    let mut v = vec![0x41, 0x45, 0x44, 0x54, 1, descriptors.len() as u8];
    for &(id, kind, width, height) in descriptors {
        push_u32(&mut v, id);
        v.push(kind);
        push_u16(&mut v, width);
        push_u16(&mut v, height);
    }
    v
}

fn push_block(v: &mut Vec<u8>, id: u32, payload: &[u8]) {
    push_u32(v, id);
    push_u32(v, payload.len() as u32);
    v.extend_from_slice(payload);
}

/// An events payload with the elements field present.
fn events_payload(events: &[(u64, i16, i16, bool)]) -> Vec<u8> {
    let mut p = vec![1u8];
    push_u32(&mut p, events.len() as u32);
    for &(t, x, y, on) in events {
        push_u64(&mut p, t);
        push_i16(&mut p, x);
        push_i16(&mut p, y);
        p.push(if on { 1 } else { 0 });
    }
    p
}

fn triggers_payload(triggers: &[(u64, u8)]) -> Vec<u8> {
    let mut p = vec![1u8];
    push_u32(&mut p, triggers.len() as u32);
    for &(t, code) in triggers {
        push_u64(&mut p, t);
        p.push(code);
    }
    p
}

#[test]
fn header_bad_magic() {
    let data = vec![0x42, 0x45, 0x44, 0x54, 1, 0];
    assert!(matches!(Decoder::new(data), Err(HeaderError::BadMagic)));
}

#[test]
fn header_truncated() {
    assert!(matches!(Decoder::new(vec![0x41, 0x45]), Err(HeaderError::Truncated)));
    assert!(matches!(Decoder::new(vec![0x41, 0x45, 0x44, 0x54, 1]), Err(HeaderError::Truncated)));
    // one descriptor declared, none present
    assert!(matches!(
        Decoder::new(vec![0x41, 0x45, 0x44, 0x54, 1, 1]),
        Err(HeaderError::Truncated)
    ));
}

#[test]
fn header_unsupported_version() {
    let data = vec![0x41, 0x45, 0x44, 0x54, 2, 0];
    assert!(matches!(Decoder::new(data), Err(HeaderError::UnsupportedVersion)));
}

#[test]
fn header_unknown_stream_content() {
    let data = header(&[(0, 4, 10, 10)]);
    assert!(matches!(Decoder::new(data), Err(HeaderError::UnknownStreamContent)));
}

#[test]
fn header_missing_geometry() {
    let data = header(&[(0, 0, 0, 10)]);
    assert!(matches!(Decoder::new(data), Err(HeaderError::MissingGeometry)));
    let data = header(&[(0, 1, 10, 0)]);
    assert!(matches!(Decoder::new(data), Err(HeaderError::MissingGeometry)));
    // imus and triggers need no geometry
    let data = header(&[(0, 2, 0, 0), (1, 3, 0, 0)]);
    assert!(Decoder::new(data).is_ok());
}

#[test]
fn header_duplicate_stream_id() {
    let data = header(&[(7, 0, 10, 10), (7, 2, 0, 0)]);
    assert!(matches!(Decoder::new(data), Err(HeaderError::DuplicateStreamId)));
}

#[test]
fn registry_introspection() {
    let data = header(&[(0, 0, 640, 480), (3, 1, 320, 240), (5, 2, 0, 0)]);
    let decoder = Decoder::new(data).unwrap();
    let streams = decoder.id_to_stream();
    assert_eq!(streams.len(), 3);
    assert_eq!(streams[0].0, 0);
    assert_eq!(streams[0].1.content, StreamContent::Events);
    assert_eq!(streams[0].1.width, 640);
    assert_eq!(streams[0].1.height, 480);
    assert_eq!(streams[1].0, 3);
    assert_eq!(streams[1].1.content, StreamContent::Frame);
    assert_eq!(streams[2].0, 5);
    assert_eq!(streams[2].1.content, StreamContent::Imus);
}

#[test]
fn events_packet_decodes() {
    let mut data = header(&[(0, 0, 640, 480)]);
    push_block(&mut data, 0, &events_payload(&[(100, 12, 34, true), (200, 56, 78, false)]));
    let mut decoder = Decoder::new(data).unwrap();
    let packet = decoder.next().unwrap().unwrap();
    assert_eq!(packet.stream_id, 0);
    assert_eq!(packet.stream.content, StreamContent::Events);
    match packet.content {
        PacketContent::Events(events) => {
            assert_eq!(events.len(), 2);
            assert_eq!(events[0].t, 100);
            assert_eq!(events[0].x, 12);
            assert_eq!(events[0].y, 34);
            assert!(events[0].on);
            assert_eq!(events[1].t, 200);
            assert_eq!(events[1].x, 56);
            assert_eq!(events[1].y, 78);
            assert!(!events[1].on);
        },
        _ => panic!("expected an events packet"),
    }
    // clean end of file, then idempotent exhaustion
    assert!(matches!(decoder.next(), Ok(None)));
    assert!(matches!(decoder.next(), Ok(None)));
    assert!(matches!(decoder.next(), Ok(None)));
}

#[test]
fn events_empty_list_is_valid() {
    let mut data = header(&[(0, 0, 640, 480)]);
    push_block(&mut data, 0, &events_payload(&[]));
    let mut decoder = Decoder::new(data).unwrap();
    match decoder.next().unwrap().unwrap().content {
        PacketContent::Events(events) => assert_eq!(events.len(), 0),
        _ => panic!("expected an events packet"),
    }
}

#[test]
fn events_elements_absent_fails() {
    // presence byte 0: the elements field itself is missing
    let mut data = header(&[(0, 0, 640, 480)]);
    push_block(&mut data, 0, &[0u8]);
    let mut decoder = Decoder::new(data).unwrap();
    assert!(matches!(decoder.next(), Err(PacketError::EmptyEventsPacket)));
}

#[test]
fn events_x_overflow_fails_whole_packet() {
    let mut data = header(&[(0, 0, 640, 480)]);
    push_block(&mut data, 0, &events_payload(&[(1, 10, 10, true), (2, 640, 0, true)]));
    let mut decoder = Decoder::new(data).unwrap();
    match decoder.next() {
        Err(PacketError::XOverflow { x, width }) => {
            assert_eq!(x, 640);
            assert_eq!(width, 640);
        },
        other => panic!("expected XOverflow, got {:?}", other.is_ok()),
    }
    // a failed decoder keeps answering the error that stopped it
    assert!(matches!(decoder.next(), Err(PacketError::XOverflow { x: 640, width: 640 })));
}

#[test]
fn events_negative_x_fails() {
    let mut data = header(&[(0, 0, 640, 480)]);
    push_block(&mut data, 0, &events_payload(&[(1, -3, 10, true)]));
    let mut decoder = Decoder::new(data).unwrap();
    assert!(matches!(decoder.next(), Err(PacketError::XOverflow { x: -3, width: 640 })));
}

#[test]
fn events_y_overflow_fails() {
    let mut data = header(&[(0, 0, 640, 480)]);
    push_block(&mut data, 0, &events_payload(&[(1, 0, 480, true)]));
    let mut decoder = Decoder::new(data).unwrap();
    assert!(matches!(decoder.next(), Err(PacketError::YOverflow { y: 480, height: 480 })));
}

#[test]
fn oversized_block_fails() {
    // the declared length exceeds the remaining bytes
    let mut data = header(&[(0, 0, 640, 480)]);
    push_u32(&mut data, 0);
    push_u32(&mut data, 100);
    data.push(1);
    let mut decoder = Decoder::new(data).unwrap();
    assert!(matches!(decoder.next(), Err(PacketError::MissingSizePrefix)));
}

#[test]
fn oversized_block_fails_for_frame_stream_too() {
    // the framing failure does not depend on the owning content kind
    let mut data = header(&[(2, 1, 2, 2)]);
    push_u32(&mut data, 2);
    push_u32(&mut data, 1000);
    data.extend_from_slice(&frame_payload(0, 2, 2, None));
    let mut decoder = Decoder::new(data).unwrap();
    assert!(matches!(decoder.next(), Err(PacketError::MissingSizePrefix)));
}

#[test]
fn truncated_size_prefix_fails() {
    // fewer than 8 bytes remain past the block boundary
    let mut data = header(&[(0, 0, 640, 480)]);
    data.extend_from_slice(&[0, 0, 0]);
    let mut decoder = Decoder::new(data).unwrap();
    assert!(matches!(decoder.next(), Err(PacketError::MissingSizePrefix)));
}

#[test]
fn unknown_stream_id_fails() {
    let mut data = header(&[(0, 0, 640, 480)]);
    push_block(&mut data, 9, &events_payload(&[]));
    let mut decoder = Decoder::new(data).unwrap();
    assert!(matches!(decoder.next(), Err(PacketError::UnknownStreamId { id: 9 })));
}

/// A frame payload; `pixels` is `None` for an absent buffer.
fn frame_payload(format: u8, width: u16, height: u16, pixels: Option<&[u8]>) -> Vec<u8> {
    let mut p = Vec::new();
    push_u64(&mut p, 1000); // t
    push_u64(&mut p, 900); // begin_t
    push_u64(&mut p, 1100); // end_t
    push_u64(&mut p, 950); // exposure_begin_t
    push_u64(&mut p, 1050); // exposure_end_t
    p.push(format);
    push_u16(&mut p, width);
    push_u16(&mut p, height);
    push_i16(&mut p, -1); // offset_x
    push_i16(&mut p, 2); // offset_y
    match pixels {
        Some(bytes) => {
            p.push(1);
            p.extend_from_slice(bytes);
        },
        None => p.push(0),
    }
    p
}

#[test]
fn frame_gray_decodes() {
    let mut data = header(&[(2, 1, 2, 2)]);
    push_block(&mut data, 2, &frame_payload(0, 2, 2, Some(&[9, 8, 7, 6])));
    let mut decoder = Decoder::new(data).unwrap();
    match decoder.next().unwrap().unwrap().content {
        PacketContent::Frame(frame) => {
            assert_eq!(frame.t, 1000);
            assert_eq!(frame.begin_t, 900);
            assert_eq!(frame.end_t, 1100);
            assert_eq!(frame.exposure_begin_t, 950);
            assert_eq!(frame.exposure_end_t, 1050);
            assert_eq!(frame.format, FrameFormat::Gray);
            assert_eq!(frame.width, 2);
            assert_eq!(frame.height, 2);
            assert_eq!(frame.offset_x, -1);
            assert_eq!(frame.offset_y, 2);
            assert_eq!(frame.pixels, vec![9, 8, 7, 6]);
        },
        _ => panic!("expected a frame packet"),
    }
}

#[test]
fn frame_bgr_channels_swapped() {
    // on-disk order is blue-first; the decoded buffer is red-first
    let disk = [1u8, 2, 3, 4, 5, 6];
    let mut data = header(&[(2, 1, 2, 1)]);
    push_block(&mut data, 2, &frame_payload(1, 2, 1, Some(&disk)));
    let mut decoder = Decoder::new(data).unwrap();
    match decoder.next().unwrap().unwrap().content {
        PacketContent::Frame(frame) => {
            assert_eq!(frame.format, FrameFormat::Bgr);
            assert_eq!(frame.pixels, vec![3, 2, 1, 6, 5, 4]);
            // swapping the channels back reproduces the on-disk bytes
            let mut swapped = frame.pixels.clone();
            for g in 0..swapped.len() / 3 {
                swapped.swap(g * 3, g * 3 + 2);
            }
            assert_eq!(swapped, disk.to_vec());
        },
        _ => panic!("expected a frame packet"),
    }
}

#[test]
fn frame_bgra_channels_swapped() {
    let disk = [1u8, 2, 3, 4, 5, 6, 7, 8];
    let mut data = header(&[(2, 1, 2, 1)]);
    push_block(&mut data, 2, &frame_payload(2, 2, 1, Some(&disk)));
    let mut decoder = Decoder::new(data).unwrap();
    match decoder.next().unwrap().unwrap().content {
        PacketContent::Frame(frame) => {
            assert_eq!(frame.format, FrameFormat::Bgra);
            assert_eq!(frame.pixels, vec![3, 2, 1, 4, 7, 6, 5, 8]);
            let mut swapped = frame.pixels.clone();
            for g in 0..swapped.len() / 4 {
                swapped.swap(g * 4, g * 4 + 2);
            }
            assert_eq!(swapped, disk.to_vec());
        },
        _ => panic!("expected a frame packet"),
    }
}

#[test]
fn frame_absent_pixels_zero_filled() {
    let mut data = header(&[(2, 1, 3, 2)]);
    push_block(&mut data, 2, &frame_payload(2, 3, 2, None));
    let mut decoder = Decoder::new(data).unwrap();
    match decoder.next().unwrap().unwrap().content {
        PacketContent::Frame(frame) => {
            assert_eq!(frame.pixels.len(), 3 * 2 * 4);
            assert!(frame.pixels.iter().all(|&b| b == 0));
        },
        _ => panic!("expected a frame packet"),
    }
}

#[test]
fn frame_unknown_format_fails() {
    let mut data = header(&[(2, 1, 2, 2)]);
    push_block(&mut data, 2, &frame_payload(3, 2, 2, None));
    let mut decoder = Decoder::new(data).unwrap();
    assert!(matches!(decoder.next(), Err(PacketError::UnknownFrameFormat)));
}

#[test]
fn frame_wrong_pixel_count_fails() {
    // 2x2 gray declares 4 pixel bytes; only 3 are present
    let mut data = header(&[(2, 1, 2, 2)]);
    push_block(&mut data, 2, &frame_payload(0, 2, 2, Some(&[9, 8, 7])));
    let mut decoder = Decoder::new(data).unwrap();
    assert!(matches!(decoder.next(), Err(PacketError::MissingSizePrefix)));
}

#[test]
fn imus_decode() {
    let mut payload = vec![1u8];
    push_u32(&mut payload, 1);
    push_u64(&mut payload, 77);
    for field in 0..10u32 {
        push_u32(&mut payload, (1.5f32 + field as f32).to_bits());
    }
    let mut data = header(&[(4, 2, 0, 0)]);
    push_block(&mut data, 4, &payload);
    let mut decoder = Decoder::new(data).unwrap();
    match decoder.next().unwrap().unwrap().content {
        PacketContent::Imus(samples) => {
            assert_eq!(samples.len(), 1);
            assert_eq!(samples[0].t, 77);
            assert_eq!(f32::from_bits(samples[0].temperature), 1.5);
            assert_eq!(f32::from_bits(samples[0].accelerometer_x), 2.5);
            assert_eq!(f32::from_bits(samples[0].accelerometer_y), 3.5);
            assert_eq!(f32::from_bits(samples[0].accelerometer_z), 4.5);
            assert_eq!(f32::from_bits(samples[0].gyroscope_x), 5.5);
            assert_eq!(f32::from_bits(samples[0].gyroscope_y), 6.5);
            assert_eq!(f32::from_bits(samples[0].gyroscope_z), 7.5);
            assert_eq!(f32::from_bits(samples[0].magnetometer_x), 8.5);
            assert_eq!(f32::from_bits(samples[0].magnetometer_y), 9.5);
            assert_eq!(f32::from_bits(samples[0].magnetometer_z), 10.5);
        },
        _ => panic!("expected an imus packet"),
    }
}

#[test]
fn imus_elements_absent_fails() {
    let mut data = header(&[(4, 2, 0, 0)]);
    push_block(&mut data, 4, &[0u8]);
    let mut decoder = Decoder::new(data).unwrap();
    assert!(matches!(decoder.next(), Err(PacketError::EmptyEventsPacket)));
}

#[test]
fn triggers_decode_all_sources() {
    let records: Vec<(u64, u8)> = (0..10).map(|code| (code as u64 * 10, code)).collect();
    let mut data = header(&[(6, 3, 0, 0)]);
    push_block(&mut data, 6, &triggers_payload(&records));
    let mut decoder = Decoder::new(data).unwrap();
    match decoder.next().unwrap().unwrap().content {
        PacketContent::Triggers(triggers) => {
            assert_eq!(triggers.len(), 10);
            let expected = [
                TriggerSource::TimestampReset,
                TriggerSource::ExternalSignalRisingEdge,
                TriggerSource::ExternalSignalFallingEdge,
                TriggerSource::ExternalSignalPulse,
                TriggerSource::ExternalGeneratorRisingEdge,
                TriggerSource::ExternalGeneratorFallingEdge,
                TriggerSource::FrameBegin,
                TriggerSource::FrameEnd,
                TriggerSource::ExposureBegin,
                TriggerSource::ExposureEnd,
            ];
            for (k, trigger) in triggers.iter().enumerate() {
                assert_eq!(trigger.t, k as u64 * 10);
                assert_eq!(trigger.source, expected[k]);
            }
        },
        _ => panic!("expected a triggers packet"),
    }
}

#[test]
fn trigger_unknown_source_fails_whole_batch() {
    // code 11 is outside the enumerated range; the earlier valid
    // trigger must not be returned either
    let mut data = header(&[(6, 3, 0, 0)]);
    push_block(&mut data, 6, &triggers_payload(&[(1, 0), (2, 11)]));
    let mut decoder = Decoder::new(data).unwrap();
    assert!(matches!(decoder.next(), Err(PacketError::UnknownTriggerSource)));
    assert!(matches!(decoder.next(), Err(PacketError::UnknownTriggerSource)));
}

#[test]
fn record_error_leaves_cursor_at_next_block() {
    // the first block fails validation; its boundary is still sound, a
    // fresh decoder positioned past it would read the second block
    let mut data = header(&[(0, 0, 640, 480), (6, 3, 0, 0)]);
    push_block(&mut data, 0, &events_payload(&[(1, 700, 0, true)]));
    push_block(&mut data, 6, &triggers_payload(&[(5, 9)]));
    let mut decoder = Decoder::new(data).unwrap();
    assert!(matches!(decoder.next(), Err(PacketError::XOverflow { .. })));
}

#[test]
fn interleaved_streams_in_file_order() {
    let mut data = header(&[(0, 0, 640, 480), (6, 3, 0, 0)]);
    push_block(&mut data, 6, &triggers_payload(&[(5, 9)]));
    push_block(&mut data, 0, &events_payload(&[(1, 2, 3, true)]));
    let mut decoder = Decoder::new(data).unwrap();
    let first = decoder.next().unwrap().unwrap();
    assert_eq!(first.stream_id, 6);
    assert!(matches!(first.content, PacketContent::Triggers(_)));
    let second = decoder.next().unwrap().unwrap();
    assert_eq!(second.stream_id, 0);
    assert!(matches!(second.content, PacketContent::Events(_)));
    assert!(matches!(decoder.next(), Ok(None)));
}
