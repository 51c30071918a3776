use insight::rtp_packet::{interleaved_frame_len, RTPPacket};

fn sample_bytes() -> Vec<u8> {
    vec![
        0xB2, 0xE0, 0x30, 0x39, 0x00, 0x00, 0x30, 0x43, 0x00, 0x00, 0x7E, 0x43, 0x00, 0x00, 0x00,
        0x07, 0x01, 0x02, 0x03, 0x04, 0xAA, 0xBB,
    ]
}

#[test]
fn from_bytes_reads_every_field() {
    let data = sample_bytes();
    assert!(RTPPacket::is_complete(&data));
    let p = RTPPacket::from_bytes(&data);
    assert_eq!(p.version, 2);
    assert!(p.padding);
    assert!(p.extension);
    assert_eq!(p.cc, 2);
    assert!(p.marker);
    assert_eq!(p.payload_type, 0x60);
    assert_eq!(p.seq_num, 12345);
    assert_eq!(p.timestamp, 12355);
    assert_eq!(p.ssrc, 32323);
    assert_eq!(p.csrcs, Some(vec![7, 0x01020304]));
    assert_eq!(p.profile_specific_ext_hdr_id, None);
    assert_eq!(p.ext_hdr_len, None);
    assert_eq!(p.payload, vec![0xAA, 0xBB]);
}

#[test]
fn from_bytes_version_one_without_sources() {
    let data = vec![0x00, 0x05, 0, 1, 0, 0, 0, 2, 0, 0, 0, 3];
    let p = RTPPacket::from_bytes(&data);
    assert_eq!(p.version, 1);
    assert!(!p.padding && !p.extension && !p.marker);
    assert_eq!(p.cc, 0);
    assert_eq!(p.payload_type, 5);
    assert_eq!(p.seq_num, 1);
    assert_eq!(p.timestamp, 2);
    assert_eq!(p.ssrc, 3);
    assert_eq!(p.csrcs, None);
    assert!(p.payload.is_empty());
}

#[test]
fn is_complete_needs_the_announced_sources() {
    assert!(!RTPPacket::is_complete(&[0x80, 0, 0, 0, 0, 0, 0, 0, 0, 0, 0]));
    assert!(RTPPacket::is_complete(&[0x80, 0, 0, 0, 0, 0, 0, 0, 0, 0, 0, 0]));
    let mut two_sources = vec![0x82u8; 12];
    assert!(!RTPPacket::is_complete(&two_sources));
    two_sources.extend_from_slice(&[0; 7]);
    assert!(!RTPPacket::is_complete(&two_sources));
    two_sources.push(0);
    assert!(RTPPacket::is_complete(&two_sources));
}

#[test]
fn into_bytes_writes_the_header_in_order() {
    let packet = RTPPacket {
        version: 2,
        padding: true,
        extension: false,
        cc: 1,
        marker: true,
        payload_type: 96,
        seq_num: 0x0102,
        timestamp: 0x03040506,
        ssrc: 0x0708090A,
        csrcs: Some(vec![0x0B0C0D0E]),
        profile_specific_ext_hdr_id: Some(0xBEDE),
        ext_hdr_len: Some(1),
        payload: vec![9, 8],
    };
    let raw = packet.into_bytes();
    assert_eq!(
        raw,
        vec![
            0xA1, 0xE0, 0x01, 0x02, 0x03, 0x04, 0x05, 0x06, 0x07, 0x08, 0x09, 0x0A, 0x0B, 0x0C,
            0x0D, 0x0E, 0xBE, 0xDE, 0x00, 0x01, 9, 8
        ]
    );
}

#[test]
fn into_bytes_always_writes_version_two() {
    let packet = RTPPacket {
        version: 1,
        padding: false,
        extension: true,
        cc: 0,
        marker: false,
        payload_type: 0,
        seq_num: 0,
        timestamp: 0,
        ssrc: 0,
        csrcs: None,
        profile_specific_ext_hdr_id: None,
        ext_hdr_len: None,
        payload: vec![],
    };
    let raw = Vec::<u8>::from(packet);
    assert_eq!(raw, vec![0x90, 0, 0, 0, 0, 0, 0, 0, 0, 0, 0, 0]);
}

#[test]
fn reading_back_what_was_written() {
    let packet = RTPPacket {
        version: 2,
        padding: false,
        extension: true,
        cc: 2,
        marker: true,
        payload_type: 111,
        seq_num: 65535,
        timestamp: 0xFFFF_FFFF,
        ssrc: 42,
        csrcs: Some(vec![1, 0x8000_0000]),
        profile_specific_ext_hdr_id: None,
        ext_hdr_len: None,
        payload: vec![5, 6, 7],
    };
    let back = RTPPacket::from_bytes(&packet.clone().into_bytes());
    assert_eq!(back.version, packet.version);
    assert_eq!(back.padding, packet.padding);
    assert_eq!(back.extension, packet.extension);
    assert_eq!(back.cc, packet.cc);
    assert_eq!(back.marker, packet.marker);
    assert_eq!(back.payload_type, packet.payload_type);
    assert_eq!(back.seq_num, packet.seq_num);
    assert_eq!(back.timestamp, packet.timestamp);
    assert_eq!(back.ssrc, packet.ssrc);
    assert_eq!(back.csrcs, packet.csrcs);
    assert_eq!(back.payload, packet.payload);
}

#[test]
fn writing_out_what_was_read() {
    let data = sample_bytes();
    assert_eq!(RTPPacket::from_bytes(&data).into_bytes(), data);
}

#[test]
fn interleaved_frame_header() {
    assert_eq!(interleaved_frame_len(&[0x24, 0, 0x05, 0xDC]), Some(1500));
    assert_eq!(interleaved_frame_len(&[0x24, 1, 0, 0]), Some(0));
    assert_eq!(interleaved_frame_len(&[b'R', b'T', b'S', b'P']), None);
}

#[test]
fn vec_from_writes_the_conversion_packet() {
    let packet = RTPPacket {
        version: 1,
        padding: false,
        extension: false,
        cc: 1,
        marker: false,
        payload_type: 96,
        seq_num: 1,
        timestamp: 12355,
        ssrc: 32323,
        csrcs: None,
        profile_specific_ext_hdr_id: None,
        ext_hdr_len: None,
        payload: vec![1, 2, 3, 4],
    };
    assert_eq!(
        Vec::<u8>::from(packet),
        vec![0x81u8, 0x60, 0x00, 0x01, 0x00, 0x00, 0x30, 0x43, 0x00, 0x00, 0x7E, 0x43, 0x01, 0x02, 0x03, 0x04]
    );
}
