use ankerstatus::fragments::FragmentBuffer;
use ankerstatus::parser::decode_packet;
use ankerstatus::protocol::{build_payload, build_tlv, frame_packet, tlv_iter, A2_STATIC, INITIAL_KEY};

#[test]
fn tlv_roundtrip() {
    let items: &[(u8, &[u8])] = &[(0xA1, &[0x01, 0x02]), (0xFE, &[0xAA, 0xBB, 0xCC, 0xDD])];
    let buf = build_tlv(items);
    let parsed: Vec<_> = tlv_iter(&buf, 0).entries().iter().map(|e| (e.tag, e.val.to_vec())).collect();
    assert_eq!(parsed[0], (0xA1, vec![0x01, 0x02]));
    assert_eq!(parsed[1], (0xFE, vec![0xAA, 0xBB, 0xCC, 0xDD]));
}

#[test]
fn frame_xor() {
    let payload = build_payload(0x01, 0x0001, &[(0xA1, &[0x01, 0x02, 0x03, 0x04])]);
    let pkt = frame_packet(&payload);
    // XOR of all bytes except the last must equal the last byte
    let xor: u8 = pkt[..pkt.len() - 1].iter().fold(0u8, |a, &b| a ^ b);
    assert_eq!(xor, *pkt.last().unwrap());
}

#[test]
fn a2_static_length() {
    assert_eq!(A2_STATIC.len(), 40);
    assert_eq!(INITIAL_KEY.len(), 16);
}

#[test]
fn fragment_single() {
    let mut fb = FragmentBuffer::default();
    let data = vec![1, 2, 3];
    let result = fb.feed([0xC0, 0x02], 1, 1, data.clone());
    assert_eq!(result, Some(data));
}

#[test]
fn fragment_reassembly() {
    let mut fb = FragmentBuffer::default();
    let key = [0xC0u8, 0x02u8];
    assert!(fb.feed(key, 1, 3, vec![1]).is_none());
    assert!(fb.feed(key, 2, 3, vec![2]).is_none());
    let result = fb.feed(key, 3, 3, vec![3]);
    assert_eq!(result, Some(vec![1, 2, 3]));
}

#[test]
fn decode_packet_basic() {
    // Build a minimal valid-looking packet
    let payload = &[0x03u8, 0x00, 0x01, 0x00, 0x01, 0xA1, 0x01, 0x21];
    let mut pkt = vec![0xFF, 0x09];
    let len = (payload.len() + 5) as u16;
    pkt.extend_from_slice(&len.to_le_bytes());
    pkt.extend_from_slice(payload);
    let xor: u8 = pkt.iter().fold(0u8, |a, &b| a ^ b);
    pkt.push(xor);

    let dec = decode_packet(&pkt).unwrap();
    assert_eq!(dec.cmd, 0x0001);
    assert!(!dec.is_enc);
}
