use argon::muxer::crc;
use argon::muxer::fcs;
use argon::muxer::Muxer;
use argon::proto::ControlChannelCommand;
use argon::proto::Frame;
use argon::proto::FrameType;

#[test]
fn crc_of_nothing_is_the_seed() {
    assert_eq!(crc(&[]), 0xFF);
}

#[test]
fn crc_of_known_vectors() {
    assert_eq!(crc(&[0x01]), 0x5E);
    assert_eq!(crc(&[0x07, 0x3F, 0x01]), 0x21);
    assert_eq!(fcs(&[0x07, 0x3F, 0x01]), 0xDE);
}

#[test]
fn fcs_matches_published_frame() {
    // The well-known channel-0 SABM frame F9 03 3F 01 1C F9.
    assert_eq!(fcs(&[0x03, 0x3F, 0x01]), 0x1C);
}

#[test]
fn fcs_is_complement_of_crc() {
    let data = [0x07, 0xEF, 0x05, 0x42];
    assert_eq!(fcs(&data), !crc(&data));
}

#[test]
fn crc_self_check_residue() {
    // Appending the FCS and recomputing always lands on the fixed residue.
    for header in [vec![], vec![0x03, 0x3F, 0x01], vec![0x07, 0xEF, 0xFF], vec![1, 2, 3, 4, 5]] {
        let f = fcs(&header);
        let mut checked = header.clone();
        checked.push(f);
        assert_eq!(crc(&checked), 0xCF);
    }
}

#[test]
fn frame_layout_small_payload() {
    let m = Muxer::new();
    let v = m.frame(1, 0xEF, true, &[0x41]);
    assert_eq!(v, vec![0xF9, 0x07, 0xEF, 0x03, 0x41, 0xD4, 0xF9]);
}

#[test]
fn frame_response_clears_cr_bit() {
    let m = Muxer::new();
    let v = m.frame(1, 0xEF, false, &[]);
    // initiator sending a response: no command/response bit
    assert_eq!(v[1], 0x05);
}

#[test]
fn frame_length_form_at_127() {
    let m = Muxer::new();
    let payload = vec![0u8; 127];
    let v = m.frame(1, 0xEF, true, &payload);
    // one length octet: extension bit set, length in the upper seven bits
    assert_eq!(v.len(), 1 + 3 + 127 + 2);
    assert_eq!(v[3], 0xFF);
    assert_eq!(v[3] & 1, 1);
    assert_eq!(v[3] >> 1, 127);
}

#[test]
fn frame_length_form_at_128() {
    let m = Muxer::new();
    let payload = vec![0u8; 128];
    let v = m.frame(1, 0xEF, true, &payload);
    // two length octets: extension bit clear, low seven bits, then the rest
    assert_eq!(v.len(), 1 + 4 + 128 + 2);
    assert_eq!(v[3], 0x00);
    assert_eq!(v[3] & 1, 0);
    assert_eq!(v[4], 0x01);
}

#[test]
fn frame_fcs_covers_header_only() {
    let m = Muxer::new();
    let payload = [9u8, 8, 7];
    let v = m.frame(2, 0xEF, true, &payload);
    let fcs_byte = v[v.len() - 2];
    assert_eq!(fcs_byte, fcs(&v[1..4]));
    assert_eq!(v[0], 0xF9);
    assert_eq!(v[v.len() - 1], 0xF9);
}

#[test]
fn muxer_starts_as_initiator_on_channel_one() {
    let m = Muxer::new();
    assert_eq!(m.channel, 1);
    assert!(m.initiator);
}

#[test]
fn wire_codes_are_stable() {
    assert_eq!(Frame::BASIC_FLAG.code(), 0xF9);
    assert_eq!(Frame::ADVANCED_FLAG.code(), 0x7E);
    assert_eq!(FrameType::SABM.code(), 0x2F);
    assert_eq!(FrameType::UIH.code(), 0xEF);
    assert_eq!(FrameType::UA.code(), 0x63);
    assert_eq!(ControlChannelCommand::MSC.code(), 0xE0);
}
