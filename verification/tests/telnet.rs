use macmush::mccp::MccpHandler;
use macmush::telnet::{frame_command, process_telnet};

#[test]
fn telnet_plain_text_passes_through() {
    let mut h = MccpHandler::new();
    let mut data = b"Hello there".to_vec();
    let answers = process_telnet(&mut h, &mut data).unwrap();
    assert!(answers.is_empty());
    assert_eq!(data, b"Hello there".to_vec());
}

#[test]
fn telnet_compress2_offer_is_answered_and_removed() {
    let mut h = MccpHandler::new();
    let mut data = vec![b'a', 255, 251, 86, b'b'];
    let answers = process_telnet(&mut h, &mut data).unwrap();
    assert_eq!(answers, vec![vec![255, 253, 86]]);
    assert_eq!(data, b"ab".to_vec());
    assert!(h.get_stats().mccp2_active == false);
}

#[test]
fn telnet_compress2_subnegotiation_starts_decompression() {
    let mut h = MccpHandler::new();
    let mut data = vec![255, 251, 86, 255, 250, 86, 255, 240, b'z'];
    let answers = process_telnet(&mut h, &mut data).unwrap();
    assert_eq!(answers.len(), 1);
    assert_eq!(data, b"z".to_vec());
    assert!(h.is_receiving_compressed());
}

#[test]
fn telnet_compress3_offer_is_answered() {
    let mut h = MccpHandler::new();
    let mut data = vec![255, 251, 87];
    let answers = process_telnet(&mut h, &mut data).unwrap();
    assert_eq!(answers, vec![vec![255, 253, 87, 255, 250, 87, 255, 240]]);
    assert!(data.is_empty());
    assert!(h.is_sending_compressed());
}

#[test]
fn telnet_command_framing() {
    let mut h = MccpHandler::new();
    assert_eq!(frame_command(&mut h, "look").unwrap(), b"look\n".to_vec());
}
