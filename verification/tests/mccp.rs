use std::io::Read;
use macmush::mccp::{CompressionState, MccpHandler, TELOPT_COMPRESS2, TELOPT_COMPRESS3};

#[test]
fn test_mccp_handler_creation() {
    let handler = MccpHandler::new();
    assert_eq!(handler.rx_state(), CompressionState::Off);
    assert_eq!(handler.tx_state(), CompressionState::Off);
    assert!(!handler.is_receiving_compressed());
    assert!(!handler.is_sending_compressed());
}

#[test]
fn test_mccp2_negotiation() {
    let mut handler = MccpHandler::new();

    let response = handler.handle_mccp2_will().unwrap();
    assert_eq!(response, vec![255, 253, TELOPT_COMPRESS2]);
    assert_eq!(handler.rx_state(), CompressionState::Negotiated);

    handler.handle_mccp2_subnegotiation().unwrap();
    assert_eq!(handler.rx_state(), CompressionState::Active);
    assert!(handler.is_receiving_compressed());
}

#[test]
fn test_mccp3_negotiation() {
    let mut handler = MccpHandler::new();

    let response = handler.handle_mccp3_will().unwrap();
    assert!(response.contains(&TELOPT_COMPRESS3));
    assert_eq!(handler.tx_state(), CompressionState::Negotiated);

    handler.start_mccp3().unwrap();
    assert_eq!(handler.tx_state(), CompressionState::Active);
    assert!(handler.is_sending_compressed());
}

#[test]
fn test_compression_stats() {
    let mut handler = MccpHandler::new();

    let stats = handler.get_stats();
    assert!(!stats.mccp2_active);
    assert!(!stats.mccp3_active);

    handler.handle_mccp2_will().unwrap();
    handler.handle_mccp2_subnegotiation().unwrap();

    let stats = handler.get_stats();
    assert!(stats.mccp2_active);
    assert!(!stats.mccp3_active);
}

#[test]
fn mccp_data_passes_unchanged_when_off() {
    let mut handler = MccpHandler::new();
    assert_eq!(handler.decompress(b"plain").unwrap(), b"plain".to_vec());
    assert_eq!(handler.compress(b"plain").unwrap(), b"plain".to_vec());
}

#[test]
fn mccp_compressed_stream_reads_back() {
    let mut sender = MccpHandler::new();
    sender.handle_mccp3_will().unwrap();
    sender.start_mccp3().unwrap();
    let wire = sender.compress(b"look north\n").unwrap();
    assert_ne!(wire, b"look north\n".to_vec());
    let wire2 = sender.compress(b"x").unwrap();
    assert!(wire2.starts_with(&wire));

    let mut receiver = MccpHandler::new();
    receiver.handle_mccp2_will().unwrap();
    receiver.handle_mccp2_subnegotiation().unwrap();
    // The decoder hands out what it inflated on the write that follows.
    assert_eq!(receiver.decompress(&wire).unwrap(), Vec::<u8>::new());
    assert_eq!(receiver.decompress(&wire2[wire.len()..]).unwrap(), b"look north\n".to_vec());
}

#[test]
fn mccp_disable_turns_compression_off() {
    let mut handler = MccpHandler::new();
    handler.handle_mccp2_will().unwrap();
    handler.handle_mccp2_subnegotiation().unwrap();
    handler.disable_mccp2().unwrap();
    assert_eq!(handler.rx_state(), CompressionState::Off);
    handler.handle_mccp3_will().unwrap();
    handler.start_mccp3().unwrap();
    handler.disable_mccp3().unwrap();
    assert_eq!(handler.tx_state(), CompressionState::Off);
}

#[test]
fn mccp3_output_is_a_zlib_stream_of_all_chunks() {
    let mut h = MccpHandler::new();
    h.handle_mccp3_will().unwrap();
    h.start_mccp3().unwrap();
    let first = h.compress(b"look\n").unwrap();
    let both = h.compress(b"score\n").unwrap();
    assert!(both.len() > first.len());
    assert_eq!(&both[..first.len()], &first[..]);
    let mut out = Vec::new();
    let mut d = flate2::read::ZlibDecoder::new(&both[..]);
    let _ = d.read_to_end(&mut out);
    assert_eq!(out, b"look\nscore\n".to_vec());
}
