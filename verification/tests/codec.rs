use ntt_messages::chain_id::ChainId;
use ntt_messages::endpoint::{EndpointMessage, WormholeEndpoint};
use ntt_messages::error::NttError;
use ntt_messages::manager::ManagerMessage;
use ntt_messages::payload::{BytesPayload, Payload, TransferPayload};

fn sample_message(sequence: u64, sender_byte: u8, bytes: Vec<u8>) -> ManagerMessage<BytesPayload> {
    ManagerMessage { sequence, sender: [sender_byte; 32], payload: BytesPayload { bytes } }
}

#[test]
fn manager_round_trip_concrete() {
    let m = sample_message(1, 0x01, vec![0xDE, 0xAD, 0xBE, 0xEF]);
    let encoded = m.encode().expect("fits in the length field");
    let (decoded, end) = ManagerMessage::<BytesPayload>::decode(&encoded).expect("round trip");
    assert_eq!(end, encoded.len());
    assert_eq!(decoded, m);
}

#[test]
fn manager_round_trip_empty_payload() {
    let m = sample_message(0, 0x00, vec![]);
    let encoded = m.encode().expect("fits");
    assert_eq!(encoded.len(), 42);
    let (decoded, _) = ManagerMessage::<BytesPayload>::decode(&encoded).expect("round trip");
    assert_eq!(decoded, m);
}

#[test]
fn manager_encoding_layout() {
    let m = sample_message(0x0102030405060708, 0xAB, vec![0x11, 0x22]);
    let encoded = m.encode().unwrap();
    let mut expected: Vec<u8> = vec![0x01, 0x02, 0x03, 0x04, 0x05, 0x06, 0x07, 0x08];
    expected.extend_from_slice(&[0xAB; 32]);
    expected.extend_from_slice(&[0x00, 0x02]);
    expected.extend_from_slice(&[0x11, 0x22]);
    assert_eq!(encoded, expected);
}

#[test]
fn payload_of_exactly_65535_bytes_encodes() {
    let m = sample_message(7, 0x42, vec![0x5A; 65535]);
    let encoded = m.encode().expect("exactly the length-field capacity");
    assert_eq!(encoded.len(), 42 + 65535);
}

#[test]
fn payload_of_65536_bytes_is_too_large() {
    let m = sample_message(7, 0x42, vec![0x5A; 65536]);
    assert_eq!(m.encode(), Err(NttError::PayloadTooLarge));
}

#[test]
fn truncated_input_is_malformed() {
    let m = sample_message(3, 0x05, vec![1, 2, 3]);
    let mut encoded = m.encode().unwrap();
    encoded.truncate(41);
    assert_eq!(
        ManagerMessage::<BytesPayload>::decode(&encoded),
        Err(NttError::MalformedEncoding)
    );
}

#[test]
fn declared_length_must_match_consumed_bytes() {
    let m = sample_message(3, 0x05, vec![1, 2, 3]);
    let mut encoded = m.encode().unwrap();
    // Declare 2 payload bytes while 3 follow: the payload decoder consumes
    // all 3, and the mismatch with the declared length is malformed.
    encoded[40] = 0x00;
    encoded[41] = 0x02;
    assert_eq!(
        ManagerMessage::<BytesPayload>::decode(&encoded),
        Err(NttError::MalformedEncoding)
    );
}

#[test]
fn transfer_payload_round_trip() {
    let m = ManagerMessage {
        sequence: 9,
        sender: [0x33; 32],
        payload: TransferPayload { to_chain: ChainId { id: 0x1234 }, body: vec![0x77, 0x88] },
    };
    let encoded = m.encode().unwrap();
    let (decoded, _) = ManagerMessage::<TransferPayload>::decode(&encoded).expect("round trip");
    assert_eq!(decoded, m);
    // The payload body starts with the target chain id, big-endian.
    assert_eq!(encoded[42], 0x12);
    assert_eq!(encoded[43], 0x34);
}

#[test]
fn transfer_payload_too_short_is_malformed() {
    // 42 header bytes declaring a 1-byte payload: too short for a target
    // chain id.
    let m = sample_message(1, 0x00, vec![0x01]);
    let encoded = m.encode().unwrap();
    assert_eq!(
        ManagerMessage::<TransferPayload>::decode(&encoded),
        Err(NttError::MalformedEncoding)
    );
}

#[test]
fn endpoint_message_starts_with_prefix() {
    let m = sample_message(1, 0x01, vec![0xAA, 0xBB]);
    let inner = m.encode().unwrap();
    let wrapped = EndpointMessage::<WormholeEndpoint, BytesPayload>::new(m);
    let encoded = wrapped.encode().unwrap();
    assert_eq!(&encoded[0..4], &[0x99, 0x45, 0xFF, 0x10]);
    assert_eq!(&encoded[4..], &inner[..]);
}

#[test]
fn endpoint_round_trip() {
    let m = sample_message(5, 0x09, vec![0x01, 0x02, 0x03]);
    let wrapped = EndpointMessage::<WormholeEndpoint, BytesPayload>::new(m.clone());
    let encoded = wrapped.encode().unwrap();
    let (decoded, end) =
        EndpointMessage::<WormholeEndpoint, BytesPayload>::decode(&encoded).expect("round trip");
    assert_eq!(end, encoded.len());
    assert_eq!(decoded.message_data, m);
}

#[test]
fn foreign_prefix_is_unrecognized_transport() {
    let m = sample_message(5, 0x09, vec![0x01, 0x02, 0x03]);
    let inner = m.encode().unwrap();
    // The same manager message framed under a different transport prefix.
    let mut foreign: Vec<u8> = vec![0x12, 0x34, 0x56, 0x78];
    foreign.extend_from_slice(&inner);
    assert!(matches!(
        EndpointMessage::<WormholeEndpoint, BytesPayload>::decode(&foreign),
        Err(NttError::UnrecognizedTransport)
    ));
}

#[test]
fn one_flipped_prefix_byte_is_unrecognized_transport() {
    let m = sample_message(5, 0x09, vec![]);
    let wrapped = EndpointMessage::<WormholeEndpoint, BytesPayload>::new(m);
    let mut encoded = wrapped.encode().unwrap();
    encoded[3] ^= 0xFF;
    assert!(matches!(
        EndpointMessage::<WormholeEndpoint, BytesPayload>::decode(&encoded),
        Err(NttError::UnrecognizedTransport)
    ));
}

#[test]
fn endpoint_input_shorter_than_prefix_is_malformed() {
    let bytes: Vec<u8> = vec![0x99, 0x45, 0xFF];
    assert!(matches!(
        EndpointMessage::<WormholeEndpoint, BytesPayload>::decode(&bytes),
        Err(NttError::MalformedEncoding)
    ));
}

#[test]
fn payload_codec_contract_basics() {
    let p = BytesPayload { bytes: vec![1, 2, 3] };
    assert_eq!(p.written_size(), 3);
    assert_eq!(<BytesPayload as Payload>::type_tag(), None);
    let t = TransferPayload { to_chain: ChainId { id: 2 }, body: vec![9] };
    assert_eq!(t.written_size(), 3);
    assert_eq!(<TransferPayload as Payload>::type_tag(), None);
    assert_eq!(<ManagerMessage<BytesPayload> as Payload>::type_tag(), None);
    let mut out: Vec<u8> = Vec::new();
    t.write(&mut out);
    assert_eq!(out, vec![0x00, 0x02, 9]);
}

#[test]
fn error_descriptions() {
    assert_eq!(NttError::MalformedEncoding.describe(), "malformed encoding");
    assert_eq!(NttError::DuplicateMessage.describe(), "duplicate message");
}
