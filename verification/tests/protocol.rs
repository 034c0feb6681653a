//! End-to-end tests of the secure session protocol and the wire codec,
//! running against the real cryptographic crates.

use mumu_core::session::{perform_handshake, HandshakeState, SessionError};
use mumu_core::wire::{ClientHello, MoveRequest, PacketType, ServerHello, SpawnRequest};

#[test]
fn handshake_derives_identical_keys() {
    let hm = HandshakeState::create_client_hello().expect("client hello");
    let hello_bytes = hm.message();
    let (server_hello, mut server) = perform_handshake(&hello_bytes).expect("server handshake");
    let sh_bytes = server_hello.encode();
    let mut client = hm.complete_handshake(&sh_bytes).expect("client handshake");
    assert_eq!(server.key, client.key);

    // Round trip: encrypt with the server's derived key, decrypt with the
    // client's, recover the original plaintext.
    let plaintext: Vec<u8> = b"state update".to_vec();
    let ct = server.encrypt(&plaintext).expect("encrypt");
    assert_eq!(ct.len(), plaintext.len() + 16);
    assert_ne!(&ct[..plaintext.len()], &plaintext[..]);
    let pt = client.decrypt(&ct).expect("decrypt");
    assert_eq!(pt, plaintext);

    // And the other direction.
    let plaintext2: Vec<u8> = b"player intent".to_vec();
    let ct2 = client.encrypt(&plaintext2).expect("encrypt");
    let pt2 = server.decrypt(&ct2).expect("decrypt");
    assert_eq!(pt2, plaintext2);
}

#[test]
fn handshake_rejects_undersized_kem_key() {
    let hello = ClientHello {
        x25519_pk: vec![7u8; 32],
        kyber_pk: vec![1u8; 100],
    };
    let bytes = hello.encode();
    match perform_handshake(&bytes) {
        Err(SessionError::MalformedHello) => {}
        _ => panic!("undersized encapsulation key must fail the handshake"),
    }
}

#[test]
fn handshake_rejects_truncated_hello() {
    let bytes: Vec<u8> = vec![0u8; 20];
    match perform_handshake(&bytes) {
        Err(SessionError::MalformedHello) => {}
        _ => panic!("truncated hello must fail the handshake"),
    }
}

#[test]
fn client_rejects_wrong_size_ciphertext() {
    let hm = HandshakeState::create_client_hello().expect("client hello");
    let bogus = ServerHello {
        x25519_pk: vec![9u8; 32],
        kyber_ct: vec![0u8; 10],
    };
    let bytes = bogus.encode();
    match hm.complete_handshake(&bytes) {
        Err(SessionError::MalformedHello) => {}
        _ => panic!("wrong-size ciphertext must fail the handshake"),
    }
}

#[test]
fn nonces_increase_by_one_per_message() {
    let hm = HandshakeState::create_client_hello().expect("client hello");
    let (server_hello, mut server) = perform_handshake(&hm.message()).expect("server handshake");
    let _ = server_hello;
    assert_eq!(server.get_send_nonce(), 0);
    assert_eq!(server.get_recv_nonce(), 0);
    for i in 1..=5u64 {
        let _ = server.encrypt(&vec![1, 2, 3]).expect("encrypt");
        assert_eq!(server.get_send_nonce(), i);
        assert_eq!(server.get_recv_nonce(), 0);
    }
}

#[test]
fn out_of_order_ciphertexts_fail_authentication() {
    let hm = HandshakeState::create_client_hello().expect("client hello");
    let (server_hello, mut server) = perform_handshake(&hm.message()).expect("server handshake");
    let mut client = hm.complete_handshake(&server_hello.encode()).expect("client handshake");

    let ct0 = server.encrypt(&b"first".to_vec()).expect("encrypt");
    let ct1 = server.encrypt(&b"second".to_vec()).expect("encrypt");

    // The receiver's counter is at 0; the second ciphertext was sealed under
    // counter 1, so decrypting it now must fail authentication.
    assert!(client.decrypt(&ct1).is_err());
    // The failed attempt consumed counter 0, so the first ciphertext no
    // longer authenticates either.
    assert!(client.decrypt(&ct0).is_err());
}

#[test]
fn tampered_ciphertext_fails_authentication() {
    let hm = HandshakeState::create_client_hello().expect("client hello");
    let (server_hello, mut server) = perform_handshake(&hm.message()).expect("server handshake");
    let mut client = hm.complete_handshake(&server_hello.encode()).expect("client handshake");

    let mut ct = server.encrypt(&b"authentic".to_vec()).expect("encrypt");
    ct[0] ^= 0x40;
    assert!(client.decrypt(&ct).is_err());
}

#[test]
fn hello_encoding_matches_reference_serialization() {
    // The hello layout is a fixed 32-byte array followed by a
    // length-prefixed byte vector, as the reference serializer writes them.
    let pk = [3u8; 32];
    let blob: Vec<u8> = vec![10, 20, 30, 40, 50];
    let reference = borsh::to_vec(&(pk, blob.clone())).unwrap();
    let hello = ClientHello {
        x25519_pk: pk.to_vec(),
        kyber_pk: blob,
    };
    assert_eq!(hello.encode(), reference);
}

#[test]
fn hello_decode_round_trips_and_rejects_trailing_bytes() {
    let hello = ClientHello {
        x25519_pk: vec![5u8; 32],
        kyber_pk: vec![8u8; 77],
    };
    let mut bytes = hello.encode();
    let decoded = ClientHello::decode(&bytes).expect("decode");
    assert_eq!(decoded.x25519_pk, vec![5u8; 32]);
    assert_eq!(decoded.kyber_pk, vec![8u8; 77]);
    bytes.push(0);
    assert!(ClientHello::decode(&bytes).is_none());
}

#[test]
fn spawn_request_matches_reference_serialization() {
    let name = "Alice".to_string();
    let reference = borsh::to_vec(&name).unwrap();
    let req = SpawnRequest {
        name: name.into_bytes(),
    };
    assert_eq!(req.encode(), reference);
    let decoded = SpawnRequest::decode(&reference).expect("decode");
    assert_eq!(decoded.name, b"Alice".to_vec());
}

#[test]
fn move_request_round_trips() {
    let req = MoveRequest {
        dir_bits: 0x3f80_0000,
    };
    let bytes = req.encode();
    assert_eq!(bytes, vec![0x00, 0x00, 0x80, 0x3f]);
    let decoded = MoveRequest::decode(&bytes).expect("decode");
    assert_eq!(decoded.dir_bits, 0x3f80_0000);
    assert!(MoveRequest::decode(&vec![1, 2, 3]).is_none());
}

#[test]
fn packet_type_opcodes_round_trip() {
    assert_eq!(PacketType::from_u8(1), Some(PacketType::Spawn));
    assert_eq!(PacketType::from_u8(2), Some(PacketType::Move));
    assert_eq!(PacketType::from_u8(3), Some(PacketType::UpdatePlayers));
    assert_eq!(PacketType::from_u8(4), Some(PacketType::MapData));
    assert_eq!(PacketType::from_u8(0), None);
    assert_eq!(PacketType::from_u8(9), None);
    assert_eq!(PacketType::Spawn.to_u8(), 1);
    assert_eq!(PacketType::MapData.to_u8(), 4);
}

#[test]
fn frame_splits_into_opcode_and_payload() {
    let payload: Vec<u8> = vec![9, 8, 7];
    let frame = mumu_core::wire::encode_frame(2, &payload);
    assert_eq!(frame, vec![2, 9, 8, 7]);
    let (op, body) = mumu_core::wire::decode_frame(&frame).expect("decode");
    assert_eq!(op, 2);
    assert_eq!(body, payload);
    assert!(mumu_core::wire::decode_frame(&Vec::new()).is_none());
}
