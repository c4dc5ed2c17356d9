use zenoh_shm::codec::shm::{RCodec, Reader, WCodec, Zenoh080};
use zenoh_shm::codec::zint::DidntRead;
use zenoh_shm::common::ZError;
use zenoh_shm::establishment::{
    AuthSegment, AuthUnicast, InitAck, InitSyn, ShmFsm, StateAccept, StateOpen,
};

const C_A: u64 = 0x1234_5678_9abc_def0;
const C_B: u64 = 0x0fed_cba9_8765_4321;

#[test]
fn handshake_accept_open() {
    let alice_auth = AuthUnicast::new(AuthSegment::new(7, C_A));
    let bob_auth = AuthUnicast::new(AuthSegment::new(9, C_B));
    let alice = ShmFsm::new(&alice_auth);
    let bob = ShmFsm::new(&bob_auth);
    let mut alice_state = StateOpen::new();
    let mut bob_state = StateAccept::new();
    assert!(!alice_state.negotiated_to_use_shm());
    assert!(!bob_state.negotiated_to_use_shm());

    // InitSyn: Alice -> Bob
    let init_syn = alice.send_init_syn(&alice_state).unwrap().unwrap();
    assert_eq!(init_syn, vec![7]);
    let alice_segment_id = bob.recv_init_syn(&init_syn).unwrap();
    assert_eq!(alice_segment_id, 7);
    // Bob reads Alice's challenge from Alice's segment
    let alice_segment = AuthSegment::new(alice_segment_id, C_A);

    // InitAck: Bob -> Alice
    let init_ack = bob.send_init_ack(&alice_segment).unwrap().unwrap();
    let bob_segment_id = alice.recv_init_ack(Some(init_ack)).unwrap();
    assert_eq!(bob_segment_id, Some(9));
    // Alice reads Bob's challenge from Bob's segment
    let bob_segment = Some(AuthSegment::new(9, C_B));

    // OpenSyn: Alice -> Bob
    let open_syn = alice.send_open_syn(&bob_segment).unwrap();
    assert_eq!(open_syn, Some(C_B));
    bob.recv_open_syn(&mut bob_state, open_syn).unwrap();
    assert!(bob_state.negotiated_to_use_shm());

    // OpenAck: Bob -> Alice
    let open_ack = bob.send_open_ack(&bob_state).unwrap();
    assert_eq!(open_ack, Some(1));
    alice.recv_open_ack(&mut alice_state, open_ack).unwrap();
    assert!(alice_state.negotiated_to_use_shm());
}

#[test]
fn handshake_with_a_wrong_challenge() {
    let alice_auth = AuthUnicast::new(AuthSegment::new(7, C_A));
    let bob_auth = AuthUnicast::new(AuthSegment::new(9, C_B));
    let alice = ShmFsm::new(&alice_auth);
    let bob = ShmFsm::new(&bob_auth);
    let mut alice_state = StateOpen::new();
    let mut bob_state = StateAccept::new();

    // Alice answers with a challenge that is not Bob's
    bob.recv_open_syn(&mut bob_state, Some(C_B + 1)).unwrap();
    assert!(!bob_state.negotiated_to_use_shm());
    let open_ack = bob.send_open_ack(&bob_state).unwrap();
    assert_eq!(open_ack, None);
    alice.recv_open_ack(&mut alice_state, open_ack).unwrap();
    assert!(!alice_state.negotiated_to_use_shm());

    // Bob answers with a challenge that is not Alice's
    let wrong = bob.send_init_ack(&AuthSegment::new(7, C_A ^ 1)).unwrap();
    assert_eq!(alice.recv_init_ack(wrong).unwrap(), None);
    assert_eq!(alice.send_open_syn(&None).unwrap(), None);
}

#[test]
fn handshake_drops_the_extension_silently() {
    let auth = AuthUnicast::new(AuthSegment::new(7, C_A));
    assert_eq!(auth.id(), 7);
    assert_eq!(auth.challenge(), C_A);
    let fsm = ShmFsm::new(&auth);
    let mut state = StateOpen::new();
    assert_eq!(fsm.recv_init_ack(None).unwrap(), None);
    assert_eq!(fsm.recv_init_ack(Some(vec![])).unwrap(), None);
    assert_eq!(fsm.recv_init_ack(Some(vec![0x80])).unwrap(), None);
    fsm.recv_open_ack(&mut state, None).unwrap();
    assert!(!state.negotiated_to_use_shm());
    fsm.recv_open_ack(&mut state, Some(0)).unwrap();
    assert!(!state.negotiated_to_use_shm());
    fsm.recv_open_ack(&mut state, Some(2)).unwrap();
    assert!(!state.negotiated_to_use_shm());
    fsm.recv_open_syn(&mut state, None).unwrap();
    assert!(!state.negotiated_to_use_shm());
    assert!(matches!(fsm.recv_init_syn(&vec![]), Err(ZError::Other(_))));
    assert!(matches!(fsm.recv_init_syn(&vec![0xff]), Err(ZError::Other(_))));
}

#[test]
fn handshake_messages_on_the_wire() {
    let codec = Zenoh080::new();
    let mut bytes = vec![];
    codec.write(&mut bytes, &InitSyn { alice_segment: 300 });
    assert_eq!(bytes, vec![0xac, 0x02]);
    let mut reader = Reader::new(&bytes);
    let init_syn: InitSyn = codec.read(&mut reader).unwrap();
    assert_eq!(init_syn, InitSyn { alice_segment: 300 });

    let mut bytes = vec![];
    let init_ack = InitAck { alice_challenge: 128, bob_segment: 9 };
    codec.write(&mut bytes, &init_ack);
    assert_eq!(bytes, vec![0x80, 0x01, 0x09]);
    let mut reader = Reader::new(&bytes);
    let read: InitAck = codec.read(&mut reader).unwrap();
    assert_eq!(read, init_ack);
    let mut reader = Reader::new(&bytes[..2]);
    let read: Result<InitAck, DidntRead> = codec.read(&mut reader);
    assert!(read.is_err());
    assert_eq!(reader.len(), 2);
}

#[test]
fn state_is_one_byte_on_the_wire() {
    let codec = Zenoh080::new();
    let auth = AuthUnicast::new(AuthSegment::new(1, 5));
    let fsm = ShmFsm::new(&auth);
    let mut agreed = StateOpen::new();
    fsm.recv_open_ack(&mut agreed, Some(1)).unwrap();
    let mut bytes = vec![];
    codec.write(&mut bytes, &StateOpen::new());
    codec.write(&mut bytes, &agreed);
    assert_eq!(bytes, vec![0, 1]);
    let mut reader = Reader::new(&bytes);
    let first: StateOpen = codec.read(&mut reader).unwrap();
    let second: StateOpen = codec.read(&mut reader).unwrap();
    assert_eq!(first, StateOpen::new());
    assert_eq!(second, agreed);
    let third: Result<StateOpen, DidntRead> = codec.read(&mut reader);
    assert!(third.is_err());
    let other = [2u8, 255];
    let mut reader = Reader::new(&other);
    let two: StateOpen = codec.read(&mut reader).unwrap();
    let all: StateOpen = codec.read(&mut reader).unwrap();
    assert!(!two.negotiated_to_use_shm());
    assert!(!all.negotiated_to_use_shm());
}

#[test]
fn random_states_are_states() {
    let mut seen_true = false;
    let mut seen_false = false;
    for _ in 0..200 {
        if StateOpen::rand().negotiated_to_use_shm() {
            seen_true = true;
        } else {
            seen_false = true;
        }
    }
    assert!(seen_true && seen_false);
}
