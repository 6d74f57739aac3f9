use arrayvec::ArrayVec;
use rust_app::dispatch::{deliver, handle_apdu, run_parser_apdu, Ins, Parse};
use rust_app::implementation::{
    emit, encode_key, ends_command, make_path, Action, DerivedKey, Event, GetAddress, GetAddressStep,
    GetAddressTask, ParsersState, Prompt, PublicKey, Sign, SignStep, SignTask,
};
use rust_app::interface::{bip32_key, transaction};
use rust_app::parser::Value;
use rust_app::status::{Failure, FailureKind, Status};

const GET_PUBKEY: u8 = 2;
const SIGN: u8 = 3;
const CAPACITY: usize = 255;
const DIGEST: [u8; 32] = [0xd1; 32];

fn sample_key() -> DerivedKey {
    let mut w = [0u8; 65];
    for (i, byte) in w.iter_mut().enumerate() {
        *byte = (i as u8).wrapping_mul(3).wrapping_add(4);
    }
    let mut hash = [0u8; 20];
    for (i, byte) in hash.iter_mut().enumerate() {
        *byte = 0xa0 + i as u8;
    }
    DerivedKey { public_key: PublicKey { w, w_len: 65 }, hash }
}

fn encoded_sample_key() -> Vec<u8> {
    let key = sample_key().public_key;
    let mut bytes = vec![65u8];
    bytes.extend_from_slice(&key.w[1..65]);
    bytes
}

fn failed_with(action: &Action, failure: Failure) -> bool {
    matches!(action, Action::Fail(found) if *found == failure)
}

fn busy_with_get_address(cell: &ParsersState) -> Option<GetAddressStep> {
    match cell {
        ParsersState::GetAddressState(task) => Some(task.step()),
        _ => None,
    }
}

fn busy_with_sign(cell: &ParsersState) -> Option<SignStep> {
    match cell {
        ParsersState::SignState(task) => Some(task.step()),
        _ => None,
    }
}

/// Runs a get-address command up to the prompt.
fn get_address_at_prompt(cell: &mut ParsersState) {
    let action = handle_apdu(cell, GET_PUBKEY, &[1, 0x2c, 0, 0, 0x80], CAPACITY);
    assert!(matches!(action, Action::DeriveKey { .. }));
    let action = deliver(cell, Event::KeyDerived(Some(sample_key())), CAPACITY);
    assert!(matches!(action, Action::Confirm(Prompt::ProvidePublicKey { .. })));
}

/// Runs a sign command up to the prompt.
fn sign_at_prompt(cell: &mut ParsersState) {
    let action = handle_apdu(cell, SIGN, &[2, 0, 0, 0, 0xde, 0xad], CAPACITY);
    assert!(matches!(action, Action::NeedMore { observed: 6 }));
    let action = handle_apdu(cell, SIGN, &[1, 0x2c, 0, 0, 0x80], CAPACITY);
    assert!(matches!(action, Action::DeriveKey { .. }));
    let action = deliver(cell, Event::KeyDerived(Some(sample_key())), CAPACITY);
    assert!(matches!(action, Action::FinishDigest));
    let action = deliver(cell, Event::Digest(DIGEST), CAPACITY);
    assert!(matches!(action, Action::Confirm(Prompt::SignHash { .. })));
}

#[test]
fn opcode_table() {
    assert_eq!(Ins::from(2), Some(Ins::GetPubkey));
    assert_eq!(Ins::from(3), Some(Ins::Sign));
    assert_eq!(Ins::from(4), Some(Ins::Menu));
    assert_eq!(Ins::from(0xfe), Some(Ins::ShowPrivateKey));
    assert_eq!(Ins::from(0xff), Some(Ins::Exit));
    for byte in 0..=255u8 {
        if ![2, 3, 4, 0xfe, 0xff].contains(&byte) {
            assert_eq!(Ins::from(byte), None);
        }
    }
}

#[test]
fn failure_kinds_and_statuses() {
    let table = [
        (Failure::NothingReceived, FailureKind::ProtocolViolation, Status::NothingReceived),
        (Failure::NoTask, FailureKind::ProtocolViolation, Status::Unknown),
        (Failure::OpcodeMismatch, FailureKind::ProtocolViolation, Status::Unknown),
        (Failure::UnexpectedEvent, FailureKind::ProtocolViolation, Status::Unknown),
        (Failure::UnknownOpcode, FailureKind::Reject, Status::Rejected),
        (Failure::Malformed, FailureKind::Reject, Status::Rejected),
        (Failure::TrailingData, FailureKind::Reject, Status::Rejected),
        (Failure::Declined, FailureKind::Reject, Status::Rejected),
        (Failure::CryptoFailure, FailureKind::Reject, Status::Rejected),
        (Failure::Overflow, FailureKind::FatalFault, Status::Unknown),
    ];
    for (failure, kind, status) in table {
        assert_eq!(failure.kind(), kind);
        assert_eq!(failure.status(), status);
    }
}

#[test]
fn new_cell_is_idle() {
    let cell = ParsersState::default();
    assert!(cell.is_idle());
    assert!(matches!(cell, ParsersState::NoState));
}

#[test]
fn get_address_across_two_chunks() {
    let mut cell = ParsersState::default();
    let action = handle_apdu(&mut cell, GET_PUBKEY, &[1], CAPACITY);
    assert!(matches!(action, Action::NeedMore { observed: 0 }));
    assert_eq!(busy_with_get_address(&cell), Some(GetAddressStep::ParsePath));

    let action = handle_apdu(&mut cell, GET_PUBKEY, &[0x2c, 0, 0, 0x80], CAPACITY);
    match action {
        Action::DeriveKey { path } => assert_eq!(path.as_slice(), &[0x8000_002c]),
        other => panic!("expected a derivation request, got {:?}", other),
    }
    assert_eq!(busy_with_get_address(&cell), Some(GetAddressStep::AwaitKey));

    let key = sample_key();
    let mut prompts = 0;
    let action = deliver(&mut cell, Event::KeyDerived(Some(key)), CAPACITY);
    match action {
        Action::Confirm(Prompt::ProvidePublicKey { key_hash }) => {
            prompts += 1;
            assert_eq!(key_hash, key.hash);
        },
        other => panic!("expected a prompt, got {:?}", other),
    }
    assert_eq!(busy_with_get_address(&cell), Some(GetAddressStep::AwaitConfirmation));

    let action = deliver(&mut cell, Event::Confirmed(true), CAPACITY);
    match action {
        Action::Respond { bytes, last } => {
            assert!(last);
            assert_eq!(bytes.as_slice(), encoded_sample_key().as_slice());
        },
        other => panic!("expected the response, got {:?}", other),
    }
    assert_eq!(prompts, 1);
    assert!(cell.is_idle());
}

#[test]
fn get_address_byte_by_byte() {
    let mut cell = ParsersState::default();
    let payload = [2u8, 0x2c, 0, 0, 0x80, 0x01, 0, 0, 0];
    for byte in &payload[..8] {
        let action = handle_apdu(&mut cell, GET_PUBKEY, &[*byte], CAPACITY);
        assert!(matches!(action, Action::NeedMore { observed: 0 }));
    }
    match handle_apdu(&mut cell, GET_PUBKEY, &payload[8..], CAPACITY) {
        Action::DeriveKey { path } => assert_eq!(path.as_slice(), &[0x8000_002c, 1]),
        other => panic!("expected a derivation request, got {:?}", other),
    }
}

#[test]
fn get_address_declined() {
    let mut cell = ParsersState::default();
    get_address_at_prompt(&mut cell);
    let action = deliver(&mut cell, Event::Confirmed(false), CAPACITY);
    assert!(failed_with(&action, Failure::Declined));
    assert!(cell.is_idle());
}

#[test]
fn get_address_derivation_failure() {
    let mut cell = ParsersState::default();
    let _ = handle_apdu(&mut cell, GET_PUBKEY, &[0], CAPACITY);
    assert_eq!(busy_with_get_address(&cell), Some(GetAddressStep::AwaitKey));
    let action = deliver(&mut cell, Event::KeyDerived(None), CAPACITY);
    assert!(failed_with(&action, Failure::CryptoFailure));
    assert!(cell.is_idle());
}

/// Runs a get-address command whose derived key claims `w_len` bytes, up
/// to the answer to the accepted prompt.
fn get_address_with_key_length(w_len: u32) -> (ParsersState, Action) {
    let mut cell = ParsersState::default();
    let _ = handle_apdu(&mut cell, GET_PUBKEY, &[0], CAPACITY);
    let mut key = sample_key();
    key.public_key.w_len = w_len;
    let action = deliver(&mut cell, Event::KeyDerived(Some(key)), CAPACITY);
    assert!(matches!(action, Action::Confirm(_)));
    let action = deliver(&mut cell, Event::Confirmed(true), CAPACITY);
    (cell, action)
}

#[test]
fn get_address_unusable_key() {
    for w_len in [0u32, 66, 100, 128] {
        let (cell, action) = get_address_with_key_length(w_len);
        assert!(failed_with(&action, Failure::CryptoFailure));
        assert_eq!(Failure::CryptoFailure.kind(), FailureKind::Reject);
        assert!(cell.is_idle());
    }
}

#[test]
fn get_address_key_beyond_the_response_buffer_is_a_fatal_fault() {
    for w_len in [129u32, 255, 256, u32::MAX] {
        let (cell, action) = get_address_with_key_length(w_len);
        assert!(failed_with(&action, Failure::Overflow));
        assert_eq!(Failure::Overflow.kind(), FailureKind::FatalFault);
        assert!(cell.is_idle());
    }
}

#[test]
fn get_address_trailing_data() {
    let mut cell = ParsersState::default();
    let action = handle_apdu(&mut cell, GET_PUBKEY, &[1, 1, 0, 0, 0, 9], CAPACITY);
    assert!(failed_with(&action, Failure::TrailingData));
    assert!(cell.is_idle());
}

#[test]
fn get_address_path_too_long() {
    let mut cell = ParsersState::default();
    let action = handle_apdu(&mut cell, GET_PUBKEY, &[11], CAPACITY);
    assert!(failed_with(&action, Failure::Malformed));
    assert!(cell.is_idle());
}

#[test]
fn sign_runs_its_steps_in_order() {
    let mut cell = ParsersState::default();
    let transaction = [5u8, 0, 0, 0, 10, 20, 30, 40, 50];
    let mut observed = Vec::new();

    let action = handle_apdu(&mut cell, SIGN, &transaction[..3], CAPACITY);
    assert!(matches!(action, Action::NeedMore { observed: 3 }));
    observed.extend_from_slice(&transaction[..3]);
    assert_eq!(busy_with_sign(&cell), Some(SignStep::ParseTransaction));

    let action = handle_apdu(&mut cell, SIGN, &transaction[3..], CAPACITY);
    assert!(matches!(action, Action::NeedMore { observed: 6 }));
    observed.extend_from_slice(&transaction[3..]);
    assert_eq!(observed, transaction);
    assert_eq!(busy_with_sign(&cell), Some(SignStep::ParsePath));

    let action = handle_apdu(&mut cell, SIGN, &[2, 0x2c, 0, 0], CAPACITY);
    assert!(matches!(action, Action::NeedMore { observed: 0 }));
    match handle_apdu(&mut cell, SIGN, &[0x80, 5, 0, 0, 0], CAPACITY) {
        Action::DeriveKey { path } => assert_eq!(path.as_slice(), &[0x8000_002c, 5]),
        other => panic!("expected a derivation request, got {:?}", other),
    }
    assert_eq!(busy_with_sign(&cell), Some(SignStep::AwaitKey));

    let key = sample_key();
    let action = deliver(&mut cell, Event::KeyDerived(Some(key)), CAPACITY);
    assert!(matches!(action, Action::FinishDigest));
    assert_eq!(busy_with_sign(&cell), Some(SignStep::AwaitDigest));

    let digest: [u8; 32] = core::array::from_fn(|i| 0x40 + i as u8);
    match deliver(&mut cell, Event::Digest(digest), CAPACITY) {
        Action::Confirm(Prompt::SignHash { digest: shown, key_hash }) => {
            assert_eq!(shown, digest);
            assert_eq!(key_hash, key.hash);
        },
        other => panic!("expected a prompt, got {:?}", other),
    }
    assert_eq!(busy_with_sign(&cell), Some(SignStep::AwaitConfirmation));

    match deliver(&mut cell, Event::Confirmed(true), CAPACITY) {
        Action::Sign { digest: signed } => assert_eq!(signed, digest),
        other => panic!("expected a signing request, got {:?}", other),
    }
    assert_eq!(busy_with_sign(&cell), Some(SignStep::AwaitSignature));

    let signature: Vec<u8> = (0..70u8).collect();
    match deliver(&mut cell, Event::Signed(Some(&signature)), CAPACITY) {
        Action::Respond { bytes, last } => {
            assert!(last);
            assert_eq!(bytes.as_slice(), signature.as_slice());
        },
        other => panic!("expected the signature, got {:?}", other),
    }
    assert!(cell.is_idle());
}

#[test]
fn sign_interrupted_by_another_opcode() {
    let mut cell = ParsersState::default();
    let action = handle_apdu(&mut cell, SIGN, &[8, 0, 0, 0, 1, 2], CAPACITY);
    assert!(matches!(action, Action::NeedMore { observed: 6 }));
    assert!(!cell.is_idle());

    let action = handle_apdu(&mut cell, GET_PUBKEY, &[1, 0x2c, 0, 0, 0x80], CAPACITY);
    assert!(failed_with(&action, Failure::OpcodeMismatch));
    assert_eq!(Failure::OpcodeMismatch.kind(), FailureKind::ProtocolViolation);
    assert!(cell.is_idle());
}

#[test]
fn busy_cell_fails_every_other_opcode() {
    for other in [SIGN, 4, 0xfe, 0xff, 0, 77] {
        let mut cell = ParsersState::default();
        let _ = handle_apdu(&mut cell, GET_PUBKEY, &[3], CAPACITY);
        assert!(!cell.is_idle());
        let action = handle_apdu(&mut cell, other, &[1], CAPACITY);
        assert!(failed_with(&action, Failure::OpcodeMismatch));
        assert!(cell.is_idle());
    }
}

#[test]
fn sign_declined() {
    let mut cell = ParsersState::default();
    sign_at_prompt(&mut cell);
    let action = deliver(&mut cell, Event::Confirmed(false), CAPACITY);
    assert!(failed_with(&action, Failure::Declined));
    assert_eq!(Failure::Declined.kind(), FailureKind::Reject);
    assert_eq!(Failure::Declined.status(), Status::Rejected);
    assert!(cell.is_idle());
    let action = deliver(&mut cell, Event::Signed(Some(&[1, 2, 3])), CAPACITY);
    assert!(failed_with(&action, Failure::NoTask));
}

#[test]
fn sign_signing_failure() {
    let mut cell = ParsersState::default();
    sign_at_prompt(&mut cell);
    assert!(matches!(
        deliver(&mut cell, Event::Confirmed(true), CAPACITY),
        Action::Sign { digest: DIGEST }
    ));
    let action = deliver(&mut cell, Event::Signed(None), CAPACITY);
    assert!(failed_with(&action, Failure::CryptoFailure));
    assert!(cell.is_idle());
}

#[test]
fn sign_derivation_failure() {
    let mut cell = ParsersState::default();
    let _ = handle_apdu(&mut cell, SIGN, &[0, 0, 0, 0], CAPACITY);
    let _ = handle_apdu(&mut cell, SIGN, &[0], CAPACITY);
    assert_eq!(busy_with_sign(&cell), Some(SignStep::AwaitKey));
    let action = deliver(&mut cell, Event::KeyDerived(None), CAPACITY);
    assert!(failed_with(&action, Failure::CryptoFailure));
    assert!(cell.is_idle());
}

#[test]
fn sign_signature_too_long_is_a_fatal_fault() {
    let mut cell = ParsersState::default();
    sign_at_prompt(&mut cell);
    let _ = deliver(&mut cell, Event::Confirmed(true), CAPACITY);
    let action = deliver(&mut cell, Event::Signed(Some(&[0u8; 129])), CAPACITY);
    assert!(failed_with(&action, Failure::Overflow));
    assert_eq!(Failure::Overflow.kind(), FailureKind::FatalFault);
    assert!(cell.is_idle());
}

#[test]
fn sign_signature_of_full_capacity() {
    let mut cell = ParsersState::default();
    sign_at_prompt(&mut cell);
    let _ = deliver(&mut cell, Event::Confirmed(true), CAPACITY);
    let signature = [0x11u8; 128];
    match deliver(&mut cell, Event::Signed(Some(&signature)), CAPACITY) {
        Action::Respond { bytes, last } => {
            assert!(last);
            assert_eq!(bytes.as_slice(), &signature[..]);
        },
        other => panic!("expected the signature, got {:?}", other),
    }
}

#[test]
fn sign_empty_signature() {
    let mut cell = ParsersState::default();
    sign_at_prompt(&mut cell);
    let _ = deliver(&mut cell, Event::Confirmed(true), CAPACITY);
    match deliver(&mut cell, Event::Signed(Some(&[])), 0) {
        Action::Respond { bytes, last } => {
            assert!(last);
            assert!(bytes.is_empty());
        },
        other => panic!("expected an empty response, got {:?}", other),
    }
    assert!(cell.is_idle());
}

#[test]
fn sign_transaction_with_trailing_data() {
    let mut cell = ParsersState::default();
    let action = handle_apdu(&mut cell, SIGN, &[1, 0, 0, 0, 9, 9], CAPACITY);
    assert!(failed_with(&action, Failure::TrailingData));
    assert!(cell.is_idle());
}

#[test]
fn sign_path_too_long() {
    let mut cell = ParsersState::default();
    let _ = handle_apdu(&mut cell, SIGN, &[0, 0, 0, 0], CAPACITY);
    let action = handle_apdu(&mut cell, SIGN, &[200], CAPACITY);
    assert!(failed_with(&action, Failure::Malformed));
    assert!(cell.is_idle());
}

#[test]
fn long_response_goes_out_in_slices() {
    let mut cell = ParsersState::default();
    get_address_at_prompt(&mut cell);
    let expected = encoded_sample_key();
    let mut received = Vec::new();
    let mut lengths = Vec::new();

    let mut action = deliver(&mut cell, Event::Confirmed(true), 32);
    loop {
        match action {
            Action::Respond { bytes, last } => {
                assert!(bytes.len() <= 32);
                lengths.push(bytes.len());
                received.extend_from_slice(&bytes);
                if last {
                    break;
                }
            },
            other => panic!("expected a slice, got {:?}", other),
        }
        assert_eq!(busy_with_get_address(&cell), Some(GetAddressStep::Emit));
        action = handle_apdu(&mut cell, GET_PUBKEY, &[], 32);
    }
    assert_eq!(lengths, vec![32, 32, 1]);
    assert_eq!(received, expected);
    assert!(cell.is_idle());
}

#[test]
fn long_signature_goes_out_in_slices() {
    let mut cell = ParsersState::default();
    sign_at_prompt(&mut cell);
    let _ = deliver(&mut cell, Event::Confirmed(true), 50);
    let signature: Vec<u8> = (0..100u8).collect();
    match deliver(&mut cell, Event::Signed(Some(&signature)), 50) {
        Action::Respond { bytes, last } => {
            assert!(!last);
            assert_eq!(bytes.as_slice(), &signature[..50]);
        },
        other => panic!("expected a slice, got {:?}", other),
    }
    assert_eq!(busy_with_sign(&cell), Some(SignStep::Emit));
    match handle_apdu(&mut cell, SIGN, &[0xff], 50) {
        Action::Respond { bytes, last } => {
            assert!(last);
            assert_eq!(bytes.as_slice(), &signature[50..]);
        },
        other => panic!("expected a slice, got {:?}", other),
    }
    assert!(cell.is_idle());
}

#[test]
fn response_without_room_is_a_fatal_fault() {
    let mut cell = ParsersState::default();
    get_address_at_prompt(&mut cell);
    let action = deliver(&mut cell, Event::Confirmed(true), 0);
    assert!(failed_with(&action, Failure::Overflow));
    assert!(cell.is_idle());
}

#[test]
fn interrupted_emission_is_discarded() {
    let mut cell = ParsersState::default();
    get_address_at_prompt(&mut cell);
    let action = deliver(&mut cell, Event::Confirmed(true), 10);
    assert!(matches!(action, Action::Respond { last: false, .. }));
    let action = handle_apdu(&mut cell, SIGN, &[], 10);
    assert!(failed_with(&action, Failure::OpcodeMismatch));
    assert!(cell.is_idle());
}

#[test]
fn empty_first_chunk_is_nothing_received() {
    for opcode in [GET_PUBKEY, SIGN] {
        let mut cell = ParsersState::default();
        let action = handle_apdu(&mut cell, opcode, &[], CAPACITY);
        assert!(failed_with(&action, Failure::NothingReceived));
        assert_eq!(Failure::NothingReceived.status(), Status::NothingReceived);
        assert!(cell.is_idle());
    }
}

#[test]
fn empty_continuation_chunk_makes_no_progress() {
    let mut cell = ParsersState::default();
    let _ = handle_apdu(&mut cell, GET_PUBKEY, &[1, 7], CAPACITY);
    let action = handle_apdu(&mut cell, GET_PUBKEY, &[], CAPACITY);
    assert!(matches!(action, Action::NeedMore { observed: 0 }));
    match handle_apdu(&mut cell, GET_PUBKEY, &[0, 0, 0], CAPACITY) {
        Action::DeriveKey { path } => assert_eq!(path.as_slice(), &[7]),
        other => panic!("expected a derivation request, got {:?}", other),
    }
}

#[test]
fn unknown_opcode_fails_closed() {
    let mut cell = ParsersState::default();
    for opcode in [0u8, 1, 5, 0x80, 0xfd] {
        let action = handle_apdu(&mut cell, opcode, &[1, 2, 3], CAPACITY);
        assert!(failed_with(&action, Failure::UnknownOpcode));
        assert!(cell.is_idle());
    }
}

#[test]
fn opcodes_without_a_task() {
    let mut cell = ParsersState::default();
    assert!(matches!(handle_apdu(&mut cell, 4, &[], CAPACITY), Action::ShowMenu));
    assert!(cell.is_idle());
    assert!(matches!(handle_apdu(&mut cell, 0xfe, &[], CAPACITY), Action::ShowPrivateKey));
    assert!(cell.is_idle());
    assert!(matches!(handle_apdu(&mut cell, 0xff, &[1], CAPACITY), Action::Exit));
    assert!(cell.is_idle());
}

#[test]
fn result_without_a_task() {
    let mut cell = ParsersState::default();
    let action = deliver(&mut cell, Event::Confirmed(true), CAPACITY);
    assert!(failed_with(&action, Failure::NoTask));
    assert_eq!(Failure::NoTask.kind(), FailureKind::ProtocolViolation);
    assert!(cell.is_idle());
    let action = deliver(&mut cell, Event::Chunk(&[1, 2]), CAPACITY);
    assert!(failed_with(&action, Failure::NoTask));
}

#[test]
fn poll_of_a_task_that_is_not_there() {
    let mut cell = ParsersState::default();
    let action = GetAddress.poll(&mut cell, Event::Chunk(&[0]), CAPACITY);
    assert!(failed_with(&action, Failure::NoTask));
    assert!(cell.is_idle());

    Sign.init(&mut cell);
    let action = GetAddress.poll(&mut cell, Event::Chunk(&[0]), CAPACITY);
    assert!(failed_with(&action, Failure::NoTask));
    assert!(cell.is_idle());

    GetAddress.init(&mut cell);
    let action = Sign.poll(&mut cell, Event::Chunk(&[0, 0, 0, 0]), CAPACITY);
    assert!(failed_with(&action, Failure::NoTask));
    assert!(cell.is_idle());
}

#[test]
fn init_replaces_what_the_cell_held() {
    let mut cell = ParsersState::default();
    let _ = handle_apdu(&mut cell, SIGN, &[9, 0, 0, 0, 1], CAPACITY);
    GetAddress.init(&mut cell);
    assert_eq!(busy_with_get_address(&cell), Some(GetAddressStep::ParsePath));
    match GetAddress.poll(&mut cell, Event::Chunk(&[1, 3, 0, 0, 0]), CAPACITY) {
        Action::DeriveKey { path } => assert_eq!(path.as_slice(), &[3]),
        other => panic!("expected a derivation request, got {:?}", other),
    }
    Sign.init(&mut cell);
    assert_eq!(busy_with_sign(&cell), Some(SignStep::ParseTransaction));
}

#[test]
fn event_out_of_turn_fails_the_command() {
    let mut cell = ParsersState::default();
    let _ = handle_apdu(&mut cell, GET_PUBKEY, &[1], CAPACITY);
    let action = deliver(&mut cell, Event::Confirmed(true), CAPACITY);
    assert!(failed_with(&action, Failure::UnexpectedEvent));
    assert!(cell.is_idle());

    get_address_at_prompt(&mut cell);
    let action = handle_apdu(&mut cell, GET_PUBKEY, &[1], CAPACITY);
    assert!(failed_with(&action, Failure::UnexpectedEvent));
    assert!(cell.is_idle());

    sign_at_prompt(&mut cell);
    let action = deliver(&mut cell, Event::Signed(Some(&[1])), CAPACITY);
    assert!(failed_with(&action, Failure::UnexpectedEvent));
    assert!(cell.is_idle());

    let _ = handle_apdu(&mut cell, SIGN, &[0, 0, 0, 0], CAPACITY);
    let action = deliver(&mut cell, Event::Digest(DIGEST), CAPACITY);
    assert!(failed_with(&action, Failure::UnexpectedEvent));
    assert!(cell.is_idle());
}

#[test]
fn cancel_discards_the_task() {
    let mut cell = ParsersState::default();
    sign_at_prompt(&mut cell);
    cell.cancel();
    assert!(cell.is_idle());
    let action = deliver(&mut cell, Event::Confirmed(true), CAPACITY);
    assert!(failed_with(&action, Failure::NoTask));
}

/// Everything an action says, for comparing two runs.
fn described(action: &Action) -> String {
    format!("{:?}", action)
}

#[test]
fn a_failure_leaves_no_trace() {
    let start = [1u8, 0x2c, 0, 0, 0x80];
    let mut fresh = ParsersState::default();
    let expected = described(&handle_apdu(&mut fresh, GET_PUBKEY, &start, CAPACITY));

    let mut after_mismatch = ParsersState::default();
    let _ = handle_apdu(&mut after_mismatch, SIGN, &[9, 0, 0, 0, 1, 2, 3], CAPACITY);
    let _ = handle_apdu(&mut after_mismatch, GET_PUBKEY, &[4, 1, 2], CAPACITY);
    assert!(after_mismatch.is_idle());

    let mut after_reject = ParsersState::default();
    let _ = handle_apdu(&mut after_reject, GET_PUBKEY, &[3, 1, 2, 3, 4, 5], CAPACITY);
    let _ = handle_apdu(&mut after_reject, GET_PUBKEY, &[6, 7, 8, 9, 9, 9, 9, 9, 9], CAPACITY);
    assert!(after_reject.is_idle());

    let mut after_decline = ParsersState::default();
    sign_at_prompt(&mut after_decline);
    let _ = deliver(&mut after_decline, Event::Confirmed(false), CAPACITY);
    assert!(after_decline.is_idle());

    let mut after_empty = ParsersState::default();
    let _ = handle_apdu(&mut after_empty, SIGN, &[], CAPACITY);

    for mut cell in [after_mismatch, after_reject, after_decline, after_empty] {
        let action = handle_apdu(&mut cell, GET_PUBKEY, &start, CAPACITY);
        assert_eq!(described(&action), expected);
        assert!(matches!(action, Action::DeriveKey { .. }));
        let action = deliver(&mut cell, Event::KeyDerived(Some(sample_key())), CAPACITY);
        assert!(matches!(action, Action::Confirm(_)));
        match deliver(&mut cell, Event::Confirmed(true), CAPACITY) {
            Action::Respond { bytes, last } => {
                assert!(last);
                assert_eq!(bytes.as_slice(), encoded_sample_key().as_slice());
            },
            other => panic!("expected the response, got {:?}", other),
        }
    }
}

#[test]
fn top_level_parse_of_one_chunk() {
    let node = bip32_key();
    let mut state = node.start();
    assert!(matches!(run_parser_apdu(&node, &mut state, &[2, 1, 0]), Parse::NeedMore));
    assert_eq!(state.done(), 0);
    match run_parser_apdu(&node, &mut state, &[0, 0, 2, 0, 0, 0]) {
        Parse::Done(items) => assert_eq!(items, vec![Value::Int(1), Value::Int(2)]),
        other => panic!("expected the path, got {:?}", other),
    }
    assert!(matches!(
        run_parser_apdu(&node, &mut state, &[0, 0]),
        Parse::Fail(Failure::TrailingData)
    ));
    assert!(matches!(
        run_parser_apdu(&node, &mut state, &[11]),
        Parse::Fail(Failure::Malformed)
    ));
    let node = transaction();
    let mut state = node.start();
    match run_parser_apdu(&node, &mut state, &[1, 0, 0, 0, 0x33]) {
        Parse::Done(items) => assert!(items.is_empty()),
        other => panic!("expected the end of the transaction, got {:?}", other),
    }
}

#[test]
fn key_encoding() {
    let key = sample_key().public_key;
    let encoded = encode_key(&key).unwrap();
    assert_eq!(encoded.len(), 65);
    assert_eq!(encoded[0], 65);
    assert_eq!(&encoded[1..], &key.w[1..]);

    let short = PublicKey { w: key.w, w_len: 33 };
    let encoded = encode_key(&short).unwrap();
    assert_eq!(encoded.len(), 33);
    assert_eq!(encoded[0], 33);
    assert_eq!(&encoded[1..], &key.w[1..33]);

    let marker_only = PublicKey { w: key.w, w_len: 1 };
    assert_eq!(encode_key(&marker_only).unwrap().as_slice(), &[1]);

    for w_len in [0u32, 66, 128] {
        let refused = encode_key(&PublicKey { w: key.w, w_len });
        assert!(matches!(refused, Err(Failure::CryptoFailure)));
    }
    for w_len in [129u32, 300, u32::MAX] {
        let refused = encode_key(&PublicKey { w: key.w, w_len });
        assert!(matches!(refused, Err(Failure::Overflow)));
    }
}

fn segments(values: &[u64]) -> Vec<Value> {
    values.iter().map(|value| Value::Int(*value)).collect()
}

#[test]
fn path_building() {
    let path = make_path(&segments(&[0x8000_002c, 0, u32::MAX as u64])).unwrap();
    assert_eq!(path.as_slice(), &[0x8000_002c, 0, u32::MAX]);
    assert!(make_path(&vec![]).unwrap().is_empty());
    assert_eq!(make_path(&segments(&[5; 10])).unwrap().as_slice(), &[5; 10]);
    assert!(make_path(&segments(&[5; 11])).is_none());
    assert!(make_path(&segments(&[1, u32::MAX as u64 + 1])).is_none());
    assert!(make_path(&vec![Value::Int(1), Value::List(vec![])]).is_none());
}

#[test]
fn slices_of_a_response() {
    let mut response = ArrayVec::<u8, 128>::new();
    for byte in 0..100u8 {
        response.push(byte);
    }
    let (action, sent) = emit(&response, 0, 40);
    assert_eq!(sent, 40);
    match action {
        Action::Respond { bytes, last } => {
            assert!(!last);
            assert_eq!(bytes.as_slice(), &response[..40]);
        },
        other => panic!("expected a slice, got {:?}", other),
    }
    let (action, sent) = emit(&response, 80, 40);
    assert_eq!(sent, 100);
    match action {
        Action::Respond { bytes, last } => {
            assert!(last);
            assert_eq!(bytes.as_slice(), &response[80..]);
        },
        other => panic!("expected a slice, got {:?}", other),
    }
    let (action, sent) = emit(&response, 60, 40);
    assert_eq!(sent, 100);
    assert!(matches!(action, Action::Respond { last: true, .. }));
    let (action, sent) = emit(&response, 100, 40);
    assert_eq!(sent, 100);
    match action {
        Action::Respond { bytes, last } => {
            assert!(last);
            assert!(bytes.is_empty());
        },
        other => panic!("expected an empty slice, got {:?}", other),
    }
    let (action, sent) = emit(&response, 10, 0);
    assert_eq!(sent, 10);
    assert!(failed_with(&action, Failure::Overflow));
    let (action, sent) = emit(&response, 500, 40);
    assert_eq!(sent, 100);
    match action {
        Action::Respond { bytes, last } => {
            assert!(last);
            assert!(bytes.is_empty());
        },
        other => panic!("expected an empty slice, got {:?}", other),
    }
}

#[test]
fn tasks_start_at_their_first_step() {
    assert_eq!(GetAddressTask::new().step(), GetAddressStep::ParsePath);
    assert_eq!(SignTask::new().step(), SignStep::ParseTransaction);
}

#[test]
fn run_advances_a_task_outside_the_cell() {
    let (task, action) = GetAddress.run(GetAddressTask::new(), Event::Chunk(&[0]), CAPACITY);
    match action {
        Action::DeriveKey { path } => assert!(path.is_empty()),
        other => panic!("expected a derivation request, got {:?}", other),
    }
    let task = task.unwrap();
    assert_eq!(task.step(), GetAddressStep::AwaitKey);
    let (task, action) = GetAddress.run(task, Event::KeyDerived(None), CAPACITY);
    assert!(task.is_none());
    assert!(failed_with(&action, Failure::CryptoFailure));

    let (task, action) = Sign.run(SignTask::new(), Event::Chunk(&[1, 0, 0]), CAPACITY);
    assert!(matches!(action, Action::NeedMore { observed: 3 }));
    let task = task.unwrap();
    assert_eq!(task.step(), SignStep::ParseTransaction);
    let (task, action) = Sign.run(task, Event::Chunk(&[0, 0x77]), CAPACITY);
    assert!(matches!(action, Action::NeedMore { observed: 2 }));
    assert_eq!(task.unwrap().step(), SignStep::ParsePath);
}

#[test]
fn actions_that_end_a_command() {
    assert!(ends_command(&Action::Fail(Failure::Declined)));
    assert!(ends_command(&Action::Respond { bytes: ArrayVec::new(), last: true }));
    assert!(!ends_command(&Action::Respond { bytes: ArrayVec::new(), last: false }));
    assert!(!ends_command(&Action::NeedMore { observed: 0 }));
    assert!(!ends_command(&Action::Sign { digest: DIGEST }));
    assert!(!ends_command(&Action::FinishDigest));
    assert!(!ends_command(&Action::ShowMenu));
}

/// A small rolling checksum standing in for a digest.
fn checksum(acc: u64, bytes: &[u8]) -> u64 {
    bytes.iter().fold(acc, |acc, byte| acc.wrapping_mul(1_099_511_628_211) ^ (*byte as u64))
}

#[test]
fn digest_over_observed_bytes_ignores_chunking() {
    let mut payload = vec![0x30u8, 0, 0, 0];
    payload.extend((0..0x30u8).map(|i| i.wrapping_mul(11).wrapping_add(3)));
    let one_pass = checksum(7, &payload);
    for size in 1..=payload.len() {
        let mut cell = ParsersState::default();
        let mut acc = 7;
        for chunk in payload.chunks(size) {
            match handle_apdu(&mut cell, SIGN, chunk, CAPACITY) {
                Action::NeedMore { observed } => {
                    assert_eq!(observed, chunk.len());
                    acc = checksum(acc, &chunk[..observed]);
                },
                other => panic!("expected a request for more, got {:?}", other),
            }
        }
        assert_eq!(acc, one_pass, "chunks of {}", size);
        assert_eq!(busy_with_sign(&cell), Some(SignStep::ParsePath));
    }
}

#[test]
fn empty_chunks_in_a_transaction_are_harmless() {
    let payload = [3u8, 0, 0, 0, 0xa, 0xb, 0xc];
    let chunks: [&[u8]; 6] = [&payload[..2], &[], &payload[2..5], &[], &payload[5..], &[]];
    let mut cell = ParsersState::default();
    let mut observed = Vec::new();
    for chunk in chunks {
        match handle_apdu(&mut cell, SIGN, chunk, CAPACITY) {
            Action::NeedMore { observed: count } => observed.extend_from_slice(&chunk[..count]),
            other => panic!("expected a request for more, got {:?}", other),
        }
    }
    assert_eq!(observed, payload);
    assert_eq!(busy_with_sign(&cell), Some(SignStep::ParsePath));
}

#[test]
fn key_path_ignores_chunking() {
    let payload = [3u8, 1, 0, 0, 0x80, 2, 0, 0, 0, 0xff, 0xff, 0xff, 0xff];
    for first in 1..payload.len() {
        for second in first..payload.len() {
            let mut cell = ParsersState::default();
            let chunks = [&payload[..first], &payload[first..second], &payload[second..]];
            let mut last = None;
            for chunk in chunks {
                let action = handle_apdu(&mut cell, GET_PUBKEY, chunk, CAPACITY);
                let more = matches!(action, Action::NeedMore { observed: 0 });
                last = Some(action);
                if !more {
                    break;
                }
            }
            match last {
                Some(Action::DeriveKey { path }) => {
                    assert_eq!(path.as_slice(), &[0x8000_0001, 2, u32::MAX])
                },
                other => panic!("cuts at {} and {}: got {:?}", first, second, other),
            }
        }
    }
}
