use gravity_relay::error::RelayError;
use gravity_relay::instruction::{
    allocation_by_instruction_index, unpack_byte_array, RelayContractInstruction, UNLOCK_ACTION,
};
use gravity_relay::processor::{AccountMeta, ProcessOutcome, RelayProcessor};
use gravity_relay::state::{RelayContract, RequestStatus, WrapRequest, STATE_LEN};

const O1: [u8; 32] = [1u8; 32];
const O2: [u8; 32] = [2u8; 32];
const MINT: [u8; 32] = [3u8; 32];
const TOKEN: [u8; 32] = [4u8; 32];
const NEBULA: [u8; 32] = [5u8; 32];
const INIT: [u8; 32] = [6u8; 32];
const HOLDER: [u8; 32] = [7u8; 32];
const RECEIVER: [u8; 32] = [8u8; 32];
const PDA: [u8; 32] = [9u8; 32];
const STRANGER: [u8; 32] = [10u8; 32];
const R1: [u8; 16] = [11u8; 16];

fn meta(key: [u8; 32], is_signer: bool) -> AccountMeta {
    AccountMeta { key, is_signer }
}

fn apply(data: &mut Vec<u8>, outcome: &ProcessOutcome) {
    data[..outcome.state.len()].copy_from_slice(&outcome.state);
}

fn init_accounts() -> Vec<AccountMeta> {
    vec![meta(INIT, true), meta(NEBULA, false)]
}

fn initialized(oracles: Vec<[u8; 32]>) -> Vec<u8> {
    let mut data = vec![0u8; 3000];
    let out = RelayProcessor::process_init_relay_contract(
        &init_accounts(),
        &data,
        &TOKEN,
        &MINT,
        &NEBULA,
        &oracles,
    )
    .unwrap();
    assert!(out.transfer.is_none());
    apply(&mut data, &out);
    data
}

fn create_accounts() -> Vec<AccountMeta> {
    vec![
        meta(INIT, true),
        meta(NEBULA, false),
        meta(TOKEN, false),
        meta(MINT, false),
        meta(HOLDER, false),
        meta(RECEIVER, false),
        meta(PDA, false),
    ]
}

fn attach_accounts(signer: [u8; 32]) -> Vec<AccountMeta> {
    vec![
        meta(signer, true),
        meta(NEBULA, false),
        meta(TOKEN, false),
        meta(MINT, false),
        meta(RECEIVER, false),
        meta(PDA, false),
        meta(STRANGER, false),
        meta(HOLDER, false),
    ]
}

fn attestation(action: u8, id: [u8; 16], amount: u64, receiver: [u8; 32]) -> Vec<u8> {
    let mut b = vec![action];
    b.extend_from_slice(&id);
    b.extend_from_slice(&amount.to_le_bytes());
    b.extend_from_slice(&receiver);
    b
}

fn load(data: &[u8]) -> RelayContract {
    RelayContract::unpack(&data[..STATE_LEN]).unwrap()
}

fn find_status(c: &RelayContract, id: [u8; 16]) -> Option<RequestStatus> {
    c.swap_status.iter().find(|e| e.0 == id).map(|e| e.1)
}

#[test]
fn scenario_init_create_attach() {
    let mut data = initialized(vec![O1, O2]);
    let c = load(&data);
    assert!(c.is_state_initialized);
    assert_eq!(c.oracles, vec![O1, O2]);
    assert_eq!(c.token_mint, MINT);
    assert_eq!(c.token_address, TOKEN);
    assert_eq!(c.initializer_pubkey, INIT);

    let amount = spl_token::ui_amount_to_amount(5.0, 2);
    assert_eq!(amount, 500);
    let out = RelayProcessor::process_create_transfer_unwrap_request(
        &create_accounts(),
        &data,
        &R1,
        amount,
        &RECEIVER,
    )
    .unwrap();
    let t = out.transfer.unwrap();
    assert_eq!(t.amount, 500);
    assert_eq!(t.source, HOLDER);
    assert_eq!(t.destination, RECEIVER);
    assert_eq!(t.token_program, TOKEN);
    assert_eq!(t.authority, PDA);
    apply(&mut data, &out);
    let c = load(&data);
    let req = c.requests.iter().find(|e| e.0 == R1).unwrap().1;
    assert_eq!(req.amount, 500);
    assert_eq!(req.origin_address, HOLDER);
    assert_eq!(find_status(&c, R1), Some(RequestStatus::New));
    assert_eq!(*c.requests_queue.last().unwrap(), R1);

    let att = attestation(UNLOCK_ACTION, R1, 500, RECEIVER);
    let before = data.clone();
    let denied = RelayProcessor::process_attach_value(&attach_accounts(STRANGER), &data, &att);
    assert_eq!(denied.err(), Some(RelayError::AccessDenied));
    assert_eq!(data, before);

    let out = RelayProcessor::process_attach_value(&attach_accounts(O1), &data, &att).unwrap();
    let t = out.transfer.unwrap();
    assert_eq!(t.amount, 500);
    assert_eq!(t.source, HOLDER);
    assert_eq!(t.destination, RECEIVER);
    assert_eq!(t.authority, PDA);
    apply(&mut data, &out);
    let c = load(&data);
    assert_eq!(find_status(&c, R1), Some(RequestStatus::Success));

    let again = RelayProcessor::process_attach_value(&attach_accounts(O1), &data, &att);
    assert_eq!(again.err(), Some(RelayError::RequestIDIsAlreadyBeingProcessed));
}

#[test]
fn attach_other_action_moves_nothing() {
    let data = initialized(vec![O1]);
    let att = attestation(b'm', R1, 500, RECEIVER);
    let out = RelayProcessor::process_attach_value(&attach_accounts(O1), &data, &att).unwrap();
    assert!(out.transfer.is_none());
    assert_eq!(&out.state[..], &data[..out.state.len()]);
}

#[test]
fn attach_errors() {
    let data = initialized(vec![O1]);
    let att = attestation(UNLOCK_ACTION, R1, 500, RECEIVER);
    let short = RelayProcessor::process_attach_value(&attach_accounts(O1), &data, &att[..56].to_vec());
    assert_eq!(short.err(), Some(RelayError::ByteArrayUnpackFailed));
    let wrong = attestation(UNLOCK_ACTION, R1, 500, STRANGER);
    let r = RelayProcessor::process_attach_value(&attach_accounts(O1), &data, &wrong);
    assert_eq!(r.err(), Some(RelayError::InvalidReceiver));
    let mut accounts = attach_accounts(O1);
    accounts[3].key = STRANGER;
    let r = RelayProcessor::process_attach_value(&accounts, &data, &att);
    assert_eq!(r.err(), Some(RelayError::InvalidTokenMint));
    let r = RelayProcessor::process_attach_value(&attach_accounts(O1)[..7], &data, &att);
    assert_eq!(r.err(), Some(RelayError::NotEnoughAccountKeys));
    let mut accounts = attach_accounts(O1);
    accounts[0].is_signer = false;
    let r = RelayProcessor::process_attach_value(&accounts, &data, &att);
    assert_eq!(r.err(), Some(RelayError::MissingRequiredSignature));
}

#[test]
fn second_init_is_refused() {
    let data = initialized(vec![O1, O2]);
    let r = RelayProcessor::process_init_relay_contract(
        &init_accounts(),
        &data,
        &MINT,
        &TOKEN,
        &NEBULA,
        &vec![],
    );
    assert_eq!(r.err(), Some(RelayError::AlreadyInitialized));
}

#[test]
fn init_errors() {
    let data = vec![0u8; 3000];
    let r = RelayProcessor::process_init_relay_contract(
        &init_accounts()[..1],
        &data,
        &TOKEN,
        &MINT,
        &NEBULA,
        &vec![],
    );
    assert_eq!(r.err(), Some(RelayError::NotEnoughAccountKeys));
    let accounts = vec![meta(INIT, false), meta(NEBULA, false)];
    let r = RelayProcessor::process_init_relay_contract(&accounts, &data, &TOKEN, &MINT, &NEBULA, &vec![]);
    assert_eq!(r.err(), Some(RelayError::MissingRequiredSignature));
    let small = vec![0u8; 2999];
    let r = RelayProcessor::process_init_relay_contract(&init_accounts(), &small, &TOKEN, &MINT, &NEBULA, &vec![]);
    assert_eq!(r.err(), Some(RelayError::InvalidAccountData));
    let many = vec![O1; 58];
    let r = RelayProcessor::process_init_relay_contract(&init_accounts(), &data, &TOKEN, &MINT, &NEBULA, &many);
    assert_eq!(r.err(), Some(RelayError::StateOverflow));
    let most = vec![O1; 57];
    let out = RelayProcessor::process_init_relay_contract(&init_accounts(), &data, &TOKEN, &MINT, &NEBULA, &most)
        .unwrap();
    assert_eq!(out.state.len(), 145 + 32 * 57);
}

#[test]
fn create_errors() {
    let data = initialized(vec![O1]);
    let mut accounts = create_accounts();
    accounts[2].key = STRANGER;
    let r = RelayProcessor::process_create_transfer_unwrap_request(&accounts, &data, &R1, 5, &RECEIVER);
    assert_eq!(r.err(), Some(RelayError::InvalidInputToken));
    let mut accounts = create_accounts();
    accounts[3].key = STRANGER;
    let r = RelayProcessor::process_create_transfer_unwrap_request(&accounts, &data, &R1, 5, &RECEIVER);
    assert_eq!(r.err(), Some(RelayError::InvalidTokenMint));
    let empty = vec![0u8; 3000];
    let r = RelayProcessor::process_create_transfer_unwrap_request(&create_accounts(), &empty, &R1, 5, &RECEIVER);
    assert_eq!(r.err(), Some(RelayError::UninitializedAccount));
    let junk = vec![0xffu8; 3000];
    let r = RelayProcessor::process_create_transfer_unwrap_request(&create_accounts(), &junk, &R1, 5, &RECEIVER);
    assert_eq!(r.err(), Some(RelayError::InvalidAccountData));
}

#[test]
fn duplicate_request_is_refused() {
    let mut data = initialized(vec![O1]);
    let out = RelayProcessor::process_create_transfer_unwrap_request(&create_accounts(), &data, &R1, 7, &RECEIVER)
        .unwrap();
    apply(&mut data, &out);
    let r = RelayProcessor::process_create_transfer_unwrap_request(&create_accounts(), &data, &R1, 9, &RECEIVER);
    assert_eq!(r.err(), Some(RelayError::RequestIDIsAlreadyBeingProcessed));
    let c = load(&data);
    assert_eq!(c.requests.len(), 1);
    assert_eq!(c.requests[0].1.amount, 7);
}

fn empty_contract() -> RelayContract {
    RelayContract {
        nebula_address: NEBULA,
        token_address: TOKEN,
        token_mint: MINT,
        initializer_pubkey: INIT,
        oracles: vec![O1],
        swap_status: vec![],
        requests: vec![],
        is_state_initialized: true,
        requests_queue: vec![],
    }
}

#[test]
fn request_ceiling() {
    let mut c = empty_contract();
    for i in 0..100u8 {
        let mut id = [0u8; 16];
        id[0] = i;
        c.create_transfer_wrap_request(&id, 1, &HOLDER, &RECEIVER).unwrap();
    }
    assert_eq!(c.unprocessed_burn_requests(), 100);
    let r = c.create_transfer_wrap_request(&[200u8; 16], 1, &HOLDER, &RECEIVER);
    assert_eq!(r, Err(RelayError::TransferRequestsCountLimit));
    assert_eq!(c.requests.len(), 100);
    assert_eq!(c.requests_queue.len(), 100);
    let mut d = empty_contract();
    d.create_transfer_wrap_request(&R1, 3, &HOLDER, &RECEIVER).unwrap();
    let r = d.create_transfer_wrap_request(&R1, 4, &HOLDER, &RECEIVER);
    assert_eq!(r, Err(RelayError::RequestIDIsAlreadyBeingProcessed));
    assert_eq!(d.requests[0].1.amount, 3);
}

fn same(a: &RelayContract, b: &RelayContract) {
    assert_eq!(a.nebula_address, b.nebula_address);
    assert_eq!(a.token_address, b.token_address);
    assert_eq!(a.token_mint, b.token_mint);
    assert_eq!(a.initializer_pubkey, b.initializer_pubkey);
    assert_eq!(a.oracles, b.oracles);
    assert_eq!(a.swap_status, b.swap_status);
    assert_eq!(a.requests.len(), b.requests.len());
    for (x, y) in a.requests.iter().zip(b.requests.iter()) {
        assert_eq!(x.0, y.0);
        assert_eq!(x.1.token_mint, y.1.token_mint);
        assert_eq!(x.1.origin_address, y.1.origin_address);
        assert_eq!(x.1.destination_address, y.1.destination_address);
        assert_eq!(x.1.destination_chain, y.1.destination_chain);
        assert_eq!(x.1.amount, y.1.amount);
    }
    assert_eq!(a.is_state_initialized, b.is_state_initialized);
    assert_eq!(a.requests_queue, b.requests_queue);
}

#[test]
fn round_trip_oracle_sizes() {
    for n in [0usize, 1, 57] {
        let mut c = empty_contract();
        c.oracles = (0..n).map(|i| [i as u8; 32]).collect();
        let bytes = c.pack();
        assert_eq!(bytes.len(), 145 + 32 * n);
        let mut padded = bytes.clone();
        padded.extend_from_slice(&[0u8; 40]);
        same(&RelayContract::unpack(&bytes).unwrap(), &c);
        same(&RelayContract::unpack(&padded).unwrap(), &c);
    }
}

#[test]
fn round_trip_with_requests() {
    let mut c = empty_contract();
    c.requests.push((R1, WrapRequest {
        token_mint: MINT,
        origin_address: HOLDER,
        destination_address: RECEIVER,
        destination_chain: [1, 2, 3],
        amount: 0x0102030405060708,
    }));
    c.swap_status.push((R1, RequestStatus::Returned));
    c.swap_status.push(([12u8; 16], RequestStatus::Rejected));
    c.requests_queue.push(R1);
    let bytes = c.pack();
    assert_eq!(bytes.len(), 145 + 32 + 17 * 2 + 123 + 16);
    same(&RelayContract::unpack(&bytes).unwrap(), &c);
    assert!(RelayContract::unpack(&bytes[..bytes.len() - 1]).is_err());
}

#[test]
fn encoding_layout() {
    let c = empty_contract();
    let b = c.pack();
    assert_eq!(&b[0..32], &NEBULA);
    assert_eq!(&b[32..64], &TOKEN);
    assert_eq!(&b[64..96], &MINT);
    assert_eq!(&b[96..128], &INIT);
    assert_eq!(&b[128..132], &[1, 0, 0, 0]);
    assert_eq!(b[140 + 32], 1);
}

#[test]
fn duplicate_keys_do_not_decode() {
    let mut c = empty_contract();
    c.swap_status.push((R1, RequestStatus::New));
    let mut b = c.pack();
    // a second status entry under the same identifier, after the first one
    b[164] = 2;
    let mut entry = R1.to_vec();
    entry.push(1);
    let at = 168 + 17;
    for (k, x) in entry.iter().enumerate() {
        b.insert(at + k, *x);
    }
    assert_eq!(RelayContract::unpack(&b).err(), Some(RelayError::InvalidAccountData));
}

#[test]
fn allocation_table() {
    assert_eq!(allocation_by_instruction_index(0, None).unwrap(), vec![32, 32, 32, 1]);
    assert_eq!(allocation_by_instruction_index(1, None).unwrap(), vec![8, 32, 16, 1]);
    assert_eq!(allocation_by_instruction_index(2, Some(3)).unwrap(), vec![64]);
    assert_eq!(allocation_by_instruction_index(3, None).unwrap(), vec![64]);
    assert_eq!(allocation_by_instruction_index(4, None).unwrap(), vec![32, 32]);
    for i in [5usize, 6, 255, usize::MAX] {
        assert_eq!(allocation_by_instruction_index(i, None), Err(RelayError::InvalidInstructionIndex));
    }
}

#[test]
fn instruction_codec() {
    for op in [5u8, 9, 255] {
        let r = RelayContractInstruction::unpack(&[op, 0, 0]);
        assert!(matches!(r, Err(RelayError::InvalidInstructionIndex)));
    }
    assert!(matches!(RelayContractInstruction::unpack(&[]), Err(RelayError::InvalidInstructionData)));
    assert!(matches!(RelayContractInstruction::unpack(&[3]), Err(RelayError::InvalidInstructionData)));
    assert!(matches!(RelayContractInstruction::unpack(&[4]), Err(RelayError::InvalidInstructionData)));

    let mut init = vec![0u8];
    init.extend_from_slice(&TOKEN);
    init.extend_from_slice(&MINT);
    init.extend_from_slice(&NEBULA);
    init.push(2);
    init.extend_from_slice(&O1);
    assert!(matches!(RelayContractInstruction::unpack(&init), Err(RelayError::InvalidInstructionData)));
    init.extend_from_slice(&O2);
    match RelayContractInstruction::unpack(&init).unwrap() {
        RelayContractInstruction::InitContract { token_address, token_mint, nebula_address, oracles } => {
            assert_eq!(token_address, TOKEN);
            assert_eq!(token_mint, MINT);
            assert_eq!(nebula_address, NEBULA);
            assert_eq!(oracles, vec![O1, O2]);
        }
        _ => panic!("wrong variant"),
    }

    let mut create = vec![1u8];
    create.extend_from_slice(&5.0f64.to_bits().to_le_bytes());
    create.extend_from_slice(&RECEIVER);
    create.extend_from_slice(&R1);
    match RelayContractInstruction::unpack(&create).unwrap() {
        RelayContractInstruction::CreateTransferUnwrapRequest { request_id, amount, receiver } => {
            assert_eq!(request_id, R1);
            assert_eq!(f64::from_bits(amount), 5.0);
            assert_eq!(receiver, RECEIVER);
        }
        _ => panic!("wrong variant"),
    }
    assert!(matches!(RelayContractInstruction::unpack(&create[..56]), Err(RelayError::InvalidInstructionData)));

    match RelayContractInstruction::unpack(&[2u8, 7, 8, 9]).unwrap() {
        RelayContractInstruction::AttachValue { byte_data } => assert_eq!(byte_data, vec![7, 8, 9]),
        _ => panic!("wrong variant"),
    }
}

#[test]
fn attestation_fields() {
    let att = attestation(UNLOCK_ACTION, R1, 0x1122334455667788, RECEIVER);
    let op = unpack_byte_array(&att).unwrap();
    assert_eq!(op.action, b'u');
    assert_eq!(op.swap_id, R1);
    assert_eq!(op.amount, 0x1122334455667788);
    assert_eq!(op.receiver, RECEIVER);
    assert!(matches!(unpack_byte_array(&att[..56]), Err(RelayError::ByteArrayUnpackFailed)));
}

#[test]
fn signer_is_checked_before_account_count() {
    let data = initialized(vec![O1]);
    let att = attestation(UNLOCK_ACTION, R1, 500, RECEIVER);
    let lone = vec![meta(O1, false)];
    let r = RelayProcessor::process_init_relay_contract(&lone, &vec![0u8; 3000], &TOKEN, &MINT, &NEBULA, &vec![]);
    assert_eq!(r.err(), Some(RelayError::MissingRequiredSignature));
    let r = RelayProcessor::process_create_transfer_unwrap_request(&lone, &data, &R1, 5, &RECEIVER);
    assert_eq!(r.err(), Some(RelayError::MissingRequiredSignature));
    let r = RelayProcessor::process_attach_value(&lone, &data, &att);
    assert_eq!(r.err(), Some(RelayError::MissingRequiredSignature));
    let r = RelayProcessor::process_attach_value(&[], &data, &att);
    assert_eq!(r.err(), Some(RelayError::NotEnoughAccountKeys));
    let r = RelayProcessor::process_create_transfer_unwrap_request(&create_accounts()[..6], &data, &R1, 5, &RECEIVER);
    assert_eq!(r.err(), Some(RelayError::NotEnoughAccountKeys));
    let r = RelayProcessor::process_init_relay_contract(&[meta(INIT, true)], &vec![0u8; 3000], &TOKEN, &MINT, &NEBULA, &vec![]);
    assert_eq!(r.err(), Some(RelayError::NotEnoughAccountKeys));
}
