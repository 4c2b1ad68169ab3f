use vstd::prelude::*;
use vstd::slice::slice_subrange;
use crate::bytes::{all_len, bytes_equal, flatten};
use crate::error::RelayError;
use crate::instruction::{port_operation_fields, unpack_byte_array, UNLOCK_ACTION};
use crate::state::{
    count_bytes, decode_state, has_key, keys_unique, status_is, ForeignAddress, Pubkey,
    RelayContract, RelayContractView, RequestId, RequestStatus, MAX_IDLE_REQUESTS_COUNT, STATE_LEN,
};

verus! {

/// Bytes of the contract account that must be zero before it is initialized.
pub const EMPTY_WINDOW_LEN: usize = 3000;

/// Most oracles whose initial state fits in the storage window.
pub const MAX_INIT_ORACLES: usize = 57;

/// What the host runtime tells of one account passed to an instruction.
#[derive(Clone, Copy, Debug)]
pub struct AccountMeta {
    pub key: Pubkey,
    pub is_signer: bool,
}

/// A token movement to be signed by the contract's program-derived address and sent to
/// the token program.
#[derive(Clone, Copy, Debug)]
pub struct TokenTransfer {
    pub token_program: Pubkey,
    pub source: Pubkey,
    pub destination: Pubkey,
    pub authority: Pubkey,
    pub amount: u64,
}

/// What a successful instruction leaves behind: the encoded state, to be written at the
/// start of the contract account, and at most one token movement.
pub struct ProcessOutcome {
    pub state: Vec<u8>,
    pub transfer: Option<TokenTransfer>,
}

/// The outcome as plain values.
pub open spec fn outcome_view(r: Result<ProcessOutcome, RelayError>) -> Result<
    (Seq<u8>, Option<TokenTransfer>),
    RelayError,
> {
    match r {
        Ok(o) => Ok((o.state@, o.transfer)),
        Err(e) => Err(e),
    }
}

/// The initialized state held by a contract account's data.
pub open spec fn load_state(data: Seq<u8>) -> Result<RelayContractView, RelayError> {
    if data.len() < STATE_LEN {
        Err(RelayError::InvalidAccountData)
    } else {
        match decode_state(data.take(STATE_LEN as int)) {
            None => Err(RelayError::InvalidAccountData),
            Some(v) => if v.is_state_initialized {
                Ok(v)
            } else {
                Err(RelayError::UninitializedAccount)
            },
        }
    }
}

/// The bytes that persist a state, refused when they overflow the storage window.
pub open spec fn store_state(v: RelayContractView) -> Result<Seq<u8>, RelayError> {
    if v.encode().len() > STATE_LEN {
        Err(RelayError::StateOverflow)
    } else {
        Ok(v.encode())
    }
}

/// The first `EMPTY_WINDOW_LEN` bytes hold only zeros.
pub open spec fn window_empty(data: Seq<u8>) -> bool {
    forall|i: int| 0 <= i < EMPTY_WINDOW_LEN ==> #[trigger] data[i] == 0
}

/// The state that initialization builds.
pub open spec fn initial_state(
    initializer: Seq<u8>,
    token_address: Seq<u8>,
    token_mint: Seq<u8>,
    nebula_address: Seq<u8>,
    oracles: Seq<Seq<u8>>,
) -> RelayContractView {
    RelayContractView {
        nebula_address,
        token_address,
        token_mint,
        initializer_pubkey: initializer,
        oracles,
        swap_status: Seq::empty(),
        requests: Seq::empty(),
        is_state_initialized: true,
        requests_queue: Seq::empty(),
    }
}

/// Outcome of initialization. Accounts: the signing initializer, the contract account.
pub open spec fn init_result(
    accounts: Seq<AccountMeta>,
    data: Seq<u8>,
    token_address: Seq<u8>,
    token_mint: Seq<u8>,
    nebula_address: Seq<u8>,
    oracles: Seq<Seq<u8>>,
) -> Result<(Seq<u8>, Option<TokenTransfer>), RelayError> {
    if accounts.len() == 0 {
        Err(RelayError::NotEnoughAccountKeys)
    } else if !accounts[0].is_signer {
        Err(RelayError::MissingRequiredSignature)
    } else if accounts.len() < 2 {
        Err(RelayError::NotEnoughAccountKeys)
    } else if data.len() < EMPTY_WINDOW_LEN {
        Err(RelayError::InvalidAccountData)
    } else if !window_empty(data) {
        Err(RelayError::AlreadyInitialized)
    } else {
        match store_state(
            initial_state(accounts[0].key@, token_address, token_mint, nebula_address, oracles),
        ) {
            Ok(b) => Ok((b, None)),
            Err(e) => Err(e),
        }
    }
}

/// Outcome of a transfer request. Accounts: the signing initializer, the contract account,
/// the token program, the mint, the token holder, the token receiver, the contract's
/// program-derived address, which authorizes the lock.
pub open spec fn create_result(
    accounts: Seq<AccountMeta>,
    data: Seq<u8>,
    request_id: Seq<u8>,
    amount: u64,
    receiver: Seq<u8>,
) -> Result<(Seq<u8>, Option<TokenTransfer>), RelayError> {
    if accounts.len() == 0 {
        Err(RelayError::NotEnoughAccountKeys)
    } else if !accounts[0].is_signer {
        Err(RelayError::MissingRequiredSignature)
    } else if accounts.len() < 7 {
        Err(RelayError::NotEnoughAccountKeys)
    } else {
        match load_state(data) {
            Err(e) => Err(e),
            Ok(v) => if accounts[2].key@ != v.token_address {
                Err(RelayError::InvalidInputToken)
            } else if accounts[3].key@ != v.token_mint {
                Err(RelayError::InvalidTokenMint)
            } else {
                match v.create_request_result(request_id, amount, accounts[4].key@, receiver) {
                    Err(e) => Err(e),
                    Ok(w) => match store_state(w) {
                        Err(e) => Err(e),
                        Ok(b) => Ok(
                            (
                                b,
                                Some(
                                    TokenTransfer {
                                        token_program: accounts[2].key,
                                        source: accounts[4].key,
                                        destination: accounts[5].key,
                                        authority: accounts[6].key,
                                        amount,
                                    },
                                ),
                            ),
                        ),
                    },
                }
            },
        }
    }
}

/// Outcome of an attestation. Accounts: the signing oracle, the contract account, the
/// token program, the mint, the recipient, the program-derived authority, one unused, the
/// token holder. An unlock attestation for a swap not yet settled moves its amount from
/// the holder to the recipient, who must be the attested receiver, and marks the swap
/// settled; any other action keeps the state as it is.
pub open spec fn attach_result(accounts: Seq<AccountMeta>, data: Seq<u8>, byte_data: Seq<u8>) -> Result<
    (Seq<u8>, Option<TokenTransfer>),
    RelayError,
> {
    if accounts.len() == 0 {
        Err(RelayError::NotEnoughAccountKeys)
    } else if !accounts[0].is_signer {
        Err(RelayError::MissingRequiredSignature)
    } else if accounts.len() < 8 {
        Err(RelayError::NotEnoughAccountKeys)
    } else {
        match load_state(data) {
            Err(e) => Err(e),
            Ok(v) => if !v.oracles.contains(accounts[0].key@) {
                Err(RelayError::AccessDenied)
            } else if accounts[3].key@ != v.token_mint {
                Err(RelayError::InvalidTokenMint)
            } else if byte_data.len() < 57 {
                Err(RelayError::ByteArrayUnpackFailed)
            } else {
                let (action, swap_id, amount, receiver) = port_operation_fields(byte_data);
                if action == UNLOCK_ACTION {
                    if receiver != accounts[4].key@ {
                        Err(RelayError::InvalidReceiver)
                    } else if status_is(v.swap_status, swap_id, RequestStatus::Success) {
                        Err(RelayError::RequestIDIsAlreadyBeingProcessed)
                    } else {
                        match store_state(v.with_status(swap_id, RequestStatus::Success)) {
                            Err(e) => Err(e),
                            Ok(b) => Ok(
                                (
                                    b,
                                    Some(
                                        TokenTransfer {
                                            token_program: accounts[2].key,
                                            source: accounts[7].key,
                                            destination: accounts[4].key,
                                            authority: accounts[5].key,
                                            amount,
                                        },
                                    ),
                                ),
                            ),
                        }
                    }
                } else {
                    match store_state(v) {
                        Err(e) => Err(e),
                        Ok(b) => Ok((b, None)),
                    }
                }
            },
        }
    }
}

/// A decoded state is well formed, and its lists are no longer than its bytes.
proof fn lemma_decoded_wf(s: Seq<u8>)
    requires
        decode_state(s) is Some,
    ensures
        decode_state(s)->Some_0.wf(),
        decode_state(s)->Some_0.swap_status.len() <= s.len(),
        decode_state(s)->Some_0.requests_queue.len() <= s.len(),
{
    let v = decode_state(s)->Some_0;
    assert(all_len(v.oracles, 32));
    assert(all_len(v.requests_queue, 16));
}

/// Layout of an initial state: its length, and the flag byte set after the empty lists.
pub proof fn lemma_initial_encoding(v: RelayContractView)
    requires
        v.nebula_address.len() == 32,
        v.token_address.len() == 32,
        v.token_mint.len() == 32,
        v.initializer_pubkey.len() == 32,
        all_len(v.oracles, 32),
        v.swap_status.len() == 0,
        v.requests.len() == 0,
        v.requests_queue.len() == 0,
        v.is_state_initialized,
    ensures
        v.encode().len() == 145 + 32 * v.oracles.len(),
        v.encode()[140 + 32 * v.oracles.len() as int] == 1,
{
    vstd::bytes::lemma_auto_spec_u32_to_from_le_bytes();
    let ss = v.swap_status.map_values(|e: (Seq<u8>, RequestStatus)| crate::state::status_entry_bytes(e));
    let rs = v.requests.map_values(|e: (Seq<u8>, crate::state::WrapRequestView)| crate::state::request_entry_bytes(e));
    crate::bytes::lemma_flatten_fixed(v.oracles, 32);
    assert(ss.len() == 0);
    assert(rs.len() == 0);
    assert(flatten(ss) =~= Seq::<u8>::empty());
    assert(flatten(rs) =~= Seq::<u8>::empty());
    assert(flatten(v.requests_queue) =~= Seq::<u8>::empty());
    assert(count_bytes(v.oracles.len()).len() == 4);
    assert(count_bytes(0).len() == 4);
    let e6 = v.nebula_address + v.token_address + v.token_mint + v.initializer_pubkey
        + count_bytes(v.oracles.len()) + flatten(v.oracles) + count_bytes(0) + flatten(ss)
        + count_bytes(0) + flatten(rs);
    assert(e6.len() == 140 + 32 * v.oracles.len());
    let e7 = e6 + seq![1u8];
    assert(e7[140 + 32 * v.oracles.len() as int] == 1);
    assert(v.encode() == e7 + count_bytes(0) + flatten(v.requests_queue));
}

/// Reads the initialized state from a contract account's data.
fn load(data: &[u8]) -> (r: Result<RelayContract, RelayError>)
    ensures
        match r {
            Ok(c) => load_state(data@) == Ok::<RelayContractView, RelayError>(c@) && c@.wf()
                && c@.swap_status.len() < u32::MAX && c@.requests_queue.len() < u32::MAX,
            Err(e) => load_state(data@) == Err::<RelayContractView, RelayError>(e),
        },
{
    if data.len() < STATE_LEN {
        return Err(RelayError::InvalidAccountData);
    }
    let window = slice_subrange(data, 0, STATE_LEN);
    assert(window@ =~= data@.take(STATE_LEN as int));
    let c = RelayContract::unpack(window)?;
    proof {
        lemma_decoded_wf(window@);
    }
    if !c.is_state_initialized {
        return Err(RelayError::UninitializedAccount);
    }
    Ok(c)
}

/// Encodes a state, refused when it overflows the storage window.
fn store(c: &RelayContract) -> (r: Result<Vec<u8>, RelayError>)
    requires
        c@.wf(),
    ensures
        match r {
            Ok(b) => store_state(c@) == Ok::<Seq<u8>, RelayError>(b@),
            Err(e) => store_state(c@) == Err::<Seq<u8>, RelayError>(e),
        },
{
    let b = c.pack();
    if b.len() > STATE_LEN {
        return Err(RelayError::StateOverflow);
    }
    Ok(b)
}

/// Refuses when any of the first `EMPTY_WINDOW_LEN` bytes is not zero.
pub fn validate_contract_emptiness(data: &[u8]) -> (r: Result<(), RelayError>)
    requires
        data@.len() >= EMPTY_WINDOW_LEN,
    ensures
        r is Ok <==> window_empty(data@),
        r is Err ==> r == Err::<(), RelayError>(RelayError::AlreadyInitialized),
{
    let mut i: usize = 0;
    while i < EMPTY_WINDOW_LEN
        invariant
            i <= EMPTY_WINDOW_LEN <= data@.len(),
            forall|j: int| 0 <= j < i ==> data@[j] == 0,
        decreases EMPTY_WINDOW_LEN - i,
    {
        if data[i] != 0 {
            return Err(RelayError::AlreadyInitialized);
        }
        i = i + 1;
    }
    Ok(())
}

/// A copy of a list of keys.
fn copy_keys(keys: &Vec<Pubkey>) -> (r: Vec<Pubkey>)
    ensures
        r@ == keys@,
{
    let mut r: Vec<Pubkey> = Vec::new();
    let mut i: usize = 0;
    while i < keys.len()
        invariant
            i <= keys@.len(),
            r@ == keys@.take(i as int),
        decreases keys@.len() - i,
    {
        r.push(keys[i]);
        assert(keys@.take(i + 1) =~= keys@.take(i as int).push(keys@[i as int]));
        i = i + 1;
    }
    assert(keys@.take(i as int) =~= keys@);
    r
}

/// The instruction handlers of the relay contract.
pub struct RelayProcessor;

impl RelayProcessor {
    /// Refuses a signer that is not one of the oracles.
    pub fn validate_data_provider(multisig_owner_keys: &Vec<Pubkey>, data_provider: &Pubkey) -> (r:
        Result<(), RelayError>)
        ensures
            r is Ok <==> multisig_owner_keys@.map_values(|k: Pubkey| k@).contains(data_provider@),
            r is Err ==> r == Err::<(), RelayError>(RelayError::AccessDenied),
    {
        let ghost keys = multisig_owner_keys@.map_values(|k: Pubkey| k@);
        let mut i: usize = 0;
        while i < multisig_owner_keys.len()
            invariant
                keys == multisig_owner_keys@.map_values(|k: Pubkey| k@),
                i <= multisig_owner_keys@.len(),
                forall|j: int| 0 <= j < i ==> keys[j] != data_provider@,
            decreases multisig_owner_keys@.len() - i,
        {
            if bytes_equal(multisig_owner_keys[i].as_slice(), data_provider.as_slice()) {
                assert(keys[i as int] == data_provider@);
                return Ok(());
            }
            i = i + 1;
        }
        Err(RelayError::AccessDenied)
    }

    /// Initializes an empty contract account; see `init_result`.
    pub fn process_init_relay_contract(
        accounts: &[AccountMeta],
        contract_data: &[u8],
        token_address: &Pubkey,
        token_mint: &Pubkey,
        nebula_address: &Pubkey,
        oracles: &Vec<Pubkey>,
    ) -> (r: Result<ProcessOutcome, RelayError>)
        ensures
            outcome_view(r) == init_result(
                accounts@,
                contract_data@,
                token_address@,
                token_mint@,
                nebula_address@,
                oracles@.map_values(|k: Pubkey| k@),
            ),
    {
        if accounts.len() == 0 {
            return Err(RelayError::NotEnoughAccountKeys);
        }
        let initializer = accounts[0];
        if !initializer.is_signer {
            return Err(RelayError::MissingRequiredSignature);
        }
        if accounts.len() < 2 {
            return Err(RelayError::NotEnoughAccountKeys);
        }
        if contract_data.len() < EMPTY_WINDOW_LEN {
            return Err(RelayError::InvalidAccountData);
        }
        validate_contract_emptiness(contract_data)?;
        let c = RelayContract {
            nebula_address: *nebula_address,
            token_address: *token_address,
            token_mint: *token_mint,
            initializer_pubkey: initializer.key,
            oracles: copy_keys(oracles),
            swap_status: Vec::new(),
            requests: Vec::new(),
            is_state_initialized: true,
            requests_queue: Vec::new(),
        };
        let ghost v = initial_state(
            initializer.key@,
            token_address@,
            token_mint@,
            nebula_address@,
            oracles@.map_values(|k: Pubkey| k@),
        );
        assert(c.oracles@ == oracles@);
        assert(c@.swap_status =~= v.swap_status);
        assert(c@.requests =~= v.requests);
        assert(c@.requests_queue =~= v.requests_queue);
        assert(c@.oracles =~= v.oracles);
        assert(c@ == v);
        if oracles.len() > MAX_INIT_ORACLES {
            proof {
                lemma_initial_encoding(v);
            }
            return Err(RelayError::StateOverflow);
        }
        assert(c@.wf());
        let state = store(&c)?;
        Ok(ProcessOutcome { state, transfer: None })
    }

    /// Records a transfer request and asks for the tokens to be locked; see
    /// `create_result`. `amount` is in the mint's base units.
    pub fn process_create_transfer_unwrap_request(
        accounts: &[AccountMeta],
        contract_data: &[u8],
        request_id: &RequestId,
        amount: u64,
        foreign_receiver: &ForeignAddress,
    ) -> (r: Result<ProcessOutcome, RelayError>)
        ensures
            outcome_view(r) == create_result(
                accounts@,
                contract_data@,
                request_id@,
                amount,
                foreign_receiver@,
            ),
    {
        if accounts.len() == 0 {
            return Err(RelayError::NotEnoughAccountKeys);
        }
        let initializer = accounts[0];
        if !initializer.is_signer {
            return Err(RelayError::MissingRequiredSignature);
        }
        if accounts.len() < 7 {
            return Err(RelayError::NotEnoughAccountKeys);
        }
        let mut c = load(contract_data)?;
        let token_program_id = accounts[2];
        if !bytes_equal(token_program_id.key.as_slice(), c.token_address.as_slice()) {
            return Err(RelayError::InvalidInputToken);
        }
        let mint = accounts[3];
        c.validate_token_mint(&mint.key)?;
        let token_holder = accounts[4];
        let token_receiver = accounts[5];
        c.create_transfer_wrap_request(request_id, amount, &token_holder.key, foreign_receiver)?;
        let state = store(&c)?;
        let transfer = TokenTransfer {
            token_program: token_program_id.key,
            source: token_holder.key,
            destination: token_receiver.key,
            authority: accounts[6].key,
            amount,
        };
        Ok(ProcessOutcome { state, transfer: Some(transfer) })
    }

    /// Applies an oracle attestation; see `attach_result`.
    pub fn process_attach_value(
        accounts: &[AccountMeta],
        contract_data: &[u8],
        byte_data: &Vec<u8>,
    ) -> (r: Result<ProcessOutcome, RelayError>)
        ensures
            outcome_view(r) == attach_result(accounts@, contract_data@, byte_data@),
    {
        if accounts.len() == 0 {
            return Err(RelayError::NotEnoughAccountKeys);
        }
        let initializer = accounts[0];
        if !initializer.is_signer {
            return Err(RelayError::MissingRequiredSignature);
        }
        if accounts.len() < 8 {
            return Err(RelayError::NotEnoughAccountKeys);
        }
        let mut c = load(contract_data)?;
        Self::validate_data_provider(&c.oracles, &initializer.key)?;
        let token_program_id = accounts[2];
        let mint = accounts[3];
        let recipient_account = accounts[4];
        let pda_account = accounts[5];
        let token_holder = accounts[7];
        c.validate_token_mint(&mint.key)?;
        let op = unpack_byte_array(byte_data.as_slice())?;
        if op.action == UNLOCK_ACTION {
            if !bytes_equal(op.receiver.as_slice(), recipient_account.key.as_slice()) {
                return Err(RelayError::InvalidReceiver);
            }
            match c.find_status(&op.swap_id) {
                Some(i) => {
                    if c.swap_status[i].1 == RequestStatus::Success {
                        return Err(RelayError::RequestIDIsAlreadyBeingProcessed);
                    }
                    proof {
                        assert forall|j: int| 0 <= j < c@.swap_status.len() && #[trigger] c@.swap_status[j].0
                            == op.swap_id@ implies c@.swap_status[j].1 != RequestStatus::Success by {
                            assert(keys_unique(c@.swap_status));
                            assert(j == i);
                        }
                    }
                },
                None => {},
            }
            c.set_status(&op.swap_id, RequestStatus::Success);
            let state = store(&c)?;
            let transfer = TokenTransfer {
                token_program: token_program_id.key,
                source: token_holder.key,
                destination: recipient_account.key,
                authority: pda_account.key,
                amount: op.amount,
            };
            Ok(ProcessOutcome { state, transfer: Some(transfer) })
        } else {
            let state = store(&c)?;
            Ok(ProcessOutcome { state, transfer: None })
        }
    }
}

/// Initialization succeeds once per account: after its state is written at the start of
/// the account, a second initialization, whatever its payload, is refused as already
/// initialized.
pub proof fn lemma_init_once(
    accounts: Seq<AccountMeta>,
    data: Seq<u8>,
    token_address: Seq<u8>,
    token_mint: Seq<u8>,
    nebula_address: Seq<u8>,
    oracles: Seq<Seq<u8>>,
    accounts2: Seq<AccountMeta>,
    token_address2: Seq<u8>,
    token_mint2: Seq<u8>,
    nebula_address2: Seq<u8>,
    oracles2: Seq<Seq<u8>>,
)
    requires
        token_address.len() == 32,
        token_mint.len() == 32,
        nebula_address.len() == 32,
        all_len(oracles, 32),
        init_result(accounts, data, token_address, token_mint, nebula_address, oracles) is Ok,
        accounts2.len() >= 2,
        accounts2[0].is_signer,
    ensures
        ({
            let b = init_result(accounts, data, token_address, token_mint, nebula_address, oracles)->Ok_0.0;
            init_result(
                accounts2,
                b + data.skip(b.len() as int),
                token_address2,
                token_mint2,
                nebula_address2,
                oracles2,
            ) == Err::<(Seq<u8>, Option<TokenTransfer>), RelayError>(RelayError::AlreadyInitialized)
        }),
{
    let v = initial_state(accounts[0].key@, token_address, token_mint, nebula_address, oracles);
    lemma_initial_encoding(v);
    let b = v.encode();
    let k = 140 + 32 * oracles.len() as int;
    let data2 = b + data.skip(b.len() as int);
    assert(data2[k] == 1);
    assert(!window_empty(data2));
}

/// A valid transfer request under an identifier already recorded with status `New` is
/// refused as a duplicate, so the recorded request stays as it was.
pub proof fn lemma_create_duplicate(
    accounts: Seq<AccountMeta>,
    data: Seq<u8>,
    request_id: Seq<u8>,
    amount: u64,
    receiver: Seq<u8>,
)
    requires
        accounts.len() >= 7,
        accounts[0].is_signer,
        load_state(data) is Ok,
        accounts[2].key@ == load_state(data)->Ok_0.token_address,
        accounts[3].key@ == load_state(data)->Ok_0.token_mint,
        load_state(data)->Ok_0.requests.len() < MAX_IDLE_REQUESTS_COUNT,
        has_key(load_state(data)->Ok_0.requests, request_id),
        status_is(load_state(data)->Ok_0.swap_status, request_id, RequestStatus::New),
    ensures
        create_result(accounts, data, request_id, amount, receiver) == Err::<
            (Seq<u8>, Option<TokenTransfer>),
            RelayError,
        >(RelayError::RequestIDIsAlreadyBeingProcessed),
{
}

/// An attestation signed by a key outside the oracle set is refused as access denied, so
/// neither the state nor any balance changes.
pub proof fn lemma_attach_non_oracle(
    accounts: Seq<AccountMeta>,
    data: Seq<u8>,
    byte_data: Seq<u8>,
)
    requires
        accounts.len() >= 8,
        accounts[0].is_signer,
        load_state(data) is Ok,
        !load_state(data)->Ok_0.oracles.contains(accounts[0].key@),
    ensures
        attach_result(accounts, data, byte_data) == Err::<
            (Seq<u8>, Option<TokenTransfer>),
            RelayError,
        >(RelayError::AccessDenied),
{
}

} // verus!
