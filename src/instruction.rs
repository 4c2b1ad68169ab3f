use vstd::prelude::*;
use vstd::bytes::{spec_u64_from_le_bytes, u64_from_le_bytes};
use vstd::slice::slice_subrange;
use crate::bytes::{push_bytes, read_array};
use crate::error::RelayError;
use crate::state::{ForeignAddress, Pubkey, RequestId};

verus! {

/// Bytes taken by a public key.
pub const PUBKEY_ALLOC: usize = 32;

/// Bytes taken by a decimal amount.
pub const DEST_AMOUNT_ALLOC: usize = 8;

/// Bytes taken by a foreign-chain address.
pub const FOREIGN_ADDRESS_ALLOC: usize = 32;

/// Bytes reserved for attached attestation data.
pub const ATTACHED_DATA_ALLOC: usize = 64;

/// Opcode of the only attestation action that releases tokens: `u`.
pub const UNLOCK_ACTION: u8 = 117;

/// Shortest attestation: action, swap identifier, amount and receiver.
pub const PORT_OPERATION_LEN: usize = 57;

/// The size hints of each known opcode.
pub open spec fn allocation_of(instruction: int) -> Seq<usize> {
    if instruction == 0 {
        seq![PUBKEY_ALLOC, PUBKEY_ALLOC, PUBKEY_ALLOC, 1]
    } else if instruction == 1 {
        seq![DEST_AMOUNT_ALLOC, FOREIGN_ADDRESS_ALLOC, 16, 1]
    } else if instruction == 2 || instruction == 3 {
        seq![ATTACHED_DATA_ALLOC]
    } else {
        seq![PUBKEY_ALLOC, PUBKEY_ALLOC]
    }
}

/// The byte-length hints a caller supplies for opcode `instruction`; opcodes above 4
/// are unknown.
pub fn allocation_by_instruction_index(instruction: usize, _oracles_bft: Option<usize>) -> (r:
    Result<Vec<usize>, RelayError>)
    ensures
        match r {
            Ok(v) => instruction <= 4 && v@ == allocation_of(instruction as int),
            Err(e) => instruction > 4 && e == RelayError::InvalidInstructionIndex,
        },
{
    let v = if instruction == 0 {
        vec![PUBKEY_ALLOC, PUBKEY_ALLOC, PUBKEY_ALLOC, 1]
    } else if instruction == 1 {
        vec![DEST_AMOUNT_ALLOC, FOREIGN_ADDRESS_ALLOC, 16, 1]
    } else if instruction == 2 || instruction == 3 {
        vec![ATTACHED_DATA_ALLOC]
    } else if instruction == 4 {
        vec![PUBKEY_ALLOC, PUBKEY_ALLOC]
    } else {
        return Err(RelayError::InvalidInstructionIndex);
    };
    assert(v@ =~= allocation_of(instruction as int));
    Ok(v)
}

/// A decoded instruction.
pub enum RelayContractInstruction {
    /// Opcode 0: bind the contract to its token, mint, nebula and oracle set.
    InitContract {
        token_address: Pubkey,
        token_mint: Pubkey,
        nebula_address: Pubkey,
        oracles: Vec<Pubkey>,
    },
    /// Opcode 1: lock tokens for a transfer to the foreign chain. `amount` holds the bits
    /// of the decimal amount as a little-endian IEEE double.
    CreateTransferUnwrapRequest { request_id: RequestId, amount: u64, receiver: ForeignAddress },
    /// Opcode 2: an oracle attestation.
    AttachValue { byte_data: Vec<u8> },
}

/// A decoded instruction with keys as byte strings.
pub enum InstructionView {
    InitContract {
        token_address: Seq<u8>,
        token_mint: Seq<u8>,
        nebula_address: Seq<u8>,
        oracles: Seq<Seq<u8>>,
    },
    CreateTransferUnwrapRequest { request_id: Seq<u8>, amount: u64, receiver: Seq<u8> },
    AttachValue { byte_data: Seq<u8> },
}

impl View for RelayContractInstruction {
    type V = InstructionView;

    open spec fn view(&self) -> InstructionView {
        match self {
            RelayContractInstruction::InitContract {
                token_address,
                token_mint,
                nebula_address,
                oracles,
            } => InstructionView::InitContract {
                token_address: token_address@,
                token_mint: token_mint@,
                nebula_address: nebula_address@,
                oracles: oracles@.map_values(|k: Pubkey| k@),
            },
            RelayContractInstruction::CreateTransferUnwrapRequest { request_id, amount, receiver } => {
                InstructionView::CreateTransferUnwrapRequest {
                    request_id: request_id@,
                    amount: *amount,
                    receiver: receiver@,
                }
            },
            RelayContractInstruction::AttachValue { byte_data } => InstructionView::AttachValue {
                byte_data: byte_data@,
            },
        }
    }
}

/// The instruction that `s` encodes: an opcode byte, then for opcode 0 three keys, a
/// one-byte oracle count and the oracle keys; for opcode 1 the amount, the receiver and
/// the request identifier; for opcode 2 the attestation as the rest of the bytes.
/// Trailing bytes are ignored.
pub open spec fn decode_instruction(s: Seq<u8>) -> Result<InstructionView, RelayError> {
    if s.len() == 0 {
        Err(RelayError::InvalidInstructionData)
    } else if s[0] > 4 {
        Err(RelayError::InvalidInstructionIndex)
    } else if s[0] == 0 {
        if s.len() < 98 || s.len() < 98 + 32 * s[97] {
            Err(RelayError::InvalidInstructionData)
        } else {
            Ok(
                InstructionView::InitContract {
                    token_address: s.subrange(1, 33),
                    token_mint: s.subrange(33, 65),
                    nebula_address: s.subrange(65, 97),
                    oracles: Seq::new(
                        s[97] as nat,
                        |i: int| s.subrange(98 + 32 * i, 98 + 32 * i + 32),
                    ),
                },
            )
        }
    } else if s[0] == 1 {
        if s.len() < 57 {
            Err(RelayError::InvalidInstructionData)
        } else {
            Ok(
                InstructionView::CreateTransferUnwrapRequest {
                    amount: spec_u64_from_le_bytes(s.subrange(1, 9)),
                    receiver: s.subrange(9, 41),
                    request_id: s.subrange(41, 57),
                },
            )
        }
    } else if s[0] == 2 {
        Ok(InstructionView::AttachValue { byte_data: s.subrange(1, s.len() as int) })
    } else {
        Err(RelayError::InvalidInstructionData)
    }
}

impl RelayContractInstruction {
    /// Decodes an instruction from its bytes.
    pub fn unpack(input: &[u8]) -> (r: Result<RelayContractInstruction, RelayError>)
        ensures
            match r {
                Ok(ix) => decode_instruction(input@) == Ok::<InstructionView, RelayError>(ix@),
                Err(e) => decode_instruction(input@) == Err::<InstructionView, RelayError>(e),
            },
    {
        let len = input.len();
        if len == 0 {
            return Err(RelayError::InvalidInstructionData);
        }
        let tag = input[0];
        if tag > 4 {
            Err(RelayError::InvalidInstructionIndex)
        } else if tag == 0 {
            if len < 98 {
                return Err(RelayError::InvalidInstructionData);
            }
            let n = input[97] as usize;
            if len - 98 < 32 * n {
                return Err(RelayError::InvalidInstructionData);
            }
            let token_address: Pubkey = read_array(input, 1);
            let token_mint: Pubkey = read_array(input, 33);
            let nebula_address: Pubkey = read_array(input, 65);
            let mut oracles: Vec<Pubkey> = Vec::new();
            let mut i: usize = 0;
            while i < n
                invariant
                    len == input@.len(),
                    n == input@[97],
                    98 + 32 * n <= len,
                    i <= n,
                    oracles@.len() == i,
                    forall|j: int|
                        0 <= j < i ==> #[trigger] oracles@[j]@ == input@.subrange(
                            98 + 32 * j,
                            98 + 32 * j + 32,
                        ),
                decreases n - i,
            {
                let k: Pubkey = read_array(input, 98 + 32 * i);
                oracles.push(k);
                i = i + 1;
            }
            let ix = RelayContractInstruction::InitContract {
                token_address,
                token_mint,
                nebula_address,
                oracles,
            };
            proof {
                if let InstructionView::InitContract { oracles: o, .. } = decode_instruction(input@)->Ok_0 {
                    assert(ix@->InitContract_oracles =~= o);
                }
            }
            Ok(ix)
        } else if tag == 1 {
            if len < 57 {
                return Err(RelayError::InvalidInstructionData);
            }
            let amount = u64_from_le_bytes(slice_subrange(input, 1, 9));
            let receiver: ForeignAddress = read_array(input, 9);
            let request_id: RequestId = read_array(input, 41);
            Ok(RelayContractInstruction::CreateTransferUnwrapRequest { request_id, amount, receiver })
        } else if tag == 2 {
            let mut byte_data: Vec<u8> = Vec::new();
            push_bytes(&mut byte_data, slice_subrange(input, 1, len));
            assert(byte_data@ =~= input@.subrange(1, len as int));
            Ok(RelayContractInstruction::AttachValue { byte_data })
        } else {
            Err(RelayError::InvalidInstructionData)
        }
    }
}

/// An attestation read from its bytes.
pub struct PortOperation {
    pub action: u8,
    pub swap_id: RequestId,
    pub amount: u64,
    pub receiver: Pubkey,
}

/// The fields of an attestation: action byte, swap identifier at 1..17, amount
/// little-endian at 17..25, receiver at 25..57.
pub open spec fn port_operation_fields(b: Seq<u8>) -> (u8, Seq<u8>, u64, Seq<u8>) {
    (b[0], b.subrange(1, 17), spec_u64_from_le_bytes(b.subrange(17, 25)), b.subrange(25, 57))
}

/// Reads an attestation; refused when shorter than its fixed layout.
pub fn unpack_byte_array(byte_data: &[u8]) -> (r: Result<PortOperation, RelayError>)
    ensures
        match r {
            Ok(op) => byte_data@.len() >= PORT_OPERATION_LEN && port_operation_fields(byte_data@) == (
                op.action,
                op.swap_id@,
                op.amount,
                op.receiver@,
            ),
            Err(e) => byte_data@.len() < PORT_OPERATION_LEN && e == RelayError::ByteArrayUnpackFailed,
        },
{
    if byte_data.len() < PORT_OPERATION_LEN {
        return Err(RelayError::ByteArrayUnpackFailed);
    }
    let action = byte_data[0];
    let swap_id: RequestId = read_array(byte_data, 1);
    let amount = u64_from_le_bytes(slice_subrange(byte_data, 17, 25));
    let receiver: Pubkey = read_array(byte_data, 25);
    Ok(PortOperation { action, swap_id, amount, receiver })
}

} // verus!
