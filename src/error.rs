use vstd::prelude::*;

verus! {

/// Why an instruction or a lookup was refused.
#[derive(Clone, Copy, Debug, PartialEq, Eq, Structural)]
pub enum RelayError {
    /// Fewer accounts were supplied than the instruction reads.
    NotEnoughAccountKeys,
    /// The account that must sign did not.
    MissingRequiredSignature,
    /// The contract account is too small, or its state does not decode.
    InvalidAccountData,
    /// The contract state decodes but was never initialized.
    UninitializedAccount,
    /// The storage window of the contract account already holds data.
    AlreadyInitialized,
    /// The encoded state does not fit in its storage window.
    StateOverflow,
    /// The instruction bytes are too short or name an opcode without a payload.
    InvalidInstructionData,
    /// The opcode is outside the known set.
    InvalidInstructionIndex,
    /// The token program does not match the contract's bound token address.
    InvalidInputToken,
    /// The mint does not match the contract's bound mint.
    InvalidTokenMint,
    /// The pending-request ceiling has been reached.
    TransferRequestsCountLimit,
    /// The request identifier has already been used.
    RequestIDIsAlreadyBeingProcessed,
    /// The signer is not a registered oracle.
    AccessDenied,
    /// The attested receiver is not the recipient account supplied.
    InvalidReceiver,
    /// The attestation bytes are too short.
    ByteArrayUnpackFailed,
}

} // verus!
