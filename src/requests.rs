use vstd::prelude::*;

verus! {

/// Identifier of a provider on the wire.
#[derive(PartialEq, Eq, Structural, Clone, Copy, Debug)]
pub enum ProviderId {
    Core,
    MbedCrypto,
    Pkcs11,
    Tpm,
}

/// Operations a client can request.
#[derive(PartialEq, Eq, Structural, Clone, Copy, Debug)]
pub enum Opcode {
    Ping,
    PsaGenerateKey,
    PsaDestroyKey,
    PsaSignHash,
    PsaVerifyHash,
    PsaImportKey,
    PsaExportPublicKey,
    ListProviders,
    ListOpcodes,
}

/// Status carried by every response.
#[derive(PartialEq, Eq, Structural, Clone, Copy, Debug)]
pub enum ResponseStatus {
    Success,
    PsaErrorNotSupported,
    PsaErrorDoesNotExist,
    PsaErrorAlreadyExists,
    PsaErrorInvalidArgument,
    PsaErrorInsufficientMemory,
    PsaErrorNotPermitted,
    PsaErrorGenericError,
    ProviderNotRegistered,
    InvalidEncoding,
}

} // verus!
