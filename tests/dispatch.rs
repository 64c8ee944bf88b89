use parsec_service::dispatch::{find_crypto_provider, Dispatcher};
use parsec_service::requests::{Opcode, ProviderId, ResponseStatus};

fn table() -> Dispatcher {
    let mut d = Dispatcher::new();
    d.register(ProviderId::Core, vec![Opcode::Ping, Opcode::ListProviders, Opcode::ListOpcodes]);
    d.register(ProviderId::MbedCrypto, vec![Opcode::PsaGenerateKey, Opcode::PsaSignHash]);
    d
}

#[test]
fn route_registered_and_supported() {
    let d = table();
    assert_eq!(d.route(ProviderId::Core, Opcode::Ping), Ok(()));
    assert_eq!(d.route(ProviderId::MbedCrypto, Opcode::PsaSignHash), Ok(()));
}

#[test]
fn route_unknown_provider() {
    let d = table();
    assert_eq!(d.route(ProviderId::Tpm, Opcode::Ping), Err(ResponseStatus::ProviderNotRegistered));
    assert_eq!(d.list_opcodes(ProviderId::Pkcs11), Err(ResponseStatus::ProviderNotRegistered));
}

#[test]
fn route_unsupported_opcode() {
    let d = table();
    assert_eq!(
        d.route(ProviderId::MbedCrypto, Opcode::Ping),
        Err(ResponseStatus::PsaErrorNotSupported)
    );
    assert_eq!(
        d.route(ProviderId::Core, Opcode::PsaGenerateKey),
        Err(ResponseStatus::PsaErrorNotSupported)
    );
}

#[test]
fn list_opcodes_of_provider() {
    let d = table();
    assert_eq!(
        d.list_opcodes(ProviderId::Core),
        Ok(vec![Opcode::Ping, Opcode::ListProviders, Opcode::ListOpcodes])
    );
}

#[test]
fn crypto_provider_is_first_non_core() {
    assert_eq!(
        find_crypto_provider(&vec![ProviderId::Core, ProviderId::Pkcs11, ProviderId::MbedCrypto]),
        ProviderId::Pkcs11
    );
    assert_eq!(find_crypto_provider(&vec![ProviderId::Core]), ProviderId::Core);
    assert_eq!(find_crypto_provider(&vec![]), ProviderId::Core);
}
