use parsec_service::key_info::{
    Algorithm, AsymmetricSignature, HashAlgorithm, KeyAttributes, KeyInfo, KeyTriple, KeyType, Lifetime,
    Policy, UsageFlags,
};
use parsec_service::key_info_manager::{KeyInfoManager, KeyInfoManagerError};
use parsec_service::key_slots::{KeySlots, PSA_KEY_SLOT_COUNT};
use parsec_service::mbed_provider::{
    describe_with_uuid, permitted, BuildError, CreateOutcome, KeyUse, MbedProvider,
    MbedProviderBuilder,
};
use parsec_service::providers::ProviderConfig;
use parsec_service::requests::{Opcode, ProviderId, ResponseStatus};

fn rsa_sign_attributes() -> KeyAttributes {
    KeyAttributes {
        lifetime: Lifetime::Persistent,
        key_type: KeyType::RsaKeyPair,
        bits: 1024,
        policy: Policy {
            usage_flags: UsageFlags { sign_hash: true, verify_hash: true, export: true },
            permitted_algorithms: Algorithm::AsymmetricSignature(
                AsymmetricSignature::RsaPkcs1v15Sign { hash_alg: HashAlgorithm::Sha256 },
            ),
        },
    }
}

fn s(x: &str) -> String {
    String::from(x)
}

fn mbed(app: &str, name: &str) -> KeyTriple {
    KeyTriple::new(s(app), s(name), ProviderId::MbedCrypto)
}

fn start(kim: KeyInfoManager, opens: Vec<Result<(), ResponseStatus>>) -> Option<MbedProvider> {
    let triples = kim.get_all(ProviderId::MbedCrypto);
    MbedProvider::new(kim, &triples, &opens, 1)
}

fn empty_provider() -> MbedProvider {
    start(KeyInfoManager::new(), vec![]).unwrap()
}

fn generate(p: &mut MbedProvider, app: &str, name: &str) -> Result<u32, ResponseStatus> {
    let id = p.allocate_key_id(&s(app), &s(name))?;
    match p.complete_create(&s(app), &s(name), rsa_sign_attributes(), id, Ok(())) {
        CreateOutcome::Created => Ok(id),
        CreateOutcome::Refused(e) | CreateOutcome::RollBack(e) => Err(e),
    }
}

#[test]
fn kim_insert_get_remove() {
    let mut kim = KeyInfoManager::new();
    let info = KeyInfo { id: 7, attributes: rsa_sign_attributes() };
    assert_eq!(kim.get(&mbed("a", "k")), None);
    assert_eq!(kim.insert(mbed("a", "k"), info), Ok(()));
    assert_eq!(kim.get(&mbed("a", "k")), Some(info));
    assert!(kim.key_exists(&mbed("a", "k")));
    assert_eq!(kim.insert(mbed("a", "k"), info), Err(KeyInfoManagerError::AlreadyExists));
    assert_eq!(kim.remove(&mbed("a", "k")), Ok(info));
    assert_eq!(kim.remove(&mbed("a", "k")), Err(KeyInfoManagerError::NotFound));
    assert!(!kim.key_exists(&mbed("a", "k")));
}

#[test]
fn kim_get_all_by_provider() {
    let mut kim = KeyInfoManager::new();
    let info = KeyInfo { id: 1, attributes: rsa_sign_attributes() };
    kim.insert(mbed("a", "k1"), info).unwrap();
    kim.insert(KeyTriple::new(s("a"), s("k1"), ProviderId::Pkcs11), info).unwrap();
    kim.insert(mbed("b", "k2"), info).unwrap();
    let all = kim.get_all(ProviderId::MbedCrypto);
    assert_eq!(all.len(), 2);
    assert!(all.iter().any(|t| t.same_as(&mbed("a", "k1"))));
    assert!(all.iter().any(|t| t.same_as(&mbed("b", "k2"))));
    assert_eq!(kim.get_all(ProviderId::Pkcs11).len(), 1);
    assert_eq!(kim.get_all(ProviderId::Tpm).len(), 0);
}

#[test]
fn happy_path_sign_key_lookup() {
    let mut p = empty_provider();
    let id = generate(&mut p, "root", "k1").unwrap();
    let alg = AsymmetricSignature::RsaPkcs1v15Sign { hash_alg: HashAlgorithm::Sha256 };
    assert_eq!(p.key_for_use(&s("root"), &s("k1"), KeyUse::Sign(alg)), Ok(id));
    assert_eq!(p.key_for_use(&s("root"), &s("k1"), KeyUse::Verify(alg)), Ok(id));
    assert_eq!(p.key_for_use(&s("root"), &s("k1"), KeyUse::ExportPublic), Ok(id));
}

#[test]
fn wrong_algorithm_not_permitted() {
    let mut p = empty_provider();
    generate(&mut p, "root", "k1").unwrap();
    let alg = AsymmetricSignature::RsaPkcs1v15Sign { hash_alg: HashAlgorithm::Sha512 };
    assert_eq!(
        p.key_for_use(&s("root"), &s("k1"), KeyUse::Sign(alg)),
        Err(ResponseStatus::PsaErrorNotPermitted)
    );
}

#[test]
fn unknown_key_does_not_exist() {
    let p = empty_provider();
    assert_eq!(
        p.key_for_use(&s("root"), &s("nope"), KeyUse::ExportPublic),
        Err(ResponseStatus::PsaErrorDoesNotExist)
    );
}

#[test]
fn policy_flags_checked() {
    let mut attrs = rsa_sign_attributes();
    attrs.policy.usage_flags.sign_hash = false;
    let alg = AsymmetricSignature::RsaPkcs1v15Sign { hash_alg: HashAlgorithm::Sha256 };
    assert!(!permitted(&attrs, KeyUse::Sign(alg)));
    assert!(permitted(&attrs, KeyUse::Verify(alg)));
    assert!(permitted(&attrs, KeyUse::ExportPublic));
}

#[test]
fn restart_reconciliation_drops_missing_keys() {
    let mut p = empty_provider();
    generate(&mut p, "root", "k1").unwrap();
    generate(&mut p, "root", "k2").unwrap();
    generate(&mut p, "root", "k3").unwrap();
    let counter = p.next_id();
    let mut kim = KeyInfoManager::new();
    for name in ["k1", "k2", "k3"] {
        let info = p.key_info_store().get(&mbed("root", name)).unwrap();
        kim.insert(mbed("root", name), info).unwrap();
    }
    let triples = kim.get_all(ProviderId::MbedCrypto);
    let opens: Vec<Result<(), ResponseStatus>> = triples
        .iter()
        .map(|t| if t.key_name == "k2" { Err(ResponseStatus::PsaErrorDoesNotExist) } else { Ok(()) })
        .collect();
    let p2 = MbedProvider::new(kim, &triples, &opens, counter).unwrap();
    let left = p2.key_info_store().get_all(ProviderId::MbedCrypto);
    assert_eq!(left.len(), 2);
    assert!(left.iter().any(|t| t.key_name == "k1"));
    assert!(left.iter().any(|t| t.key_name == "k3"));
    let alg = AsymmetricSignature::RsaPkcs1v15Sign { hash_alg: HashAlgorithm::Sha256 };
    assert!(p2.key_for_use(&s("root"), &s("k1"), KeyUse::Sign(alg)).is_ok());
    assert_eq!(p2.next_id(), counter);
}

#[test]
fn restart_fails_on_other_open_error() {
    let mut kim = KeyInfoManager::new();
    kim.insert(mbed("root", "k1"), KeyInfo { id: 1, attributes: rsa_sign_attributes() }).unwrap();
    assert!(start(kim, vec![Err(ResponseStatus::PsaErrorGenericError)]).is_none());
}

#[test]
fn restart_fails_on_shared_backend_id() {
    let mut kim = KeyInfoManager::new();
    kim.insert(mbed("root", "k1"), KeyInfo { id: 5, attributes: rsa_sign_attributes() }).unwrap();
    kim.insert(mbed("root", "k2"), KeyInfo { id: 5, attributes: rsa_sign_attributes() }).unwrap();
    assert!(start(kim, vec![Ok(()), Ok(())]).is_none());
}

#[test]
fn restart_counter_above_stored_ids() {
    let mut kim = KeyInfoManager::new();
    kim.insert(mbed("root", "k1"), KeyInfo { id: 40, attributes: rsa_sign_attributes() }).unwrap();
    let mut p = start(kim, vec![Ok(())]).unwrap();
    assert_eq!(p.next_id(), 41);
    assert_eq!(p.allocate_key_id(&s("root"), &s("k2")), Ok(41));
}

#[test]
fn failed_store_insert_rolls_back() {
    let mut p = empty_provider();
    let id = p.allocate_key_id(&s("root"), &s("k")).unwrap();
    generate(&mut p, "root", "k").unwrap();
    let r = p.complete_create(&s("root"), &s("k"), rsa_sign_attributes(), id, Ok(()));
    assert_eq!(r, CreateOutcome::RollBack(ResponseStatus::PsaErrorAlreadyExists));
}

#[test]
fn backend_failure_then_generate_gets_new_id() {
    let mut p = empty_provider();
    let id = p.allocate_key_id(&s("root"), &s("k")).unwrap();
    let r = p.complete_create(
        &s("root"),
        &s("k"),
        rsa_sign_attributes(),
        id,
        Err(ResponseStatus::PsaErrorInsufficientMemory),
    );
    assert_eq!(r, CreateOutcome::Refused(ResponseStatus::PsaErrorInsufficientMemory));
    let id2 = generate(&mut p, "root", "k").unwrap();
    assert!(id2 > id);
    assert_eq!(p.key_info_store().get_all(ProviderId::MbedCrypto).len(), 1);
}

#[test]
fn regenerate_after_destroy_gets_different_id() {
    let mut p = empty_provider();
    let id1 = generate(&mut p, "root", "k").unwrap();
    assert_eq!(p.complete_destroy(&s("root"), &s("k"), Ok(())), Ok(()));
    let id2 = generate(&mut p, "root", "k").unwrap();
    assert_ne!(id1, id2);
}

#[test]
fn destroy_twice_does_not_exist() {
    let mut p = empty_provider();
    generate(&mut p, "root", "k").unwrap();
    assert_eq!(p.complete_destroy(&s("root"), &s("k"), Ok(())), Ok(()));
    assert_eq!(
        p.complete_destroy(&s("root"), &s("k"), Ok(())),
        Err(ResponseStatus::PsaErrorDoesNotExist)
    );
}

#[test]
fn destroy_absorbs_backend_does_not_exist() {
    let mut p = empty_provider();
    generate(&mut p, "root", "k").unwrap();
    assert_eq!(
        p.complete_destroy(&s("root"), &s("k"), Err(ResponseStatus::PsaErrorDoesNotExist)),
        Ok(())
    );
    assert!(!p.key_info_store().key_exists(&mbed("root", "k")));
}

#[test]
fn destroy_backend_error_keeps_key() {
    let mut p = empty_provider();
    generate(&mut p, "root", "k").unwrap();
    assert_eq!(
        p.complete_destroy(&s("root"), &s("k"), Err(ResponseStatus::PsaErrorGenericError)),
        Err(ResponseStatus::PsaErrorGenericError)
    );
    assert!(p.key_info_store().key_exists(&mbed("root", "k")));
}

#[test]
fn generate_twice_already_exists() {
    let mut p = empty_provider();
    generate(&mut p, "root", "k").unwrap();
    let counter = p.next_id();
    assert_eq!(
        p.allocate_key_id(&s("root"), &s("k")),
        Err(ResponseStatus::PsaErrorAlreadyExists)
    );
    assert_eq!(p.next_id(), counter);
}

#[test]
fn cross_provider_isolation() {
    let mut kim = KeyInfoManager::new();
    let hsm = KeyTriple::new(s("root"), s("k"), ProviderId::Pkcs11);
    let hsm_info = KeyInfo { id: 9, attributes: rsa_sign_attributes() };
    kim.insert(hsm.duplicate(), hsm_info).unwrap();
    let mut p = start(kim, vec![]).unwrap();
    generate(&mut p, "root", "k").unwrap();
    assert_eq!(p.complete_destroy(&s("root"), &s("k"), Ok(())), Ok(()));
    assert_eq!(p.key_info_store().get(&hsm), Some(hsm_info));
    assert!(!p.key_info_store().key_exists(&mbed("root", "k")));
}

#[test]
fn slots_are_bounded() {
    let mut slots = KeySlots::new();
    for _ in 0..PSA_KEY_SLOT_COUNT {
        assert!(slots.try_acquire());
    }
    assert!(!slots.try_acquire());
    assert_eq!(slots.in_use(), PSA_KEY_SLOT_COUNT);
    slots.release();
    assert!(slots.try_acquire());
    assert_eq!(slots.in_use(), PSA_KEY_SLOT_COUNT);
}

#[test]
fn describe_mbed_provider() {
    let p = empty_provider();
    let (info, ops) = p.describe().unwrap();
    assert_eq!(info.uuid, 0x1c1139dc_ad7c_47dc_ad6b_db6fdb466552);
    assert_eq!(info.vendor, "Arm");
    assert_eq!(info.id, ProviderId::MbedCrypto);
    assert_eq!((info.version_maj, info.version_min, info.version_rev), (0, 1, 0));
    assert_eq!(ops.len(), 6);
    assert!(ops.contains(&Opcode::PsaSignHash));
    assert!(!ops.contains(&Opcode::Ping));
}

#[test]
fn describe_without_uuid_is_invalid_encoding() {
    assert!(matches!(describe_with_uuid(None), Err(ResponseStatus::InvalidEncoding)));
}

#[test]
fn provider_config_accessors() {
    let c = ProviderConfig::Pkcs11 {
        key_info_manager: s("on-disk"),
        library_path: s("/lib.so"),
        slot_number: 1,
        user_pin: None,
    };
    assert_eq!(c.key_info_manager(), "on-disk");
    assert_eq!(c.provider_id(), ProviderId::Pkcs11);
    let t = ProviderConfig::Tpm { key_info_manager: s("m"), tcti: s("mssim"), owner_hierarchy_auth: s("") };
    assert_eq!(t.provider_id(), ProviderId::Tpm);
    let m = ProviderConfig::MbedCrypto { key_info_manager: s("x") };
    assert_eq!(m.key_info_manager(), "x");
    assert_eq!(m.provider_id(), ProviderId::MbedCrypto);
}

#[test]
fn builder_needs_store() {
    let r = MbedProviderBuilder::new().build(&vec![], &vec![], 1);
    assert!(matches!(r, Err(BuildError::MissingKeyInfoStore)));
    let r = MbedProviderBuilder::new().with_key_info_store(KeyInfoManager::new()).build(&vec![], &vec![], 1);
    assert!(r.is_ok());
}

#[test]
fn builder_reports_failed_start() {
    let mut kim = KeyInfoManager::new();
    kim.insert(mbed("root", "k1"), KeyInfo { id: 1, attributes: rsa_sign_attributes() }).unwrap();
    let triples = kim.get_all(ProviderId::MbedCrypto);
    let r = MbedProviderBuilder::new()
        .with_key_info_store(kim)
        .build(&triples, &vec![Err(ResponseStatus::PsaErrorGenericError)], 1);
    assert!(matches!(r, Err(BuildError::InitializationFailed)));
}

#[test]
fn complete_create_with_used_id_refused() {
    let mut p = empty_provider();
    let id = generate(&mut p, "root", "k1").unwrap();
    let r = p.complete_create(&s("root"), &s("k2"), rsa_sign_attributes(), id, Ok(()));
    assert_eq!(r, CreateOutcome::Refused(ResponseStatus::PsaErrorGenericError));
    assert!(!p.key_info_store().key_exists(&mbed("root", "k2")));
}

#[test]
fn destroy_lookup_gives_backend_id() {
    let mut p = empty_provider();
    let id = generate(&mut p, "root", "k").unwrap();
    assert_eq!(p.key_for_use(&s("root"), &s("k"), KeyUse::Destroy), Ok(id));
    assert_eq!(
        p.key_for_use(&s("other"), &s("k"), KeyUse::Destroy),
        Err(ResponseStatus::PsaErrorDoesNotExist)
    );
}
