use vstd::prelude::*;
use crate::requests::ProviderId;

verus! {

/// Whether a key survives a restart of the service.
#[derive(PartialEq, Eq, Structural, Clone, Copy, Debug)]
pub enum Lifetime {
    Volatile,
    Persistent,
}

/// Kind of key material.
#[derive(PartialEq, Eq, Structural, Clone, Copy, Debug)]
pub enum KeyType {
    RawData,
    RsaKeyPair,
    RsaPublicKey,
    EccKeyPair,
    EccPublicKey,
}

/// Hash algorithms a signature scheme can be bound to.
#[derive(PartialEq, Eq, Structural, Clone, Copy, Debug)]
pub enum HashAlgorithm {
    Sha224,
    Sha256,
    Sha384,
    Sha512,
}

/// Asymmetric signature algorithms.
#[derive(PartialEq, Eq, Structural, Clone, Copy, Debug)]
pub enum AsymmetricSignature {
    RsaPkcs1v15Sign { hash_alg: HashAlgorithm },
    RsaPss { hash_alg: HashAlgorithm },
    Ecdsa { hash_alg: HashAlgorithm },
}

/// Algorithm a key is permitted to be used with.
#[derive(PartialEq, Eq, Structural, Clone, Copy, Debug)]
pub enum Algorithm {
    NoAlgorithm,
    AsymmetricSignature(AsymmetricSignature),
}

/// What a key may be used for.
#[derive(PartialEq, Eq, Structural, Clone, Copy, Debug)]
pub struct UsageFlags {
    pub sign_hash: bool,
    pub verify_hash: bool,
    pub export: bool,
}

/// Usage policy of a key.
#[derive(PartialEq, Eq, Structural, Clone, Copy, Debug)]
pub struct Policy {
    pub usage_flags: UsageFlags,
    pub permitted_algorithms: Algorithm,
}

/// Attributes fixed when a key is created.
#[derive(PartialEq, Eq, Structural, Clone, Copy, Debug)]
pub struct KeyAttributes {
    pub lifetime: Lifetime,
    pub key_type: KeyType,
    pub bits: usize,
    pub policy: Policy,
}

/// What the store keeps for a key: the backend-native id and the attributes.
#[derive(PartialEq, Eq, Structural, Clone, Copy, Debug)]
pub struct KeyInfo {
    pub id: u32,
    pub attributes: KeyAttributes,
}

/// The identity of a key: owning application, key name and provider.
#[derive(Clone, Debug)]
pub struct KeyTriple {
    pub app_name: String,
    pub key_name: String,
    pub provider_id: ProviderId,
}

/// Mathematical identity of a key triple.
pub type TripleView = (Seq<char>, Seq<char>, ProviderId);

impl View for KeyTriple {
    type V = TripleView;

    open spec fn view(&self) -> TripleView {
        (self.app_name@, self.key_name@, self.provider_id)
    }
}

impl KeyTriple {
    pub fn new(app_name: String, key_name: String, provider_id: ProviderId) -> (r: KeyTriple)
        ensures
            r@ == (app_name@, key_name@, provider_id),
    {
        KeyTriple { app_name, key_name, provider_id }
    }

    /// Whether two triples name the same key.
    pub fn same_as(&self, other: &KeyTriple) -> (r: bool)
        ensures
            r == (self@ == other@),
    {
        self.app_name == other.app_name && self.key_name == other.key_name
            && self.provider_id == other.provider_id
    }

    pub fn duplicate(&self) -> (r: KeyTriple)
        ensures
            r@ == self@,
    {
        KeyTriple {
            app_name: self.app_name.clone(),
            key_name: self.key_name.clone(),
            provider_id: self.provider_id,
        }
    }
}

} // verus!
