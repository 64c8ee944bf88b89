use vstd::prelude::*;
use crate::requests::ProviderId;

verus! {

/// Configuration of one provider, as read from the service configuration.
pub enum ProviderConfig {
    MbedCrypto { key_info_manager: String },
    Pkcs11 {
        key_info_manager: String,
        library_path: String,
        slot_number: usize,
        user_pin: Option<String>,
    },
    Tpm { key_info_manager: String, tcti: String, owner_hierarchy_auth: String },
}

impl ProviderConfig {
    /// Name of the key info manager the provider binds to.
    pub fn key_info_manager(&self) -> (r: &String)
        ensures
            *r == match self {
                ProviderConfig::MbedCrypto { key_info_manager } => *key_info_manager,
                ProviderConfig::Pkcs11 { key_info_manager, .. } => *key_info_manager,
                ProviderConfig::Tpm { key_info_manager, .. } => *key_info_manager,
            },
    {
        match self {
            ProviderConfig::MbedCrypto { key_info_manager } => key_info_manager,
            ProviderConfig::Pkcs11 { key_info_manager, .. } => key_info_manager,
            ProviderConfig::Tpm { key_info_manager, .. } => key_info_manager,
        }
    }

    /// The provider this configuration is for.
    pub fn provider_id(&self) -> (r: ProviderId)
        ensures
            r == match self {
                ProviderConfig::MbedCrypto { .. } => ProviderId::MbedCrypto,
                ProviderConfig::Pkcs11 { .. } => ProviderId::Pkcs11,
                ProviderConfig::Tpm { .. } => ProviderId::Tpm,
            },
    {
        match self {
            ProviderConfig::MbedCrypto { .. } => ProviderId::MbedCrypto,
            ProviderConfig::Pkcs11 { .. } => ProviderId::Pkcs11,
            ProviderConfig::Tpm { .. } => ProviderId::Tpm,
        }
    }
}

/// Description of a provider, gathered for the list of providers.
pub struct ProviderInfo {
    pub uuid: u128,
    pub description: String,
    pub vendor: String,
    pub version_maj: u32,
    pub version_min: u32,
    pub version_rev: u32,
    pub id: ProviderId,
}

/// The 128-bit value of the UUID written in `s`, if `s` is the text of a UUID.
pub uninterp spec fn uuid_of(s: Seq<char>) -> Option<u128>;

/// Relies on uuid::Uuid::parse_str to read the text of a UUID, and on
/// uuid::Uuid::as_u128 for its big-endian value; the result depends on the text alone.
#[verifier::external_body]
pub(crate) fn parse_uuid(s: &str) -> (r: Option<u128>)
    ensures
        r == uuid_of(s@),
{
    match uuid::Uuid::parse_str(s) {
        Ok(u) => Some(u.as_u128()),
        Err(_) => None,
    }
}

} // verus!
