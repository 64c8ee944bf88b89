use vstd::prelude::*;
use crate::key_info::{AsymmetricSignature, Algorithm, KeyAttributes, KeyInfo, KeyTriple, TripleView};
use crate::key_info_manager::{triples_of, KeyInfoManager};
use crate::providers::{parse_uuid, uuid_of, ProviderInfo};
use crate::requests::{Opcode, ProviderId, ResponseStatus};

verus! {

/// One past the largest backend id the software backend accepts.
pub const ID_LIMIT: u64 = 0x1_0000_0000;

/// What the provider knows: the key store, the live backend ids and the id counter.
pub struct MbedState {
    pub keys: Map<TripleView, KeyInfo>,
    pub local_ids: Set<u32>,
    pub next_id: nat,
}

/// The triple of a key that `app` names `name` on this provider.
pub open spec fn mbed_triple(app: Seq<char>, name: Seq<char>) -> TripleView {
    (app, name, ProviderId::MbedCrypto)
}

/// `t` is a key of this provider in `keys`.
pub open spec fn is_local_key(keys: Map<TripleView, KeyInfo>, t: TripleView) -> bool {
    keys.contains_key(t) && t.2 == ProviderId::MbedCrypto
}

/// The store and the live ids mirror each other, and ids come from below the counter.
pub open spec fn consistent(s: MbedState) -> bool {
    // every stored key of this provider has a live backend id
    &&& forall|t: TripleView| #[trigger] is_local_key(s.keys, t) ==> s.local_ids.contains(s.keys[t].id)
    // every live id belongs to a stored key of this provider
    &&& forall|id: u32| #[trigger] s.local_ids.contains(id) ==> exists|t: TripleView|
        #[trigger] is_local_key(s.keys, t) && s.keys[t].id == id
    // and to one only
    &&& forall|t1: TripleView, t2: TripleView|
        #[trigger] is_local_key(s.keys, t1) && #[trigger] is_local_key(s.keys, t2) && s.keys[t1].id
            == s.keys[t2].id ==> t1 == t2
    &&& forall|id: u32| #[trigger] s.local_ids.contains(id) ==> id < s.next_id
    &&& 1 <= s.next_id <= ID_LIMIT
}

/// Result of reserving a backend id for a new key.
pub open spec fn allocate_spec(s: MbedState, t: TripleView) -> (MbedState, Result<u32, ResponseStatus>) {
    if s.keys.contains_key(t) {
        (s, Err(ResponseStatus::PsaErrorAlreadyExists))
    } else if s.next_id >= ID_LIMIT {
        (s, Err(ResponseStatus::PsaErrorInsufficientMemory))
    } else {
        (MbedState { next_id: s.next_id + 1, ..s }, Ok(s.next_id as u32))
    }
}

/// How the creation of a key ended.
#[derive(PartialEq, Eq, Structural, Clone, Copy, Debug)]
pub enum CreateOutcome {
    /// The key is recorded.
    Created,
    /// Nothing was recorded and nothing needs undoing.
    Refused(ResponseStatus),
    /// The backend key must be destroyed again; the client gets the status.
    RollBack(ResponseStatus),
}

/// Result of recording a key that the backend was asked to create under `id`.
pub open spec fn complete_create_spec(
    s: MbedState,
    t: TripleView,
    attributes: KeyAttributes,
    id: u32,
    backend: Result<(), ResponseStatus>,
) -> (MbedState, CreateOutcome) {
    match backend {
        Err(e) => (s, CreateOutcome::Refused(e)),
        Ok(()) => if s.local_ids.contains(id) || id >= s.next_id {
            (s, CreateOutcome::Refused(ResponseStatus::PsaErrorGenericError))
        } else if s.keys.contains_key(t) {
            (s, CreateOutcome::RollBack(ResponseStatus::PsaErrorAlreadyExists))
        } else {
            (
                MbedState {
                    keys: s.keys.insert(t, KeyInfo { id, attributes }),
                    local_ids: s.local_ids.insert(id),
                    next_id: s.next_id,
                },
                CreateOutcome::Created,
            )
        },
    }
}

/// Result of forgetting key `t` after the backend was asked to destroy it.
pub open spec fn destroy_spec(s: MbedState, t: TripleView, backend: Result<(), ResponseStatus>) -> (
    MbedState,
    Result<(), ResponseStatus>,
) {
    if !s.keys.contains_key(t) {
        (s, Err(ResponseStatus::PsaErrorDoesNotExist))
    } else {
        match backend {
            Err(e) => if e == ResponseStatus::PsaErrorDoesNotExist {
                (
                    MbedState {
                        keys: s.keys.remove(t),
                        local_ids: s.local_ids.remove(s.keys[t].id),
                        next_id: s.next_id,
                    },
                    Ok(()),
                )
            } else {
                (s, Err(e))
            },
            Ok(()) => (
                MbedState {
                    keys: s.keys.remove(t),
                    local_ids: s.local_ids.remove(s.keys[t].id),
                    next_id: s.next_id,
                },
                Ok(()),
            ),
        }
    }
}

/// What a client asks to do with an existing key.
#[derive(PartialEq, Eq, Structural, Clone, Copy, Debug)]
pub enum KeyUse {
    Sign(AsymmetricSignature),
    Verify(AsymmetricSignature),
    ExportPublic,
    Destroy,
}

/// Whether the policy in `attributes` allows `usage`.
pub open spec fn permits(attributes: KeyAttributes, usage: KeyUse) -> bool {
    match usage {
        KeyUse::Sign(alg) => attributes.policy.usage_flags.sign_hash
            && attributes.policy.permitted_algorithms == Algorithm::AsymmetricSignature(alg),
        KeyUse::Verify(alg) => attributes.policy.usage_flags.verify_hash
            && attributes.policy.permitted_algorithms == Algorithm::AsymmetricSignature(alg),
        KeyUse::ExportPublic => true,
        KeyUse::Destroy => true,
    }
}

/// Backend id to hand to the backend for `usage` of key `t`.
pub open spec fn key_for_use_spec(s: MbedState, t: TripleView, usage: KeyUse) -> Result<u32, ResponseStatus> {
    if !s.keys.contains_key(t) {
        Err(ResponseStatus::PsaErrorDoesNotExist)
    } else if !permits(s.keys[t].attributes, usage) {
        Err(ResponseStatus::PsaErrorNotPermitted)
    } else {
        Ok(s.keys[t].id)
    }
}

/// The identities of a sequence of triples.
pub open spec fn views(ts: Seq<KeyTriple>) -> Seq<TripleView> {
    ts.map_values(|t: KeyTriple| t@)
}

/// `ts` lists each key of this provider in `keys` exactly once.
pub open spec fn lists_local_keys(keys: Map<TripleView, KeyInfo>, ts: Seq<TripleView>) -> bool {
    &&& forall|i: int, j: int| 0 <= i < ts.len() && 0 <= j < ts.len() && i != j ==> ts[i] != ts[j]
    &&& forall|i: int| 0 <= i < ts.len() ==> #[trigger] is_local_key(keys, ts[i])
    &&& forall|t: TripleView| #[trigger] is_local_key(keys, t) ==> exists|i: int| 0 <= i < ts.len() && ts[i] == t
}

/// Opening some stored key failed for another reason than its absence.
pub open spec fn open_failed(opens: Seq<Result<(), ResponseStatus>>) -> bool {
    exists|i: int|
        0 <= i < opens.len() && #[trigger] opens[i] is Err && opens[i] != Err::<(), ResponseStatus>(
            ResponseStatus::PsaErrorDoesNotExist,
        )
}

/// Two keys that the backend still holds are stored under the same backend id.
pub open spec fn ids_clash(
    keys: Map<TripleView, KeyInfo>,
    ts: Seq<TripleView>,
    opens: Seq<Result<(), ResponseStatus>>,
) -> bool {
    exists|i: int, j: int|
        0 <= i < ts.len() && 0 <= j < ts.len() && i != j && #[trigger] opens[i] is Ok
            && #[trigger] opens[j] is Ok && keys[ts[i]].id == keys[ts[j]].id
}

/// The stored keys that the backend no longer holds.
pub open spec fn stale(ts: Seq<TripleView>, opens: Seq<Result<(), ResponseStatus>>) -> Set<TripleView> {
    Set::new(
        |t: TripleView|
            exists|i: int|
                0 <= i < ts.len() && ts[i] == t && opens[i] == Err::<(), ResponseStatus>(
                    ResponseStatus::PsaErrorDoesNotExist,
                ),
    )
}

/// The identities of the first `n` triples of `ts`.
spec fn prefix_views(ts: Seq<KeyTriple>, n: int) -> Set<TripleView> {
    Set::new(|t: TripleView| exists|b: int| 0 <= b < n && ts[b]@ == t)
}

proof fn lemma_reconciled(
    keys: Map<TripleView, KeyInfo>,
    ts: Seq<TripleView>,
    opens: Seq<Result<(), ResponseStatus>>,
    ids: Seq<u32>,
    src: Seq<int>,
    next_id: nat,
)
    requires
        lists_local_keys(keys, ts),
        opens.len() == ts.len(),
        !open_failed(opens),
        !ids_clash(keys, ts, opens),
        src.len() == ids.len(),
        forall|a: int| 0 <= a < ids.len() ==> 0 <= #[trigger] src[a] < ts.len() && opens[src[a]] is Ok
            && ids[a] == keys[ts[src[a]]].id,
        forall|k: int| 0 <= k < ts.len() && #[trigger] opens[k] is Ok ==> ids.contains(keys[ts[k]].id),
        forall|a: int| 0 <= a < ids.len() ==> #[trigger] ids[a] < next_id,
        1 <= next_id <= ID_LIMIT,
    ensures
        consistent(MbedState { keys: keys.remove_keys(stale(ts, opens)), local_ids: ids.to_set(), next_id }),
{
    let st = stale(ts, opens);
    let s = MbedState { keys: keys.remove_keys(st), local_ids: ids.to_set(), next_id };
    assert forall|k: int| 0 <= k < ts.len() && #[trigger] opens[k] is Ok implies is_local_key(s.keys, ts[k]) by {
        assert(is_local_key(keys, ts[k]));
        if st.contains(ts[k]) {
            let k2 = choose|k2: int| 0 <= k2 < ts.len() && ts[k2] == ts[k] && opens[k2] == Err::<(), ResponseStatus>(
                ResponseStatus::PsaErrorDoesNotExist);
            assert(k2 == k);
        }
    }
    assert forall|t: TripleView| #[trigger] is_local_key(s.keys, t) implies exists|k: int| 0 <= k < ts.len() && ts[k] == t && opens[k] is Ok by {
        assert(is_local_key(keys, t));
        let k = choose|k: int| 0 <= k < ts.len() && ts[k] == t;
        if opens[k] is Err {
            assert(!open_failed(opens));
            assert(opens[k] == Err::<(), ResponseStatus>(ResponseStatus::PsaErrorDoesNotExist));
            assert(st.contains(t));
        }
    }
    assert forall|t: TripleView| #[trigger] is_local_key(s.keys, t) implies s.local_ids.contains(s.keys[t].id) by {
        let k = choose|k: int| 0 <= k < ts.len() && ts[k] == t && opens[k] is Ok;
        assert(ids.contains(keys[ts[k]].id));
    }
    assert forall|u: u32| #[trigger] s.local_ids.contains(u) implies exists|t: TripleView|
        #[trigger] is_local_key(s.keys, t) && s.keys[t].id == u by {
        let a = choose|a: int| 0 <= a < ids.len() && ids[a] == u;
        let k = src[a];
        assert(is_local_key(s.keys, ts[k]));
    }
    assert forall|t1: TripleView, t2: TripleView|
        #[trigger] is_local_key(s.keys, t1) && #[trigger] is_local_key(s.keys, t2) && s.keys[t1].id
            == s.keys[t2].id implies t1 == t2 by {
        let k1 = choose|k: int| 0 <= k < ts.len() && ts[k] == t1 && opens[k] is Ok;
        let k2 = choose|k: int| 0 <= k < ts.len() && ts[k] == t2 && opens[k] is Ok;
        if k1 != k2 {
            assert(ids_clash(keys, ts, opens));
        }
    }
    assert forall|u: u32| #[trigger] s.local_ids.contains(u) implies u < s.next_id by {
        let a = choose|a: int| 0 <= a < ids.len() && ids[a] == u;
    }
}

/// Text of the UUID assigned to this provider.
pub const MBED_UUID: &'static str = "1c1139dc-ad7c-47dc-ad6b-db6fdb466552";

/// Operations this provider serves.
pub open spec fn mbed_opcodes() -> Seq<Opcode> {
    seq![
        Opcode::PsaGenerateKey,
        Opcode::PsaDestroyKey,
        Opcode::PsaSignHash,
        Opcode::PsaVerifyHash,
        Opcode::PsaImportKey,
        Opcode::PsaExportPublicKey,
    ]
}

/// The description of this provider, given what its UUID text reads as.
pub open spec fn describes_mbed(r: Result<(ProviderInfo, Vec<Opcode>), ResponseStatus>, uuid: Option<u128>) -> bool {
    match uuid {
        None => r == Err::<(ProviderInfo, Vec<Opcode>), ResponseStatus>(ResponseStatus::InvalidEncoding),
        Some(u) => match r {
            Ok((info, ops)) => {
                &&& info.uuid == u
                &&& info.description@ == "User space software provider, based on Mbed Crypto - the reference implementation of the PSA crypto API"@
                &&& info.vendor@ == "Arm"@
                &&& info.version_maj == 0 && info.version_min == 1 && info.version_rev == 0
                &&& info.id == ProviderId::MbedCrypto
                &&& ops@ == mbed_opcodes()
            },
            Err(_) => false,
        },
    }
}

/// Builds the description of this provider from the value its UUID text reads as.
pub fn describe_with_uuid(uuid: Option<u128>) -> (r: Result<(ProviderInfo, Vec<Opcode>), ResponseStatus>)
    ensures
        describes_mbed(r, uuid),
{
    let u = match uuid {
        Some(u) => u,
        None => {
            return Err(ResponseStatus::InvalidEncoding);
        },
    };
    let info = ProviderInfo {
        uuid: u,
        description: String::from_str(
            "User space software provider, based on Mbed Crypto - the reference implementation of the PSA crypto API",
        ),
        vendor: String::from_str("Arm"),
        version_maj: 0,
        version_min: 1,
        version_rev: 0,
        id: ProviderId::MbedCrypto,
    };
    let ops = vec![
        Opcode::PsaGenerateKey,
        Opcode::PsaDestroyKey,
        Opcode::PsaSignHash,
        Opcode::PsaVerifyHash,
        Opcode::PsaImportKey,
        Opcode::PsaExportPublicKey,
    ];
    proof {
        reveal_strlit("User space software provider, based on Mbed Crypto - the reference implementation of the PSA crypto API");
        reveal_strlit("Arm");
        assert(ops@ =~= mbed_opcodes());
    }
    Ok((info, ops))
}

/// The software provider: key store, live backend ids and the id counter.
pub struct MbedProvider {
    key_info_store: KeyInfoManager,
    local_ids: Vec<u32>,
    next_id: u64,
}

impl View for MbedProvider {
    type V = MbedState;

    closed spec fn view(&self) -> MbedState {
        MbedState {
            keys: self.key_info_store@,
            local_ids: self.local_ids@.to_set(),
            next_id: self.next_id as nat,
        }
    }
}

/// Whether the policy in `attributes` allows `usage`.
pub fn permitted(attributes: &KeyAttributes, usage: KeyUse) -> (r: bool)
    ensures
        r == permits(*attributes, usage),
{
    match usage {
        KeyUse::Sign(alg) => attributes.policy.usage_flags.sign_hash
            && attributes.policy.permitted_algorithms == Algorithm::AsymmetricSignature(alg),
        KeyUse::Verify(alg) => attributes.policy.usage_flags.verify_hash
            && attributes.policy.permitted_algorithms == Algorithm::AsymmetricSignature(alg),
        KeyUse::ExportPublic => true,
        KeyUse::Destroy => true,
    }
}

fn contains_id(ids: &Vec<u32>, id: u32) -> (r: bool)
    ensures
        r == ids@.contains(id),
{
    let mut i: usize = 0;
    while i < ids.len()
        invariant
            i <= ids@.len(),
            forall|k: int| 0 <= k < i ==> ids@[k] != id,
        decreases ids@.len() - i,
    {
        if ids[i] == id {
            return true;
        }
        i = i + 1;
    }
    false
}

impl MbedProvider {
    /// Description of this provider and the operations it serves.
    pub fn describe(&self) -> (r: Result<(ProviderInfo, Vec<Opcode>), ResponseStatus>)
        ensures
            describes_mbed(r, uuid_of(MBED_UUID@)),
    {
        describe_with_uuid(parse_uuid(MBED_UUID))
    }

    /// The key store the provider works on.
    pub fn key_info_store(&self) -> (r: &KeyInfoManager)
        requires
            self.wf(),
        ensures
            r.wf(),
            r@ == self@.keys,
    {
        &self.key_info_store
    }

    /// The id counter to persist, so that ids are not reused after a restart.
    pub fn next_id(&self) -> (r: u64)
        ensures
            r == self@.next_id,
    {
        self.next_id
    }

    pub closed spec fn wf(&self) -> bool {
        &&& self.key_info_store.wf()
        &&& self.local_ids@.no_duplicates()
        &&& consistent(self@)
    }

    /// A running provider keeps its store and its live ids mirrored: each stored key of
    /// the provider has its backend id live, and each live id belongs to exactly one
    /// stored key of the provider.
    pub proof fn lemma_mirror(&self)
        requires
            self.wf(),
        ensures
            forall|t: TripleView| #[trigger] is_local_key(self@.keys, t) ==> self@.local_ids.contains(self@.keys[t].id),
            forall|id: u32| #[trigger] self@.local_ids.contains(id) ==> exists|t: TripleView|
                #[trigger] is_local_key(self@.keys, t) && self@.keys[t].id == id,
            forall|t1: TripleView, t2: TripleView|
                #[trigger] is_local_key(self@.keys, t1) && #[trigger] is_local_key(self@.keys, t2)
                    && self@.keys[t1].id == self@.keys[t2].id ==> t1 == t2,
    {
    }

    /// Builds the provider over `key_info_store` at startup. `triples` lists the keys of
    /// this provider in the store and `opens[i]` is what the backend answered when asked
    /// to open the key of `triples[i]`. Keys the backend no longer holds are removed from
    /// the store; any other failure to open a key, or two live keys sharing a backend id,
    /// stops the start. `id_counter` is the persisted id counter.
    #[verifier::rlimit(100)]
    pub fn new(
        key_info_store: KeyInfoManager,
        triples: &Vec<KeyTriple>,
        opens: &Vec<Result<(), ResponseStatus>>,
        id_counter: u64,
    ) -> (r: Option<MbedProvider>)
        requires
            key_info_store.wf(),
            lists_local_keys(key_info_store@, views(triples@)),
            opens@.len() == triples@.len(),
        ensures
            r is None <==> open_failed(opens@) || ids_clash(key_info_store@, views(triples@), opens@),
            r matches Some(p) ==> {
                &&& p.wf()
                &&& p@.keys == key_info_store@.remove_keys(stale(views(triples@), opens@))
                &&& p@.next_id >= id_counter || p@.next_id == ID_LIMIT
            },
    {
        let ghost keys = key_info_store@;
        let ghost ts = views(triples@);
        let mut store = key_info_store;
        let mut local_ids: Vec<u32> = Vec::new();
        let mut to_remove: Vec<KeyTriple> = Vec::new();
        let mut next_id: u64 = if id_counter == 0 {
            1
        } else if id_counter > ID_LIMIT {
            ID_LIMIT
        } else {
            id_counter
        };
        let ghost mut src: Seq<int> = Seq::empty();
        let ghost mut rsrc: Seq<int> = Seq::empty();
        let mut i: usize = 0;
        while i < triples.len()
            invariant
                store.wf(),
                store@ == keys,
                key_info_store@ == keys,
                ts == views(triples@),
                ts.len() == triples@.len(),
                lists_local_keys(keys, ts),
                opens@.len() == triples@.len(),
                i <= triples@.len(),
                local_ids@.no_duplicates(),
                1 <= next_id <= ID_LIMIT,
                next_id >= id_counter || next_id == ID_LIMIT,
                src.len() == local_ids@.len(),
                forall|a: int| 0 <= a < src.len() ==> 0 <= #[trigger] src[a] < i && opens@[src[a]] is Ok
                    && local_ids@[a] == keys[ts[src[a]]].id && local_ids@[a] < next_id,
                forall|k: int| 0 <= k < i && #[trigger] opens@[k] is Ok ==> local_ids@.contains(keys[ts[k]].id),
                forall|k: int| 0 <= k < i ==> #[trigger] opens@[k] is Ok || opens@[k] == Err::<(), ResponseStatus>(ResponseStatus::PsaErrorDoesNotExist),
                forall|k1: int, k2: int|
                    0 <= k1 < i && 0 <= k2 < i && k1 != k2 && #[trigger] opens@[k1] is Ok
                        && #[trigger] opens@[k2] is Ok ==> keys[ts[k1]].id != keys[ts[k2]].id,
                rsrc.len() == to_remove@.len(),
                forall|b: int| 0 <= b < rsrc.len() ==> 0 <= #[trigger] rsrc[b] < i && opens@[rsrc[b]] == Err::<(), ResponseStatus>(ResponseStatus::PsaErrorDoesNotExist)
                    && to_remove@[b]@ == ts[rsrc[b]],
                forall|k: int| 0 <= k < i && #[trigger] opens@[k] == Err::<(), ResponseStatus>(ResponseStatus::PsaErrorDoesNotExist) ==> views(to_remove@).contains(ts[k]),
            decreases triples@.len() - i,
        {
            assert(ts[i as int] == triples@[i as int]@);
            assert(is_local_key(keys, ts[i as int]));
            let info = match store.get(&triples[i]) {
                Some(info) => info,
                None => {
                    return None;
                },
            };
            assert(keys[ts[i as int]].id == info.id);
            match opens[i] {
                Ok(()) => {
                    proof {
                        local_ids@.unique_seq_to_set();
                    }
                    if contains_id(&local_ids, info.id) {
                        let ghost a = choose|a: int| 0 <= a < local_ids@.len() && local_ids@[a] == info.id;
                        let ghost k = src[a];
                        assert(ids_clash(keys, ts, opens@)) by {
                            assert(opens@[k] is Ok && opens@[i as int] is Ok);
                            assert(keys[ts[k]].id == keys[ts[i as int]].id);
                        }
                        return None;
                    }
                    let ghost old_ids = local_ids@;
                    local_ids.push(info.id);
                    if info.id as u64 >= next_id {
                        next_id = info.id as u64 + 1;
                    }
                    proof {
                        let old_src = src;
                        src = src.push(i as int);
                        assert(local_ids@.no_duplicates()) by {
                            assert forall|a: int, b: int| 0 <= a < b < local_ids@.len() implies local_ids@[a] != local_ids@[b] by {
                                assert(old_ids[a] == local_ids@[a]);
                                if b < old_ids.len() {
                                    assert(old_ids[b] == local_ids@[b]);
                                }
                            }
                        }
                        assert forall|a: int| 0 <= a < src.len() implies 0 <= #[trigger] src[a] < i + 1 && opens@[src[a]] is Ok
                            && local_ids@[a] == keys[ts[src[a]]].id && local_ids@[a] < next_id by {
                            if a < old_src.len() {
                                assert(old_src[a] == src[a] && old_ids[a] == local_ids@[a]);
                            }
                        }
                        assert forall|k: int| 0 <= k < i + 1 && #[trigger] opens@[k] is Ok implies local_ids@.contains(keys[ts[k]].id) by {
                            if k < i {
                                let a = choose|a: int| 0 <= a < old_ids.len() && old_ids[a] == keys[ts[k]].id;
                                assert(local_ids@[a] == old_ids[a]);
                            } else {
                                assert(local_ids@[old_ids.len() as int] == info.id);
                            }
                        }
                        assert forall|k1: int, k2: int|
                            0 <= k1 < i + 1 && 0 <= k2 < i + 1 && k1 != k2 && #[trigger] opens@[k1] is Ok
                                && #[trigger] opens@[k2] is Ok implies keys[ts[k1]].id != keys[ts[k2]].id by {
                            if k1 == i {
                                assert(old_ids.contains(keys[ts[k2]].id));
                            } else if k2 == i {
                                assert(old_ids.contains(keys[ts[k1]].id));
                            }
                        }
                    }
                },
                Err(e) => {
                    if e != ResponseStatus::PsaErrorDoesNotExist {
                        assert(opens@[i as int] is Err);
                        assert(open_failed(opens@));
                        return None;
                    }
                    let ghost old_rm = to_remove@;
                    to_remove.push(triples[i].duplicate());
                    proof {
                        let old_rsrc = rsrc;
                        rsrc = rsrc.push(i as int);
                        assert forall|b: int| 0 <= b < rsrc.len() implies 0 <= #[trigger] rsrc[b] < i + 1 && opens@[rsrc[b]] == Err::<(), ResponseStatus>(ResponseStatus::PsaErrorDoesNotExist)
                            && to_remove@[b]@ == ts[rsrc[b]] by {
                            if b < old_rsrc.len() {
                                assert(old_rsrc[b] == rsrc[b] && old_rm[b] == to_remove@[b]);
                            }
                        }
                        assert forall|k: int| 0 <= k < i + 1 && #[trigger] opens@[k] == Err::<(), ResponseStatus>(ResponseStatus::PsaErrorDoesNotExist) implies views(to_remove@).contains(ts[k]) by {
                            if k < i {
                                let b = choose|b: int| 0 <= b < views(old_rm).len() && views(old_rm)[b] == ts[k];
                                assert(views(to_remove@)[b] == ts[k]);
                            } else {
                                assert(views(to_remove@)[old_rm.len() as int] == ts[k]);
                            }
                        }
                    }
                },
            }
            i = i + 1;
        }
        let ghost st = stale(ts, opens@);
        let mut j: usize = 0;
        while j < to_remove.len()
            invariant
                store.wf(),
                j <= to_remove@.len(),
                store@ == keys.remove_keys(prefix_views(to_remove@, j as int)),
            decreases to_remove@.len() - j,
        {
            let _ = store.remove(&to_remove[j]);
            proof {
                let x = to_remove@[j as int]@;
                assert(prefix_views(to_remove@, j + 1) =~= prefix_views(to_remove@, j as int).insert(x)) by {
                    assert forall|t: TripleView| #[trigger] prefix_views(to_remove@, j + 1).contains(t) implies
                        prefix_views(to_remove@, j as int).insert(x).contains(t) by {
                        let b = choose|b: int| 0 <= b < j + 1 && to_remove@[b]@ == t;
                        if b < j {
                            assert(prefix_views(to_remove@, j as int).contains(t));
                        }
                    }
                    assert forall|t: TripleView| #[trigger] prefix_views(to_remove@, j as int).insert(x).contains(t) implies
                        prefix_views(to_remove@, j + 1).contains(t) by {
                        if t != x {
                            let b = choose|b: int| 0 <= b < j && to_remove@[b]@ == t;
                            assert(0 <= b < j + 1 && to_remove@[b]@ == t);
                        } else {
                            assert(0 <= j < j + 1 && to_remove@[j as int]@ == t);
                        }
                    }
                }
                assert(store@ =~= keys.remove_keys(prefix_views(to_remove@, j + 1)));
            }
            j = j + 1;
        }
        proof {
            assert(prefix_views(to_remove@, to_remove@.len() as int) =~= st) by {
                assert forall|t: TripleView| st.contains(t) implies #[trigger] prefix_views(to_remove@, to_remove@.len() as int).contains(t) by {
                    let k = choose|k: int| 0 <= k < ts.len() && ts[k] == t && opens@[k] == Err::<(), ResponseStatus>(
                        ResponseStatus::PsaErrorDoesNotExist);
                    let b = choose|b: int| 0 <= b < views(to_remove@).len() && views(to_remove@)[b] == ts[k];
                    assert(to_remove@[b]@ == t);
                }
                assert forall|t: TripleView| #[trigger] prefix_views(to_remove@, to_remove@.len() as int).contains(t) implies st.contains(t) by {
                    let b = choose|b: int| 0 <= b < to_remove@.len() && to_remove@[b]@ == t;
                    let k = rsrc[b];
                    assert(ts[k] == t);
                }
            }
            assert(!open_failed(opens@)) by {
                if open_failed(opens@) {
                    let k = choose|k: int| 0 <= k < opens@.len() && #[trigger] opens@[k] is Err && opens@[k] != Err::<(), ResponseStatus>(
                        ResponseStatus::PsaErrorDoesNotExist);
                    assert(opens@[k] is Ok || opens@[k] == Err::<(), ResponseStatus>(ResponseStatus::PsaErrorDoesNotExist));
                }
            }
            assert(!ids_clash(keys, ts, opens@));
            assert forall|a: int| 0 <= a < local_ids@.len() implies #[trigger] local_ids@[a] < next_id by {
                assert(0 <= src[a] < i);
            }
            lemma_reconciled(keys, ts, opens@, local_ids@, src, next_id as nat);
            local_ids@.unique_seq_to_set();
        }
        Some(MbedProvider { key_info_store: store, local_ids, next_id })
    }

    /// Reserves the backend id for a new key `key_name` of `app_name`.
    pub fn allocate_key_id(&mut self, app_name: &String, key_name: &String) -> (r: Result<u32, ResponseStatus>)
        requires
            old(self).wf(),
        ensures
            final(self).wf(),
            (final(self)@, r) == allocate_spec(old(self)@, mbed_triple(app_name@, key_name@)),
    {
        let triple = KeyTriple::new(app_name.clone(), key_name.clone(), ProviderId::MbedCrypto);
        if self.key_info_store.key_exists(&triple) {
            return Err(ResponseStatus::PsaErrorAlreadyExists);
        }
        if self.next_id >= ID_LIMIT {
            return Err(ResponseStatus::PsaErrorInsufficientMemory);
        }
        let id = self.next_id as u32;
        let ghost s0 = self@;
        self.next_id = self.next_id + 1;
        assert(self@.keys == s0.keys && self@.local_ids == s0.local_ids);
        Ok(id)
    }

    /// Records key `key_name` of `app_name` once the backend answered the request to
    /// create it under `id`.
    pub fn complete_create(
        &mut self,
        app_name: &String,
        key_name: &String,
        attributes: KeyAttributes,
        id: u32,
        backend: Result<(), ResponseStatus>,
    ) -> (r: CreateOutcome)
        requires
            old(self).wf(),
        ensures
            final(self).wf(),
            (final(self)@, r) == complete_create_spec(
                old(self)@,
                mbed_triple(app_name@, key_name@),
                attributes,
                id,
                backend,
            ),
    {
        match backend {
            Err(e) => CreateOutcome::Refused(e),
            Ok(()) => {
                proof {
                    self.local_ids@.unique_seq_to_set();
                }
                if contains_id(&self.local_ids, id) || id as u64 >= self.next_id {
                    return CreateOutcome::Refused(ResponseStatus::PsaErrorGenericError);
                }
                let triple = KeyTriple::new(app_name.clone(), key_name.clone(), ProviderId::MbedCrypto);
                let ghost s0 = self@;
                let info = KeyInfo { id, attributes };
                match self.key_info_store.insert(triple, info) {
                    Err(_) => CreateOutcome::RollBack(ResponseStatus::PsaErrorAlreadyExists),
                    Ok(()) => {
                        let ghost old_ids = self.local_ids@;
                        self.local_ids.push(id);
                        proof {
                            let t = mbed_triple(app_name@, key_name@);
                            old_ids.lemma_push_to_set_commute(id);
                            assert(self.local_ids@ == old_ids.push(id));
                            let s1 = self@;
                            assert(s1.keys == s0.keys.insert(t, info));
                            assert(!s0.keys.contains_key(t));
                            assert forall|u: u32| #[trigger] s1.local_ids.contains(u) implies exists|t2: TripleView|
                                #[trigger] is_local_key(s1.keys, t2) && s1.keys[t2].id == u by {
                                if u == id {
                                    assert(is_local_key(s1.keys, t));
                                } else {
                                    assert(s0.local_ids.contains(u));
                                    let t2 = choose|t2: TripleView| #[trigger] is_local_key(s0.keys, t2) && s0.keys[t2].id == u;
                                    assert(t2 != t);
                                    assert(is_local_key(s1.keys, t2) && s1.keys[t2].id == u);
                                }
                            }
                            assert forall|t1: TripleView, t2: TripleView|
                                #[trigger] is_local_key(s1.keys, t1) && #[trigger] is_local_key(s1.keys, t2) && s1.keys[t1].id
                                    == s1.keys[t2].id implies t1 == t2 by {
                                if t1 != t && t2 != t {
                                    assert(is_local_key(s0.keys, t1) && is_local_key(s0.keys, t2));
                                } else if t1 != t {
                                    assert(is_local_key(s0.keys, t1));
                                } else if t2 != t {
                                    assert(is_local_key(s0.keys, t2));
                                }
                            }
                            assert forall|t2: TripleView| #[trigger] is_local_key(s1.keys, t2) implies s1.local_ids.contains(s1.keys[t2].id) by {
                                if t2 != t {
                                    assert(is_local_key(s0.keys, t2));
                                }
                            }
                            assert(!old_ids.contains(id));
                            assert(self.local_ids@.no_duplicates()) by {
                                assert forall|a: int, b: int| 0 <= a < b < self.local_ids@.len() implies self.local_ids@[a] != self.local_ids@[b] by {
                                    if b == old_ids.len() {
                                        assert(old_ids[a] == self.local_ids@[a]);
                                    } else {
                                        assert(old_ids[a] == self.local_ids@[a] && old_ids[b] == self.local_ids@[b]);
                                    }
                                }
                            }
                            assert forall|u: u32| #[trigger] s1.local_ids.contains(u) implies u < s1.next_id by {
                                if u != id {
                                    assert(s0.local_ids.contains(u));
                                }
                            }
                        }
                        CreateOutcome::Created
                    },
                }
            },
        }
    }

    /// Forgets key `key_name` of `app_name` once the backend answered the request to
    /// destroy it. A backend that no longer holds the key counts as success.
    pub fn complete_destroy(&mut self, app_name: &String, key_name: &String, backend: Result<(), ResponseStatus>) -> (r: Result<(), ResponseStatus>)
        requires
            old(self).wf(),
        ensures
            final(self).wf(),
            (final(self)@, r) == destroy_spec(old(self)@, mbed_triple(app_name@, key_name@), backend),
    {
        let triple = KeyTriple::new(app_name.clone(), key_name.clone(), ProviderId::MbedCrypto);
        if !self.key_info_store.key_exists(&triple) {
            return Err(ResponseStatus::PsaErrorDoesNotExist);
        }
        match backend {
            Err(e) => {
                if e != ResponseStatus::PsaErrorDoesNotExist {
                    return Err(e);
                }
            },
            Ok(()) => {},
        }
        let ghost s0 = self@;
        let ghost t = triple@;
        let info = match self.key_info_store.remove(&triple) {
            Ok(info) => info,
            Err(_) => {
                return Err(ResponseStatus::PsaErrorDoesNotExist);
            },
        };
        assert(is_local_key(s0.keys, t));
        let id = info.id;
        let mut k: usize = 0;
        while k < self.local_ids.len() && self.local_ids[k] != id
            invariant
                k <= self.local_ids@.len(),
                forall|j: int| 0 <= j < k ==> self.local_ids@[j] != id,
            decreases self.local_ids@.len() - k,
        {
            k = k + 1;
        }
        assert(self.local_ids@.to_set().contains(id));
        assert(k < self.local_ids@.len() && self.local_ids@[k as int] == id);
        let ghost old_ids = self.local_ids@;
        self.local_ids.remove(k);
        proof {
            let s1 = self@;
            assert(s1.keys == s0.keys.remove(t));
            assert(self.local_ids@ == old_ids.remove(k as int));
            assert forall|j: int| 0 <= j < self.local_ids@.len() implies #[trigger] self.local_ids@[j] == old_ids[if j < k { j } else { j + 1 }] by {}
            assert(s1.local_ids =~= s0.local_ids.remove(id)) by {
                assert forall|x: u32| s1.local_ids.contains(x) <==> s0.local_ids.contains(x) && x != id by {
                    if s1.local_ids.contains(x) {
                        let j = choose|j: int| 0 <= j < self.local_ids@.len() && self.local_ids@[j] == x;
                        let oj = if j < k { j } else { j + 1 };
                        assert(old_ids[oj] == x);
                        assert(oj != k);
                    }
                    if s0.local_ids.contains(x) && x != id {
                        let oj = choose|oj: int| 0 <= oj < old_ids.len() && old_ids[oj] == x;
                        assert(oj != k);
                        let j = if oj < k { oj } else { oj - 1 };
                        assert(self.local_ids@[j] == x);
                    }
                }
            }
            assert(self.local_ids@.no_duplicates()) by {
                assert forall|a: int, b: int| 0 <= a < b < self.local_ids@.len() implies self.local_ids@[a] != self.local_ids@[b] by {
                    let oa = if a < k { a } else { a + 1 };
                    let ob = if b < k { b } else { b + 1 };
                    assert(old_ids[oa] == self.local_ids@[a] && old_ids[ob] == self.local_ids@[b]);
                }
            }
            assert forall|t2: TripleView| #[trigger] is_local_key(s1.keys, t2) implies s1.local_ids.contains(s1.keys[t2].id) by {
                assert(is_local_key(s0.keys, t2));
                assert(t2 != t);
            }
            assert forall|u: u32| #[trigger] s1.local_ids.contains(u) implies exists|t2: TripleView|
                #[trigger] is_local_key(s1.keys, t2) && s1.keys[t2].id == u by {
                let t2 = choose|t2: TripleView| #[trigger] is_local_key(s0.keys, t2) && s0.keys[t2].id == u;
                assert(t2 != t);
                assert(is_local_key(s1.keys, t2));
            }
            assert forall|t1: TripleView, t2: TripleView|
                #[trigger] is_local_key(s1.keys, t1) && #[trigger] is_local_key(s1.keys, t2) && s1.keys[t1].id
                    == s1.keys[t2].id implies t1 == t2 by {
                assert(is_local_key(s0.keys, t1) && is_local_key(s0.keys, t2));
            }
            assert forall|u: u32| #[trigger] s1.local_ids.contains(u) implies u < s1.next_id by {
                assert(s0.local_ids.contains(u));
            }
        }
        Ok(())
    }

    /// The backend id to use for `usage` of key `key_name` of `app_name`, after the
    /// key's policy has been checked.
    pub fn key_for_use(&self, app_name: &String, key_name: &String, usage: KeyUse) -> (r: Result<u32, ResponseStatus>)
        requires
            self.wf(),
        ensures
            r == key_for_use_spec(self@, mbed_triple(app_name@, key_name@), usage),
    {
        let triple = KeyTriple::new(app_name.clone(), key_name.clone(), ProviderId::MbedCrypto);
        match self.key_info_store.get(&triple) {
            None => Err(ResponseStatus::PsaErrorDoesNotExist),
            Some(info) => {
                if permitted(&info.attributes, usage) {
                    Ok(info.id)
                } else {
                    Err(ResponseStatus::PsaErrorNotPermitted)
                }
            },
        }
    }
}

} // verus!

verus! {

/// Why a software provider could not be built.
#[derive(PartialEq, Eq, Structural, Clone, Copy, Debug)]
pub enum BuildError {
    MissingKeyInfoStore,
    InitializationFailed,
}

/// Collects what the software provider needs before it starts.
pub struct MbedProviderBuilder {
    key_info_store: Option<KeyInfoManager>,
}

impl MbedProviderBuilder {
    /// The key info store given so far.
    pub closed spec fn store(&self) -> Option<KeyInfoManager> {
        self.key_info_store
    }

    pub fn new() -> (r: MbedProviderBuilder)
        ensures
            r.store() is None,
    {
        MbedProviderBuilder { key_info_store: None }
    }

    pub fn with_key_info_store(self, key_info_store: KeyInfoManager) -> (r: MbedProviderBuilder)
        ensures
            r.store() == Some(key_info_store),
    {
        let mut b = self;
        b.key_info_store = Some(key_info_store);
        b
    }

    /// Starts the provider over the store given; see `MbedProvider::new` for `triples`,
    /// `opens` and `id_counter`.
    pub fn build(
        self,
        triples: &Vec<KeyTriple>,
        opens: &Vec<Result<(), ResponseStatus>>,
        id_counter: u64,
    ) -> (r: Result<MbedProvider, BuildError>)
        requires
            self.store() matches Some(k) ==> k.wf() && lists_local_keys(k@, views(triples@))
                && opens@.len() == triples@.len(),
        ensures
            self.store() is None ==> r == Err::<MbedProvider, BuildError>(BuildError::MissingKeyInfoStore),
            self.store() matches Some(k) ==> {
                &&& (r is Err <==> open_failed(opens@) || ids_clash(k@, views(triples@), opens@))
                &&& r is Err ==> r == Err::<MbedProvider, BuildError>(BuildError::InitializationFailed)
                &&& r matches Ok(p) ==> {
                    &&& p.wf()
                    &&& p@.keys == k@.remove_keys(stale(views(triples@), opens@))
                    &&& p@.next_id >= id_counter || p@.next_id == ID_LIMIT
                }
            },
    {
        match self.key_info_store {
            None => Err(BuildError::MissingKeyInfoStore),
            Some(k) => match MbedProvider::new(k, triples, opens, id_counter) {
                Some(p) => Ok(p),
                None => Err(BuildError::InitializationFailed),
            },
        }
    }
}

} // verus!
