//! Laws of the key lifecycle of the software provider.
use vstd::prelude::*;
use crate::key_info::{KeyAttributes, TripleView};
use crate::mbed_provider::{
    allocate_spec, complete_create_spec, consistent, destroy_spec, CreateOutcome, MbedState,
};
use crate::requests::{ProviderId, ResponseStatus};

verus! {

/// Creating a key that exists is refused, and no backend id is used up for it.
pub proof fn lemma_create_existing_refused(s: MbedState, t: TripleView)
    requires
        s.keys.contains_key(t),
    ensures
        allocate_spec(s, t) == (s, Err::<u32, ResponseStatus>(ResponseStatus::PsaErrorAlreadyExists)),
{
}

/// After a key was created, creating it again is refused and no new backend id is used up.
pub proof fn lemma_create_twice(
    s: MbedState,
    t: TripleView,
    attributes: KeyAttributes,
    id: u32,
)
    requires
        consistent(s),
        allocate_spec(s, t).1 == Ok::<u32, ResponseStatus>(id),
        complete_create_spec(allocate_spec(s, t).0, t, attributes, id, Ok(())).1 == CreateOutcome::Created,
    ensures
        ({
            let s2 = complete_create_spec(allocate_spec(s, t).0, t, attributes, id, Ok(())).0;
            allocate_spec(s2, t) == (s2, Err::<u32, ResponseStatus>(ResponseStatus::PsaErrorAlreadyExists))
        }),
{
}

/// Destroying a key that was just destroyed reports that it does not exist and changes nothing.
pub proof fn lemma_destroy_twice(
    s: MbedState,
    t: TripleView,
    first: Result<(), ResponseStatus>,
    second: Result<(), ResponseStatus>,
)
    requires
        destroy_spec(s, t, first).1 is Ok,
    ensures
        ({
            let s1 = destroy_spec(s, t, first).0;
            destroy_spec(s1, t, second) == (s1, Err::<(), ResponseStatus>(ResponseStatus::PsaErrorDoesNotExist))
        }),
{
}

/// Creating, destroying and creating again the same key gives the second key a larger
/// backend id than the first, so backend ids are never reused.
pub proof fn lemma_recreate_gets_fresh_id(
    s: MbedState,
    t: TripleView,
    attributes: KeyAttributes,
    id: u32,
    backend: Result<(), ResponseStatus>,
)
    requires
        consistent(s),
        allocate_spec(s, t).1 == Ok::<u32, ResponseStatus>(id),
        complete_create_spec(allocate_spec(s, t).0, t, attributes, id, Ok(())).1 == CreateOutcome::Created,
        destroy_spec(complete_create_spec(allocate_spec(s, t).0, t, attributes, id, Ok(())).0, t, backend).1 is Ok,
    ensures
        ({
            let s3 = destroy_spec(
                complete_create_spec(allocate_spec(s, t).0, t, attributes, id, Ok(())).0,
                t,
                backend,
            ).0;
            &&& allocate_spec(s3, t).1 != Err::<u32, ResponseStatus>(ResponseStatus::PsaErrorAlreadyExists)
            &&& allocate_spec(s3, t).1 matches Ok(id2) ==> id2 > id
        }),
{
}

/// Creating or destroying a key of the software provider leaves the keys of every other
/// provider as they were, even those with the same application and name.
pub proof fn lemma_other_providers_untouched(
    s: MbedState,
    t: TripleView,
    attributes: KeyAttributes,
    id: u32,
    backend: Result<(), ResponseStatus>,
    other: TripleView,
)
    requires
        t.2 == ProviderId::MbedCrypto,
        other.2 != ProviderId::MbedCrypto,
    ensures
        destroy_spec(s, t, backend).0.keys.contains_key(other) == s.keys.contains_key(other),
        destroy_spec(s, t, backend).0.keys[other] == s.keys[other],
        complete_create_spec(s, t, attributes, id, backend).0.keys.contains_key(other)
            == s.keys.contains_key(other),
        complete_create_spec(s, t, attributes, id, backend).0.keys[other] == s.keys[other],
{
}

} // verus!
