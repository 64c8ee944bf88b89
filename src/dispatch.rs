use vstd::prelude::*;
use crate::requests::{Opcode, ProviderId, ResponseStatus};

verus! {

/// Routing table of the service: each registered provider with the operations it serves.
pub struct Dispatcher {
    providers: Vec<(ProviderId, Vec<Opcode>)>,
}

/// Index of the first entry of `table` registered for `id`, if any.
pub open spec fn registered_at(table: Seq<(ProviderId, Seq<Opcode>)>, id: ProviderId, i: int) -> bool {
    0 <= i < table.len() && table[i].0 == id && forall|j: int| 0 <= j < i ==> #[trigger] table[j].0 != id
}

/// `id` has an entry in `table`.
pub open spec fn is_registered(table: Seq<(ProviderId, Seq<Opcode>)>, id: ProviderId) -> bool {
    exists|i: int| 0 <= i < table.len() && #[trigger] table[i].0 == id
}

/// What a request for `opcode` on provider `id` is answered with before it reaches the provider.
pub open spec fn route_spec(table: Seq<(ProviderId, Seq<Opcode>)>, id: ProviderId, opcode: Opcode) -> Result<(), ResponseStatus> {
    if !is_registered(table, id) {
        Err(ResponseStatus::ProviderNotRegistered)
    } else if exists|i: int| registered_at(table, id, i) && table[i].1.contains(opcode) {
        Ok(())
    } else {
        Err(ResponseStatus::PsaErrorNotSupported)
    }
}

impl View for Dispatcher {
    type V = Seq<(ProviderId, Seq<Opcode>)>;

    closed spec fn view(&self) -> Seq<(ProviderId, Seq<Opcode>)> {
        self.providers@.map_values(|e: (ProviderId, Vec<Opcode>)| (e.0, e.1@))
    }
}

fn contains_opcode(ops: &Vec<Opcode>, opcode: Opcode) -> (r: bool)
    ensures
        r == ops@.contains(opcode),
{
    let mut i: usize = 0;
    while i < ops.len()
        invariant
            i <= ops@.len(),
            forall|k: int| 0 <= k < i ==> ops@[k] != opcode,
        decreases ops@.len() - i,
    {
        if ops[i] == opcode {
            return true;
        }
        i = i + 1;
    }
    false
}

impl Dispatcher {
    /// A table with no provider.
    pub fn new() -> (r: Dispatcher)
        ensures
            r@ == Seq::<(ProviderId, Seq<Opcode>)>::empty(),
    {
        Dispatcher { providers: Vec::new() }
    }

    /// Registers provider `id` with the operations it serves; an earlier entry for `id` wins.
    pub fn register(&mut self, id: ProviderId, opcodes: Vec<Opcode>)
        ensures
            final(self)@ == old(self)@.push((id, opcodes@)),
    {
        self.providers.push((id, opcodes));
        assert(self@ =~= old(self)@.push((id, opcodes@)));
    }

    fn position(&self, id: ProviderId) -> (r: Option<usize>)
        ensures
            match r {
                Some(i) => registered_at(self@, id, i as int),
                None => !is_registered(self@, id),
            },
    {
        let mut i: usize = 0;
        while i < self.providers.len()
            invariant
                i <= self@.len(),
                self@.len() == self.providers@.len(),
                forall|k: int| 0 <= k < i ==> #[trigger] self@[k].0 != id,
            decreases self@.len() - i,
        {
            assert(self@[i as int].0 == self.providers@[i as int].0);
            if self.providers[i].0 == id {
                return Some(i);
            }
            i = i + 1;
        }
        None
    }

    /// Checks that provider `id` is registered and serves `opcode`.
    pub fn route(&self, id: ProviderId, opcode: Opcode) -> (r: Result<(), ResponseStatus>)
        ensures
            r == route_spec(self@, id, opcode),
    {
        match self.position(id) {
            None => Err(ResponseStatus::ProviderNotRegistered),
            Some(i) => {
                assert(self@[i as int].1 == self.providers@[i as int].1@);
                if contains_opcode(&self.providers[i].1, opcode) {
                    Ok(())
                } else {
                    assert forall|j: int| registered_at(self@, id, j) implies !self@[j].1.contains(opcode) by {
                        if j < i {
                        } else if j > i {
                            assert(self@[i as int].0 != id);
                        }
                    }
                    Err(ResponseStatus::PsaErrorNotSupported)
                }
            },
        }
    }

    /// The operations provider `id` serves.
    pub fn list_opcodes(&self, id: ProviderId) -> (r: Result<Vec<Opcode>, ResponseStatus>)
        ensures
            !is_registered(self@, id) ==> r == Err::<Vec<Opcode>, ResponseStatus>(ResponseStatus::ProviderNotRegistered),
            is_registered(self@, id) ==> (r matches Ok(ops) && exists|i: int|
                registered_at(self@, id, i) && ops@ == self@[i].1),
    {
        match self.position(id) {
            None => Err(ResponseStatus::ProviderNotRegistered),
            Some(i) => {
                let ops = self.providers[i].1.clone();
                assert(self@[i as int].1 == self.providers@[i as int].1@);
                Ok(ops)
            },
        }
    }
}

/// The first provider in `ids` other than the core one, or the core one if there is none.
pub fn find_crypto_provider(ids: &Vec<ProviderId>) -> (r: ProviderId)
    ensures
        (exists|i: int| 0 <= i < ids@.len() && ids@[i] != ProviderId::Core) ==> exists|i: int|
            0 <= i < ids@.len() && ids@[i] == r && r != ProviderId::Core && forall|j: int|
                0 <= j < i ==> #[trigger] ids@[j] == ProviderId::Core,
        (forall|i: int| 0 <= i < ids@.len() ==> #[trigger] ids@[i] == ProviderId::Core) ==> r == ProviderId::Core,
{
    let mut i: usize = 0;
    while i < ids.len()
        invariant
            i <= ids@.len(),
            forall|j: int| 0 <= j < i ==> #[trigger] ids@[j] == ProviderId::Core,
        decreases ids@.len() - i,
    {
        if ids[i] != ProviderId::Core {
            return ids[i];
        }
        i = i + 1;
    }
    ProviderId::Core
}

} // verus!
