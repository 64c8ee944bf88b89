use vstd::prelude::*;
use crate::key_info::{KeyInfo, KeyTriple, TripleView};
use crate::requests::ProviderId;

verus! {

/// Why a store operation was refused.
#[derive(PartialEq, Eq, Structural, Clone, Copy, Debug)]
pub enum KeyInfoManagerError {
    AlreadyExists,
    NotFound,
}

/// Mapping from key triples to the information stored for each key.
///
/// At most one entry exists per triple.
pub struct KeyInfoManager {
    entries: Vec<(KeyTriple, KeyInfo)>,
    contents: Ghost<Map<TripleView, KeyInfo>>,
}

/// The triples of `m` that belong to `provider`.
pub open spec fn triples_of(m: Map<TripleView, KeyInfo>, provider: ProviderId) -> Set<TripleView> {
    m.dom().filter(|t: TripleView| t.2 == provider)
}

impl View for KeyInfoManager {
    type V = Map<TripleView, KeyInfo>;

    closed spec fn view(&self) -> Map<TripleView, KeyInfo> {
        self.contents@
    }
}

impl KeyInfoManager {
    pub closed spec fn wf(&self) -> bool {
        &&& forall|i: int|
            0 <= i < self.entries@.len() ==> #[trigger] self.contents@.contains_key(
                self.entries@[i].0@,
            ) && self.contents@[self.entries@[i].0@] == self.entries@[i].1
        &&& forall|i: int, j: int|
            0 <= i < self.entries@.len() && 0 <= j < self.entries@.len() && i != j
                ==> #[trigger] self.entries@[i].0@ != #[trigger] self.entries@[j].0@
        &&& forall|t: TripleView|
            #[trigger] self.contents@.contains_key(t) ==> exists|i: int|
                0 <= i < self.entries@.len() && #[trigger] self.entries@[i].0@ == t
    }

    /// An empty store.
    pub fn new() -> (r: KeyInfoManager)
        ensures
            r.wf(),
            r@ == Map::<TripleView, KeyInfo>::empty(),
    {
        KeyInfoManager { entries: Vec::new(), contents: Ghost(Map::empty()) }
    }

    fn find(&self, triple: &KeyTriple) -> (r: Option<usize>)
        requires
            self.wf(),
        ensures
            match r {
                Some(i) => i < self.entries@.len() && self.entries@[i as int].0@ == triple@,
                None => !self@.contains_key(triple@),
            },
    {
        let mut i: usize = 0;
        while i < self.entries.len()
            invariant
                self.wf(),
                i <= self.entries@.len(),
                forall|k: int| 0 <= k < i ==> self.entries@[k].0@ != triple@,
            decreases self.entries@.len() - i,
        {
            if self.entries[i].0.same_as(triple) {
                return Some(i);
            }
            i = i + 1;
        }
        None
    }

    /// The information stored for `triple`, if any.
    pub fn get(&self, triple: &KeyTriple) -> (r: Option<KeyInfo>)
        requires
            self.wf(),
        ensures
            r == (if self@.contains_key(triple@) {
                Some(self@[triple@])
            } else {
                None::<KeyInfo>
            }),
    {
        match self.find(triple) {
            Some(i) => Some(self.entries[i].1),
            None => None,
        }
    }

    /// Whether an entry exists for `triple`.
    pub fn key_exists(&self, triple: &KeyTriple) -> (r: bool)
        requires
            self.wf(),
        ensures
            r == self@.contains_key(triple@),
    {
        self.find(triple).is_some()
    }

    /// Adds an entry for a triple that has none.
    pub fn insert(&mut self, triple: KeyTriple, info: KeyInfo) -> (r: Result<(), KeyInfoManagerError>)
        requires
            old(self).wf(),
        ensures
            final(self).wf(),
            old(self)@.contains_key(triple@) ==> r == Err::<(), KeyInfoManagerError>(
                KeyInfoManagerError::AlreadyExists,
            ) && final(self)@ == old(self)@,
            !old(self)@.contains_key(triple@) ==> r is Ok && final(self)@ == old(self)@.insert(
                triple@,
                info,
            ),
    {
        if self.key_exists(&triple) {
            return Err(KeyInfoManagerError::AlreadyExists);
        }
        let ghost t = triple@;
        let ghost old_entries = self.entries@;
        self.entries.push((triple, info));
        self.contents = Ghost(self.contents@.insert(t, info));
        assert forall|k: TripleView| #[trigger] self.contents@.contains_key(k) implies exists|i: int|
            0 <= i < self.entries@.len() && #[trigger] self.entries@[i].0@ == k by {
            if k == t {
                assert(self.entries@[old_entries.len() as int].0@ == k);
            } else {
                let i = choose|i: int| 0 <= i < old_entries.len() && #[trigger] old_entries[i].0@ == k;
                assert(self.entries@[i].0@ == k);
            }
        }
        Ok(())
    }

    /// Removes the entry for `triple` and returns what it held.
    pub fn remove(&mut self, triple: &KeyTriple) -> (r: Result<KeyInfo, KeyInfoManagerError>)
        requires
            old(self).wf(),
        ensures
            final(self).wf(),
            !old(self)@.contains_key(triple@) ==> r == Err::<KeyInfo, KeyInfoManagerError>(
                KeyInfoManagerError::NotFound,
            ) && final(self)@ == old(self)@,
            old(self)@.contains_key(triple@) ==> r == Ok::<KeyInfo, KeyInfoManagerError>(
                old(self)@[triple@],
            ) && final(self)@ == old(self)@.remove(triple@),
    {
        match self.find(triple) {
            None => Err(KeyInfoManagerError::NotFound),
            Some(idx) => {
                let ghost t = triple@;
                let ghost old_entries = self.entries@;
                let (_, info) = self.entries.remove(idx);
                self.contents = Ghost(self.contents@.remove(t));
                assert forall|i: int| 0 <= i < self.entries@.len() implies #[trigger] self.contents@.contains_key(
                    self.entries@[i].0@,
                ) && self.contents@[self.entries@[i].0@] == self.entries@[i].1 by {
                    if i < idx {
                        assert(self.entries@[i] == old_entries[i]);
                        assert(old_entries[i].0@ != old_entries[idx as int].0@);
                    } else {
                        assert(self.entries@[i] == old_entries[i + 1]);
                        assert(old_entries[i + 1].0@ != old_entries[idx as int].0@);
                    }
                }
                assert forall|i: int, j: int|
                    0 <= i < self.entries@.len() && 0 <= j < self.entries@.len() && i != j
                        implies #[trigger] self.entries@[i].0@ != #[trigger] self.entries@[j].0@ by {
                    let oi = if i < idx { i } else { i + 1 };
                    let oj = if j < idx { j } else { j + 1 };
                    assert(self.entries@[i] == old_entries[oi]);
                    assert(self.entries@[j] == old_entries[oj]);
                }
                assert forall|k: TripleView| #[trigger] self.contents@.contains_key(k) implies exists|i: int|
                    0 <= i < self.entries@.len() && #[trigger] self.entries@[i].0@ == k by {
                    let oi = choose|i: int| 0 <= i < old_entries.len() && #[trigger] old_entries[i].0@ == k;
                    assert(oi != idx);
                    if oi < idx {
                        assert(self.entries@[oi].0@ == k);
                    } else {
                        assert(self.entries@[oi - 1].0@ == k);
                    }
                }
                Ok(info)
            },
        }
    }

    /// All triples stored for `provider`, each once.
    pub fn get_all(&self, provider: ProviderId) -> (r: Vec<KeyTriple>)
        requires
            self.wf(),
        ensures
            forall|i: int, j: int|
                0 <= i < r@.len() && 0 <= j < r@.len() && i != j ==> #[trigger] r@[i]@ != #[trigger] r@[j]@,
            forall|i: int| 0 <= i < r@.len() ==> triples_of(self@, provider).contains(#[trigger] r@[i]@),
            forall|t: TripleView|
                #[trigger] triples_of(self@, provider).contains(t) ==> exists|i: int|
                    0 <= i < r@.len() && #[trigger] r@[i]@ == t,
    {
        let mut r: Vec<KeyTriple> = Vec::new();
        let ghost mut idx: Seq<int> = Seq::empty();
        let mut i: usize = 0;
        while i < self.entries.len()
            invariant
                self.wf(),
                i <= self.entries@.len(),
                idx.len() == r@.len(),
                forall|a: int| 0 <= a < r@.len() ==> 0 <= #[trigger] idx[a] < i,
                forall|a: int| 0 <= a < r@.len() ==> self.entries@[idx[a]].0@ == #[trigger] r@[a]@,
                forall|a: int| 0 <= a < r@.len() ==> self.entries@[#[trigger] idx[a]].0.provider_id == provider,
                forall|a: int, b: int| 0 <= a < b < r@.len() ==> #[trigger] idx[a] < #[trigger] idx[b],
                forall|k: int|
                    0 <= k < i && self.entries@[k].0.provider_id == provider ==> exists|a: int|
                        0 <= a < r@.len() && #[trigger] idx[a] == k,
            decreases self.entries@.len() - i,
        {
            if self.entries[i].0.provider_id == provider {
                let t = self.entries[i].0.duplicate();
                r.push(t);
                proof {
                    let ghost old_idx = idx;
                    idx = idx.push(i as int);
                    assert(idx[old_idx.len() as int] == i);
                    assert forall|k: int|
                        0 <= k < i + 1 && self.entries@[k].0.provider_id == provider implies exists|a: int|
                            0 <= a < r@.len() && #[trigger] idx[a] == k by {
                        if k < i {
                            let a = choose|a: int| 0 <= a < old_idx.len() && #[trigger] old_idx[a] == k;
                            assert(idx[a] == k);
                        } else {
                            assert(idx[old_idx.len() as int] == k);
                        }
                    }
                }
            }
            i = i + 1;
        }
        assert forall|a: int, b: int|
            0 <= a < r@.len() && 0 <= b < r@.len() && a != b implies #[trigger] r@[a]@ != #[trigger] r@[b]@ by {
            if a < b {
                assert(idx[a] < idx[b]);
            } else {
                assert(idx[b] < idx[a]);
            }
            assert(self.entries@[idx[a]].0@ == r@[a]@);
            assert(self.entries@[idx[b]].0@ == r@[b]@);
        }
        assert forall|a: int| 0 <= a < r@.len() implies triples_of(self@, provider).contains(#[trigger] r@[a]@) by {
            assert(self.entries@[idx[a]].0@ == r@[a]@);
            assert(self.contents@.contains_key(self.entries@[idx[a]].0@));
        }
        assert forall|t: TripleView|
            #[trigger] triples_of(self@, provider).contains(t) implies exists|a: int|
                0 <= a < r@.len() && #[trigger] r@[a]@ == t by {
            let k = choose|k: int| 0 <= k < self.entries@.len() && #[trigger] self.entries@[k].0@ == t;
            assert(self.entries@[k].0.provider_id == provider);
            let a = choose|a: int| 0 <= a < r@.len() && #[trigger] idx[a] == k;
            assert(self.entries@[idx[a]].0@ == r@[a]@);
        }
        r
    }
}

} // verus!
