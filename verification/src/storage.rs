//! The exit records, each under the identifier derived from its content.
use vstd::prelude::*;
use crate::primitives::{Digest, ExitState, digest_eq};
use crate::status::{ExitStatus, ExitStatusView};

verus! {

/// An exit record under its identifier.
#[derive(Debug, PartialEq, Eq)]
struct ExitEntry {
    id: Digest,
    status: ExitStatus,
}

/// Whether a record stands under `id`.
spec fn listed(entries: Seq<ExitEntry>, id: Seq<u8>) -> bool {
    exists|i: int| 0 <= i < entries.len() && #[trigger] entries[i].id@ == id
}

/// Where the record under `id` stands.
spec fn position(entries: Seq<ExitEntry>, id: Seq<u8>) -> int {
    choose|i: int| 0 <= i < entries.len() && #[trigger] entries[i].id@ == id
}

/// Whether no identifier occurs twice.
spec fn distinct(entries: Seq<ExitEntry>) -> bool {
    forall|i: int, j: int|
        0 <= i < j < entries.len() ==> #[trigger] entries[i].id@ != #[trigger] entries[j].id@
}

/// The records as a map from identifier to record.
spec fn as_map(entries: Seq<ExitEntry>) -> Map<Seq<u8>, ExitStatusView> {
    Map::new(
        |id: Seq<u8>| listed(entries, id),
        |id: Seq<u8>| entries[position(entries, id)].status@,
    )
}

/// Among distinct identifiers, each record is found where it stands.
proof fn lemma_position(entries: Seq<ExitEntry>, i: int)
    requires
        distinct(entries),
        0 <= i < entries.len(),
    ensures
        listed(entries, entries[i].id@),
        position(entries, entries[i].id@) == i,
        as_map(entries).contains_key(entries[i].id@),
        as_map(entries)[entries[i].id@] == entries[i].status@,
{
    let id = entries[i].id@;
    assert(entries[i].id@ == id);
    let p = position(entries, id);
    assert(0 <= p < entries.len() && entries[p].id@ == id);
    if p < i {
        assert(entries[p].id@ != entries[i].id@);
    } else if i < p {
        assert(entries[i].id@ != entries[p].id@);
    }
}

/// One more record under a new identifier is one more entry of the map.
proof fn lemma_push(before: Seq<ExitEntry>, entry: ExitEntry)
    requires
        distinct(before),
        !listed(before, entry.id@),
    ensures
        distinct(before.push(entry)),
        as_map(before.push(entry)) == as_map(before).insert(entry.id@, entry.status@),
{
    let after = before.push(entry);
    assert forall|i: int, j: int| 0 <= i < j < after.len() implies #[trigger] after[i].id@
        != #[trigger] after[j].id@ by {
        if j == before.len() {
            assert(before[i].id@ == after[i].id@);
        } else {
            assert(before[i].id@ != before[j].id@);
        }
    }
    assert forall|k: Seq<u8>| listed(after, k) <==> listed(before, k) || k == entry.id@ by {
        if listed(after, k) {
            let p = position(after, k);
            assert(0 <= p < after.len() && after[p].id@ == k);
            if p < before.len() {
                assert(before[p].id@ == k);
            }
        }
        if listed(before, k) {
            let p = position(before, k);
            assert(0 <= p < before.len() && before[p].id@ == k);
            assert(after[p].id@ == k);
        }
        if k == entry.id@ {
            assert(after[before.len() as int].id@ == k);
        }
    }
    assert forall|k: Seq<u8>| listed(after, k) implies as_map(after)[k] == as_map(before).insert(
        entry.id@,
        entry.status@,
    )[k] by {
        let p = position(after, k);
        assert(0 <= p < after.len() && after[p].id@ == k);
        lemma_position(after, p);
        if p < before.len() {
            assert(before[p] == after[p]);
            lemma_position(before, p);
        }
    }
    assert(as_map(after) =~= as_map(before).insert(entry.id@, entry.status@));
}

/// A record that changes in place changes one entry of the map.
proof fn lemma_replace(before: Seq<ExitEntry>, after: Seq<ExitEntry>, i: int)
    requires
        distinct(before),
        0 <= i < before.len(),
        after.len() == before.len(),
        forall|k: int| 0 <= k < before.len() ==> #[trigger] after[k].id@ == before[k].id@,
        forall|k: int|
            0 <= k < before.len() && k != i ==> #[trigger] after[k].status@ == before[k].status@,
    ensures
        distinct(after),
        as_map(after) == as_map(before).insert(before[i].id@, after[i].status@),
{
    assert forall|a: int, b: int| 0 <= a < b < after.len() implies #[trigger] after[a].id@
        != #[trigger] after[b].id@ by {
        assert(before[a].id@ != before[b].id@);
    }
    lemma_position(before, i);
    assert forall|k: Seq<u8>| listed(after, k) <==> listed(before, k) by {
        if listed(after, k) {
            let p = position(after, k);
            assert(0 <= p < after.len() && after[p].id@ == k);
            assert(before[p].id@ == k);
        }
        if listed(before, k) {
            let p = position(before, k);
            assert(0 <= p < before.len() && before[p].id@ == k);
            assert(after[p].id@ == k);
        }
    }
    assert forall|k: Seq<u8>| listed(after, k) implies as_map(after)[k] == as_map(before).insert(
        before[i].id@,
        after[i].status@,
    )[k] by {
        let p = position(after, k);
        assert(0 <= p < after.len() && after[p].id@ == k);
        lemma_position(after, p);
        lemma_position(before, p);
    }
    assert(as_map(after) =~= as_map(before).insert(before[i].id@, after[i].status@));
}

/// The exit records. No identifier occurs twice, and every record names an
/// owner that can be paid.
#[derive(Debug, PartialEq, Eq)]
pub struct ExitStorage {
    entries: Vec<ExitEntry>,
}

impl View for ExitStorage {
    type V = Map<Seq<u8>, ExitStatusView>;

    closed spec fn view(&self) -> Map<Seq<u8>, ExitStatusView> {
        as_map(self.entries@)
    }
}

impl Clone for ExitStorage {
    fn clone(&self) -> (copy: Self)
        ensures
            copy@ == self@,
    {
        proof {
            use_type_invariant(self);
        }
        let mut entries: Vec<ExitEntry> = Vec::new();
        let mut i: usize = 0;
        while i < self.entries.len()
            invariant
                i <= self.entries@.len(),
                entries@.len() == i,
                forall|k: int|
                    0 <= k < i ==> (#[trigger] entries@[k]).id@ == self.entries@[k].id@
                        && entries@[k].status@ == self.entries@[k].status@,
            decreases self.entries@.len() - i,
        {
            let entry = &self.entries[i];
            entries.push(ExitEntry { id: entry.id, status: entry.status.clone() });
            i = i + 1;
        }
        proof {
            if self.entries@.len() > 0 {
                lemma_replace(self.entries@, entries@, 0);
                lemma_position(self.entries@, 0);
                assert(as_map(entries@) =~= as_map(self.entries@));
            } else {
                assert(as_map(entries@) =~= as_map(self.entries@));
            }
            assert forall|k: int| 0 <= k < entries@.len() implies (#[trigger] entries@[k])
                .status@.utxo.owners().len() > 0 by {
                assert(self.entries@[k].status@.utxo.owners().len() > 0);
            }
            assert forall|a: int, b: int| 0 <= a < b < entries@.len() implies #[trigger] entries@[a]
                .id@ != #[trigger] entries@[b].id@ by {
                assert(self.entries@[a].id@ != self.entries@[b].id@);
            }
        }
        ExitStorage { entries }
    }
}

impl ExitStorage {
    /// What holds of every `ExitStorage`.
    #[verifier::type_invariant]
    closed spec fn inv(&self) -> bool {
        distinct(self.entries@) && forall|i: int|
            0 <= i < self.entries@.len() ==> (#[trigger] self.entries@[i]).status@.utxo.owners().len()
                > 0
    }

    /// The storage with no record in it.
    pub fn new() -> (storage: ExitStorage)
        ensures
            storage@ == Map::<Seq<u8>, ExitStatusView>::empty(),
    {
        let storage = ExitStorage { entries: Vec::new() };
        assert(storage@ =~= Map::<Seq<u8>, ExitStatusView>::empty());
        storage
    }

    /// Where the record under `id` stands, if there is one.
    fn find(&self, id: &Digest) -> (r: Option<usize>)
        ensures
            match r {
                Some(i) => i < self.entries@.len() && self.entries@[i as int].id@ == id@,
                None => !listed(self.entries@, id@),
            },
    {
        let mut i: usize = 0;
        while i < self.entries.len()
            invariant
                i <= self.entries@.len(),
                forall|k: int| 0 <= k < i ==> (#[trigger] self.entries@[k]).id@ != id@,
            decreases self.entries@.len() - i,
        {
            if digest_eq(&self.entries[i].id, id) {
                return Some(i);
            }
            i = i + 1;
        }
        None
    }

    /// The record under `id`, if there is one.
    pub fn get(&self, id: &Digest) -> (r: Option<&ExitStatus>)
        ensures
            match r {
                Some(status) => self@.contains_key(id@) && self@[id@] == status@
                    && status@.utxo.owners().len() > 0,
                None => !self@.contains_key(id@),
            },
    {
        proof {
            use_type_invariant(self);
        }
        match self.find(id) {
            Some(i) => {
                proof {
                    lemma_position(self.entries@, i as int);
                }
                Some(&self.entries[i].status)
            },
            None => None,
        }
    }

    /// Puts `status` under `id`, where no record stands yet.
    pub(crate) fn insert(&mut self, id: Digest, status: ExitStatus)
        requires
            !old(self)@.contains_key(id@),
            status@.utxo.owners().len() > 0,
        ensures
            final(self)@ == old(self)@.insert(id@, status@),
    {
        proof {
            use_type_invariant(&*self);
        }
        let ghost before = self.entries@;
        let entry = ExitEntry { id, status };
        let mut entries: Vec<ExitEntry> = Vec::new();
        core::mem::swap(&mut self.entries, &mut entries);
        entries.push(entry);
        proof {
            lemma_push(before, entry);
            assert forall|i: int| 0 <= i < entries@.len() implies (#[trigger] entries@[i])
                .status@.utxo.owners().len() > 0 by {
                if i < before.len() {
                    assert(entries@[i] == before[i]);
                }
            }
        }
        self.entries = entries;
    }

    /// Moves the record under `id` to the state `state`.
    pub(crate) fn set_state(&mut self, id: &Digest, state: ExitState)
        requires
            old(self)@.contains_key(id@),
        ensures
            final(self)@ == old(self)@.insert(id@, old(self)@[id@].with_state(state)),
    {
        proof {
            use_type_invariant(&*self);
        }
        let ghost before = self.entries@;
        if let Some(i) = self.find(id) {
            let mut entries: Vec<ExitEntry> = Vec::new();
            core::mem::swap(&mut self.entries, &mut entries);
            entries[i].status.set_state(state);
            proof {
                lemma_position(before, i as int);
                lemma_replace(before, entries@, i as int);
                assert forall|k: int| 0 <= k < entries@.len() implies (#[trigger] entries@[k])
                    .status@.utxo.owners().len() > 0 by {
                    assert(before[k].status@.utxo.owners().len() > 0);
                }
            }
            self.entries = entries;
        }
    }
}

} // verus!
