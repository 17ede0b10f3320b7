//! Which tickets each owner holds, in the order in which they were minted.

use crate::identity::Identity;
use vstd::prelude::*;

verus! {

/// The tickets of one owner.
#[derive(Debug)]
struct OwnerEntry {
    owner: Identity,
    ids: Vec<u64>,
}

/// For each owner the identifiers of their tickets, oldest first. An owner
/// without tickets has no entry.
#[derive(Debug)]
pub struct OwnerIndex {
    entries: Vec<OwnerEntry>,
}

/// Whether one of `entries` belongs to `owner`.
spec fn listed(entries: Seq<OwnerEntry>, owner: Seq<u8>) -> bool {
    exists|i: int| 0 <= i < entries.len() && #[trigger] entries[i].owner@ == owner
}

/// Where in `entries` the entry of `owner` stands, if one does.
spec fn position(entries: Seq<OwnerEntry>, owner: Seq<u8>) -> int {
    choose|i: int| 0 <= i < entries.len() && #[trigger] entries[i].owner@ == owner
}

/// Whether no two of `entries` belong to the same owner.
spec fn distinct_owners(entries: Seq<OwnerEntry>) -> bool {
    forall|i: int, j: int|
        0 <= i < j < entries.len() ==> #[trigger] entries[i].owner@ != #[trigger] entries[j].owner@
}

/// The map that `entries` stand for.
spec fn as_map(entries: Seq<OwnerEntry>) -> Map<Seq<u8>, Seq<u64>> {
    Map::new(|owner: Seq<u8>| listed(entries, owner), |owner: Seq<u8>| entries[position(entries, owner)].ids@)
}

/// With distinct owners, the entry at `k` is what the map holds for its
/// owner.
proof fn lemma_entry_at(entries: Seq<OwnerEntry>, k: int)
    requires
        distinct_owners(entries),
        0 <= k < entries.len(),
    ensures
        listed(entries, entries[k].owner@),
        position(entries, entries[k].owner@) == k,
        as_map(entries)[entries[k].owner@] == entries[k].ids@,
{
    let owner = entries[k].owner@;
    let p = position(entries, owner);
    assert(0 <= p < entries.len() && entries[p].owner@ == owner);
    if p < k {
        assert(entries[p].owner@ != entries[k].owner@);
    } else if k < p {
        assert(entries[k].owner@ != entries[p].owner@);
    }
}

/// The identifiers listed under `owner` in `index`, none where `owner` has
/// no entry.
pub open spec fn ids_in(index: Map<Seq<u8>, Seq<u64>>, owner: Seq<u8>) -> Seq<u64> {
    if index.contains_key(owner) {
        index[owner]
    } else {
        Seq::empty()
    }
}

impl View for OwnerIndex {
    type V = Map<Seq<u8>, Seq<u64>>;

    closed spec fn view(&self) -> Map<Seq<u8>, Seq<u64>> {
        as_map(self.entries@)
    }
}

impl OwnerIndex {
    /// Whether the index is consistent: each owner has at most one entry.
    pub closed spec fn wf(&self) -> bool {
        distinct_owners(self.entries@)
    }

    /// The identifiers of the tickets of `owner`, oldest first.
    pub open spec fn tickets_of(&self, owner: Seq<u8>) -> Seq<u64> {
        ids_in(self@, owner)
    }

    /// An index without entries.
    pub fn new() -> (index: OwnerIndex)
        ensures
            index.wf(),
            index@ == Map::<Seq<u8>, Seq<u64>>::empty(),
    {
        let index = OwnerIndex { entries: Vec::new() };
        assert(index@ =~= Map::<Seq<u8>, Seq<u64>>::empty());
        index
    }

    /// Where the entry of `owner` stands, or the number of entries where
    /// `owner` has none.
    fn find(&self, owner: &Identity) -> (at: usize)
        requires
            self.wf(),
        ensures
            at <= self.entries@.len(),
            at < self.entries@.len() <==> listed(self.entries@, owner@),
            at < self.entries@.len() ==> self.entries@[at as int].owner@ == owner@,
    {
        let mut i: usize = 0;
        while i < self.entries.len()
            invariant
                i <= self.entries@.len(),
                forall|j: int| 0 <= j < i ==> self.entries@[j].owner@ != owner@,
            decreases self.entries@.len() - i,
        {
            if self.entries[i].owner == *owner {
                return i;
            }
            i += 1;
        }
        i
    }

    /// The identifiers of the tickets of `owner`, oldest first.
    pub fn ids_of(&self, owner: &Identity) -> (ids: Vec<u64>)
        requires
            self.wf(),
        ensures
            ids@ == self.tickets_of(owner@),
    {
        let at: usize = self.find(owner);
        if at < self.entries.len() {
            proof {
                lemma_entry_at(self.entries@, at as int);
            }
            let ids = self.entries[at].ids.clone();
            assert(ids@ =~= self.entries@[at as int].ids@);
            ids
        } else {
            Vec::new()
        }
    }

    /// Lists `id` under `owner`, after the identifiers already there.
    pub fn record(&mut self, owner: &Identity, id: u64)
        requires
            old(self).wf(),
        ensures
            final(self).wf(),
            final(self)@ == old(self)@.insert(owner@, old(self).tickets_of(owner@).push(id)),
    {
        let at: usize = self.find(owner);
        let ghost before = self.entries@;
        if at < self.entries.len() {
            proof {
                lemma_entry_at(before, at as int);
            }
            self.entries[at].ids.push(id);
            proof {
                let after = self.entries@;
                assert(after.len() == before.len());
                assert(forall|j: int| 0 <= j < after.len() ==> after[j].owner@ == before[j].owner@);
                assert(forall|j: int| 0 <= j < after.len() && j != at ==> after[j] == before[j]);
                assert(after[at as int].ids@ == before[at as int].ids@.push(id));
                lemma_same_owners(before, after);
                lemma_entry_at(after, at as int);
                assert forall|o: Seq<u8>| listed(after, o) && o != owner@ implies #[trigger] as_map(
                    after,
                )[o] == as_map(before)[o] by {
                    let p = position(after, o);
                    let q = position(before, o);
                    lemma_entry_at(after, p);
                    lemma_entry_at(before, p);
                }
                assert(as_map(after) =~= as_map(before).insert(
                    owner@,
                    ids_in(as_map(before), owner@).push(id),
                ));
            }
        } else {
            let mut ids: Vec<u64> = Vec::new();
            ids.push(id);
            self.entries.push(OwnerEntry { owner: owner.clone(), ids });
            proof {
                let after = self.entries@;
                assert(after.len() == before.len() + 1);
                assert(forall|j: int| 0 <= j < before.len() ==> after[j] == before[j]);
                assert(after[before.len() as int].owner@ == owner@);
                assert(distinct_owners(after)) by {
                    assert forall|i: int, j: int| 0 <= i < j < after.len() implies after[i].owner@
                        != after[j].owner@ by {
                        if j < before.len() {
                            assert(before[i].owner@ != before[j].owner@);
                        } else {
                            assert(before[i].owner@ == after[i].owner@);
                            assert(!listed(before, owner@));
                        }
                    }
                }
                lemma_entry_at(after, before.len() as int);
                assert forall|o: Seq<u8>| listed(before, o) implies listed(after, o) && as_map(
                    after,
                )[o] == #[trigger] as_map(before)[o] by {
                    let q = position(before, o);
                    assert(after[q].owner@ == o);
                    lemma_entry_at(after, q);
                }
                assert forall|o: Seq<u8>| listed(after, o) && o != owner@ implies listed(
                    before,
                    o,
                ) by {
                    let p = position(after, o);
                    assert(before[p].owner@ == o);
                }
                assert(Seq::<u64>::empty().push(id) =~= ids@);
                assert(as_map(after) =~= as_map(before).insert(
                    owner@,
                    ids_in(as_map(before), owner@).push(id),
                ));
            }
        }
    }
}

/// Two lists of entries with the same owners at the same places: where the
/// owners are distinct in one they are so in the other, and both list the
/// same owners.
proof fn lemma_same_owners(before: Seq<OwnerEntry>, after: Seq<OwnerEntry>)
    requires
        before.len() == after.len(),
        forall|j: int| 0 <= j < after.len() ==> after[j].owner@ == before[j].owner@,
        distinct_owners(before),
    ensures
        distinct_owners(after),
        forall|o: Seq<u8>| listed(before, o) <==> listed(after, o),
{
    assert forall|i: int, j: int| 0 <= i < j < after.len() implies after[i].owner@
        != after[j].owner@ by {
        assert(before[i].owner@ != before[j].owner@);
    }
    assert forall|o: Seq<u8>| listed(before, o) <==> listed(after, o) by {
        if listed(before, o) {
            let q = position(before, o);
            assert(after[q].owner@ == o);
        }
        if listed(after, o) {
            let p = position(after, o);
            assert(before[p].owner@ == o);
        }
    }
}

} // verus!
