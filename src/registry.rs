use vstd::prelude::*;

use crate::blob::{Blob, Verdict};
use crate::engine::{find_member_slot, slot_of, Credential};
use crate::error::Error;
use crate::engine::GroupCryptoEngine;
use crate::state::{apply_blobs, batch_outcome, offer_outcome, GroupState};

verus! {

/// One group of the registry: its identifier and what is tracked of it.
#[derive(Clone, Debug)]
pub struct GroupEntry<E> {
    pub group_id: String,
    pub state: GroupState<E>,
}

/// Whether no two entries share a group identifier.
pub open spec fn keys_unique<E>(entries: Seq<GroupEntry<E>>) -> bool {
    forall|i: int, j: int|
        0 <= i < entries.len() && 0 <= j < entries.len() && i != j ==> entries[i].group_id@
            != entries[j].group_id@
}

/// Whether some entry has the identifier `k`.
pub open spec fn has_key<E>(entries: Seq<GroupEntry<E>>, k: Seq<char>) -> bool {
    exists|i: int| 0 <= i < entries.len() && entries[i].group_id@ == k
}

/// The mapping from group identifier to state that a list of entries holds.
pub open spec fn map_of<E>(entries: Seq<GroupEntry<E>>) -> Map<Seq<char>, GroupState<E>> {
    Map::new(
        |k: Seq<char>| has_key(entries, k),
        |k: Seq<char>|
            entries[choose|i: int| 0 <= i < entries.len() && entries[i].group_id@ == k].state,
    )
}

proof fn lemma_map_of_index<E>(entries: Seq<GroupEntry<E>>, i: int)
    requires
        keys_unique(entries),
        0 <= i < entries.len(),
    ensures
        map_of(entries).contains_key(entries[i].group_id@),
        map_of(entries)[entries[i].group_id@] == entries[i].state,
{
    let k = entries[i].group_id@;
    assert(has_key(entries, k));
    let c = choose|c: int| 0 <= c < entries.len() && entries[c].group_id@ == k;
    assert(c == i);
}

proof fn lemma_map_of_update<E>(old_e: Seq<GroupEntry<E>>, new_e: Seq<GroupEntry<E>>, i: int)
    requires
        keys_unique(old_e),
        0 <= i < old_e.len(),
        new_e.len() == old_e.len(),
        new_e[i].group_id@ == old_e[i].group_id@,
        forall|j: int| 0 <= j < old_e.len() && j != i ==> new_e[j] == old_e[j],
    ensures
        keys_unique(new_e),
        map_of(new_e) == map_of(old_e).insert(old_e[i].group_id@, new_e[i].state),
{
    let k = old_e[i].group_id@;
    assert forall|x: Seq<char>| has_key(new_e, x) <==> has_key(old_e, x) by {
        if has_key(new_e, x) {
            let j = choose|j: int| 0 <= j < new_e.len() && new_e[j].group_id@ == x;
            assert(old_e[j].group_id@ == x);
        }
        if has_key(old_e, x) {
            let j = choose|j: int| 0 <= j < old_e.len() && old_e[j].group_id@ == x;
            assert(new_e[j].group_id@ == x);
        }
    }
    assert forall|x: Seq<char>| #[trigger] map_of(new_e).contains_key(x) && x != k implies map_of(
        new_e,
    )[x] == map_of(old_e)[x] by {
        let j = choose|j: int| 0 <= j < new_e.len() && new_e[j].group_id@ == x;
        lemma_map_of_index(new_e, j);
        lemma_map_of_index(old_e, j);
    }
    lemma_map_of_index(new_e, i);
    assert(map_of(new_e) =~= map_of(old_e).insert(k, new_e[i].state));
}

proof fn lemma_map_of_push<E>(old_e: Seq<GroupEntry<E>>, e: GroupEntry<E>)
    requires
        keys_unique(old_e),
        !has_key(old_e, e.group_id@),
    ensures
        keys_unique(old_e.push(e)),
        map_of(old_e.push(e)) == map_of(old_e).insert(e.group_id@, e.state),
{
    let new_e = old_e.push(e);
    assert(keys_unique(new_e)) by {
        assert forall|i: int, j: int|
            0 <= i < new_e.len() && 0 <= j < new_e.len() && i != j implies new_e[i].group_id@
            != new_e[j].group_id@ by {
            if i == old_e.len() as int {
                assert(new_e[j] == old_e[j]);
            } else if j == old_e.len() as int {
                assert(new_e[i] == old_e[i]);
            }
        }
    }
    assert forall|x: Seq<char>| has_key(new_e, x) <==> (has_key(old_e, x) || x == e.group_id@) by {
        if has_key(old_e, x) {
            let j = choose|j: int| 0 <= j < old_e.len() && old_e[j].group_id@ == x;
            assert(new_e[j].group_id@ == x);
        }
        if x == e.group_id@ {
            assert(new_e[old_e.len() as int].group_id@ == x);
        }
        if has_key(new_e, x) && x != e.group_id@ {
            let j = choose|j: int| 0 <= j < new_e.len() && new_e[j].group_id@ == x;
            assert(old_e[j].group_id@ == x);
        }
    }
    assert forall|x: Seq<char>| #[trigger] map_of(new_e).contains_key(x) && x != e.group_id@ implies map_of(
        new_e,
    )[x] == map_of(old_e)[x] by {
        let j = choose|j: int| 0 <= j < new_e.len() && new_e[j].group_id@ == x;
        lemma_map_of_index(new_e, j);
        lemma_map_of_index(old_e, j);
    }
    lemma_map_of_index(new_e, old_e.len() as int);
    assert(map_of(new_e) =~= map_of(old_e).insert(e.group_id@, e.state));
}

/// One group as a session snapshot stores it: the engine state is present for a
/// member and absent for an observer, and an observer owes no update.
#[derive(Debug)]
pub struct GroupRecord<E> {
    pub group_id: String,
    pub next_index: u64,
    pub crypto: Option<E>,
    pub should_update: bool,
    pub roster: Vec<Credential>,
}

/// Whether a record describes a group state at all.
pub open spec fn record_valid<E>(record: GroupRecord<E>) -> bool {
    record.crypto is None ==> !record.should_update && record.roster@.len() == 0
}

/// The entry a record describes.
pub open spec fn entry_of<E>(record: GroupRecord<E>) -> GroupEntry<E> {
    GroupEntry {
        group_id: record.group_id,
        state: match record.crypto {
            None => GroupState::Observer { next_index: record.next_index },
            Some(c) => GroupState::Member {
                next_index: record.next_index,
                crypto: c,
                should_update: record.should_update,
                roster: record.roster,
            },
        },
    }
}

/// The entries a snapshot's records describe.
pub open spec fn entries_of<E>(records: Seq<GroupRecord<E>>) -> Seq<GroupEntry<E>> {
    records.map_values(|r: GroupRecord<E>| entry_of(r))
}

/// The registry a snapshot holding `records` restores, if it is well formed:
/// every record describes a group state, and no two name the same group.
pub open spec fn restored<E>(records: Seq<GroupRecord<E>>) -> Option<Map<Seq<char>, GroupState<E>>> {
    if (forall|j: int| 0 <= j < records.len() ==> record_valid(#[trigger] records[j]))
        && keys_unique(entries_of(records)) {
        Some(map_of(entries_of(records)))
    } else {
        None
    }
}

/// A snapshot's records describe `groups` record by record: each record names
/// a group of `groups`, with its state, and each group has exactly one record.
pub open spec fn describes<E>(records: Seq<GroupRecord<E>>, groups: Map<Seq<char>, GroupState<E>>) -> bool {
    &&& forall|j: int|
        0 <= j < records.len() ==> record_valid(records[j]) && groups.contains_key(
            records[j].group_id@,
        ) && groups[records[j].group_id@] == entry_of(records[j]).state
    &&& forall|k: Seq<char>|
        groups.contains_key(k) ==> exists|j: int| 0 <= j < records.len() && records[j].group_id@ == k
    &&& forall|i: int, j: int|
        0 <= i < records.len() && 0 <= j < records.len() && i != j ==> records[i].group_id@
            != records[j].group_id@
}

/// Saving a registry to a snapshot and loading the snapshot gives back an equal
/// registry: the same groups, each with the same cursor, membership, update
/// obligation, engine state and roster.
pub proof fn lemma_snapshot_round_trip<E>(groups: Map<Seq<char>, GroupState<E>>, records: Seq<GroupRecord<E>>)
    requires
        describes(records, groups),
    ensures
        restored(records) == Some(groups),
{
    let es = entries_of(records);
    assert(keys_unique(es));
    assert forall|j: int| 0 <= j < records.len() implies record_valid(#[trigger] records[j]) by {}
    assert forall|k: Seq<char>| #[trigger] map_of(es).contains_key(k) <==> groups.contains_key(k) by {
        if groups.contains_key(k) {
            let j = choose|j: int| 0 <= j < records.len() && records[j].group_id@ == k;
            assert(es[j].group_id@ == k);
        }
        if map_of(es).contains_key(k) {
            let j = choose|j: int| 0 <= j < es.len() && es[j].group_id@ == k;
            assert(records[j].group_id@ == k);
        }
    }
    assert forall|k: Seq<char>| #[trigger] map_of(es).contains_key(k) implies map_of(es)[k] == groups[k] by {
        let j = choose|j: int| 0 <= j < es.len() && es[j].group_id@ == k;
        lemma_map_of_index(es, j);
    }
    assert(map_of(es) =~= groups);
}

/// Every group the user is a member of or subscribed to, keyed by group
/// identifier. Entries are added by `create`, `subscribe` and `join`, and never
/// removed.
#[derive(Debug)]
pub struct GroupRegistry<E> {
    entries: Vec<GroupEntry<E>>,
}

impl<E> View for GroupRegistry<E> {
    type V = Map<Seq<char>, GroupState<E>>;

    closed spec fn view(&self) -> Map<Seq<char>, GroupState<E>> {
        map_of(self.entries@)
    }
}

impl<E> GroupRegistry<E> {
    /// No two entries share a group identifier.
    pub closed spec fn wf(&self) -> bool {
        keys_unique(self.entries@)
    }

    /// An empty registry.
    pub fn new() -> (r: Self)
        ensures
            r.wf(),
            r@ == Map::<Seq<char>, GroupState<E>>::empty(),
    {
        let r = GroupRegistry { entries: Vec::new() };
        assert(r@ =~= Map::<Seq<char>, GroupState<E>>::empty());
        r
    }

    /// The position of the entry of `group_id`.
    fn find(&self, group_id: &str) -> (r: Option<usize>)
        requires
            self.wf(),
        ensures
            match r {
                Some(i) => i < self.entries@.len() && self.entries@[i as int].group_id@
                    == group_id@,
                None => !self@.contains_key(group_id@),
            },
    {
        let key = group_id.to_owned();
        let mut i: usize = 0;
        while i < self.entries.len()
            invariant
                key@ == group_id@,
                i <= self.entries@.len(),
                forall|j: int| 0 <= j < i ==> self.entries@[j].group_id@ != group_id@,
            decreases self.entries@.len() - i,
        {
            if self.entries[i].group_id == key {
                return Some(i);
            }
            i = i + 1;
        }
        None
    }

    /// Whether the registry has an entry for `group_id`.
    pub fn contains(&self, group_id: &str) -> (r: bool)
        requires
            self.wf(),
        ensures
            r == self@.contains_key(group_id@),
    {
        match self.find(group_id) {
            Some(i) => {
                proof {
                    lemma_map_of_index(self.entries@, i as int);
                }
                true
            },
            None => false,
        }
    }

    /// The state tracked for `group_id`.
    pub fn get(&self, group_id: &str) -> (r: Result<&GroupState<E>, Error>)
        requires
            self.wf(),
        ensures
            match r {
                Ok(s) => self@.contains_key(group_id@) && *s == self@[group_id@],
                Err(e) => e == Error::NotFound && !self@.contains_key(group_id@),
            },
    {
        match self.find(group_id) {
            Some(i) => {
                proof {
                    lemma_map_of_index(self.entries@, i as int);
                }
                Ok(&self.entries[i].state)
            },
            None => Err(Error::NotFound),
        }
    }

    /// The identifiers of all groups, each once.
    pub fn list(&self) -> (r: Vec<String>)
        requires
            self.wf(),
        ensures
            forall|k: Seq<char>|
                self@.contains_key(k) <==> exists|i: int| 0 <= i < r@.len() && r@[i]@ == k,
            forall|i: int, j: int| 0 <= i < r@.len() && 0 <= j < r@.len() && i != j ==> r@[i]@ != r@[j]@,
    {
        let mut r: Vec<String> = Vec::new();
        let mut i: usize = 0;
        while i < self.entries.len()
            invariant
                i <= self.entries@.len(),
                r@.len() == i,
                forall|j: int| 0 <= j < i ==> r@[j]@ == self.entries@[j].group_id@,
            decreases self.entries@.len() - i,
        {
            r.push(self.entries[i].group_id.clone());
            i = i + 1;
        }
        proof {
            assert forall|k: Seq<char>|
                self@.contains_key(k) implies exists|i: int| 0 <= i < r@.len() && r@[i]@ == k by {
                let j = choose|j: int| 0 <= j < self.entries@.len() && self.entries@[j].group_id@ == k;
                assert(r@[j]@ == k);
            }
            assert forall|k: Seq<char>|
                (exists|i: int| 0 <= i < r@.len() && r@[i]@ == k) implies self@.contains_key(k) by {
                let j = choose|j: int| 0 <= j < r@.len() && r@[j]@ == k;
                lemma_map_of_index(self.entries@, j);
            }
        }
        r
    }

    /// A registry of the given entries; entries that share a group identifier
    /// are refused.
    fn from_entries(entries: Vec<GroupEntry<E>>) -> (r: Result<Self, Error>)
        ensures
            r is Ok <==> keys_unique(entries@),
            match r {
                Ok(registry) => registry.wf() && registry@ == map_of(entries@),
                Err(e) => e == Error::DecodeFailure,
            },
    {
        let mut i: usize = 0;
        while i < entries.len()
            invariant
                i <= entries@.len(),
                forall|a: int, b: int|
                    0 <= a < i && 0 <= b < i && a != b ==> entries@[a].group_id@
                        != entries@[b].group_id@,
            decreases entries@.len() - i,
        {
            let mut j: usize = 0;
            while j < i
                invariant
                    i < entries@.len(),
                    j <= i,
                    forall|b: int| 0 <= b < j ==> entries@[i as int].group_id@ != entries@[b].group_id@,
                decreases i - j,
            {
                if entries[i].group_id == entries[j].group_id {
                    assert(!keys_unique(entries@)) by {
                        assert(entries@[i as int].group_id@ == entries@[j as int].group_id@);
                    }
                    return Err(Error::DecodeFailure);
                }
                j = j + 1;
            }
            i = i + 1;
        }
        Ok(GroupRegistry { entries })
    }

    /// Turns the registry into the records of a session snapshot, one per group.
    pub fn into_records(self) -> (r: Vec<GroupRecord<E>>)
        requires
            self.wf(),
        ensures
            describes(r@, self@),
    {
        let ghost orig = self.entries@;
        let mut entries = self.entries;
        let mut records: Vec<GroupRecord<E>> = Vec::new();
        while entries.len() > 0
            invariant
                records@.len() + entries@.len() == orig.len(),
                entries@ == orig.subrange(records@.len() as int, orig.len() as int),
                forall|j: int|
                    0 <= j < records@.len() ==> record_valid(records@[j]) && entry_of(records@[j])
                        == orig[j],
            decreases entries@.len(),
        {
            let entry = entries.remove(0);
            let GroupEntry { group_id, state } = entry;
            let record = match state {
                GroupState::Observer { next_index } => GroupRecord {
                    group_id,
                    next_index,
                    crypto: None,
                    should_update: false,
                    roster: Vec::new(),
                },
                GroupState::Member { next_index, crypto, should_update, roster } => GroupRecord {
                    group_id,
                    next_index,
                    crypto: Some(crypto),
                    should_update,
                    roster,
                },
            };
            records.push(record);
        }
        proof {
            let rs = records@;
            assert forall|j: int| 0 <= j < rs.len() implies map_of(orig).contains_key(
                rs[j].group_id@,
            ) && map_of(orig)[rs[j].group_id@] == entry_of(rs[j]).state by {
                lemma_map_of_index(orig, j);
            }
            assert forall|k: Seq<char>| map_of(orig).contains_key(k) implies exists|j: int|
                0 <= j < rs.len() && rs[j].group_id@ == k by {
                let j = choose|j: int| 0 <= j < orig.len() && orig[j].group_id@ == k;
                assert(rs[j].group_id@ == k);
            }
            assert forall|i: int, j: int|
                0 <= i < rs.len() && 0 <= j < rs.len() && i != j implies rs[i].group_id@
                != rs[j].group_id@ by {
                assert(entry_of(rs[i]).group_id == orig[i].group_id);
                assert(entry_of(rs[j]).group_id == orig[j].group_id);
            }
        }
        records
    }

    /// Rebuilds a registry from the records of a session snapshot. A record of an
    /// observer that owes an update or lists a roster, or two records of one
    /// group, make the snapshot malformed.
    pub fn from_records(records: Vec<GroupRecord<E>>) -> (r: Result<Self, Error>)
        ensures
            r is Ok <==> restored(records@) is Some,
            match r {
                Ok(registry) => registry.wf() && restored(records@) == Some(registry@),
                Err(e) => e == Error::DecodeFailure,
            },
    {
        let mut i: usize = 0;
        while i < records.len()
            invariant
                i <= records@.len(),
                forall|j: int| 0 <= j < i ==> record_valid(#[trigger] records@[j]),
            decreases records@.len() - i,
        {
            if records[i].crypto.is_none() && (records[i].should_update || records[i].roster.len() > 0) {
                assert(!record_valid(records@[i as int]));
                return Err(Error::DecodeFailure);
            }
            i = i + 1;
        }
        let ghost orig = records@;
        let mut records = records;
        let mut entries: Vec<GroupEntry<E>> = Vec::new();
        while records.len() > 0
            invariant
                entries@.len() + records@.len() == orig.len(),
                records@ == orig.subrange(entries@.len() as int, orig.len() as int),
                forall|j: int| 0 <= j < entries@.len() ==> entries@[j] == entry_of(orig[j]),
            decreases records@.len(),
        {
            let record = records.remove(0);
            let GroupRecord { group_id, next_index, crypto, should_update, roster } = record;
            let state = match crypto {
                None => GroupState::Observer { next_index },
                Some(crypto) => GroupState::Member { next_index, crypto, should_update, roster },
            };
            entries.push(GroupEntry { group_id, state });
        }
        assert(entries@ =~= entries_of(orig));
        GroupRegistry::from_entries(entries)
    }

    /// Adds an entry for a group that has none.
    fn insert_new(&mut self, group_id: &str, state: GroupState<E>) -> (r: Result<(), Error>)
        requires
            old(self).wf(),
        ensures
            final(self).wf(),
            old(self)@.contains_key(group_id@) ==> r == Err::<(), Error>(Error::AlreadyExists)
                && final(self)@ == old(self)@,
            !old(self)@.contains_key(group_id@) ==> r is Ok && final(self)@ == old(self)@.insert(
                group_id@,
                state,
            ),
    {
        match self.find(group_id) {
            Some(i) => {
                proof {
                    lemma_map_of_index(self.entries@, i as int);
                }
                Err(Error::AlreadyExists)
            },
            None => {
                let entry = GroupEntry { group_id: group_id.to_owned(), state };
                proof {
                    lemma_map_of_push(self.entries@, entry);
                }
                self.entries.push(entry);
                Ok(())
            },
        }
    }

    /// Subscribes to a group's log without membership: the entry observes the log
    /// and holds no cryptographic state.
    pub fn subscribe(&mut self, group_id: &str) -> (r: Result<(), Error>)
        requires
            old(self).wf(),
        ensures
            final(self).wf(),
            old(self)@.contains_key(group_id@) ==> r == Err::<(), Error>(Error::AlreadyExists)
                && final(self)@ == old(self)@,
            !old(self)@.contains_key(group_id@) ==> r is Ok && final(self)@ == old(self)@.insert(
                group_id@,
                GroupState::Observer { next_index: 0 },
            ),
    {
        self.insert_new(group_id, GroupState::Observer { next_index: 0 })
    }

}

/// What a locally originated operation on a member at `before` leads to: the
/// blob to publish sits at the position the member expected next, the member has
/// consumed it already, and the cursor has moved on by one. `settles` says
/// whether the operation discharges the member's update obligation.
pub open spec fn local_outcome<E, H>(
    before: GroupState<E>,
    after: GroupState<E>,
    blob: Blob<H>,
    settles: bool,
) -> bool {
    &&& after.is_member()
    &&& blob.index == before.cursor()
    &&& after.cursor() == before.cursor() + 1
    &&& after.owes_update() == (before.owes_update() && !settles)
}

/// Once a local operation has been applied, the blob it published is behind the
/// member's cursor: when a poll fetches it back, or when it is sent again after a
/// failed publication and then fetched, offering it changes nothing.
pub proof fn lemma_own_blob_is_stale<E, H>(
    before: GroupState<E>,
    after: GroupState<E>,
    blob: Blob<H>,
    settles: bool,
    again: GroupState<E>,
    v: Verdict,
)
    requires
        local_outcome(before, after, blob, settles),
        offer_outcome(after, again, blob, v),
    ensures
        v == Verdict::Stale,
        again == after,
{
}

/// `s` is a fresh member entry at log position `n` for the engine state
/// `crypto`, owing an update or not as `should_update` says.
pub open spec fn fresh_member<E>(s: GroupState<E>, n: u64, crypto: E, should_update: bool) -> bool {
    s matches GroupState::Member { next_index, crypto: c, should_update: u, .. } && next_index == n
        && c == crypto && u == should_update
}

/// The error a command that needs a member entry with room left in its log gets
/// on the group `k`, if any.
pub open spec fn command_error<E>(groups: Map<Seq<char>, GroupState<E>>, k: Seq<char>) -> Option<
    Error,
> {
    if !groups.contains_key(k) {
        Some(Error::NotFound)
    } else if !groups[k].is_member() {
        Some(Error::NotAMember)
    } else if groups[k].cursor() == u64::MAX {
        Some(Error::LogFull)
    } else {
        None
    }
}

/// Applies a handshake that the member's own engine has just produced: it is
/// consumed at once, at the expected position, and the blob that carries it is
/// returned for publication.
fn commit_own<E: GroupCryptoEngine>(
    next_index: &mut u64,
    crypto: &mut E,
    roster: &mut Vec<Credential>,
    should_update: &mut bool,
    handshake: E::Handshake,
    settles: bool,
) -> (blob: Blob<E::Handshake>)
    requires
        *old(next_index) < u64::MAX,
    ensures
        blob.index == *old(next_index),
        *final(next_index) == *old(next_index) + 1,
        *final(should_update) == (*old(should_update) && !settles),
{
    crypto.process_handshake(&handshake);
    *roster = crypto.get_members();
    let blob = Blob { index: *next_index, content: handshake };
    *next_index = *next_index + 1;
    if settles {
        *should_update = false;
    }
    blob
}

impl<E: GroupCryptoEngine> GroupRegistry<E> {
    /// Creates a group with the local user as its single member. `crypto` is the
    /// engine state of the new group; the user owes the group no update yet.
    pub fn create(&mut self, group_id: &str, crypto: E) -> (r: Result<(), Error>)
        requires
            old(self).wf(),
        ensures
            final(self).wf(),
            old(self)@.contains_key(group_id@) ==> r == Err::<(), Error>(Error::AlreadyExists)
                && final(self)@ == old(self)@,
            !old(self)@.contains_key(group_id@) ==> r is Ok && final(self)@ == old(self)@.insert(
                group_id@,
                final(self)@[group_id@],
            ) && fresh_member(final(self)@[group_id@], 0, crypto, false),
    {
        self.insert_new(group_id, GroupState::member(0, crypto, false))
    }

    /// Joins a group through a welcome package. `crypto` is the engine state
    /// derived from the package, and `transcript_len` the length of the history
    /// the package embeds: the log is read on from there, not from its start. A
    /// fresh member owes the group an update of its own key material.
    pub fn join(&mut self, group_id: &str, crypto: E, transcript_len: u64) -> (r: Result<
        (),
        Error,
    >)
        requires
            old(self).wf(),
        ensures
            final(self).wf(),
            old(self)@.contains_key(group_id@) ==> r == Err::<(), Error>(Error::AlreadyExists)
                && final(self)@ == old(self)@,
            !old(self)@.contains_key(group_id@) ==> r is Ok && final(self)@ == old(self)@.insert(
                group_id@,
                final(self)@[group_id@],
            ) && fresh_member(final(self)@[group_id@], transcript_len, crypto, true),
    {
        self.insert_new(group_id, GroupState::member(transcript_len, crypto, true))
    }

    /// Offers a batch of blobs fetched for `group_id` to its entry, in the order
    /// received, and returns the verdict on each blob offered.
    pub fn sync_group(&mut self, group_id: &str, blobs: &Vec<Blob<E::Handshake>>) -> (r: Result<
        Vec<Verdict>,
        Error,
    >)
        requires
            old(self).wf(),
        ensures
            final(self).wf(),
            !old(self)@.contains_key(group_id@) ==> r == Err::<Vec<Verdict>, Error>(
                Error::NotFound,
            ) && final(self)@ == old(self)@,
            old(self)@.contains_key(group_id@) ==> r is Ok && final(self)@ == old(self)@.insert(
                group_id@,
                final(self)@[group_id@],
            ) && batch_outcome(old(self)@[group_id@], final(self)@[group_id@], blobs@, r->Ok_0@),
    {
        match self.find(group_id) {
            None => Err(Error::NotFound),
            Some(i) => {
                let ghost before = self.entries@;
                proof {
                    lemma_map_of_index(before, i as int);
                }
                let verdicts = apply_blobs(&mut self.entries[i].state, blobs);
                proof {
                    lemma_map_of_update(before, self.entries@, i as int);
                }
                Ok(verdicts)
            },
        }
    }

    /// Checks that `group_id` names a member entry with room left in its log, and
    /// gives its position.
    fn member_position(&self, group_id: &str) -> (r: Result<usize, Error>)
        requires
            self.wf(),
        ensures
            match r {
                Ok(i) => {
                    &&& i < self.entries@.len()
                    &&& self.entries@[i as int].group_id@ == group_id@
                    &&& self@.contains_key(group_id@)
                    &&& self@[group_id@] == self.entries@[i as int].state
                    &&& self.entries@[i as int].state.is_member()
                    &&& self.entries@[i as int].state.cursor() < u64::MAX
                },
                Err(e) => command_error(self@, group_id@) == Some(e),
            },
            r is Err <==> command_error(self@, group_id@) is Some,
    {
        match self.find(group_id) {
            None => Err(Error::NotFound),
            Some(i) => {
                proof {
                    lemma_map_of_index(self.entries@, i as int);
                }
                if !self.entries[i].state.is_member_entry() {
                    Err(Error::NotAMember)
                } else if self.entries[i].state.next_index() == u64::MAX {
                    Err(Error::LogFull)
                } else {
                    Ok(i)
                }
            },
        }
    }

    /// Adds the user of `key_package` to `group_id`. The add is applied locally at
    /// once; the blob that carries it is returned for publication, with the
    /// welcome package for the invitee.
    pub fn add(&mut self, group_id: &str, key_package: &E::KeyPackage) -> (r: Result<
        (Blob<E::Handshake>, Vec<u8>),
        Error,
    >)
        requires
            old(self).wf(),
        ensures
            final(self).wf(),
            command_error(old(self)@, group_id@) is Some ==> r == Err::<
                (Blob<E::Handshake>, Vec<u8>),
                Error,
            >(command_error(old(self)@, group_id@)->0) && final(self)@ == old(self)@,
            command_error(old(self)@, group_id@) is None ==> r is Ok && final(self)@ == old(self)@.insert(group_id@, final(self)@[group_id@]) && local_outcome(
                old(self)@[group_id@],
                final(self)@[group_id@],
                r->Ok_0.0,
                false,
            ),
    {
        let i = match self.member_position(group_id) {
            Ok(i) => i,
            Err(e) => return Err(e),
        };
        let ghost before = self.entries@;
        let (blob, welcome) = match &mut self.entries[i].state {
            GroupState::Member { next_index, crypto, should_update, roster } => {
                let (welcome, operation) = crypto.create_add(key_package);
                let handshake = crypto.create_handshake(operation);
                (commit_own(next_index, crypto, roster, should_update, handshake, false), welcome)
            },
            GroupState::Observer { .. } => {
                proof {
                    assert(false);
                }
                return Err(Error::NotAMember);
            },
        };
        proof {
            lemma_map_of_update(before, self.entries@, i as int);
        }
        Ok((blob, welcome))
    }

    /// Removes from `group_id` the member whose roster credential carries the
    /// public key of `credential`: the earliest such slot of the roster. The
    /// removal is applied locally at once, and the blob that carries it is
    /// returned for publication.
    pub fn remove(&mut self, group_id: &str, credential: &Credential) -> (r: Result<Blob<E::Handshake>, Error>)
        requires
            old(self).wf(),
        ensures
            final(self).wf(),
            command_error(old(self)@, group_id@) is Some ==> r == Err::<Blob<E::Handshake>, Error>(command_error(old(self)@, group_id@)->0) && final(self)@ == old(self)@,
            command_error(old(self)@, group_id@) is None && slot_of(
                old(self)@[group_id@].members(),
                credential.public_key@,
            ) is None ==> r == Err::<Blob<E::Handshake>, Error>(Error::UserNotFound) && final(self)@ == old(self)@,
            command_error(old(self)@, group_id@) is None && slot_of(
                old(self)@[group_id@].members(),
                credential.public_key@,
            ) is Some ==> r is Ok && final(self)@ == old(self)@.insert(
                group_id@,
                final(self)@[group_id@],
            ) && local_outcome(old(self)@[group_id@], final(self)@[group_id@], r->Ok_0, false),
    {
        let i = match self.member_position(group_id) {
            Ok(i) => i,
            Err(e) => return Err(e),
        };
        let ghost before = self.entries@;
        let slot = match &self.entries[i].state {
            GroupState::Member { roster, .. } => {
                match find_member_slot(roster, &credential.public_key) {
                    Some(slot) => slot,
                    None => {
                        return Err(Error::UserNotFound);
                    },
                }
            },
            GroupState::Observer { .. } => {
                return Err(Error::NotAMember);
            },
        };
        let blob = match &mut self.entries[i].state {
            GroupState::Member { next_index, crypto, should_update, roster } => {
                let operation = crypto.create_remove(slot);
                let handshake = crypto.create_handshake(operation);
                commit_own(next_index, crypto, roster, should_update, handshake, false)
            },
            GroupState::Observer { .. } => {
                proof {
                    assert(false);
                }
                return Err(Error::NotAMember);
            },
        };
        proof {
            lemma_map_of_update(before, self.entries@, i as int);
        }
        Ok(blob)
    }

    /// The roster of `group_id`, one credential per membership slot.
    pub fn roster(&self, group_id: &str) -> (r: Result<&Vec<Credential>, Error>)
        requires
            self.wf(),
        ensures
            !self@.contains_key(group_id@) ==> r == Err::<&Vec<Credential>, Error>(Error::NotFound),
            self@.contains_key(group_id@) && !self@[group_id@].is_member() ==> r == Err::<&Vec<Credential>, Error>(Error::NotAMember),
            self@.contains_key(group_id@) && self@[group_id@].is_member() ==> r is Ok
                && r->Ok_0@ == self@[group_id@].members(),
    {
        match self.get(group_id) {
            Err(e) => Err(e),
            Ok(GroupState::Observer { .. }) => Err(Error::NotAMember),
            Ok(GroupState::Member { roster, .. }) => Ok(roster),
        }
    }

    /// Renews the local member's key material in `group_id`. The update is
    /// applied locally at once, which discharges the member's update obligation,
    /// and the blob that carries it is returned for publication; where publishing
    /// fails, the same blob has to be sent again.
    pub fn update(&mut self, group_id: &str) -> (r: Result<Blob<E::Handshake>, Error>)
        requires
            old(self).wf(),
        ensures
            final(self).wf(),
            command_error(old(self)@, group_id@) is Some ==> r == Err::<Blob<E::Handshake>, Error>(command_error(old(self)@, group_id@)->0) && final(self)@ == old(self)@,
            command_error(old(self)@, group_id@) is None ==> r is Ok && final(self)@ == old(self)@.insert(group_id@, final(self)@[group_id@]) && local_outcome(
                old(self)@[group_id@],
                final(self)@[group_id@],
                r->Ok_0,
                true,
            ),
    {
        let i = match self.member_position(group_id) {
            Ok(i) => i,
            Err(e) => return Err(e),
        };
        let ghost before = self.entries@;
        let blob = match &mut self.entries[i].state {
            GroupState::Member { next_index, crypto, should_update, roster } => {
                let operation = crypto.create_update();
                let handshake = crypto.create_handshake(operation);
                commit_own(next_index, crypto, roster, should_update, handshake, true)
            },
            GroupState::Observer { .. } => {
                proof {
                    assert(false);
                }
                return Err(Error::NotAMember);
            },
        };
        proof {
            lemma_map_of_update(before, self.entries@, i as int);
        }
        Ok(blob)
    }
}

} // verus!
