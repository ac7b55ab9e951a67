use vstd::prelude::*;

use crate::blob::{accepts, advance, indices_of, Blob, Verdict};
use crate::engine::{Credential, GroupCryptoEngine};

verus! {

/// What the client tracks of one group: the log position it has not consumed
/// yet and, for a member, the group's cryptographic state.
#[derive(Clone, Debug)]
pub enum GroupState<E> {
    /// Subscribed to the group's log without membership.
    Observer { next_index: u64 },
    /// A member, with its engine state, whether it still owes the group a
    /// renewal of its own key material, and the roster as the engine last
    /// reported it.
    Member { next_index: u64, crypto: E, should_update: bool, roster: Vec<Credential> },
}

/// How a blob at `index` is classified by a cursor at `next`.
pub open spec fn verdict_for(next: u64, index: u64) -> Verdict {
    if accepts(next, index) {
        Verdict::Applied
    } else if index < next {
        Verdict::Stale
    } else {
        Verdict::Future
    }
}

impl<E> GroupState<E> {
    /// The log position not consumed yet.
    pub open spec fn cursor(&self) -> u64 {
        match self {
            GroupState::Observer { next_index } => *next_index,
            GroupState::Member { next_index, .. } => *next_index,
        }
    }

    /// Whether the entry holds cryptographic state.
    pub open spec fn is_member(&self) -> bool {
        self is Member
    }

    /// Whether a self-update is owed (never for an observer).
    pub open spec fn owes_update(&self) -> bool {
        match self {
            GroupState::Observer { .. } => false,
            GroupState::Member { should_update, .. } => *should_update,
        }
    }

    /// The roster of the group; an observer knows of none.
    pub open spec fn members(&self) -> Seq<Credential> {
        match self {
            GroupState::Observer { .. } => Seq::empty(),
            GroupState::Member { roster, .. } => roster@,
        }
    }

    /// `new` is this state with its cursor moved to `n`, of the same kind and with
    /// the same update obligation; a member's engine state and roster may have
    /// changed.
    pub open spec fn moved_to(&self, new: &Self, n: u64) -> bool {
        &&& new.cursor() == n
        &&& new.is_member() == self.is_member()
        &&& new.owes_update() == self.owes_update()
        &&& !self.is_member() ==> *new == GroupState::<E>::Observer { next_index: n }
    }

    /// The log position not consumed yet.
    pub fn next_index(&self) -> (r: u64)
        ensures
            r == self.cursor(),
    {
        match self {
            GroupState::Observer { next_index } => *next_index,
            GroupState::Member { next_index, .. } => *next_index,
        }
    }

    /// Whether the entry holds cryptographic state.
    pub fn is_member_entry(&self) -> (r: bool)
        ensures
            r == self.is_member(),
    {
        match self {
            GroupState::Observer { .. } => false,
            GroupState::Member { .. } => true,
        }
    }

    /// Whether a self-update is owed.
    pub fn should_update(&self) -> (r: bool)
        ensures
            r == self.owes_update(),
    {
        match self {
            GroupState::Observer { .. } => false,
            GroupState::Member { should_update, .. } => *should_update,
        }
    }
}

impl<E: GroupCryptoEngine> GroupState<E> {
    /// A member entry for the engine state `crypto`, at log position
    /// `next_index`, with the roster the engine reports.
    pub fn member(next_index: u64, crypto: E, should_update: bool) -> (r: Self)
        ensures
            r matches GroupState::Member { next_index: n, crypto: c, should_update: s, .. } && n
                == next_index && c == crypto && s == should_update,
    {
        let roster = crypto.get_members();
        GroupState::Member { next_index, crypto, should_update, roster }
    }
}

/// Offering `blob` to a group in state `before` led to state `after` with
/// verdict `v`: the verdict depends on the cursor and the index alone, only a
/// consumed blob changes anything, and it moves the cursor on by exactly one.
pub open spec fn offer_outcome<E, H>(
    before: GroupState<E>,
    after: GroupState<E>,
    blob: Blob<H>,
    v: Verdict,
) -> bool {
    &&& v == verdict_for(before.cursor(), blob.index)
    &&& v == Verdict::Applied ==> before.moved_to(&after, (before.cursor() + 1) as u64)
    &&& v != Verdict::Applied ==> after == before
}

/// Feeds a handshake to a member's engine and records the roster it reports
/// afterwards.
fn absorb<E: GroupCryptoEngine>(crypto: &mut E, roster: &mut Vec<Credential>, handshake: &E::Handshake) {
    crypto.process_handshake(handshake);
    *roster = crypto.get_members();
}

/// Offers one blob to a group. A blob at the expected position is consumed: a
/// member's engine processes the handshake it carries, and the cursor moves on by
/// one. A blob below the cursor was consumed before and is ignored; one ahead of
/// it is dropped, to be fetched again once the gap is closed. Neither changes
/// anything.
pub fn process_message<E: GroupCryptoEngine>(
    group_state: &mut GroupState<E>,
    message: &Blob<E::Handshake>,
) -> (v: Verdict)
    ensures
        offer_outcome(*old(group_state), *final(group_state), *message, v),
        final(group_state).cursor() == old(group_state).cursor() + if v == Verdict::Applied {
            1int
        } else {
            0int
        },
{
    match group_state {
        GroupState::Observer { next_index } => {
            if message.index == *next_index && *next_index < u64::MAX {
                *next_index = *next_index + 1;
                Verdict::Applied
            } else if message.index < *next_index {
                Verdict::Stale
            } else {
                Verdict::Future
            }
        },
        GroupState::Member { next_index, crypto, roster, .. } => {
            if message.index == *next_index && *next_index < u64::MAX {
                absorb(crypto, roster, &message.content);
                *next_index = *next_index + 1;
                Verdict::Applied
            } else if message.index < *next_index {
                Verdict::Stale
            } else {
                Verdict::Future
            }
        },
    }
}

/// The cursor never moves back, and moves on by exactly one for each blob
/// consumed, which is a blob at the cursor.
pub proof fn lemma_offer_advances<E, H>(
    before: GroupState<E>,
    after: GroupState<E>,
    blob: Blob<H>,
    v: Verdict,
)
    requires
        offer_outcome(before, after, blob, v),
    ensures
        after.cursor() >= before.cursor(),
        v == Verdict::Applied <==> after.cursor() == before.cursor() + 1,
        v == Verdict::Applied ==> blob.index == before.cursor(),
        blob.index == before.cursor() && before.cursor() < u64::MAX ==> v == Verdict::Applied,
{
}

/// Offering the same blob twice has the effect of offering it once: the second
/// offer consumes nothing and changes nothing, whatever the first did.
pub proof fn lemma_offer_twice<E, H>(
    s0: GroupState<E>,
    s1: GroupState<E>,
    s2: GroupState<E>,
    blob: Blob<H>,
    v1: Verdict,
    v2: Verdict,
)
    requires
        offer_outcome(s0, s1, blob, v1),
        offer_outcome(s1, s2, blob, v2),
    ensures
        s2 == s1,
        v2 != Verdict::Applied,
{
}

/// A blob ahead of the cursor changes nothing, the engine state included.
pub proof fn lemma_future_blob_inert<E, H>(
    before: GroupState<E>,
    after: GroupState<E>,
    blob: Blob<H>,
    v: Verdict,
)
    requires
        offer_outcome(before, after, blob, v),
        blob.index > before.cursor(),
    ensures
        after == before,
        v == Verdict::Future,
{
}

/// The cursor after the first `k` of `blobs` were offered to a cursor at `next`.
pub open spec fn cursor_after<H>(next: u64, blobs: Seq<Blob<H>>, k: int) -> u64 {
    advance(next, indices_of(blobs.take(k)))
}

/// What offering `blobs` to a group in state `before` leads to: the group is in
/// state `after`, and `verdicts` holds the verdict on each blob. Each blob is
/// classified against the cursor that the blobs before it left, and the cursor
/// moves on by one for each blob consumed.
pub open spec fn batch_outcome<E, H>(
    before: GroupState<E>,
    after: GroupState<E>,
    blobs: Seq<Blob<H>>,
    verdicts: Seq<Verdict>,
) -> bool {
    &&& verdicts.len() == blobs.len()
    &&& forall|j: int|
        0 <= j < verdicts.len() ==> verdicts[j] == verdict_for(
            cursor_after(before.cursor(), blobs, j),
            blobs[j].index,
        )
    &&& before.moved_to(&after, cursor_after(before.cursor(), blobs, blobs.len() as int))
    &&& (forall|j: int| 0 <= j < verdicts.len() ==> verdicts[j] != Verdict::Applied) ==> after
        == before
}

/// Offers a fetched batch of blobs to a group, in the order received, and
/// returns the verdict on each blob.
pub fn apply_blobs<E: GroupCryptoEngine>(
    group_state: &mut GroupState<E>,
    blobs: &Vec<Blob<E::Handshake>>,
) -> (verdicts: Vec<Verdict>)
    ensures
        batch_outcome(*old(group_state), *final(group_state), blobs@, verdicts@),
{
    let ghost start = *group_state;
    let mut verdicts: Vec<Verdict> = Vec::new();
    let mut i: usize = 0;
    while i < blobs.len()
        invariant
            start == *old(group_state),
            i <= blobs@.len(),
            verdicts@.len() == i,
            forall|j: int|
                0 <= j < i ==> verdicts@[j] == verdict_for(
                    cursor_after(start.cursor(), blobs@, j),
                    blobs@[j].index,
                ),
            start.moved_to(&*group_state, cursor_after(start.cursor(), blobs@, i as int)),
            (forall|j: int| 0 <= j < i ==> verdicts@[j] != Verdict::Applied) ==> *group_state
                == start,
        decreases blobs@.len() - i,
    {
        proof {
            assert(indices_of(blobs@.take(i as int + 1)).drop_last() =~= indices_of(
                blobs@.take(i as int),
            ));
            assert(indices_of(blobs@.take(i as int + 1)).last() == blobs@[i as int].index);
        }
        let v = process_message(group_state, &blobs[i]);
        let ghost prev = verdicts@;
        verdicts.push(v);
        proof {
            assert(forall|j: int| 0 <= j < i ==> verdicts@[j] == prev[j]);
            if forall|j: int| 0 <= j < i + 1 ==> verdicts@[j] != Verdict::Applied {
                assert(forall|j: int| 0 <= j < i ==> prev[j] != Verdict::Applied);
                assert(verdicts@[i as int] == v);
            }
        }
        i = i + 1;
    }
    proof {
        assert(blobs@.take(blobs@.len() as int) =~= blobs@);
    }
    verdicts
}

} // verus!
