use vstd::prelude::*;

verus! {

/// One entry of a group's append-only remote log: its position and the
/// handshake message it carries.
#[derive(Clone, Debug)]
pub struct Blob<H> {
    pub index: u64,
    pub content: H,
}

/// A batch of blobs as fetched from the store, in the order received.
#[derive(Clone, Debug)]
pub struct Blobs<H> {
    pub blobs: Vec<Blob<H>>,
}

/// Whether a client whose cursor is at `next` consumes a blob at `index`.
/// The position `u64::MAX` ends every log: a cursor there has nothing left to consume.
pub open spec fn accepts(next: u64, index: u64) -> bool {
    index == next && next < u64::MAX
}

/// The cursor reached from `next` after offering the blobs at `indices`, in order,
/// when every accepted blob is consumed.
pub open spec fn advance(next: u64, indices: Seq<u64>) -> u64
    decreases indices.len(),
{
    if indices.len() == 0 {
        next
    } else {
        let n = advance(next, indices.drop_last());
        if accepts(n, indices.last()) {
            (n + 1) as u64
        } else {
            n
        }
    }
}

/// The indices of a sequence of blobs.
pub open spec fn indices_of<H>(blobs: Seq<Blob<H>>) -> Seq<u64> {
    blobs.map_values(|b: Blob<H>| b.index)
}

/// What happened to one blob offered to a group.
#[derive(Clone, Copy, Debug, PartialEq, Eq, Structural)]
pub enum Verdict {
    /// The blob was at the expected position and has been consumed.
    Applied,
    /// The blob was already consumed earlier, and was ignored.
    Stale,
    /// The blob is ahead of the expected position, and was dropped.
    Future,
}

/// The cursor never decreases, whatever blobs are offered.
pub proof fn lemma_advance_monotonic(next: u64, indices: Seq<u64>)
    ensures
        next <= advance(next, indices),
    decreases indices.len(),
{
    if indices.len() > 0 {
        lemma_advance_monotonic(next, indices.drop_last());
    }
}

/// Offering the blobs of `a` and then those of `b` moves the cursor as offering
/// the blobs of `a + b` does.
pub proof fn lemma_advance_concat(next: u64, a: Seq<u64>, b: Seq<u64>)
    ensures
        advance(advance(next, a), b) == advance(next, a + b),
    decreases b.len(),
{
    if b.len() == 0 {
        assert(a + b =~= a);
    } else {
        lemma_advance_concat(next, a, b.drop_last());
        assert((a + b).drop_last() =~= a + b.drop_last());
        assert((a + b).last() == b.last());
    }
}

/// Offering again any blob whose index lies below the cursor leaves the cursor
/// where it is.
pub proof fn lemma_advance_replay(next: u64, indices: Seq<u64>)
    requires
        forall|i: int| 0 <= i < indices.len() ==> indices[i] < next,
    ensures
        advance(next, indices) == next,
    decreases indices.len(),
{
    if indices.len() > 0 {
        lemma_advance_replay(next, indices.drop_last());
    }
}

} // verus!
