use vstd::prelude::*;

use crate::blob::Blob;

verus! {

/// The items of `attempted` whose delivery did not go through, in order:
/// `sent[j]` says whether `attempted[j]` went through.
pub open spec fn unsent<A>(attempted: Seq<A>, sent: Seq<bool>) -> Seq<A>
    decreases attempted.len(),
{
    if attempted.len() == 0 || sent.len() == 0 {
        Seq::empty()
    } else if sent.last() {
        unsent(attempted.drop_last(), sent.drop_last())
    } else {
        unsent(attempted.drop_last(), sent.drop_last()).push(attempted.last())
    }
}

/// Blobs that were applied locally but whose publication failed, each with its
/// group. Local state is never rolled back for them: the obligation is to send
/// each again, unchanged, until the store takes it.
pub struct Outbox<T> {
    items: Vec<(String, Blob<T>)>,
}

impl<T> View for Outbox<T> {
    type V = Seq<(String, Blob<T>)>;

    closed spec fn view(&self) -> Seq<(String, Blob<T>)> {
        self.items@
    }
}

impl<T> Outbox<T> {
    /// Nothing to send again.
    pub fn new() -> (r: Self)
        ensures
            r@ == Seq::<(String, Blob<T>)>::empty(),
    {
        Outbox { items: Vec::new() }
    }

    /// Keeps a blob of `group_id` whose publication failed.
    pub fn push(&mut self, group_id: String, blob: Blob<T>)
        ensures
            final(self)@ == old(self)@.push((group_id, blob)),
    {
        self.items.push((group_id, blob));
    }

    /// How many blobs wait to be sent again.
    pub fn len(&self) -> (r: usize)
        ensures
            r == self@.len(),
    {
        self.items.len()
    }

    /// Hands out every waiting blob, oldest first, for another attempt.
    pub fn take(&mut self) -> (r: Vec<(String, Blob<T>)>)
        ensures
            r@ == old(self)@,
            final(self)@ == Seq::<(String, Blob<T>)>::empty(),
    {
        let mut out: Vec<(String, Blob<T>)> = Vec::new();
        std::mem::swap(&mut out, &mut self.items);
        out
    }

    /// Takes back, in order, the blobs of an attempt that did not go through:
    /// `sent[j]` says whether `attempted[j]` went through. The blobs kept are the
    /// very blobs handed out, so a later attempt sends them unchanged.
    pub fn requeue(&mut self, attempted: Vec<(String, Blob<T>)>, sent: &Vec<bool>)
        requires
            sent@.len() == attempted@.len(),
        ensures
            final(self)@ == old(self)@ + unsent(attempted@, sent@),
    {
        let ghost orig = attempted@;
        let ghost start = self@;
        let mut attempted = attempted;
        let n: usize = sent.len();
        let mut k: usize = 0;
        while attempted.len() > 0
            invariant
                n == orig.len(),
                sent@.len() == orig.len(),
                k + attempted@.len() == orig.len(),
                attempted@ == orig.subrange(k as int, orig.len() as int),
                self@ == start + unsent(orig.take(k as int), sent@.take(k as int)),
            decreases attempted@.len(),
        {
            let item = attempted.remove(0);
            proof {
                assert(orig.take(k as int + 1).drop_last() =~= orig.take(k as int));
                assert(sent@.take(k as int + 1).drop_last() =~= sent@.take(k as int));
                assert(orig.take(k as int + 1).last() == item);
            }
            if !sent[k] {
                self.items.push(item);
                assert(self@ =~= start + unsent(orig.take(k as int + 1), sent@.take(k as int + 1)));
            }
            k = k + 1;
        }
        proof {
            assert(orig.take(k as int) =~= orig);
            assert(sent@.take(k as int) =~= sent@);
        }
    }
}

} // verus!
