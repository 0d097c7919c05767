//! Relay channel: the single first-in-first-out conduit that carries decoded
//! messages from every inbound reader to the broadcast dispatcher.  Readers
//! push at the back; the dispatcher receives from the front, one message per
//! polling iteration.

use crate::codec::Message;
use vstd::prelude::*;

verus! {

/// An unbounded FIFO queue of decoded messages.
pub struct Relay {
    queue: Vec<Message>,
}

impl View for Relay {
    type V = Seq<Message>;

    closed spec fn view(&self) -> Seq<Message> {
        self.queue@
    }
}

impl Relay {
    /// An empty channel.
    pub fn new() -> (r: Relay)
        ensures
            r@ == Seq::<Message>::empty(),
    {
        Relay { queue: Vec::new() }
    }

    /// Appends `m` at the back of the channel.
    pub fn push(&mut self, m: Message)
        ensures
            final(self)@ == old(self)@.push(m),
    {
        self.queue.push(m);
    }

    /// Takes the oldest queued message, or `None` when the channel is
    /// empty; never blocks.
    pub fn try_recv(&mut self) -> (r: Option<Message>)
        ensures
            old(self)@.len() == 0 ==> r is None && final(self)@ == old(self)@,
            old(self)@.len() > 0 ==> (r matches Some(m) && m == old(self)@[0] && final(self)@
                == old(self)@.skip(1)),
    {
        if self.queue.len() == 0 {
            None
        } else {
            let m = self.queue.remove(0);
            proof {
                assert(old(self)@.remove(0) =~= old(self)@.skip(1));
            }
            Some(m)
        }
    }

    /// Number of queued messages.
    pub fn len(&self) -> (n: usize)
        ensures
            n == self@.len(),
    {
        self.queue.len()
    }
}

/// Ordering law: the channel preserves push order.  A message pushed
/// earlier sits at a lower index than one pushed later, whatever other
/// producers queue in between; and since `try_recv` always yields index 0
/// and shifts the rest down, the lower index leaves the channel first.
/// Hence two messages pushed by one connection are handed to the
/// dispatcher, and so broadcast, in their push order.
pub proof fn lemma_fifo_order(q: Seq<Message>, m1: Message, mid: Seq<Message>, m2: Message)
    ensures
        ((q.push(m1) + mid).push(m2))[q.len() as int] == m1,
        ((q.push(m1) + mid).push(m2))[(q.push(m1) + mid).len() as int] == m2,
        q.len() < (q.push(m1) + mid).len(),
{
    assert((q.push(m1) + mid)[q.len() as int] == q.push(m1)[q.len() as int]);
}

} // verus!
