//! The practice queue: an ordered worklist with first-in-first-out
//! presentation and retry-on-failure.
//!
//! An item stays in the queue until it is answered correctly: a correct
//! answer removes the head permanently, a wrong answer moves the head
//! to the tail so it is presented again later in the same session.

use vstd::prelude::*;
use vstd::seq_lib::lemma_multiset_commutative;
use std::collections::VecDeque;

verus! {

/// The session worklist of practice items (single symbols or words,
/// both carried as strings).
#[derive(Debug)]
pub struct PracticeQueue {
    pub items: VecDeque<String>,
}

impl View for PracticeQueue {
    type V = Seq<String>;

    open spec fn view(&self) -> Seq<String> {
        self.items@
    }
}

impl PracticeQueue {
    /// An empty queue.
    pub fn new() -> (q: PracticeQueue)
        ensures
            q@ == Seq::<String>::empty(),
    {
        PracticeQueue { items: VecDeque::new() }
    }

    /// Replaces the queue's contents with the given items, in the
    /// given order.  Any randomisation of the order is the caller's
    /// business, not this component's.
    pub fn seed(&mut self, items: Vec<String>)
        ensures
            final(self)@ == items@,
    {
        self.items.clear();
        let n = items.len();
        for i in 0..n
            invariant
                n == items@.len(),
                self.items@ == items@.take(i as int),
        {
            self.items.push_back(items[i].clone());
            proof {
                assert(items@.take(i + 1) =~= items@.take(i as int).push(items@[i as int]));
            }
        }
        proof {
            assert(items@.take(n as int) =~= items@);
        }
    }

    /// Number of items still to be answered correctly.
    pub fn len(&self) -> (n: usize)
        ensures
            n == self@.len(),
    {
        self.items.len()
    }

    /// The head item without removing it; `None` exactly when the
    /// queue is exhausted.
    pub fn peek(&self) -> (r: Option<String>)
        ensures
            r is Some <==> self@.len() > 0,
            r matches Some(s) ==> s == self@[0],
    {
        if self.items.len() > 0 {
            Some(self.items[0].clone())
        } else {
            None
        }
    }

    /// Settles the head item.  On success the head is removed for
    /// good; on failure it moves to the tail, so the queue keeps
    /// exactly the same members (the total membership count is
    /// preserved) and the item will be presented again.  No item is
    /// ever removed except by resolving it with `correct == true`
    /// while it is the head.
    pub fn resolve(&mut self, correct: bool)
        requires
            old(self)@.len() > 0,
        ensures
            correct ==> final(self)@ == old(self)@.drop_first(),
            !correct ==> final(self)@ == old(self)@.drop_first().push(old(self)@[0]),
            !correct ==> final(self)@.to_multiset() == old(self)@.to_multiset(),
            final(self)@.len() == old(self)@.len() - (if correct {
                1int
            } else {
                0int
            }),
    {
        let ghost orig = self.items@;
        let head = self.items.pop_front();
        proof {
            assert(self.items@ =~= orig.drop_first());
        }
        if !correct {
            match head {
                Some(item) => {
                    self.items.push_back(item);
                    proof {
                        let rest = orig.drop_first();
                        assert(orig =~= seq![orig[0]] + rest);
                        lemma_multiset_commutative(seq![orig[0]], rest);
                        assert(rest.push(orig[0]) =~= rest + seq![orig[0]]);
                        lemma_multiset_commutative(rest, seq![orig[0]]);
                        assert(self.items@.to_multiset() =~= orig.to_multiset());
                    }
                },
                None => {},
            }
        }
    }
}

} // verus!
