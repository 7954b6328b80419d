use crate::bigint::BigInt;
use vstd::prelude::*;

verus! {

/// A consumer of digits: something that is handed one digit at a time and gives
/// nothing back.
pub trait Action {
    /// Whether this consumer keeps a record of the digits it is handed. One that
    /// keeps none (it prints them, say) leaves this and `taken` as they are.
    open spec fn keeps_record(&self) -> bool {
        false
    }

    /// The digits that this consumer has on record, in the order in which it was
    /// handed them.
    open spec fn taken(&self) -> Seq<u64> {
        Seq::empty()
    }

    /// Hands `digit` to the consumer.
    fn do_action(&mut self, digit: u64)
        ensures
            old(self).keeps_record() ==> final(self).keeps_record(),
            old(self).keeps_record() ==> final(self).taken() == old(self).taken().push(digit),
    ;
}

/// A vector of digits is the consumer that collects what it is handed.
impl Action for Vec<u64> {
    open spec fn keeps_record(&self) -> bool {
        true
    }

    open spec fn taken(&self) -> Seq<u64> {
        self@
    }

    fn do_action(&mut self, digit: u64) {
        self.push(digit);
    }
}

impl BigInt {
    /// Hands every digit to `a`, the most significant digit first.
    pub fn act_v1<A: Action>(&self, a: &mut A)
        ensures
            old(a).keeps_record() ==> final(a).keeps_record(),
            old(a).keeps_record() ==> final(a).taken() == old(a).taken() + self@.reverse(),
    {
        let mut iter = self.iter();
        loop
            invariant
                old(a).keeps_record() ==> a.keeps_record(),
                old(a).keeps_record() ==> a.taken() + iter.remaining() == old(a).taken()
                    + self@.reverse(),
            ensures
                old(a).keeps_record() ==> a.keeps_record(),
                old(a).keeps_record() ==> a.taken() == old(a).taken() + self@.reverse(),
            decreases iter.remaining().len(),
        {
            let ghost before = iter.remaining();
            let ghost seen = a.taken();
            match iter.next() {
                None => {
                    proof {
                        assert(seen + before =~= seen);
                    }
                    break ;
                },
                Some(digit) => {
                    a.do_action(digit);
                    proof {
                        assert(seen.push(digit) + before.drop_first() =~= seen + before);
                    }
                },
            }
        }
    }

    /// Calls `a` on every digit, the most significant digit first.
    pub fn act<A: FnMut(u64)>(&self, a: A)
        requires
            forall|i: int| 0 <= i < self@.len() ==> call_requires(a, (#[trigger] self@[i],)),
        ensures
            forall|i: int| 0 <= i < self@.len() ==> call_ensures(a, (#[trigger] self@[i],), ()),
    {
        let mut f = a;
        let mut iter = self.iter();
        let ghost all = self@.reverse();
        let ghost mut done: int = 0;
        loop
            invariant
                f == a,
                all == self@.reverse(),
                0 <= done <= all.len(),
                iter.remaining() == all.skip(done),
                forall|i: int| 0 <= i < all.len() ==> call_requires(a, (#[trigger] all[i],)),
                forall|i: int| 0 <= i < done ==> call_ensures(a, (#[trigger] all[i],), ()),
            ensures
                forall|i: int| 0 <= i < all.len() ==> call_ensures(a, (#[trigger] all[i],), ()),
            decreases iter.remaining().len(),
        {
            match iter.next() {
                None => {
                    break ;
                },
                Some(digit) => {
                    proof {
                        assert(digit == all[done]);
                        assert(all.skip(done).drop_first() =~= all.skip(done + 1));
                    }
                    f(digit);
                    proof {
                        done = done + 1;
                    }
                },
            }
        }
        proof {
            assert forall|i: int| 0 <= i < self@.len() implies call_ensures(
                a,
                (#[trigger] self@[i],),
                (),
            ) by {
                assert(all[self@.len() - 1 - i] == self@[i]);
            }
        }
    }
}

} // verus!
