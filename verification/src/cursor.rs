use crate::bigint::BigInt;
use vstd::prelude::*;

verus! {

/// A cursor over the digits of a big integer, which it borrows for as long as it
/// lives. It yields each digit once, in one direction, and then stays exhausted.
pub struct Iter<'a> {
    num: &'a BigInt,
    idx: usize,
    end_idx: usize,
    stop: bool,
}

impl<'a> Iter<'a> {
    #[verifier::type_invariant]
    closed spec fn inv(self) -> bool {
        !self.stop ==> {
            &&& self.idx < self.num@.len()
            &&& self.end_idx == 0 || (self.end_idx == self.num@.len() - 1 && self.idx
                <= self.end_idx)
        }
    }

    /// The digits of the number that this cursor walks over, least significant first.
    pub closed spec fn source(&self) -> Seq<u64> {
        self.num@
    }

    /// The digits that are still to come, in the order in which they will be yielded.
    pub closed spec fn remaining(&self) -> Seq<u64> {
        if self.stop {
            Seq::empty()
        } else if self.end_idx != 0 {
            self.num@.subrange(self.idx as int, self.num@.len() as int)
        } else {
            self.num@.subrange(0, self.idx + 1).reverse()
        }
    }

    /// A cursor that yields the digits of `num` from the most significant down to the
    /// least significant.
    pub fn new(num: &'a BigInt) -> (r: Self)
        ensures
            r.source() == num@,
            r.remaining() == num@.reverse(),
    {
        let len = num.data.len();
        let r = if len == 0 {
            Iter { num, idx: 0, end_idx: 0, stop: true }
        } else {
            Iter { num, idx: len - 1, end_idx: 0, stop: false }
        };
        proof {
            if len > 0 {
                assert(num@.subrange(0, len as int) =~= num@);
            }
            assert(r.remaining() =~= num@.reverse());
        }
        r
    }

    /// A cursor that yields the digits of `num` from the least significant up to the
    /// most significant.
    pub fn new_rev(num: &'a BigInt) -> (r: Self)
        ensures
            r.source() == num@,
            r.remaining() == num@,
    {
        let len = num.data.len();
        let r = if len == 0 {
            Iter { num, idx: 0, end_idx: 0, stop: true }
        } else {
            Iter { num, idx: 0, end_idx: len - 1, stop: false }
        };
        proof {
            assert(r.remaining() =~= num@);
        }
        r
    }

    /// Yields the next digit, or `None` once every digit has been yielded.
    pub fn next(&mut self) -> (r: Option<u64>)
        ensures
            final(self).source() == old(self).source(),
            old(self).remaining().len() == 0 ==> r is None,
            old(self).remaining().len() == 0 ==> final(self).remaining() == old(self).remaining(),
            old(self).remaining().len() > 0 ==> r == Some(old(self).remaining()[0]),
            old(self).remaining().len() > 0 ==> final(self).remaining() == old(self).remaining()
                .drop_first(),
    {
        proof {
            use_type_invariant(&*self);
        }
        if self.stop {
            return None;
        }
        let result = Some(self.num.data[self.idx]);
        self.stop = self.idx == self.end_idx;
        if !self.stop {
            let is_reverse_iter = self.end_idx != 0;
            if is_reverse_iter {
                self.idx = self.idx + 1;
            } else {
                self.idx = self.idx - 1;
            }
        }
        proof {
            assert(final(self).remaining() =~= old(self).remaining().drop_first());
        }
        result
    }
}

impl BigInt {
    /// A cursor over the digits, most significant first.
    pub fn iter(&self) -> (r: Iter<'_>)
        ensures
            r.source() == self@,
            r.remaining() == self@.reverse(),
    {
        Iter::new(self)
    }

    /// A cursor over the digits, least significant first.
    pub fn iter_ldf(&self) -> (r: Iter<'_>)
        ensures
            r.source() == self@,
            r.remaining() == self@,
    {
        Iter::new_rev(self)
    }
}

} // verus!
