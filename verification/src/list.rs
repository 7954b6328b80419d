use vstd::prelude::*;

verus! {

/// One slot of the arena: an element and the slots of its neighbours.
struct Node<T> {
    next: Option<usize>,
    prev: Option<usize>,
    data: T,
}

/// A doubly linked list whose nodes live in an arena and name each other by their
/// slot numbers. A slot that a removed element leaves is kept on a free list and
/// taken again by a later insertion.
pub struct LinkedList<T> {
    nodes: Vec<Node<T>>,
    first: Option<usize>,
    last: Option<usize>,
    free: Option<usize>,
    order: Ghost<Seq<usize>>,
    spare: Ghost<Seq<usize>>,
}

/// The slot that follows position `i` of `chain`, if there is one.
spec fn link_after(chain: Seq<usize>, i: int) -> Option<usize> {
    if i + 1 < chain.len() {
        Some(chain[i + 1])
    } else {
        None
    }
}

/// The slot that precedes position `i` of `chain`, if there is one.
spec fn link_before(chain: Seq<usize>, i: int) -> Option<usize> {
    if i > 0 {
        Some(chain[i - 1])
    } else {
        None
    }
}

/// The first slot of `chain`, if there is one.
spec fn head_of(chain: Seq<usize>) -> Option<usize> {
    if chain.len() > 0 {
        Some(chain[0])
    } else {
        None
    }
}

/// The last slot of `chain`, if there is one.
spec fn tail_of(chain: Seq<usize>) -> Option<usize> {
    if chain.len() > 0 {
        Some(chain.last())
    } else {
        None
    }
}

impl<T: Copy> View for LinkedList<T> {
    type V = Seq<T>;

    /// The elements of the list, the first one first.
    closed spec fn view(&self) -> Seq<T> {
        Seq::new(self.order@.len(), |i: int| self.nodes@[self.order@[i] as int].data)
    }
}

impl<T: Copy> LinkedList<T> {
    /// The slots of the elements are distinct slots of the arena, linked both ways
    /// in the order of the list, from `first` to `last`.
    spec fn chain_ok(&self) -> bool {
        &&& forall|i: int| 0 <= i < self.order@.len() ==> #[trigger] self.order@[i] < self.nodes@.len()
        &&& forall|i: int, j: int|
            0 <= i < j < self.order@.len() ==> #[trigger] self.order@[i] != #[trigger] self.order@[j]
        &&& self.first == head_of(self.order@)
        &&& self.last == tail_of(self.order@)
        &&& forall|i: int|
            0 <= i < self.order@.len() ==> (#[trigger] self.nodes@[self.order@[i] as int]).next
                == link_after(self.order@, i)
        &&& forall|i: int|
            0 <= i < self.order@.len() ==> (#[trigger] self.nodes@[self.order@[i] as int]).prev
                == link_before(self.order@, i)
    }

    /// The free slots are distinct slots of the arena that hold no element, linked
    /// forward from `free`.
    spec fn spare_ok(&self) -> bool {
        &&& forall|i: int| 0 <= i < self.spare@.len() ==> #[trigger] self.spare@[i] < self.nodes@.len()
        &&& forall|i: int, j: int|
            0 <= i < j < self.spare@.len() ==> #[trigger] self.spare@[i] != #[trigger] self.spare@[j]
        &&& forall|i: int, j: int|
            0 <= i < self.order@.len() && 0 <= j < self.spare@.len() ==> #[trigger] self.order@[i]
                != #[trigger] self.spare@[j]
        &&& self.free == head_of(self.spare@)
        &&& forall|i: int|
            0 <= i < self.spare@.len() ==> (#[trigger] self.nodes@[self.spare@[i] as int]).next
                == link_after(self.spare@, i)
    }

    /// The list is well formed: its links and its free list are as the operations
    /// leave them.
    pub closed spec fn wf(&self) -> bool {
        self.chain_ok() && self.spare_ok()
    }

    /// An empty list.
    pub fn new() -> (r: Self)
        ensures
            r.wf(),
            r@ == Seq::<T>::empty(),
    {
        let r = LinkedList {
            nodes: Vec::new(),
            first: None,
            last: None,
            free: None,
            order: Ghost(Seq::empty()),
            spare: Ghost(Seq::empty()),
        };
        proof {
            assert(r@ =~= Seq::<T>::empty());
        }
        r
    }

    /// Puts `node` into a slot that holds no element and returns that slot: the
    /// first free slot if there is one, else a new slot at the end of the arena.
    fn take_slot(&mut self, node: Node<T>) -> (idx: usize)
        requires
            old(self).wf(),
        ensures
            final(self).order@ == old(self).order@,
            final(self).first == old(self).first,
            final(self).last == old(self).last,
            final(self).nodes@.len() >= old(self).nodes@.len(),
            idx < final(self).nodes@.len(),
            final(self).nodes@[idx as int] == node,
            forall|k: int|
                0 <= k < old(self).nodes@.len() && k != idx ==> final(self).nodes@[k]
                    == old(self).nodes@[k],
            !final(self).order@.contains(idx),
            !final(self).spare@.contains(idx),
            final(self).spare_ok(),
    {
        match self.free {
            Some(slot) => {
                let rest = self.nodes[slot].next;
                self.nodes[slot] = node;
                self.free = rest;
                proof {
                    let ghost spare = self.spare@;
                    assert(spare[0] == slot);
                    self.spare = Ghost(spare.drop_first());
                    assert forall|i: int| 0 <= i < self.spare@.len() implies self.spare@[i]
                        == spare[i + 1] by {}
                }
                slot
            },
            None => {
                self.nodes.push(node);
                self.nodes.len() - 1
            },
        }
    }

    /// Puts the slot `idx`, which holds no element, at the head of the free list:
    /// the slot now leads to the former head, and nothing else in the arena changes.
    fn give_back(&mut self, idx: usize)
        requires
            old(self).wf(),
            idx < old(self).nodes@.len(),
            !old(self).order@.contains(idx),
            !old(self).spare@.contains(idx),
        ensures
            final(self).wf(),
            final(self)@ == old(self)@,
            final(self).order@ == old(self).order@,
            final(self).first == old(self).first,
            final(self).last == old(self).last,
            final(self).spare@ == seq![idx] + old(self).spare@,
            final(self).free == Some(idx),
            final(self).nodes@.len() == old(self).nodes@.len(),
            final(self).nodes@[idx as int].next == old(self).free,
            final(self).nodes@[idx as int].prev == old(self).nodes@[idx as int].prev,
            final(self).nodes@[idx as int].data == old(self).nodes@[idx as int].data,
            forall|k: int|
                0 <= k < old(self).nodes@.len() && k != idx ==> final(self).nodes@[k]
                    == old(self).nodes@[k],
    {
        self.nodes[idx].next = self.free;
        self.free = Some(idx);
        proof {
            let ghost spare = self.spare@;
            self.spare = Ghost(seq![idx] + spare);
            assert forall|i: int| 1 <= i < self.spare@.len() implies self.spare@[i] == spare[i
                - 1] by {}
            assert(self@ =~= old(self)@);
        }
    }

    /// Appends `t` after the last element.
    pub fn push_back(&mut self, t: T)
        requires
            old(self).wf(),
        ensures
            final(self).wf(),
            final(self)@ == old(self)@.push(t),
    {
        let idx = self.take_slot(Node { data: t, next: None, prev: self.last });
        match self.last {
            None => {
                self.first = Some(idx);
            },
            Some(tail) => {
                self.nodes[tail].next = Some(idx);
            },
        }
        self.last = Some(idx);
        proof {
            let ghost order = self.order@;
            self.order = Ghost(order.push(idx));
            assert(self@ =~= old(self)@.push(t));
        }
    }

    /// Removes the last element and returns it, or returns `None` if the list is
    /// empty.
    pub fn pop_back(&mut self) -> (r: Option<T>)
        requires
            old(self).wf(),
        ensures
            final(self).wf(),
            old(self)@.len() == 0 ==> r is None && final(self)@ == old(self)@,
            old(self)@.len() > 0 ==> r == Some(old(self)@.last()),
            old(self)@.len() > 0 ==> final(self)@ == old(self)@.drop_last(),
    {
        match self.last {
            None => None,
            Some(tail) => {
                let data = self.nodes[tail].data;
                match self.nodes[tail].prev {
                    None => {
                        self.first = None;
                        self.last = None;
                    },
                    Some(before) => {
                        self.nodes[before].next = None;
                        self.last = Some(before);
                    },
                }
                proof {
                    let ghost order = self.order@;
                    self.order = Ghost(order.drop_last());
                    assert(self@ =~= old(self)@.drop_last());
                }
                self.give_back(tail);
                Some(data)
            },
        }
    }

    /// Puts `value` before the first element.
    pub fn push_front(&mut self, value: T)
        requires
            old(self).wf(),
        ensures
            final(self).wf(),
            final(self)@ == seq![value] + old(self)@,
    {
        let idx = self.take_slot(Node { data: value, next: self.first, prev: None });
        match self.first {
            None => {
                self.last = Some(idx);
            },
            Some(head) => {
                self.nodes[head].prev = Some(idx);
            },
        }
        self.first = Some(idx);
        proof {
            let ghost order = self.order@;
            self.order = Ghost(seq![idx] + order);
            assert forall|i: int| 1 <= i < self.order@.len() implies self.order@[i] == order[i
                - 1] by {}
            assert(self@ =~= seq![value] + old(self)@);
        }
    }

    /// Removes the first element and returns it, or returns `None` if the list is
    /// empty.
    pub fn pop_front(&mut self) -> (r: Option<T>)
        requires
            old(self).wf(),
        ensures
            final(self).wf(),
            old(self)@.len() == 0 ==> r is None && final(self)@ == old(self)@,
            old(self)@.len() > 0 ==> r == Some(old(self)@[0]),
            old(self)@.len() > 0 ==> final(self)@ == old(self)@.drop_first(),
    {
        match self.first {
            None => None,
            Some(head) => {
                let data = self.nodes[head].data;
                match self.nodes[head].next {
                    None => {
                        self.first = None;
                        self.last = None;
                    },
                    Some(after) => {
                        self.nodes[after].prev = None;
                        self.first = Some(after);
                    },
                }
                proof {
                    let ghost order = self.order@;
                    self.order = Ghost(order.drop_first());
                    assert forall|i: int| 0 <= i < self.order@.len() implies self.order@[i]
                        == order[i + 1] by {}
                    assert(self@ =~= old(self)@.drop_first());
                }
                self.give_back(head);
                Some(data)
            },
        }
    }

    /// The list that holds the elements of `vec` in their order.
    pub fn from_vec(vec: Vec<T>) -> (r: Self)
        ensures
            r.wf(),
            r@ == vec@,
    {
        let mut list = LinkedList::new();
        let mut i: usize = 0;
        while i < vec.len()
            invariant
                i <= vec.len(),
                list.wf(),
                list@ == vec@.take(i as int),
            decreases vec.len() - i,
        {
            list.push_back(vec[i]);
            proof {
                assert(vec@.take(i + 1) =~= vec@.take(i as int).push(vec@[i as int]));
            }
            i = i + 1;
        }
        proof {
            assert(vec@.take(i as int) =~= vec@);
        }
        list
    }

    /// The elements of the list in their order; the list stays as it is.
    pub fn get_values(&mut self) -> (r: Vec<T>)
        requires
            old(self).wf(),
        ensures
            final(self).wf(),
            final(self)@ == old(self)@,
            r@ == old(self)@,
    {
        let mut values: Vec<T> = Vec::new();
        let mut cursor = self.first;
        let ghost mut at: int = 0;
        loop
            invariant
                self.wf(),
                *self == *old(self),
                0 <= at <= self.order@.len(),
                cursor == if at < self.order@.len() {
                    Some(self.order@[at])
                } else {
                    None
                },
                values@ == self@.take(at),
            ensures
                values@ == self@,
                *self == *old(self),
            decreases self.order@.len() - at,
        {
            match cursor {
                None => {
                    proof {
                        assert(self@.take(at) =~= self@);
                    }
                    break ;
                },
                Some(idx) => {
                    values.push(self.nodes[idx].data);
                    cursor = self.nodes[idx].next;
                    proof {
                        assert(self@.take(at + 1) =~= self@.take(at).push(self@[at]));
                        at = at + 1;
                    }
                },
            }
        }
        values
    }
}

} // verus!
