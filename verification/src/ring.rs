//! The ring of `L` slots that stages the items of a lookahead adapter.

use vstd::prelude::*;

verus! {

/// The slot that stands `n` places after `index` in a ring of `len` slots.
pub(crate) open spec fn slot_of(index: int, n: int, len: int) -> int {
    (index + n) % len
}

/// Inside a ring, going round takes at most one subtraction.
pub(crate) proof fn lemma_slot_of(index: int, n: int, len: int)
    requires
        0 <= index < len,
        0 <= n < len,
    ensures
        slot_of(index, n, len) == if index + n < len {
            index + n
        } else {
            index + n - len
        },
{
    if index + n < len {
        vstd::arithmetic::div_mod::lemma_small_mod((index + n) as nat, len as nat);
    } else {
        vstd::arithmetic::div_mod::lemma_small_mod((index + n - len) as nat, len as nat);
        vstd::arithmetic::div_mod::lemma_mod_sub_multiples_vanish(index + n, len);
    }
}

/// A ring of `L` slots, each an item or nothing, with the index of the slot
/// that is due next.
pub(crate) struct Ring<T, const L: usize> {
    slots: Vec<Option<T>>,
    index: usize,
}

impl<T, const L: usize> Ring<T, L> {
    #[verifier::type_invariant]
    spec fn well_formed(&self) -> bool {
        &&& self.slots@.len() == L
        &&& if L == 0 {
            self.index == 0
        } else {
            self.index < L
        }
    }

    /// The slots in the order in which they are due: slot `(index + n) mod L`
    /// stands at position `n`.
    pub(crate) closed spec fn window(&self) -> Seq<Option<T>> {
        Seq::new(L as nat, |n: int| self.slots@[slot_of(self.index as int, n, L as int)])
    }

    pub(crate) proof fn lemma_window_len(&self)
        ensures
            self.window().len() == L,
    {
    }

    /// A ring whose `L` slots all hold nothing.
    pub(crate) fn new() -> (ring: Self)
        ensures
            ring.window() == Seq::new(L as nat, |n: int| None::<T>),
    {
        let mut slots: Vec<Option<T>> = Vec::new();
        let mut filled: usize = 0;
        while filled < L
            invariant
                filled <= L,
                slots@.len() == filled,
                forall|i: int| 0 <= i < filled ==> slots@[i] is None,
            decreases L - filled,
        {
            slots.push(None);
            filled = filled + 1;
        }
        let ring = Ring { slots, index: 0 };
        proof {
            assert forall|n: int| 0 <= n < L implies (#[trigger] ring.window()[n]) is None by {
                lemma_slot_of(0, n, L as int);
            }
            assert(ring.window() =~= Seq::new(L as nat, |n: int| None::<T>));
        }
        ring
    }

    /// Puts `incoming` in the slot that is due, hands out what the slot held
    /// and moves the index on by one, round the ring.
    pub(crate) fn rotate(&mut self, incoming: Option<T>) -> (due: Option<T>)
        requires
            L > 0,
        ensures
            due == old(self).window()[0],
            final(self).window() == old(self).window().drop_first().push(incoming),
    {
        proof {
            use_type_invariant(&*self);
            lemma_slot_of(self.index as int, 0, L as int);
        }
        let mut held = incoming;
        core::mem::swap(&mut self.slots[self.index], &mut held);
        self.index = if self.index == L - 1 {
            0
        } else {
            self.index + 1
        };
        proof {
            let before = old(self).window();
            let after = self.window();
            assert forall|n: int| 0 <= n < L implies #[trigger] after[n] == before.drop_first().push(
                incoming,
            )[n] by {
                lemma_slot_of(self.index as int, n, L as int);
                if n + 1 < L {
                    lemma_slot_of(old(self).index as int, n + 1, L as int);
                }
            }
            assert(after =~= before.drop_first().push(incoming));
        }
        held
    }

    /// The slot that will be due after `n` more rotations.
    pub(crate) fn slot(&self, n: usize) -> (slot: &Option<T>)
        requires
            n < L,
        ensures
            *slot == self.window()[n as int],
    {
        proof {
            use_type_invariant(self);
            lemma_slot_of(self.index as int, n as int, L as int);
        }
        let gap: usize = L - self.index;
        let at: usize = if n < gap {
            self.index + n
        } else {
            n - gap
        };
        &self.slots[at]
    }
}

} // verus!
