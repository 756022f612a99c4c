//! The lookahead adapter itself.

use vstd::prelude::*;
use vstd::std_specs::iter::IteratorSpec;
use crate::model::{item_at, pulled, shown, Lookahead};
use crate::ring::Ring;

verus! {

/// Wraps an iterator and offers `peek` and `peek_nth` on it.
///
/// Holds the next `L` answers of the iterator, so that peeking needs no
/// mutable access. `L` is fixed by the type.
pub struct Prepeek<I: Iterator, const L: usize> {
    iter: I,
    ring: Ring<I::Item, L>,
}

impl<I: Iterator, const L: usize> Prepeek<I, L> {
    /// The staged answers in the order in which `next` will return them.
    pub closed spec fn window(&self) -> Seq<Option<I::Item>> {
        self.ring.window()
    }

    /// The wrapped iterator, as it stands behind the window.
    pub closed spec fn source(&self) -> I {
        self.iter
    }

    /// The window always has exactly `L` places.
    pub proof fn lemma_window_len(&self)
        ensures
            self.window().len() == L,
    {
        self.ring.lemma_window_len();
    }

    /// Wraps `iter`, and asks it `L` times for an item to fill the window.
    ///
    /// Where the iterator ends before that, the places left hold nothing.
    pub fn new(iter: I) -> (s: Self)
        ensures
            s.window().len() == L,
            s.source().obeys_prophetic_iter_laws() == iter.obeys_prophetic_iter_laws(),
            iter.obeys_prophetic_iter_laws() ==> (Lookahead {
                window: s.window(),
                rest: s.source().remaining(),
            }) == Lookahead::primed(iter.remaining(), L as nat),
    {
        let mut s = Self { iter, ring: Ring::new() };
        proof {
            s.lemma_window_len();
        }
        // fill the window
        for k in 0..L
            invariant
                s.window().len() == L,
                s.source().obeys_prophetic_iter_laws() == iter.obeys_prophetic_iter_laws(),
                iter.obeys_prophetic_iter_laws() ==> s.source().remaining() == pulled(iter.remaining(), k as nat),
                iter.obeys_prophetic_iter_laws() ==> forall|n: int|
                    0 <= n < L ==> #[trigger] s.window()[n] == if n < L - k {
                        None
                    } else {
                        item_at(iter.remaining(), n - (L - k))
                    },
        {
            s.next();
        }
        proof {
            if iter.obeys_prophetic_iter_laws() {
                assert(s.window() =~= Lookahead::primed(iter.remaining(), L as nat).window);
            }
        }
        s
    }

    /// Returns the staged answer that is due, and asks the iterator for one
    /// more to take its place at the end of the window.
    ///
    /// With `L == 0` nothing is staged: the iterator's own answer is returned.
    pub fn next(&mut self) -> (r: Option<I::Item>)
        ensures
            final(self).window().len() == L,
            L > 0 ==> r == old(self).window()[0],
            L > 0 ==> final(self).window().drop_last() == old(self).window().drop_first(),
            final(self).source().obeys_prophetic_iter_laws() == old(
                self,
            ).source().obeys_prophetic_iter_laws(),
            old(self).source().obeys_prophetic_iter_laws() ==> r == (Lookahead {
                window: old(self).window(),
                rest: old(self).source().remaining(),
            }).output(),
            old(self).source().obeys_prophetic_iter_laws() ==> (Lookahead {
                window: final(self).window(),
                rest: final(self).source().remaining(),
            }) == (Lookahead {
                window: old(self).window(),
                rest: old(self).source().remaining(),
            }).step(),
    {
        proof {
            self.lemma_window_len();
        }
        let v = self.iter.next();
        proof {
            if self.iter.obeys_prophetic_iter_laws() {
                assert(self.iter.remaining() =~= pulled(old(self).iter.remaining(), 1));
            }
        }
        if L != 0 {
            let due = self.ring.rotate(v);
            proof {
                self.lemma_window_len();
                assert(self.window().drop_last() =~= old(self).window().drop_first());
            }
            due
        } else {
            proof {
                assert(self.window() =~= old(self).window());
            }
            v
        }
    }

    /// Returns a reference to what `next` would return, without advancing.
    ///
    /// With `L == 0` this is always `None`.
    pub fn peek(&self) -> (r: Option<&I::Item>)
        ensures
            L == 0 ==> r is None,
            shown(r) == (Lookahead {
                window: self.window(),
                rest: self.source().remaining(),
            }).peek_nth(0),
    {
        self.peek_nth::<0>()
    }

    /// Returns a reference to what the call of `next` after `N` more calls
    /// would return, without advancing.
    ///
    /// With `N >= L` this is always `None`, whatever the iterator still holds.
    pub fn peek_nth<const N: usize>(&self) -> (r: Option<&I::Item>)
        ensures
            N >= L ==> r is None,
            shown(r) == (Lookahead {
                window: self.window(),
                rest: self.source().remaining(),
            }).peek_nth(N as nat),
    {
        proof {
            self.lemma_window_len();
        }
        if N >= L {
            None
        } else {
            self.ring.slot(N).as_ref()
        }
    }
}

} // verus!
