//! The mathematical model of a lookahead adapter, and the laws it obeys.

use vstd::prelude::*;

verus! {

/// The item that a stream yields at position `n`; nothing past its end.
pub open spec fn item_at<T>(stream: Seq<T>, n: int) -> Option<T> {
    if 0 <= n < stream.len() {
        Some(stream[n])
    } else {
        None
    }
}

/// What is left of a stream once it was asked for an item `k` times.
pub open spec fn pulled<T>(stream: Seq<T>, k: nat) -> Seq<T> {
    if k <= stream.len() {
        stream.skip(k as int)
    } else {
        Seq::empty()
    }
}

/// The item behind the reference that a peek hands out, if it hands out one.
pub open spec fn shown<T>(peeked: Option<&T>) -> Option<T> {
    match peeked {
        Some(item) => Some(*item),
        None => None,
    }
}

/// The state of a lookahead adapter.
///
/// `window[n]` is what the `n`-th advance from now returns: an item, or `None`
/// where the stream has ended by then. `rest` holds the items that the
/// underlying producer has yet to give.
pub struct Lookahead<T> {
    pub window: Seq<Option<T>>,
    pub rest: Seq<T>,
}

impl<T> Lookahead<T> {
    /// The state of a fresh adapter of the given depth over `stream`: the
    /// window holds the first `depth` answers of the stream.
    pub open spec fn primed(stream: Seq<T>, depth: nat) -> Self {
        Lookahead {
            window: Seq::new(depth, |n: int| item_at(stream, n)),
            rest: pulled(stream, depth),
        }
    }

    /// What the next advance returns: the head of the window, or with no
    /// window at all the producer's own answer.
    pub open spec fn output(self) -> Option<T> {
        if self.window.len() > 0 {
            self.window[0]
        } else {
            item_at(self.rest, 0)
        }
    }

    /// The state after one advance: the window drops its head and takes the
    /// producer's answer at its end.
    pub open spec fn step(self) -> Self {
        Lookahead {
            window: if self.window.len() > 0 {
                self.window.drop_first().push(item_at(self.rest, 0))
            } else {
                self.window
            },
            rest: pulled(self.rest, 1),
        }
    }

    /// The state after `k` advances.
    pub open spec fn after(self, k: nat) -> Self
        decreases k,
    {
        if k == 0 {
            self
        } else {
            self.step().after((k - 1) as nat)
        }
    }

    /// What a peek at offset `n` shows: the window's slot, and nothing at or
    /// beyond the window's length.
    pub open spec fn peek_nth(self, n: nat) -> Option<T> {
        if n < self.window.len() {
            self.window[n as int]
        } else {
            None
        }
    }
}

/// One advance of a fresh adapter over `stream` returns the stream's first
/// answer and leaves a fresh adapter over the stream's tail.
pub proof fn lemma_step_of_primed<T>(stream: Seq<T>, depth: nat)
    ensures
        Lookahead::primed(stream, depth).output() == item_at(stream, 0),
        Lookahead::primed(stream, depth).step() == Lookahead::primed(pulled(stream, 1), depth),
{
    let before = Lookahead::primed(stream, depth);
    let tail = Lookahead::primed(pulled(stream, 1), depth);
    assert(pulled(stream, 0) =~= stream);
    assert(before.step().rest =~= tail.rest);
    assert(before.step().window =~= tail.window);
}

/// An adapter is transparent: the `k`-th advance (counted from zero) of a
/// fresh adapter of any depth returns item `k` of the stream, and nothing once
/// the stream is over. No item is lost, repeated or reordered.
pub proof fn lemma_advances_replay_stream<T>(stream: Seq<T>, depth: nat, k: nat)
    ensures
        Lookahead::primed(stream, depth).after(k) == Lookahead::primed(pulled(stream, k), depth),
        Lookahead::primed(stream, depth).after(k).output() == item_at(stream, k as int),
    decreases k,
{
    if k == 0 {
        assert(pulled(stream, 0) =~= stream);
        lemma_step_of_primed(stream, depth);
    } else {
        lemma_step_of_primed(stream, depth);
        lemma_advances_replay_stream(pulled(stream, 1), depth, (k - 1) as nat);
        assert(pulled(pulled(stream, 1), (k - 1) as nat) =~= pulled(stream, k));
    }
}

/// A peek foretells an advance: in any state, what a peek at an offset `n`
/// inside the window shows is what the advance after `n` more advances returns.
pub proof fn lemma_peek_foretells_advance<T>(state: Lookahead<T>, n: nat)
    requires
        n < state.window.len(),
    ensures
        state.after(n).output() == state.peek_nth(n),
    decreases n,
{
    if n > 0 {
        lemma_peek_foretells_advance(state.step(), (n - 1) as nat);
    }
}

/// A peek reads the window and nothing else: two states with the same window
/// show the same at every offset, whatever their producers still hold.
pub proof fn lemma_peek_reads_window_only<T>(one: Lookahead<T>, other: Lookahead<T>, n: nat)
    requires
        one.window == other.window,
    ensures
        one.peek_nth(n) == other.peek_nth(n),
{
}

/// A peek at or beyond the depth shows nothing, whatever the stream still
/// holds.
pub proof fn lemma_peek_beyond_depth<T>(stream: Seq<T>, depth: nat, k: nat, n: nat)
    requires
        n >= depth,
    ensures
        Lookahead::primed(stream, depth).after(k).peek_nth(n) is None,
{
    lemma_advances_replay_stream(stream, depth, k);
}

/// With depth zero an adapter passes the producer through: every advance
/// returns the producer's own answer, and no peek shows anything.
pub proof fn lemma_depth_zero_passes_through<T>(state: Lookahead<T>, n: nat)
    requires
        state.window.len() == 0,
    ensures
        state.output() == item_at(state.rest, 0),
        state.step().window.len() == 0,
        state.step().rest == pulled(state.rest, 1),
        state.peek_nth(n) is None,
{
}

/// Once the stream is over it stays over: after at least as many advances as
/// the stream has items, every advance returns nothing and every peek shows
/// nothing.
pub proof fn lemma_exhausted_stays_empty<T>(stream: Seq<T>, depth: nat, k: nat, n: nat)
    requires
        k >= stream.len(),
    ensures
        Lookahead::primed(stream, depth).after(k).output() is None,
        Lookahead::primed(stream, depth).after(k).peek_nth(n) is None,
{
    lemma_advances_replay_stream(stream, depth, k);
}

} // verus!
