use vstd::prelude::*;
use std::collections::VecDeque;

verus! {

/// The contents of a window of capacity `maxlen` after `item` is pushed onto `s`:
/// the oldest element leaves once the window is full, and a window of capacity
/// zero stays empty.
pub open spec fn window_push<T>(s: Seq<T>, item: T, maxlen: nat) -> Seq<T> {
    if maxlen == 0 {
        s
    } else if s.len() >= maxlen {
        s.drop_first().push(item)
    } else {
        s.push(item)
    }
}

/// What a push onto `s` hands back: the evicted element, if any.
pub open spec fn window_evicted<T>(s: Seq<T>, item: T, maxlen: nat) -> Option<T> {
    if maxlen == 0 {
        Some(item)
    } else if s.len() >= maxlen {
        Some(s[0])
    } else {
        None
    }
}

/// Bounded double-ended queue: a FIFO of fixed capacity that evicts its oldest
/// element when a push finds it full.
pub struct BDeque<T: Clone> {
    maxlen: usize,
    state: VecDeque<T>,
}

impl<T: Clone> View for BDeque<T> {
    type V = Seq<T>;

    /// The contents, oldest first.
    closed spec fn view(&self) -> Seq<T> {
        self.state@
    }
}

impl<T: Clone> BDeque<T> {
    /// The capacity the window was made with.
    pub closed spec fn capacity(&self) -> nat {
        self.maxlen as nat
    }

    /// The window never holds more than its capacity.
    pub closed spec fn wf(&self) -> bool {
        self.state@.len() <= self.maxlen
    }

    pub fn new(maxlen: usize) -> (r: BDeque<T>)
        ensures
            r.wf(),
            r@ == Seq::<T>::empty(),
            r.capacity() == maxlen,
    {
        let vd = VecDeque::with_capacity(maxlen);
        BDeque { maxlen: maxlen, state: vd }
    }

    pub fn push_back(&mut self, item: T) -> (r: Option<T>)
        requires
            old(self).wf(),
        ensures
            final(self).wf(),
            final(self).capacity() == old(self).capacity(),
            final(self)@ == window_push(old(self)@, item, old(self).capacity()),
            r == window_evicted(old(self)@, item, old(self).capacity()),
    {
        if self.maxlen == 0 {
            return Some(item);
        }
        let i = if self.state.len() == self.maxlen {
            self.state.pop_front()
        } else {
            None
        };
        self.state.push_back(item);
        i
    }

    pub fn fill_with(&mut self, item: T)
        requires
            old(self).wf(),
        ensures
            final(self).wf(),
            final(self).capacity() == old(self).capacity(),
            final(self)@.len() == old(self).capacity(),
            forall|i: int|
                0 <= i < final(self)@.len() ==> cloned::<T>(item, #[trigger] final(self)@[i]),
    {
        let n = self.maxlen;
        let mut k: usize = 0;
        while k < n
            invariant
                self.wf(),
                self.capacity() == n,
                k <= n,
                self@.len() >= k,
                forall|i: int|
                    self@.len() - k <= i < self@.len() ==> cloned::<T>(item, #[trigger] self@[i]),
            decreases n - k,
        {
            let c = item.clone();
            let ghost before = self@;
            self.push_back(c);
            assert forall|i: int|
                self@.len() - (k + 1) <= i < self@.len() implies cloned::<T>(
                item,
                #[trigger] self@[i],
            ) by {
                if i < self@.len() - 1 {
                    if before.len() >= n {
                        assert(self@[i] == before[i + 1]);
                    } else {
                        assert(self@[i] == before[i]);
                    }
                }
            }
            k = k + 1;
        }
    }

    /// The contents, oldest first, as a vector of clones.
    pub fn copy_state(&self) -> (r: Vec<T>)
        ensures
            r@.len() == self@.len(),
            forall|i: int| 0 <= i < r@.len() ==> cloned::<T>(self@[i], #[trigger] r@[i]),
    {
        let mut v: Vec<T> = Vec::with_capacity(self.maxlen);
        let n = self.state.len();
        let mut k: usize = 0;
        while k < n
            invariant
                n == self@.len(),
                k <= n,
                v@.len() == k,
                forall|i: int| 0 <= i < k ==> cloned::<T>(self@[i], #[trigger] v@[i]),
            decreases n - k,
        {
            v.push(self.state[k].clone());
            k = k + 1;
        }
        v
    }
}

impl<T: Clone> Clone for BDeque<T> {
    fn clone(&self) -> (r: Self)
        ensures
            r.capacity() == self.capacity(),
            r@.len() == self@.len(),
            forall|i: int| 0 <= i < r@.len() ==> cloned::<T>(self@[i], #[trigger] r@[i]),
            self.wf() ==> r.wf(),
    {
        BDeque { maxlen: self.maxlen, state: self.state.clone() }
    }
}

} // verus!
