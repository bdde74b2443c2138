//! Fixed-capacity circular FIFO that overwrites its oldest item when full.

use vstd::prelude::*;

verus! {

/// Number of slots allocated; one of them is kept free to tell full from empty.
pub const BUFFER_SIZE: u16 = 128;

/// What a buffer holding `s` holds after `c` is pushed.
pub open spec fn pushed<T>(s: Seq<T>, c: T) -> Seq<T> {
    if s.len() < BUFFER_SIZE - 1 {
        s.push(c)
    } else {
        s.drop_first().push(c)
    }
}

/// What a pop hands out of a buffer holding `s`, and what the buffer holds after it.
pub open spec fn popped<T>(s: Seq<T>) -> (Option<T>, Seq<T>) {
    if s.len() == 0 {
        (None, s)
    } else {
        (Some(s[0]), s.drop_first())
    }
}

/// What a buffer holding `s` holds after each of `items` is pushed in turn.
pub open spec fn pushed_all<T>(s: Seq<T>, items: Seq<T>) -> Seq<T>
    decreases items.len(),
{
    if items.len() == 0 {
        s
    } else {
        pushed(pushed_all(s, items.drop_last()), items.last())
    }
}

/// The last `n` items of `s`, or all of `s` where it has fewer.
pub open spec fn most_recent<T>(s: Seq<T>, n: int) -> Seq<T> {
    if s.len() <= n {
        s
    } else {
        s.skip(s.len() - n)
    }
}

/// A queue of up to `BUFFER_SIZE - 1` items that never refuses a push: when it is full,
/// a push gives up the oldest item. Its view is the queued items, oldest first.
pub struct RingBuffer<T> where T: Default + Copy {
    head: u16,
    tail: u16,
    contents: [T; 128],
}

impl<T> View for RingBuffer<T> where T: Default + Copy {
    type V = Seq<T>;

    /// The queued items, oldest first.
    closed spec fn view(&self) -> Seq<T> {
        Seq::new(
            self.count(),
            |i: int| self.contents@[(self.head + i) % (BUFFER_SIZE as int)],
        )
    }
}

impl<T> RingBuffer<T> where T: Default + Copy {
    #[verifier::type_invariant]
    spec fn inv(&self) -> bool {
        self.head < BUFFER_SIZE && self.tail < BUFFER_SIZE
    }

    spec fn count(&self) -> nat {
        if self.tail >= self.head {
            (self.tail - self.head) as nat
        } else {
            (BUFFER_SIZE - self.head + self.tail) as nat
        }
    }

    /// An empty buffer.
    pub fn new() -> (r: RingBuffer<T>)
        ensures
            r@ == Seq::<T>::empty(),
    {
        RingBuffer { head: 0, tail: 0, contents: [T::default(); 128] }
    }

    /// Forgets all queued items.
    pub fn clear(&mut self)
        ensures
            final(self)@ == Seq::<T>::empty(),
    {
        proof {
            use_type_invariant(&*self);
        }
        self.tail = 0;
        self.head = 0;
    }

    /// Whether nothing is queued.
    pub fn is_empty(&self) -> (r: bool)
        ensures
            r == (self@.len() == 0),
    {
        proof {
            use_type_invariant(self);
        }
        self.head == self.tail
    }

    /// Number of queued items, never more than `BUFFER_SIZE - 1`.
    pub fn size(&self) -> (r: u16)
        ensures
            r == self@.len(),
            r <= BUFFER_SIZE - 1,
    {
        proof {
            use_type_invariant(self);
        }
        if self.tail >= self.head {
            self.tail - self.head
        } else {
            (BUFFER_SIZE - self.head) + self.tail
        }
    }
}

impl<T> RingBuffer<T> where T: Default + Copy {
    /// Queues `c`, in place of the oldest item where the buffer is full.
    pub fn push(&mut self, c: T)
        ensures
            final(self)@ == pushed(old(self)@, c),
            final(self)@.len() <= BUFFER_SIZE - 1,
    {
        proof {
            use_type_invariant(&*self);
        }
        self.contents[(self.tail % BUFFER_SIZE) as usize] = c;
        self.tail = (self.tail + 1) % BUFFER_SIZE;

        // the buffer is full: give up the oldest item
        if self.tail == self.head {
            self.head = (self.head + 1) % BUFFER_SIZE;
        }
        assert(self@ =~= pushed(old(self)@, c));
    }

    /// Takes the oldest item out, if there is one.
    pub fn pop(&mut self) -> (r: Option<T>)
        ensures
            (r, final(self)@) == popped(old(self)@),
            final(self)@.len() <= BUFFER_SIZE - 1,
    {
        proof {
            use_type_invariant(&*self);
        }
        if self.is_empty() {
            None
        } else {
            let t = self.contents[(self.head % BUFFER_SIZE) as usize];
            self.head = (self.head + 1) % BUFFER_SIZE;
            assert(self@ =~= old(self)@.drop_first());
            Some(t)
        }
    }

    /// Pops up to `n` items, oldest first.
    pub fn drain(&mut self, n: usize) -> (r: Vec<T>)
        ensures
            r@ == old(self)@.take(r@.len() as int),
            final(self)@ == old(self)@.skip(r@.len() as int),
            r@.len() == if n <= old(self)@.len() {
                n as nat
            } else {
                old(self)@.len()
            },
    {
        let mut out: Vec<T> = Vec::new();
        let mut taken: usize = 0;
        assert(self@ =~= old(self)@.skip(0));
        while taken < n
            invariant
                taken <= n,
                taken <= old(self)@.len(),
                out@.len() == taken,
                out@ == old(self)@.take(taken as int),
                self@ == old(self)@.skip(taken as int),
            ensures
                taken <= n,
                out@.len() == taken,
                out@ == old(self)@.take(taken as int),
                self@ == old(self)@.skip(taken as int),
                taken == n || taken == old(self)@.len(),
            decreases n - taken,
        {
            match self.pop() {
                Some(item) => {
                    out.push(item);
                    taken += 1;
                    assert(out@ =~= old(self)@.take(taken as int));
                    assert(self@ =~= old(self)@.skip(taken as int));
                },
                None => {
                    break ;
                },
            }
        }
        out
    }
}

impl<T> Default for RingBuffer<T> where T: Default + Copy {
    fn default() -> (r: Self)
        ensures
            r@ == Seq::<T>::empty(),
    {
        RingBuffer::new()
    }
}

/// Pushing a run of items leaves the buffer with the most recent items of what it held
/// followed by the run, as many as its usable capacity, in the order in which they came.
pub proof fn lemma_pushes_keep_most_recent<T>(s: Seq<T>, items: Seq<T>)
    requires
        s.len() <= BUFFER_SIZE - 1,
    ensures
        pushed_all(s, items) == most_recent(s + items, BUFFER_SIZE - 1),
        pushed_all(s, items).len() <= BUFFER_SIZE - 1,
        items.len() >= BUFFER_SIZE - 1 ==> pushed_all(s, items) == most_recent(
            items,
            BUFFER_SIZE - 1,
        ),
    decreases items.len(),
{
    if items.len() == 0 {
        assert(s + items =~= s);
    } else {
        lemma_pushes_keep_most_recent(s, items.drop_last());
        assert((s + items).drop_last() =~= s + items.drop_last());
        assert(pushed_all(s, items) =~= most_recent(s + items, BUFFER_SIZE - 1));
    }
    if items.len() >= BUFFER_SIZE - 1 {
        assert(most_recent(s + items, BUFFER_SIZE - 1) =~= most_recent(items, BUFFER_SIZE - 1));
    }
}

/// A buffer is empty exactly when a pop would hand nothing out, and a pop hands out the
/// oldest item and keeps the others in order.
pub proof fn lemma_empty_iff_pop_fails<T>(s: Seq<T>)
    ensures
        s.len() == 0 <==> popped(s).0 is None,
        s.len() > 0 ==> popped(s).0 == Some(s[0]) && popped(s).1 == s.skip(1),
{
}

} // verus!
