//! Fixed-capacity circular storage with non-blocking push and pop.
//!
//! A buffer of `capacity` slots keeps one slot free to tell "full" from "empty", so it
//! holds at most `capacity - 1` values. Its view is the sequence of resident values,
//! oldest first.

use vstd::prelude::*;
use vstd::arithmetic::div_mod::lemma_mod_self_0;
use vstd::arithmetic::div_mod::lemma_small_mod;
use vstd::arithmetic::power2::is_pow2;

verus! {

/// The slot reached from `start` after `offset` steps around a ring of `capacity` slots.
pub open spec fn wrap(start: int, offset: int, capacity: int) -> int {
    if start + offset < capacity {
        start + offset
    } else {
        start + offset - capacity
    }
}

/// The number of steps from `tail` forward to `head` around a ring of `capacity` slots.
pub open spec fn distance(tail: int, head: int, capacity: int) -> int {
    if tail <= head {
        head - tail
    } else {
        head + capacity - tail
    }
}

/// One step forward from a cursor is the cursor plus one, modulo the capacity.
proof fn lemma_wrap_is_mod(cursor: int, capacity: int)
    requires
        0 <= cursor < capacity,
    ensures
        wrap(cursor, 1, capacity) == (cursor + 1) % capacity,
{
    if cursor + 1 < capacity {
        lemma_small_mod((cursor + 1) as nat, capacity as nat);
    } else {
        lemma_mod_self_0(capacity);
    }
}

/// Whether `capacity` is a power of two, the only capacities a buffer can be built with.
pub fn is_valid_capacity(capacity: usize) -> (r: bool)
    ensures
        r == is_pow2(capacity as int),
{
    if capacity == 0 {
        proof {
            reveal(is_pow2);
        }
        return false;
    }
    let mut rest: usize = capacity;
    while rest % 2 == 0
        invariant
            rest >= 1,
            is_pow2(rest as int) == is_pow2(capacity as int),
        decreases rest,
    {
        proof {
            reveal(is_pow2);
        }
        rest = rest / 2;
    }
    proof {
        reveal(is_pow2);
    }
    rest == 1
}

/// A bounded FIFO queue over a ring of optional slots.
///
/// `head` is the next slot to write and `tail` the next slot to read. The slots from
/// `tail` up to, but not including, `head` hold the resident values; every other slot
/// is vacant.
pub struct RingBuffer<T> {
    slots: Vec<Option<T>>,
    capacity: usize,
    head: usize,
    tail: usize,
}

/// Writes `value` into the slot at `head` and advances `head` by one step.
fn store<T>(slots: &mut Vec<Option<T>>, head: &mut usize, capacity: usize, value: T)
    requires
        old(slots)@.len() == capacity,
        *old(head) < capacity,
    ensures
        final(slots)@ == old(slots)@.update(*old(head) as int, Some(value)),
        *final(head) == wrap(*old(head) as int, 1, capacity as int),
    no_unwind
{
    slots[*head] = Some(value);
    proof {
        lemma_wrap_is_mod(*head as int, capacity as int);
    }
    *head = (*head + 1) % capacity;
}

/// Moves the content of the slot at `tail` out, leaving it vacant, and advances `tail`
/// by one step.
fn release<T>(slots: &mut Vec<Option<T>>, tail: &mut usize, capacity: usize) -> (r: Option<T>)
    requires
        old(slots)@.len() == capacity,
        *old(tail) < capacity,
    ensures
        r == old(slots)@[*old(tail) as int],
        final(slots)@ == old(slots)@.update(*old(tail) as int, None),
        *final(tail) == wrap(*old(tail) as int, 1, capacity as int),
    no_unwind
{
    let mut content: Option<T> = None;
    std::mem::swap(&mut content, &mut slots[*tail]);
    proof {
        lemma_wrap_is_mod(*tail as int, capacity as int);
    }
    *tail = (*tail + 1) % capacity;
    content
}

impl<T> RingBuffer<T> {
    /// Both cursors lie inside the ring, and a slot is occupied exactly if it lies from
    /// `tail` up to, but not including, `head`.
    #[verifier::type_invariant]
    spec fn well_formed(self) -> bool {
        &&& is_pow2(self.capacity as int)
        &&& self.slots@.len() == self.capacity
        &&& self.head < self.capacity
        &&& self.tail < self.capacity
        &&& forall|k: int|
            0 <= k < self.capacity ==> ((#[trigger] self.slots@[wrap(
                self.tail as int,
                k,
                self.capacity as int,
            )]) is Some <==> k < distance(
                self.tail as int,
                self.head as int,
                self.capacity as int,
            ))
    }

    /// The resident values, oldest first.
    pub closed spec fn view(&self) -> Seq<T> {
        Seq::new(
            distance(self.tail as int, self.head as int, self.capacity as int) as nat,
            |k: int| self.slots@[wrap(self.tail as int, k, self.capacity as int)]->0,
        )
    }

    /// The number of slots; one of them always stays vacant.
    pub closed spec fn spec_capacity(&self) -> nat {
        self.capacity as nat
    }

    /// The write cursor.
    pub closed spec fn spec_head(&self) -> nat {
        self.head as nat
    }

    /// The read cursor.
    pub closed spec fn spec_tail(&self) -> nat {
        self.tail as nat
    }

    /// Creates an empty buffer of `capacity` slots, both cursors at slot zero.
    pub fn new(capacity: usize) -> (r: Self)
        requires
            is_pow2(capacity as int),
        ensures
            r@ == Seq::<T>::empty(),
            r.spec_capacity() == capacity,
            r@.len() < r.spec_capacity(),
            r.spec_head() == 0,
            r.spec_tail() == 0,
    {
        proof {
            reveal(is_pow2);
        }
        let mut slots: Vec<Option<T>> = Vec::with_capacity(capacity);
        let mut filled: usize = 0;
        while filled < capacity
            invariant
                filled <= capacity,
                slots@.len() == filled,
                forall|i: int| 0 <= i < filled ==> slots@[i] is None,
            decreases capacity - filled,
        {
            slots.push(None);
            filled = filled + 1;
        }
        RingBuffer { slots, capacity, head: 0, tail: 0 }
    }

    /// Appends `value` unless the buffer is full; a full buffer hands `value` back.
    pub fn push(&mut self, value: T) -> (r: Result<(), T>)
        ensures
            final(self).spec_capacity() == old(self).spec_capacity(),
            final(self).spec_tail() == old(self).spec_tail(),
            final(self)@.len() < final(self).spec_capacity(),
            old(self)@.len() + 1 < old(self).spec_capacity() ==> {
                &&& r is Ok
                &&& final(self)@ == old(self)@.push(value)
                &&& final(self).spec_head() == (old(self).spec_head() + 1)
                    % old(self).spec_capacity()
            },
            old(self)@.len() + 1 >= old(self).spec_capacity() ==> {
                &&& r == Err::<(), T>(value)
                &&& final(self)@ == old(self)@
                &&& final(self).spec_head() == old(self).spec_head()
            },
    {
        proof {
            use_type_invariant(&*self);
            lemma_wrap_is_mod(self.head as int, self.capacity as int);
        }
        if self.is_full() {
            return Err(value);
        }
        store(&mut self.slots, &mut self.head, self.capacity, value);
        Ok(())
    }

    /// Removes and returns the oldest value, or `None` when the buffer is empty.
    pub fn pop(&mut self) -> (r: Option<T>)
        ensures
            final(self).spec_capacity() == old(self).spec_capacity(),
            final(self).spec_head() == old(self).spec_head(),
            final(self)@.len() < final(self).spec_capacity(),
            old(self)@.len() == 0 ==> {
                &&& r is None
                &&& final(self)@ == old(self)@
                &&& final(self).spec_tail() == old(self).spec_tail()
            },
            old(self)@.len() > 0 ==> {
                &&& r == Some(old(self)@[0])
                &&& final(self)@ == old(self)@.drop_first()
                &&& final(self).spec_tail() == (old(self).spec_tail() + 1)
                    % old(self).spec_capacity()
            },
    {
        proof {
            use_type_invariant(&*self);
            lemma_wrap_is_mod(self.tail as int, self.capacity as int);
        }
        if self.is_empty() {
            return None;
        }
        proof {
            let capacity = self.capacity as int;
            let tail = self.tail as int;
            let next = wrap(tail, 1, capacity);
            let vacated = self.slots@.update(tail, None);
            assert(self.slots@[wrap(tail, 0, capacity)] is Some);
            assert forall|k: int| 0 <= k < capacity implies ((#[trigger] vacated[wrap(
                next,
                k,
                capacity,
            )]) is Some <==> k < distance(next, self.head as int, capacity)) by {
                if k + 1 < capacity {
                    assert(wrap(next, k, capacity) == wrap(tail, k + 1, capacity));
                    assert(self.slots@[wrap(tail, k + 1, capacity)] is Some <==> k + 1 < distance(
                        tail,
                        self.head as int,
                        capacity,
                    ));
                } else {
                    assert(wrap(next, k, capacity) == tail);
                }
            }
        }
        release(&mut self.slots, &mut self.tail, self.capacity)
    }

    /// The number of resident values: the steps from the read cursor forward to the
    /// write cursor.
    pub fn len(&self) -> (r: usize)
        ensures
            r == self@.len(),
            r == distance(
                self.spec_tail() as int,
                self.spec_head() as int,
                self.spec_capacity() as int,
            ),
            r < self.spec_capacity(),
    {
        proof {
            use_type_invariant(self);
        }
        if self.tail <= self.head {
            self.head - self.tail
        } else {
            self.head + (self.capacity - self.tail)
        }
    }

    /// The number of slots.
    pub fn capacity(&self) -> (r: usize)
        ensures
            r == self.spec_capacity(),
    {
        self.capacity
    }

    /// The write cursor: the slot that the next push fills.
    pub fn head(&self) -> (r: usize)
        ensures
            r == self.spec_head(),
    {
        self.head
    }

    /// The read cursor: the slot that the next pop vacates.
    pub fn tail(&self) -> (r: usize)
        ensures
            r == self.spec_tail(),
    {
        self.tail
    }

    /// Whether no value is resident: the two cursors coincide.
    pub fn is_empty(&self) -> (r: bool)
        ensures
            r == (self@.len() == 0),
            r == (self.spec_head() == self.spec_tail()),
            self@.len() < self.spec_capacity(),
    {
        proof {
            use_type_invariant(self);
        }
        self.head == self.tail
    }

    /// Whether `capacity - 1` values are resident: one step past the write cursor lies
    /// the read cursor.
    pub fn is_full(&self) -> (r: bool)
        ensures
            r == (self@.len() + 1 == self.spec_capacity()),
            r == ((self.spec_head() + 1) % self.spec_capacity() == self.spec_tail()),
            self@.len() < self.spec_capacity(),
    {
        proof {
            use_type_invariant(self);
            lemma_wrap_is_mod(self.head as int, self.capacity as int);
        }
        (self.head + 1) % self.capacity == self.tail
    }
}

} // verus!
