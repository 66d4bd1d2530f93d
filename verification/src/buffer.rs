use vstd::prelude::*;
use vstd::arithmetic::div_mod::{
    lemma_fundamental_div_mod, lemma_mod_add_multiples_vanish, lemma_mod_multiples_vanish,
};

verus! {

/// What a buffer that keeps at most `capacity` items holds after `value` is
/// pushed onto `items`: the new value goes to the back, and when the buffer
/// was already full the oldest item (the front) is dropped.
pub open spec fn pushed<T>(items: Seq<T>, value: T, capacity: nat) -> Seq<T> {
    if items.len() >= capacity {
        items.drop_first().push(value)
    } else {
        items.push(value)
    }
}

/// What such a buffer holds after each of `values` is pushed, in order.
pub open spec fn pushed_all<T>(items: Seq<T>, values: Seq<T>, capacity: nat) -> Seq<T>
    decreases values.len(),
{
    if values.len() == 0 {
        items
    } else {
        pushed(pushed_all(items, values.drop_last(), capacity), values.last(), capacity)
    }
}

/// The number of items at the front of `total` items that a buffer of
/// `capacity` items can no longer hold.
pub open spec fn overflow(total: nat, capacity: nat) -> nat {
    if total > capacity { (total - capacity) as nat } else { 0 }
}

/// Two positions less than `m` apart never share a slot.
proof fn lemma_mod_distinct(a: int, b: int, m: int)
    requires
        0 <= a < b < a + m,
    ensures
        a % m != b % m,
{
    lemma_fundamental_div_mod(a, m);
    lemma_fundamental_div_mod(b, m);
    if a % m == b % m {
        let qa = a / m;
        let qb = b / m;
        assert(b - a == m * (qb - qa)) by (nonlinear_arith)
            requires
                a == m * qa + a % m,
                b == m * qb + b % m,
                a % m == b % m,
        ;
        assert(false) by (nonlinear_arith)
            requires
                b - a == m * (qb - qa),
                0 < b - a < m,
        ;
    }
}

/// A buffer of `capacity` items always holds the most recent items pushed
/// onto it, oldest first: pushing `values` onto `items` leaves the last
/// `capacity` items of `items` followed by `values` (all of them when they
/// fit), and never more than `capacity` items.
pub proof fn law_keeps_most_recent<T>(items: Seq<T>, values: Seq<T>, capacity: nat)
    requires
        capacity > 0,
        items.len() <= capacity,
    ensures
        pushed_all(items, values, capacity) == (items + values).skip(
            overflow(items.len() + values.len(), capacity) as int,
        ),
        pushed_all(items, values, capacity).len() <= capacity,
    decreases values.len(),
{
    let all = items + values;
    if values.len() == 0 {
        assert(all =~= items);
        assert(all.skip(0) =~= items);
    } else {
        let init = values.drop_last();
        law_keeps_most_recent(items, init, capacity);
        let before = pushed_all(items, init, capacity);
        let o1 = overflow(items.len() + init.len(), capacity) as int;
        let o = overflow(items.len() + values.len(), capacity) as int;
        assert(items + init =~= all.drop_last());
        if before.len() >= capacity {
            assert(o == o1 + 1);
            assert(before.drop_first().push(values.last()) =~= all.skip(o));
        } else {
            assert(o == 0 && o1 == 0);
            assert(before.push(values.last()) =~= all.skip(o));
        }
    }
}

/// Nothing is lost while a buffer does not overflow: pushing at most
/// `capacity` values onto an empty buffer leaves exactly those values, in
/// the order they were pushed, so pops hand them back first-in first-out.
pub proof fn law_first_in_first_out<T>(values: Seq<T>, capacity: nat)
    requires
        values.len() <= capacity,
    ensures
        pushed_all(Seq::<T>::empty(), values, capacity) == values,
    decreases values.len(),
{
    if values.len() > 0 {
        law_first_in_first_out(values.drop_last(), capacity);
        assert(values.drop_last().push(values.last()) =~= values);
    }
}

/// A bounded first-in first-out buffer holding at most `SIZE` items.
///
/// When a push finds the buffer full, the oldest item is dropped to make
/// room, so the buffer always keeps the most recent items. Positions are
/// counters that only grow; a slot is found by taking a position modulo
/// `SIZE`, so all `SIZE` slots can be in use at once.
pub struct RingBuffer<T, const SIZE: usize> {
    slots: Vec<Option<T>>,
    reader_idx: usize,
    writer_idx: usize,
}

impl<T, const SIZE: usize> View for RingBuffer<T, SIZE> {
    type V = Seq<T>;

    /// The items in the buffer, oldest first.
    closed spec fn view(&self) -> Seq<T> {
        Seq::new(
            (self.writer_idx - self.reader_idx) as nat,
            |i: int| self.slots@[Self::slot_of(self.reader_idx + i)].unwrap(),
        )
    }
}

impl<T, const SIZE: usize> RingBuffer<T, SIZE> {
    /// The slot that holds the item at position `pos`.
    pub open spec fn slot_of(pos: int) -> int {
        pos % (SIZE as int)
    }

    /// The buffer's internal consistency: one slot per unit of capacity,
    /// at most `SIZE` live positions, and an item in the slot of each one.
    pub closed spec fn wf(&self) -> bool {
        &&& SIZE <= isize::MAX
        &&& self.slots@.len() == SIZE
        &&& self.reader_idx <= self.writer_idx
        &&& self.writer_idx - self.reader_idx <= SIZE
        &&& forall|i: int|
            0 <= i < self.writer_idx - self.reader_idx ==> (#[trigger] self.slots@[Self::slot_of(
                self.reader_idx + i,
            )]) is Some
    }

    /// A well-formed buffer never holds more than `SIZE` items.
    pub proof fn law_len_at_most_size(&self)
        requires
            self.wf(),
        ensures
            self@.len() <= SIZE,
    {
    }

    /// Creates an empty buffer with room for `SIZE` items. (No allocation
    /// can hold more than `isize::MAX` slots.)
    pub fn new() -> (buffer: Self)
        requires
            SIZE <= isize::MAX,
        ensures
            buffer.wf(),
            buffer@ == Seq::<T>::empty(),
    {
        let mut slots: Vec<Option<T>> = Vec::new();
        let mut i: usize = 0;
        while i < SIZE
            invariant
                i <= SIZE,
                slots@.len() == i,
            decreases SIZE - i,
        {
            slots.push(None);
            i = i + 1;
        }
        let buffer = RingBuffer { slots, reader_idx: 0, writer_idx: 0 };
        assert(buffer@ =~= Seq::<T>::empty());
        buffer
    }

    /// Moves both positions back by the same multiple of `SIZE`, so that
    /// every item keeps its slot and its place in the order, and the
    /// positions get room to grow again.
    fn rebase(&mut self)
        requires
            old(self).wf(),
            SIZE > 0,
        ensures
            final(self).wf(),
            final(self)@ == old(self)@,
            final(self).writer_idx < usize::MAX,
    {
        let ghost before = self@;
        let ghost r = self.reader_idx as int;
        let ghost s = SIZE as int;
        let ghost q = r / s;
        proof {
            lemma_fundamental_div_mod(r, s);
        }
        let base = self.reader_idx - self.reader_idx % SIZE;
        assert(base == s * q);
        self.reader_idx = self.reader_idx - base;
        self.writer_idx = self.writer_idx - base;
        proof {
            assert forall|i: int| #![trigger Self::slot_of(self.reader_idx + i)]
                0 <= i < self.writer_idx - self.reader_idx implies Self::slot_of(
                self.reader_idx + i,
            ) == Self::slot_of(r + i) by {
                lemma_mod_multiples_vanish(-q, r + i, s);
                assert(s * (-q) + (r + i) == self.reader_idx + i) by (nonlinear_arith)
                    requires
                        base == s * q,
                        self.reader_idx == r - base,
                ;
            }
            assert forall|i: int| 0 <= i < self.writer_idx - self.reader_idx implies
                (#[trigger] self.slots@[Self::slot_of(self.reader_idx + i)]) is Some by {
                assert(Self::slot_of(self.reader_idx + i) == Self::slot_of(r + i));
            }
            assert(self@ =~= before);
        }
    }

    /// Appends `value` at the back. When the buffer already holds `SIZE`
    /// items, the oldest one is dropped first. The push always succeeds.
    pub fn push(&mut self, value: T) -> (result: Result<(), T>)
        requires
            old(self).wf(),
            SIZE > 0,
        ensures
            final(self).wf(),
            result is Ok,
            final(self)@ == pushed(old(self)@, value, SIZE as nat),
    {
        if self.writer_idx == usize::MAX {
            self.rebase();
        }
        let ghost before = self@;
        let ghost r = self.reader_idx as int;
        let ghost w = self.writer_idx as int;
        let ghost s = SIZE as int;
        let slot_idx = self.writer_idx % SIZE;
        if self.writer_idx - self.reader_idx >= SIZE {
            // The buffer is full: the slot to write holds the oldest item,
            // which leaves the buffer's logical range here.
            proof {
                lemma_mod_add_multiples_vanish(r, s);
            }
            self.reader_idx = self.reader_idx + 1;
        }
        self.slots.set(slot_idx, Some(value));
        self.writer_idx = self.writer_idx + 1;
        proof {
            let full = w - r >= s;
            let r2 = self.reader_idx as int;
            assert forall|i: int| 0 <= i < w + 1 - r2 implies
                (#[trigger] self.slots@[Self::slot_of(r2 + i)]) is Some by {
                if r2 + i != w {
                    lemma_mod_distinct(r2 + i, w, s);
                    if full {
                        assert(before[i + 1] == self@[i]);
                    }
                }
            }
            let expected = pushed(before, value, SIZE as nat);
            assert forall|i: int| 0 <= i < self@.len() implies self@[i] == expected[i] by {
                if r2 + i != w {
                    lemma_mod_distinct(r2 + i, w, s);
                }
            }
            assert(self@ =~= expected);
        }
        Ok(())
    }

    /// Removes and returns the oldest item, or `None` when the buffer is
    /// empty (and then leaves it unchanged).
    pub fn pop(&mut self) -> (result: Option<T>)
        requires
            old(self).wf(),
        ensures
            final(self).wf(),
            old(self)@.len() == 0 ==> result is None && final(self)@ == old(self)@,
            old(self)@.len() > 0 ==> result == Some(old(self)@[0]) && final(self)@
                == old(self)@.drop_first(),
    {
        if self.reader_idx == self.writer_idx {
            return None;
        }
        let ghost before = self@;
        let ghost r = self.reader_idx as int;
        let ghost w = self.writer_idx as int;
        let ghost s = SIZE as int;
        assert(self.slots@[Self::slot_of(r + 0)] is Some);
        let slot_idx = self.reader_idx % SIZE;
        let mut taken: Option<T> = None;
        self.slots.set_and_swap(slot_idx, &mut taken);
        self.reader_idx = self.reader_idx + 1;
        proof {
            assert forall|i: int| 0 <= i < w - (r + 1) implies
                (#[trigger] self.slots@[Self::slot_of(r + 1 + i)]) is Some by {
                lemma_mod_distinct(r, r + 1 + i, s);
                assert(old(self).slots@[Self::slot_of(r + (i + 1))] is Some);
            }
            assert forall|i: int| 0 <= i < self@.len() implies self@[i] == before.drop_first()[i] by {
                lemma_mod_distinct(r, r + 1 + i, s);
            }
            assert(self@ =~= before.drop_first());
        }
        taken
    }
}

} // verus!
