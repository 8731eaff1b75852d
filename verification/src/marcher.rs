//! A `Marcher` is a forward-scanning cursor over an owned vector of
//! elements.  The position starts on a "before the first element" sentinel,
//! so that the first advance by one lands on index 0, and saturates one past
//! the last element, so that advancing can never wrap back into the valid
//! range.  Lookahead is read-only; consumption is conditional through
//! `advance_if` and greedy through `advance_until`.

use vstd::prelude::*;
use vstd::slice::slice_subrange;

verus! {

pub struct Marcher<T> {
    pub values: Vec<T>,
    /// `None` is the before-first sentinel; `Some(i)` is the index of the
    /// element the cursor is on, saturated at `values.len()` (one past the
    /// last element).
    pub pos: Option<usize>,
}

impl<T> Marcher<T> {
    /// The cursor position as an integer: -1 before the first element,
    /// otherwise the index of the current element (`values.len()` when the
    /// cursor has moved past the end).
    pub open spec fn cur(&self) -> int {
        match self.pos {
            None => -1,
            Some(i) => i as int,
        }
    }

    /// The index of the next element to be consumed.
    pub open spec fn nxt(&self) -> int {
        self.cur() + 1
    }

    /// The saturated position never exceeds one past the last element.
    pub open spec fn wf(&self) -> bool {
        self.cur() <= self.values.len()
    }

    pub fn new(values: Vec<T>) -> (r: Self)
        ensures
            r.values == values,
            r.cur() == -1,
            r.wf(),
    {
        Marcher { values, pos: None }
    }

    /// Moves the position forward by `offset` and returns the element now
    /// there, or `None` if that position is out of bounds.  The position
    /// itself saturates one past the last element instead of wrapping.
    pub fn advance(&mut self, offset: usize) -> (r: Option<&T>)
        requires
            old(self).wf(),
        ensures
            final(self).values == old(self).values,
            final(self).wf(),
            final(self).cur() == if old(self).cur() + offset <= old(self).values.len() {
                old(self).cur() + offset
            } else {
                old(self).values.len() as int
            },
            ({
                let target = old(self).cur() + offset;
                if 0 <= target < old(self).values.len() {
                    r matches Some(v) && *v == old(self).values[target]
                } else {
                    r is None
                }
            }),
    {
        let len = self.values.len();
        match self.pos {
            None => {
                if offset == 0 {
                    None
                } else {
                    let target = offset - 1;
                    if target < len {
                        self.pos = Some(target);
                        Some(&self.values[target])
                    } else {
                        self.pos = Some(len);
                        None
                    }
                }
            },
            Some(i) => {
                match i.checked_add(offset) {
                    Some(target) => {
                        if target < len {
                            self.pos = Some(target);
                            Some(&self.values[target])
                        } else {
                            self.pos = Some(len);
                            None
                        }
                    },
                    None => {
                        self.pos = Some(len);
                        None
                    },
                }
            },
        }
    }

    /// Read-only lookahead (positive offset) or lookbehind (negative
    /// offset) relative to the current position; the cursor does not move.
    pub fn peek(&self, offset: isize) -> (r: Option<&T>)
        ensures
            ({
                let target = self.cur() + offset;
                if 0 <= target < self.values.len() {
                    r matches Some(v) && *v == self.values[target]
                } else {
                    r is None
                }
            }),
    {
        let len = self.values.len();
        if offset >= 0 {
            let up = offset as usize;
            match self.pos {
                None => {
                    if up >= 1 && up - 1 < len {
                        Some(&self.values[up - 1])
                    } else {
                        None
                    }
                },
                Some(i) => {
                    match i.checked_add(up) {
                        Some(target) => {
                            if target < len {
                                Some(&self.values[target])
                            } else {
                                None
                            }
                        },
                        None => None,
                    }
                },
            }
        } else {
            match self.pos {
                None => None,
                Some(i) => {
                    // offset < 0, so -(offset + 1) fits in isize; the
                    // magnitude of offset is down + 1.
                    let down = (-(offset + 1)) as usize;
                    if down < i && i - down - 1 < len {
                        Some(&self.values[i - down - 1])
                    } else {
                        None
                    }
                },
            }
        }
    }

    /// A contiguous read-only view of the elements at `range`, or `None` if
    /// the range is out of bounds or inverted.
    pub fn peek_range(&self, range: core::ops::Range<usize>) -> (r: Option<&[T]>)
        ensures
            if range.start <= range.end && range.end <= self.values.len() {
                r matches Some(s) && s@ == self.values@.subrange(
                    range.start as int,
                    range.end as int,
                )
            } else {
                r is None
            },
    {
        if range.start <= range.end && range.end <= self.values.len() {
            Some(slice_subrange(self.values.as_slice(), range.start, range.end))
        } else {
            None
        }
    }

    /// If the next element satisfies `predicate`, consumes and returns it;
    /// otherwise leaves the cursor untouched and returns `None`.
    pub fn advance_if<F: Fn(&T) -> bool>(&mut self, predicate: F) -> (r: Option<&T>)
        requires
            old(self).wf(),
            forall|t: &T| #[trigger] call_requires(predicate, (t,)),
        ensures
            final(self).values == old(self).values,
            final(self).wf(),
            ({
                let n = old(self).nxt();
                if 0 <= n < old(self).values.len() {
                    match r {
                        Some(v) => {
                            &&& *v == old(self).values[n]
                            &&& call_ensures(predicate, (&old(self).values[n],), true)
                            &&& final(self).cur() == n
                        },
                        None => {
                            &&& call_ensures(predicate, (&old(self).values[n],), false)
                            &&& final(self).cur() == old(self).cur()
                        },
                    }
                } else {
                    r is None && final(self).cur() == old(self).cur()
                }
            }),
    {
        let next = match self.pos {
            None => 0,
            Some(i) => {
                match i.checked_add(1) {
                    Some(n) => n,
                    None => self.values.len(),
                }
            },
        };
        if next < self.values.len() {
            if predicate(&self.values[next]) {
                self.pos = Some(next);
                Some(&self.values[next])
            } else {
                None
            }
        } else {
            None
        }
    }

    /// The index of the next unconsumed element, clamped to the length when
    /// the cursor has reached or passed the end.
    fn next_index(&self) -> (r: usize)
        requires
            self.wf(),
        ensures
            r == self.next_index_spec(),
    {
        match self.pos {
            None => 0,
            Some(i) => {
                if i < self.values.len() {
                    i + 1
                } else {
                    self.values.len()
                }
            },
        }
    }

    /// Repeatedly advances while the next element does not satisfy
    /// `predicate`, stopping just before the first element that does (or at
    /// the end), and returns the span consumed since the call began.
    pub fn advance_until<F: Fn(&T) -> bool>(&mut self, predicate: F) -> (r: &[T])
        requires
            old(self).wf(),
            forall|t: &T| #[trigger] call_requires(predicate, (t,)),
        ensures
            final(self).values == old(self).values,
            final(self).wf(),
            final(self).nxt() <= old(self).values.len() || *final(self) == *old(self),
            ({
                let len = old(self).values.len() as int;
                let a = if old(self).nxt() < len { old(self).nxt() } else { len };
                let b = if final(self).nxt() < len { final(self).nxt() } else { len };
                &&& a <= b <= len
                &&& old(self).cur() <= final(self).cur() <= len
                &&& forall|i: int|
                    a <= i < b ==> call_ensures(predicate, (&old(self).values[i],), false)
                &&& final(self).nxt() < len ==> call_ensures(
                    predicate,
                    (&old(self).values[final(self).nxt()],),
                    true,
                )
                &&& r@ == old(self).values@.subrange(a, b)
            }),
    {
        let ghost orig = *self;
        let start = self.next_index();
        loop
            invariant
                self.wf(),
                self.values == orig.values,
                orig.cur() <= self.cur() <= self.values.len(),
                start <= self.next_index_spec() <= self.values.len(),
                self.nxt() <= self.values.len() || *self == orig,
                orig == *old(self),
                forall|t: &T| #[trigger] call_requires(predicate, (t,)),
                forall|i: int|
                    start <= i < self.next_index_spec() ==> call_ensures(
                        predicate,
                        (&orig.values[i],),
                        false,
                    ),
            ensures
                self.values == orig.values,
                self.wf(),
                orig.cur() <= self.cur() <= self.values.len(),
                start <= self.next_index_spec() <= self.values.len(),
                self.nxt() <= self.values.len() || *self == orig,
                orig == *old(self),
                forall|i: int|
                    start <= i < self.next_index_spec() ==> call_ensures(
                        predicate,
                        (&orig.values[i],),
                        false,
                    ),
                self.nxt() < self.values.len() ==> call_ensures(
                    predicate,
                    (&self.values[self.nxt()],),
                    true,
                ),
            decreases self.values.len() - self.cur(),
        {
            let next = self.next_index();
            if next >= self.values.len() {
                break ;
            }
            proof {
                assert(self.nxt() == next);
            }
            if predicate(&self.values[next]) {
                break ;
            }
            self.pos = Some(next);
        }
        let hi = self.next_index();
        slice_subrange(self.values.as_slice(), start, hi)
    }

    /// Spec twin of `next_index`.
    pub open spec fn next_index_spec(&self) -> int {
        if self.nxt() < self.values.len() {
            self.nxt()
        } else {
            self.values.len() as int
        }
    }

    /// True exactly when the position is on the last valid index, so that
    /// no further element remains to consume.
    pub fn completed(&self) -> (r: bool)
        ensures
            r == (self.cur() + 1 == self.values.len()),
    {
        match self.pos {
            None => self.values.len() == 0,
            Some(i) => i < self.values.len() && i + 1 == self.values.len(),
        }
    }
}

impl<T> Default for Marcher<T> {
    /// A cursor over no values, on the before-first sentinel.
    fn default() -> (r: Self)
        ensures
            r.values@ == Seq::<T>::empty(),
            r.cur() == -1,
            r.wf(),
    {
        Marcher { values: Vec::new(), pos: None }
    }
}

} // verus!
