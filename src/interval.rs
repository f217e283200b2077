//! Half-open intervals `[i, j)` of plain indices.
use vstd::prelude::*;

verus! {

/// A plain index into a sequence.
#[derive(Clone, Copy, Debug, PartialEq, Eq, Structural)]
pub struct Idx(pub usize);

/// The half-open interval `[i, j)`, always with `i <= j`.
pub struct Interval(Idx, Idx);

impl View for Interval {
    type V = (int, int);

    closed spec fn view(&self) -> (int, int) {
        (self.0.0 as int, self.1.0 as int)
    }
}

impl Interval {
    #[verifier::type_invariant]
    spec fn ordered(&self) -> bool {
        self.0.0 <= self.1.0
    }
}

/// Creates `[i, j)` when `i <= j`; `None` when `j < i`.
pub fn safe_i(i: Idx, j: Idx) -> (r: Option<Interval>)
    ensures
        r is Some <==> i.0 <= j.0,
        r matches Some(iv) ==> iv@ == (i.0 as int, j.0 as int),
{
    if i.0 <= j.0 {
        Some(Interval(i, j))
    } else {
        None
    }
}

/// Creates `[i, j)`, which must be a valid interval.
pub fn i(lo: Idx, hi: Idx) -> (r: Interval)
    requires
        lo.0 <= hi.0,
    ensures
        r@ == (lo.0 as int, hi.0 as int),
{
    Interval(lo, hi)
}

impl Interval {
    /// Whether the interval holds no index.
    pub fn is_empty(&self) -> (r: bool)
        ensures
            r == (self@.0 == self@.1),
    {
        self.0 == self.1
    }

    /// The two endpoints.
    pub fn indices(&self) -> (r: (Idx, Idx))
        ensures
            r.0.0 == self@.0,
            r.1.0 == self@.1,
    {
        (self.0, self.1)
    }

    /// Whether `k` lies in the interval.
    pub fn contains(&self, k: Idx) -> (r: bool)
        ensures
            r == (self@.0 <= k.0 < self@.1),
    {
        self.0.0 <= k.0 && k.0 < self.1.0
    }

    /// A walk over the indices of the interval, in ascending order.
    pub fn iter(&self) -> (r: IntervalIter)
        ensures
            r@ == self@,
    {
        proof {
            use_type_invariant(self);
        }
        IntervalIter { cur: self.0, end: self.1 }
    }

    /// Splits the interval into the empty case and the non-empty one.
    pub fn cases2(&self) -> (r: Cases2)
        ensures
            r is Empty <==> self@.0 == self@.1,
            r matches Cases2::Range(a, b) ==> a.0 == self@.0 && b.0 == self@.1 && a.0 < b.0,
    {
        proof {
            use_type_invariant(self);
        }
        if self.0 == self.1 {
            Cases2::Empty
        } else {
            Cases2::Range(self.0, self.1)
        }
    }

    /// Splits the interval into the empty case, a single index, and a longer
    /// range.
    pub fn cases3(&self) -> (r: Cases3)
        ensures
            r is Empty <==> self@.0 == self@.1,
            r is Singleton <==> self@.1 == self@.0 + 1,
            r matches Cases3::Singleton(a) ==> a.0 == self@.0,
            r matches Cases3::Range(a, b) ==> a.0 == self@.0 && b.0 == self@.1,
    {
        proof {
            use_type_invariant(self);
        }
        if self.0 == self.1 {
            Cases3::Empty
        } else if self.1.0 == self.0.0 + 1 {
            Cases3::Singleton(self.0)
        } else {
            Cases3::Range(self.0, self.1)
        }
    }
}

/// The walk over the indices of an interval: `cur` is the next index handed
/// out and `end` is one past the last.
pub struct IntervalIter {
    cur: Idx,
    end: Idx,
}

impl View for IntervalIter {
    type V = (int, int);

    closed spec fn view(&self) -> (int, int) {
        (self.cur.0 as int, self.end.0 as int)
    }
}

impl IntervalIter {
    #[verifier::type_invariant]
    spec fn ordered(&self) -> bool {
        self.cur.0 <= self.end.0
    }

    /// Hands out the next index, or `None` once the interval is exhausted.
    pub fn next(&mut self) -> (r: Option<Idx>)
        ensures
            old(self)@.0 == old(self)@.1 ==> r is None && final(self)@ == old(self)@,
            old(self)@.0 < old(self)@.1 ==> r == Some(Idx(old(self)@.0 as usize)),
            old(self)@.0 < old(self)@.1 ==> final(self)@ == (old(self)@.0 + 1, old(self)@.1),
    {
        proof {
            use_type_invariant(&*self);
        }
        if self.cur == self.end {
            None
        } else {
            let cur = self.cur;
            self.cur = Idx(cur.0 + 1);
            Some(cur)
        }
    }
}

/// An interval told apart as empty or non-empty.
#[derive(Copy, Clone, Debug, PartialEq, Eq, Structural)]
pub enum Cases2 {
    Empty,
    Range(Idx, Idx),
}

/// An interval told apart as empty, a single index, or a longer range.
#[derive(Copy, Clone, Debug, PartialEq, Eq, Structural)]
pub enum Cases3 {
    Empty,
    Singleton(Idx),
    Range(Idx, Idx),
}

} // verus!

verus! {

use crate::text::{decimal, decimal_text};

impl Interval {
    /// The interval written out: `[]` when empty, `[i]` for a single index,
    /// `[i,j)` otherwise.
    pub fn to_string(&self) -> (r: String)
        ensures
            r@ == if self@.0 == self@.1 {
                "[]"@
            } else if self@.1 == self@.0 + 1 {
                "["@ + decimal(self@.0) + "]"@
            } else {
                "["@ + decimal(self@.0) + ","@ + decimal(self@.1) + ")"@
            },
    {
        proof {
            use_type_invariant(self);
        }
        if self.0 == self.1 {
            String::from_str("[]")
        } else if self.1.0 == self.0.0 + 1 {
            let s = String::from_str("[").concat(decimal_text(self.0.0 as i128).as_str());
            s.concat("]")
        } else {
            let s = String::from_str("[").concat(decimal_text(self.0.0 as i128).as_str());
            let s = s.concat(",");
            let s = s.concat(decimal_text(self.1.0 as i128).as_str());
            s.concat(")")
        }
    }
}

} // verus!
