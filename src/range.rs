//! Stepping through half-open ranges `start..end` of values of one type.
use vstd::prelude::*;
use crate::prim::lemma_prim_bounds;
use crate::registry::{RegistryModel, TypeSystem};
use crate::value::Value;

verus! {

impl RegistryModel {
    /// The number of steps from `start` to `end`: their difference, when
    /// both have the same declared type, `start` does not lie after `end`,
    /// and the difference fits a `usize`.
    pub open spec fn steps_between(self, start: Value, end: Value) -> Option<nat> {
        if start.ty != end.ty || !self.type_ok(start.ty) || start.val > end.val || end.val - start.val
            > usize::MAX {
            None
        } else {
            Some((end.val - start.val) as nat)
        }
    }

    /// The value `count` steps after `start` (`sign` 1) or before it
    /// (`sign` -1): the count must be a value of the type's primitive, and so
    /// must the result.
    pub open spec fn step(self, start: Value, count: int, sign: int) -> Option<Value> {
        match self.prim_of(start.ty) {
            None => None,
            Some(p) => if p.holds(count) && p.holds(start.val + sign * count) {
                Some(Value { ty: start.ty, val: (start.val + sign * count) as i128 })
            } else {
                None
            },
        }
    }

    /// The values of `start..end`, in ascending order.
    pub open spec fn range_values(self, start: Value, n: nat) -> Seq<Value> {
        Seq::new(n, |k: int| Value { ty: start.ty, val: (start.val + k) as i128 })
    }
}

impl TypeSystem {
    /// The number of steps from `start` to `end`.
    pub fn steps_between(&self, start: &Value, end: &Value) -> (r: Option<usize>)
        ensures
            match self@.steps_between(*start, *end) {
                Some(n) => r == Some(n as usize),
                None => r is None,
            },
    {
        if start.ty != end.ty || self.prim_of(start.ty).is_none() || start.val > end.val {
            return None;
        }
        proof {
            lemma_prim_bounds(crate::prim::Prim::Usize);
        }
        match end.val.checked_sub(start.val) {
            Some(d) => if d > usize::MAX as i128 {
                None
            } else {
                Some(d as usize)
            },
            None => None,
        }
    }

    fn step(&self, start: Value, count: usize, forward: bool) -> (r: Option<Value>)
        ensures
            r == self@.step(start, count as int, if forward { 1 } else { -1 }),
    {
        let p = match self.prim_of(start.ty) {
            None => return None,
            Some(p) => p,
        };
        proof {
            lemma_prim_bounds(p);
            lemma_prim_bounds(crate::prim::Prim::Usize);
        }
        let c: i128 = count as i128;
        if c > p.max_value() {
            return None;
        }
        let moved = if forward {
            start.val.checked_add(c)
        } else {
            start.val.checked_sub(c)
        };
        let v: i128 = match moved {
            Some(v) => v,
            None => return None,
        };
        if p.min_value() <= v && v <= p.max_value() {
            Some(Value { ty: start.ty, val: v })
        } else {
            None
        }
    }

    /// The value `count` steps after `start`.
    pub fn forward_checked(&self, start: Value, count: usize) -> (r: Option<Value>)
        ensures
            r == self@.step(start, count as int, 1),
    {
        self.step(start, count, true)
    }

    /// The value `count` steps before `start`.
    pub fn backward_checked(&self, start: Value, count: usize) -> (r: Option<Value>)
        ensures
            r == self@.step(start, count as int, -1),
    {
        self.step(start, count, false)
    }

    /// Every value of `start..end`, in ascending order; `None` where the
    /// number of steps between them is undefined.
    pub fn range(&self, start: Value, end: Value) -> (r: Option<Vec<Value>>)
        ensures
            match self@.steps_between(start, end) {
                Some(n) => r is Some && r->Some_0@ == self@.range_values(start, n),
                None => r is None,
            },
    {
        let n = match self.steps_between(&start, &end) {
            None => return None,
            Some(n) => n,
        };
        let mut out: Vec<Value> = Vec::new();
        let mut k: usize = 0;
        while k < n
            invariant
                k <= n,
                n == end.val - start.val,
                start.val <= end.val,
                out@ == self@.range_values(start, k as nat),
            decreases n - k,
        {
            out.push(Value { ty: start.ty, val: start.val + k as i128 });
            k = k + 1;
            assert(out@ =~= self@.range_values(start, k as nat));
        }
        Some(out)
    }
}

} // verus!
