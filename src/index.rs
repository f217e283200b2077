//! Subscripting sequences with values of declared index types.
//!
//! A value may subscript a sequence only where an indexing permission was
//! declared for its type and the sequence's kind. A negative value counts
//! from the end of the sequence; the position is worked out against the
//! sequence's length when the subscript happens, and a position outside the
//! sequence is an error, never wrapped or clamped.
use vstd::prelude::*;
use crate::registry::{RegistryModel, SeqRef, TypeSystem};
use crate::value::Value;

verus! {

/// Why a subscript failed.
#[derive(Clone, Copy, Debug, PartialEq, Eq, Structural)]
pub enum IndexError {
    /// No indexing permission is declared for the value's type and the
    /// sequence's kind (or the two ends of a range differ in type).
    NotIndexable,
    /// The position lies outside the sequence.
    OutOfBounds,
    /// The start of a range lies after its end.
    BadRange,
}

/// The position that `v` denotes in a sequence of length `n`: `v` itself,
/// or `n + v` for a negative `v`.
pub open spec fn resolve_at(v: int, n: int) -> int {
    if v < 0 {
        n + v
    } else {
        v
    }
}

impl RegistryModel {
    /// The element position that `i` denotes in a sequence of kind `kind`
    /// and length `n`.
    pub open spec fn position(self, kind: SeqRef, n: int, i: Value) -> Result<int, IndexError> {
        if !self.can_index(i.ty, kind) {
            Err(IndexError::NotIndexable)
        } else if 0 <= resolve_at(i.val as int, n) < n {
            Ok(resolve_at(i.val as int, n))
        } else {
            Err(IndexError::OutOfBounds)
        }
    }

    /// The bounds that `start..end` denotes in a sequence of kind `kind` and
    /// length `n`.
    pub open spec fn bounds(self, kind: SeqRef, n: int, start: Value, end: Value) -> Result<
        (int, int),
        IndexError,
    > {
        let a = resolve_at(start.val as int, n);
        let b = resolve_at(end.val as int, n);
        if !self.can_index(start.ty, kind) || end.ty != start.ty {
            Err(IndexError::NotIndexable)
        } else if !(0 <= a <= n && 0 <= b <= n) {
            Err(IndexError::OutOfBounds)
        } else if a > b {
            Err(IndexError::BadRange)
        } else {
            Ok((a, b))
        }
    }
}

/// The position `v` denotes in a sequence of length `n`, if it lies before
/// `n + extra` (`extra` is 1 for the end of a range, 0 for an element).
fn resolve(v: i128, n: usize, extra: usize) -> (r: Option<usize>)
    requires
        extra <= 1,
    ensures
        r is Some <==> 0 <= resolve_at(v as int, n as int) < n + extra,
        r matches Some(k) ==> k == resolve_at(v as int, n as int),
{
    let k: i128 = if v < 0 {
        n as i128 + v
    } else {
        v
    };
    if 0 <= k && k < n as i128 + extra as i128 {
        Some(k as usize)
    } else {
        None
    }
}

impl Value {
    /// The position this value denotes in a sequence of length `n`, if it
    /// lies inside the sequence.
    pub fn index(&self, n: usize) -> (r: Option<usize>)
        ensures
            r is Some <==> 0 <= resolve_at(self.val as int, n as int) < n,
            r matches Some(k) ==> k == resolve_at(self.val as int, n as int),
    {
        resolve(self.val, n, 0)
    }
}

impl TypeSystem {
    /// The element position that `i` denotes in a sequence of kind `kind`
    /// and length `n`.
    pub fn position(&self, kind: SeqRef, n: usize, i: Value) -> (r: Result<usize, IndexError>)
        ensures
            match self@.position(kind, n as int, i) {
                Ok(k) => r == Ok::<usize, IndexError>(k as usize) && k == r->Ok_0,
                Err(e) => r == Err::<usize, IndexError>(e),
            },
    {
        if !self.can_index(i.ty, kind) {
            return Err(IndexError::NotIndexable);
        }
        match resolve(i.val, n, 0) {
            Some(k) => Ok(k),
            None => Err(IndexError::OutOfBounds),
        }
    }

    /// The bounds that `start..end` denotes in a sequence of kind `kind` and
    /// length `n`.
    pub fn bounds(&self, kind: SeqRef, n: usize, start: Value, end: Value) -> (r: Result<
        (usize, usize),
        IndexError,
    >)
        ensures
            match self@.bounds(kind, n as int, start, end) {
                Ok((a, b)) => r is Ok && r->Ok_0.0 == a && r->Ok_0.1 == b,
                Err(e) => r == Err::<(usize, usize), IndexError>(e),
            },
    {
        if !self.can_index(start.ty, kind) || end.ty != start.ty {
            return Err(IndexError::NotIndexable);
        }
        let a = match resolve(start.val, n, 1) {
            Some(a) => a,
            None => return Err(IndexError::OutOfBounds),
        };
        let b = match resolve(end.val, n, 1) {
            Some(b) => b,
            None => return Err(IndexError::OutOfBounds),
        };
        if a > b {
            return Err(IndexError::BadRange);
        }
        Ok((a, b))
    }

    /// The element of `data`, a sequence of kind `kind`, at the position
    /// that `i` denotes.
    pub fn get_in<'a, T>(&self, kind: SeqRef, data: &'a [T], i: Value) -> (r: Result<&'a T, IndexError>)
        ensures
            match self@.position(kind, data@.len() as int, i) {
                Ok(k) => r is Ok && *r->Ok_0 == data@[k],
                Err(e) => r == Err::<&T, IndexError>(e),
            },
    {
        match self.position(kind, data.len(), i) {
            Ok(k) => Ok(&data[k]),
            Err(e) => Err(e),
        }
    }
}

/// A vector of a declared sequence type (or of the built-in `Vec` kind),
/// subscripted by values of the index types allowed for it.
pub struct IdxVec<T> {
    pub kind: SeqRef,
    pub data: Vec<T>,
}

/// A borrowed run of a sequence, of the same kind as the sequence.
pub struct IdxSlice<'a, T> {
    pub kind: SeqRef,
    pub data: &'a [T],
}

impl<T> IdxVec<T> {
    /// `v` as a sequence of kind `kind`.
    pub fn new(kind: SeqRef, v: Vec<T>) -> (r: IdxVec<T>)
        ensures
            r.kind == kind,
            r.data@ == v@,
    {
        IdxVec { kind, data: v }
    }

    pub fn len(&self) -> (r: usize)
        ensures
            r == self.data@.len(),
    {
        self.data.len()
    }

    /// The element at the position that `i` denotes.
    pub fn get<'a>(&'a self, ts: &TypeSystem, i: Value) -> (r: Result<&'a T, IndexError>)
        ensures
            match ts@.position(self.kind, self.data@.len() as int, i) {
                Ok(k) => r is Ok && *r->Ok_0 == self.data@[k],
                Err(e) => r == Err::<&T, IndexError>(e),
            },
    {
        ts.get_in(self.kind, self.data.as_slice(), i)
    }

    /// Writes `x` at the position that `i` denotes; on an error nothing
    /// changes.
    pub fn set(&mut self, ts: &TypeSystem, i: Value, x: T) -> (r: Result<(), IndexError>)
        ensures
            final(self).kind == old(self).kind,
            match ts@.position(old(self).kind, old(self).data@.len() as int, i) {
                Ok(k) => r is Ok && final(self).data@ == old(self).data@.update(k, x),
                Err(e) => r == Err::<(), IndexError>(e) && final(self).data@ == old(self).data@,
            },
    {
        match ts.position(self.kind, self.data.len(), i) {
            Ok(k) => {
                self.data.set(k, x);
                Ok(())
            },
            Err(e) => Err(e),
        }
    }

    /// The run of elements between the positions that `start` and `end`
    /// denote.
    pub fn slice<'a>(&'a self, ts: &TypeSystem, start: Value, end: Value) -> (r: Result<
        IdxSlice<'a, T>,
        IndexError,
    >)
        ensures
            match ts@.bounds(self.kind, self.data@.len() as int, start, end) {
                Ok((a, b)) => r is Ok && r->Ok_0.kind == self.kind && r->Ok_0.data@ == self.data@.subrange(a, b),
                Err(e) => r is Err && r->Err_0 == e,
            },
    {
        match ts.bounds(self.kind, self.data.len(), start, end) {
            Ok((a, b)) => {
                let s = self.data.as_slice();
                Ok(IdxSlice { kind: self.kind, data: &s[a..b] })
            },
            Err(e) => Err(e),
        }
    }
}

impl<'a, T> IdxSlice<'a, T> {
    pub fn len(&self) -> (r: usize)
        ensures
            r == self.data@.len(),
    {
        self.data.len()
    }

    /// The element at the position that `i` denotes within the run.
    pub fn get(&self, ts: &TypeSystem, i: Value) -> (r: Result<&'a T, IndexError>)
        ensures
            match ts@.position(self.kind, self.data@.len() as int, i) {
                Ok(k) => r is Ok && *r->Ok_0 == self.data@[k],
                Err(e) => r == Err::<&T, IndexError>(e),
            },
    {
        ts.get_in(self.kind, self.data, i)
    }

    /// The run of elements between the positions that `start` and `end`
    /// denote within this run.
    pub fn slice(&self, ts: &TypeSystem, start: Value, end: Value) -> (r: Result<IdxSlice<'a, T>, IndexError>)
        ensures
            match ts@.bounds(self.kind, self.data@.len() as int, start, end) {
                Ok((a, b)) => r is Ok && r->Ok_0.kind == self.kind && r->Ok_0.data@ == self.data@.subrange(a, b),
                Err(e) => r is Err && r->Err_0 == e,
            },
    {
        match ts.bounds(self.kind, self.data.len(), start, end) {
            Ok((a, b)) => Ok(IdxSlice { kind: self.kind, data: &self.data[a..b] }),
            Err(e) => Err(e),
        }
    }
}

} // verus!

verus! {

/// Where values of `t` may subscript sequences of kind `kind`, the value of
/// `t` made from a position `i` inside a sequence denotes that same position.
pub proof fn lemma_index_same_position(m: RegistryModel, t: crate::registry::TypeRef, kind: SeqRef, i: usize, n: usize)
    requires
        m.can_index(t, kind),
        m.make(t, i as int) is Ok,
        i < n,
    ensures
        m.position(kind, n as int, m.make(t, i as int)->Ok_0) == Ok::<int, IndexError>(i as int),
{
}

/// A value `-1` denotes the last position of a non-empty sequence, and a
/// value `-n - 1` lies before the start of a sequence of length `n`.
pub proof fn lemma_from_the_end(m: RegistryModel, kind: SeqRef, n: usize, last: Value, before: Value)
    requires
        m.can_index(last.ty, kind),
        m.can_index(before.ty, kind),
        n >= 1,
        last.val == -1,
        before.val == -(n as int) - 1,
    ensures
        m.position(kind, n as int, last) == Ok::<int, IndexError>(n - 1),
        m.position(kind, n as int, before) == Err::<int, IndexError>(IndexError::OutOfBounds),
{
}

} // verus!
