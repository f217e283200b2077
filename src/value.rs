//! Values of declared types, and the arithmetic between them.
use vstd::prelude::*;
use crate::prim::{cast, cast_spec, lemma_prim_bounds, Prim};
use crate::registry::{ArithOp, RegistryModel, TypeRef, TypeSystem};
use crate::text::{decimal, decimal_text};

verus! {

/// A value: the type it belongs to and the number it holds.
#[derive(Clone, Copy, Debug, PartialEq, Eq, Structural)]
pub struct Value {
    pub ty: TypeRef,
    pub val: i128,
}

/// Why an operation on values failed.
#[derive(Clone, Copy, Debug, PartialEq, Eq, Structural)]
pub enum EvalError {
    /// The type is not declared.
    UnknownType,
    /// No relation is declared for the operand types and the operator.
    NoRelation,
    /// An operand cannot be represented in the type it must be cast into.
    CastFailed,
    /// Division by zero.
    DivisionByZero,
    /// The result cannot be represented in the result type.
    Overflow,
}

/// Division that rounds toward zero, as the primitive operator does.
pub open spec fn trunc_div(a: int, b: int) -> int {
    let q = (if a < 0 { -a } else { a }) / (if b < 0 { -b } else { b });
    if (a < 0) != (b < 0) {
        -q
    } else {
        q
    }
}

/// The primitive operation `a op b` on numbers.
pub open spec fn apply(op: ArithOp, a: int, b: int) -> int {
    match op {
        ArithOp::Add => a + b,
        ArithOp::Sub => a - b,
        ArithOp::Mul => a * b,
        ArithOp::Div => trunc_div(a, b),
    }
}

/// `a op b` computed in primitive `p`: both operands cast into `p`, then the
/// operation, then a check that the result is a value of `p`.
pub open spec fn compute_in(p: Prim, op: ArithOp, a: int, b: int) -> Result<int, EvalError> {
    match (cast_spec(a, p), cast_spec(b, p)) {
        (Some(x), Some(y)) => if op == ArithOp::Div && y == 0 {
            Err(EvalError::DivisionByZero)
        } else if p.holds(apply(op, x, y)) {
            Ok(apply(op, x, y))
        } else {
            Err(EvalError::Overflow)
        },
        _ => Err(EvalError::CastFailed),
    }
}

impl RegistryModel {
    /// The value of type `t` that holds the number `v`.
    pub open spec fn make(self, t: TypeRef, v: int) -> Result<Value, EvalError> {
        match self.prim_of(t) {
            None => Err(EvalError::UnknownType),
            Some(p) => if p.holds(v) {
                Ok(Value { ty: t, val: v as i128 })
            } else {
                Err(EvalError::CastFailed)
            },
        }
    }

    /// `lhs op rhs`: computed in the representation of the declared result
    /// type and wrapped into it.
    pub open spec fn binop(self, lhs: Value, op: ArithOp, rhs: Value) -> Result<Value, EvalError> {
        match self.lookup(lhs.ty, op, false, rhs.ty) {
            None => Err(EvalError::NoRelation),
            Some(res) => match self.prim_of(res) {
                None => Err(EvalError::UnknownType),
                Some(p) => match compute_in(p, op, lhs.val as int, rhs.val as int) {
                    Ok(v) => Ok(Value { ty: res, val: v as i128 }),
                    Err(e) => Err(e),
                },
            },
        }
    }

    /// What `lhs op= rhs` leaves in `lhs`: computed in the representation of
    /// `lhs`'s type.
    pub open spec fn assign_op(self, lhs: Value, op: ArithOp, rhs: Value) -> Result<Value, EvalError> {
        match self.lookup(lhs.ty, op, true, rhs.ty) {
            None => Err(EvalError::NoRelation),
            Some(_) => match self.prim_of(lhs.ty) {
                None => Err(EvalError::UnknownType),
                Some(p) => match compute_in(p, op, lhs.val as int, rhs.val as int) {
                    Ok(v) => Ok(Value { ty: lhs.ty, val: v as i128 }),
                    Err(e) => Err(e),
                },
            },
        }
    }
}

/// `a op b` in primitive `p`, each operand cast into `p` first.
pub fn compute(p: Prim, op: ArithOp, a: i128, b: i128) -> (r: Result<i128, EvalError>)
    ensures
        match compute_in(p, op, a as int, b as int) {
            Ok(v) => r == Ok::<i128, EvalError>(v as i128) && v == r->Ok_0,
            Err(e) => r == Err::<i128, EvalError>(e),
        },
{
    proof {
        lemma_prim_bounds(p);
    }
    let x = match cast(a, p) {
        None => return Err(EvalError::CastFailed),
        Some(x) => x,
    };
    let y = match cast(b, p) {
        None => return Err(EvalError::CastFailed),
        Some(y) => y,
    };
    let v: i128 = match op {
        ArithOp::Add => x + y,
        ArithOp::Sub => x - y,
        ArithOp::Mul => {
            let ux: u128 = if x < 0 { (-x) as u128 } else { x as u128 };
            let uy: u128 = if y < 0 { (-y) as u128 } else { y as u128 };
            assert(ux * uy <= 0xFFFF_FFFF_FFFF_FFFFu128 * 0xFFFF_FFFF_FFFF_FFFFu128) by (nonlinear_arith)
                requires
                    ux <= 0xFFFF_FFFF_FFFF_FFFFu128,
                    uy <= 0xFFFF_FFFF_FFFF_FFFFu128,
            ;
            let m: u128 = ux * uy;
            proof {
                assert(x * y == if (x < 0) != (y < 0) { -(ux * uy) } else { ux * uy }) by (nonlinear_arith)
                    requires
                        ux == (if x < 0 { -x } else { x as int }),
                        uy == (if y < 0 { -y } else { y as int }),
                ;
            }
            if m > 0xFFFF_FFFF_FFFF_FFFFu128 {
                return Err(EvalError::Overflow);
            }
            if (x < 0) != (y < 0) {
                -(m as i128)
            } else {
                m as i128
            }
        },
        ArithOp::Div => {
            if y == 0 {
                return Err(EvalError::DivisionByZero);
            }
            let ux: u128 = if x < 0 { (-x) as u128 } else { x as u128 };
            let uy: u128 = if y < 0 { (-y) as u128 } else { y as u128 };
            let q: u128 = ux / uy;
            assert(q <= ux) by (nonlinear_arith)
                requires
                    q == ux / uy,
                    uy >= 1,
            ;
            if (x < 0) != (y < 0) {
                -(q as i128)
            } else {
                q as i128
            }
        },
    };
    if p.min_value() <= v && v <= p.max_value() {
        Ok(v)
    } else {
        Err(EvalError::Overflow)
    }
}

impl TypeSystem {
    /// The value of type `t` that holds `v`: fails when `t` is not declared
    /// or cannot represent `v`.
    pub fn value(&self, t: TypeRef, v: i128) -> (r: Result<Value, EvalError>)
        ensures
            r == self@.make(t, v as int),
    {
        match self.prim_of(t) {
            None => Err(EvalError::UnknownType),
            Some(p) => match cast(v, p) {
                Some(x) => Ok(Value { ty: t, val: x }),
                None => Err(EvalError::CastFailed),
            },
        }
    }

    /// `v` as a value of type `t`.
    pub fn cast_value(&self, v: Value, t: TypeRef) -> (r: Result<Value, EvalError>)
        ensures
            r == self@.make(t, v.val as int),
    {
        self.value(t, v.val)
    }

    /// `lhs op rhs`, where the relation `lhs op rhs => res` is declared.
    pub fn binop(&self, lhs: Value, op: ArithOp, rhs: Value) -> (r: Result<Value, EvalError>)
        requires
            self@.wf(),
        ensures
            r == self@.binop(lhs, op, rhs),
    {
        let res = match self.find_relation(lhs.ty, op, false, rhs.ty) {
            None => return Err(EvalError::NoRelation),
            Some(res) => res,
        };
        let p = match self.prim_of(res) {
            None => return Err(EvalError::UnknownType),
            Some(p) => p,
        };
        match compute(p, op, lhs.val, rhs.val) {
            Ok(v) => Ok(Value { ty: res, val: v }),
            Err(e) => Err(e),
        }
    }

    /// `lhs op= rhs`, where that relation is declared; on an error `lhs` is
    /// left as it was.
    pub fn assign_op(&self, lhs: &mut Value, op: ArithOp, rhs: Value) -> (r: Result<(), EvalError>)
        requires
            self@.wf(),
        ensures
            match self@.assign_op(*old(lhs), op, rhs) {
                Ok(v) => r is Ok && *final(lhs) == v,
                Err(e) => r == Err::<(), EvalError>(e) && *final(lhs) == *old(lhs),
            },
    {
        if self.find_relation(lhs.ty, op, true, rhs.ty).is_none() {
            return Err(EvalError::NoRelation);
        }
        let p = match self.prim_of(lhs.ty) {
            None => return Err(EvalError::UnknownType),
            Some(p) => p,
        };
        match compute(p, op, lhs.val, rhs.val) {
            Ok(v) => {
                lhs.val = v;
                Ok(())
            },
            Err(e) => Err(e),
        }
    }
}

} // verus!

verus! {

/// For a declared relation `lhs op rhs => res`, when both operands are
/// values of `res`'s primitive, the result wraps the primitive operation on
/// them, and fails only on division by zero or when the result does not fit.
pub proof fn lemma_operator_correct(m: RegistryModel, lhs: Value, op: ArithOp, rhs: Value, res: TypeRef, p: Prim)
    requires
        m.lookup(lhs.ty, op, false, rhs.ty) == Some(res),
        m.prim_of(res) == Some(p),
        p.holds(lhs.val as int),
        p.holds(rhs.val as int),
    ensures
        op == ArithOp::Div && rhs.val == 0 ==> m.binop(lhs, op, rhs) == Err::<Value, EvalError>(
            EvalError::DivisionByZero,
        ),
        !(op == ArithOp::Div && rhs.val == 0) && p.holds(apply(op, lhs.val as int, rhs.val as int))
            ==> m.binop(lhs, op, rhs) == Ok::<Value, EvalError>(
            Value { ty: res, val: apply(op, lhs.val as int, rhs.val as int) as i128 },
        ),
        !(op == ArithOp::Div && rhs.val == 0) && !p.holds(apply(op, lhs.val as int, rhs.val as int))
            ==> m.binop(lhs, op, rhs) == Err::<Value, EvalError>(EvalError::Overflow),
{
}

/// Declaring `a op b => c` gives no relation for `b op a`: where the
/// registry had none, the reversed expression is refused.
pub proof fn lemma_no_commuted_form(m: RegistryModel, d: crate::registry::RelDecl, x: Value, y: Value)
    requires
        m.wf(),
        m.add_rel(d) is Ok,
        m.resolve(d.lhs) == Some(y.ty),
        m.resolve(d.rhs) == Some(x.ty),
        x.ty != y.ty,
        !d.assign,
        m.lookup(x.ty, d.op, false, y.ty) is None,
    ensures
        m.add_rel(d)->Ok_0.binop(x, d.op, y) == Err::<Value, EvalError>(EvalError::NoRelation),
{
    let m2 = m.add_rel(d)->Ok_0;
    if exists|i: int| 0 <= i < m2.rels.len() && #[trigger] m2.rels[i].key_matches(x.ty, d.op, false, y.ty) {
        let i = choose|i: int| 0 <= i < m2.rels.len() && #[trigger] m2.rels[i].key_matches(x.ty, d.op, false, y.ty);
        if i < m.rels.len() {
            assert(m.rels[i] == m2.rels[i]);
        }
    }
}

} // verus!

verus! {

impl TypeSystem {
    /// How `v` is displayed: the number alone for a primitive type, and
    /// `Name(number)` for a declared type; `None` for an undeclared type.
    pub fn display(&self, v: &Value) -> (r: Option<String>)
        ensures
            r is Some <==> self@.type_ok(v.ty),
            r matches Some(s) ==> s@ == match v.ty {
                TypeRef::Prim(_) => decimal(v.val as int),
                TypeRef::Named(i) => self@.types[i as int].0 + "("@ + decimal(v.val as int) + ")"@,
            },
    {
        let num = decimal_text(v.val);
        match v.ty {
            TypeRef::Prim(_) => Some(num),
            TypeRef::Named(_) => {
                let name = match self.name_of(v.ty) {
                    Some(n) => n,
                    None => return None,
                };
                let s = name.concat("(");
                let s = s.concat(num.as_str());
                let s = s.concat(")");
                Some(s)
            },
        }
    }
}

} // verus!

verus! {

/// Values of one type are ordered by the numbers they hold; values of
/// different types are not comparable.
impl PartialOrd for Value {
    fn partial_cmp(&self, other: &Value) -> (r: Option<core::cmp::Ordering>) {
        if self.ty != other.ty {
            None
        } else if self.val < other.val {
            Some(core::cmp::Ordering::Less)
        } else if self.val == other.val {
            Some(core::cmp::Ordering::Equal)
        } else {
            Some(core::cmp::Ordering::Greater)
        }
    }
}

impl vstd::std_specs::cmp::PartialOrdSpecImpl for Value {
    open spec fn obeys_partial_cmp_spec() -> bool {
        true
    }

    open spec fn partial_cmp_spec(&self, other: &Value) -> Option<core::cmp::Ordering> {
        if self.ty != other.ty {
            None
        } else if self.val < other.val {
            Some(core::cmp::Ordering::Less)
        } else if self.val == other.val {
            Some(core::cmp::Ordering::Equal)
        } else {
            Some(core::cmp::Ordering::Greater)
        }
    }
}

} // verus!
