use idx::decl::{IdxType, IdxTypeOptions, IndexTrait, Op, Ops, SeqType};
use idx::index::{IdxVec, IndexError};
use idx::lexer::{tokenize, TokenKind};
use idx::prim::{cast, Prim};
use idx::registry::{ArithOp, DeclError, SeqRef, TypeRef, TypeSystem};
use idx::value::{EvalError, Value};

fn ty(ts: &TypeSystem, name: &str) -> TypeRef {
    ts.lookup(name).unwrap()
}

fn val(ts: &TypeSystem, name: &str, v: i128) -> Value {
    ts.value(ty(ts, name), v).unwrap()
}

#[test]
fn it_works() {
    let mut ts = TypeSystem::new();
    ts.seq_type("type SA = [XIdx];").unwrap();
    ts.offset_type("type Offset = isize;").unwrap();
    ts.idx_type("base_ops, offset = Offset", "type XIdx = u32;").unwrap();
    ts.idx_type("offset = Offset, base_ops", "type SaIdx = u32;").unwrap();
    ts.idx_type("offset = Offset", "type XX = u32;").unwrap();
    ts.idx_type("base_ops", "type YY = u32;").unwrap();

    let x = val(&ts, "XIdx", 42);
    assert!(x.val == 42);
    let result = 2 + 2;
    assert_eq!(result, 4);

    let y = val(&ts, "XIdx", 13);
    let off = ts.binop(x, ArithOp::Sub, y).unwrap();
    assert_eq!(off, val(&ts, "Offset", 42 - 13));
    let two = ts.value(TypeRef::Prim(Prim::Isize), 2).unwrap();
    let off2 = ts.binop(two, ArithOp::Mul, off).unwrap();
    assert_eq!(off2, val(&ts, "Offset", 2 * (42 - 13)));

    let all = ts.range(val(&ts, "XIdx", 0), val(&ts, "XIdx", 10)).unwrap();
    for (j, i) in all.iter().enumerate() {
        assert_eq!(*i, val(&ts, "XIdx", j as i128));
    }
}

#[test]
fn test_wrapper() {
    let mut ts = TypeSystem::new();
    ts.idx_type("", "type I = usize;").unwrap();
    ts.idx_type("", "type O = isize;").unwrap();
    ts.def_ops("I + O => I, I - O => I, I - I => O, I + usize => I").unwrap();

    let i = val(&ts, "I", 0);
    let j = val(&ts, "I", 10);
    let k = ts.binop(j, ArithOp::Sub, i).unwrap();
    assert_eq!(k, val(&ts, "O", 10));
    assert_eq!(ts.binop(i, ArithOp::Add, k).unwrap(), val(&ts, "I", 10));
    let twelve = ts.value(TypeRef::Prim(Prim::Usize), 12).unwrap();
    assert_eq!(ts.binop(i, ArithOp::Add, twelve).unwrap(), val(&ts, "I", 12));

    let is = ts.range(val(&ts, "I", 0), val(&ts, "I", 10)).unwrap();
    assert_eq!(is.len(), 10);
    let ks = ts.range(val(&ts, "O", -10), val(&ts, "O", 10)).unwrap();
    assert_eq!(ks.len(), 20);
    assert_eq!(ks[0], val(&ts, "O", -10));
    assert_eq!(ks[19], val(&ts, "O", 9));
}

#[test]
fn wrapper_test_creating_types() {
    let mut ts = TypeSystem::new();
    ts.idx_type("", "type I = usize;").unwrap();
    ts.idx_type("", "type J = i32;").unwrap();
    let i = val(&ts, "I", 0);
    let j = val(&ts, "I", 10);
    let k = val(&ts, "J", 10);
    assert_eq!(ts.cast_value(k, TypeRef::Prim(Prim::Usize)).unwrap().val, j.val - i.val);
    let _ = ts.cast_value(i, TypeRef::Prim(Prim::Usize)).unwrap();
    let _ = ts.cast_value(i, ty(&ts, "J")).unwrap();
}

#[test]
fn ops_test_ops() {
    let mut ts = TypeSystem::new();
    ts.idx_type("", "type T1 = usize;").unwrap();
    ts.idx_type("", "type T2 = isize;").unwrap();
    ts.def_ops(
        "T1 + T1 => T1, T1 + T2 => T2, T1 - T1 => T2, T1 - i32 => T2, i32 - T1 => T2,
         T2 + T2 => usize, T2 + u32 => usize, u32 + T2 => usize, T2 * i32 => T2, i32 * T2 => T2,",
    )
    .unwrap();
    ts.def_index("Vec[T1]").unwrap();
    let prim = |p: Prim, v: i128| ts.value(TypeRef::Prim(p), v).unwrap();

    let v: Vec<u32> = vec![1, 2, 3, 4, 5];
    let i = val(&ts, "T1", 1);
    let j = val(&ts, "T2", 3);

    let ii = ts.binop(i, ArithOp::Add, i).unwrap();
    assert_eq!(ii, val(&ts, "T1", 2));
    let ij = ts.binop(i, ArithOp::Add, j).unwrap();
    assert_eq!(ij, val(&ts, "T2", 4));
    let jj = ts.binop(j, ArithOp::Add, j).unwrap();
    assert_eq!(jj, prim(Prim::Usize, 6));
    // T2 + T1 is not declared.
    assert_eq!(ts.binop(j, ArithOp::Add, i), Err(EvalError::NoRelation));

    assert_eq!(ts.binop(j, ArithOp::Add, prim(Prim::U32, 12)).unwrap(), prim(Prim::Usize, 15));
    assert_eq!(ts.binop(prim(Prim::U32, 12), ArithOp::Add, j).unwrap(), prim(Prim::Usize, 15));

    assert_eq!(ts.binop(i, ArithOp::Sub, prim(Prim::I32, 12)).unwrap(), val(&ts, "T2", -11));
    assert_eq!(ts.binop(prim(Prim::I32, 12), ArithOp::Sub, i).unwrap(), val(&ts, "T2", 11));

    let _ = val(&ts, "T2", 42);
    assert_eq!(ts.binop(j, ArithOp::Mul, prim(Prim::I32, 2)).unwrap(), val(&ts, "T2", 6));
    assert_eq!(ts.binop(prim(Prim::I32, 2), ArithOp::Mul, j).unwrap(), val(&ts, "T2", 6));

    assert_eq!(*ts.get_in(SeqRef::Vec, &v, i).unwrap(), 2);

    let jc = ts.cast_value(j, ty(&ts, "T1")).unwrap();
    let d = ts.binop(jc, ArithOp::Sub, i).unwrap();
    assert_eq!(d, val(&ts, "T2", 2));
    assert_eq!(ts.binop(prim(Prim::I32, 2), ArithOp::Mul, d).unwrap(), val(&ts, "T2", 4));
}

#[test]
fn range_test_ranges() {
    let mut ts = TypeSystem::new();
    ts.idx_type("", "type Idx = usize;").unwrap();
    let i = val(&ts, "Idx", 0);
    let j = val(&ts, "Idx", 10);
    let ks = ts.range(i, j).unwrap();
    assert_eq!(ks.len(), 10);
    for (n, k) in ks.iter().enumerate() {
        assert_eq!(k.ty, ty(&ts, "Idx"));
        assert_eq!(k.val, n as i128);
    }
}

#[test]
fn test_indexing() {
    let mut ts = TypeSystem::new();
    ts.idx_type("", "type X = u32;").unwrap();
    ts.idx_type("", "type Y = i64;").unwrap();
    ts.def_index("Vec[X]").unwrap();
    ts.def_index("Vec[Y]").unwrap();
    let i = val(&ts, "X", 0);
    let j = val(&ts, "Y", 1);
    let v: Vec<u32> = vec![1, 2, 3, 4, 5];
    let w: &[u32] = &v[2..];
    assert_eq!(*ts.get_in(SeqRef::Vec, &v, i).unwrap(), 1);
    assert_eq!(*ts.get_in(SeqRef::Vec, w, j).unwrap(), 4);
}

#[test]
fn test_new_design() {
    let mut ts = TypeSystem::new();
    let foo = ts.seq_type("type Foo = [u32];").unwrap();
    let st = ts.seq_type("type ST = [T];").unwrap();
    ts.idx_type("", "type X = u32;").unwrap();
    ts.idx_type("", "type Y = i64;").unwrap();
    ts.def_index("Vec[X]").unwrap();
    ts.def_index("ST[X]").unwrap();
    ts.def_index("Foo[Y]").unwrap();
    ts.def_index("Vec[Y]").unwrap();

    let x = val(&ts, "X", 0);
    let y = val(&ts, "Y", 0);
    let v: Vec<u32> = vec![1, 2, 3, 4, 5];
    let w: &[u32] = &v[2..];
    assert_eq!(*ts.get_in(SeqRef::Vec, &v, x).unwrap(), 1);
    assert_eq!(*ts.get_in(SeqRef::Vec, w, x).unwrap(), 3);
    assert_eq!(*ts.get_in(SeqRef::Vec, &v, y).unwrap(), 1);

    let v = IdxVec::new(foo, vec![1u32, 2, 3, 4, 5]);
    assert_eq!(v.get(&ts, x), Err(IndexError::NotIndexable));
    assert_eq!(*v.get(&ts, y).unwrap(), 1);

    let v = IdxVec::new(st, vec![1u32, 2, 3, 4, 5]);
    let (i, j) = (val(&ts, "X", 0), val(&ts, "X", 3));
    let w = v.slice(&ts, i, j).unwrap();
    assert_eq!(w.data, &[1, 2, 3]);
    assert_eq!(*v.get(&ts, x).unwrap(), 1);
    assert_eq!(*w.get(&ts, x).unwrap(), 1);
    assert_eq!(v.get(&ts, y), Err(IndexError::NotIndexable));
}

#[test]
fn cast_round_trip() {
    for v in [0i128, 1, 127, 255] {
        let up = cast(v, Prim::U64).unwrap();
        assert_eq!(cast(up, Prim::U8), Some(v));
    }
    for v in [-128i128, -1, 0, 127] {
        let up = cast(v, Prim::I32).unwrap();
        assert_eq!(cast(up, Prim::I8), Some(v));
    }
    assert_eq!(cast(-1, Prim::U32), None);
    assert_eq!(cast(256, Prim::U8), None);
    assert_eq!(cast(4294967295, Prim::U32), Some(4294967295));
    assert_eq!(cast(4294967296, Prim::U32), None);
    assert_eq!(cast(-2147483648, Prim::I32), Some(-2147483648));
    assert_eq!(cast(-2147483649, Prim::I32), None);
}

fn idx_offset() -> TypeSystem {
    let mut ts = TypeSystem::new();
    ts.offset_type("type Offset = isize;").unwrap();
    ts.idx_type("offset = Offset", "type Idx = usize;").unwrap();
    ts
}

#[test]
fn operator_results() {
    let ts = idx_offset();
    let d = ts.binop(val(&ts, "Idx", 12), ArithOp::Sub, val(&ts, "Idx", 6)).unwrap();
    assert_eq!(d, val(&ts, "Offset", 6));
    let s = ts.binop(val(&ts, "Idx", 0), ArithOp::Add, val(&ts, "Offset", 6)).unwrap();
    assert_eq!(s, val(&ts, "Idx", 6));
    let back = ts.binop(val(&ts, "Idx", 3), ArithOp::Sub, val(&ts, "Idx", 10)).unwrap();
    assert_eq!(back, val(&ts, "Offset", -7));
    let mut a = val(&ts, "Idx", 5);
    ts.assign_op(&mut a, ArithOp::Add, val(&ts, "Offset", 4)).unwrap();
    assert_eq!(a, val(&ts, "Idx", 9));
    ts.assign_op(&mut a, ArithOp::Sub, val(&ts, "Offset", 2)).unwrap();
    assert_eq!(a, val(&ts, "Idx", 7));
}

#[test]
fn reversed_operator_is_refused() {
    let mut ts = TypeSystem::new();
    ts.offset_type("type Off = isize;").unwrap();
    ts.idx_type("", "type Idx = usize;").unwrap();
    ts.def_ops("Idx - Off => Idx").unwrap();
    let r = ts.binop(val(&ts, "Idx", 5), ArithOp::Sub, val(&ts, "Off", 2)).unwrap();
    assert_eq!(r, val(&ts, "Idx", 3));
    assert_eq!(ts.binop(val(&ts, "Off", 2), ArithOp::Sub, val(&ts, "Idx", 5)), Err(EvalError::NoRelation));
}

#[test]
fn indexing_matches_plain_position() {
    let mut ts = TypeSystem::new();
    ts.idx_type("", "type Idx = usize;").unwrap();
    ts.def_index("Vec[Idx]").unwrap();
    let v: Vec<u64> = vec![10, 20, 30, 40];
    for i in 0..v.len() {
        assert_eq!(*ts.get_in(SeqRef::Vec, &v, val(&ts, "Idx", i as i128)).unwrap(), v[i]);
    }
    assert_eq!(ts.get_in(SeqRef::Vec, &v, val(&ts, "Idx", 4)), Err(IndexError::OutOfBounds));
}

#[test]
fn negative_index_counts_from_the_end() {
    let mut ts = TypeSystem::new();
    ts.idx_type("", "type J = i32;").unwrap();
    ts.def_index("Vec[J]").unwrap();
    let v: Vec<u8> = vec![7, 8, 9];
    assert_eq!(*ts.get_in(SeqRef::Vec, &v, val(&ts, "J", -1)).unwrap(), 9);
    assert_eq!(*ts.get_in(SeqRef::Vec, &v, val(&ts, "J", -3)).unwrap(), 7);
    assert_eq!(ts.get_in(SeqRef::Vec, &v, val(&ts, "J", -4)), Err(IndexError::OutOfBounds));
    assert_eq!(val(&ts, "J", -1).index(3), Some(2));
    assert_eq!(val(&ts, "J", -4).index(3), None);

    let mut w = IdxVec::new(SeqRef::Vec, vec![1u8, 2, 3, 4]);
    w.set(&ts, val(&ts, "J", -2), 30).unwrap();
    assert_eq!(w.data, vec![1, 2, 30, 4]);
    let s = w.slice(&ts, val(&ts, "J", 1), val(&ts, "J", -1)).unwrap();
    assert_eq!(s.data, &[2, 30]);
    assert_eq!(s.len(), 2);
    assert!(w.slice(&ts, val(&ts, "J", 3), val(&ts, "J", 1)).is_err());
    assert_eq!(w.slice(&ts, val(&ts, "J", 3), val(&ts, "J", 1)).err(), Some(IndexError::BadRange));
    assert_eq!(w.slice(&ts, val(&ts, "J", 0), val(&ts, "J", 5)).err(), Some(IndexError::OutOfBounds));
    assert_eq!(w.set(&ts, val(&ts, "J", 9), 0), Err(IndexError::OutOfBounds));
}

#[test]
fn range_of_ten() {
    let mut ts = TypeSystem::new();
    ts.idx_type("", "type Idx = usize;").unwrap();
    let a = val(&ts, "Idx", 0);
    let b = val(&ts, "Idx", 10);
    assert_eq!(ts.steps_between(&a, &b), Some(10));
    assert_eq!(ts.steps_between(&b, &a), None);
    let all = ts.range(a, b).unwrap();
    let want: Vec<Value> = (0..10).map(|k| val(&ts, "Idx", k)).collect();
    assert_eq!(all, want);
    assert!(ts.range(b, a).is_none());
    assert_eq!(ts.forward_checked(a, 3), Some(val(&ts, "Idx", 3)));
    assert_eq!(ts.backward_checked(b, 4), Some(val(&ts, "Idx", 6)));
    assert_eq!(ts.backward_checked(a, 1), None);
}

#[test]
fn base_ops_then_same_relation_by_hand() {
    let mut ts = TypeSystem::new();
    ts.idx_type("base_ops", "type X = u32;").unwrap();
    let five = ts.value(TypeRef::Prim(Prim::U32), 5).unwrap();
    assert_eq!(ts.binop(val(&ts, "X", 7), ArithOp::Div, five).unwrap(), val(&ts, "X", 1));
    assert_eq!(ts.binop(five, ArithOp::Sub, val(&ts, "X", 2)).unwrap(), val(&ts, "X", 3));
    assert_eq!(ts.def_ops("X + u32 => X"), Err(DeclError::DuplicateRelation { at: 0 }));
    assert_eq!(ts.def_ops("X *= u32"), Err(DeclError::DuplicateRelation { at: 0 }));
    // A relation that base_ops does not give is accepted.
    assert_eq!(ts.def_ops("X + X => X"), Ok(()));
    assert_eq!(ts.def_ops("X + X => X"), Err(DeclError::DuplicateRelation { at: 0 }));
}

#[test]
fn offset_given_twice() {
    let mut ts = TypeSystem::new();
    ts.offset_type("type A = isize;").unwrap();
    ts.offset_type("type B = i32;").unwrap();
    assert_eq!(
        ts.idx_type("offset = A, offset = B", "type X = u32;"),
        Err(DeclError::Redundant { first: 0, second: 12 })
    );
    assert_eq!(ts.idx_type("base_ops, base_ops", "type X = u32;"), Err(DeclError::Redundant { first: 0, second: 10 }));
    assert_eq!(ts.lookup("X"), None);
}

#[test]
fn declaration_errors() {
    let mut ts = TypeSystem::new();
    assert_eq!(ts.idx_type("", "type X = u128;"), Err(DeclError::UnsupportedPrimitive { at: 9 }));
    assert_eq!(ts.offset_type("type O = u32;"), Err(DeclError::UnsignedOffset { at: 9 }));
    assert_eq!(ts.idx_type("", "type X u32;"), Err(DeclError::Syntax { at: 7 }));
    assert_eq!(ts.idx_type("", "type X = u32"), Err(DeclError::Syntax { at: 12 }));
    assert_eq!(ts.idx_type("colour", "type X = u32;"), Err(DeclError::Syntax { at: 0 }));
    assert_eq!(ts.idx_type("", "type u8 = u8;"), Err(DeclError::ReservedName { at: 5 }));
    ts.idx_type("", "type X = u32;").unwrap();
    assert_eq!(ts.idx_type("", "type X = u64;"), Err(DeclError::DuplicateName { at: 5 }));
    assert_eq!(ts.seq_type("type X = [u8];"), Err(DeclError::DuplicateName { at: 5 }));
    assert_eq!(ts.def_ops("X % X => X"), Err(DeclError::UnsupportedOperator { at: 2 }));
    assert_eq!(ts.def_ops("X + Y => X"), Err(DeclError::UnknownType { at: 4 }));
    assert_eq!(ts.def_ops("X + X =>"), Err(DeclError::Syntax { at: 8 }));
    assert_eq!(ts.def_index("Foo[X]"), Err(DeclError::UnknownType { at: 0 }));
    assert_eq!(ts.idx_type("offset = Nope", "type Z = u8;"), Err(DeclError::UnknownType { at: 9 }));
    assert_eq!(ts.lookup("Z"), None);
    ts.def_index("Vec[X]").unwrap();
    assert_eq!(ts.def_index("Vec[X]"), Err(DeclError::DuplicateRelation { at: 0 }));
}

#[test]
fn relation_lists_are_all_or_nothing() {
    let mut ts = TypeSystem::new();
    ts.idx_type("", "type X = u32;").unwrap();
    assert_eq!(ts.def_ops("X + X => X, X - Q => X"), Err(DeclError::UnknownType { at: 16 }));
    // The first relation was not kept either.
    assert_eq!(ts.def_ops("X + X => X"), Ok(()));
}

#[test]
fn evaluation_errors() {
    let mut ts = TypeSystem::new();
    ts.idx_type("", "type S = i8;").unwrap();
    ts.idx_type("", "type W = u64;").unwrap();
    ts.def_ops("S + S => S, S / S => S, S * S => S, W - W => S, S -= S").unwrap();
    assert_eq!(ts.value(ty(&ts, "S"), 200), Err(EvalError::CastFailed));
    assert_eq!(ts.value(TypeRef::Named(99), 1), Err(EvalError::UnknownType));
    assert_eq!(ts.binop(val(&ts, "S", 100), ArithOp::Add, val(&ts, "S", 100)), Err(EvalError::Overflow));
    assert_eq!(ts.binop(val(&ts, "S", 7), ArithOp::Div, val(&ts, "S", 0)), Err(EvalError::DivisionByZero));
    assert_eq!(ts.binop(val(&ts, "S", -7), ArithOp::Div, val(&ts, "S", 2)).unwrap(), val(&ts, "S", -3));
    assert_eq!(ts.binop(val(&ts, "S", 7), ArithOp::Div, val(&ts, "S", -2)).unwrap(), val(&ts, "S", -3));
    assert_eq!(ts.binop(val(&ts, "S", -128), ArithOp::Div, val(&ts, "S", -1)), Err(EvalError::Overflow));
    assert_eq!(ts.binop(val(&ts, "S", -8), ArithOp::Mul, val(&ts, "S", 16)).unwrap(), val(&ts, "S", -128));
    assert_eq!(ts.binop(val(&ts, "W", 1000), ArithOp::Sub, val(&ts, "W", 1)), Err(EvalError::CastFailed));
    assert_eq!(ts.binop(val(&ts, "W", 5), ArithOp::Sub, val(&ts, "W", 1)).unwrap(), val(&ts, "S", 4));
    assert_eq!(ts.binop(val(&ts, "S", 1), ArithOp::Sub, val(&ts, "S", 1)), Err(EvalError::NoRelation));
    let mut a = val(&ts, "S", -100);
    assert_eq!(ts.assign_op(&mut a, ArithOp::Sub, val(&ts, "S", 100)), Err(EvalError::Overflow));
    assert_eq!(a, val(&ts, "S", -100));
    ts.assign_op(&mut a, ArithOp::Sub, val(&ts, "S", 28)).unwrap();
    assert_eq!(a, val(&ts, "S", -128));
}

#[test]
fn primitive_names() {
    assert_eq!(Prim::from_name(&"isize".to_string()), Some(Prim::Isize));
    assert_eq!(Prim::from_name(&"u16".to_string()), Some(Prim::U16));
    assert_eq!(Prim::from_name(&"u128".to_string()), None);
    assert_eq!(Prim::U64.name(), "u64");
}

#[test]
fn values_display_with_their_type_name() {
    let mut ts = TypeSystem::new();
    ts.idx_type("", "type XIdx = u32;").unwrap();
    ts.offset_type("type Offset = isize;").unwrap();
    assert_eq!(ts.display(&val(&ts, "XIdx", 42)), Some("XIdx(42)".to_string()));
    assert_eq!(ts.display(&val(&ts, "Offset", -7)), Some("Offset(-7)".to_string()));
    let p = ts.value(TypeRef::Prim(Prim::I64), -1234567).unwrap();
    assert_eq!(ts.display(&p), Some("-1234567".to_string()));
    assert_eq!(ts.display(&Value { ty: TypeRef::Named(9), val: 1 }), None);
}

#[test]
fn values_of_one_type_are_ordered() {
    let mut ts = TypeSystem::new();
    ts.idx_type("", "type A = u8;").unwrap();
    ts.idx_type("", "type B = u8;").unwrap();
    let a1 = val(&ts, "A", 1);
    let a2 = val(&ts, "A", 2);
    let b1 = val(&ts, "B", 1);
    assert!(a1 < a2);
    assert!(a2 > a1);
    assert_eq!(a1.partial_cmp(&b1), None);
    assert_ne!(a1, b1);
}

#[test]
fn slices_of_slices() {
    let mut ts = TypeSystem::new();
    ts.idx_type("", "type K = i16;").unwrap();
    ts.def_index("Vec[K]").unwrap();
    let v = IdxVec::new(SeqRef::Vec, vec![0u8, 1, 2, 3, 4, 5]);
    let s = v.slice(&ts, val(&ts, "K", 1), val(&ts, "K", -1)).unwrap();
    assert_eq!(s.data, &[1, 2, 3, 4]);
    let t = s.slice(&ts, val(&ts, "K", -3), val(&ts, "K", 4)).unwrap();
    assert_eq!(t.data, &[2, 3, 4]);
    assert_eq!(*t.get(&ts, val(&ts, "K", -1)).unwrap(), 4);
}

#[test]
fn reading_declarations() {
    let toks = tokenize("A=>b_1 += [c]; %");
    let kinds: Vec<TokenKind> = toks.iter().map(|t| t.kind).collect();
    assert_eq!(
        kinds,
        vec![
            TokenKind::Ident,
            TokenKind::FatArrow,
            TokenKind::Ident,
            TokenKind::PlusEq,
            TokenKind::LBracket,
            TokenKind::Ident,
            TokenKind::RBracket,
            TokenKind::Semi,
            TokenKind::Other,
        ]
    );
    assert_eq!(toks[2].text, "b_1");
    assert_eq!((toks[2].start, toks[2].end), (3, 6));

    let t = IdxType::parse("type Node = u16;").unwrap();
    assert_eq!(t.name, "Node");
    assert_eq!(t.wrap_type, Prim::U16);
    assert_eq!((t.name_at, t.wrap_at), (5, 12));

    let o = IdxTypeOptions::parse("offset = Off, base_ops,").unwrap();
    assert_eq!(o.base_ops.0.unwrap().at, 14);
    let off = o.offset.0.unwrap();
    assert_eq!((off.offset.as_str(), off.at, off.offset_at), ("Off", 0, 9));
    assert!(IdxTypeOptions::parse("").unwrap().base_ops.0.is_none());

    let s = SeqType::parse("type Str = [char];").unwrap();
    assert_eq!((s.name.as_str(), s.of_type.as_str()), ("Str", "char"));

    let it = IndexTrait::parse("Str[Node]").unwrap();
    assert_eq!((it.seq.as_str(), it.index.as_str(), it.index_at), ("Str", "Node", 4));

    let ops = Ops::parse("A - A => D, A += D,").unwrap();
    assert_eq!(ops.ops.len(), 2);
    match &ops.ops[0] {
        Op::BinOp(b) => {
            assert_eq!((b.lhs.as_str(), b.rhs.as_str(), b.res.as_str()), ("A", "A", "D"));
            assert_eq!(b.op, ArithOp::Sub);
            assert_eq!(b.res_at, 9);
        }
        Op::AssignOp(_) => panic!("expected a binary relation"),
    }
    match &ops.ops[1] {
        Op::AssignOp(a) => {
            assert_eq!((a.lhs.as_str(), a.rhs.as_str()), ("A", "D"));
            assert_eq!(a.op, ArithOp::Add);
        }
        Op::BinOp(_) => panic!("expected an assignment relation"),
    }
    assert_eq!(Ops::parse("A +").err(), Some(DeclError::Syntax { at: 3 }));
    assert_eq!(Ops::parse("A + B C").err(), Some(DeclError::Syntax { at: 6 }));
}
