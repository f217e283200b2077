//! The primitive integer representations and the checked numeric cast.
use vstd::prelude::*;

verus! {

/// One of the primitive integer types that a declared type may wrap.
#[derive(Clone, Copy, Debug, PartialEq, Eq, Structural)]
pub enum Prim {
    U8,
    I8,
    U16,
    I16,
    U32,
    I32,
    U64,
    I64,
    Usize,
    Isize,
}

impl Prim {
    /// The smallest value of the primitive.
    pub open spec fn lo(self) -> int {
        match self {
            Prim::I8 => i8::MIN as int,
            Prim::I16 => i16::MIN as int,
            Prim::I32 => i32::MIN as int,
            Prim::I64 => i64::MIN as int,
            Prim::Isize => isize::MIN as int,
            _ => 0,
        }
    }

    /// The largest value of the primitive.
    pub open spec fn hi(self) -> int {
        match self {
            Prim::U8 => u8::MAX as int,
            Prim::I8 => i8::MAX as int,
            Prim::U16 => u16::MAX as int,
            Prim::I16 => i16::MAX as int,
            Prim::U32 => u32::MAX as int,
            Prim::I32 => i32::MAX as int,
            Prim::U64 => u64::MAX as int,
            Prim::I64 => i64::MAX as int,
            Prim::Usize => usize::MAX as int,
            Prim::Isize => isize::MAX as int,
        }
    }

    /// `v` is a value of the primitive.
    pub open spec fn holds(self, v: int) -> bool {
        self.lo() <= v <= self.hi()
    }

    pub open spec fn is_signed(self) -> bool {
        match self {
            Prim::I8 | Prim::I16 | Prim::I32 | Prim::I64 | Prim::Isize => true,
            _ => false,
        }
    }

    /// The name under which the primitive is written in a declaration.
    pub open spec fn spec_name(self) -> Seq<char> {
        match self {
            Prim::U8 => "u8"@,
            Prim::I8 => "i8"@,
            Prim::U16 => "u16"@,
            Prim::I16 => "i16"@,
            Prim::U32 => "u32"@,
            Prim::I32 => "i32"@,
            Prim::U64 => "u64"@,
            Prim::I64 => "i64"@,
            Prim::Usize => "usize"@,
            Prim::Isize => "isize"@,
        }
    }

    pub fn signed(&self) -> (r: bool)
        ensures
            r == self.is_signed(),
    {
        match self {
            Prim::I8 | Prim::I16 | Prim::I32 | Prim::I64 | Prim::Isize => true,
            _ => false,
        }
    }

    pub fn min_value(&self) -> (r: i128)
        ensures
            r as int == self.lo(),
    {
        match self {
            Prim::I8 => i8::MIN as i128,
            Prim::I16 => i16::MIN as i128,
            Prim::I32 => i32::MIN as i128,
            Prim::I64 => i64::MIN as i128,
            Prim::Isize => isize::MIN as i128,
            _ => 0,
        }
    }

    pub fn max_value(&self) -> (r: i128)
        ensures
            r as int == self.hi(),
    {
        match self {
            Prim::U8 => u8::MAX as i128,
            Prim::I8 => i8::MAX as i128,
            Prim::U16 => u16::MAX as i128,
            Prim::I16 => i16::MAX as i128,
            Prim::U32 => u32::MAX as i128,
            Prim::I32 => i32::MAX as i128,
            Prim::U64 => u64::MAX as i128,
            Prim::I64 => i64::MAX as i128,
            Prim::Usize => usize::MAX as i128,
            Prim::Isize => isize::MAX as i128,
        }
    }

    /// The primitive written `name`, if `name` is one of the ten accepted names.
    pub fn from_name(name: &String) -> (r: Option<Prim>)
        ensures
            r matches Some(p) ==> p.spec_name() == name@,
            r is None ==> forall|p: Prim| p.spec_name() != name@,
    {
        let all = [
            Prim::U8,
            Prim::I8,
            Prim::U16,
            Prim::I16,
            Prim::U32,
            Prim::I32,
            Prim::U64,
            Prim::I64,
            Prim::Usize,
            Prim::Isize,
        ];
        let mut i: usize = 0;
        while i < 10
            invariant
                0 <= i <= 10,
                all@ == seq![Prim::U8, Prim::I8, Prim::U16, Prim::I16, Prim::U32, Prim::I32,
                    Prim::U64, Prim::I64, Prim::Usize, Prim::Isize],
                forall|k: int| 0 <= k < i ==> all@[k].spec_name() != name@,
            decreases 10 - i,
        {
            let p = all[i];
            let pname = p.name();
            if pname == *name {
                return Some(p);
            }
            i += 1;
        }
        proof {
            assert forall|p: Prim| p.spec_name() != name@ by {
                match p {
                    Prim::U8 => assert(all@[0] == p),
                    Prim::I8 => assert(all@[1] == p),
                    Prim::U16 => assert(all@[2] == p),
                    Prim::I16 => assert(all@[3] == p),
                    Prim::U32 => assert(all@[4] == p),
                    Prim::I32 => assert(all@[5] == p),
                    Prim::U64 => assert(all@[6] == p),
                    Prim::I64 => assert(all@[7] == p),
                    Prim::Usize => assert(all@[8] == p),
                    Prim::Isize => assert(all@[9] == p),
                }
            }
        }
        None
    }

    /// The name of the primitive, as a declaration writes it.
    pub fn name(&self) -> (r: String)
        ensures
            r@ == self.spec_name(),
    {
        match self {
            Prim::U8 => String::from_str("u8"),
            Prim::I8 => String::from_str("i8"),
            Prim::U16 => String::from_str("u16"),
            Prim::I16 => String::from_str("i16"),
            Prim::U32 => String::from_str("u32"),
            Prim::I32 => String::from_str("i32"),
            Prim::U64 => String::from_str("u64"),
            Prim::I64 => String::from_str("i64"),
            Prim::Usize => String::from_str("usize"),
            Prim::Isize => String::from_str("isize"),
        }
    }
}

/// What casting the number `v` into `to` gives: the same number when `to`
/// can represent it, nothing otherwise.
pub open spec fn cast_spec(v: int, to: Prim) -> Option<int> {
    if to.holds(v) {
        Some(v)
    } else {
        None
    }
}

/// Converts the number `v` into the primitive `to`, failing when `to` cannot
/// represent it exactly.
pub fn cast(v: i128, to: Prim) -> (r: Option<i128>)
    ensures
        r matches Some(x) ==> cast_spec(v as int, to) == Some(x as int),
        r is None ==> cast_spec(v as int, to) is None,
{
    if to.min_value() <= v && v <= to.max_value() {
        Some(v)
    } else {
        None
    }
}

/// Casting a value of `a` into a primitive `b` that can represent every
/// value of `a`, and back into `a`, gives the number back.
pub proof fn lemma_cast_round_trip(a: Prim, b: Prim, v: int)
    requires
        forall|x: int| a.holds(x) ==> b.holds(x),
        a.holds(v),
    ensures
        cast_spec(v, b) == Some(v),
        cast_spec(cast_spec(v, b)->0, a) == Some(v),
{
}

} // verus!

verus! {

/// Distinct primitives have distinct names.
pub proof fn lemma_prim_names_distinct(p: Prim, q: Prim)
    ensures
        p.spec_name() == q.spec_name() ==> p == q,
{
    reveal_strlit("u8");
    reveal_strlit("i8");
    reveal_strlit("u16");
    reveal_strlit("i16");
    reveal_strlit("u32");
    reveal_strlit("i32");
    reveal_strlit("u64");
    reveal_strlit("i64");
    reveal_strlit("usize");
    reveal_strlit("isize");
    if p.spec_name() == q.spec_name() && p != q {
        let a = p.spec_name();
        let b = q.spec_name();
        assert(a.len() == b.len());
        assert(a[0] == b[0]);
        if a.len() == 2 {
            assert(a[1] == b[1]);
        } else if a.len() == 3 {
            assert(a[1] == b[1]);
        }
    }
}

} // verus!

verus! {

/// Every primitive lies within the 64-bit signed and unsigned ranges.
pub proof fn lemma_prim_bounds(p: Prim)
    ensures
        i64::MIN <= p.lo() <= 0 < p.hi() <= u64::MAX,
{
}

} // verus!
