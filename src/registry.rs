//! The registry of declared types, sequences and relations.
//!
//! Declaring a type, a sequence or a list of relations either adds all of it
//! or, on an error, leaves the registry as it was.
use vstd::prelude::*;
use crate::prim::Prim;

verus! {

/// A type that values may have: a primitive, or the `i`-th declared type.
#[derive(Clone, Copy, Debug, PartialEq, Eq, Structural)]
pub enum TypeRef {
    Prim(Prim),
    Named(usize),
}

/// The four arithmetic operators of the relation grammar.
#[derive(Clone, Copy, Debug, PartialEq, Eq, Structural)]
pub enum ArithOp {
    Add,
    Sub,
    Mul,
    Div,
}

/// A declared relation `lhs op rhs => res`, or `lhs op= rhs` when `assign`
/// holds (then `res` is `lhs`).
#[derive(Clone, Copy, Debug, PartialEq, Eq, Structural)]
pub struct Relation {
    pub lhs: TypeRef,
    pub op: ArithOp,
    pub assign: bool,
    pub rhs: TypeRef,
    pub res: TypeRef,
}

/// A sequence kind that index types may be allowed to subscript: the
/// built-in vector (and its slices), or the `i`-th declared sequence type.
#[derive(Clone, Copy, Debug, PartialEq, Eq, Structural)]
pub enum SeqRef {
    Vec,
    Named(usize),
}

/// Permission for values of `index` to subscript sequences of kind `seq`.
#[derive(Clone, Copy, Debug, PartialEq, Eq, Structural)]
pub struct IndexRel {
    pub index: TypeRef,
    pub seq: SeqRef,
}

/// Why a declaration was refused. Each position is the offset, in
/// characters, of the offending token in the text it was read from.
#[derive(Clone, Copy, Debug, PartialEq, Eq, Structural)]
pub enum DeclError {
    /// A character that no token starts with.
    UnexpectedChar { at: usize },
    /// A token, or the end of the text, where the grammar expects another.
    Syntax { at: usize },
    /// An operator other than `+ - * /` and `+= -= *= /=`.
    UnsupportedOperator { at: usize },
    /// An underlying type outside `u8 i8 u16 i16 u32 i32 u64 i64 usize isize`.
    UnsupportedPrimitive { at: usize },
    /// An offset type over an unsigned primitive.
    UnsignedOffset { at: usize },
    /// An option given twice: where it came first and where it came again.
    Redundant { first: usize, second: usize },
    /// A name that is neither a primitive nor a declared type.
    UnknownType { at: usize },
    /// A name that is already declared.
    DuplicateName { at: usize },
    /// A declared name that spells a primitive.
    ReservedName { at: usize },
    /// A relation that is already declared, by hand or by an option.
    DuplicateRelation { at: usize },
}

/// A declared type as the registry keeps it.
pub struct TypeDesc {
    pub name: String,
    pub prim: Prim,
}

/// A declared sequence type and the name of its element type.
pub struct SeqDesc {
    pub name: String,
    pub elem: String,
}

/// A relation as it is declared: type names, not yet resolved, and where
/// each of them was written. For `lhs op= rhs`, `res` repeats `lhs`.
pub struct RelDecl {
    pub lhs: Seq<char>,
    pub op: ArithOp,
    pub assign: bool,
    pub rhs: Seq<char>,
    pub res: Seq<char>,
    pub lhs_at: usize,
    pub rhs_at: usize,
    pub res_at: usize,
}

/// What a registry holds: the declared types with their primitives, the
/// declared sequence names, the relations and the indexing permissions.
pub struct RegistryModel {
    pub types: Seq<(Seq<char>, Prim)>,
    pub seqs: Seq<Seq<char>>,
    pub rels: Seq<Relation>,
    pub index_rels: Seq<IndexRel>,
}

impl Relation {
    pub open spec fn key_matches(self, lhs: TypeRef, op: ArithOp, assign: bool, rhs: TypeRef) -> bool {
        self.lhs == lhs && self.op == op && self.assign == assign && self.rhs == rhs
    }
}

impl RegistryModel {
    pub open spec fn type_ok(self, t: TypeRef) -> bool {
        match t {
            TypeRef::Prim(_) => true,
            TypeRef::Named(i) => i < self.types.len(),
        }
    }

    pub open spec fn seq_ok(self, s: SeqRef) -> bool {
        match s {
            SeqRef::Vec => true,
            SeqRef::Named(i) => i < self.seqs.len(),
        }
    }

    /// The primitive that values of `t` are stored as.
    pub open spec fn prim_of(self, t: TypeRef) -> Option<Prim> {
        match t {
            TypeRef::Prim(p) => Some(p),
            TypeRef::Named(i) => if i < self.types.len() {
                Some(self.types[i as int].1)
            } else {
                None
            },
        }
    }

    /// The type that `name` stands for in a relation.
    pub open spec fn resolve(self, name: Seq<char>) -> Option<TypeRef> {
        if exists|p: Prim| p.spec_name() == name {
            Some(TypeRef::Prim(choose|p: Prim| p.spec_name() == name))
        } else if exists|i: int| 0 <= i < self.types.len() && #[trigger] self.types[i].0 == name {
            Some(
                TypeRef::Named(
                    (choose|i: int| 0 <= i < self.types.len() && #[trigger] self.types[i].0 == name) as usize,
                ),
            )
        } else {
            None
        }
    }

    /// The result type declared for `lhs op rhs` (or `lhs op= rhs`).
    pub open spec fn lookup(self, lhs: TypeRef, op: ArithOp, assign: bool, rhs: TypeRef) -> Option<TypeRef> {
        if exists|i: int| 0 <= i < self.rels.len() && #[trigger] self.rels[i].key_matches(lhs, op, assign, rhs) {
            Some(
                self.rels[choose|i: int|
                    0 <= i < self.rels.len() && #[trigger] self.rels[i].key_matches(lhs, op, assign, rhs)].res,
            )
        } else {
            None
        }
    }

    /// Values of `t` may subscript sequences of kind `s`.
    pub open spec fn can_index(self, t: TypeRef, s: SeqRef) -> bool {
        exists|i: int| 0 <= i < self.index_rels.len() && #[trigger] self.index_rels[i] == (IndexRel { index: t, seq: s })
    }

    /// Names are unique and none spells a primitive; no relation is declared
    /// twice; relations and permissions refer to declared types.
    pub open spec fn wf(self) -> bool {
        &&& forall|i: int, j: int|
            0 <= i < j < self.types.len() ==> #[trigger] self.types[i].0 != #[trigger] self.types[j].0
        &&& forall|i: int, j: int|
            0 <= i < j < self.seqs.len() ==> #[trigger] self.seqs[i] != #[trigger] self.seqs[j]
        &&& forall|i: int, j: int|
            0 <= i < self.types.len() && 0 <= j < self.seqs.len() ==> #[trigger] self.types[i].0
                != #[trigger] self.seqs[j]
        &&& forall|i: int, p: Prim| 0 <= i < self.types.len() ==> #[trigger] self.types[i].0 != #[trigger] p.spec_name()
        &&& forall|i: int, p: Prim| 0 <= i < self.seqs.len() ==> #[trigger] self.seqs[i] != #[trigger] p.spec_name()
        &&& forall|i: int, j: int|
            0 <= i < j < self.rels.len() ==> !(#[trigger] self.rels[i]).key_matches(
                (#[trigger] self.rels[j]).lhs,
                self.rels[j].op,
                self.rels[j].assign,
                self.rels[j].rhs,
            )
        &&& forall|i: int|
            0 <= i < self.rels.len() ==> self.type_ok(#[trigger] self.rels[i].lhs) && self.type_ok(
                self.rels[i].rhs,
            ) && self.type_ok(self.rels[i].res)
        &&& forall|i: int|
            0 <= i < self.index_rels.len() ==> self.type_ok(#[trigger] self.index_rels[i].index)
                && self.seq_ok(self.index_rels[i].seq)
    }

    /// Adds one relation, or says why it cannot be added.
    pub open spec fn add_rel(self, d: RelDecl) -> Result<RegistryModel, DeclError> {
        match (self.resolve(d.lhs), self.resolve(d.rhs), self.resolve(d.res)) {
            (None, _, _) => Err(DeclError::UnknownType { at: d.lhs_at }),
            (Some(_), None, _) => Err(DeclError::UnknownType { at: d.rhs_at }),
            (Some(_), Some(_), None) => Err(DeclError::UnknownType { at: d.res_at }),
            (Some(l), Some(r), Some(s)) => if self.lookup(l, d.op, d.assign, r) is Some {
                Err(DeclError::DuplicateRelation { at: d.lhs_at })
            } else {
                Ok(
                    RegistryModel {
                        rels: self.rels.push(
                            Relation { lhs: l, op: d.op, assign: d.assign, rhs: r, res: s },
                        ),
                        ..self
                    },
                )
            },
        }
    }

    /// Adds the relations in order; the first that cannot be added decides
    /// the error.
    pub open spec fn add_rels(self, ds: Seq<RelDecl>) -> Result<RegistryModel, DeclError>
        decreases ds.len(),
    {
        if ds.len() == 0 {
            Ok(self)
        } else {
            match self.add_rels(ds.drop_last()) {
                Err(e) => Err(e),
                Ok(m) => m.add_rel(ds.last()),
            }
        }
    }
}

} // verus!

verus! {

/// The registry: the declared types, sequences, relations and indexing
/// permissions.
pub struct TypeSystem {
    types: Vec<TypeDesc>,
    seqs: Vec<SeqDesc>,
    rels: Vec<Relation>,
    index_rels: Vec<IndexRel>,
}

impl View for TypeSystem {
    type V = RegistryModel;

    closed spec fn view(&self) -> RegistryModel {
        RegistryModel {
            types: self.types@.map_values(|t: TypeDesc| (t.name@, t.prim)),
            seqs: self.seqs@.map_values(|s: SeqDesc| s.name@),
            rels: self.rels@,
            index_rels: self.index_rels@,
        }
    }
}

impl TypeSystem {
    /// A registry with nothing declared.
    pub fn new() -> (r: TypeSystem)
        ensures
            r@.wf(),
            r@.types.len() == 0,
            r@.seqs.len() == 0,
            r@.rels.len() == 0,
            r@.index_rels.len() == 0,
    {
        TypeSystem { types: Vec::new(), seqs: Vec::new(), rels: Vec::new(), index_rels: Vec::new() }
    }

    /// The primitive that values of `t` are stored as.
    pub fn prim_of(&self, t: TypeRef) -> (r: Option<Prim>)
        ensures
            r == self@.prim_of(t),
    {
        match t {
            TypeRef::Prim(p) => Some(p),
            TypeRef::Named(i) => if i < self.types.len() {
                Some(self.types[i].prim)
            } else {
                None
            },
        }
    }

    /// The name of `t`, as declarations write it.
    pub fn name_of(&self, t: TypeRef) -> (r: Option<String>)
        ensures
            r is Some <==> self@.type_ok(t),
            r matches Some(s) ==> match t {
                TypeRef::Prim(p) => s@ == p.spec_name(),
                TypeRef::Named(i) => s@ == self@.types[i as int].0,
            },
    {
        match t {
            TypeRef::Prim(p) => Some(p.name()),
            TypeRef::Named(i) => if i < self.types.len() {
                Some(self.types[i].name.clone())
            } else {
                None
            },
        }
    }

    /// The type that `name` stands for.
    pub fn resolve(&self, name: &String) -> (r: Option<TypeRef>)
        requires
            self@.wf(),
        ensures
            r == self@.resolve(name@),
    {
        match Prim::from_name(name) {
            Some(p) => {
                proof {
                    let q = choose|q: Prim| q.spec_name() == name@;
                    crate::prim::lemma_prim_names_distinct(p, q);
                }
                return Some(TypeRef::Prim(p));
            },
            None => {},
        }
        let mut i: usize = 0;
        while i < self.types.len()
            invariant
                0 <= i <= self.types@.len(),
                self@.wf(),
                forall|p: Prim| p.spec_name() != name@,
                forall|j: int| 0 <= j < i ==> #[trigger] self@.types[j].0 != name@,
            decreases self.types@.len() - i,
        {
            if self.types[i].name == *name {
                proof {
                    let j = choose|j: int| 0 <= j < self@.types.len() && #[trigger] self@.types[j].0 == name@;
                    assert(self@.types[i as int].0 == name@);
                    if j != i {
                        if j < i {
                            assert(self@.types[j].0 != self@.types[i as int].0);
                        } else {
                            assert(self@.types[i as int].0 != self@.types[j].0);
                        }
                    }
                }
                return Some(TypeRef::Named(i));
            }
            i = i + 1;
        }
        None
    }

    /// The result type declared for `lhs op rhs` (or `lhs op= rhs`).
    pub fn find_relation(&self, lhs: TypeRef, op: ArithOp, assign: bool, rhs: TypeRef) -> (r: Option<TypeRef>)
        requires
            self@.wf(),
        ensures
            r == self@.lookup(lhs, op, assign, rhs),
    {
        let mut i: usize = 0;
        while i < self.rels.len()
            invariant
                0 <= i <= self.rels@.len(),
                self@.wf(),
                forall|j: int| 0 <= j < i ==> !(#[trigger] self@.rels[j]).key_matches(lhs, op, assign, rhs),
            decreases self.rels@.len() - i,
        {
            let rel = self.rels[i];
            if rel.lhs == lhs && rel.op == op && rel.assign == assign && rel.rhs == rhs {
                proof {
                    let j = choose|j: int|
                        0 <= j < self@.rels.len() && #[trigger] self@.rels[j].key_matches(lhs, op, assign, rhs);
                    assert(self@.rels[i as int].key_matches(lhs, op, assign, rhs));
                    if j != i {
                        if j < i {
                            assert(!self@.rels[j].key_matches(lhs, op, assign, rhs));
                        } else {
                            assert(!self@.rels[i as int].key_matches(
                                self@.rels[j].lhs,
                                self@.rels[j].op,
                                self@.rels[j].assign,
                                self@.rels[j].rhs,
                            ));
                        }
                    }
                }
                return Some(rel.res);
            }
            i = i + 1;
        }
        None
    }
}

} // verus!

verus! {

use crate::decl::{rel_decls, Op};

/// What a resolved name stands for is a type of the registry.
pub proof fn lemma_resolve_ok(m: RegistryModel, name: Seq<char>)
    ensures
        m.resolve(name) matches Some(t) ==> m.type_ok(t),
{
}

/// Adding relations keeps the registry well formed and changes nothing but
/// the relations, which it only extends.
pub proof fn lemma_add_rels_wf(m: RegistryModel, ds: Seq<RelDecl>)
    requires
        m.wf(),
    ensures
        m.add_rels(ds) matches Ok(m2) ==> {
            &&& m2.wf()
            &&& m2.types == m.types
            &&& m2.seqs == m.seqs
            &&& m2.index_rels == m.index_rels
            &&& m.rels.len() <= m2.rels.len()
            &&& m2.rels.subrange(0, m.rels.len() as int) == m.rels
        },
    decreases ds.len(),
{
    if ds.len() > 0 {
        lemma_add_rels_wf(m, ds.drop_last());
        if let Ok(m1) = m.add_rels(ds.drop_last()) {
            let d = ds.last();
            lemma_resolve_ok(m1, d.lhs);
            lemma_resolve_ok(m1, d.rhs);
            lemma_resolve_ok(m1, d.res);
            if let Ok(m2) = m1.add_rel(d) {
                assert(m2.rels.subrange(0, m.rels.len() as int) =~= m.rels) by {
                    assert(m1.rels.subrange(0, m.rels.len() as int) == m.rels);
                }
                let n = m2.rels.len() - 1;
                assert forall|i: int, j: int| 0 <= i < j < m2.rels.len() implies !(
                #[trigger] m2.rels[i]).key_matches(
                    (#[trigger] m2.rels[j]).lhs,
                    m2.rels[j].op,
                    m2.rels[j].assign,
                    m2.rels[j].rhs,
                ) by {
                    if j == n {
                        assert(m1.lookup(m2.rels[j].lhs, m2.rels[j].op, m2.rels[j].assign, m2.rels[j].rhs) is None);
                        assert(m1.rels[i] == m2.rels[i]);
                    } else {
                        assert(m1.rels[i] == m2.rels[i]);
                        assert(m1.rels[j] == m2.rels[j]);
                    }
                }
                assert forall|i: int| 0 <= i < m2.rels.len() implies m2.type_ok(#[trigger] m2.rels[i].lhs)
                    && m2.type_ok(m2.rels[i].rhs) && m2.type_ok(m2.rels[i].res) by {
                    if i < n {
                        assert(m1.rels[i] == m2.rels[i]);
                    }
                }
            }
        }
    }
}

/// Adding the first `i + 1` relations is adding the first `i` and then the
/// next one.
proof fn lemma_add_rels_step(m: RegistryModel, ds: Seq<RelDecl>, i: int)
    requires
        0 <= i < ds.len(),
    ensures
        m.add_rels(ds.take(i + 1)) == match m.add_rels(ds.take(i)) {
            Err(e) => Err(e),
            Ok(m1) => m1.add_rel(ds[i]),
        },
{
    assert(ds.take(i + 1).drop_last() =~= ds.take(i));
}

/// Once a prefix of the relations fails, all of them fail the same way.
proof fn lemma_add_rels_err(m: RegistryModel, ds: Seq<RelDecl>, i: int)
    requires
        0 <= i <= ds.len(),
        m.add_rels(ds.take(i)) is Err,
    ensures
        m.add_rels(ds) == m.add_rels(ds.take(i)),
    decreases ds.len() - i,
{
    if i == ds.len() {
        assert(ds.take(i) =~= ds);
    } else {
        lemma_add_rels_step(m, ds, i);
        lemma_add_rels_err(m, ds, i + 1);
    }
}

impl TypeSystem {
    /// Adds one relation, or leaves the registry as it was.
    fn add_rel(&mut self, d: &Op) -> (r: Result<(), DeclError>)
        requires
            old(self)@.wf(),
        ensures
            match old(self)@.add_rel(d@) {
                Ok(m) => r is Ok && final(self)@ == m,
                Err(e) => r == Err::<(), DeclError>(e) && final(self)@ == old(self)@,
            },
    {
        let (lhs, lhs_at, op, assign, rhs, rhs_at, res, res_at) = match d {
            Op::BinOp(b) => (&b.lhs, b.lhs_at, b.op, false, &b.rhs, b.rhs_at, &b.res, b.res_at),
            Op::AssignOp(a) => (&a.lhs, a.lhs_at, a.op, true, &a.rhs, a.rhs_at, &a.lhs, a.lhs_at),
        };
        let l = match self.resolve(lhs) {
            None => return Err(DeclError::UnknownType { at: lhs_at }),
            Some(l) => l,
        };
        let r = match self.resolve(rhs) {
            None => return Err(DeclError::UnknownType { at: rhs_at }),
            Some(r) => r,
        };
        let s = match self.resolve(res) {
            None => return Err(DeclError::UnknownType { at: res_at }),
            Some(s) => s,
        };
        if self.find_relation(l, op, assign, r).is_some() {
            return Err(DeclError::DuplicateRelation { at: lhs_at });
        }
        self.rels.push(Relation { lhs: l, op, assign, rhs: r, res: s });
        assert(self@.types =~= old(self)@.types);
        assert(self@.seqs =~= old(self)@.seqs);
        Ok(())
    }

    /// Adds the relations in order; if one cannot be added, none is.
    fn add_rels(&mut self, ds: &Vec<Op>) -> (r: Result<(), DeclError>)
        requires
            old(self)@.wf(),
        ensures
            final(self)@.wf(),
            match old(self)@.add_rels(rel_decls(ds@)) {
                Ok(m) => r is Ok && final(self)@ == m,
                Err(e) => r == Err::<(), DeclError>(e) && final(self)@ == old(self)@,
            },
    {
        let ghost start = self@;
        let ghost all = rel_decls(ds@);
        let n0 = self.rels.len();
        let mut i: usize = 0;
        assert(all.take(0) =~= Seq::<RelDecl>::empty());
        while i < ds.len()
            invariant
                0 <= i <= ds@.len(),
                all == rel_decls(ds@),
                all.len() == ds@.len(),
                start == old(self)@,
                start.wf(),
                start.add_rels(all.take(i as int)) == Ok::<RegistryModel, DeclError>(self@),
                self@.wf(),
                self@.types == start.types,
                self@.seqs == start.seqs,
                self@.index_rels == start.index_rels,
                n0 == start.rels.len(),
                n0 <= self.rels@.len(),
                self.rels@.subrange(0, n0 as int) == start.rels,
            decreases ds@.len() - i,
        {
            proof {
                lemma_add_rels_step(start, all, i as int);
                assert(all[i as int] == ds@[i as int]@);
                lemma_add_rels_wf(start, all.take(i + 1));
            }
            match self.add_rel(&ds[i]) {
                Ok(()) => {},
                Err(e) => {
                    proof {
                        lemma_add_rels_err(start, all, i + 1);
                    }
                    self.rels.truncate(n0);
                    assert(self@.rels =~= start.rels);
                    assert(self@.types =~= start.types);
                    assert(self@.seqs =~= start.seqs);
                    return Err(e);
                },
            }
            i = i + 1;
        }
        assert(all.take(ds@.len() as int) =~= all);
        Ok(())
    }
}

} // verus!

verus! {

use crate::decl::{
    idx_type_ops, idx_type_rels, offset_decl_rels, offset_type_ops, IdxType, IdxTypeOptions,
    IndexTrait, OffsetType, Ops, SeqType,
};

impl RegistryModel {
    /// `name` spells a primitive.
    pub open spec fn reserved(name: Seq<char>) -> bool {
        exists|p: Prim| p.spec_name() == name
    }

    /// `name` is already declared, as a type or as a sequence.
    pub open spec fn declared(self, name: Seq<char>) -> bool {
        (exists|i: int| 0 <= i < self.types.len() && #[trigger] self.types[i].0 == name) || (exists|i: int|
            0 <= i < self.seqs.len() && #[trigger] self.seqs[i] == name)
    }

    /// Declares type `name` over `prim`, written at `at`.
    pub open spec fn add_type(self, name: Seq<char>, at: usize, prim: Prim) -> Result<RegistryModel, DeclError> {
        if Self::reserved(name) {
            Err(DeclError::ReservedName { at })
        } else if self.declared(name) {
            Err(DeclError::DuplicateName { at })
        } else {
            Ok(RegistryModel { types: self.types.push((name, prim)), ..self })
        }
    }

    /// Declares sequence type `name`, written at `at`.
    pub open spec fn add_seq(self, name: Seq<char>, at: usize) -> Result<RegistryModel, DeclError> {
        if Self::reserved(name) {
            Err(DeclError::ReservedName { at })
        } else if self.declared(name) {
            Err(DeclError::DuplicateName { at })
        } else {
            Ok(RegistryModel { seqs: self.seqs.push(name), ..self })
        }
    }

    /// Declares a type and then the relations that come with it; nothing
    /// of it stays if a relation fails.
    pub open spec fn add_type_with(self, name: Seq<char>, at: usize, prim: Prim, ds: Seq<RelDecl>) -> Result<
        RegistryModel,
        DeclError,
    > {
        match self.add_type(name, at, prim) {
            Err(e) => Err(e),
            Ok(m) => m.add_rels(ds),
        }
    }

    /// The registry after declaring the index type `t` with the options `opts`.
    pub open spec fn idx_type(self, opts: IdxTypeOptions, t: IdxType) -> Result<RegistryModel, DeclError> {
        self.add_type_with(t.name@, t.name_at, t.wrap_type, idx_type_rels(opts, t))
    }

    /// The registry after declaring the offset type `t`.
    pub open spec fn offset_type(self, t: OffsetType) -> Result<RegistryModel, DeclError> {
        if !t.wrap_type.is_signed() {
            Err(DeclError::UnsignedOffset { at: t.wrap_at })
        } else {
            self.add_type_with(t.name@, t.name_at, t.wrap_type, offset_decl_rels(t))
        }
    }

    /// The sequence kind that `name` stands for: a declared sequence type, or
    /// else `Vec` for the built-in vector.
    pub open spec fn resolve_seq(self, name: Seq<char>) -> Option<SeqRef> {
        if exists|i: int| 0 <= i < self.seqs.len() && #[trigger] self.seqs[i] == name {
            Some(
                SeqRef::Named(
                    (choose|i: int| 0 <= i < self.seqs.len() && #[trigger] self.seqs[i] == name) as usize,
                ),
            )
        } else if name == "Vec"@ {
            Some(SeqRef::Vec)
        } else {
            None
        }
    }

    /// The registry after `seq[index]` is declared.
    pub open spec fn add_index(self, it: IndexTrait) -> Result<RegistryModel, DeclError> {
        match (self.resolve_seq(it.seq@), self.resolve(it.index@)) {
            (None, _) => Err(DeclError::UnknownType { at: it.seq_at }),
            (Some(_), None) => Err(DeclError::UnknownType { at: it.index_at }),
            (Some(s), Some(t)) => if self.can_index(t, s) {
                Err(DeclError::DuplicateRelation { at: it.seq_at })
            } else {
                Ok(RegistryModel { index_rels: self.index_rels.push(IndexRel { index: t, seq: s }), ..self })
            },
        }
    }
}

/// Declaring a fresh name keeps the registry well formed.
proof fn lemma_add_type_wf(m: RegistryModel, name: Seq<char>, at: usize, prim: Prim)
    requires
        m.wf(),
    ensures
        m.add_type(name, at, prim) matches Ok(m2) ==> m2.wf(),
        m.add_seq(name, at) matches Ok(m2) ==> m2.wf(),
{
    if let Ok(m2) = m.add_type(name, at, prim) {
        let n = m.types.len() as int;
        assert forall|i: int, j: int| 0 <= i < j < m2.types.len() implies #[trigger] m2.types[i].0
            != #[trigger] m2.types[j].0 by {
            if j == n {
                assert(m.types[i] == m2.types[i]);
            } else {
                assert(m.types[i] == m2.types[i]);
                assert(m.types[j] == m2.types[j]);
            }
        }
        assert forall|i: int, j: int| 0 <= i < m2.types.len() && 0 <= j < m2.seqs.len() implies #[trigger] m2.types[i].0
            != #[trigger] m2.seqs[j] by {
            if i < n {
                assert(m.types[i] == m2.types[i]);
            }
        }
        assert forall|i: int, p: Prim| 0 <= i < m2.types.len() implies #[trigger] m2.types[i].0 != #[trigger] p.spec_name() by {
            if i < n {
                assert(m.types[i] == m2.types[i]);
            }
        }
    }
    if let Ok(m2) = m.add_seq(name, at) {
        let n = m.seqs.len() as int;
        assert forall|i: int, j: int| 0 <= i < j < m2.seqs.len() implies #[trigger] m2.seqs[i]
            != #[trigger] m2.seqs[j] by {
            if j == n {
                assert(m.seqs[i] == m2.seqs[i]);
            } else {
                assert(m.seqs[i] == m2.seqs[i]);
                assert(m.seqs[j] == m2.seqs[j]);
            }
        }
        assert forall|i: int, j: int| 0 <= i < m2.types.len() && 0 <= j < m2.seqs.len() implies #[trigger] m2.types[i].0
            != #[trigger] m2.seqs[j] by {
            if j < n {
                assert(m.seqs[j] == m2.seqs[j]);
            }
        }
        assert forall|i: int, p: Prim| 0 <= i < m2.seqs.len() implies #[trigger] m2.seqs[i] != #[trigger] p.spec_name() by {
            if i < n {
                assert(m.seqs[i] == m2.seqs[i]);
            }
        }
    }
}

impl TypeSystem {
    /// Whether `name` is already declared, as a type or as a sequence.
    fn declared(&self, name: &String) -> (r: bool)
        ensures
            r == self@.declared(name@),
    {
        let mut i: usize = 0;
        while i < self.types.len()
            invariant
                0 <= i <= self.types@.len(),
                forall|j: int| 0 <= j < i ==> #[trigger] self@.types[j].0 != name@,
            decreases self.types@.len() - i,
        {
            if self.types[i].name == *name {
                assert(self@.types[i as int].0 == name@);
                return true;
            }
            i = i + 1;
        }
        let mut i: usize = 0;
        while i < self.seqs.len()
            invariant
                0 <= i <= self.seqs@.len(),
                forall|j: int| 0 <= j < self.types@.len() ==> #[trigger] self@.types[j].0 != name@,
                forall|j: int| 0 <= j < i ==> #[trigger] self@.seqs[j] != name@,
            decreases self.seqs@.len() - i,
        {
            if self.seqs[i].name == *name {
                assert(self@.seqs[i as int] == name@);
                return true;
            }
            i = i + 1;
        }
        false
    }

    /// Declares type `name` over `prim`.
    fn add_type(&mut self, name: &String, at: usize, prim: Prim) -> (r: Result<TypeRef, DeclError>)
        requires
            old(self)@.wf(),
        ensures
            final(self)@.wf(),
            match old(self)@.add_type(name@, at, prim) {
                Ok(m) => r == Ok::<TypeRef, DeclError>(TypeRef::Named(old(self)@.types.len() as usize))
                    && final(self)@ == m,
                Err(e) => r == Err::<TypeRef, DeclError>(e) && final(self)@ == old(self)@,
            },
    {
        proof {
            lemma_add_type_wf(self@, name@, at, prim);
        }
        if Prim::from_name(name).is_some() {
            return Err(DeclError::ReservedName { at });
        }
        if self.declared(name) {
            return Err(DeclError::DuplicateName { at });
        }
        let i = self.types.len();
        self.types.push(TypeDesc { name: name.clone(), prim });
        assert(self@.types =~= old(self)@.types.push((name@, prim)));
        Ok(TypeRef::Named(i))
    }

    /// Declares the type `t`, with the relations that `opts` stands for.
    pub fn declare_idx_type(&mut self, opts: &IdxTypeOptions, t: &IdxType) -> (r: Result<TypeRef, DeclError>)
        requires
            old(self)@.wf(),
        ensures
            final(self)@.wf(),
            match old(self)@.idx_type(*opts, *t) {
                Ok(m) => r == Ok::<TypeRef, DeclError>(TypeRef::Named(old(self)@.types.len() as usize))
                    && final(self)@ == m,
                Err(e) => r == Err::<TypeRef, DeclError>(e) && final(self)@ == old(self)@,
            },
    {
        let ops = idx_type_ops(opts, t);
        self.add_type_with(&t.name, t.name_at, t.wrap_type, &ops)
    }

    /// Declares the offset type `t`, with its arithmetic.
    pub fn declare_offset_type(&mut self, t: &OffsetType) -> (r: Result<TypeRef, DeclError>)
        requires
            old(self)@.wf(),
        ensures
            final(self)@.wf(),
            match old(self)@.offset_type(*t) {
                Ok(m) => r == Ok::<TypeRef, DeclError>(TypeRef::Named(old(self)@.types.len() as usize))
                    && final(self)@ == m,
                Err(e) => r == Err::<TypeRef, DeclError>(e) && final(self)@ == old(self)@,
            },
    {
        if !t.wrap_type.signed() {
            return Err(DeclError::UnsignedOffset { at: t.wrap_at });
        }
        let p = t.wrap_type.name();
        let ops = offset_type_ops(&t.name, &p, t.name_at);
        self.add_type_with(&t.name, t.name_at, t.wrap_type, &ops)
    }

    fn add_type_with(&mut self, name: &String, at: usize, prim: Prim, ops: &Vec<Op>) -> (r: Result<
        TypeRef,
        DeclError,
    >)
        requires
            old(self)@.wf(),
        ensures
            final(self)@.wf(),
            match old(self)@.add_type_with(name@, at, prim, rel_decls(ops@)) {
                Ok(m) => r == Ok::<TypeRef, DeclError>(TypeRef::Named(old(self)@.types.len() as usize))
                    && final(self)@ == m,
                Err(e) => r == Err::<TypeRef, DeclError>(e) && final(self)@ == old(self)@,
            },
    {
        let tr = match self.add_type(name, at, prim) {
            Err(e) => return Err(e),
            Ok(tr) => tr,
        };
        let ghost mid = self@;
        match self.add_rels(ops) {
            Ok(()) => Ok(tr),
            Err(e) => {
                let ghost before = self.types@;
                self.types.pop();
                assert(self@.types =~= before.map_values(|t: TypeDesc| (t.name@, t.prim)).drop_last());
                assert(mid.types == old(self)@.types.push((name@, prim)));
                assert(self@.types =~= old(self)@.types);
                assert(self@.rels =~= old(self)@.rels);
                Err(e)
            },
        }
    }

    /// Declares the sequence type `t`.
    pub fn declare_seq_type(&mut self, t: &SeqType) -> (r: Result<SeqRef, DeclError>)
        requires
            old(self)@.wf(),
        ensures
            final(self)@.wf(),
            match old(self)@.add_seq(t.name@, t.name_at) {
                Ok(m) => r == Ok::<SeqRef, DeclError>(SeqRef::Named(old(self)@.seqs.len() as usize))
                    && final(self)@ == m,
                Err(e) => r == Err::<SeqRef, DeclError>(e) && final(self)@ == old(self)@,
            },
    {
        proof {
            lemma_add_type_wf(self@, t.name@, t.name_at, Prim::U8);
        }
        if Prim::from_name(&t.name).is_some() {
            return Err(DeclError::ReservedName { at: t.name_at });
        }
        if self.declared(&t.name) {
            return Err(DeclError::DuplicateName { at: t.name_at });
        }
        let i = self.seqs.len();
        self.seqs.push(SeqDesc { name: t.name.clone(), elem: t.of_type.clone() });
        assert(self@.seqs =~= old(self)@.seqs.push(t.name@));
        Ok(SeqRef::Named(i))
    }

    /// Declares the relations of `ops`, all of them or, on an error, none.
    pub fn declare_ops(&mut self, ops: &Ops) -> (r: Result<(), DeclError>)
        requires
            old(self)@.wf(),
        ensures
            final(self)@.wf(),
            match old(self)@.add_rels(rel_decls(ops.ops@)) {
                Ok(m) => r is Ok && final(self)@ == m,
                Err(e) => r == Err::<(), DeclError>(e) && final(self)@ == old(self)@,
            },
    {
        self.add_rels(&ops.ops)
    }

    /// The sequence kind that `name` stands for.
    pub fn resolve_seq(&self, name: &String) -> (r: Option<SeqRef>)
        requires
            self@.wf(),
        ensures
            r == self@.resolve_seq(name@),
    {
        let mut i: usize = 0;
        while i < self.seqs.len()
            invariant
                0 <= i <= self.seqs@.len(),
                self@.wf(),
                forall|j: int| 0 <= j < i ==> #[trigger] self@.seqs[j] != name@,
            decreases self.seqs@.len() - i,
        {
            if self.seqs[i].name == *name {
                proof {
                    let j = choose|j: int| 0 <= j < self@.seqs.len() && #[trigger] self@.seqs[j] == name@;
                    assert(self@.seqs[i as int] == name@);
                    if j != i {
                        if j < i {
                            assert(self@.seqs[j] != self@.seqs[i as int]);
                        } else {
                            assert(self@.seqs[i as int] != self@.seqs[j]);
                        }
                    }
                }
                return Some(SeqRef::Named(i));
            }
            i = i + 1;
        }
        if *name == String::from_str("Vec") {
            Some(SeqRef::Vec)
        } else {
            None
        }
    }

    /// Whether values of `t` may subscript sequences of kind `s`.
    pub fn can_index(&self, t: TypeRef, s: SeqRef) -> (r: bool)
        ensures
            r == self@.can_index(t, s),
    {
        let mut i: usize = 0;
        while i < self.index_rels.len()
            invariant
                0 <= i <= self.index_rels@.len(),
                forall|j: int| 0 <= j < i ==> #[trigger] self@.index_rels[j] != (IndexRel { index: t, seq: s }),
            decreases self.index_rels@.len() - i,
        {
            let rel = self.index_rels[i];
            if rel.index == t && rel.seq == s {
                assert(self@.index_rels[i as int] == IndexRel { index: t, seq: s });
                return true;
            }
            i = i + 1;
        }
        false
    }

    /// Declares that values of `it.index` may subscript sequences of `it.seq`.
    pub fn declare_index(&mut self, it: &IndexTrait) -> (r: Result<(), DeclError>)
        requires
            old(self)@.wf(),
        ensures
            final(self)@.wf(),
            match old(self)@.add_index(*it) {
                Ok(m) => r is Ok && final(self)@ == m,
                Err(e) => r == Err::<(), DeclError>(e) && final(self)@ == old(self)@,
            },
    {
        let s = match self.resolve_seq(&it.seq) {
            None => return Err(DeclError::UnknownType { at: it.seq_at }),
            Some(s) => s,
        };
        let t = match self.resolve(&it.index) {
            None => return Err(DeclError::UnknownType { at: it.index_at }),
            Some(t) => t,
        };
        if self.can_index(t, s) {
            return Err(DeclError::DuplicateRelation { at: it.seq_at });
        }
        proof {
            lemma_resolve_ok(self@, it.index@);
        }
        self.index_rels.push(IndexRel { index: t, seq: s });
        assert(self@.types =~= old(self)@.types);
        assert(self@.seqs =~= old(self)@.seqs);
        proof {
            let m = self@;
            assert forall|i: int| 0 <= i < m.index_rels.len() implies m.type_ok(#[trigger] m.index_rels[i].index)
                && m.seq_ok(m.index_rels[i].seq) by {
                if i < old(self)@.index_rels.len() {
                    assert(m.index_rels[i] == old(self)@.index_rels[i]);
                }
            }
        }
        Ok(())
    }
}

} // verus!

verus! {

/// Which type a name stands for depends on the declared types alone.
proof fn lemma_resolve_types(m1: RegistryModel, m2: RegistryModel, name: Seq<char>)
    requires
        m1.types == m2.types,
    ensures
        m1.resolve(name) == m2.resolve(name),
{
}

/// Once relations are added, each of them is declared.
pub proof fn lemma_add_rels_declared(m: RegistryModel, ds: Seq<RelDecl>, k: int)
    requires
        m.wf(),
        0 <= k < ds.len(),
        m.add_rels(ds) is Ok,
    ensures
        ({
            let m2 = m.add_rels(ds)->Ok_0;
            &&& m2.resolve(ds[k].lhs) is Some
            &&& m2.resolve(ds[k].rhs) is Some
            &&& m2.resolve(ds[k].res) is Some
            &&& m2.lookup(m2.resolve(ds[k].lhs)->0, ds[k].op, ds[k].assign, m2.resolve(ds[k].rhs)->0) is Some
        }),
    decreases ds.len(),
{
    let m1 = m.add_rels(ds.drop_last())->Ok_0;
    let m2 = m.add_rels(ds)->Ok_0;
    let d = ds[k];
    assert(m.add_rels(ds.drop_last()) is Ok);
    assert(m2 == m1.add_rel(ds.last())->Ok_0);
    lemma_resolve_types(m1, m2, d.lhs);
    lemma_resolve_types(m1, m2, d.rhs);
    lemma_resolve_types(m1, m2, d.res);
    let key_l = m2.resolve(d.lhs)->0;
    let key_r = m2.resolve(d.rhs)->0;
    if k == ds.len() - 1 {
        let i = m2.rels.len() - 1;
        assert(m2.rels[i].key_matches(key_l, d.op, d.assign, key_r));
    } else {
        lemma_add_rels_declared(m, ds.drop_last(), k);
        assert(ds.drop_last()[k] == d);
        let i = choose|i: int| 0 <= i < m1.rels.len() && #[trigger] m1.rels[i].key_matches(key_l, d.op, d.assign, key_r);
        assert(m2.rels[i] == m1.rels[i]);
    }
}

/// A relation that a declaration added, by hand or through an option, is
/// refused as a duplicate when it is declared again.
pub proof fn lemma_redeclared_refused(
    m: RegistryModel,
    name: Seq<char>,
    at: usize,
    prim: Prim,
    ds: Seq<RelDecl>,
    k: int,
    d: RelDecl,
)
    requires
        m.wf(),
        m.add_type_with(name, at, prim, ds) is Ok,
        0 <= k < ds.len(),
        d.lhs == ds[k].lhs,
        d.op == ds[k].op,
        d.assign == ds[k].assign,
        d.rhs == ds[k].rhs,
        d.res == ds[k].res,
    ensures
        m.add_type_with(name, at, prim, ds)->Ok_0.add_rels(seq![d]) == Err::<RegistryModel, DeclError>(
            DeclError::DuplicateRelation { at: d.lhs_at },
        ),
{
    let m1 = m.add_type(name, at, prim)->Ok_0;
    lemma_add_type_wf(m, name, at, prim);
    lemma_add_rels_declared(m1, ds, k);
    let m2 = m1.add_rels(ds)->Ok_0;
    let one = seq![d];
    assert(one.drop_last() =~= Seq::<RelDecl>::empty());
    assert(one.last() == d);
    assert(m2.add_rels(one.drop_last()) == Ok::<RegistryModel, DeclError>(m2));
    assert(m2.add_rels(one) == m2.add_rel(d));
}

} // verus!
