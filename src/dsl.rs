//! Declarations given as text: each reads its text with the parser and
//! hands what it read to the registry.
use vstd::prelude::*;
use crate::decl::{base_ops_rels, offset_rels, offset_type_rels, IdxType, IdxTypeOptions, IndexTrait, OffsetType, Ops, SeqType};
use crate::lexer::lex;
use crate::parser::{parse_index_decl, parse_opts, parse_ops, parse_seq_decl, parse_type_decl, OptsModel, TypeDeclModel};
use crate::registry::{DeclError, RegistryModel, RelDecl, SeqRef, TypeRef, TypeSystem};

verus! {

/// The relations that options `o` stand for on the declared type `t`.
pub open spec fn opts_rels(o: OptsModel, t: TypeDeclModel) -> Seq<RelDecl> {
    let base = match o.base {
        Some(at) => base_ops_rels(t.name, t.prim.spec_name(), at),
        None => Seq::empty(),
    };
    let offset = match o.offset {
        Some((name, _, at)) => offset_rels(t.name, name, at),
        None => Seq::empty(),
    };
    base + offset
}

impl RegistryModel {
    /// The registry after declaring the index type `item` with the options
    /// `attrs`.
    pub open spec fn idx_type_text(self, attrs: Seq<char>, item: Seq<char>) -> Result<RegistryModel, DeclError> {
        match parse_opts(attrs, lex(attrs)) {
            Err(e) => Err(e),
            Ok(o) => match parse_type_decl(item, lex(item), false) {
                Err(e) => Err(e),
                Ok(t) => self.add_type_with(t.name, t.name_at, t.prim, opts_rels(o, t)),
            },
        }
    }

    /// The registry after declaring the offset type `item`.
    pub open spec fn offset_type_text(self, item: Seq<char>) -> Result<RegistryModel, DeclError> {
        match parse_type_decl(item, lex(item), true) {
            Err(e) => Err(e),
            Ok(t) => self.add_type_with(
                t.name,
                t.name_at,
                t.prim,
                offset_type_rels(t.name, t.prim.spec_name(), t.name_at),
            ),
        }
    }

    /// The registry after declaring the sequence type `item`.
    pub open spec fn seq_type_text(self, item: Seq<char>) -> Result<RegistryModel, DeclError> {
        match parse_seq_decl(item, lex(item)) {
            Err(e) => Err(e),
            Ok(t) => self.add_seq(t.name, t.name_at),
        }
    }

    /// The registry after declaring the relation list `src`.
    pub open spec fn def_ops_text(self, src: Seq<char>) -> Result<RegistryModel, DeclError> {
        match parse_ops(src, lex(src)) {
            Err(e) => Err(e),
            Ok(ds) => self.add_rels(ds),
        }
    }

    /// The registry after declaring the indexing permission `src`.
    pub open spec fn def_index_text(self, src: Seq<char>) -> Result<RegistryModel, DeclError> {
        match parse_index_decl(src, lex(src)) {
            Err(e) => Err(e),
            Ok(d) => match (self.resolve_seq(d.seq), self.resolve(d.index)) {
                (None, _) => Err(DeclError::UnknownType { at: d.seq_at }),
                (Some(_), None) => Err(DeclError::UnknownType { at: d.index_at }),
                (Some(s), Some(t)) => if self.can_index(t, s) {
                    Err(DeclError::DuplicateRelation { at: d.seq_at })
                } else {
                    Ok(
                        RegistryModel {
                            index_rels: self.index_rels.push(crate::registry::IndexRel { index: t, seq: s }),
                            ..self
                        },
                    )
                },
            },
        }
    }
}

impl TypeSystem {
    /// Declares an index type from `item`, `type <Name> = <primitive>;`, with
    /// the options in `attrs` (`base_ops`, `offset = <Type>`).
    pub fn idx_type(&mut self, attrs: &str, item: &str) -> (r: Result<TypeRef, DeclError>)
        requires
            old(self)@.wf(),
        ensures
            final(self)@.wf(),
            match old(self)@.idx_type_text(attrs@, item@) {
                Ok(m) => r == Ok::<TypeRef, DeclError>(TypeRef::Named(old(self)@.types.len() as usize))
                    && final(self)@ == m,
                Err(e) => r == Err::<TypeRef, DeclError>(e) && final(self)@ == old(self)@,
            },
    {
        let opts = match IdxTypeOptions::parse(attrs) {
            Err(e) => return Err(e),
            Ok(o) => o,
        };
        let t = match IdxType::parse(item) {
            Err(e) => return Err(e),
            Ok(t) => t,
        };
        proof {
            let o = parse_opts(attrs@, lex(attrs@))->Ok_0;
            let tm = parse_type_decl(item@, lex(item@), false)->Ok_0;
            assert(crate::decl::idx_type_rels(opts, t) =~= opts_rels(o, tm));
        }
        self.declare_idx_type(&opts, &t)
    }

    /// Declares an offset type from `item`, `type <Name> = <signed primitive>;`.
    pub fn offset_type(&mut self, item: &str) -> (r: Result<TypeRef, DeclError>)
        requires
            old(self)@.wf(),
        ensures
            final(self)@.wf(),
            match old(self)@.offset_type_text(item@) {
                Ok(m) => r == Ok::<TypeRef, DeclError>(TypeRef::Named(old(self)@.types.len() as usize))
                    && final(self)@ == m,
                Err(e) => r == Err::<TypeRef, DeclError>(e) && final(self)@ == old(self)@,
            },
    {
        let t = match OffsetType::parse(item) {
            Err(e) => return Err(e),
            Ok(t) => t,
        };
        self.declare_offset_type(&t)
    }

    /// Declares a sequence type from `item`, `type <Name> = [<Element>];`.
    pub fn seq_type(&mut self, item: &str) -> (r: Result<SeqRef, DeclError>)
        requires
            old(self)@.wf(),
        ensures
            final(self)@.wf(),
            match old(self)@.seq_type_text(item@) {
                Ok(m) => r == Ok::<SeqRef, DeclError>(SeqRef::Named(old(self)@.seqs.len() as usize))
                    && final(self)@ == m,
                Err(e) => r == Err::<SeqRef, DeclError>(e) && final(self)@ == old(self)@,
            },
    {
        let t = match SeqType::parse(item) {
            Err(e) => return Err(e),
            Ok(t) => t,
        };
        self.declare_seq_type(&t)
    }

    /// Declares the relations listed in `src`, all of them or none.
    pub fn def_ops(&mut self, src: &str) -> (r: Result<(), DeclError>)
        requires
            old(self)@.wf(),
        ensures
            final(self)@.wf(),
            match old(self)@.def_ops_text(src@) {
                Ok(m) => r is Ok && final(self)@ == m,
                Err(e) => r == Err::<(), DeclError>(e) && final(self)@ == old(self)@,
            },
    {
        let ops = match Ops::parse(src) {
            Err(e) => return Err(e),
            Ok(o) => o,
        };
        self.declare_ops(&ops)
    }

    /// Declares the indexing permission in `src`, `<Sequence>[<Index>]`.
    pub fn def_index(&mut self, src: &str) -> (r: Result<(), DeclError>)
        requires
            old(self)@.wf(),
        ensures
            final(self)@.wf(),
            match old(self)@.def_index_text(src@) {
                Ok(m) => r is Ok && final(self)@ == m,
                Err(e) => r == Err::<(), DeclError>(e) && final(self)@ == old(self)@,
            },
    {
        let it = match IndexTrait::parse(src) {
            Err(e) => return Err(e),
            Ok(it) => it,
        };
        self.declare_index(&it)
    }

    /// The type that `name` stands for: a primitive or a declared type.
    pub fn lookup(&self, name: &str) -> (r: Option<TypeRef>)
        requires
            self@.wf(),
        ensures
            r == self@.resolve(name@),
    {
        let s = name.to_owned();
        self.resolve(&s)
    }
}

} // verus!

verus! {

/// After an index type is declared with `base_ops`, declaring by hand any
/// one of the relations that `base_ops` stands for is refused as a
/// duplicate.
pub proof fn lemma_base_ops_then_by_hand(m: RegistryModel, attrs: Seq<char>, item: Seq<char>, src: Seq<char>, k: int)
    requires
        m.wf(),
        m.idx_type_text(attrs, item) is Ok,
        parse_opts(attrs, lex(attrs))->Ok_0.base is Some,
        0 <= k < 12,
        parse_ops(src, lex(src)) is Ok,
        parse_ops(src, lex(src))->Ok_0.len() == 1,
        ({
            let t = parse_type_decl(item, lex(item), false)->Ok_0;
            let b = base_ops_rels(t.name, t.prim.spec_name(), parse_opts(attrs, lex(attrs))->Ok_0.base->0)[k];
            let d = parse_ops(src, lex(src))->Ok_0[0];
            d.lhs == b.lhs && d.op == b.op && d.assign == b.assign && d.rhs == b.rhs && d.res == b.res
        }),
    ensures
        m.idx_type_text(attrs, item)->Ok_0.def_ops_text(src) == Err::<RegistryModel, DeclError>(
            DeclError::DuplicateRelation { at: parse_ops(src, lex(src))->Ok_0[0].lhs_at },
        ),
{
    let o = parse_opts(attrs, lex(attrs))->Ok_0;
    let t = parse_type_decl(item, lex(item), false)->Ok_0;
    let rels = opts_rels(o, t);
    let ds = parse_ops(src, lex(src))->Ok_0;
    assert(rels[k] == base_ops_rels(t.name, t.prim.spec_name(), o.base->0)[k]);
    crate::registry::lemma_redeclared_refused(m, t.name, t.name_at, t.prim, rels, k, ds[0]);
    assert(ds =~= seq![ds[0]]);
}

/// An index type declaration whose options give `offset` twice is refused,
/// naming both places, whatever the registry holds.
pub proof fn lemma_offset_twice_refused(m: RegistryModel, attrs: Seq<char>, item: Seq<char>)
    requires
        crate::parser::word_at(attrs, lex(attrs), 0, "offset"@),
        crate::parser::kind_at(lex(attrs), 1, crate::lexer::TokenKind::Eq),
        crate::parser::kind_at(lex(attrs), 2, crate::lexer::TokenKind::Ident),
        crate::parser::kind_at(lex(attrs), 3, crate::lexer::TokenKind::Comma),
        crate::parser::word_at(attrs, lex(attrs), 4, "offset"@),
        crate::parser::kind_at(lex(attrs), 5, crate::lexer::TokenKind::Eq),
        crate::parser::kind_at(lex(attrs), 6, crate::lexer::TokenKind::Ident),
    ensures
        m.idx_type_text(attrs, item) == Err::<RegistryModel, DeclError>(
            DeclError::Redundant { first: lex(attrs)[0].start as usize, second: lex(attrs)[4].start as usize },
        ),
{
    crate::parser::lemma_offset_twice(attrs);
}

} // verus!
