//! Reading declarations from text.
//!
//! The grammar:
//! - an index or offset type: `type <Name> = <primitive>;`
//! - a sequence type: `type <Name> = [<Element>];`
//! - the options of an index type: a comma-separated list of `base_ops` and
//!   `offset = <Type>`, each at most once;
//! - a relation list: a comma-separated list of `<Lhs> <op> <Rhs> => <Res>`
//!   with `<op>` one of `+ - * /`, and `<Lhs> <op>= <Rhs>`;
//! - an indexing permission: `<Sequence>[<Index>]`.
//!
//! Lists may end with a comma. Error positions are character offsets into
//! the text; the end of the text is its length.
use vstd::prelude::*;
use crate::decl::{
    rel_decls, BaseOpsOpt, IdxType, IdxTypeOptions, IndexTrait, OffsetOpt, OffsetType, Op, Ops,
    OptionalOpt, SeqType, StructAssignOp, StructBinOp,
};
use crate::lexer::{lex, tokenize, tokens_of, Tok, Token, TokenKind};
use crate::prim::{lemma_prim_names_distinct, Prim};
use crate::registry::{ArithOp, DeclError, RelDecl};

verus! {

/// The characters that token `t` covers.
pub open spec fn text(s: Seq<char>, t: Tok) -> Seq<char> {
    s.subrange(t.start as int, t.end as int)
}

/// Where token `i` starts, or the end of the text when there is no such token.
pub open spec fn pos(s: Seq<char>, toks: Seq<Tok>, i: int) -> usize {
    if 0 <= i < toks.len() {
        toks[i].start as usize
    } else {
        s.len() as usize
    }
}

pub open spec fn kind_at(toks: Seq<Tok>, i: int, k: TokenKind) -> bool {
    0 <= i < toks.len() && toks[i].kind == k
}

/// Token `i` is the identifier `w`.
pub open spec fn word_at(s: Seq<char>, toks: Seq<Tok>, i: int, w: Seq<char>) -> bool {
    kind_at(toks, i, TokenKind::Ident) && text(s, toks[i]) == w
}

/// What a type declaration says: the name, the primitive, and where each
/// was written.
pub struct TypeDeclModel {
    pub name: Seq<char>,
    pub name_at: usize,
    pub prim: Prim,
    pub prim_at: usize,
}

/// Reads `type <Name> = <primitive>;`; with `signed_only`, the primitive
/// must be signed.
pub open spec fn parse_type_decl(s: Seq<char>, toks: Seq<Tok>, signed_only: bool) -> Result<
    TypeDeclModel,
    DeclError,
> {
    if !word_at(s, toks, 0, "type"@) {
        Err(DeclError::Syntax { at: pos(s, toks, 0) })
    } else if !kind_at(toks, 1, TokenKind::Ident) {
        Err(DeclError::Syntax { at: pos(s, toks, 1) })
    } else if !kind_at(toks, 2, TokenKind::Eq) {
        Err(DeclError::Syntax { at: pos(s, toks, 2) })
    } else if !kind_at(toks, 3, TokenKind::Ident) {
        Err(DeclError::Syntax { at: pos(s, toks, 3) })
    } else if !kind_at(toks, 4, TokenKind::Semi) {
        Err(DeclError::Syntax { at: pos(s, toks, 4) })
    } else if toks.len() > 5 {
        Err(DeclError::Syntax { at: pos(s, toks, 5) })
    } else if !exists|p: Prim| p.spec_name() == text(s, toks[3]) {
        Err(DeclError::UnsupportedPrimitive { at: pos(s, toks, 3) })
    } else {
        let p = choose|p: Prim| p.spec_name() == text(s, toks[3]);
        if signed_only && !p.is_signed() {
            Err(DeclError::UnsignedOffset { at: pos(s, toks, 3) })
        } else {
            Ok(
                TypeDeclModel {
                    name: text(s, toks[1]),
                    name_at: pos(s, toks, 1),
                    prim: p,
                    prim_at: pos(s, toks, 3),
                },
            )
        }
    }
}

/// What a sequence declaration says.
pub struct SeqDeclModel {
    pub name: Seq<char>,
    pub name_at: usize,
    pub elem: Seq<char>,
}

/// Reads `type <Name> = [<Element>];`.
pub open spec fn parse_seq_decl(s: Seq<char>, toks: Seq<Tok>) -> Result<SeqDeclModel, DeclError> {
    if !word_at(s, toks, 0, "type"@) {
        Err(DeclError::Syntax { at: pos(s, toks, 0) })
    } else if !kind_at(toks, 1, TokenKind::Ident) {
        Err(DeclError::Syntax { at: pos(s, toks, 1) })
    } else if !kind_at(toks, 2, TokenKind::Eq) {
        Err(DeclError::Syntax { at: pos(s, toks, 2) })
    } else if !kind_at(toks, 3, TokenKind::LBracket) {
        Err(DeclError::Syntax { at: pos(s, toks, 3) })
    } else if !kind_at(toks, 4, TokenKind::Ident) {
        Err(DeclError::Syntax { at: pos(s, toks, 4) })
    } else if !kind_at(toks, 5, TokenKind::RBracket) {
        Err(DeclError::Syntax { at: pos(s, toks, 5) })
    } else if !kind_at(toks, 6, TokenKind::Semi) {
        Err(DeclError::Syntax { at: pos(s, toks, 6) })
    } else if toks.len() > 7 {
        Err(DeclError::Syntax { at: pos(s, toks, 7) })
    } else {
        Ok(SeqDeclModel { name: text(s, toks[1]), name_at: pos(s, toks, 1), elem: text(s, toks[4]) })
    }
}

/// What an indexing permission says.
pub struct IndexDeclModel {
    pub seq: Seq<char>,
    pub seq_at: usize,
    pub index: Seq<char>,
    pub index_at: usize,
}

/// Reads `<Sequence>[<Index>]`.
pub open spec fn parse_index_decl(s: Seq<char>, toks: Seq<Tok>) -> Result<IndexDeclModel, DeclError> {
    if !kind_at(toks, 0, TokenKind::Ident) {
        Err(DeclError::Syntax { at: pos(s, toks, 0) })
    } else if !kind_at(toks, 1, TokenKind::LBracket) {
        Err(DeclError::Syntax { at: pos(s, toks, 1) })
    } else if !kind_at(toks, 2, TokenKind::Ident) {
        Err(DeclError::Syntax { at: pos(s, toks, 2) })
    } else if !kind_at(toks, 3, TokenKind::RBracket) {
        Err(DeclError::Syntax { at: pos(s, toks, 3) })
    } else if toks.len() > 4 {
        Err(DeclError::Syntax { at: pos(s, toks, 4) })
    } else {
        Ok(
            IndexDeclModel {
                seq: text(s, toks[0]),
                seq_at: pos(s, toks, 0),
                index: text(s, toks[2]),
                index_at: pos(s, toks, 2),
            },
        )
    }
}

/// Token `i` is an identifier.
fn ident_at(toks: &Vec<Token>, i: usize) -> (r: bool)
    ensures
        r == kind_at(toks@.map_values(|t: Token| t@), i as int, TokenKind::Ident),
{
    i < toks.len() && toks[i].kind == TokenKind::Ident
}

fn is_kind(toks: &Vec<Token>, i: usize, k: TokenKind) -> (r: bool)
    ensures
        r == kind_at(toks@.map_values(|t: Token| t@), i as int, k),
{
    i < toks.len() && toks[i].kind == k
}

/// Where token `i` starts, or `len` past the last token.
fn pos_of(toks: &Vec<Token>, i: usize, len: usize) -> (r: usize)
    ensures
        r == (if i < toks@.len() { toks@[i as int].start } else { len }),
{
    if i < toks.len() {
        toks[i].start
    } else {
        len
    }
}

/// Token `i` is the identifier `w`.
fn word(toks: &Vec<Token>, i: usize, w: &str) -> (r: bool)
    ensures
        r == (i < toks@.len() && toks@[i as int].kind == TokenKind::Ident && toks@[i as int].text@ == w@),
{
    i < toks.len() && toks[i].kind == TokenKind::Ident && toks[i].text == String::from_str(w)
}

proof fn lemma_pos(s: Seq<char>, toks: Seq<Token>, i: int)
    requires
        tokens_of(s, toks),
        0 <= i,
    ensures
        pos(s, lex(s), i) == (if i < toks.len() { toks[i].start } else { s.len() as usize }),
        i < toks.len() ==> text(s, lex(s)[i]) == toks[i].text@,
        i < toks.len() ==> lex(s)[i] == toks[i]@,
        lex(s).len() == toks.len(),
{
    assert(toks.map_values(|t: Token| t@).len() == toks.len());
    if i < toks.len() {
        assert(toks.map_values(|t: Token| t@)[i] == toks[i]@);
    }
}

/// Reads a type declaration from its tokens.
fn type_decl(src: &str, signed_only: bool) -> (r: Result<(String, usize, Prim, usize), DeclError>)
    ensures
        match parse_type_decl(src@, lex(src@), signed_only) {
            Ok(m) => r is Ok && r->Ok_0.0@ == m.name && r->Ok_0.1 == m.name_at && r->Ok_0.2 == m.prim
                && r->Ok_0.3 == m.prim_at,
            Err(e) => r == Err::<(String, usize, Prim, usize), DeclError>(e),
        },
{
    let toks = tokenize(src);
    let len = src.unicode_len();
    let ghost s = src@;
    let ghost lt = lex(s);
    proof {
        reveal_strlit("type");
        lemma_pos(s, toks@, 0);
        lemma_pos(s, toks@, 1);
        lemma_pos(s, toks@, 2);
        lemma_pos(s, toks@, 3);
        lemma_pos(s, toks@, 4);
        lemma_pos(s, toks@, 5);
        assert(lt =~= toks@.map_values(|t: Token| t@));
    }
    if !word(&toks, 0, "type") {
        return Err(DeclError::Syntax { at: pos_of(&toks, 0, len) });
    }
    if !ident_at(&toks, 1) {
        return Err(DeclError::Syntax { at: pos_of(&toks, 1, len) });
    }
    if !is_kind(&toks, 2, TokenKind::Eq) {
        return Err(DeclError::Syntax { at: pos_of(&toks, 2, len) });
    }
    if !ident_at(&toks, 3) {
        return Err(DeclError::Syntax { at: pos_of(&toks, 3, len) });
    }
    if !is_kind(&toks, 4, TokenKind::Semi) {
        return Err(DeclError::Syntax { at: pos_of(&toks, 4, len) });
    }
    if toks.len() > 5 {
        return Err(DeclError::Syntax { at: pos_of(&toks, 5, len) });
    }
    let p = match Prim::from_name(&toks[3].text) {
        None => return Err(DeclError::UnsupportedPrimitive { at: toks[3].start }),
        Some(p) => p,
    };
    proof {
        let q = choose|q: Prim| q.spec_name() == text(s, lt[3]);
        lemma_prim_names_distinct(p, q);
    }
    if signed_only && !p.signed() {
        return Err(DeclError::UnsignedOffset { at: toks[3].start });
    }
    Ok((toks[1].text.clone(), toks[1].start, p, toks[3].start))
}

impl IdxType {
    /// Reads `type <Name> = <primitive>;`.
    pub fn parse(src: &str) -> (r: Result<IdxType, DeclError>)
        ensures
            match parse_type_decl(src@, lex(src@), false) {
                Ok(m) => r is Ok && r->Ok_0.name@ == m.name && r->Ok_0.name_at == m.name_at
                    && r->Ok_0.wrap_type == m.prim && r->Ok_0.wrap_at == m.prim_at,
                Err(e) => r is Err && r->Err_0 == e,
            },
    {
        match type_decl(src, false) {
            Ok((name, name_at, wrap_type, wrap_at)) => Ok(IdxType { name, name_at, wrap_type, wrap_at }),
            Err(e) => Err(e),
        }
    }
}

impl OffsetType {
    /// Reads `type <Name> = <signed primitive>;`.
    pub fn parse(src: &str) -> (r: Result<OffsetType, DeclError>)
        ensures
            match parse_type_decl(src@, lex(src@), true) {
                Ok(m) => r is Ok && r->Ok_0.name@ == m.name && r->Ok_0.name_at == m.name_at
                    && r->Ok_0.wrap_type == m.prim && r->Ok_0.wrap_at == m.prim_at,
                Err(e) => r is Err && r->Err_0 == e,
            },
    {
        match type_decl(src, true) {
            Ok((name, name_at, wrap_type, wrap_at)) => Ok(OffsetType { name, name_at, wrap_type, wrap_at }),
            Err(e) => Err(e),
        }
    }
}

} // verus!

verus! {

impl SeqType {
    /// Reads `type <Name> = [<Element>];`.
    pub fn parse(src: &str) -> (r: Result<SeqType, DeclError>)
        ensures
            match parse_seq_decl(src@, lex(src@)) {
                Ok(m) => r is Ok && r->Ok_0.name@ == m.name && r->Ok_0.name_at == m.name_at
                    && r->Ok_0.of_type@ == m.elem,
                Err(e) => r is Err && r->Err_0 == e,
            },
    {
        let toks = tokenize(src);
        let len = src.unicode_len();
        let ghost s = src@;
        let ghost lt = lex(s);
        proof {
            reveal_strlit("type");
            lemma_pos(s, toks@, 0);
            lemma_pos(s, toks@, 1);
            lemma_pos(s, toks@, 2);
            lemma_pos(s, toks@, 3);
            lemma_pos(s, toks@, 4);
            lemma_pos(s, toks@, 5);
            lemma_pos(s, toks@, 6);
            lemma_pos(s, toks@, 7);
            assert(lt =~= toks@.map_values(|t: Token| t@));
        }
        if !word(&toks, 0, "type") {
            return Err(DeclError::Syntax { at: pos_of(&toks, 0, len) });
        }
        if !ident_at(&toks, 1) {
            return Err(DeclError::Syntax { at: pos_of(&toks, 1, len) });
        }
        if !is_kind(&toks, 2, TokenKind::Eq) {
            return Err(DeclError::Syntax { at: pos_of(&toks, 2, len) });
        }
        if !is_kind(&toks, 3, TokenKind::LBracket) {
            return Err(DeclError::Syntax { at: pos_of(&toks, 3, len) });
        }
        if !ident_at(&toks, 4) {
            return Err(DeclError::Syntax { at: pos_of(&toks, 4, len) });
        }
        if !is_kind(&toks, 5, TokenKind::RBracket) {
            return Err(DeclError::Syntax { at: pos_of(&toks, 5, len) });
        }
        if !is_kind(&toks, 6, TokenKind::Semi) {
            return Err(DeclError::Syntax { at: pos_of(&toks, 6, len) });
        }
        if toks.len() > 7 {
            return Err(DeclError::Syntax { at: pos_of(&toks, 7, len) });
        }
        Ok(SeqType { name: toks[1].text.clone(), name_at: toks[1].start, of_type: toks[4].text.clone() })
    }
}

impl IndexTrait {
    /// Reads `<Sequence>[<Index>]`.
    pub fn parse(src: &str) -> (r: Result<IndexTrait, DeclError>)
        ensures
            match parse_index_decl(src@, lex(src@)) {
                Ok(m) => r is Ok && r->Ok_0.seq@ == m.seq && r->Ok_0.seq_at == m.seq_at
                    && r->Ok_0.index@ == m.index && r->Ok_0.index_at == m.index_at,
                Err(e) => r is Err && r->Err_0 == e,
            },
    {
        let toks = tokenize(src);
        let len = src.unicode_len();
        let ghost s = src@;
        let ghost lt = lex(s);
        proof {
            lemma_pos(s, toks@, 0);
            lemma_pos(s, toks@, 1);
            lemma_pos(s, toks@, 2);
            lemma_pos(s, toks@, 3);
            lemma_pos(s, toks@, 4);
            assert(lt =~= toks@.map_values(|t: Token| t@));
        }
        if !ident_at(&toks, 0) {
            return Err(DeclError::Syntax { at: pos_of(&toks, 0, len) });
        }
        if !is_kind(&toks, 1, TokenKind::LBracket) {
            return Err(DeclError::Syntax { at: pos_of(&toks, 1, len) });
        }
        if !ident_at(&toks, 2) {
            return Err(DeclError::Syntax { at: pos_of(&toks, 2, len) });
        }
        if !is_kind(&toks, 3, TokenKind::RBracket) {
            return Err(DeclError::Syntax { at: pos_of(&toks, 3, len) });
        }
        if toks.len() > 4 {
            return Err(DeclError::Syntax { at: pos_of(&toks, 4, len) });
        }
        Ok(
            IndexTrait {
                seq: toks[0].text.clone(),
                seq_at: toks[0].start,
                index: toks[2].text.clone(),
                index_at: toks[2].start,
            },
        )
    }
}

/// The options read so far: where `base_ops` was written, and the offset
/// type's name with where `offset` and the name were written.
pub struct OptsModel {
    pub base: Option<usize>,
    pub offset: Option<(Seq<char>, usize, usize)>,
}

/// After an item that ends before token `j`: the end of the list, or a
/// comma and more items.
pub open spec fn parse_opts_from(s: Seq<char>, toks: Seq<Tok>, i: nat, acc: OptsModel) -> Result<
    OptsModel,
    DeclError,
>
    decreases toks.len() - i,
{
    let k = i as int;
    if i >= toks.len() {
        Ok(acc)
    } else {
        let item: Result<(OptsModel, nat), DeclError> = if word_at(s, toks, k, "base_ops"@) {
            match acc.base {
                Some(first) => Err(DeclError::Redundant { first, second: pos(s, toks, k) }),
                None => Ok((OptsModel { base: Some(pos(s, toks, k)), ..acc }, i + 1)),
            }
        } else if word_at(s, toks, k, "offset"@) {
            if !kind_at(toks, k + 1, TokenKind::Eq) {
                Err(DeclError::Syntax { at: pos(s, toks, k + 1) })
            } else if !kind_at(toks, k + 2, TokenKind::Ident) {
                Err(DeclError::Syntax { at: pos(s, toks, k + 2) })
            } else {
                match acc.offset {
                    Some((_, first, _)) => Err(DeclError::Redundant { first, second: pos(s, toks, k) }),
                    None => Ok(
                        (
                            OptsModel {
                                offset: Some(
                                    (text(s, toks[k + 2]), pos(s, toks, k), pos(s, toks, k + 2)),
                                ),
                                ..acc
                            },
                            i + 3,
                        ),
                    ),
                }
            }
        } else {
            Err(DeclError::Syntax { at: pos(s, toks, k) })
        };
        match item {
            Err(e) => Err(e),
            Ok((acc2, j)) => if j >= toks.len() {
                Ok(acc2)
            } else if kind_at(toks, j as int, TokenKind::Comma) {
                parse_opts_from(s, toks, j + 1, acc2)
            } else {
                Err(DeclError::Syntax { at: pos(s, toks, j as int) })
            },
        }
    }
}

/// Reads the options of an index type declaration.
pub open spec fn parse_opts(s: Seq<char>, toks: Seq<Tok>) -> Result<OptsModel, DeclError> {
    parse_opts_from(s, toks, 0, OptsModel { base: None, offset: None })
}

impl IdxTypeOptions {
    /// What the options say, in the terms of the grammar.
    pub open spec fn model(self) -> OptsModel {
        OptsModel {
            base: match self.base_ops.0 {
                Some(b) => Some(b.at),
                None => None,
            },
            offset: match self.offset.0 {
                Some(o) => Some((o.offset@, o.at, o.offset_at)),
                None => None,
            },
        }
    }

    /// Reads a comma-separated list of `base_ops` and `offset = <Type>`;
    /// an option given twice is refused with both positions.
    pub fn parse(src: &str) -> (r: Result<IdxTypeOptions, DeclError>)
        ensures
            match parse_opts(src@, lex(src@)) {
                Ok(m) => r is Ok && r->Ok_0.model() == m,
                Err(e) => r is Err && r->Err_0 == e,
            },
    {
        let toks = tokenize(src);
        let len = src.unicode_len();
        let ghost s = src@;
        let ghost lt = lex(s);
        proof {
            reveal_strlit("base_ops");
            reveal_strlit("offset");
            lemma_pos(s, toks@, 0);
            assert(lt =~= toks@.map_values(|t: Token| t@));
        }
        let mut acc = IdxTypeOptions { base_ops: OptionalOpt(None), offset: OptionalOpt(None) };
        let mut i: usize = 0;
        while i < toks.len()
            invariant
                tokens_of(s, toks@),
                s == src@,
                len == s.len(),
                lt == lex(s),
                lt == toks@.map_values(|t: Token| t@),
                parse_opts(s, lt) == parse_opts_from(s, lt, i as nat, acc.model()),
            decreases toks@.len() - i,
        {
            proof {
                lemma_pos(s, toks@, i as int);
                lemma_pos(s, toks@, i + 1);
                lemma_pos(s, toks@, i + 2);
                lemma_pos(s, toks@, i + 3);
            }
            let j: usize;
            if word(&toks, i, "base_ops") {
                match &acc.base_ops.0 {
                    Some(first) => {
                        return Err(DeclError::Redundant { first: first.at, second: toks[i].start });
                    },
                    None => {},
                }
                acc.base_ops = OptionalOpt(Some(BaseOpsOpt { at: toks[i].start }));
                j = i + 1;
            } else if word(&toks, i, "offset") {
                if !is_kind(&toks, i + 1, TokenKind::Eq) {
                    return Err(DeclError::Syntax { at: pos_of(&toks, i + 1, len) });
                }
                if !ident_at(&toks, i + 2) {
                    return Err(DeclError::Syntax { at: pos_of(&toks, i + 2, len) });
                }
                match &acc.offset.0 {
                    Some(first) => {
                        return Err(DeclError::Redundant { first: first.at, second: toks[i].start });
                    },
                    None => {},
                }
                acc.offset = OptionalOpt(
                    Some(
                        OffsetOpt {
                            at: toks[i].start,
                            offset: toks[i + 2].text.clone(),
                            offset_at: toks[i + 2].start,
                        },
                    ),
                );
                j = i + 3;
            } else {
                return Err(DeclError::Syntax { at: toks[i].start });
            }
            proof {
                lemma_pos(s, toks@, j as int);
            }
            if j >= toks.len() {
                return Ok(acc);
            }
            if !is_kind(&toks, j, TokenKind::Comma) {
                return Err(DeclError::Syntax { at: toks[j].start });
            }
            i = j + 1;
        }
        Ok(acc)
    }
}

} // verus!

verus! {

/// The operator of `lhs op rhs => res`.
pub open spec fn bin_kind(k: TokenKind) -> Option<ArithOp> {
    match k {
        TokenKind::Plus => Some(ArithOp::Add),
        TokenKind::Minus => Some(ArithOp::Sub),
        TokenKind::Star => Some(ArithOp::Mul),
        TokenKind::Slash => Some(ArithOp::Div),
        _ => None,
    }
}

/// The operator of `lhs op= rhs`.
pub open spec fn assign_kind(k: TokenKind) -> Option<ArithOp> {
    match k {
        TokenKind::PlusEq => Some(ArithOp::Add),
        TokenKind::MinusEq => Some(ArithOp::Sub),
        TokenKind::StarEq => Some(ArithOp::Mul),
        TokenKind::SlashEq => Some(ArithOp::Div),
        _ => None,
    }
}

/// The relations from token `i` on, after those in `acc`.
pub open spec fn parse_ops_from(s: Seq<char>, toks: Seq<Tok>, i: nat, acc: Seq<RelDecl>) -> Result<
    Seq<RelDecl>,
    DeclError,
>
    decreases toks.len() - i,
{
    let k = i as int;
    if i >= toks.len() {
        Ok(acc)
    } else {
        let item: Result<(RelDecl, nat), DeclError> = if !kind_at(toks, k, TokenKind::Ident) {
            Err(DeclError::Syntax { at: pos(s, toks, k) })
        } else if k + 1 >= toks.len() {
            Err(DeclError::Syntax { at: pos(s, toks, k + 1) })
        } else {
            match (bin_kind(toks[k + 1].kind), assign_kind(toks[k + 1].kind)) {
                (Some(op), _) => if !kind_at(toks, k + 2, TokenKind::Ident) {
                    Err(DeclError::Syntax { at: pos(s, toks, k + 2) })
                } else if !kind_at(toks, k + 3, TokenKind::FatArrow) {
                    Err(DeclError::Syntax { at: pos(s, toks, k + 3) })
                } else if !kind_at(toks, k + 4, TokenKind::Ident) {
                    Err(DeclError::Syntax { at: pos(s, toks, k + 4) })
                } else {
                    Ok(
                        (
                            RelDecl {
                                lhs: text(s, toks[k]),
                                op,
                                assign: false,
                                rhs: text(s, toks[k + 2]),
                                res: text(s, toks[k + 4]),
                                lhs_at: pos(s, toks, k),
                                rhs_at: pos(s, toks, k + 2),
                                res_at: pos(s, toks, k + 4),
                            },
                            i + 5,
                        ),
                    )
                },
                (None, Some(op)) => if !kind_at(toks, k + 2, TokenKind::Ident) {
                    Err(DeclError::Syntax { at: pos(s, toks, k + 2) })
                } else {
                    Ok(
                        (
                            RelDecl {
                                lhs: text(s, toks[k]),
                                op,
                                assign: true,
                                rhs: text(s, toks[k + 2]),
                                res: text(s, toks[k]),
                                lhs_at: pos(s, toks, k),
                                rhs_at: pos(s, toks, k + 2),
                                res_at: pos(s, toks, k),
                            },
                            i + 3,
                        ),
                    )
                },
                (None, None) => Err(DeclError::UnsupportedOperator { at: pos(s, toks, k + 1) }),
            }
        };
        match item {
            Err(e) => Err(e),
            Ok((d, j)) => if j >= toks.len() {
                Ok(acc.push(d))
            } else if kind_at(toks, j as int, TokenKind::Comma) {
                parse_ops_from(s, toks, j + 1, acc.push(d))
            } else {
                Err(DeclError::Syntax { at: pos(s, toks, j as int) })
            },
        }
    }
}

/// Reads a relation list.
pub open spec fn parse_ops(s: Seq<char>, toks: Seq<Tok>) -> Result<Seq<RelDecl>, DeclError> {
    parse_ops_from(s, toks, 0, Seq::empty())
}

fn bin_op_of(k: TokenKind) -> (r: Option<ArithOp>)
    ensures
        r == bin_kind(k),
{
    match k {
        TokenKind::Plus => Some(ArithOp::Add),
        TokenKind::Minus => Some(ArithOp::Sub),
        TokenKind::Star => Some(ArithOp::Mul),
        TokenKind::Slash => Some(ArithOp::Div),
        _ => None,
    }
}

fn assign_op_of(k: TokenKind) -> (r: Option<ArithOp>)
    ensures
        r == assign_kind(k),
{
    match k {
        TokenKind::PlusEq => Some(ArithOp::Add),
        TokenKind::MinusEq => Some(ArithOp::Sub),
        TokenKind::StarEq => Some(ArithOp::Mul),
        TokenKind::SlashEq => Some(ArithOp::Div),
        _ => None,
    }
}

impl Ops {
    /// Reads a comma-separated list of `Lhs op Rhs => Res` and `Lhs op= Rhs`.
    pub fn parse(src: &str) -> (r: Result<Ops, DeclError>)
        ensures
            match parse_ops(src@, lex(src@)) {
                Ok(ds) => r is Ok && rel_decls(r->Ok_0.ops@) == ds,
                Err(e) => r is Err && r->Err_0 == e,
            },
    {
        let toks = tokenize(src);
        let len = src.unicode_len();
        let ghost s = src@;
        let ghost lt = lex(s);
        proof {
            lemma_pos(s, toks@, 0);
            assert(lt =~= toks@.map_values(|t: Token| t@));
        }
        let mut acc: Vec<Op> = Vec::new();
        assert(rel_decls(acc@) =~= Seq::<RelDecl>::empty());
        let mut i: usize = 0;
        while i < toks.len()
            invariant
                tokens_of(s, toks@),
                s == src@,
                len == s.len(),
                lt == lex(s),
                lt == toks@.map_values(|t: Token| t@),
                parse_ops(s, lt) == parse_ops_from(s, lt, i as nat, rel_decls(acc@)),
            decreases toks@.len() - i,
        {
            proof {
                lemma_pos(s, toks@, i as int);
                lemma_pos(s, toks@, i + 1);
                lemma_pos(s, toks@, i + 2);
                lemma_pos(s, toks@, i + 3);
                lemma_pos(s, toks@, i + 4);
                lemma_pos(s, toks@, i + 5);
            }
            if !ident_at(&toks, i) {
                return Err(DeclError::Syntax { at: toks[i].start });
            }
            if i + 1 >= toks.len() {
                return Err(DeclError::Syntax { at: len });
            }
            let op_kind = toks[i + 1].kind;
            let op: Op;
            let j: usize;
            match bin_op_of(op_kind) {
                Some(a) => {
                    if !ident_at(&toks, i + 2) {
                        return Err(DeclError::Syntax { at: pos_of(&toks, i + 2, len) });
                    }
                    if !is_kind(&toks, i + 3, TokenKind::FatArrow) {
                        return Err(DeclError::Syntax { at: pos_of(&toks, i + 3, len) });
                    }
                    if !ident_at(&toks, i + 4) {
                        return Err(DeclError::Syntax { at: pos_of(&toks, i + 4, len) });
                    }
                    op = Op::BinOp(
                        StructBinOp {
                            lhs: toks[i].text.clone(),
                            lhs_at: toks[i].start,
                            op: a,
                            rhs: toks[i + 2].text.clone(),
                            rhs_at: toks[i + 2].start,
                            res: toks[i + 4].text.clone(),
                            res_at: toks[i + 4].start,
                        },
                    );
                    j = i + 5;
                },
                None => match assign_op_of(op_kind) {
                    Some(a) => {
                        if !ident_at(&toks, i + 2) {
                            return Err(DeclError::Syntax { at: pos_of(&toks, i + 2, len) });
                        }
                        op = Op::AssignOp(
                            StructAssignOp {
                                lhs: toks[i].text.clone(),
                                lhs_at: toks[i].start,
                                op: a,
                                rhs: toks[i + 2].text.clone(),
                                rhs_at: toks[i + 2].start,
                            },
                        );
                        j = i + 3;
                    },
                    None => {
                        return Err(DeclError::UnsupportedOperator { at: toks[i + 1].start });
                    },
                },
            }
            let ghost before = rel_decls(acc@);
            acc.push(op);
            assert(rel_decls(acc@) =~= before.push(acc@[acc@.len() - 1]@));
            if j >= toks.len() {
                return Ok(Ops { ops: acc });
            }
            if !is_kind(&toks, j, TokenKind::Comma) {
                return Err(DeclError::Syntax { at: toks[j].start });
            }
            i = j + 1;
        }
        Ok(Ops { ops: acc })
    }
}

} // verus!

verus! {

/// An option list that starts `offset = A, offset = B` is refused, naming
/// where the first `offset` and the second were written.
pub proof fn lemma_offset_twice(s: Seq<char>)
    requires
        word_at(s, lex(s), 0, "offset"@),
        kind_at(lex(s), 1, TokenKind::Eq),
        kind_at(lex(s), 2, TokenKind::Ident),
        kind_at(lex(s), 3, TokenKind::Comma),
        word_at(s, lex(s), 4, "offset"@),
        kind_at(lex(s), 5, TokenKind::Eq),
        kind_at(lex(s), 6, TokenKind::Ident),
    ensures
        parse_opts(s, lex(s)) == Err::<OptsModel, DeclError>(
            DeclError::Redundant { first: lex(s)[0].start as usize, second: lex(s)[4].start as usize },
        ),
{
    reveal_strlit("offset");
    reveal_strlit("base_ops");
    let toks = lex(s);
    let first = OptsModel {
        base: None,
        offset: Some((text(s, toks[2]), pos(s, toks, 0), pos(s, toks, 2))),
    };
    assert("offset"@.len() == 6);
    assert("base_ops"@.len() == 8);
    assert(!word_at(s, toks, 0, "base_ops"@));
    assert(!word_at(s, toks, 4, "base_ops"@));
    assert(parse_opts(s, toks) == parse_opts_from(s, toks, 4, first));
}

} // verus!
