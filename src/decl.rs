//! Descriptors of declarations, as the parser reads them and the registry
//! takes them, and the relations that declaration options stand for.
use vstd::prelude::*;
use crate::prim::Prim;
use crate::registry::{ArithOp, RelDecl};

verus! {

/// `type <name> = <wrap_type>;` for an index type.
pub struct IdxType {
    pub name: String,
    pub name_at: usize,
    pub wrap_type: Prim,
    pub wrap_at: usize,
}

/// `type <name> = <wrap_type>;` for an offset type; `wrap_type` is signed.
pub struct OffsetType {
    pub name: String,
    pub name_at: usize,
    pub wrap_type: Prim,
    pub wrap_at: usize,
}

/// `type <name> = [<of_type>];` for a sequence type.
pub struct SeqType {
    pub name: String,
    pub name_at: usize,
    pub of_type: String,
}

/// The `base_ops` option, and where it was written.
pub struct BaseOpsOpt {
    pub at: usize,
}

/// The `offset = <offset>` option, where it was written, and where the
/// offset type's name was written.
pub struct OffsetOpt {
    pub at: usize,
    pub offset: String,
    pub offset_at: usize,
}

/// An option that may be left out.
pub struct OptionalOpt<T>(pub Option<T>);

/// The options of an index type declaration, each given at most once.
pub struct IdxTypeOptions {
    pub base_ops: OptionalOpt<BaseOpsOpt>,
    pub offset: OptionalOpt<OffsetOpt>,
}

/// `lhs op rhs => res`.
pub struct StructBinOp {
    pub lhs: String,
    pub lhs_at: usize,
    pub op: ArithOp,
    pub rhs: String,
    pub rhs_at: usize,
    pub res: String,
    pub res_at: usize,
}

/// `lhs op= rhs`.
pub struct StructAssignOp {
    pub lhs: String,
    pub lhs_at: usize,
    pub op: ArithOp,
    pub rhs: String,
    pub rhs_at: usize,
}

/// One relation of a relation list.
pub enum Op {
    BinOp(StructBinOp),
    AssignOp(StructAssignOp),
}

/// A relation list.
pub struct Ops {
    pub ops: Vec<Op>,
}

/// `<seq>[<index>]`: values of `index` may subscript sequences of `seq`.
pub struct IndexTrait {
    pub seq: String,
    pub seq_at: usize,
    pub index: String,
    pub index_at: usize,
}

impl View for Op {
    type V = RelDecl;

    open spec fn view(&self) -> RelDecl {
        match self {
            Op::BinOp(b) => RelDecl {
                lhs: b.lhs@,
                op: b.op,
                assign: false,
                rhs: b.rhs@,
                res: b.res@,
                lhs_at: b.lhs_at,
                rhs_at: b.rhs_at,
                res_at: b.res_at,
            },
            Op::AssignOp(a) => RelDecl {
                lhs: a.lhs@,
                op: a.op,
                assign: true,
                rhs: a.rhs@,
                res: a.lhs@,
                lhs_at: a.lhs_at,
                rhs_at: a.rhs_at,
                res_at: a.lhs_at,
            },
        }
    }
}

/// The relations of a list, in order.
pub open spec fn rel_decls(ops: Seq<Op>) -> Seq<RelDecl> {
    ops.map_values(|o: Op| o@)
}

/// `lhs op rhs => res`, every name written at `at`.
pub open spec fn bin(lhs: Seq<char>, op: ArithOp, rhs: Seq<char>, res: Seq<char>, at: usize) -> RelDecl {
    RelDecl { lhs, op, assign: false, rhs, res, lhs_at: at, rhs_at: at, res_at: at }
}

/// `lhs op= rhs`, every name written at `at`.
pub open spec fn asg(lhs: Seq<char>, op: ArithOp, rhs: Seq<char>, at: usize) -> RelDecl {
    RelDecl { lhs, op, assign: true, rhs, res: lhs, lhs_at: at, rhs_at: at, res_at: at }
}

/// What `base_ops` stands for on type `t` over primitive `p`: each of
/// `t op p => t` and `p op t => t` for the four operators, and `t op= p`.
pub open spec fn base_ops_rels(t: Seq<char>, p: Seq<char>, at: usize) -> Seq<RelDecl> {
    seq![
        bin(t, ArithOp::Add, p, t, at),
        bin(p, ArithOp::Add, t, t, at),
        bin(t, ArithOp::Sub, p, t, at),
        bin(p, ArithOp::Sub, t, t, at),
        bin(t, ArithOp::Mul, p, t, at),
        bin(p, ArithOp::Mul, t, t, at),
        bin(t, ArithOp::Div, p, t, at),
        bin(p, ArithOp::Div, t, t, at),
        asg(t, ArithOp::Add, p, at),
        asg(t, ArithOp::Sub, p, at),
        asg(t, ArithOp::Mul, p, at),
        asg(t, ArithOp::Div, p, at),
    ]
}

/// What `offset = o` stands for on type `t`: `t - t => o`, `t + o => t`,
/// `o + t => t`, `t += o` and `t -= o`.
pub open spec fn offset_rels(t: Seq<char>, o: Seq<char>, at: usize) -> Seq<RelDecl> {
    seq![
        bin(t, ArithOp::Sub, t, o, at),
        bin(t, ArithOp::Add, o, t, at),
        bin(o, ArithOp::Add, t, t, at),
        asg(t, ArithOp::Add, o, at),
        asg(t, ArithOp::Sub, o, at),
    ]
}

/// What declaring offset type `t` over primitive `p` stands for: `t + t => t`,
/// `t - t => t`, `t += t`, `t -= t`, and the base operations with `p`.
pub open spec fn offset_type_rels(t: Seq<char>, p: Seq<char>, at: usize) -> Seq<RelDecl> {
    seq![
        bin(t, ArithOp::Add, t, t, at),
        bin(t, ArithOp::Sub, t, t, at),
        asg(t, ArithOp::Add, t, at),
        asg(t, ArithOp::Sub, t, at),
    ] + base_ops_rels(t, p, at)
}

fn bin_op(lhs: &String, op: ArithOp, rhs: &String, res: &String, at: usize) -> (r: Op)
    ensures
        r@ == bin(lhs@, op, rhs@, res@, at),
{
    Op::BinOp(
        StructBinOp {
            lhs: lhs.clone(),
            lhs_at: at,
            op,
            rhs: rhs.clone(),
            rhs_at: at,
            res: res.clone(),
            res_at: at,
        },
    )
}

fn asg_op(lhs: &String, op: ArithOp, rhs: &String, at: usize) -> (r: Op)
    ensures
        r@ == asg(lhs@, op, rhs@, at),
{
    Op::AssignOp(StructAssignOp { lhs: lhs.clone(), lhs_at: at, op, rhs: rhs.clone(), rhs_at: at })
}

/// The relations that `base_ops` stands for on type `t` over `p`.
pub fn base_ops(t: &String, p: &String, at: usize) -> (r: Vec<Op>)
    ensures
        rel_decls(r@) == base_ops_rels(t@, p@, at),
{
    let mut r: Vec<Op> = Vec::new();
    r.push(bin_op(t, ArithOp::Add, p, t, at));
    r.push(bin_op(p, ArithOp::Add, t, t, at));
    r.push(bin_op(t, ArithOp::Sub, p, t, at));
    r.push(bin_op(p, ArithOp::Sub, t, t, at));
    r.push(bin_op(t, ArithOp::Mul, p, t, at));
    r.push(bin_op(p, ArithOp::Mul, t, t, at));
    r.push(bin_op(t, ArithOp::Div, p, t, at));
    r.push(bin_op(p, ArithOp::Div, t, t, at));
    r.push(asg_op(t, ArithOp::Add, p, at));
    r.push(asg_op(t, ArithOp::Sub, p, at));
    r.push(asg_op(t, ArithOp::Mul, p, at));
    r.push(asg_op(t, ArithOp::Div, p, at));
    assert(rel_decls(r@) =~= base_ops_rels(t@, p@, at));
    r
}

/// The relations that `offset = o` stands for on type `t`.
pub fn offset_ops(t: &String, o: &String, at: usize) -> (r: Vec<Op>)
    ensures
        rel_decls(r@) == offset_rels(t@, o@, at),
{
    let mut r: Vec<Op> = Vec::new();
    r.push(bin_op(t, ArithOp::Sub, t, o, at));
    r.push(bin_op(t, ArithOp::Add, o, t, at));
    r.push(bin_op(o, ArithOp::Add, t, t, at));
    r.push(asg_op(t, ArithOp::Add, o, at));
    r.push(asg_op(t, ArithOp::Sub, o, at));
    assert(rel_decls(r@) =~= offset_rels(t@, o@, at));
    r
}

/// The relations that declaring offset type `t` over `p` stands for.
pub fn offset_type_ops(t: &String, p: &String, at: usize) -> (r: Vec<Op>)
    ensures
        rel_decls(r@) == offset_type_rels(t@, p@, at),
{
    let mut r: Vec<Op> = Vec::new();
    r.push(bin_op(t, ArithOp::Add, t, t, at));
    r.push(bin_op(t, ArithOp::Sub, t, t, at));
    r.push(asg_op(t, ArithOp::Add, t, at));
    r.push(asg_op(t, ArithOp::Sub, t, at));
    let mut rest = base_ops(t, p, at);
    r.append(&mut rest);
    assert(rel_decls(r@) =~= offset_type_rels(t@, p@, at));
    r
}

} // verus!

verus! {

/// The relations that the options of an index type declaration stand for:
/// those of `base_ops`, then those of `offset = o`.
pub open spec fn idx_type_rels(opts: IdxTypeOptions, t: IdxType) -> Seq<RelDecl> {
    let base = match opts.base_ops.0 {
        Some(b) => base_ops_rels(t.name@, t.wrap_type.spec_name(), b.at),
        None => Seq::empty(),
    };
    let offset = match opts.offset.0 {
        Some(o) => offset_rels(t.name@, o.offset@, o.offset_at),
        None => Seq::empty(),
    };
    base + offset
}

/// The relations that an offset type declaration stands for.
pub open spec fn offset_decl_rels(t: OffsetType) -> Seq<RelDecl> {
    offset_type_rels(t.name@, t.wrap_type.spec_name(), t.name_at)
}

/// The relations that the options of an index type declaration stand for.
pub fn idx_type_ops(opts: &IdxTypeOptions, t: &IdxType) -> (r: Vec<Op>)
    ensures
        rel_decls(r@) == idx_type_rels(*opts, *t),
{
    let mut r: Vec<Op> = Vec::new();
    match &opts.base_ops.0 {
        Some(b) => {
            let p = t.wrap_type.name();
            let mut more = base_ops(&t.name, &p, b.at);
            r.append(&mut more);
        },
        None => {},
    }
    match &opts.offset.0 {
        Some(o) => {
            let mut more = offset_ops(&t.name, &o.offset, o.offset_at);
            r.append(&mut more);
        },
        None => {},
    }
    assert(rel_decls(r@) =~= idx_type_rels(*opts, *t));
    r
}

} // verus!
