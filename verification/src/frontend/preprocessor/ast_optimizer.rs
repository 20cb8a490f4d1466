//! Optimization of constant conditions and removal of empty statements.
use vstd::prelude::*;

use crate::frontend::ast::{Block, BlockItem, Class, Expression, ExpressionKind, Function, Reference, Statement, StatementKind};
use crate::frontend::error::FrontendError;
use crate::meta::{LocationMeta, Meta};
use crate::util::env::Env;
use crate::util::mapper::AstMapper;

verus! {

broadcast use {vstd::std_specs::vec::axiom_vec_decreases_to_view, vstd::std_specs::vec::axiom_vec_index_decreases};

/// the block holds no empty statement
pub open spec fn no_empty_statements<MetaT>(b: Block<MetaT>) -> bool {
    forall|i: int| 0 <= i < b.item.stmts@.len() ==> !((*#[trigger] b.item.stmts@[i]).item is Empty)
}

/// the statement that a conditional with a constant condition stands for (the statement
/// itself otherwise)
pub open spec fn folded(s: Statement<LocationMeta>) -> Option<Statement<LocationMeta>> {
    match s.item {
        StatementKind::Cond { expr, stmt } => match expr.item {
            ExpressionKind::LitBool { val } => if val {
                Some(*stmt)
            } else {
                Some(Meta { item: StatementKind::Empty, meta: stmt.meta })
            },
            _ => None,
        },
        StatementKind::CondElse { expr, stmt_true, stmt_false } => match expr.item {
            ExpressionKind::LitBool { val } => if val { Some(*stmt_true) } else { Some(*stmt_false) },
            _ => None,
        },
        _ => None,
    }
}

/// the statement stands for no statement after optimization: it is empty, or a conditional
/// with a constant condition whose branch taken is empty or missing
pub open spec fn vanishes(s: Statement<LocationMeta>) -> bool {
    &&& !(s.item is Block)
    &&& match folded(s) {
        Some(f) => f.item is Empty,
        None => s.item is Empty,
    }
}

/// `r` is the optimized statement `s`: a block has its statements optimized, a conditional with
/// a constant condition becomes the branch that is taken, and other statements are unchanged
pub open spec fn stmt_optimized(s: Statement<LocationMeta>, r: Statement<LocationMeta>) -> bool
    decreases s,
{
    match s.item {
        StatementKind::Block { block } => r.meta == s.meta && (r.item matches StatementKind::Block { block: rb }
            && block_optimized(block, rb)),
        _ => match folded(s) {
            Some(f) => r == f,
            None => r == s,
        },
    }
}

/// `rb` is the block `b` with its statements optimized and those that vanish left out
pub open spec fn block_optimized(b: Block<LocationMeta>, rb: Block<LocationMeta>) -> bool
    decreases b,
{
    rb.meta == b.meta && stmts_optimized(b.item.stmts@, rb.item.stmts@)
}

/// `g` is the function `f` with its body optimized
pub open spec fn function_optimized(f: Function<LocationMeta>, g: Function<LocationMeta>) -> bool {
    &&& g.item.ident == f.item.ident
    &&& g.item.ret == f.item.ret
    &&& g.item.args == f.item.args
    &&& g.meta == f.meta
    &&& no_empty_statements(g.item.block)
    &&& block_optimized(f.item.block, g.item.block)
}

/// `rs` are the statements `ss`, optimized, without those that vanish
pub open spec fn stmts_optimized(ss: Seq<Box<Statement<LocationMeta>>>, rs: Seq<Box<Statement<LocationMeta>>>) -> bool
    decreases ss,
{
    if ss.len() == 0 {
        rs.len() == 0
    } else if vanishes(*ss.last()) {
        stmts_optimized(ss.drop_last(), rs)
    } else {
        rs.len() >= 1 && stmts_optimized(ss.drop_last(), rs.drop_last()) && stmt_optimized(*ss.last(), *rs.last())
    }
}

/// optimizer of constant conditions: a conditional statement with a constant condition is
/// replaced by the branch that is taken, and empty statements are removed from blocks
pub struct AstOptimizer;

impl AstMapper<LocationMeta, LocationMeta, FrontendError<LocationMeta>> for AstOptimizer {
    open spec fn mapper_inv(&self) -> bool {
        true
    }

    open spec fn infallible() -> bool {
        true
    }

    open spec fn function_mapped(from: Function<LocationMeta>, to: Function<LocationMeta>) -> bool {
        &&& to.item.ident == from.item.ident
        &&& no_empty_statements(to.item.block)
        &&& block_optimized(from.item.block, to.item.block)
    }

    fn map_var_reference(&mut self, r: Reference<LocationMeta>) -> (res: Result<Reference<LocationMeta>, Vec<FrontendError<LocationMeta>>>)
        ensures
            res == Ok::<Reference<LocationMeta>, Vec<FrontendError<LocationMeta>>>(r),
    {
        Ok(r)
    }

    fn map_func_reference(&mut self, r: Reference<LocationMeta>) -> (res: Result<Reference<LocationMeta>, Vec<FrontendError<LocationMeta>>>)
        ensures
            res == Ok::<Reference<LocationMeta>, Vec<FrontendError<LocationMeta>>>(r),
    {
        Ok(r)
    }

    /// statements of the block, optimized, without the empty ones
    fn map_block(&mut self, block: Block<LocationMeta>) -> (res: Result<Block<LocationMeta>, Vec<FrontendError<LocationMeta>>>)
        ensures
            res matches Ok(b) && no_empty_statements(b) && block_optimized(block, b),
        decreases block, 0nat,
    {
        let meta = block.meta;
        let ghost b0 = block;
        let ghost all = block.item.stmts@;
        let mut rest = block.item.stmts;
        let total = rest.len();
        let mut k: usize = 0;
        let mut mapped_stmts: Vec<Box<Statement<LocationMeta>>> = Vec::new();
        while rest.len() > 0
            invariant
                all.len() == total,
                rest@.len() + k == total,
                forall|i: int| 0 <= i < rest@.len() ==> rest@[i] == all[k + i],
                b0.item.stmts@ == all,
                b0 == block,
                forall|i: int| 0 <= i < mapped_stmts@.len() ==> !((*#[trigger] mapped_stmts@[i]).item is Empty),
                stmts_optimized(all.subrange(0, k as int), mapped_stmts@),
            decreases rest.len(),
        {
            let stmt = rest.remove(0);
            proof {
                assert(stmt == all[k as int]);
                assert(decreases_to!(b0 => *stmt));
                assert(all.subrange(0, k + 1).drop_last() =~= all.subrange(0, k as int));
            }
            let ghost before = mapped_stmts@;
            match self.map_statement(*stmt) {
                Ok(mapped) => {
                    if !(match mapped.item {
                        StatementKind::Empty => true,
                        _ => false,
                    }) {
                        mapped_stmts.push(Box::new(mapped));
                        proof {
                            assert(mapped_stmts@.drop_last() =~= before);
                        }
                    }
                },
                Err(_) => {},
            }
            k += 1;
        }
        proof {
            assert(all.subrange(0, total as int) =~= all);
        }
        Ok(Meta::new(BlockItem { stmts: mapped_stmts }, meta))
    }

    fn map_expression(&mut self, expr: Expression<LocationMeta>) -> (res: Result<Expression<LocationMeta>, Vec<FrontendError<LocationMeta>>>)
        ensures
            res == Ok::<Expression<LocationMeta>, Vec<FrontendError<LocationMeta>>>(expr),
    {
        Ok(expr)
    }

    /// a conditional statement with a constant condition becomes the branch that is taken
    /// (an empty statement when there is none); blocks are optimized, and other statements
    /// are kept as they are
    fn map_statement(&mut self, stmt: Statement<LocationMeta>) -> (res: Result<Statement<LocationMeta>, Vec<FrontendError<LocationMeta>>>)
        ensures
            res matches Ok(r) && stmt_optimized(stmt, r) && (r.item is Empty <==> vanishes(stmt)),
            stmt.item is Block ==> (res matches Ok(s) && (s.item matches StatementKind::Block { block }
                && no_empty_statements(block))),
            stmt.item matches StatementKind::CondElse { expr, stmt_true, .. } ==> (expr.item == (ExpressionKind::<LocationMeta>::LitBool { val: true })
                ==> res == Ok::<Statement<LocationMeta>, Vec<FrontendError<LocationMeta>>>(*stmt_true)),
            stmt.item matches StatementKind::CondElse { expr, stmt_false, .. } ==> (expr.item == (ExpressionKind::<LocationMeta>::LitBool { val: false })
                ==> res == Ok::<Statement<LocationMeta>, Vec<FrontendError<LocationMeta>>>(*stmt_false)),
            stmt.item matches StatementKind::Cond { expr, stmt: inner } ==> (expr.item == (ExpressionKind::<LocationMeta>::LitBool { val: true })
                ==> res == Ok::<Statement<LocationMeta>, Vec<FrontendError<LocationMeta>>>(*inner)),
            stmt.item matches StatementKind::Cond { expr, .. } ==> (expr.item == (ExpressionKind::<LocationMeta>::LitBool { val: false })
                ==> (res matches Ok(r) && r.item is Empty)),
        decreases stmt, 1nat,
    {
        let ghost s0 = stmt;
        let meta = stmt.meta;
        match stmt.item {
            StatementKind::Block { block } => {
                proof {
                    assert(decreases_to!(s0 => block));
                }
                match self.map_block(block) {
                    Ok(mapped_block) => Ok(Meta::new(StatementKind::Block { block: mapped_block }, meta)),
                    Err(e) => Err(e),
                }
            },
            StatementKind::Cond { expr, stmt: cond_stmt } => {
                let constant = match &expr.item {
                    ExpressionKind::LitBool { val } => Some(*val),
                    _ => None,
                };
                match constant {
                    Some(true) => Ok(*cond_stmt),
                    Some(false) => Ok(Meta::new(StatementKind::Empty, cond_stmt.meta)),
                    None => Ok(Meta::new(StatementKind::Cond { expr, stmt: cond_stmt }, meta)),
                }
            },
            StatementKind::CondElse { expr, stmt_true, stmt_false } => {
                let constant = match &expr.item {
                    ExpressionKind::LitBool { val } => Some(*val),
                    _ => None,
                };
                match constant {
                    Some(true) => Ok(*stmt_true),
                    Some(false) => Ok(*stmt_false),
                    None => Ok(Meta::new(StatementKind::CondElse { expr, stmt_true, stmt_false }, meta)),
                }
            },
            item => Ok(Meta::new(item, meta)),
        }
    }

    /// the methods of the class are optimized
    fn map_class(&mut self, class: Class<LocationMeta>) -> (res: Result<Class<LocationMeta>, Vec<FrontendError<LocationMeta>>>)
        ensures
            res matches Ok(c) && c.item.ident == class.item.ident && c.item.parent == class.item.parent
                && c.item.vars == class.item.vars && c.meta == class.meta
                && c.item.methods.keys() == class.item.methods.keys()
                && c.item.methods.entries@.len() == class.item.methods.entries@.len()
                && forall|i: int| 0 <= i < class.item.methods.entries@.len() ==> function_optimized(
                    class.item.methods.entries@[i].1, #[trigger] c.item.methods.entries@[i].1),
    {
        let meta = class.meta;
        let ident = class.item.ident;
        let vars = class.item.vars;
        let parent = class.item.parent;
        let ghost keys = class.item.methods.keys();
        let mut rest = class.item.methods.entries;
        let ghost all = rest@;
        let total = rest.len();
        let mut k: usize = 0;
        let mut methods: Vec<(String, Function<LocationMeta>)> = Vec::new();
        while rest.len() > 0
            invariant
                all.len() == total,
                rest@.len() + k == total,
                forall|i: int| 0 <= i < rest@.len() ==> rest@[i] == all[k + i],
                keys == crate::util::env::keys_of(all),
                methods@.len() == k,
                forall|i: int| 0 <= i < k ==> (#[trigger] methods@[i]).0 == all[i].0,
                forall|i: int| 0 <= i < k ==> function_optimized(all[i].1, (#[trigger] methods@[i]).1),
            decreases rest.len(),
        {
            let (name, method) = rest.remove(0);
            match self.map_function(method) {
                Ok(mapped) => methods.push((name, mapped)),
                Err(_) => {
                    assert(false);
                },
            }
            k += 1;
        }
        let methods = Env { entries: methods };
        proof {
            assert(methods.keys() =~= keys);
            assert(all == class.item.methods.entries@);
        }
        Ok(Meta::new(crate::frontend::ast::ClassItem { ident, vars, methods, parent }, meta))
    }

    /// the body of the function is optimized
    fn map_function(&mut self, function: Function<LocationMeta>) -> (res: Result<Function<LocationMeta>, Vec<FrontendError<LocationMeta>>>)
        ensures
            res matches Ok(f) && f.item.ident == function.item.ident && f.item.ret == function.item.ret
                && f.item.args == function.item.args && f.meta == function.meta && no_empty_statements(f.item.block)
                && block_optimized(function.item.block, f.item.block),
    {
        let meta = function.meta;
        let item = function.item;
        match self.map_block(item.block) {
            Ok(block) => Ok(Meta::new(crate::frontend::ast::FunctionItem { ret: item.ret, ident: item.ident, args: item.args, block }, meta)),
            Err(e) => Err(e),
        }
    }
}

/// Folding a conditional statement with `else` whose condition is the constant `false` gives
/// its `else` branch, the statement that runs when the condition is false; with `true`, it gives
/// its `then` branch.
pub proof fn law_constant_condition_takes_its_branch(s: Statement<LocationMeta>, r: Statement<LocationMeta>)
    requires
        stmt_optimized(s, r),
    ensures
        s.item matches StatementKind::CondElse { expr, stmt_false, .. } ==>
            (expr.item == (ExpressionKind::<LocationMeta>::LitBool { val: false }) ==> r == *stmt_false),
        s.item matches StatementKind::CondElse { expr, stmt_true, .. } ==>
            (expr.item == (ExpressionKind::<LocationMeta>::LitBool { val: true }) ==> r == *stmt_true),
        s.item matches StatementKind::Cond { expr, stmt } ==>
            (expr.item == (ExpressionKind::<LocationMeta>::LitBool { val: true }) ==> r == *stmt),
        s.item matches StatementKind::Cond { expr, .. } ==>
            (expr.item == (ExpressionKind::<LocationMeta>::LitBool { val: false }) ==> r.item is Empty),
{
}

} // verus!
