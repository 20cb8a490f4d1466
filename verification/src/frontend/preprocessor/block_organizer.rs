//! Organization of blocks so that every path through a function ends with a return.
use vstd::prelude::*;

use crate::frontend::ast::{Block, BlockItem, Class, ClassItem, Expression, Function, FunctionItem, Reference, Statement, StatementKind};
use crate::frontend::error::FrontendError;
use crate::meta::{LocationMeta, Meta};
use crate::util::env::Env;
use crate::util::mapper::AstMapper;

verus! {

broadcast use {vstd::std_specs::vec::axiom_vec_decreases_to_view, vstd::std_specs::vec::axiom_vec_index_decreases};

/// every path through the statement ends with a return: it is a return, a conditional whose
/// two branches end with a return, or a block that ends with a return
pub open spec fn ends_in_return<MetaT>(s: Statement<MetaT>) -> bool
    decreases s, 0nat,
{
    match s.item {
        StatementKind::Return { .. } => true,
        StatementKind::CondElse { stmt_true, stmt_false, .. } => ends_in_return(*stmt_true) && ends_in_return(*stmt_false),
        StatementKind::Block { block } => block_returns(block),
        _ => false,
    }
}

/// the block is not empty and its last statement ends with a return
pub open spec fn block_returns<MetaT>(b: Block<MetaT>) -> bool
    decreases b, 1nat,
{
    &&& b.item.stmts@.len() > 0
    &&& ends_in_return(*b.item.stmts@.last())
}

/// position of the first return statement (or the number of statements, if there is none)
pub open spec fn first_return(stmts: Seq<Box<Statement<LocationMeta>>>) -> int
    decreases stmts.len(),
{
    if stmts.len() == 0 {
        0
    } else if stmts[0].item is Return {
        0
    } else {
        1 + first_return(stmts.drop_first())
    }
}

/// the number of statements of a block that are kept: those up to the first return
pub open spec fn kept_count(stmts: Seq<Box<Statement<LocationMeta>>>) -> int {
    if first_return(stmts) < stmts.len() {
        first_return(stmts) + 1
    } else {
        stmts.len() as int
    }
}

/// a return without value at the given location
pub open spec fn void_return(meta: LocationMeta) -> Statement<LocationMeta> {
    Meta { item: StatementKind::Return { expr: None }, meta }
}

/// `r` is the statement `s` organized to end with a return: a return is kept, both branches of
/// a conditional are organized, a block is organized, and any other statement becomes a block
/// of itself followed by a return without value
pub open spec fn stmt_organized(s: Statement<LocationMeta>, r: Statement<LocationMeta>) -> bool
    decreases s,
{
    &&& r.meta == s.meta
    &&& match s.item {
        StatementKind::Return { .. } => r == s,
        StatementKind::CondElse { expr, stmt_true, stmt_false } => r.item matches StatementKind::CondElse {
            expr: e2, stmt_true: t2, stmt_false: f2 } && e2 == expr
            && stmt_organized(*stmt_true, *t2) && stmt_organized(*stmt_false, *f2),
        StatementKind::Block { block } => r.item matches StatementKind::Block { block: rb } && block_organized(block, rb),
        _ => r.item matches StatementKind::Block { block: rb } && rb.meta == s.meta && rb.item.stmts@.len() == 2
            && *rb.item.stmts@[0] == s && *rb.item.stmts@[1] == void_return(s.meta),
    }
}

/// `g` is the function `f` with its body organized
pub open spec fn function_organized(f: Function<LocationMeta>, g: Function<LocationMeta>) -> bool {
    &&& g.item.ident == f.item.ident
    &&& g.item.ret == f.item.ret
    &&& g.item.args == f.item.args
    &&& g.meta == f.meta
    &&& block_returns(g.item.block)
    &&& block_organized(f.item.block, g.item.block)
}

/// `rb` is the block `b` organized: its statements up to the first return are kept, the last
/// of them organized (an empty block gets a return without value)
pub open spec fn block_organized(b: Block<LocationMeta>, rb: Block<LocationMeta>) -> bool
    decreases b,
{
    let n = kept_count(b.item.stmts@);
    &&& rb.meta == b.meta
    &&& if n == 0 {
        rb.item.stmts@.len() == 1 && *rb.item.stmts@[0] == void_return(b.meta)
    } else {
        &&& rb.item.stmts@.len() == n
        &&& forall|i: int| 0 <= i < n - 1 ==> #[trigger] rb.item.stmts@[i] == b.item.stmts@[i]
        &&& 0 < n <= b.item.stmts@.len() && stmt_organized(*b.item.stmts@[n - 1], *rb.item.stmts@[n - 1])
    }
}

/// organizer of blocks: statements after a return are dropped, and a block whose last statement
/// does not return gets a `return` at its end
pub struct BlockOrganizer;

impl AstMapper<LocationMeta, LocationMeta, FrontendError<LocationMeta>> for BlockOrganizer {
    open spec fn mapper_inv(&self) -> bool {
        true
    }

    open spec fn infallible() -> bool {
        true
    }

    open spec fn function_mapped(from: Function<LocationMeta>, to: Function<LocationMeta>) -> bool {
        &&& to.item.ident == from.item.ident
        &&& block_returns(to.item.block)
        &&& block_organized(from.item.block, to.item.block)
    }

    fn map_var_reference(&mut self, r: Reference<LocationMeta>) -> (res: Result<Reference<LocationMeta>, Vec<FrontendError<LocationMeta>>>)
        ensures
            res == Ok::<Reference<LocationMeta>, Vec<FrontendError<LocationMeta>>>(r),
    {
        Ok(r)
    }

    fn map_func_reference(&mut self, r: Reference<LocationMeta>) -> (res: Result<Reference<LocationMeta>, Vec<FrontendError<LocationMeta>>>)
        ensures
            res == Ok::<Reference<LocationMeta>, Vec<FrontendError<LocationMeta>>>(r),
    {
        Ok(r)
    }

    /// ensures there is a return at the end of every possible path through the block: the
    /// statements up to the first return are kept, and the last of them is organized
    fn map_block(&mut self, block: Block<LocationMeta>) -> (res: Result<Block<LocationMeta>, Vec<FrontendError<LocationMeta>>>)
        ensures
            res matches Ok(b) && block_organized(block, b),
            res matches Ok(b) && block_returns(b) && b.meta == block.meta && ({
                let n = if first_return(block.item.stmts@) < block.item.stmts@.len() {
                    first_return(block.item.stmts@) + 1
                } else {
                    block.item.stmts@.len() as int
                };
                &&& b.item.stmts@.len() == if n == 0 { 1 } else { n }
                &&& forall|i: int| 0 <= i < n - 1 ==> #[trigger] b.item.stmts@[i] == block.item.stmts@[i]
            }),
        decreases block, 2nat,
    {
        let meta = block.meta;
        let ghost b0 = block;
        let ghost all = block.item.stmts@;
        let mut rest = block.item.stmts;
        let total = rest.len();
        let mut k: usize = 0;

        // remove anything after the first return statement
        let mut filtered_stmts: Vec<Box<Statement<LocationMeta>>> = Vec::new();
        let mut done = false;
        proof {
            lemma_first_return_bounds(all);
        }
        while rest.len() > 0 && !done
            invariant
                all.len() == total,
                rest@.len() + k == total,
                forall|i: int| 0 <= i < rest@.len() ==> rest@[i] == all[k + i],
                filtered_stmts@ == all.subrange(0, k as int),
                done ==> k >= 1 && first_return(all) == k - 1,
                !done ==> first_return(all) >= k,
            decreases rest.len(),
        {
            let stmt = rest.remove(0);
            let is_return = match stmt.item {
                StatementKind::Return { .. } => true,
                _ => false,
            };
            proof {
                lemma_first_return_step(all, k as int);
            }
            filtered_stmts.push(stmt);
            k += 1;
            if is_return {
                done = true;
            }
        }
        proof {
            if !done {
                assert(k == total);
            }
        }
        let ghost kept = filtered_stmts@;
        match filtered_stmts.pop() {
            Some(last_stmt) => {
                // the last statement is organized so that it ends with a return
                proof {
                    assert(last_stmt == all[k - 1]);
                    assert(decreases_to!(b0 => *last_stmt));
                }
                match self.map_statement(*last_stmt) {
                    Ok(mapped) => {
                        filtered_stmts.push(Box::new(mapped));
                    },
                    Err(e) => {
                        return Err(e);
                    },
                }
            },
            None => {
                // an empty block gets a return without value
                filtered_stmts.push(Box::new(Meta::new(StatementKind::Return { expr: None }, meta)));
            },
        }
        Ok(Meta::new(BlockItem { stmts: filtered_stmts }, meta))
    }

    fn map_expression(&mut self, expr: Expression<LocationMeta>) -> (res: Result<Expression<LocationMeta>, Vec<FrontendError<LocationMeta>>>)
        ensures
            res == Ok::<Expression<LocationMeta>, Vec<FrontendError<LocationMeta>>>(expr),
    {
        Ok(expr)
    }

    /// ensures the statement always ends with a return: a statement that is neither a return,
    /// a conditional with two branches nor a block becomes a block of itself and a return
    fn map_statement(&mut self, stmt: Statement<LocationMeta>) -> (res: Result<Statement<LocationMeta>, Vec<FrontendError<LocationMeta>>>)
        ensures
            res matches Ok(s) && ends_in_return(s) && s.meta == stmt.meta && stmt_organized(stmt, s),
            stmt.item is Return ==> res == Ok::<Statement<LocationMeta>, Vec<FrontendError<LocationMeta>>>(stmt),
            !(stmt.item is Return || stmt.item is CondElse || stmt.item is Block) ==> (res matches Ok(s)
                && (s.item matches StatementKind::Block { block } && block.item.stmts@.len() == 2
                    && *block.item.stmts@[0] == stmt)),
        decreases stmt, 3nat,
    {
        let ghost s0 = stmt;
        let meta = stmt.meta;
        match stmt.item {
            StatementKind::Return { expr } => Ok(Meta::new(StatementKind::Return { expr }, meta)),
            StatementKind::CondElse { expr, stmt_true, stmt_false } => {
                let mapped_true = match self.map_statement(*stmt_true) {
                    Ok(s) => s,
                    Err(e) => {
                        return Err(e);
                    },
                };
                let mapped_false = match self.map_statement(*stmt_false) {
                    Ok(s) => s,
                    Err(e) => {
                        return Err(e);
                    },
                };
                let kind = StatementKind::CondElse { expr, stmt_true: Box::new(mapped_true), stmt_false: Box::new(mapped_false) };
                Ok(Meta::new(kind, meta))
            },
            StatementKind::Block { block } => {
                match self.map_block(block) {
                    Ok(b) => Ok(Meta::new(StatementKind::Block { block: b }, meta)),
                    Err(e) => Err(e),
                }
            },
            item => {
                // the statement is followed by a return without value, at the same location
                let kept = Meta::new(item, meta);
                let void_ret = Meta::new(StatementKind::Return { expr: None }, meta);
                let stmts = vec![Box::new(kept), Box::new(void_ret)];
                let block = Meta::new(BlockItem { stmts }, meta);
                proof {
                    assert(ends_in_return(*block.item.stmts@.last()));
                    assert(block_returns(block));
                }
                Ok(Meta::new(StatementKind::Block { block }, meta))
            },
        }
    }

    /// the methods of the class are organized
    fn map_class(&mut self, class: Class<LocationMeta>) -> (res: Result<Class<LocationMeta>, Vec<FrontendError<LocationMeta>>>)
        ensures
            res matches Ok(c) && c.item.ident == class.item.ident && c.item.parent == class.item.parent
                && c.item.vars == class.item.vars && c.meta == class.meta
                && c.item.methods.keys() == class.item.methods.keys()
                && c.item.methods.entries@.len() == class.item.methods.entries@.len()
                && forall|i: int| 0 <= i < class.item.methods.entries@.len() ==> function_organized(
                    class.item.methods.entries@[i].1, #[trigger] c.item.methods.entries@[i].1),
    {
        let meta = class.meta;
        let ident = class.item.ident;
        let vars = class.item.vars;
        let parent = class.item.parent;
        let ghost keys = class.item.methods.keys();
        let mut rest = class.item.methods.entries;
        let ghost all = rest@;
        let total = rest.len();
        let mut k: usize = 0;
        let mut methods: Vec<(String, Function<LocationMeta>)> = Vec::new();
        while rest.len() > 0
            invariant
                all.len() == total,
                rest@.len() + k == total,
                forall|i: int| 0 <= i < rest@.len() ==> rest@[i] == all[k + i],
                keys == crate::util::env::keys_of(all),
                methods@.len() == k,
                forall|i: int| 0 <= i < k ==> (#[trigger] methods@[i]).0 == all[i].0,
                forall|i: int| 0 <= i < k ==> function_organized(all[i].1, (#[trigger] methods@[i]).1),
            decreases rest.len(),
        {
            let (name, method) = rest.remove(0);
            match self.map_function(method) {
                Ok(mapped) => methods.push((name, mapped)),
                Err(_) => {
                    assert(false);
                },
            }
            k += 1;
        }
        let methods = Env { entries: methods };
        proof {
            assert(methods.keys() =~= keys);
            assert(all == class.item.methods.entries@);
        }
        Ok(Meta::new(ClassItem { ident, vars, methods, parent }, meta))
    }

    /// the body of the function is organized, so that every path through it ends with a return
    fn map_function(&mut self, function: Function<LocationMeta>) -> (res: Result<Function<LocationMeta>, Vec<FrontendError<LocationMeta>>>)
        ensures
            res matches Ok(f) && f.item.ident == function.item.ident && f.item.ret == function.item.ret
                && f.item.args == function.item.args && f.meta == function.meta && block_returns(f.item.block)
                && block_organized(function.item.block, f.item.block),
    {
        let meta = function.meta;
        let item = function.item;
        match self.map_block(item.block) {
            Ok(block) => Ok(Meta::new(FunctionItem { ret: item.ret, ident: item.ident, args: item.args, block }, meta)),
            Err(e) => Err(e),
        }
    }
}

/// the first return is at `m` when no statement before `m` is a return and `m` is a return (or
/// the end of the statements)
pub proof fn lemma_first_return_at(stmts: Seq<Box<Statement<LocationMeta>>>, m: int)
    requires
        0 <= m <= stmts.len(),
        forall|i: int| 0 <= i < m ==> !((#[trigger] stmts[i]).item is Return),
        m < stmts.len() ==> stmts[m].item is Return,
    ensures
        first_return(stmts) == m,
    decreases m,
{
    if m > 0 {
        assert(!(stmts[0].item is Return));
        assert forall|i: int| 0 <= i < m - 1 implies !((#[trigger] stmts.drop_first()[i]).item is Return) by {
            assert(stmts.drop_first()[i] == stmts[i + 1]);
        }
        if m < stmts.len() {
            assert(stmts.drop_first()[m - 1] == stmts[m]);
        }
        lemma_first_return_at(stmts.drop_first(), m - 1);
    }
}

/// Organizing is idempotent: a statement organized once is organized into itself.
pub proof fn lemma_stmt_organized_idempotent(s: Statement<LocationMeta>, r: Statement<LocationMeta>)
    requires
        stmt_organized(s, r),
    ensures
        stmt_organized(r, r),
    decreases s,
{
    match s.item {
        StatementKind::Return { .. } => {},
        StatementKind::CondElse { expr, stmt_true, stmt_false } => {
            match r.item {
                StatementKind::CondElse { expr: e2, stmt_true: t2, stmt_false: f2 } => {
                    lemma_stmt_organized_idempotent(*stmt_true, *t2);
                    lemma_stmt_organized_idempotent(*stmt_false, *f2);
                    assert(stmt_organized(*t2, *t2) && stmt_organized(*f2, *f2));
                },
                _ => {},
            }
        },
        StatementKind::Block { block } => {
            match r.item {
                StatementKind::Block { block: rb } => {
                    lemma_block_organized_idempotent(block, rb);
                    assert(block_organized(rb, rb));
                },
                _ => {},
            }
        },
        _ => {
            match r.item {
                StatementKind::Block { block: rb } => {
                    let st = rb.item.stmts@;
                    lemma_first_return_at(st, 1);
                    assert(kept_count(st) == 2);
                    assert(stmt_organized(*st[1], *st[1]));
                    assert(block_organized(rb, rb));
                },
                _ => {},
            }
        },
    }
}

/// Organizing is idempotent: a block organized once is organized into itself.
pub proof fn lemma_block_organized_idempotent(b: Block<LocationMeta>, rb: Block<LocationMeta>)
    requires
        block_organized(b, rb),
    ensures
        block_organized(rb, rb),
    decreases b,
{
    let n = kept_count(b.item.stmts@);
    let st = rb.item.stmts@;
    if n == 0 {
        lemma_first_return_at(st, 0);
    } else {
        let bs = b.item.stmts@;
        lemma_first_return_bounds(bs);
        assert forall|i: int| 0 <= i < n - 1 implies !((#[trigger] st[i]).item is Return) by {
            assert(st[i] == bs[i]);
            if bs[i].item is Return {
                lemma_first_return_step(bs, i);
            }
        }
        let last = *bs[n - 1];
        if last.item is Return {
            lemma_first_return_at(st, n - 1);
        } else {
            lemma_first_return_at(st, n);
        }
        assert(decreases_to!(b => b.item));
        assert(decreases_to!(b.item => b.item.stmts));
        lemma_stmt_organized_idempotent(last, *st[n - 1]);
    }
}

/// the position of the first return is within the statements (or just after them)
pub proof fn lemma_first_return_bounds(stmts: Seq<Box<Statement<LocationMeta>>>)
    ensures
        0 <= first_return(stmts) <= stmts.len(),
    decreases stmts.len(),
{
    if stmts.len() > 0 {
        lemma_first_return_bounds(stmts.drop_first());
    }
}

/// the first return is found after position `k` when the statement at `k` is not a return
pub proof fn lemma_first_return_step(stmts: Seq<Box<Statement<LocationMeta>>>, k: int)
    requires
        0 <= k < stmts.len(),
        first_return(stmts) >= k,
    ensures
        stmts[k].item is Return ==> first_return(stmts) == k,
        !(stmts[k].item is Return) ==> first_return(stmts) >= k + 1,
    decreases k,
{
    lemma_first_return_bounds(stmts);
    if stmts.len() > 0 {
        lemma_first_return_bounds(stmts.drop_first());
    }
    if k > 0 {
        assert(!(stmts[0].item is Return));
        lemma_first_return_step(stmts.drop_first(), k - 1);
        assert(stmts.drop_first()[k - 1] == stmts[k]);
    }
}

} // verus!
