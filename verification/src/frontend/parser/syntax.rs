//! The grammar of Latte, as relations between spans of tokens and syntax trees.
//!
//! `derives_*(ts, eof, i, j, x)` holds when the tokens from position `i` up to (not including)
//! position `j` are a phrase of the grammar whose syntax tree is `x`; each node is located at
//! the offset of its first token (`eof` stands for the end of the source).
use vstd::prelude::*;

use crate::frontend::ast::{Arg, BinaryOperator, Block, Class, ClassVar, DeclItem, Program, DeclItemKind, Expression, ExpressionKind, Function,
    ReferenceKind, Statement, StatementKind, StatementOp, Type, UnaryOperator};
use crate::frontend::parser::lexer::{Sym, Token, Word};
use crate::meta::LocationMeta;

verus! {

/// location of the token at position `i` (the end of the source after the last token)
pub open spec fn loc_at(ts: Seq<(Token, usize)>, eof: usize, i: int) -> LocationMeta {
    if 0 <= i < ts.len() {
        LocationMeta { offset: ts[i].1 }
    } else {
        LocationMeta { offset: eof }
    }
}

/// the token at position `i` is the symbol `s`
pub open spec fn tok_sym(ts: Seq<(Token, usize)>, i: int, s: Sym) -> bool {
    0 <= i < ts.len() && ts[i].0 == (Token::Sym { s })
}

/// the token at position `i` is the keyword `w`
pub open spec fn tok_word(ts: Seq<(Token, usize)>, i: int, w: Word) -> bool {
    0 <= i < ts.len() && ts[i].0 == (Token::Word { w })
}

/// the token at position `i` is the identifier `name`
pub open spec fn tok_ident(ts: Seq<(Token, usize)>, i: int, name: String) -> bool {
    0 <= i < ts.len() && ts[i].0 == (Token::Ident { name })
}

/// the binary operator written by the token at position `i`, among the relational (`level` 4),
/// additive (3) and multiplicative (2) ones
pub open spec fn binop_at(ts: Seq<(Token, usize)>, i: int, level: nat) -> Option<BinaryOperator> {
    if 0 <= i < ts.len() {
        match ts[i].0 {
            Token::Sym { s } => if level == 4 {
                match s {
                    Sym::Lt => Some(BinaryOperator::Less),
                    Sym::Le => Some(BinaryOperator::LessEqual),
                    Sym::Gt => Some(BinaryOperator::Greater),
                    Sym::Ge => Some(BinaryOperator::GreaterEqual),
                    Sym::EqEq => Some(BinaryOperator::Equal),
                    Sym::Ne => Some(BinaryOperator::NotEqual),
                    _ => None,
                }
            } else if level == 3 {
                match s {
                    Sym::Plus => Some(BinaryOperator::Plus),
                    Sym::Minus => Some(BinaryOperator::Minus),
                    _ => None,
                }
            } else if level == 2 {
                match s {
                    Sym::Star => Some(BinaryOperator::Times),
                    Sym::Slash => Some(BinaryOperator::Divide),
                    Sym::Percent => Some(BinaryOperator::Modulo),
                    _ => None,
                }
            } else {
                None
            },
            _ => None,
        }
    } else {
        None
    }
}

/// a type without array brackets, written by the single token at position `i`
pub open spec fn derives_base_type(ts: Seq<(Token, usize)>, i: int, t: Type) -> bool {
    &&& 0 <= i < ts.len()
    &&& match t {
        Type::Int => ts[i].0 == (Token::Word { w: Word::Int }),
        Type::Str => ts[i].0 == (Token::Word { w: Word::Str }),
        Type::Bool => ts[i].0 == (Token::Word { w: Word::Boolean }),
        Type::Void => ts[i].0 == (Token::Word { w: Word::Void }),
        Type::Class { ident } => ts[i].0 == (Token::Ident { name: ident }),
        _ => false,
    }
}

/// a type: a base type followed by pairs of brackets
pub open spec fn derives_type(ts: Seq<(Token, usize)>, i: int, j: int, t: Type) -> bool
    decreases j - i,
{
    if 0 <= i < j <= ts.len() {
        ||| j == i + 1 && derives_base_type(ts, i, t)
        ||| j >= i + 3 && (t matches Type::Array { item_t } && derives_type(ts, i, j - 2, *item_t))
            && tok_sym(ts, j - 2, Sym::LBracket) && tok_sym(ts, j - 1, Sym::RBracket)
    } else {
        false
    }
}

/// the logical operator of a precedence level: conjunction (5) or disjunction (6)
pub open spec fn logical_op(level: nat) -> BinaryOperator {
    if level == 5 { BinaryOperator::And } else { BinaryOperator::Or }
}

/// the symbol of the logical operator of a precedence level
pub open spec fn logical_sym(level: nat) -> Sym {
    if level == 5 { Sym::AndAnd } else { Sym::OrOr }
}

/// precedence levels of expressions: primary (0), unary (1), multiplicative (2), additive (3),
/// relational (4), conjunction (5) and disjunction (6, a whole expression)
pub open spec fn expr_level() -> nat {
    6
}

/// the reference that starts at position `i` and ends before `j`, with the node located at `i`
pub open spec fn derives_reference(ts: Seq<(Token, usize)>, eof: usize, i: int, j: int,
    r: crate::frontend::ast::Reference<LocationMeta>) -> bool
    decreases j - i, 0nat,
{
    if 0 <= i < j <= ts.len() {
        &&& r.meta == loc_at(ts, eof, i)
        &&& match r.item {
            ReferenceKind::Ident { ident } => j == i + 1 && tok_ident(ts, i, ident),
            ReferenceKind::Object { obj, field } => j == i + 3 && tok_ident(ts, i, obj)
                && tok_sym(ts, i + 1, Sym::Dot) && tok_ident(ts, i + 2, field),
            ReferenceKind::ObjectSelf { field } => j == i + 3 && tok_word(ts, i, Word::SelfObj)
                && tok_sym(ts, i + 1, Sym::Dot) && tok_ident(ts, i + 2, field),
            ReferenceKind::Array { arr, idx } => j >= i + 4 && tok_ident(ts, i, arr) && tok_sym(ts, i + 1, Sym::LBracket)
                && derives_expr(ts, eof, i + 2, j - 1, *idx, 6) && tok_sym(ts, j - 1, Sym::RBracket),
            _ => false,
        }
    } else {
        false
    }
}

/// arguments of a call after its `(`: expressions separated by commas, then `)`
pub open spec fn derives_args(ts: Seq<(Token, usize)>, eof: usize, i: int, j: int,
    args: Seq<Box<Expression<LocationMeta>>>) -> bool
    decreases j - i, 10nat,
{
    if 0 <= i < j <= ts.len() {
        &&& tok_sym(ts, j - 1, Sym::RParen)
        &&& if args.len() == 0 {
            j == i + 1
        } else {
            derives_expr_list(ts, eof, i, j - 1, args)
        }
    } else {
        false
    }
}

/// one or more expressions separated by commas
pub open spec fn derives_expr_list(ts: Seq<(Token, usize)>, eof: usize, i: int, j: int,
    args: Seq<Box<Expression<LocationMeta>>>) -> bool
    decreases j - i, 9nat,
{
    if 0 <= i < j <= ts.len() && args.len() >= 1 {
        if args.len() == 1 {
            derives_expr(ts, eof, i, j, *args[0], 6)
        } else {
            exists|k: int| #![trigger tok_sym(ts, k, Sym::Comma)] i < k < j - 1
                && derives_expr_list(ts, eof, i, k, args.drop_last()) && tok_sym(ts, k, Sym::Comma)
                && derives_expr(ts, eof, k + 1, j, *args.last(), 6)
        }
    } else {
        false
    }
}

/// an expression of the given precedence level
pub open spec fn derives_expr(ts: Seq<(Token, usize)>, eof: usize, i: int, j: int, e: Expression<LocationMeta>,
    level: nat) -> bool
    decreases j - i, level + 2,
{
    if 0 <= i < j <= ts.len() && level <= 6 {
        if level == 0 {
            ||| derives_primary(ts, eof, i, j, e)
            ||| j >= i + 3 && tok_sym(ts, i, Sym::LParen) && tok_sym(ts, j - 1, Sym::RParen)
                && derives_expr(ts, eof, i + 1, j - 1, e, 6)
        } else if level == 1 {
            ||| derives_expr(ts, eof, i, j, e, 0)
            ||| e.meta == loc_at(ts, eof, i) && (e.item matches ExpressionKind::Unary { op, arg }
                && ((op == UnaryOperator::Neg && tok_sym(ts, i, Sym::Minus)) || (op == UnaryOperator::Not && tok_sym(ts, i, Sym::Bang)))
                && derives_expr(ts, eof, i + 1, j, *arg, 1))
        } else if level <= 4 {
            // left associative operators
            ||| derives_expr(ts, eof, i, j, e, (level - 1) as nat)
            ||| e.meta == loc_at(ts, eof, i) && (e.item matches ExpressionKind::Binary { left, op, right }
                && exists|k: int| #![trigger binop_at(ts, k, level)] i < k < j - 1 && derives_expr(ts, eof, i, k, *left, level)
                    && binop_at(ts, k, level) == Some(op) && derives_expr(ts, eof, k + 1, j, *right, (level - 1) as nat))
        } else {
            // right associative operators
            ||| derives_expr(ts, eof, i, j, e, (level - 1) as nat)
            ||| e.meta == loc_at(ts, eof, i) && (e.item matches ExpressionKind::Binary { left, op, right }
                && op == logical_op(level)
                && exists|k: int| #![trigger tok_sym(ts, k, logical_sym(level))]
                    i < k < j - 1 && derives_expr(ts, eof, i, k, *left, (level - 1) as nat)
                    && tok_sym(ts, k, logical_sym(level))
                    && derives_expr(ts, eof, k + 1, j, *right, level))
        }
    } else {
        false
    }
}

/// a literal, a reference, a call, an object or array creation, or a cast of `null`
pub open spec fn derives_primary(ts: Seq<(Token, usize)>, eof: usize, i: int, j: int, e: Expression<LocationMeta>) -> bool
    decreases j - i, 1nat,
{
    if 0 <= i < j <= ts.len() {
        &&& e.meta == loc_at(ts, eof, i)
        &&& match e.item {
            ExpressionKind::LitInt { val } => j == i + 1 && ts[i].0 == (Token::IntLit { value: val }),
            ExpressionKind::LitStr { val } => j == i + 1 && ts[i].0 == (Token::StrLit { text: val }),
            ExpressionKind::LitBool { val } => j == i + 1 && tok_word(ts, i, if val { Word::True } else { Word::False }),
            ExpressionKind::LitNull => j == i + 1 && tok_word(ts, i, Word::Null),
            ExpressionKind::InitDefault { t } => j == i + 2 && tok_word(ts, i, Word::New) && derives_base_type(ts, i + 1, t),
            ExpressionKind::InitArr { t, size } => j >= i + 5 && tok_word(ts, i, Word::New)
                && (t matches Type::Array { item_t } && derives_base_type(ts, i + 1, *item_t))
                && tok_sym(ts, i + 2, Sym::LBracket) && derives_expr(ts, eof, i + 3, j - 1, *size, 6)
                && tok_sym(ts, j - 1, Sym::RBracket),
            ExpressionKind::Reference { r } => derives_reference(ts, eof, i, j, r),
            ExpressionKind::App { r, args } => {
                let k = if r.item is Ident { i + 1 } else { i + 3 };
                &&& !(r.item is Array)
                &&& k + 1 < j
                &&& derives_reference(ts, eof, i, k, r)
                &&& tok_sym(ts, k, Sym::LParen)
                &&& derives_args(ts, eof, k + 1, j, args@)
            },
            ExpressionKind::Cast { t, expr } => j == i + 4 && tok_sym(ts, i, Sym::LParen)
                && (t matches Type::Class { ident } && tok_ident(ts, i + 1, ident))
                && tok_sym(ts, i + 2, Sym::RParen) && tok_word(ts, i + 3, Word::Null)
                && expr.item is LitNull && expr.meta == loc_at(ts, eof, i + 3),
            _ => false,
        }
    } else {
        false
    }
}

/// one item of a declaration: a name, with an initial value or without
pub open spec fn derives_decl_item(ts: Seq<(Token, usize)>, eof: usize, i: int, j: int, d: DeclItem<LocationMeta>) -> bool {
    &&& 0 <= i < j <= ts.len()
    &&& d.meta == loc_at(ts, eof, i)
    &&& match d.item {
        DeclItemKind::NoInit { ident } => j == i + 1 && tok_ident(ts, i, ident),
        DeclItemKind::Init { ident, val } => j >= i + 3 && tok_ident(ts, i, ident) && tok_sym(ts, i + 1, Sym::Assign)
            && derives_expr(ts, eof, i + 2, j, *val, 6),
    }
}

/// one or more items of a declaration separated by commas
pub open spec fn derives_decl_list(ts: Seq<(Token, usize)>, eof: usize, i: int, j: int, items: Seq<DeclItem<LocationMeta>>) -> bool
    decreases j - i,
{
    if 0 <= i < j <= ts.len() && items.len() >= 1 {
        if items.len() == 1 {
            derives_decl_item(ts, eof, i, j, items[0])
        } else {
            exists|k: int| #![trigger tok_sym(ts, k, Sym::Comma)] i < k < j - 1
                && derives_decl_list(ts, eof, i, k, items.drop_last()) && tok_sym(ts, k, Sym::Comma)
                && derives_decl_item(ts, eof, k + 1, j, items.last())
        }
    } else {
        false
    }
}

/// the items of a declaration after its type, and the closing `;`
pub open spec fn derives_decl_items(ts: Seq<(Token, usize)>, eof: usize, i: int, j: int, items: Seq<DeclItem<LocationMeta>>) -> bool {
    j >= i + 2 && tok_sym(ts, j - 1, Sym::Semi) && derives_decl_list(ts, eof, i, j - 1, items)
}

/// the symbol of an increment or a decrement
pub open spec fn mut_sym(op: StatementOp) -> Sym {
    match op {
        StatementOp::Increment => Sym::Incr,
        StatementOp::Decrement => Sym::Decr,
    }
}

/// a block: statements between braces
pub open spec fn derives_block(ts: Seq<(Token, usize)>, eof: usize, i: int, j: int, b: Block<LocationMeta>) -> bool
    decreases j - i, 0nat,
{
    if 0 <= i && i + 2 <= j <= ts.len() {
        &&& b.meta == loc_at(ts, eof, i)
        &&& tok_sym(ts, i, Sym::LBrace)
        &&& tok_sym(ts, j - 1, Sym::RBrace)
        &&& derives_stmts(ts, eof, i + 1, j - 1, b.item.stmts@)
    } else {
        false
    }
}

/// a sequence of statements
pub open spec fn derives_stmts(ts: Seq<(Token, usize)>, eof: usize, i: int, j: int, stmts: Seq<Box<Statement<LocationMeta>>>) -> bool
    decreases j - i, 2nat,
{
    if 0 <= i <= j <= ts.len() {
        if stmts.len() == 0 {
            i == j
        } else {
            exists|k: int| #![trigger ts[k]] i <= k < j
                && derives_stmts(ts, eof, i, k, stmts.drop_last()) && derives_stmt(ts, eof, k, j, *stmts.last())
        }
    } else {
        false
    }
}

/// a statement
pub open spec fn derives_stmt(ts: Seq<(Token, usize)>, eof: usize, i: int, j: int, s: Statement<LocationMeta>) -> bool
    decreases j - i, 1nat,
{
    if 0 <= i < j <= ts.len() {
        &&& s.meta == loc_at(ts, eof, i)
        &&& match s.item {
            StatementKind::Empty => j == i + 1 && tok_sym(ts, i, Sym::Semi),
            StatementKind::Block { block } => derives_block(ts, eof, i, j, block),
            StatementKind::Return { expr } => tok_word(ts, i, Word::Return) && match expr {
                None => j == i + 2 && tok_sym(ts, i + 1, Sym::Semi),
                Some(e) => j >= i + 3 && derives_expr(ts, eof, i + 1, j - 1, *e, 6) && tok_sym(ts, j - 1, Sym::Semi),
            },
            StatementKind::Cond { expr, stmt } => tok_word(ts, i, Word::If) && tok_sym(ts, i + 1, Sym::LParen)
                && exists|k: int| #![trigger tok_sym(ts, k, Sym::RParen)] i + 2 < k && k + 1 < j
                    && derives_expr(ts, eof, i + 2, k, *expr, 6) && tok_sym(ts, k, Sym::RParen)
                    && derives_stmt(ts, eof, k + 1, j, *stmt),
            StatementKind::CondElse { expr, stmt_true, stmt_false } => tok_word(ts, i, Word::If) && tok_sym(ts, i + 1, Sym::LParen)
                && exists|k: int, m: int| #![trigger tok_sym(ts, k, Sym::RParen), tok_word(ts, m, Word::Else)]
                    i + 2 < k && k + 1 < m && m + 1 < j
                    && derives_expr(ts, eof, i + 2, k, *expr, 6) && tok_sym(ts, k, Sym::RParen)
                    && derives_stmt(ts, eof, k + 1, m, *stmt_true) && tok_word(ts, m, Word::Else)
                    && derives_stmt(ts, eof, m + 1, j, *stmt_false),
            StatementKind::While { expr, stmt } => tok_word(ts, i, Word::While) && tok_sym(ts, i + 1, Sym::LParen)
                && exists|k: int| #![trigger tok_sym(ts, k, Sym::RParen)] i + 2 < k && k + 1 < j
                    && derives_expr(ts, eof, i + 2, k, *expr, 6) && tok_sym(ts, k, Sym::RParen)
                    && derives_stmt(ts, eof, k + 1, j, *stmt),
            StatementKind::For { t, ident, arr, stmt } => derives_for(ts, eof, i, j, t, ident, *arr, *stmt),
            StatementKind::Decl { t, items } => derives_decl(ts, eof, i, j, t, items@),
            StatementKind::Ass { r, expr } => derives_assignment(ts, eof, i, j, r, *expr),
            StatementKind::Mut { r, op } => derives_mutation(ts, eof, i, j, r, op),
            StatementKind::Expr { expr } => j >= i + 2 && derives_expr(ts, eof, i, j - 1, *expr, 6) && tok_sym(ts, j - 1, Sym::Semi),
            StatementKind::Error => false,
        }
    } else {
        false
    }
}

/// a sequence of statements followed by one more statement is a sequence of statements
pub proof fn lemma_stmts_push(ts: Seq<(Token, usize)>, eof: usize, i: int, k: int, j: int,
    stmts: Seq<Box<Statement<LocationMeta>>>, st: Statement<LocationMeta>)
    requires
        derives_stmts(ts, eof, i, k, stmts),
        derives_stmt(ts, eof, k, j, st),
    ensures
        derives_stmts(ts, eof, i, j, stmts.push(Box::new(st))),
{
    let s2 = stmts.push(Box::new(st));
    assert(s2.drop_last() =~= stmts);
    assert(ts[k] == ts[k]);
}

/// a loop over the items of an array: `for (t ident : arr) stmt`
pub open spec fn derives_for(ts: Seq<(Token, usize)>, eof: usize, i: int, j: int, t: Type, ident: String,
    arr: Expression<LocationMeta>, stmt: Statement<LocationMeta>) -> bool
    decreases j - i, 0nat,
{
    if 0 <= i < j <= ts.len() {
        &&& tok_word(ts, i, Word::For)
        &&& tok_sym(ts, i + 1, Sym::LParen)
        &&& exists|k: int, m: int| #![trigger tok_ident(ts, k, ident), tok_sym(ts, m, Sym::RParen)]
            i + 2 < k && k + 2 < m && m + 1 < j
            && derives_type(ts, i + 2, k, t) && tok_ident(ts, k, ident) && tok_sym(ts, k + 1, Sym::Colon)
            && derives_expr(ts, eof, k + 2, m, arr, 6) && tok_sym(ts, m, Sym::RParen)
            && derives_stmt(ts, eof, m + 1, j, stmt)
    } else {
        false
    }
}

/// a declaration: a type and its items
pub open spec fn derives_decl(ts: Seq<(Token, usize)>, eof: usize, i: int, j: int, t: Type,
    items: Seq<DeclItem<LocationMeta>>) -> bool {
    exists|k: int| #![trigger derives_type(ts, i, k, t)] i < k < j
        && derives_type(ts, i, k, t) && derives_decl_items(ts, eof, k, j, items)
}

/// an assignment: a reference (written as an expression), `=`, a value and `;`
pub open spec fn derives_assignment(ts: Seq<(Token, usize)>, eof: usize, i: int, j: int,
    r: crate::frontend::ast::Reference<LocationMeta>, expr: Expression<LocationMeta>) -> bool {
    exists|k: int, e: Expression<LocationMeta>| #![trigger derives_expr(ts, eof, i, k, e, 6), tok_sym(ts, k, Sym::Assign)]
        i < k && k + 2 < j && derives_expr(ts, eof, i, k, e, 6) && e.item == (ExpressionKind::Reference { r })
        && tok_sym(ts, k, Sym::Assign) && derives_expr(ts, eof, k + 1, j - 1, expr, 6) && tok_sym(ts, j - 1, Sym::Semi)
}

/// an increment or a decrement of a reference (written as an expression), and `;`
pub open spec fn derives_mutation(ts: Seq<(Token, usize)>, eof: usize, i: int, j: int,
    r: crate::frontend::ast::Reference<LocationMeta>, op: StatementOp) -> bool {
    exists|e: Expression<LocationMeta>| #![trigger derives_expr(ts, eof, i, j - 2, e, 6)]
        j >= i + 3 && derives_expr(ts, eof, i, j - 2, e, 6) && e.item == (ExpressionKind::Reference { r })
        && tok_sym(ts, j - 2, mut_sym(op)) && tok_sym(ts, j - 1, Sym::Semi)
}

/// one argument of a function definition: a type and a name
pub open spec fn derives_param(ts: Seq<(Token, usize)>, eof: usize, i: int, j: int, a: Arg<LocationMeta>) -> bool {
    &&& 0 <= i && i + 2 <= j <= ts.len()
    &&& a.meta == loc_at(ts, eof, i)
    &&& derives_type(ts, i, j - 1, a.item.t)
    &&& tok_ident(ts, j - 1, a.item.ident)
}

/// one or more arguments of a function definition separated by commas
pub open spec fn derives_param_list(ts: Seq<(Token, usize)>, eof: usize, i: int, j: int, args: Seq<Arg<LocationMeta>>) -> bool
    decreases j - i,
{
    if 0 <= i < j <= ts.len() && args.len() >= 1 {
        if args.len() == 1 {
            derives_param(ts, eof, i, j, args[0])
        } else {
            exists|k: int| #![trigger tok_sym(ts, k, Sym::Comma)] i < k < j - 1
                && derives_param_list(ts, eof, i, k, args.drop_last()) && tok_sym(ts, k, Sym::Comma)
                && derives_param(ts, eof, k + 1, j, args.last())
        }
    } else {
        false
    }
}

/// the arguments of a function definition after its `(`, and the closing `)`
pub open spec fn derives_params(ts: Seq<(Token, usize)>, eof: usize, i: int, j: int, args: Seq<Arg<LocationMeta>>) -> bool {
    &&& 0 <= i < j <= ts.len()
    &&& tok_sym(ts, j - 1, Sym::RParen)
    &&& if args.len() == 0 { j == i + 1 } else { derives_param_list(ts, eof, i, j - 1, args) }
}

/// a function definition: return type, name, arguments and body
pub open spec fn derives_function(ts: Seq<(Token, usize)>, eof: usize, i: int, j: int, f: Function<LocationMeta>) -> bool {
    &&& f.meta == loc_at(ts, eof, i)
    &&& exists|k: int, m: int| #![trigger derives_params(ts, eof, k + 2, m, f.item.args@)]
        i < k && k + 2 < m && m < j
        && derives_type(ts, i, k, f.item.ret) && tok_ident(ts, k, f.item.ident) && tok_sym(ts, k + 1, Sym::LParen)
        && derives_params(ts, eof, k + 2, m, f.item.args@) && derives_block(ts, eof, m, j, f.item.block)
}

/// the instance variable is declared within the tokens from `lo` to `hi`: its type (as a model)
/// and its name appear there
pub open spec fn declares_var(ts: Seq<(Token, usize)>, lo: int, hi: int, v: ClassVar<LocationMeta>) -> bool {
    &&& exists|a: int, b: int, t: Type| #![trigger derives_type(ts, a, b, t)] lo <= a < b <= hi && derives_type(ts, a, b, t)
        && t@ == v.item.t@
    &&& exists|k: int| #![trigger tok_ident(ts, k, v.item.ident)] lo <= k < hi && tok_ident(ts, k, v.item.ident)
}

/// the method is defined by the tokens between `lo` and `hi`
pub open spec fn defines_method(ts: Seq<(Token, usize)>, eof: usize, lo: int, hi: int, m: Function<LocationMeta>) -> bool {
    exists|a: int, b: int| #![trigger derives_function(ts, eof, a, b, m)] lo <= a < b <= hi && derives_function(ts, eof, a, b, m)
}

/// a declaration within some tokens is within any tokens around them
pub proof fn lemma_declares_var_wider(ts: Seq<(Token, usize)>, lo: int, hi: int, hi2: int, v: ClassVar<LocationMeta>)
    requires
        declares_var(ts, lo, hi, v),
        hi <= hi2,
    ensures
        declares_var(ts, lo, hi2, v),
{
}

/// a definition within some tokens is within any tokens around them
pub proof fn lemma_defines_method_wider(ts: Seq<(Token, usize)>, eof: usize, lo: int, hi: int, hi2: int, m: Function<LocationMeta>)
    requires
        defines_method(ts, eof, lo, hi, m),
        hi <= hi2,
    ensures
        defines_method(ts, eof, lo, hi2, m),
{
}

/// a class definition: `class`, its name, its parent (after `extends`) and its members between
/// braces; each instance variable and each method is declared between the braces
pub open spec fn derives_class(ts: Seq<(Token, usize)>, eof: usize, i: int, j: int, c: Class<LocationMeta>) -> bool {
    let body = match c.item.parent {
        None => i + 3,
        Some(_) => i + 5,
    };
    &&& 0 <= i && body < j <= ts.len()
    &&& c.meta == loc_at(ts, eof, i)
    &&& tok_word(ts, i, Word::Class)
    &&& tok_ident(ts, i + 1, c.item.ident)
    &&& match c.item.parent {
        None => tok_sym(ts, i + 2, Sym::LBrace),
        Some(p) => tok_word(ts, i + 2, Word::Extends) && tok_ident(ts, i + 3, p) && tok_sym(ts, i + 4, Sym::LBrace),
    }
    &&& tok_sym(ts, j - 1, Sym::RBrace)
    &&& forall|n: int| 0 <= n < c.item.vars.entries@.len() ==>
        declares_var(ts, body, j - 1, #[trigger] c.item.vars.entries@[n].1)
    &&& forall|n: int| 0 <= n < c.item.methods.entries@.len() ==>
        defines_method(ts, eof, body, j - 1, #[trigger] c.item.methods.entries@[n].1)
}

/// a sequence of definitions of classes and functions; `classes` and `functions` are the
/// definitions of each kind, in their order
pub open spec fn derives_defs(ts: Seq<(Token, usize)>, eof: usize, i: int, j: int, classes: Seq<Class<LocationMeta>>,
    functions: Seq<Function<LocationMeta>>) -> bool
    decreases j - i,
{
    if 0 <= i <= j <= ts.len() {
        if classes.len() == 0 && functions.len() == 0 {
            i == j
        } else {
            exists|k: int| #![trigger ts[k]] i <= k < j && {
                ||| classes.len() > 0 && derives_defs(ts, eof, i, k, classes.drop_last(), functions)
                    && derives_class(ts, eof, k, j, classes.last())
                ||| functions.len() > 0 && derives_defs(ts, eof, i, k, classes, functions.drop_last())
                    && derives_function(ts, eof, k, j, functions.last())
            }
        }
    } else {
        false
    }
}

/// definitions followed by one more class
pub proof fn lemma_defs_push_class(ts: Seq<(Token, usize)>, eof: usize, i: int, k: int, j: int,
    classes: Seq<Class<LocationMeta>>, functions: Seq<Function<LocationMeta>>, c: Class<LocationMeta>)
    requires
        derives_defs(ts, eof, i, k, classes, functions),
        derives_class(ts, eof, k, j, c),
    ensures
        derives_defs(ts, eof, i, j, classes.push(c), functions),
{
    assert(classes.push(c).drop_last() =~= classes);
    assert(ts[k] == ts[k]);
}

/// definitions followed by one more function
pub proof fn lemma_defs_push_function(ts: Seq<(Token, usize)>, eof: usize, i: int, k: int, j: int,
    classes: Seq<Class<LocationMeta>>, functions: Seq<Function<LocationMeta>>, f: Function<LocationMeta>)
    requires
        derives_defs(ts, eof, i, k, classes, functions),
        derives_function(ts, eof, k, j, f),
        k < j,
    ensures
        derives_defs(ts, eof, i, j, classes, functions.push(f)),
{
    assert(functions.push(f).drop_last() =~= functions);
    assert(ts[k] == ts[k]);
}

/// the classes of a program, in their order
pub open spec fn class_items(p: Program<LocationMeta>) -> Seq<Class<LocationMeta>> {
    Seq::new(p.classes.entries@.len(), |n: int| p.classes.entries@[n].1)
}

/// the functions of a program, in their order
pub open spec fn function_items(p: Program<LocationMeta>) -> Seq<Function<LocationMeta>> {
    Seq::new(p.functions.entries@.len(), |n: int| p.functions.entries@[n].1)
}

/// the tokens are the definitions of the program
pub open spec fn derives_program(ts: Seq<(Token, usize)>, eof: usize, p: Program<LocationMeta>) -> bool {
    derives_defs(ts, eof, 0, ts.len() as int, class_items(p), function_items(p))
}

} // verus!
