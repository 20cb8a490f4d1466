//! Syntax analysis of Latte: a recursive descent over the tokens.
use vstd::prelude::*;

use crate::frontend::ast::{Arg, ArgItem, BinaryOperator, Block, BlockItem, ClassItem, ClassVar, ClassVarItem,
    DeclItem, DeclItemKind, Expression, ExpressionKind, Function, FunctionItem, Reference, ReferenceKind, Statement,
    StatementKind, StatementOp, Type, UnaryOperator};
use crate::frontend::error::{FrontendError, FrontendErrorKind};
use crate::frontend::parser::lexer::{Sym, Token, Word};
use crate::meta::{LocationMeta, Meta};
use crate::frontend::parser::syntax::{loc_at, tok_sym, tok_word, tok_ident, binop_at, logical_sym, derives_base_type,
    derives_type, derives_reference, derives_args, derives_expr_list, derives_expr, derives_primary, derives_decl_item, derives_decl_list,
    derives_decl_items, derives_block, derives_stmts, derives_stmt, derives_param, derives_param_list, derives_params,
    derives_function, mut_sym, derives_for, derives_decl, derives_assignment, derives_mutation, lemma_stmts_push, derives_class,
    declares_var, defines_method, lemma_declares_var_wider, lemma_defines_method_wider};

verus! {

/// tokens with their offsets
pub type Tokens = Vec<(Token, usize)>;

/// a parsed node and the position after it, or the errors
pub type Parsed<T> = Result<(T, usize), Vec<FrontendError<LocationMeta>>>;

/// the parse consumed at least one token, and stopped within the tokens
pub open spec fn progress<T>(r: Parsed<T>, pos: usize, len: nat) -> bool {
    r matches Ok((_, p)) ==> pos < p <= len
}

/// the errors are not empty
pub open spec fn some_errors<T>(r: Parsed<T>) -> bool {
    r matches Err(e) ==> e@.len() >= 1
}

/// location of the token at `pos` (the end of the source after the last token)
pub fn location(toks: &Tokens, pos: usize, eof: usize) -> (r: LocationMeta)
    ensures
        r == loc_at(toks@, eof, pos as int),
{
    if pos < toks.len() {
        LocationMeta { offset: toks[pos].1 }
    } else {
        LocationMeta { offset: eof }
    }
}

/// the error for an unexpected token at `pos` (or an unexpected end of the source)
pub fn unexpected(toks: &Tokens, pos: usize, eof: usize) -> (r: Vec<FrontendError<LocationMeta>>)
    ensures
        r@.len() == 1,
        r@[0].meta == loc_at(toks@, eof, pos as int),
        r@[0].item is ParseError,
{
    if pos < toks.len() {
        let message = String::from_str("UnrecognizedToken");
        vec![Meta::new(FrontendErrorKind::ParseError { message }, LocationMeta { offset: toks[pos].1 })]
    } else {
        let message = String::from_str("Unexpected end of file");
        vec![Meta::new(FrontendErrorKind::ParseError { message }, LocationMeta { offset: eof })]
    }
}

/// the token at `pos` is the symbol `s`
pub fn at_sym(toks: &Tokens, pos: usize, s: Sym) -> (r: bool)
    ensures
        r == tok_sym(toks@, pos as int, s),
        r ==> pos < toks@.len() && pos < usize::MAX,
{
    if pos < toks.len() {
        match &toks[pos].0 {
            Token::Sym { s: t } => *t == s,
            _ => false,
        }
    } else {
        false
    }
}

/// the token at `pos` is the keyword `w`
pub fn at_word(toks: &Tokens, pos: usize, w: Word) -> (r: bool)
    ensures
        r == tok_word(toks@, pos as int, w),
        r ==> pos < toks@.len() && pos < usize::MAX,
{
    if pos < toks.len() {
        match &toks[pos].0 {
            Token::Word { w: t } => *t == w,
            _ => false,
        }
    } else {
        false
    }
}

/// the token at `pos` is an identifier
pub fn at_ident(toks: &Tokens, pos: usize) -> (r: bool)
    ensures
        r == (pos < toks@.len() && toks@[pos as int].0 is Ident),
        r ==> pos < usize::MAX,
{
    if pos < toks.len() {
        match &toks[pos].0 {
            Token::Ident { .. } => true,
            _ => false,
        }
    } else {
        false
    }
}

/// the symbol `s` at `pos`, and the position after it
pub fn expect_sym(toks: &Tokens, pos: usize, s: Sym, eof: usize) -> (r: Result<usize, Vec<FrontendError<LocationMeta>>>)
    ensures
        r matches Ok(p) ==> p == pos + 1 && pos < toks@.len() && tok_sym(toks@, pos as int, s),
        r is Err <==> !tok_sym(toks@, pos as int, s),
        r matches Err(e) ==> e@.len() >= 1,
{
    if at_sym(toks, pos, s) {
        Ok(pos + 1)
    } else {
        Err(unexpected(toks, pos, eof))
    }
}

/// the identifier at `pos`
pub fn expect_ident(toks: &Tokens, pos: usize, eof: usize) -> (r: Parsed<String>)
    ensures
        r matches Ok((name, p)) ==> p == pos + 1 && pos < toks@.len() && tok_ident(toks@, pos as int, name),
        r is Err <==> !(pos < toks@.len() && toks@[pos as int].0 is Ident),
        some_errors(r),
{
    if pos < toks.len() {
        match &toks[pos].0 {
            Token::Ident { name } => {
                return Ok((name.clone(), pos + 1));
            },
            _ => {},
        }
    }
    Err(unexpected(toks, pos, eof))
}

/// a type without array brackets: a basic type or a class
pub fn parse_base_type(toks: &Tokens, pos: usize, eof: usize) -> (r: Parsed<Type>)
    ensures
        r matches Ok((t, p)) ==> p == pos + 1 && pos < toks@.len() && derives_base_type(toks@, pos as int, t),
        some_errors(r),
{
    if pos < toks.len() {
        match &toks[pos].0 {
            Token::Word { w } => match w {
                Word::Int => {
                    return Ok((Type::Int, pos + 1));
                },
                Word::Str => {
                    return Ok((Type::Str, pos + 1));
                },
                Word::Boolean => {
                    return Ok((Type::Bool, pos + 1));
                },
                Word::Void => {
                    return Ok((Type::Void, pos + 1));
                },
                _ => {},
            },
            Token::Ident { name } => {
                return Ok((Type::Class { ident: name.clone() }, pos + 1));
            },
            _ => {},
        }
    }
    Err(unexpected(toks, pos, eof))
}

/// a type: a base type followed by any number of `[]`
pub fn parse_type(toks: &Tokens, pos: usize, eof: usize) -> (r: Parsed<Type>)
    ensures
        progress(r, pos, toks@.len()),
        some_errors(r),
        r matches Ok((t, p)) ==> derives_type(toks@, pos as int, p as int, t),
{
    let (mut t, mut p) = parse_base_type(toks, pos, eof)?;
    while at_sym(toks, p, Sym::LBracket) && at_sym(toks, p + 1, Sym::RBracket)
        invariant
            pos < p <= toks@.len(),
            derives_type(toks@, pos as int, p as int, t),
        decreases toks@.len() - p,
    {
        t = Type::Array { item_t: Box::new(t) };
        p = p + 2;
    }
    Ok((t, p))
}

/// an expression node of the given kind at the given location
fn expr_node(kind: ExpressionKind<LocationMeta>, loc: LocationMeta) -> (r: Expression<LocationMeta>)
    ensures
        r.item == kind,
        r.meta == loc,
{
    Meta::new(kind, loc)
}

/// the arguments of a call, after its `(`, up to and including its `)`
pub fn parse_args(toks: &Tokens, pos: usize, eof: usize) -> (r: Parsed<Vec<Box<Expression<LocationMeta>>>>)
    requires
        pos <= toks@.len(),
    ensures
        progress(r, pos, toks@.len()),
        some_errors(r),
        r matches Ok((args, p)) ==> derives_args(toks@, eof, pos as int, p as int, args@),
    decreases toks@.len() - pos, 9nat,
{
    let mut args: Vec<Box<Expression<LocationMeta>>> = Vec::new();
    if at_sym(toks, pos, Sym::RParen) {
        return Ok((args, pos + 1));
    }
    let mut p = pos;
    loop
        invariant
            pos <= p <= toks@.len(),
            (p == pos && args@.len() == 0) || (args@.len() >= 1 && p >= pos + 2
                && derives_expr_list(toks@, eof, pos as int, p - 1, args@) && tok_sym(toks@, p - 1, Sym::Comma)),
        decreases toks@.len() - p,
    {
        let (e, q) = parse_expr(toks, p, eof)?;
        let ghost before = args@;
        args.push(Box::new(e));
        proof {
            if before.len() >= 1 {
                assert(args@.drop_last() =~= before);
                assert(tok_sym(toks@, p - 1, Sym::Comma));
            }
            assert(derives_expr_list(toks@, eof, pos as int, q as int, args@));
        }
        if at_sym(toks, q, Sym::Comma) {
            p = q + 1;
        } else {
            let end = expect_sym(toks, q, Sym::RParen, eof)?;
            return Ok((args, end));
        }
    }
}

/// an expression
pub fn parse_expr(toks: &Tokens, pos: usize, eof: usize) -> (r: Parsed<Expression<LocationMeta>>)
    requires
        pos <= toks@.len(),
    ensures
        progress(r, pos, toks@.len()),
        some_errors(r),
        r matches Ok((e, p)) ==> derives_expr(toks@, eof, pos as int, p as int, e, 6),
    decreases toks@.len() - pos, 8nat,
{
    parse_or(toks, pos, eof)
}

/// a disjunction (right associative)
fn parse_or(toks: &Tokens, pos: usize, eof: usize) -> (r: Parsed<Expression<LocationMeta>>)
    requires
        pos <= toks@.len(),
    ensures
        progress(r, pos, toks@.len()),
        some_errors(r),
        r matches Ok((e, p)) ==> derives_expr(toks@, eof, pos as int, p as int, e, 6),
    decreases toks@.len() - pos, 7nat,
{
    let loc = location(toks, pos, eof);
    let (left, p) = parse_and(toks, pos, eof)?;
    if at_sym(toks, p, Sym::OrOr) {
        let (right, q) = parse_or(toks, p + 1, eof)?;
        let e = expr_node(ExpressionKind::Binary { left: Box::new(left), op: BinaryOperator::Or, right: Box::new(right) }, loc);
        assert(tok_sym(toks@, p as int, logical_sym(6)));
        Ok((e, q))
    } else {
        Ok((left, p))
    }
}

/// a conjunction (right associative)
fn parse_and(toks: &Tokens, pos: usize, eof: usize) -> (r: Parsed<Expression<LocationMeta>>)
    requires
        pos <= toks@.len(),
    ensures
        progress(r, pos, toks@.len()),
        some_errors(r),
        r matches Ok((e, p)) ==> derives_expr(toks@, eof, pos as int, p as int, e, 5),
    decreases toks@.len() - pos, 6nat,
{
    let loc = location(toks, pos, eof);
    let (left, p) = parse_rel(toks, pos, eof)?;
    if at_sym(toks, p, Sym::AndAnd) {
        let (right, q) = parse_and(toks, p + 1, eof)?;
        let e = expr_node(ExpressionKind::Binary { left: Box::new(left), op: BinaryOperator::And, right: Box::new(right) }, loc);
        assert(tok_sym(toks@, p as int, logical_sym(5)));
        Ok((e, q))
    } else {
        Ok((left, p))
    }
}

/// the binary operator at `pos`, among relational (`level` 4), additive (3) and
/// multiplicative (2) ones
fn binary_op_at(toks: &Tokens, pos: usize, level: u8) -> (r: Option<BinaryOperator>)
    requires
        2 <= level <= 4,
    ensures
        r == binop_at(toks@, pos as int, level as nat),
        r is Some ==> pos < toks@.len() && pos < usize::MAX,
{
    if pos >= toks.len() {
        return None;
    }
    match &toks[pos].0 {
        Token::Sym { s } => {
            if level == 4 {
                match s {
                    Sym::Lt => Some(BinaryOperator::Less),
                    Sym::Le => Some(BinaryOperator::LessEqual),
                    Sym::Gt => Some(BinaryOperator::Greater),
                    Sym::Ge => Some(BinaryOperator::GreaterEqual),
                    Sym::EqEq => Some(BinaryOperator::Equal),
                    Sym::Ne => Some(BinaryOperator::NotEqual),
                    _ => None,
                }
            } else if level == 3 {
                match s {
                    Sym::Plus => Some(BinaryOperator::Plus),
                    Sym::Minus => Some(BinaryOperator::Minus),
                    _ => None,
                }
            } else {
                match s {
                    Sym::Star => Some(BinaryOperator::Times),
                    Sym::Slash => Some(BinaryOperator::Divide),
                    Sym::Percent => Some(BinaryOperator::Modulo),
                    _ => None,
                }
            }
        },
        _ => None,
    }
}

/// a comparison (left associative)
fn parse_rel(toks: &Tokens, pos: usize, eof: usize) -> (r: Parsed<Expression<LocationMeta>>)
    requires
        pos <= toks@.len(),
    ensures
        progress(r, pos, toks@.len()),
        some_errors(r),
        r matches Ok((e, p)) ==> derives_expr(toks@, eof, pos as int, p as int, e, 4),
    decreases toks@.len() - pos, 5nat,
{
    let loc = location(toks, pos, eof);
    let (mut left, mut p) = parse_add(toks, pos, eof)?;
    loop
        invariant
            pos < p <= toks@.len(),
            loc == loc_at(toks@, eof, pos as int),
            derives_expr(toks@, eof, pos as int, p as int, left, 4),
        decreases toks@.len() - p,
    {
        match binary_op_at(toks, p, 4) {
            Some(op) => {
                let (right, q) = parse_add(toks, p + 1, eof)?;
                let ghost k = p as int;
                left = expr_node(ExpressionKind::Binary { left: Box::new(left), op, right: Box::new(right) }, loc);
                p = q;
                assert(binop_at(toks@, k, 4) == Some(op));
            },
            None => {
                return Ok((left, p));
            },
        }
    }
}

/// a sum or a difference (left associative)
fn parse_add(toks: &Tokens, pos: usize, eof: usize) -> (r: Parsed<Expression<LocationMeta>>)
    requires
        pos <= toks@.len(),
    ensures
        progress(r, pos, toks@.len()),
        some_errors(r),
        r matches Ok((e, p)) ==> derives_expr(toks@, eof, pos as int, p as int, e, 3),
    decreases toks@.len() - pos, 4nat,
{
    let loc = location(toks, pos, eof);
    let (mut left, mut p) = parse_mul(toks, pos, eof)?;
    loop
        invariant
            pos < p <= toks@.len(),
            loc == loc_at(toks@, eof, pos as int),
            derives_expr(toks@, eof, pos as int, p as int, left, 3),
        decreases toks@.len() - p,
    {
        match binary_op_at(toks, p, 3) {
            Some(op) => {
                let (right, q) = parse_mul(toks, p + 1, eof)?;
                let ghost k = p as int;
                left = expr_node(ExpressionKind::Binary { left: Box::new(left), op, right: Box::new(right) }, loc);
                p = q;
                assert(binop_at(toks@, k, 3) == Some(op));
            },
            None => {
                return Ok((left, p));
            },
        }
    }
}

/// a product, a quotient or a remainder (left associative)
fn parse_mul(toks: &Tokens, pos: usize, eof: usize) -> (r: Parsed<Expression<LocationMeta>>)
    requires
        pos <= toks@.len(),
    ensures
        progress(r, pos, toks@.len()),
        some_errors(r),
        r matches Ok((e, p)) ==> derives_expr(toks@, eof, pos as int, p as int, e, 2),
    decreases toks@.len() - pos, 3nat,
{
    let loc = location(toks, pos, eof);
    let (mut left, mut p) = parse_unary(toks, pos, eof)?;
    loop
        invariant
            pos < p <= toks@.len(),
            loc == loc_at(toks@, eof, pos as int),
            derives_expr(toks@, eof, pos as int, p as int, left, 2),
        decreases toks@.len() - p,
    {
        match binary_op_at(toks, p, 2) {
            Some(op) => {
                let (right, q) = parse_unary(toks, p + 1, eof)?;
                let ghost k = p as int;
                left = expr_node(ExpressionKind::Binary { left: Box::new(left), op, right: Box::new(right) }, loc);
                p = q;
                assert(binop_at(toks@, k, 2) == Some(op));
            },
            None => {
                return Ok((left, p));
            },
        }
    }
}

/// a negation, a logical negation, or a primary expression
fn parse_unary(toks: &Tokens, pos: usize, eof: usize) -> (r: Parsed<Expression<LocationMeta>>)
    requires
        pos <= toks@.len(),
    ensures
        progress(r, pos, toks@.len()),
        some_errors(r),
        r matches Ok((e, p)) ==> derives_expr(toks@, eof, pos as int, p as int, e, 1),
    decreases toks@.len() - pos, 2nat,
{
    let loc = location(toks, pos, eof);
    if at_sym(toks, pos, Sym::Minus) {
        let (arg, p) = parse_unary(toks, pos + 1, eof)?;
        Ok((expr_node(ExpressionKind::Unary { op: UnaryOperator::Neg, arg: Box::new(arg) }, loc), p))
    } else if at_sym(toks, pos, Sym::Bang) {
        let (arg, p) = parse_unary(toks, pos + 1, eof)?;
        Ok((expr_node(ExpressionKind::Unary { op: UnaryOperator::Not, arg: Box::new(arg) }, loc), p))
    } else {
        parse_primary(toks, pos, eof)
    }
}

/// a literal, a reference, a call, an object or array creation, a cast of `null`, or an
/// expression in parentheses
fn parse_primary(toks: &Tokens, pos: usize, eof: usize) -> (r: Parsed<Expression<LocationMeta>>)
    requires
        pos <= toks@.len(),
    ensures
        progress(r, pos, toks@.len()),
        some_errors(r),
        r matches Ok((e, p)) ==> derives_expr(toks@, eof, pos as int, p as int, e, 0),
    decreases toks@.len() - pos, 1nat,
{
    if pos >= toks.len() {
        return Err(unexpected(toks, pos, eof));
    }
    let loc = LocationMeta { offset: toks[pos].1 };
    match &toks[pos].0 {
        Token::IntLit { value } => {
            let node = expr_node(ExpressionKind::LitInt { val: *value }, loc);
            let next = pos + 1;
            assert(derives_primary(toks@, eof, pos as int, next as int, node));
            Ok((node, next))
        },
        Token::StrLit { text } => {
            let node = expr_node(ExpressionKind::LitStr { val: text.clone() }, loc);
            let next = pos + 1;
            assert(derives_primary(toks@, eof, pos as int, next as int, node));
            Ok((node, next))
        },
        Token::Word { w } => match w {
            Word::True => {
                let node = expr_node(ExpressionKind::LitBool { val: true }, loc);
                let next = pos + 1;
                assert(derives_primary(toks@, eof, pos as int, next as int, node));
                Ok((node, next))
            },
            Word::False => {
                let node = expr_node(ExpressionKind::LitBool { val: false }, loc);
                let next = pos + 1;
                assert(derives_primary(toks@, eof, pos as int, next as int, node));
                Ok((node, next))
            },
            Word::Null => {
                let node = expr_node(ExpressionKind::LitNull, loc);
                let next = pos + 1;
                assert(derives_primary(toks@, eof, pos as int, next as int, node));
                Ok((node, next))
            },
            Word::New => {
                let (base, p) = parse_base_type(toks, pos + 1, eof)?;
                if at_sym(toks, p, Sym::LBracket) {
                    let (size, q) = parse_expr(toks, p + 1, eof)?;
                    let end = expect_sym(toks, q, Sym::RBracket, eof)?;
                    let t = Type::Array { item_t: Box::new(base) };
                    let node = expr_node(ExpressionKind::InitArr { t, size: Box::new(size) }, loc);
                    let next = end;
                    assert(derives_primary(toks@, eof, pos as int, next as int, node));
                    Ok((node, next))
                } else {
                    let node = expr_node(ExpressionKind::InitDefault { t: base }, loc);
                    let next = p;
                    assert(derives_primary(toks@, eof, pos as int, next as int, node));
                    Ok((node, next))
                }
            },
            Word::SelfObj => {
                let p = expect_sym(toks, pos + 1, Sym::Dot, eof)?;
                let (field, q) = expect_ident(toks, p, eof)?;
                let r = Meta::new(ReferenceKind::ObjectSelf { field }, loc);
                assert(derives_reference(toks@, eof, pos as int, q as int, r));
                if at_sym(toks, q, Sym::LParen) {
                    let (args, end) = parse_args(toks, q + 1, eof)?;
                    let node = expr_node(ExpressionKind::App { r, args }, loc);
                    let next = end;
                    assert(derives_primary(toks@, eof, pos as int, next as int, node));
                    Ok((node, next))
                } else {
                    let node = expr_node(ExpressionKind::Reference { r }, loc);
                    let next = q;
                    assert(derives_primary(toks@, eof, pos as int, next as int, node));
                    Ok((node, next))
                }
            },
            _ => Err(unexpected(toks, pos, eof)),
        },
        Token::Ident { name } => {
            let p = pos + 1;
            if at_sym(toks, p, Sym::LParen) {
                let (args, end) = parse_args(toks, p + 1, eof)?;
                let r = Meta::new(ReferenceKind::Ident { ident: name.clone() }, loc);
                assert(derives_reference(toks@, eof, pos as int, p as int, r));
                let node = expr_node(ExpressionKind::App { r, args }, loc);
                let next = end;
                assert(derives_primary(toks@, eof, pos as int, next as int, node));
                Ok((node, next))
            } else if at_sym(toks, p, Sym::Dot) {
                let (field, q) = expect_ident(toks, p + 1, eof)?;
                let r = Meta::new(ReferenceKind::Object { obj: name.clone(), field }, loc);
                assert(derives_reference(toks@, eof, pos as int, q as int, r));
                if at_sym(toks, q, Sym::LParen) {
                    let (args, end) = parse_args(toks, q + 1, eof)?;
                    let node = expr_node(ExpressionKind::App { r, args }, loc);
                    let next = end;
                    assert(derives_primary(toks@, eof, pos as int, next as int, node));
                    Ok((node, next))
                } else {
                    let node = expr_node(ExpressionKind::Reference { r }, loc);
                    let next = q;
                    assert(derives_primary(toks@, eof, pos as int, next as int, node));
                    Ok((node, next))
                }
            } else if at_sym(toks, p, Sym::LBracket) {
                let (idx, q) = parse_expr(toks, p + 1, eof)?;
                let end = expect_sym(toks, q, Sym::RBracket, eof)?;
                let r = Meta::new(ReferenceKind::Array { arr: name.clone(), idx: Box::new(idx) }, loc);
                assert(derives_reference(toks@, eof, pos as int, end as int, r));
                let node = expr_node(ExpressionKind::Reference { r }, loc);
                let next = end;
                assert(derives_primary(toks@, eof, pos as int, next as int, node));
                Ok((node, next))
            } else {
                let r = Meta::new(ReferenceKind::Ident { ident: name.clone() }, loc);
                assert(derives_reference(toks@, eof, pos as int, p as int, r));
                let node = expr_node(ExpressionKind::Reference { r }, loc);
                let next = p;
                assert(derives_primary(toks@, eof, pos as int, next as int, node));
                Ok((node, next))
            }
        },
        Token::Sym { s } => {
            if *s == Sym::LParen {
                // a cast of null: `(Class) null`
                if at_ident(toks, pos + 1) && at_sym(toks, pos + 2, Sym::RParen) && at_word(toks, pos + 3, Word::Null) {
                    let ident = match &toks[pos + 1].0 {
                        Token::Ident { name } => name.clone(),
                        _ => {
                            assert(false);
                            String::new()
                        },
                    };
                    let null_loc = LocationMeta { offset: toks[pos + 3].1 };
                    let inner = expr_node(ExpressionKind::LitNull, null_loc);
                    let t = Type::Class { ident };
                    let node = expr_node(ExpressionKind::Cast { t, expr: Box::new(inner) }, loc);
                    let next = pos + 4;
                    assert(derives_primary(toks@, eof, pos as int, next as int, node));
                    return Ok((node, next));
                }
                let (e, p) = parse_expr(toks, pos + 1, eof)?;
                let end = expect_sym(toks, p, Sym::RParen, eof)?;
                Ok((e, end))
            } else {
                Err(unexpected(toks, pos, eof))
            }
        },
    }
}

/// a statement node of the given kind at the given location
fn stmt_node(kind: StatementKind<LocationMeta>, loc: LocationMeta) -> (r: Statement<LocationMeta>)
    ensures
        r.item == kind,
        r.meta == loc,
{
    Meta::new(kind, loc)
}

/// the token at `i` is an identifier
pub open spec fn ident_at(ts: Seq<(Token, usize)>, i: int) -> bool {
    0 <= i < ts.len() && ts[i].0 is Ident
}

/// the tokens at `i` look like the start of a declaration: a basic type, or a class name
/// followed by a name or by `[]`
pub open spec fn declaration_start(ts: Seq<(Token, usize)>, i: int) -> bool {
    ||| tok_word(ts, i, Word::Int) || tok_word(ts, i, Word::Str) || tok_word(ts, i, Word::Boolean) || tok_word(ts, i, Word::Void)
    ||| ident_at(ts, i) && (ident_at(ts, i + 1) || (tok_sym(ts, i + 1, Sym::LBracket) && tok_sym(ts, i + 2, Sym::RBracket)))
}

/// the statement at `pos` starts with a type (it is a declaration)
fn starts_declaration(toks: &Tokens, pos: usize) -> (r: bool)
    ensures
        r == declaration_start(toks@, pos as int),
{
    if at_word(toks, pos, Word::Int) || at_word(toks, pos, Word::Str) || at_word(toks, pos, Word::Boolean)
        || at_word(toks, pos, Word::Void) {
        true
    } else if at_ident(toks, pos) {
        at_ident(toks, pos + 1) || (at_sym(toks, pos + 1, Sym::LBracket) && at_sym(toks, pos + 2, Sym::RBracket))
    } else {
        false
    }
}

/// the items of a declaration (after its type), up to and including its `;`
fn parse_decl_items(toks: &Tokens, pos: usize, eof: usize) -> (r: Parsed<Vec<DeclItem<LocationMeta>>>)
    requires
        pos <= toks@.len(),
    ensures
        progress(r, pos, toks@.len()),
        some_errors(r),
        r matches Ok((items, p)) ==> derives_decl_items(toks@, eof, pos as int, p as int, items@),
    decreases toks@.len() - pos, 20nat,
{
    let mut items: Vec<DeclItem<LocationMeta>> = Vec::new();
    let mut p = pos;
    loop
        invariant
            pos <= p <= toks@.len(),
            (p == pos && items@.len() == 0) || (items@.len() >= 1 && p >= pos + 2
                && derives_decl_list(toks@, eof, pos as int, p - 1, items@) && tok_sym(toks@, p - 1, Sym::Comma)),
        decreases toks@.len() - p,
    {
        let loc = location(toks, p, eof);
        let (ident, q) = expect_ident(toks, p, eof)?;
        let (kind, q) = if at_sym(toks, q, Sym::Assign) {
            let (val, q2) = parse_expr(toks, q + 1, eof)?;
            (DeclItemKind::Init { ident, val: Box::new(val) }, q2)
        } else {
            (DeclItemKind::NoInit { ident }, q)
        };
        let ghost before = items@;
        items.push(Meta::new(kind, loc));
        proof {
            assert(derives_decl_item(toks@, eof, p as int, q as int, items@.last()));
            if before.len() >= 1 {
                assert(items@.drop_last() =~= before);
                assert(tok_sym(toks@, p - 1, Sym::Comma));
            }
            assert(derives_decl_list(toks@, eof, pos as int, q as int, items@));
        }
        if at_sym(toks, q, Sym::Comma) {
            p = q + 1;
        } else {
            let end = expect_sym(toks, q, Sym::Semi, eof)?;
            return Ok((items, end));
        }
    }
}

/// a block: statements between braces
pub fn parse_block(toks: &Tokens, pos: usize, eof: usize) -> (r: Parsed<Block<LocationMeta>>)
    requires
        pos <= toks@.len(),
    ensures
        progress(r, pos, toks@.len()),
        some_errors(r),
        r matches Ok((b, p)) ==> derives_block(toks@, eof, pos as int, p as int, b),
    decreases toks@.len() - pos, 21nat,
{
    let loc = location(toks, pos, eof);
    let mut p = expect_sym(toks, pos, Sym::LBrace, eof)?;
    let mut stmts: Vec<Box<Statement<LocationMeta>>> = Vec::new();
    while !at_sym(toks, p, Sym::RBrace)
        invariant
            pos < p <= toks@.len(),
            derives_stmts(toks@, eof, pos + 1, p as int, stmts@),
        decreases toks@.len() - p,
    {
        let (st, q) = parse_stmt(toks, p, eof)?;
        proof {
            lemma_stmts_push(toks@, eof, pos + 1, p as int, q as int, stmts@, st);
        }
        stmts.push(Box::new(st));
        p = q;
    }
    Ok((Meta::new(BlockItem { stmts }, loc), p + 1))
}

/// a statement
pub fn parse_stmt(toks: &Tokens, pos: usize, eof: usize) -> (r: Parsed<Statement<LocationMeta>>)
    requires
        pos <= toks@.len(),
    ensures
        progress(r, pos, toks@.len()),
        some_errors(r),
        r matches Ok((s, p)) ==> derives_stmt(toks@, eof, pos as int, p as int, s),
    decreases toks@.len() - pos, 22nat,
{
    let loc = location(toks, pos, eof);
    if at_sym(toks, pos, Sym::Semi) {
        Ok((stmt_node(StatementKind::Empty, loc), pos + 1))
    } else if at_sym(toks, pos, Sym::LBrace) {
        let (block, p) = parse_block(toks, pos, eof)?;
        Ok((stmt_node(StatementKind::Block { block }, loc), p))
    } else if at_word(toks, pos, Word::Return) {
        if at_sym(toks, pos + 1, Sym::Semi) {
            Ok((stmt_node(StatementKind::Return { expr: None }, loc), pos + 2))
        } else {
            let (e, p) = parse_expr(toks, pos + 1, eof)?;
            let end = expect_sym(toks, p, Sym::Semi, eof)?;
            Ok((stmt_node(StatementKind::Return { expr: Some(Box::new(e)) }, loc), end))
        }
    } else if at_word(toks, pos, Word::If) {
        let p = expect_sym(toks, pos + 1, Sym::LParen, eof)?;
        let (cond, k) = parse_expr(toks, p, eof)?;
        let p = expect_sym(toks, k, Sym::RParen, eof)?;
        let (stmt_true, m) = parse_stmt(toks, p, eof)?;
        if at_word(toks, m, Word::Else) {
            let (stmt_false, q) = parse_stmt(toks, m + 1, eof)?;
            let kind = StatementKind::CondElse { expr: Box::new(cond), stmt_true: Box::new(stmt_true), stmt_false: Box::new(stmt_false) };
            let node = stmt_node(kind, loc);
            assert(tok_sym(toks@, k as int, Sym::RParen) && tok_word(toks@, m as int, Word::Else));
            assert(derives_stmt(toks@, eof, pos as int, q as int, node));
            Ok((node, q))
        } else {
            let node = stmt_node(StatementKind::Cond { expr: Box::new(cond), stmt: Box::new(stmt_true) }, loc);
            assert(tok_sym(toks@, k as int, Sym::RParen));
            assert(derives_stmt(toks@, eof, pos as int, m as int, node));
            Ok((node, m))
        }
    } else if at_word(toks, pos, Word::While) {
        let p = expect_sym(toks, pos + 1, Sym::LParen, eof)?;
        let (cond, k) = parse_expr(toks, p, eof)?;
        let p = expect_sym(toks, k, Sym::RParen, eof)?;
        let (body, p) = parse_stmt(toks, p, eof)?;
        let node = stmt_node(StatementKind::While { expr: Box::new(cond), stmt: Box::new(body) }, loc);
        assert(tok_sym(toks@, k as int, Sym::RParen));
        assert(derives_stmt(toks@, eof, pos as int, p as int, node));
        Ok((node, p))
    } else if at_word(toks, pos, Word::For) {
        let p = expect_sym(toks, pos + 1, Sym::LParen, eof)?;
        let (t, k) = parse_type(toks, p, eof)?;
        let (ident, p) = expect_ident(toks, k, eof)?;
        let p = expect_sym(toks, p, Sym::Colon, eof)?;
        let (arr, m) = parse_expr(toks, p, eof)?;
        let p = expect_sym(toks, m, Sym::RParen, eof)?;
        let (body, p) = parse_stmt(toks, p, eof)?;
        let kind = StatementKind::For { t, ident, arr: Box::new(arr), stmt: Box::new(body) };
        let node = stmt_node(kind, loc);
        assert(tok_ident(toks@, k as int, ident) && tok_sym(toks@, m as int, Sym::RParen));
        assert(derives_for(toks@, eof, pos as int, p as int, t, ident, arr, body));
        assert(derives_stmt(toks@, eof, pos as int, p as int, node));
        Ok((node, p))
    } else if starts_declaration(toks, pos) {
        let (t, k) = parse_type(toks, pos, eof)?;
        let (items, p) = parse_decl_items(toks, k, eof)?;
        let node = stmt_node(StatementKind::Decl { t, items }, loc);
        assert(derives_type(toks@, pos as int, k as int, t));
        assert(derives_decl(toks@, eof, pos as int, p as int, t, items@));
        assert(derives_stmt(toks@, eof, pos as int, p as int, node));
        Ok((node, p))
    } else {
        // an assignment, an increment, a decrement or an expression
        let (e, p) = parse_expr(toks, pos, eof)?;
        let ghost target = e;
        if at_sym(toks, p, Sym::Assign) {
            let (val, q) = parse_expr(toks, p + 1, eof)?;
            let end = expect_sym(toks, q, Sym::Semi, eof)?;
            match e.item {
                ExpressionKind::Reference { r } => {
                    let node = stmt_node(StatementKind::Ass { r, expr: Box::new(val) }, loc);
                    assert(derives_expr(toks@, eof, pos as int, p as int, target, 6) && tok_sym(toks@, p as int, Sym::Assign));
                    assert(derives_assignment(toks@, eof, pos as int, end as int, r, val));
                    assert(derives_stmt(toks@, eof, pos as int, end as int, node));
                    Ok((node, end))
                },
                _ => {
                    let message = String::from_str("Invalid assignment target");
                    Err(vec![Meta::new(FrontendErrorKind::ParseError { message }, loc)])
                },
            }
        } else if at_sym(toks, p, Sym::Incr) || at_sym(toks, p, Sym::Decr) {
            let op = if at_sym(toks, p, Sym::Incr) { StatementOp::Increment } else { StatementOp::Decrement };
            let end = expect_sym(toks, p + 1, Sym::Semi, eof)?;
            match e.item {
                ExpressionKind::Reference { r } => {
                    let node = stmt_node(StatementKind::Mut { r, op }, loc);
                    assert(tok_sym(toks@, p as int, mut_sym(op)));
                    assert(derives_expr(toks@, eof, pos as int, end - 2, target, 6));
                    assert(derives_mutation(toks@, eof, pos as int, end as int, r, op));
                    assert(derives_stmt(toks@, eof, pos as int, end as int, node));
                    Ok((node, end))
                },
                _ => {
                    let message = String::from_str("Invalid increment target");
                    Err(vec![Meta::new(FrontendErrorKind::ParseError { message }, loc)])
                },
            }
        } else {
            let end = expect_sym(toks, p, Sym::Semi, eof)?;
            Ok((stmt_node(StatementKind::Expr { expr: Box::new(e) }, loc), end))
        }
    }
}

/// the arguments of a function, after its `(`, up to and including its `)`
fn parse_params(toks: &Tokens, pos: usize, eof: usize) -> (r: Parsed<Vec<Arg<LocationMeta>>>)
    requires
        pos <= toks@.len(),
    ensures
        progress(r, pos, toks@.len()),
        some_errors(r),
        r matches Ok((args, p)) ==> derives_params(toks@, eof, pos as int, p as int, args@),
{
    let mut args: Vec<Arg<LocationMeta>> = Vec::new();
    if at_sym(toks, pos, Sym::RParen) {
        return Ok((args, pos + 1));
    }
    let mut p = pos;
    loop
        invariant
            pos <= p <= toks@.len(),
            (p == pos && args@.len() == 0) || (args@.len() >= 1 && p >= pos + 2
                && derives_param_list(toks@, eof, pos as int, p - 1, args@) && tok_sym(toks@, p - 1, Sym::Comma)),
        decreases toks@.len() - p,
    {
        let loc = location(toks, p, eof);
        let (t, k) = parse_type(toks, p, eof)?;
        let (ident, q) = expect_ident(toks, k, eof)?;
        let ghost before = args@;
        args.push(Meta::new(ArgItem { t, ident }, loc));
        proof {
            assert(derives_param(toks@, eof, p as int, q as int, args@.last()));
            if before.len() >= 1 {
                assert(args@.drop_last() =~= before);
                assert(tok_sym(toks@, p - 1, Sym::Comma));
            }
            assert(derives_param_list(toks@, eof, pos as int, q as int, args@));
        }
        if at_sym(toks, q, Sym::Comma) {
            p = q + 1;
        } else {
            let end = expect_sym(toks, q, Sym::RParen, eof)?;
            return Ok((args, end));
        }
    }
}

/// the rest of a function definition (its arguments and its body), after its name
fn parse_function_rest(toks: &Tokens, ret: Type, ident: String, loc: LocationMeta, pos: usize, eof: usize) -> (r: Parsed<Function<LocationMeta>>)
    requires
        pos <= toks@.len(),
    ensures
        progress(r, pos, toks@.len()),
        some_errors(r),
        r matches Ok((f, p)) ==> f.meta == loc && f.item.ret == ret && f.item.ident == ident && tok_sym(toks@, pos as int, Sym::LParen)
            && exists|m: int| #![trigger derives_params(toks@, eof, pos + 1, m, f.item.args@)] pos + 1 < m < p
                && derives_params(toks@, eof, pos + 1, m, f.item.args@) && derives_block(toks@, eof, m, p as int, f.item.block),
{
    let p = expect_sym(toks, pos, Sym::LParen, eof)?;
    let (args, m) = parse_params(toks, p, eof)?;
    let (block, p) = parse_block(toks, m, eof)?;
    let ghost args0 = args@;
    let ghost block0 = block;
    match FunctionItem::new(ret, ident, args, block) {
        Ok(item) => {
            let f = Meta::new(item, loc);
            assert(f.item.args@ == args0 && f.item.block == block0);
            assert(derives_params(toks@, eof, pos + 1, m as int, f.item.args@));
            Ok((f, p))
        },
        Err(e) => Err(e),
    }
}

/// a function definition
pub fn parse_function(toks: &Tokens, pos: usize, eof: usize) -> (r: Parsed<Function<LocationMeta>>)
    requires
        pos <= toks@.len(),
    ensures
        progress(r, pos, toks@.len()),
        some_errors(r),
        r matches Ok((f, p)) ==> derives_function(toks@, eof, pos as int, p as int, f),
{
    let loc = location(toks, pos, eof);
    let (ret, k) = parse_type(toks, pos, eof)?;
    let (ident, q) = expect_ident(toks, k, eof)?;
    let ghost ret0 = ret;
    let ghost ident0 = ident;
    let res = parse_function_rest(toks, ret, ident, loc, q, eof);
    proof {
        if res is Ok {
            let f = res->Ok_0.0;
            let p = res->Ok_0.1;
            let m = choose|m: int| #![trigger derives_params(toks@, eof, q + 1, m, f.item.args@)] q + 1 < m < p
                && derives_params(toks@, eof, q + 1, m, f.item.args@) && derives_block(toks@, eof, m, p as int, f.item.block);
            assert(derives_type(toks@, pos as int, k as int, f.item.ret));
            assert(tok_ident(toks@, k as int, f.item.ident));
            assert(derives_params(toks@, eof, k + 2, m, f.item.args@));
        }
    }
    res
}

/// a class definition: its name, its parent and its members (instance variables and methods)
pub fn parse_class(toks: &Tokens, pos: usize, eof: usize) -> (r: Parsed<crate::frontend::ast::Class<LocationMeta>>)
    requires
        pos <= toks@.len(),
    ensures
        progress(r, pos, toks@.len()),
        some_errors(r),
        r matches Ok((c, _)) ==> c.item.vars.wf() && c.item.methods.wf(),
        r matches Ok((c, p)) ==> derives_class(toks@, eof, pos as int, p as int, c),
{
    let loc = location(toks, pos, eof);
    if !at_word(toks, pos, Word::Class) {
        return Err(unexpected(toks, pos, eof));
    }
    let (ident, p) = expect_ident(toks, pos + 1, eof)?;
    let (parent, p) = if at_word(toks, p, Word::Extends) {
        let (parent, q) = expect_ident(toks, p + 1, eof)?;
        (Some(parent), q)
    } else {
        (None, p)
    };
    let mut p = expect_sym(toks, p, Sym::LBrace, eof)?;
    let body = p;
    let mut vars: Vec<ClassVar<LocationMeta>> = Vec::new();
    let mut methods: Vec<Function<LocationMeta>> = Vec::new();
    while !at_sym(toks, p, Sym::RBrace)
        invariant
            pos < body <= p <= toks@.len(),
            forall|n: int| 0 <= n < vars@.len() ==> declares_var(toks@, body as int, p as int, #[trigger] vars@[n]),
            forall|n: int| 0 <= n < methods@.len() ==> defines_method(toks@, eof, body as int, p as int, #[trigger] methods@[n]),
        decreases toks@.len() - p,
    {
        let member_loc = location(toks, p, eof);
        let (t, k) = parse_type(toks, p, eof)?;
        let (name, q) = expect_ident(toks, k, eof)?;
        let ghost p0 = p;
        if at_sym(toks, q, Sym::LParen) {
            let ghost t0 = t;
            let ghost name0 = name;
            let (method, q2) = parse_function_rest(toks, t, name, member_loc, q, eof)?;
            proof {
                let m = choose|m: int| #![trigger derives_params(toks@, eof, q + 1, m, method.item.args@)] q + 1 < m < q2
                    && derives_params(toks@, eof, q + 1, m, method.item.args@) && derives_block(toks@, eof, m, q2 as int, method.item.block);
                assert(derives_type(toks@, p0 as int, k as int, method.item.ret));
                assert(tok_ident(toks@, k as int, method.item.ident));
                assert(derives_params(toks@, eof, k + 2, m, method.item.args@));
                assert(derives_function(toks@, eof, p0 as int, q2 as int, method));
            }
            let ghost before = methods@;
            methods.push(method);
            p = q2;
            proof {
                assert forall|n: int| 0 <= n < vars@.len() implies declares_var(toks@, body as int, p as int, #[trigger] vars@[n]) by {
                    lemma_declares_var_wider(toks@, body as int, p0 as int, p as int, vars@[n]);
                }
                assert forall|n: int| 0 <= n < methods@.len() implies defines_method(toks@, eof, body as int, p as int, #[trigger] methods@[n]) by {
                    if n < before.len() {
                        lemma_defines_method_wider(toks@, eof, body as int, p0 as int, p as int, methods@[n]);
                    }
                }
            }
        } else {
            // one or more instance variables of the same type
            let ghost t0 = t;
            let ghost vars_before = vars@;
            vars.push(Meta::new(ClassVarItem { t: t.copy(), ident: name }, member_loc));
            let mut q = q;
            proof {
                assert(derives_type(toks@, p0 as int, k as int, t0));
                assert forall|n: int| 0 <= n < vars@.len() implies declares_var(toks@, body as int, q as int, #[trigger] vars@[n]) by {
                    if n < vars_before.len() {
                        lemma_declares_var_wider(toks@, body as int, p0 as int, q as int, vars@[n]);
                    } else {
                        assert(tok_ident(toks@, k as int, vars@[n].item.ident));
                        assert(derives_type(toks@, p0 as int, k as int, t0) && t0@ == vars@[n].item.t@);
                    }
                }
            }
            while at_sym(toks, q, Sym::Comma)
                invariant
                    p0 < k < q <= toks@.len(),
                    body <= p0,
                    t == t0,
                    derives_type(toks@, p0 as int, k as int, t0),
                    forall|n: int| 0 <= n < vars@.len() ==> declares_var(toks@, body as int, q as int, #[trigger] vars@[n]),
                decreases toks@.len() - q,
            {
                let var_loc = location(toks, q + 1, eof);
                let (other, q2) = expect_ident(toks, q + 1, eof)?;
                let ghost vars_mid = vars@;
                vars.push(Meta::new(ClassVarItem { t: t.copy(), ident: other }, var_loc));
                proof {
                    assert forall|n: int| 0 <= n < vars@.len() implies declares_var(toks@, body as int, q2 as int, #[trigger] vars@[n]) by {
                        if n < vars_mid.len() {
                            lemma_declares_var_wider(toks@, body as int, q as int, q2 as int, vars@[n]);
                        } else {
                            assert(tok_ident(toks@, q + 1, vars@[n].item.ident));
                            assert(derives_type(toks@, p0 as int, k as int, t0) && t0@ == vars@[n].item.t@);
                        }
                    }
                }
                q = q2;
            }
            let end = expect_sym(toks, q, Sym::Semi, eof)?;
            proof {
                assert forall|n: int| 0 <= n < vars@.len() implies declares_var(toks@, body as int, end as int, #[trigger] vars@[n]) by {
                    lemma_declares_var_wider(toks@, body as int, q as int, end as int, vars@[n]);
                }
                assert forall|n: int| 0 <= n < methods@.len() implies defines_method(toks@, eof, body as int, end as int, #[trigger] methods@[n]) by {
                    lemma_defines_method_wider(toks@, eof, body as int, p0 as int, end as int, methods@[n]);
                }
            }
            p = end;
        }
    }
    let ghost vars0 = vars@;
    let ghost methods0 = methods@;
    let item = ClassItem::new(ident, &mut vars, &mut methods)?;
    let item = match &parent {
        Some(pname) => item.with_parent(pname),
        None => item,
    };
    let c = Meta::new(item, loc);
    proof {
        assert forall|n: int| 0 <= n < c.item.vars.entries@.len() implies
            declares_var(toks@, body as int, p as int, #[trigger] c.item.vars.entries@[n].1) by {
            assert(c.item.vars.entries@[n].1 == vars0[n]);
        }
        assert forall|n: int| 0 <= n < c.item.methods.entries@.len() implies
            defines_method(toks@, eof, body as int, p as int, #[trigger] c.item.methods.entries@[n].1) by {
            assert(c.item.methods.entries@[n].1 == methods0[n]);
        }
    }
    Ok((c, p + 1))
}

} // verus!
