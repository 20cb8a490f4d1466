//! The type checker as a mapper from syntax trees with locations to typed syntax trees.
use vstd::prelude::*;

use crate::frontend::ast::{Arg, ArgItem, BinaryOperator, Block, BlockItem, Class, ClassItem, ClassVar, ClassVarItem,
    DeclItem, DeclItemKind, Expression, ExpressionKind, Function, FunctionItem, Keyed, Reference, ReferenceKind,
    Statement, StatementKind, Type, TypeV, UnaryOperator, arg_types};
use crate::frontend::error::{FrontendError, FrontendErrorKind};
use crate::frontend::typechecker::typechecker::{TypeChecker, assignable, local_type};
use crate::meta::{LocationMeta, Meta, TypeMeta};
use crate::util::env::Env;
use crate::util::mapper::AstMapper;
use crate::util::text::{concat, usize_to_string};
use crate::frontend::preprocessor::block_organizer::{block_returns, ends_in_return};

verus! {

broadcast use {vstd::std_specs::vec::axiom_vec_decreases_to_view, vstd::std_specs::vec::axiom_vec_index_decreases};

pub type TypeCheckResult<AstT> = Result<AstT, Vec<FrontendError<LocationMeta>>>;

/// type of the argument and of the result of a unary operator
pub open spec fn unary_type(op: UnaryOperator) -> TypeV {
    match op {
        UnaryOperator::Neg => TypeV::Int,
        UnaryOperator::Not => TypeV::Bool,
    }
}

/// type of the result of a binary operator whose two arguments have type `t`, if the
/// operator applies to them
pub open spec fn binary_type(op: BinaryOperator, t: TypeV) -> Option<TypeV> {
    match op {
        BinaryOperator::Equal | BinaryOperator::NotEqual => Some(TypeV::Bool),
        BinaryOperator::Plus => if t is Str || t is Int { Some(t) } else { None },
        BinaryOperator::And | BinaryOperator::Or => if t is Bool { Some(TypeV::Bool) } else { None },
        BinaryOperator::Greater | BinaryOperator::GreaterEqual | BinaryOperator::LessEqual | BinaryOperator::Less =>
            if t is Int { Some(TypeV::Bool) } else { None },
        _ => if t is Int { Some(TypeV::Int) } else { None },
    }
}

/// the expression is built of literals and variables by unary and binary operators
pub open spec fn is_simple(e: Expression<LocationMeta>) -> bool
    decreases e,
{
    match e.item {
        ExpressionKind::LitInt { .. } | ExpressionKind::LitBool { .. } | ExpressionKind::LitStr { .. } | ExpressionKind::LitNull => true,
        ExpressionKind::Reference { r } => r.item is Ident,
        ExpressionKind::Unary { arg, .. } => is_simple(*arg),
        ExpressionKind::Binary { left, right, .. } => is_simple(*left) && is_simple(*right),
        _ => false,
    }
}

/// the type of a simple expression in the context of `tc`, if it is well typed: a literal has
/// its type, a variable the type it is declared with, a unary operator needs an operand of its
/// type, and a binary operator two operands of one type that it applies to
pub open spec fn simple_type(tc: TypeChecker, e: Expression<LocationMeta>) -> Option<TypeV>
    decreases e,
{
    match e.item {
        ExpressionKind::LitInt { .. } => Some(TypeV::Int),
        ExpressionKind::LitBool { .. } => Some(TypeV::Bool),
        ExpressionKind::LitStr { .. } => Some(TypeV::Str),
        ExpressionKind::LitNull => Some(TypeV::Null),
        ExpressionKind::Reference { r } => match r.item {
            ReferenceKind::Ident { ident } => tc.variable_type(ident@),
            _ => None,
        },
        ExpressionKind::Unary { op, arg } => if simple_type(tc, *arg) == Some(unary_type(op)) { Some(unary_type(op)) } else { None },
        ExpressionKind::Binary { left, op, right } => match (simple_type(tc, *left), simple_type(tc, *right)) {
            (Some(lt), Some(rt)) => if lt == rt { binary_type(op, lt) } else { None },
            _ => None,
        },
        _ => None,
    }
}

/// the checked expression `te` has the shape of `e`: the same construct, with the same literal
/// values, operators and types, and operands that have in turn the shapes of those of `e` (the
/// references in it are resolved by the checker, and a call keeps the number of its arguments)
pub open spec fn mirrors(te: Expression<TypeMeta>, e: Expression<LocationMeta>) -> bool
    decreases e,
{
    match e.item {
        ExpressionKind::LitInt { val } => te.item == (ExpressionKind::<TypeMeta>::LitInt { val }),
        ExpressionKind::LitBool { val } => te.item == (ExpressionKind::<TypeMeta>::LitBool { val }),
        ExpressionKind::LitStr { val } => te.item == (ExpressionKind::<TypeMeta>::LitStr { val }),
        ExpressionKind::LitNull => te.item is LitNull,
        ExpressionKind::App { args, .. } => te.item matches ExpressionKind::App { args: targs, .. } && targs@.len() == args@.len(),
        ExpressionKind::Unary { op, arg } => te.item matches ExpressionKind::Unary { op: o, arg: targ } && o == op && mirrors(*targ, *arg),
        ExpressionKind::Binary { left, op, right } => te.item matches ExpressionKind::Binary { left: tl, op: o, right: tr }
            && o == op && mirrors(*tl, *left) && mirrors(*tr, *right),
        ExpressionKind::InitDefault { t } => te.item matches ExpressionKind::InitDefault { t: t2 } && t2@ == t@,
        ExpressionKind::InitArr { t, size } => te.item matches ExpressionKind::InitArr { t: t2, size: s2 } && t2@ == t@ && mirrors(*s2, *size),
        ExpressionKind::Reference { .. } => te.item is Reference,
        ExpressionKind::Cast { t, expr } => te.item matches ExpressionKind::Cast { t: t2, expr: e2 } && t2@ == t@ && mirrors(*e2, *expr),
        ExpressionKind::Error => false,
    }
}

/// the checked statement `ts` has the shape of `s`: the same construct, whose expressions and
/// statements have in turn the shapes of those of `s` (a block and a declaration keep their kind,
/// and a declaration its type)
pub open spec fn stmt_mirrors(ts: Statement<TypeMeta>, s: Statement<LocationMeta>) -> bool
    decreases s,
{
    match s.item {
        StatementKind::Block { .. } => ts.item is Block,
        StatementKind::Empty => ts.item is Empty,
        StatementKind::Decl { t, .. } => ts.item matches StatementKind::Decl { t: t2, .. } && t2@ == t@,
        StatementKind::Ass { expr, .. } => ts.item matches StatementKind::Ass { expr: e2, .. } && mirrors(*e2, *expr),
        StatementKind::Mut { op, .. } => ts.item matches StatementKind::Mut { op: o, .. } && o == op,
        StatementKind::Return { expr } => ts.item matches StatementKind::Return { expr: e2 } && match expr {
            None => e2 is None,
            Some(e) => e2 matches Some(x) && mirrors(*x, *e),
        },
        StatementKind::Cond { expr, stmt } => ts.item matches StatementKind::Cond { expr: e2, stmt: s2 }
            && mirrors(*e2, *expr) && stmt_mirrors(*s2, *stmt),
        StatementKind::CondElse { expr, stmt_true, stmt_false } => ts.item matches StatementKind::CondElse { expr: e2, stmt_true: t2, stmt_false: f2 }
            && mirrors(*e2, *expr) && stmt_mirrors(*t2, *stmt_true) && stmt_mirrors(*f2, *stmt_false),
        StatementKind::While { expr, stmt } => ts.item matches StatementKind::While { expr: e2, stmt: s2 }
            && mirrors(*e2, *expr) && stmt_mirrors(*s2, *stmt),
        StatementKind::For { t, ident, arr, stmt } => ts.item matches StatementKind::For { t: t2, ident: i2, arr: a2, stmt: s2 }
            && t2@ == t@ && i2 == ident && mirrors(*a2, *arr) && stmt_mirrors(*s2, *stmt),
        StatementKind::Expr { expr } => ts.item matches StatementKind::Expr { expr: e2 } && mirrors(*e2, *expr),
        StatementKind::Error => false,
    }
}

/// the result is a failure with one error, a type error at `loc`: `expected` was expected and
/// `actual` found
pub open spec fn type_error_at<T>(res: TypeCheckResult<T>, loc: LocationMeta, expected: TypeV, actual: TypeV) -> bool {
    res matches Err(e) && e@.len() == 1 && e@[0].meta == loc
        && (e@[0].item matches FrontendErrorKind::TypeError { expected: x, actual: a } && x@ == expected && a@ == actual)
}

/// the result is a failure with one error at `loc`: an operator applied to arguments of a type
/// it does not take
pub open spec fn operator_error_at<T>(res: TypeCheckResult<T>, loc: LocationMeta) -> bool {
    res matches Err(e) && e@.len() == 1 && e@[0].meta == loc
        && (e@[0].item matches FrontendErrorKind::ArgumentError { message } && message@ == "Invalid argument type for operator"@)
}

/// the error that a second declaration of `ident` in one scope gives
pub open spec fn duplicate_error(k: FrontendErrorKind, ident: Seq<char>) -> bool {
    k matches FrontendErrorKind::EnvError { message } && message@ == "Duplicated declaration of "@ + ident
}

/// the result is a failure, and one of its errors is that of a second declaration of `ident`,
/// at `loc`
pub open spec fn duplicate_error_at<T>(res: TypeCheckResult<T>, loc: LocationMeta, ident: Seq<char>) -> bool {
    res matches Err(e) && exists|j: int| 0 <= j < e@.len() && e@[j].meta == loc && duplicate_error(e@[j].item, ident)
}

/// the item `i` of a declaration declares a name that an earlier item without a value declares
pub open spec fn redeclared<MetaT>(items: Seq<DeclItem<MetaT>>, i: int) -> bool {
    exists|j: int| 0 <= j < i && items[j].item is NoInit && #[trigger] decl_ident(items[j]) == decl_ident(items[i])
}

/// name of the variable that a declaration item declares
pub open spec fn decl_ident<MetaT>(d: DeclItem<MetaT>) -> Seq<char> {
    match d.item {
        DeclItemKind::NoInit { ident } => ident@,
        DeclItemKind::Init { ident, .. } => ident@,
    }
}

/// the errors are reported at the given location (one of them at least)
pub open spec fn one_error_at(e: Vec<FrontendError<LocationMeta>>, loc: LocationMeta) -> bool {
    e@.len() == 1 && e@[0].meta == loc
}

/// environment with the types of the arguments (a later argument with the same name wins)
pub fn args_type_env<MetaT>(args: &Vec<Arg<MetaT>>) -> (r: Env<Type>)
    ensures
        r.wf(),
        forall|i: int| 0 <= i < args@.len() ==> (#[trigger] r.lookup(args@[i].item.ident@)) is Some,
        forall|i: int| 0 <= i < args@.len() && (forall|j: int| i < j < args@.len() ==> args@[j].item.ident@ != args@[i].item.ident@)
            ==> (#[trigger] r.lookup(args@[i].item.ident@))->0@ == args@[i].item.t@,
        forall|k: Seq<char>| #[trigger] r.lookup(k) is Some ==> exists|i: int| 0 <= i < args@.len() && args@[i].item.ident@ == k,
{
    let mut env: Env<Type> = Env::new();
    let mut i: usize = 0;
    while i < args.len()
        invariant
            env.wf(),
            i <= args@.len(),
            forall|j: int| 0 <= j < i ==> (#[trigger] env.lookup(args@[j].item.ident@)) is Some,
            forall|j: int| 0 <= j < i && (forall|j2: int| j < j2 < i ==> args@[j2].item.ident@ != args@[j].item.ident@)
                ==> (#[trigger] env.lookup(args@[j].item.ident@))->0@ == args@[j].item.t@,
            forall|k: Seq<char>| #[trigger] env.lookup(k) is Some ==> exists|j: int| 0 <= j < i && args@[j].item.ident@ == k,
        decreases args.len() - i,
    {
        env.insert(args[i].item.ident.clone(), args[i].item.t.copy());
        i += 1;
    }
    env
}

/// a reference of the given kind with type `t`
fn typed_ref(kind: ReferenceKind<TypeMeta>, t: Type) -> (r: Reference<TypeMeta>)
    ensures
        r.item == kind,
        r.meta.t == t,
{
    Meta::new(kind, TypeMeta { t })
}

/// an expression of the given kind with type `t`
fn typed_expr(kind: ExpressionKind<TypeMeta>, t: Type) -> (r: Expression<TypeMeta>)
    ensures
        r.item == kind,
        r.meta.t == t,
{
    Meta::new(kind, TypeMeta { t })
}

/// one error of the given kind at the given location
fn error_at(kind: FrontendErrorKind, loc: LocationMeta) -> (r: Vec<FrontendError<LocationMeta>>)
    ensures
        r@.len() == 1,
        r@[0].item == kind,
        r@[0].meta == loc,
{
    vec![Meta::new(kind, loc)]
}

impl TypeChecker {
    /// `self` and `old` have the same environments of functions and classes, the same scopes
    /// and the same current class
    pub open spec fn same_context(&self, old: TypeChecker) -> bool {
        &&& self.functions == old.functions
        &&& self.classes == old.classes
        &&& self.current_class == old.current_class
    }
}

impl AstMapper<LocationMeta, TypeMeta, FrontendError<LocationMeta>> for TypeChecker {
    open spec fn mapper_inv(&self) -> bool {
        self.wf()
    }

    open spec fn infallible() -> bool {
        false
    }

    open spec fn function_mapped(from: Function<LocationMeta>, to: Function<TypeMeta>) -> bool {
        &&& to.item.ident == from.item.ident
        &&& to.item.ret@ == from.item.ret@
        &&& to.meta.t@ == (TypeV::Function { args: arg_types(from.item.args@), ret: Box::new(from.item.ret@) })
        &&& block_returns(from.item.block) ==> block_returns(to.item.block)
    }

    /// reference to a variable or object property: a variable of the current class becomes an
    /// explicit reference to `self`, and the length of an array a dedicated reference
    fn map_var_reference(&mut self, r: Reference<LocationMeta>) -> (res: TypeCheckResult<Reference<TypeMeta>>)
        ensures
            final(self).same_context(*old(self)),
            final(self).local_envs == old(self).local_envs,
            r.item matches ReferenceKind::Ident { ident } ==> {
                &&& (res is Ok <==> old(self).variable_type(ident@) is Some)
                &&& res matches Err(e) ==> e@.len() == 1 && e@[0].meta == r.meta
                    && (e@[0].item matches FrontendErrorKind::EnvError { message } && message@ == "Undefined variable: "@ + ident@)
                &&& res matches Ok(tr) ==> tr.meta.t@ == old(self).variable_type(ident@)->0
                    && (old(self).is_class_var(ident@) ==> (tr.item matches ReferenceKind::TypedObject { obj, field, .. }
                        && obj@ == "self"@ && field == ident))
                    && (!old(self).is_class_var(ident@) ==> tr.item == (ReferenceKind::<TypeMeta>::Ident { ident }))
            },
            r.item is ArrayLen || r.item is TypedObject ==> res is Err,
            r.item matches ReferenceKind::Object { obj, field } ==> (old(self).variable_type(obj@) matches Some(TypeV::Array { .. }) ==> {
                &&& (res is Ok <==> field@ == "length"@)
                &&& res matches Ok(tr) ==> tr.item == (ReferenceKind::<TypeMeta>::ArrayLen { ident: obj }) && tr.meta.t@ == TypeV::Int
                &&& res matches Err(e) ==> e@.len() == 1 && e@[0].item is EnvError
            }),
        decreases r, 1nat,
    {
        let loc = r.meta;
        let ghost r0 = r;
        match r.item {
            ReferenceKind::Ident { ident } => {
                let var_t = match self.get_variable(&ident, loc) {
                    Ok(t) => t,
                    Err(e) => {
                        return Err(e);
                    },
                };
                // a variable of the current class is marked explicitly, for the back end
                if self.is_class_variable(&ident) {
                    let cls = match &self.current_class {
                        Some(c) => c.clone(),
                        None => {
                            assert(false);
                            String::new()
                        },
                    };
                    let kind = ReferenceKind::TypedObject { obj: String::from_str("self"), cls, field: ident };
                    Ok(typed_ref(kind, var_t))
                } else {
                    Ok(typed_ref(ReferenceKind::Ident { ident }, var_t))
                }
            },
            ReferenceKind::Object { obj, field } => {
                let var_t = match self.get_variable(&obj, loc) {
                    Ok(t) => t,
                    Err(e) => {
                        return Err(e);
                    },
                };
                match var_t {
                    Type::Array { .. } => {
                        // the only member of an array is its length
                        proof {
                            reveal_strlit("length");
                        }
                        if field.as_str().unicode_len() == 6 && field == String::from_str("length") {
                            Ok(typed_ref(ReferenceKind::ArrayLen { ident: obj }, Type::Int))
                        } else {
                            let message = concat("Invalid instance variable for array: ", field.as_str());
                            Err(error_at(FrontendErrorKind::EnvError { message }, loc))
                        }
                    },
                    other_t => {
                        // interpret var_t as object and get its `field` instance variable
                        let cls = match self.get_class(&other_t, loc) {
                            Ok(c) => c,
                            Err(e) => {
                                return Err(e);
                            },
                        };
                        let field_t = match self.get_instance_variable(&cls, &field, loc) {
                            Ok(t) => t,
                            Err(e) => {
                                return Err(e);
                            },
                        };
                        // the back end needs to know the name of the class
                        Ok(typed_ref(ReferenceKind::TypedObject { obj, cls, field }, field_t))
                    },
                }
            },
            ReferenceKind::ObjectSelf { field } => {
                match &self.current_class {
                    Some(c) => {
                        let cls = c.clone();
                        let field_t = match self.get_instance_variable(&cls, &field, loc) {
                            Ok(t) => t,
                            Err(e) => {
                                return Err(e);
                            },
                        };
                        Ok(typed_ref(ReferenceKind::TypedObject { obj: String::from_str("self"), cls, field }, field_t))
                    },
                    None => {
                        let message = String::from_str("No object in the current context");
                        Err(error_at(FrontendErrorKind::EnvError { message }, loc))
                    },
                }
            },
            ReferenceKind::Array { arr, idx } => {
                let var_t = match self.get_variable(&arr, loc) {
                    Ok(t) => t,
                    Err(e) => {
                        return Err(e);
                    },
                };
                match var_t {
                    Type::Array { item_t } => {
                        proof {
                            assert(decreases_to!(r0 => *idx));
                        }
                        let mapped_expr = match self.map_expression(*idx) {
                            Ok(e) => e,
                            Err(e) => {
                                return Err(e);
                            },
                        };
                        let is_int = match &mapped_expr.meta.t {
                            Type::Int => true,
                            _ => false,
                        };
                        if is_int {
                            Ok(typed_ref(ReferenceKind::Array { arr, idx: Box::new(mapped_expr) }, *item_t))
                        } else {
                            let kind = FrontendErrorKind::TypeError { expected: Type::Int, actual: mapped_expr.meta.t };
                            Err(error_at(kind, loc))
                        }
                    },
                    other_t => {
                        let kind = FrontendErrorKind::TypeError {
                            expected: Type::Array { item_t: Box::new(Type::Any) },
                            actual: other_t,
                        };
                        Err(error_at(kind, loc))
                    },
                }
            },
            _ => {
                // references to array lengths and typed objects are made by the type checker itself
                let message = String::from_str("Unexpected reference");
                Err(error_at(FrontendErrorKind::EnvError { message }, loc))
            },
        }
    }

    /// reference to function or object method
    fn map_func_reference(&mut self, r: Reference<LocationMeta>) -> (res: TypeCheckResult<Reference<TypeMeta>>)
        ensures
            *final(self) == *old(self),
            r.item matches ReferenceKind::Ident { ident } ==> {
                &&& (res is Ok <==> old(self).functions.lookup(ident@) is Some)
                &&& res matches Ok(tr) ==> tr.meta.t@ == old(self).functions.lookup(ident@)->0@
                    && tr.item == (ReferenceKind::<TypeMeta>::Ident { ident })
            },
    {
        let loc = r.meta;
        match r.item {
            ReferenceKind::Ident { ident } => {
                let func_t = match self.get_func(&ident, loc) {
                    Ok(t) => t,
                    Err(e) => {
                        return Err(e);
                    },
                };
                Ok(typed_ref(ReferenceKind::Ident { ident }, func_t))
            },
            ReferenceKind::Object { obj, field } => {
                let var_t = match self.get_variable(&obj, loc) {
                    Ok(t) => t,
                    Err(e) => {
                        return Err(e);
                    },
                };
                let cls = match self.get_class(&var_t, loc) {
                    Ok(c) => c,
                    Err(e) => {
                        return Err(e);
                    },
                };
                let method_t = match self.get_method(&cls, &field, loc) {
                    Ok(t) => t,
                    Err(e) => {
                        return Err(e);
                    },
                };
                Ok(typed_ref(ReferenceKind::TypedObject { obj, cls, field }, method_t))
            },
            ReferenceKind::ObjectSelf { field } => {
                match &self.current_class {
                    Some(c) => {
                        let cls = c.clone();
                        let method_t = match self.get_method(&cls, &field, loc) {
                            Ok(t) => t,
                            Err(e) => {
                                return Err(e);
                            },
                        };
                        Ok(typed_ref(ReferenceKind::TypedObject { obj: String::from_str("self"), cls, field }, method_t))
                    },
                    None => {
                        let message = String::from_str("No object in the current context");
                        Err(error_at(FrontendErrorKind::EnvError { message }, loc))
                    },
                }
            },
            _ => {
                let message = String::from_str("Expected function or method");
                Err(error_at(FrontendErrorKind::ArgumentError { message }, loc))
            },
        }
    }

    /// types of the statements of a block (in the current scope); the type of the block is
    /// the type of its last statement
    fn map_block(&mut self, block: Block<LocationMeta>) -> (res: TypeCheckResult<Block<TypeMeta>>)
        ensures
            final(self).same_context(*old(self)),
            final(self).local_envs@.len() == old(self).local_envs@.len(),
            final(self).local_envs@.drop_last() == old(self).local_envs@.drop_last(),
            res matches Ok(tb) ==> tb.item.stmts@.len() == block.item.stmts@.len() && (if tb.item.stmts@.len() == 0 {
                tb.meta.t@ == TypeV::Void
            } else {
                tb.meta.t@ == tb.item.stmts@.last().meta.t@
            }),
            res matches Ok(tb) ==> (block_returns(block) ==> block_returns(tb)),
            res matches Err(e) ==> e@.len() >= 1,
        decreases block, 4nat,
    {
        let ghost b0 = block;
        let ghost all = block.item.stmts@;
        let mut rest = block.item.stmts;
        let total = rest.len();
        let mut k: usize = 0;
        let mut mapped_stmts: Vec<Box<Statement<TypeMeta>>> = Vec::new();
        let mut errors: Vec<FrontendError<LocationMeta>> = Vec::new();
        while rest.len() > 0
            invariant
                self.wf(),
                self.same_context(*old(self)),
                self.local_envs@.len() == old(self).local_envs@.len(),
                self.local_envs@.drop_last() == old(self).local_envs@.drop_last(),
                all.len() == total,
                rest@.len() + k == total,
                forall|i: int| 0 <= i < rest@.len() ==> rest@[i] == all[k + i],
                b0 == block,
                b0.item.stmts@ == all,
                errors@.len() == 0 ==> mapped_stmts@.len() == k,
                errors@.len() == 0 ==> forall|i: int| 0 <= i < k ==> (ends_in_return(*all[i]) ==> ends_in_return(*#[trigger] mapped_stmts@[i])),
            decreases rest.len(),
        {
            let stmt = rest.remove(0);
            proof {
                assert(stmt == all[k as int]);
                assert(decreases_to!(b0 => *stmt));
            }
            match self.map_statement(*stmt) {
                Ok(mapped) => {
                    mapped_stmts.push(Box::new(mapped));
                },
                Err(mut e) => {
                    errors.append(&mut e);
                },
            }
            k += 1;
        }
        if errors.len() == 0 {
            // the type of the block is determined by its last statement
            let t = if mapped_stmts.len() > 0 {
                mapped_stmts[mapped_stmts.len() - 1].meta.t.copy()
            } else {
                Type::Void
            };
            Ok(Meta::new(BlockItem { stmts: mapped_stmts }, TypeMeta { t }))
        } else {
            Err(errors)
        }
    }

    /// type of an expression, from the types of its parts
    fn map_expression(&mut self, expr: Expression<LocationMeta>) -> (res: TypeCheckResult<Expression<TypeMeta>>)
        ensures
            final(self).same_context(*old(self)),
            final(self).local_envs == old(self).local_envs,
            expr.item matches ExpressionKind::LitInt { val } ==> (res matches Ok(te)
                && te.item == (ExpressionKind::<TypeMeta>::LitInt { val }) && te.meta.t@ == TypeV::Int),
            expr.item matches ExpressionKind::LitBool { val } ==> (res matches Ok(te)
                && te.item == (ExpressionKind::<TypeMeta>::LitBool { val }) && te.meta.t@ == TypeV::Bool),
            expr.item matches ExpressionKind::LitStr { val } ==> (res matches Ok(te)
                && te.item == (ExpressionKind::<TypeMeta>::LitStr { val }) && te.meta.t@ == TypeV::Str),
            expr.item is LitNull ==> (res matches Ok(te) && te.item is LitNull && te.meta.t@ == TypeV::Null),
            expr.item is Error ==> res is Err,
            expr.item matches ExpressionKind::Unary { op, .. } ==> (res matches Ok(te) ==> te.meta.t@ == unary_type(op)
                && (te.item matches ExpressionKind::Unary { op: o, arg } && o == op && arg.meta.t@ == unary_type(op))),
            expr.item matches ExpressionKind::Binary { op, .. } ==> (res matches Ok(te) ==>
                (te.item matches ExpressionKind::Binary { left, op: o, right } && o == op && left.meta.t@ == right.meta.t@
                    && binary_type(op, left.meta.t@) == Some(te.meta.t@))),
            expr.item matches ExpressionKind::InitDefault { t } ==> (res matches Ok(te) && te.meta.t@ == t@),
            expr.item matches ExpressionKind::InitArr { t, .. } ==> (res matches Ok(te) ==> te.meta.t@ == t@
                && (te.item matches ExpressionKind::InitArr { t: t2, size } && t2 == t && size.meta.t@ == TypeV::Int)),
            expr.item matches ExpressionKind::Cast { t, .. } ==> (res matches Ok(te) ==> te.meta.t@ == t@
                && (te.item matches ExpressionKind::Cast { t: t2, expr: inner } && t2 == t && inner.meta.t@ == TypeV::Null)),
            expr.item matches ExpressionKind::Reference { .. } ==> (res matches Ok(te) ==>
                (te.item matches ExpressionKind::Reference { r } && r.meta.t@ == te.meta.t@)),
            expr.item matches ExpressionKind::App { args, .. } ==> (res matches Ok(te) ==>
                (te.item matches ExpressionKind::App { r, args: targs } && targs@.len() == args@.len()
                    && (r.meta.t@ matches TypeV::Function { args: expected, ret } && *ret == te.meta.t@
                        && expected.len() == args@.len()
                        && forall|i: int| 0 <= i < expected.len() ==>
                            assignable(old(self).classes, expected[i], (#[trigger] targs@[i]).meta.t@)))),
            res matches Err(e) ==> e@.len() >= 1,
            expr.item matches ExpressionKind::Binary { left, op, right } ==> (is_simple(*left) && is_simple(*right) ==>
                (simple_type(*old(self), *left) matches Some(lt) ==> (simple_type(*old(self), *right) matches Some(rt) ==>
                    (lt != rt ==> type_error_at(res, right.meta, lt, rt))
                    && (lt == rt && binary_type(op, lt) is None ==> operator_error_at(res, left.meta))))),
            res matches Ok(te) ==> mirrors(te, expr),
            expr.item matches ExpressionKind::Binary { left, op, right } ==> (is_simple(*left) && is_simple(*right)
                && simple_type(*old(self), *left) == Some(TypeV::Str) && simple_type(*old(self), *right) == Some(TypeV::Str)
                && op == BinaryOperator::Plus ==> (res matches Ok(te) && te.meta.t@ == TypeV::Str)),
            expr.item matches ExpressionKind::Binary { left, op, right } ==> (is_simple(*left) && is_simple(*right)
                && simple_type(*old(self), *left) == Some(TypeV::Int) && simple_type(*old(self), *right) == Some(TypeV::Int)
                && (op == BinaryOperator::Plus || op == BinaryOperator::Minus || op == BinaryOperator::Times
                    || op == BinaryOperator::Divide || op == BinaryOperator::Modulo)
                ==> (res matches Ok(te) && te.meta.t@ == TypeV::Int)),
            expr.item matches ExpressionKind::Binary { left, op, right } ==> (is_simple(*left) && is_simple(*right)
                && simple_type(*old(self), *left) == Some(TypeV::Int) && simple_type(*old(self), *right) == Some(TypeV::Int)
                && (op == BinaryOperator::Less || op == BinaryOperator::LessEqual || op == BinaryOperator::Greater
                    || op == BinaryOperator::GreaterEqual || op == BinaryOperator::Equal || op == BinaryOperator::NotEqual)
                ==> (res matches Ok(te) && te.meta.t@ == TypeV::Bool)),
            is_simple(expr) ==> (res is Ok <==> simple_type(*old(self), expr) is Some),
            is_simple(expr) ==> (res matches Ok(te) ==> Some(te.meta.t@) == simple_type(*old(self), expr)),
        decreases expr, 2nat,
    {
        let loc = expr.meta;
        let ghost e0 = expr;
        match expr.item {
            ExpressionKind::LitInt { val } => Ok(typed_expr(ExpressionKind::LitInt { val }, Type::Int)),
            ExpressionKind::LitBool { val } => Ok(typed_expr(ExpressionKind::LitBool { val }, Type::Bool)),
            ExpressionKind::LitStr { val } => Ok(typed_expr(ExpressionKind::LitStr { val }, Type::Str)),
            ExpressionKind::LitNull => Ok(typed_expr(ExpressionKind::LitNull, Type::Null)),
            ExpressionKind::App { r, args } => {
                let r_loc = r.meta;
                let mapped_r = match self.map_func_reference(r) {
                    Ok(mr) => mr,
                    Err(e) => {
                        return Err(e);
                    },
                };
                let exp_args = match &mapped_r.meta.t {
                    Type::Function { args: exp_args, .. } => crate::frontend::ast::copy_types(exp_args),
                    _ => {
                        let kind = FrontendErrorKind::TypeError {
                            expected: Type::Function { args: Vec::new(), ret: Box::new(Type::Any) },
                            actual: mapped_r.meta.t,
                        };
                        return Err(error_at(kind, r_loc));
                    },
                };
                let ret_t = match &mapped_r.meta.t {
                    Type::Function { ret, .. } => ret.copy(),
                    _ => {
                        assert(false);
                        Type::Error
                    },
                };
                proof {
                    crate::frontend::ast::lemma_types_view(exp_args@);
                }
                if exp_args.len() != args.len() {
                    let mut message = String::from_str("Incorrect argument count, expected ");
                    message.append(usize_to_string(exp_args.len()).as_str());
                    message.append(" got ");
                    message.append(usize_to_string(args.len()).as_str());
                    return Err(error_at(FrontendErrorKind::ArgumentError { message }, r_loc));
                }
                let mut errors: Vec<FrontendError<LocationMeta>> = Vec::new();
                let mut mapped_args: Vec<Box<Expression<TypeMeta>>> = Vec::new();
                let ghost all = args@;
                let mut rest = args;
                let total = rest.len();
                let mut k: usize = 0;
                while rest.len() > 0
                    invariant
                        self.wf(),
                        self.same_context(*old(self)),
                        self.local_envs == old(self).local_envs,
                        all.len() == total,
                        exp_args@.len() == total,
                        crate::frontend::ast::types_view(exp_args@).len() == total,
                        forall|i: int| 0 <= i < total ==> #[trigger] crate::frontend::ast::types_view(exp_args@)[i] == (*exp_args@[i])@,
                        rest@.len() + k == total,
                        forall|i: int| 0 <= i < rest@.len() ==> rest@[i] == all[k + i],
                        e0 == expr,
                        e0.item matches ExpressionKind::App { args: a, .. } && a@ == all,
                        errors@.len() == 0 ==> mapped_args@.len() == k
                            && forall|i: int| 0 <= i < k ==> assignable(old(self).classes,
                                crate::frontend::ast::types_view(exp_args@)[i], (#[trigger] mapped_args@[i]).meta.t@),
                    decreases rest.len(),
                {
                    let arg_expr = rest.remove(0);
                    let arg_loc = arg_expr.meta;
                    proof {
                        assert(arg_expr == all[k as int]);
                        assert(decreases_to!(e0 => *arg_expr));
                    }
                    match self.map_expression(*arg_expr) {
                        Ok(mapped_arg) => {
                            match self.check_assignment(&exp_args[k], &mapped_arg.meta.t) {
                                Ok(()) => {
                                    mapped_args.push(Box::new(mapped_arg));
                                },
                                Err(kind) => {
                                    errors.push(Meta::new(kind, arg_loc));
                                },
                            }
                        },
                        Err(mut e) => {
                            errors.append(&mut e);
                        },
                    }
                    k += 1;
                }
                if errors.len() == 0 {
                    proof {
                        assert(mapped_r.meta.t@ matches TypeV::Function { args: expected, ret } && *ret == ret_t@
                            && expected == crate::frontend::ast::types_view(exp_args@));
                    }
                    Ok(typed_expr(ExpressionKind::App { r: mapped_r, args: mapped_args }, ret_t))
                } else {
                    Err(errors)
                }
            },
            ExpressionKind::Unary { op, arg } => {
                let op_t = match op {
                    UnaryOperator::Neg => Type::Int,
                    UnaryOperator::Not => Type::Bool,
                };
                let arg_loc = arg.meta;
                let mapped_arg = match self.map_expression(*arg) {
                    Ok(a) => a,
                    Err(e) => {
                        return Err(e);
                    },
                };
                if mapped_arg.meta.t.equals(&op_t) {
                    let t = mapped_arg.meta.t.copy();
                    Ok(typed_expr(ExpressionKind::Unary { op, arg: Box::new(mapped_arg) }, t))
                } else {
                    let kind = FrontendErrorKind::TypeError { expected: op_t, actual: mapped_arg.meta.t };
                    Err(error_at(kind, arg_loc))
                }
            },
            ExpressionKind::Binary { left, op, right } => {
                let left_loc = left.meta;
                let right_loc = right.meta;
                let mapped_l = match self.map_expression(*left) {
                    Ok(e) => e,
                    Err(e) => {
                        return Err(e);
                    },
                };
                let mapped_r = match self.map_expression(*right) {
                    Ok(e) => e,
                    Err(e) => {
                        return Err(e);
                    },
                };
                if mapped_l.meta.t.equals(&mapped_r.meta.t) {
                    let left_t = &mapped_l.meta.t;
                    let is_int = match left_t {
                        Type::Int => true,
                        _ => false,
                    };
                    let is_str = match left_t {
                        Type::Str => true,
                        _ => false,
                    };
                    let is_bool = match left_t {
                        Type::Bool => true,
                        _ => false,
                    };
                    let op_result_t = match op {
                        BinaryOperator::Equal | BinaryOperator::NotEqual => Some(Type::Bool),
                        BinaryOperator::Plus => if is_str || is_int { Some(left_t.copy()) } else { None },
                        BinaryOperator::And | BinaryOperator::Or => if is_bool { Some(Type::Bool) } else { None },
                        BinaryOperator::Greater | BinaryOperator::GreaterEqual | BinaryOperator::LessEqual | BinaryOperator::Less =>
                            if is_int { Some(Type::Bool) } else { None },
                        _ => if is_int { Some(Type::Int) } else { None },
                    };
                    match op_result_t {
                        Some(result_t) => {
                            let kind = ExpressionKind::Binary { left: Box::new(mapped_l), op, right: Box::new(mapped_r) };
                            Ok(typed_expr(kind, result_t))
                        },
                        None => {
                            let message = String::from_str("Invalid argument type for operator");
                            Err(error_at(FrontendErrorKind::ArgumentError { message }, left_loc))
                        },
                    }
                } else {
                    let kind = FrontendErrorKind::TypeError { expected: mapped_l.meta.t, actual: mapped_r.meta.t };
                    Err(error_at(kind, right_loc))
                }
            },
            ExpressionKind::InitDefault { t } => {
                let t2 = t.copy();
                Ok(typed_expr(ExpressionKind::InitDefault { t }, t2))
            },
            ExpressionKind::InitArr { t, size } => {
                let size_loc = size.meta;
                let mapped_size = match self.map_expression(*size) {
                    Ok(e) => e,
                    Err(e) => {
                        return Err(e);
                    },
                };
                let is_int = match &mapped_size.meta.t {
                    Type::Int => true,
                    _ => false,
                };
                if is_int {
                    // t is always an array (by parser definition), and the caller checks it
                    let t2 = t.copy();
                    Ok(typed_expr(ExpressionKind::InitArr { t, size: Box::new(mapped_size) }, t2))
                } else {
                    let kind = FrontendErrorKind::TypeError { expected: Type::Int, actual: mapped_size.meta.t };
                    Err(error_at(kind, size_loc))
                }
            },
            ExpressionKind::Reference { r } => {
                proof {
                    assert(decreases_to!(e0 => r));
                }
                let mapped_ref = match self.map_var_reference(r) {
                    Ok(mr) => mr,
                    Err(e) => {
                        return Err(e);
                    },
                };
                let t = mapped_ref.meta.t.copy();
                Ok(typed_expr(ExpressionKind::Reference { r: mapped_ref }, t))
            },
            ExpressionKind::Cast { t, expr: inner } => {
                let inner_loc = inner.meta;
                let mapped_expr = match self.map_expression(*inner) {
                    Ok(e) => e,
                    Err(e) => {
                        return Err(e);
                    },
                };
                let is_null = match &mapped_expr.meta.t {
                    Type::Null => true,
                    _ => false,
                };
                if is_null {
                    let t2 = t.copy();
                    Ok(typed_expr(ExpressionKind::Cast { t, expr: Box::new(mapped_expr) }, t2))
                } else {
                    // for now only the null value can be cast
                    let kind = FrontendErrorKind::TypeError { expected: Type::Null, actual: mapped_expr.meta.t };
                    Err(error_at(kind, inner_loc))
                }
            },
            ExpressionKind::Error => {
                let message = String::from_str("Invalid expression");
                Err(error_at(FrontendErrorKind::ParseError { message }, loc))
            },
        }
    }

    /// type of a statement: the type it returns a value of (`void` when it returns none); the
    /// variables it declares are added to the innermost scope
    fn map_statement(&mut self, stmt: Statement<LocationMeta>) -> (res: TypeCheckResult<Statement<TypeMeta>>)
        ensures
            final(self).same_context(*old(self)),
            final(self).local_envs@.len() == old(self).local_envs@.len(),
            final(self).local_envs@.drop_last() == old(self).local_envs@.drop_last(),
            !(stmt.item is Decl || stmt.item is Cond || stmt.item is CondElse) ==> final(self).local_envs@ == old(self).local_envs@,
            stmt.item is Empty ==> (res matches Ok(ts) && ts.item is Empty && ts.meta.t@ == TypeV::Void),
            stmt.item is Error ==> res is Err,
            (stmt.item is Decl || stmt.item is Ass || stmt.item is Mut || stmt.item is While || stmt.item is For || stmt.item is Expr)
                ==> (res matches Ok(ts) ==> ts.meta.t@ == TypeV::Void),
            stmt.item matches StatementKind::Return { expr } ==> (res matches Ok(ts) ==> (ts.item matches StatementKind::Return { expr: te }
                && match te {
                    None => expr is None && ts.meta.t@ == TypeV::Void,
                    Some(e) => expr is Some && ts.meta.t@ == e.meta.t@,
                })),
            stmt.item is Cond || stmt.item is CondElse || stmt.item is While ==> (res matches Ok(ts) ==> (match ts.item {
                StatementKind::Cond { expr, .. } => expr.meta.t@ == TypeV::Bool,
                StatementKind::CondElse { expr, .. } => expr.meta.t@ == TypeV::Bool,
                StatementKind::While { expr, .. } => expr.meta.t@ == TypeV::Bool,
                _ => false,
            })),
            stmt.item matches StatementKind::Mut { .. } ==> (res matches Ok(ts) ==> (ts.item matches StatementKind::Mut { r, .. }
                && r.meta.t@ == TypeV::Int)),
            stmt.item matches StatementKind::Ass { .. } ==> (res matches Ok(ts) ==> (ts.item matches StatementKind::Ass { r, expr }
                && assignable(old(self).classes, r.meta.t@, expr.meta.t@))),
            stmt.item matches StatementKind::Decl { t, items } ==> (res matches Ok(ts) ==> forall|i: int| 0 <= i < items@.len() ==>
                (final(self).local_envs@.last().lookup(decl_ident(#[trigger] items@[i])) matches Some(x) && x@ == t@)),
            stmt.item matches StatementKind::Decl { items, .. } ==> forall|i: int| 0 <= i < items@.len()
                && (old(self).local_envs@.last().lookup(decl_ident(#[trigger] items@[i])) is Some || redeclared(items@, i))
                ==> duplicate_error_at(res, items@[i].meta, decl_ident(items@[i])),
            stmt.item matches StatementKind::Decl { items, .. } ==> (res is Ok ==> forall|i: int| 0 <= i < items@.len() ==>
                old(self).local_envs@.last().lookup(decl_ident(#[trigger] items@[i])) is None
                && forall|j: int| 0 <= j < i ==> decl_ident(items@[j]) != decl_ident(items@[i])),
            res matches Ok(ts) ==> (ends_in_return(stmt) ==> ends_in_return(ts)),
            res matches Ok(ts) ==> stmt_mirrors(ts, stmt),
            res matches Err(e) ==> e@.len() >= 1,
            stmt.item matches StatementKind::Cond { expr, .. } ==> (is_simple(*expr) ==> (simple_type(*old(self), *expr) matches Some(t)
                ==> (t != TypeV::Bool ==> type_error_at(res, expr.meta, TypeV::Bool, t)))),
            stmt.item matches StatementKind::CondElse { expr, .. } ==> (is_simple(*expr) ==> (simple_type(*old(self), *expr) matches Some(t)
                ==> (t != TypeV::Bool ==> type_error_at(res, expr.meta, TypeV::Bool, t)))),
            stmt.item matches StatementKind::While { expr, .. } ==> (is_simple(*expr) ==> (simple_type(*old(self), *expr) matches Some(t)
                ==> (t != TypeV::Bool ==> type_error_at(res, expr.meta, TypeV::Bool, t)))),
            stmt.item matches StatementKind::Ass { r, expr } ==> (r.item matches ReferenceKind::Ident { ident } ==> (is_simple(*expr) ==>
                (res is Ok <==> simple_type(*old(self), *expr) is Some && old(self).variable_type(ident@) is Some
                    && assignable(old(self).classes, old(self).variable_type(ident@)->0, simple_type(*old(self), *expr)->0)))),
            stmt.item matches StatementKind::Mut { r, .. } ==> (r.item matches ReferenceKind::Ident { ident } ==>
                (res is Ok <==> old(self).variable_type(ident@) == Some(TypeV::Int))),
            stmt.item matches StatementKind::Return { expr } ==> (match expr {
                None => res is Ok,
                Some(e) => is_simple(*e) ==> (res is Ok <==> simple_type(*old(self), *e) is Some),
            }),
        decreases stmt, 5nat,
    {
        let loc = stmt.meta;
        let ghost s0 = stmt;
        match stmt.item {
            StatementKind::Block { block } => {
                self.push_scope(Env::new());
                proof {
                    assert(decreases_to!(s0 => block));
                }
                let mapped = self.map_block(block);
                self.pop_scope();
                match mapped {
                    Ok(mapped_block) => {
                        let t = mapped_block.meta.t.copy();
                        Ok(Meta::new(StatementKind::Block { block: mapped_block }, TypeMeta { t }))
                    },
                    Err(e) => Err(e),
                }
            },
            StatementKind::Empty => Ok(Meta::new(StatementKind::Empty, TypeMeta { t: Type::Void })),
            StatementKind::Decl { t, items } => {
                let ghost all = items@;
                let mut rest = items;
                let total = rest.len();
                let mut k: usize = 0;
                let mut errors: Vec<FrontendError<LocationMeta>> = Vec::new();
                let mut mapped_items: Vec<DeclItem<TypeMeta>> = Vec::new();
                while rest.len() > 0
                    invariant
                        self.wf(),
                        self.same_context(*old(self)),
                        self.local_envs@.len() == old(self).local_envs@.len(),
                        self.local_envs@.drop_last() == old(self).local_envs@.drop_last(),
                        all.len() == total,
                        rest@.len() + k == total,
                        forall|i: int| 0 <= i < rest@.len() ==> rest@[i] == all[k + i],
                        errors@.len() == 0 ==> forall|i: int| 0 <= i < k ==>
                            (self.local_envs@.last().lookup(decl_ident(#[trigger] all[i])) matches Some(x) && x@ == t@),
                        errors@.len() == 0 ==> forall|i: int| 0 <= i < k ==>
                            old(self).local_envs@.last().lookup(decl_ident(#[trigger] all[i])) is None
                            && forall|j: int| 0 <= j < i ==> decl_ident(all[j]) != decl_ident(all[i]),
                        forall|q: Seq<char>| old(self).local_envs@.last().lookup(q) is Some ==> #[trigger] self.local_envs@.last().lookup(q) is Some,
                        forall|i: int| 0 <= i < k && (old(self).local_envs@.last().lookup(decl_ident(#[trigger] all[i])) is Some || redeclared(all, i))
                            ==> exists|j: int| 0 <= j < errors@.len() && errors@[j].meta == all[i].meta && duplicate_error(errors@[j].item, decl_ident(all[i])),
                        forall|i: int| 0 <= i < k && (#[trigger] all[i]).item is NoInit ==> self.local_envs@.last().lookup(decl_ident(all[i])) is Some,
                    decreases rest.len(),
                {
                    let declitem = rest.remove(0);
                    let item_loc = declitem.meta;
                    let ghost before = self.local_envs@.last();
                    let ghost errors0 = errors@;
                    match declitem.item {
                        DeclItemKind::NoInit { ident } => {
                            if self.declared_here(&ident) {
                                let message = concat("Duplicated declaration of ", ident.as_str());
                                errors.push(Meta::new(FrontendErrorKind::EnvError { message }, item_loc));
                            } else {
                                self.declare_local(ident.clone(), t.copy());
                                mapped_items.push(Meta::new(DeclItemKind::NoInit { ident }, TypeMeta { t: t.copy() }));
                            }
                        },
                        DeclItemKind::Init { ident, val } => {
                            let val_loc = val.meta;
                            if self.declared_here(&ident) {
                                let message = concat("Duplicated declaration of ", ident.as_str());
                                errors.push(Meta::new(FrontendErrorKind::EnvError { message }, item_loc));
                            } else {
                                match self.map_expression(*val) {
                                    Ok(mapped_expr) => {
                                        match self.check_assignment(&t, &mapped_expr.meta.t) {
                                            Ok(()) => {
                                                self.declare_local(ident.clone(), t.copy());
                                                let kind = DeclItemKind::Init { ident, val: Box::new(mapped_expr) };
                                                mapped_items.push(Meta::new(kind, TypeMeta { t: t.copy() }));
                                            },
                                            Err(kind) => {
                                                errors.push(Meta::new(kind, val_loc));
                                            },
                                        }
                                    },
                                    Err(mut e) => {
                                        errors.append(&mut e);
                                    },
                                }
                            }
                        },
                    }
                    proof {
                        assert(declitem == all[k as int]);
                        assert forall|j: int| 0 <= j < errors0.len() implies #[trigger] errors@[j] == errors0[j] by {}
                        assert forall|i: int| 0 <= i < k + 1 && (old(self).local_envs@.last().lookup(decl_ident(#[trigger] all[i])) is Some || redeclared(all, i))
                            implies exists|j: int| 0 <= j < errors@.len() && errors@[j].meta == all[i].meta && duplicate_error(errors@[j].item, decl_ident(all[i])) by {
                            if i < k {
                                let j = choose|j: int| 0 <= j < errors0.len() && errors0[j].meta == all[i].meta && duplicate_error(errors0[j].item, decl_ident(all[i]));
                                assert(errors@[j] == errors0[j]);
                            } else {
                                if redeclared(all, i) {
                                    let j = choose|j: int| 0 <= j < i && all[j].item is NoInit && #[trigger] decl_ident(all[j]) == decl_ident(all[i]);
                                    assert(before.lookup(decl_ident(all[j])) is Some);
                                }
                                assert(before.lookup(decl_ident(all[k as int])) is Some);
                                assert(errors@[errors0.len() as int].meta == all[i].meta);
                            }
                        }
                        assert forall|i: int| 0 <= i < k + 1 && (#[trigger] all[i]).item is NoInit implies
                            self.local_envs@.last().lookup(decl_ident(all[i])) is Some by {
                            if i < k {
                                assert(before.lookup(decl_ident(all[i])) is Some);
                            }
                        }
                        if errors@.len() == 0 {
                            assert forall|i: int| 0 <= i < k + 1 implies
                                (self.local_envs@.last().lookup(decl_ident(#[trigger] all[i])) matches Some(x) && x@ == t@) by {
                                if i < k {
                                    if decl_ident(all[i]) != decl_ident(all[k as int]) {
                                        assert(before.lookup(decl_ident(all[i])) matches Some(x) && x@ == t@);
                                    }
                                }
                            }
                        }
                    }
                    k += 1;
                }
                proof {
                    assert forall|i: int| 0 <= i < all.len() && (old(self).local_envs@.last().lookup(decl_ident(#[trigger] all[i])) is Some || redeclared(all, i))
                        implies exists|j: int| 0 <= j < errors@.len() && errors@[j].meta == all[i].meta && duplicate_error(errors@[j].item, decl_ident(all[i])) by {
                        assert(i < k);
                    }
                    assert(s0.item matches StatementKind::Decl { items: it, .. } && it@ == all);
                }
                if errors.len() == 0 {
                    assert(forall|i: int| 0 <= i < all.len() ==> old(self).local_envs@.last().lookup(decl_ident(#[trigger] all[i])) is None);
                    Ok(Meta::new(StatementKind::Decl { t, items: mapped_items }, TypeMeta { t: Type::Void }))
                } else {
                    let ghost res: TypeCheckResult<Statement<TypeMeta>> = Err(errors);
                    assert forall|i: int| 0 <= i < all.len() && (old(self).local_envs@.last().lookup(decl_ident(#[trigger] all[i])) is Some || redeclared(all, i))
                        implies duplicate_error_at(res, all[i].meta, decl_ident(all[i])) by {
                        let j = choose|j: int| 0 <= j < errors@.len() && errors@[j].meta == all[i].meta && duplicate_error(errors@[j].item, decl_ident(all[i]));
                        assert(res matches Err(e) && e@ == errors@);
                        assert(0 <= j < errors@.len() && errors@[j].meta == all[i].meta && duplicate_error(errors@[j].item, decl_ident(all[i])));
                    }
                    Err(errors)
                }
            },
            StatementKind::Ass { r, expr } => {
                let expr_loc = expr.meta;
                let mapped_expr = match self.map_expression(*expr) {
                    Ok(e) => e,
                    Err(e) => {
                        return Err(e);
                    },
                };
                let mapped_ref = match self.map_var_reference(r) {
                    Ok(mr) => mr,
                    Err(e) => {
                        return Err(e);
                    },
                };
                match self.check_assignment(&mapped_ref.meta.t, &mapped_expr.meta.t) {
                    Ok(()) => {
                        // assignment is not an expression, it has no value
                        let kind = StatementKind::Ass { r: mapped_ref, expr: Box::new(mapped_expr) };
                        Ok(Meta::new(kind, TypeMeta { t: Type::Void }))
                    },
                    Err(kind) => Err(error_at(kind, expr_loc)),
                }
            },
            StatementKind::Mut { r, op } => {
                let r_loc = r.meta;
                let mapped_ref = match self.map_var_reference(r) {
                    Ok(mr) => mr,
                    Err(e) => {
                        return Err(e);
                    },
                };
                // ++ and -- can only be applied to integers
                let is_int = match &mapped_ref.meta.t {
                    Type::Int => true,
                    _ => false,
                };
                if is_int {
                    Ok(Meta::new(StatementKind::Mut { r: mapped_ref, op }, TypeMeta { t: Type::Void }))
                } else {
                    let kind = FrontendErrorKind::TypeError { expected: Type::Int, actual: mapped_ref.meta.t };
                    Err(error_at(kind, r_loc))
                }
            },
            StatementKind::Return { expr } => {
                match expr {
                    None => Ok(Meta::new(StatementKind::Return { expr: None }, TypeMeta { t: Type::Void })),
                    Some(e) => {
                        let mapped_expr = match self.map_expression(*e) {
                            Ok(me) => me,
                            Err(errs) => {
                                return Err(errs);
                            },
                        };
                        let t = mapped_expr.meta.t.copy();
                        Ok(Meta::new(StatementKind::Return { expr: Some(Box::new(mapped_expr)) }, TypeMeta { t }))
                    },
                }
            },
            StatementKind::Cond { expr, stmt: inner } => {
                let expr_loc = expr.meta;
                let mapped_expr = match self.map_expression(*expr) {
                    Ok(e) => e,
                    Err(e) => {
                        return Err(e);
                    },
                };
                let is_bool = match &mapped_expr.meta.t {
                    Type::Bool => true,
                    _ => false,
                };
                if is_bool {
                    proof {
                        assert(decreases_to!(s0 => *inner));
                    }
                    let mapped_stmt = match self.map_statement(*inner) {
                        Ok(ms) => ms,
                        Err(e) => {
                            return Err(e);
                        },
                    };
                    let t = mapped_stmt.meta.t.copy();
                    let kind = StatementKind::Cond { expr: Box::new(mapped_expr), stmt: Box::new(mapped_stmt) };
                    Ok(Meta::new(kind, TypeMeta { t }))
                } else {
                    let kind = FrontendErrorKind::TypeError { expected: Type::Bool, actual: mapped_expr.meta.t };
                    Err(error_at(kind, expr_loc))
                }
            },
            StatementKind::CondElse { expr, stmt_true, stmt_false } => {
                let expr_loc = expr.meta;
                let false_loc = stmt_false.meta;
                let mapped_expr = match self.map_expression(*expr) {
                    Ok(e) => e,
                    Err(e) => {
                        return Err(e);
                    },
                };
                let is_bool = match &mapped_expr.meta.t {
                    Type::Bool => true,
                    _ => false,
                };
                if !is_bool {
                    let kind = FrontendErrorKind::TypeError { expected: Type::Bool, actual: mapped_expr.meta.t };
                    return Err(error_at(kind, expr_loc));
                }
                proof {
                    assert(decreases_to!(s0 => *stmt_true));
                    assert(decreases_to!(s0 => *stmt_false));
                }
                let mapped_true = match self.map_statement(*stmt_true) {
                    Ok(ms) => ms,
                    Err(e) => {
                        return Err(e);
                    },
                };
                let mapped_false = match self.map_statement(*stmt_false) {
                    Ok(ms) => ms,
                    Err(e) => {
                        return Err(e);
                    },
                };
                match self.get_types_lca(&mapped_true.meta.t, &mapped_false.meta.t) {
                    Some(lca_t) => {
                        let kind = StatementKind::CondElse {
                            expr: Box::new(mapped_expr),
                            stmt_true: Box::new(mapped_true),
                            stmt_false: Box::new(mapped_false),
                        };
                        Ok(Meta::new(kind, TypeMeta { t: lca_t }))
                    },
                    None => {
                        // returning from one branch only is reported as a typing error
                        let kind = FrontendErrorKind::TypeError { expected: mapped_true.meta.t, actual: mapped_false.meta.t };
                        Err(error_at(kind, false_loc))
                    },
                }
            },
            StatementKind::While { expr, stmt: inner } => {
                let expr_loc = expr.meta;
                let mapped_expr = match self.map_expression(*expr) {
                    Ok(e) => e,
                    Err(e) => {
                        return Err(e);
                    },
                };
                // the condition of a loop is a boolean, as that of a conditional statement
                let is_bool = match &mapped_expr.meta.t {
                    Type::Bool => true,
                    _ => false,
                };
                if !is_bool {
                    let kind = FrontendErrorKind::TypeError { expected: Type::Bool, actual: mapped_expr.meta.t };
                    return Err(error_at(kind, expr_loc));
                }
                self.push_scope(Env::new());
                proof {
                    assert(decreases_to!(s0 => *inner));
                }
                let mapped = self.map_statement(*inner);
                self.pop_scope();
                match mapped {
                    Ok(mapped_stmt) => {
                        let kind = StatementKind::While { expr: Box::new(mapped_expr), stmt: Box::new(mapped_stmt) };
                        Ok(Meta::new(kind, TypeMeta { t: Type::Void }))
                    },
                    Err(e) => Err(e),
                }
            },
            StatementKind::For { t, ident, arr, stmt: inner } => {
                let arr_loc = arr.meta;
                let mapped_arr = match self.map_expression(*arr) {
                    Ok(e) => e,
                    Err(e) => {
                        return Err(e);
                    },
                };
                let item_t = match &mapped_arr.meta.t {
                    Type::Array { item_t } => item_t.copy(),
                    _ => {
                        let kind = FrontendErrorKind::TypeError {
                            expected: Type::Array { item_t: Box::new(t.copy()) },
                            actual: mapped_arr.meta.t,
                        };
                        return Err(error_at(kind, arr_loc));
                    },
                };
                match self.check_assignment(&t, &item_t) {
                    Ok(()) => {
                        // the loop statement is checked with the loop variable in a nested scope
                        let mut loop_env: Env<Type> = Env::new();
                        loop_env.insert(ident.clone(), t.copy());
                        self.push_scope(loop_env);
                        proof {
                            assert(decreases_to!(s0 => *inner));
                        }
                        let mapped = self.map_statement(*inner);
                        self.pop_scope();
                        match mapped {
                            Ok(mapped_stmt) => {
                                let kind = StatementKind::For { t, ident, arr: Box::new(mapped_arr), stmt: Box::new(mapped_stmt) };
                                Ok(Meta::new(kind, TypeMeta { t: Type::Void }))
                            },
                            Err(e) => Err(e),
                        }
                    },
                    Err(kind) => Err(error_at(kind, arr_loc)),
                }
            },
            StatementKind::Expr { expr } => {
                let mapped_expr = match self.map_expression(*expr) {
                    Ok(e) => e,
                    Err(e) => {
                        return Err(e);
                    },
                };
                Ok(Meta::new(StatementKind::Expr { expr: Box::new(mapped_expr) }, TypeMeta { t: Type::Void }))
            },
            StatementKind::Error => {
                let message = String::from_str("Invalid statement");
                Err(error_at(FrontendErrorKind::ParseError { message }, loc))
            },
        }
    }

    /// types of the members of a class: its instance variables keep their declared types, and
    /// its methods are checked with the class as the current object (`self`)
    fn map_class(&mut self, class: Class<LocationMeta>) -> (res: TypeCheckResult<Class<TypeMeta>>)
        ensures
            final(self).same_context(*old(self)),
            final(self).local_envs@ == old(self).local_envs@,
            res matches Ok(tc) ==> tc.item.ident == class.item.ident && tc.item.parent == class.item.parent
                && tc.meta.t@ == (TypeV::Class { ident: class.item.ident@ })
                && tc.item.vars.keys() == class.item.vars.keys() && tc.item.methods.keys() == class.item.methods.keys(),
            res matches Err(e) ==> e@.len() >= 1,
    {
        let ident = class.item.ident;
        let parent = class.item.parent;
        let mut saved_class = Some(ident.clone());
        std::mem::swap(&mut saved_class, &mut self.current_class);
        let mut self_env: Env<Type> = Env::new();
        self_env.insert(String::from_str("self"), Type::Class { ident: ident.clone() });
        self.push_scope(self_env);

        // variables are mapped by swapping meta, no errors can happen here
        let ghost var_keys = class.item.vars.keys();
        let mut vars_rest = class.item.vars.entries;
        let ghost vars_all = vars_rest@;
        let mut mapped_vars: Vec<(String, ClassVar<TypeMeta>)> = Vec::new();
        let total = vars_rest.len();
        let mut k: usize = 0;
        while vars_rest.len() > 0
            invariant
                vars_all.len() == total,
                vars_rest@.len() + k == total,
                forall|i: int| 0 <= i < vars_rest@.len() ==> vars_rest@[i] == vars_all[k + i],
                var_keys == crate::util::env::keys_of(vars_all),
                mapped_vars@.len() == k,
                forall|i: int| 0 <= i < k ==> (#[trigger] mapped_vars@[i]).0 == vars_all[i].0,
            decreases vars_rest.len(),
        {
            let (name, var) = vars_rest.remove(0);
            let t = var.item.t.copy();
            mapped_vars.push((name, Meta::new(var.item, TypeMeta { t })));
            k += 1;
        }

        // every method needs to be checked for type correctness
        let ghost method_keys = class.item.methods.keys();
        let mut methods_rest = class.item.methods.entries;
        let ghost methods_all = methods_rest@;
        let mut mapped_methods: Vec<(String, Function<TypeMeta>)> = Vec::new();
        let mut errors: Vec<FrontendError<LocationMeta>> = Vec::new();
        let total = methods_rest.len();
        let mut k: usize = 0;
        let ghost inside = *self;
        while methods_rest.len() > 0
            invariant
                self.wf(),
                self.same_context(inside),
                self.local_envs@ == inside.local_envs@,
                methods_all.len() == total,
                methods_rest@.len() + k == total,
                forall|i: int| 0 <= i < methods_rest@.len() ==> methods_rest@[i] == methods_all[k + i],
                method_keys == crate::util::env::keys_of(methods_all),
                errors@.len() == 0 ==> mapped_methods@.len() == k
                    && forall|i: int| 0 <= i < k ==> (#[trigger] mapped_methods@[i]).0 == methods_all[i].0,
            decreases methods_rest.len(),
        {
            let (name, method) = methods_rest.remove(0);
            match self.map_function(method) {
                Ok(mapped) => {
                    mapped_methods.push((name, mapped));
                },
                Err(mut e) => {
                    errors.append(&mut e);
                },
            }
            k += 1;
        }
        self.pop_scope();
        self.current_class = saved_class;
        if errors.len() == 0 {
            let vars = Env { entries: mapped_vars };
            let methods = Env { entries: mapped_methods };
            proof {
                assert(vars.keys() =~= var_keys);
                assert(methods.keys() =~= method_keys);
            }
            let t = Type::Class { ident: ident.clone() };
            Ok(Meta::new(ClassItem { ident, vars, methods, parent }, TypeMeta { t }))
        } else {
            Err(errors)
        }
    }

    /// types of a function: its body is checked with its arguments in a nested scope, and the
    /// type of the body must be assignable to the return type
    fn map_function(&mut self, function: Function<LocationMeta>) -> (res: TypeCheckResult<Function<TypeMeta>>)
        ensures
            final(self).same_context(*old(self)),
            final(self).local_envs@ == old(self).local_envs@,
            res matches Ok(tf) ==> tf.item.ident == function.item.ident && tf.item.ret@ == function.item.ret@
                && tf.meta.t@ == (TypeV::Function { args: arg_types(function.item.args@), ret: Box::new(function.item.ret@) })
                && assignable(old(self).classes, function.item.ret@, tf.item.block.meta.t@),
            res matches Err(e) ==> e@.len() >= 1,
    {
        let loc = function.meta;
        let item = function.item;
        let args_env = args_type_env(&item.args);
        self.push_scope(args_env);
        let mapped = self.map_block(item.block);
        self.pop_scope();
        let mapped_block = match mapped {
            Ok(b) => b,
            Err(e) => {
                return Err(e);
            },
        };
        match self.check_assignment(&item.ret, &mapped_block.meta.t) {
            Ok(()) => {
                // the arguments keep their declared types
                let ghost args0 = item.args@;
                let mut args_rest = item.args;
                let mut mapped_args: Vec<Arg<TypeMeta>> = Vec::new();
                let total = args_rest.len();
                let mut k: usize = 0;
                while args_rest.len() > 0
                    invariant
                        args0.len() == total,
                        args_rest@.len() + k == total,
                        forall|i: int| 0 <= i < args_rest@.len() ==> args_rest@[i] == args0[k + i],
                        mapped_args@.len() == k,
                        forall|i: int| 0 <= i < k ==> (#[trigger] mapped_args@[i]).item == args0[i].item,
                    decreases args_rest.len(),
                {
                    let arg = args_rest.remove(0);
                    let t = arg.item.t.copy();
                    mapped_args.push(Meta::new(arg.item, TypeMeta { t }));
                    k += 1;
                }
                proof {
                    assert(arg_types(mapped_args@) =~= arg_types(args0));
                }
                match FunctionItem::new(item.ret, item.ident, mapped_args, mapped_block) {
                    Ok(f) => {
                        let t = f.get_type();
                        Ok(Meta::new(f, TypeMeta { t }))
                    },
                    Err(e) => {
                        // arguments with the same name
                        let mut errors: Vec<FrontendError<LocationMeta>> = Vec::new();
                        let mut rest = e;
                        while rest.len() > 0
                            invariant
                                errors@.len() >= 0,
                            decreases rest.len(),
                        {
                            let err = rest.remove(0);
                            errors.push(Meta::new(err.item, loc));
                        }
                        if errors.len() == 0 {
                            errors.push(Meta::new(FrontendErrorKind::EnvError { message: String::from_str("Duplicate argument") }, loc));
                        }
                        Err(errors)
                    },
                }
            },
            Err(kind) => Err(error_at(kind, loc)),
        }
    }
}

/// The operators of Latte type as the language defines them: `+` joins two strings into a
/// string and adds two integers into an integer, the other arithmetic operators take and give
/// integers, and comparisons of two integers give a boolean.
pub proof fn law_operator_types(tc: TypeChecker, e: Expression<LocationMeta>)
    requires
        e.item is Binary,
    ensures
        e.item matches ExpressionKind::Binary { left, op, right } ==> (op == BinaryOperator::Plus
            && simple_type(tc, *left) == Some(TypeV::Str) && simple_type(tc, *right) == Some(TypeV::Str)
            ==> simple_type(tc, e) == Some(TypeV::Str)),
        e.item matches ExpressionKind::Binary { left, op, right } ==> ((op == BinaryOperator::Plus || op == BinaryOperator::Minus
            || op == BinaryOperator::Times || op == BinaryOperator::Divide || op == BinaryOperator::Modulo)
            && simple_type(tc, *left) == Some(TypeV::Int) && simple_type(tc, *right) == Some(TypeV::Int)
            ==> simple_type(tc, e) == Some(TypeV::Int)),
        e.item matches ExpressionKind::Binary { left, op, right } ==> ((op == BinaryOperator::Less || op == BinaryOperator::LessEqual
            || op == BinaryOperator::Greater || op == BinaryOperator::GreaterEqual || op == BinaryOperator::Equal
            || op == BinaryOperator::NotEqual)
            && simple_type(tc, *left) == Some(TypeV::Int) && simple_type(tc, *right) == Some(TypeV::Int)
            ==> simple_type(tc, e) == Some(TypeV::Bool)),
        e.item matches ExpressionKind::Binary { left, op, right } ==> ((op == BinaryOperator::And || op == BinaryOperator::Or)
            && simple_type(tc, *left) == Some(TypeV::Bool) && simple_type(tc, *right) == Some(TypeV::Bool)
            ==> simple_type(tc, e) == Some(TypeV::Bool)),
{
}

} // verus!
