//! Compilation of checked programs to LLVM IR: functions, classes and whole programs.
pub mod function;
pub mod class;
pub mod program;

use vstd::prelude::*;

use crate::backend::compiler::function::{FunctionCompiler, expr_compilable, stmt_supported, compiled_type, suffixed, var_view, is_atom, atom_entity, uuid_after, binary_block, mut_block, return_block, default_of, declared_name, loop_blocks, cond_blocks, cond_else_blocks, exit_targets, unique_entity, new_array_instructions, is_plain_operand, plain_entity, register_after, concat_call};
use crate::backend::compiler::program::{ProgramCompiler, program_wf, defines_function, function_supported, lists_init_functions, root_fits, starts_unlabelled};
use crate::backend::context::GlobalContext;
use crate::backend::context::global::{declares_function, function_name, lists_declarations, declarations_count};
use crate::backend::ir::{Entity, EntityV, FunctionDef, LLVM, entity_type};
use crate::frontend::ast::{BinaryOperator, DeclItemKind, Expression, ExpressionKind, Function, Program, ReferenceKind, Statement, StatementKind, TypeV};
use crate::meta::TypeMeta;

verus! {

/// compiler of programs, which also compiles single functions, statements and expressions
/// (those in the context of the function under compilation)
pub struct Compiler {
    pub function_compiler: FunctionCompiler,
}

impl Compiler {
    pub fn new() -> (r: Self)
        ensures
            r.function_compiler.inv(),
            r.function_compiler.builder.block@.label is None,
            r.function_compiler.builder.block@.instructions.len() == 0,
            r.function_compiler.builder.entity_mapping is None,
            r.function_compiler.builder.predecessors.entries@.len() == 0,
            r.function_compiler.builder.variables_gen.entries@.len() == 0,
            r.function_compiler.block_context.current_depth == 0,
            r.function_compiler.block_context.env_stack@.len() == 1,
            r.function_compiler.block_context.env_stack@[0].entries@.len() == 0,
            r.function_compiler.function_context.available_register == 1,
            r.function_compiler.function_context.available_uuid == 1,
            r.function_compiler.function_context.compiled_blocks@.len() == 0,
            !r.function_compiler.unsupported,
            r.function_compiler.lazy_in_memory,
            r.function_compiler.global_context.string_declarations.entries@.len() == 0,
            r.function_compiler.global_context.function_declarations@.len() == 0,
            r.function_compiler.global_context.struct_declarations.entries@.len() == 0,
            r.function_compiler.global_context.struct_vtable_declarations.entries@.len() == 0,
            r.function_compiler.global_context.array_struct_definitions@.len() == 0,
            r.function_compiler.global_context.available_const == 1,
            r.function_compiler.global_context.available_label_suffix == 1,
    {
        let mut function_compiler = FunctionCompiler::new(GlobalContext::new());
        function_compiler.lazy_in_memory = true;
        Compiler { function_compiler }
    }

    /// construct a compiler with a pre-defined vector of function declarations
    pub fn with_builtin_functions(declarations: &mut Vec<String>) -> (r: Self)
        ensures
            r.function_compiler.inv(),
            r.function_compiler.global_context.function_declarations@ == old(declarations)@,
            r.function_compiler.global_context.string_declarations.entries@.len() == 0,
            r.function_compiler.global_context.struct_declarations.entries@.len() == 0,
            r.function_compiler.global_context.struct_vtable_declarations.entries@.len() == 0,
            r.function_compiler.global_context.array_struct_definitions@.len() == 0,
            final(declarations)@.len() == 0,
            r.function_compiler.lazy_in_memory,
    {
        let mut global = GlobalContext::new();
        global.append_function_declarations(declarations);
        let mut function_compiler = FunctionCompiler::new(global);
        function_compiler.lazy_in_memory = true;
        Compiler { function_compiler }
    }

    /// compile an expression in the current function
    pub fn compile_expression(&mut self, expr: Expression<TypeMeta>) -> (r: Entity)
        requires
            old(self).function_compiler.inv(),
            expr_compilable(expr, old(self).function_compiler.block_context, old(self).function_compiler.global_context.struct_declarations),
        ensures
            final(self).function_compiler.extends(old(self).function_compiler),
            final(self).function_compiler.block_context == old(self).function_compiler.block_context,
            entity_type(r@) == compiled_type(expr, old(self).function_compiler.block_context,
                old(self).function_compiler.global_context.struct_declarations),
            is_atom(expr) ==> final(self).function_compiler.builder == old(self).function_compiler.builder
                && r@ == atom_entity(expr, old(self).function_compiler.block_context, old(self).function_compiler.function_context.available_uuid),
            expr.item matches ExpressionKind::Binary { left, op, right } ==> (op != BinaryOperator::And && op != BinaryOperator::Or
                && !(left.meta.t@ == TypeV::Str && op == BinaryOperator::Plus) && is_atom(*left) && is_atom(*right)
                ==> final(self).function_compiler.builder.block@ == binary_block(old(self).function_compiler.builder.block@, op,
                    atom_entity(*left, old(self).function_compiler.block_context, old(self).function_compiler.function_context.available_uuid),
                    atom_entity(*right, old(self).function_compiler.block_context,
                        uuid_after(*left, old(self).function_compiler.function_context.available_uuid)),
                    old(self).function_compiler.function_context.available_register, expr.meta.t@)),
            expr.item matches ExpressionKind::Binary { left, op, right } ==> (op == BinaryOperator::Plus && left.meta.t@ == TypeV::Str
                && is_plain_operand(*left) && is_plain_operand(*right) ==> {
                    let u = old(self).function_compiler.function_context.available_uuid;
                    let n = old(self).function_compiler.function_context.available_register;
                    let l = plain_entity(*left, old(self).function_compiler.block_context, u, n);
                    let r = plain_entity(*right, old(self).function_compiler.block_context, uuid_after(*left, u), register_after(*left, n));
                    &&& final(self).function_compiler.builder.block@.instructions.len() > 0
                    &&& final(self).function_compiler.builder.block@.instructions.last()
                        == concat_call(l, r, register_after(*right, register_after(*left, n)), expr.meta.t@)
                }),
            expr.item matches ExpressionKind::InitArr { t, size } ==> (is_atom(*size) ==> new_array_instructions(
                old(self).function_compiler.builder.block@.instructions, final(self).function_compiler.builder.block@.instructions,
                atom_entity(*size, old(self).function_compiler.block_context, old(self).function_compiler.function_context.available_uuid), t@,
                old(self).function_compiler.function_context.available_register)),
            expr.item matches ExpressionKind::Binary { left, op, right } ==> ((op == BinaryOperator::And || op == BinaryOperator::Or)
                && is_atom(*left) && is_atom(*right) && old(self).function_compiler.builder.predecessors.entries@.len() < 2
                ==> final(self).function_compiler.lazy_compiled(old(self).function_compiler, op,
                    atom_entity(*left, old(self).function_compiler.block_context, old(self).function_compiler.function_context.available_uuid),
                    atom_entity(*right, old(self).function_compiler.block_context,
                        uuid_after(*left, old(self).function_compiler.function_context.available_uuid)),
                    expr.meta.t@, r@)),
    {
        self.function_compiler.compile_expression(expr)
    }

    /// compile a statement in the current function
    pub fn compile_statement(&mut self, stmt: Statement<TypeMeta>)
        requires
            old(self).function_compiler.inv(),
            stmt_supported(stmt),
        ensures
            final(self).function_compiler.continues(old(self).function_compiler),
            stmt.item is Empty ==> final(self).function_compiler == old(self).function_compiler,
            stmt.item matches StatementKind::Return { expr } ==> (match expr {
                None => true,
                Some(e) => expr_compilable(*e, old(self).function_compiler.block_context, old(self).function_compiler.global_context.struct_declarations),
            } ==> final(self).function_compiler.builder.block@.instructions.len() > 0
                && crate::backend::ir::is_return(final(self).function_compiler.builder.block@.instructions.last().kind)),
            stmt.item matches StatementKind::Return { expr } ==> (match expr {
                None => true,
                Some(e) => is_atom(*e) && expr_compilable(*e, old(self).function_compiler.block_context, old(self).function_compiler.global_context.struct_declarations),
            } ==> final(self).function_compiler.builder.block@ == return_block(old(self).function_compiler.builder.block@, expr,
                old(self).function_compiler.block_context, old(self).function_compiler.function_context.available_uuid)),
            stmt.item matches StatementKind::Mut { r, op } ==> (r.item matches ReferenceKind::Ident { ident } ==>
                (var_view(old(self).function_compiler.block_context, ident@) is Some ==> var_view(final(self).function_compiler.block_context, ident@)
                    == Some(EntityV::Register { n: old(self).function_compiler.function_context.available_register, t: TypeV::Int }))),
            stmt.item matches StatementKind::Mut { r, op } ==> (r.item matches ReferenceKind::Ident { ident } ==>
                (var_view(old(self).function_compiler.block_context, ident@) is Some ==> final(self).function_compiler.builder.block@
                    == mut_block(old(self).function_compiler.builder.block@, op, var_view(old(self).function_compiler.block_context, ident@)->0,
                        old(self).function_compiler.function_context.available_register))),
            stmt.item matches StatementKind::Decl { t, items } ==> forall|i: int| 0 <= i < items@.len() ==>
                ((#[trigger] items@[i]).item matches DeclItemKind::NoInit { ident } ==> var_view(final(self).function_compiler.block_context, ident@) is Some),
            stmt.item matches StatementKind::Decl { t, items } ==> forall|i: int| 0 <= i < items@.len()
                && (forall|j: int| i < j < items@.len() ==> declared_name(items@[j]) != declared_name(items@[i]))
                ==> ((#[trigger] items@[i]).item matches DeclItemKind::NoInit { ident }
                    ==> (var_view(final(self).function_compiler.block_context, ident@) matches Some(e) && default_of(t@, e))),
            stmt.item matches StatementKind::Decl { t, items } ==> (items@.len() == 1 ==> (items@[0].item matches DeclItemKind::NoInit { ident } ==>
                final(self).function_compiler.declared_default(old(self).function_compiler, t@, ident@))),
            stmt.item matches StatementKind::Cond { expr, .. } ==> (expr_compilable(*expr, old(self).function_compiler.block_context, old(self).function_compiler.global_context.struct_declarations)
                ==> final(self).function_compiler.builder.block@.label == Some(suffixed("__cond__false__"@, old(self).function_compiler.global_context.available_label_suffix))),
            stmt.item matches StatementKind::Cond { expr, .. } ==> (expr_compilable(*expr, old(self).function_compiler.block_context, old(self).function_compiler.global_context.struct_declarations)
                ==> cond_blocks(final(self).function_compiler.function_context.compiled_blocks@,
                    old(self).function_compiler.function_context.compiled_blocks@.len() as int,
                    old(self).function_compiler.global_context.available_label_suffix, final(self).function_compiler.builder.predecessors)),
            stmt.item matches StatementKind::CondElse { expr, .. } ==> (expr_compilable(*expr, old(self).function_compiler.block_context, old(self).function_compiler.global_context.struct_declarations)
                ==> cond_else_blocks(final(self).function_compiler.function_context.compiled_blocks@,
                    old(self).function_compiler.function_context.compiled_blocks@.len() as int,
                    old(self).function_compiler.global_context.available_label_suffix, final(self).function_compiler.builder.block@,
                    final(self).function_compiler.builder.predecessors)),
            stmt.item matches StatementKind::While { expr, .. } ==>
                final(self).function_compiler.builder.block@.label == Some(suffixed("__loop_end__"@, old(self).function_compiler.global_context.available_label_suffix)),
            stmt.item is While && !final(self).function_compiler.unsupported ==> exit_targets(final(self).function_compiler.function_context.compiled_blocks@.last()@)
                == Some(seq![suffixed("__loop_body__"@, old(self).function_compiler.global_context.available_label_suffix),
                    suffixed("__loop_end__"@, old(self).function_compiler.global_context.available_label_suffix)]),
            stmt.item is While ==> loop_blocks(final(self).function_compiler.function_context.compiled_blocks@,
                old(self).function_compiler.function_context.compiled_blocks@.len() as int,
                old(self).function_compiler.global_context.available_label_suffix),
            stmt.item matches StatementKind::Ass { r, expr } ==> (r.item matches ReferenceKind::Ident { ident } ==>
                (var_view(old(self).function_compiler.block_context, ident@) is Some
                    && expr_compilable(*expr, old(self).function_compiler.block_context, old(self).function_compiler.global_context.struct_declarations) ==>
                (var_view(final(self).function_compiler.block_context, ident@) matches Some(e)
                    && entity_type(e) == compiled_type(*expr, old(self).function_compiler.block_context, old(self).function_compiler.global_context.struct_declarations)))),
            stmt.item is Expr ==> final(self).function_compiler.block_context == old(self).function_compiler.block_context,
            stmt.item matches StatementKind::Ass { r, expr } ==> (r.item matches ReferenceKind::Ident { ident } ==>
                (var_view(old(self).function_compiler.block_context, ident@) is Some && is_atom(*expr)
                    && expr_compilable(*expr, old(self).function_compiler.block_context, old(self).function_compiler.global_context.struct_declarations)
                    ==> final(self).function_compiler.assigned_atom(old(self).function_compiler, ident@, *expr))),
            stmt.item matches StatementKind::Block { block } ==> (block.item.stmts@.len() == 1 ==>
                (block.item.stmts@[0].item matches StatementKind::Ass { r, expr } ==> (r.item matches ReferenceKind::Ident { ident } ==>
                    (var_view(old(self).function_compiler.block_context, ident@) is Some && is_atom(*expr)
                        && expr_compilable(*expr, old(self).function_compiler.block_context, old(self).function_compiler.global_context.struct_declarations)
                        ==> var_view(final(self).function_compiler.block_context, ident@) == Some(unique_entity(
                            atom_entity(*expr, old(self).function_compiler.block_context, old(self).function_compiler.function_context.available_uuid),
                            uuid_after(*expr, old(self).function_compiler.function_context.available_uuid))))))),
    {
        self.function_compiler.compile_statement(stmt)
    }

    /// compile a function with fresh function contexts (the global context is shared)
    pub fn compile_function(&mut self, function: Function<TypeMeta>) -> (r: FunctionDef)
        requires
            old(self).function_compiler.inv(),
            function_supported(function),
        ensures
            final(self).function_compiler.inv(),
            r.name@ == function_name(function.item.ident@),
            r.ret_type@ == function.item.ret@,
            r.args@.len() == function.item.args@.len(),
            forall|i: int| 0 <= i < r.args@.len() ==> (#[trigger] r.args@[i]).ident@ == function.item.args@[i].item.ident@
                && r.args@[i].t@ == function.item.args@[i].meta.t@,
            r.body@.len() >= 1,
            r.body@[0]@.label is None,
            function.item.args@.len() == 0 && function.item.block.item.stmts@.len() == 1
                ==> (function.item.block.item.stmts@[0].item matches StatementKind::Return { expr } ==> (match expr {
                    None => true,
                    Some(e) => is_atom(*e) && !(e.item is Reference),
                } ==> r.body@.len() == 1 && r.body@[0]@ == return_block(crate::backend::ir::BasicBlockV { label: None, instructions: Seq::empty() },
                    expr, old(self).function_compiler.block_context, 1))),
            final(self).function_compiler.lazy_in_memory == old(self).function_compiler.lazy_in_memory,
            final(self).function_compiler.global_context.function_declarations
                == old(self).function_compiler.global_context.function_declarations,
    {
        let mut global = GlobalContext::new();
        std::mem::swap(&mut global, &mut self.function_compiler.global_context);
        let mut nested = FunctionCompiler::new(global);
        nested.lazy_in_memory = true;
        let ghost nb = nested;
        let ghost f = function;
        proof {
            assert(nb.builder.block@.instructions =~= Seq::<crate::backend::ir::InstructionV>::empty());
            if f.item.block.item.stmts@.len() == 1 {
                match f.item.block.item.stmts@[0].item {
                    StatementKind::Return { expr } => {
                        match expr {
                            Some(e) => {
                                if is_atom(*e) && !(e.item is Reference) {
                                    reveal_with_fuel(expr_compilable, 2);
                                    assert(expr_compilable(*e, nb.block_context, nb.global_context.struct_declarations));
                                }
                            },
                            None => {},
                        }
                    },
                    _ => {},
                }
            }
        }
        let def = nested.compile_function(function);
        if nested.unsupported {
            self.function_compiler.unsupported = true;
        }
        self.function_compiler.global_context = nested.global_context;
        def
    }

    /// compile a whole program
    pub fn compile_program(&mut self, program: Program<TypeMeta>) -> (r: Vec<LLVM>)
        requires
            old(self).function_compiler.inv(),
            program_wf(program),
        ensures
            final(self).function_compiler.inv(),
            final(self).function_compiler.lazy_in_memory == old(self).function_compiler.lazy_in_memory,
            r@.len() >= old(self).function_compiler.global_context.function_declarations@.len() + program.functions.entries@.len(),
            forall|i: int| 0 <= i < old(self).function_compiler.global_context.function_declarations@.len() ==>
                declares_function(#[trigger] r@[i], old(self).function_compiler.global_context.function_declarations@[i]@),
            forall|i: int| 0 <= i < program.functions.entries@.len() ==> defines_function(
                #[trigger] r@[r@.len() - program.functions.entries@.len() + i],
                function_name(program.functions.entries@[i].1.item.ident@)),
            forall|i: int| 0 <= i < program.functions.entries@.len() ==>
                starts_unlabelled(#[trigger] r@[r@.len() - program.functions.entries@.len() + i]),
            final(self).function_compiler.global_context.function_declarations
                == old(self).function_compiler.global_context.function_declarations,
            lists_declarations(final(self).function_compiler.global_context, r@),
            lists_init_functions(r@, declarations_count(final(self).function_compiler.global_context),
                r@.len() - program.functions.entries@.len(), program.classes.entries@,
                final(self).function_compiler.global_context.struct_declarations),
            declarations_count(final(self).function_compiler.global_context) <= r@.len() - program.functions.entries@.len(),
            forall|i: int| 0 <= i < program.classes.entries@.len() && root_fits(#[trigger] program.classes.entries@[i].1)
                ==> final(self).function_compiler.global_context.struct_declarations.lookup(program.classes.entries@[i].1.item.ident@) is Some,
    {
        let mut global = GlobalContext::new();
        std::mem::swap(&mut global, &mut self.function_compiler.global_context);
        let mut program_compiler = ProgramCompiler { global_context: global, unsupported: false, lazy_in_memory: true };
        let r = program_compiler.compile_program(program);
        if program_compiler.unsupported {
            self.function_compiler.unsupported = true;
        }
        self.function_compiler.global_context = program_compiler.global_context;
        r
    }
}

} // verus!
