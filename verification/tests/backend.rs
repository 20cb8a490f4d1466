use latte::frontend::ast::{BlockItem, DeclItemKind, ExpressionKind, FunctionItem, StatementKind, Type};
use latte::backend::{compile, compile_checked};
use latte::frontend::check_code;

fn checked(source: &str) -> latte::frontend::CheckedProgram {
    match check_code(String::from(source)) {
        Ok(p) => p,
        Err(e) => panic!("front end rejected the program: {:?}", e),
    }
}

#[test]
fn runtime_declarations_come_first() {
    let text = compile(checked("int main() { return 0; }"));
    let lines: Vec<&str> = text.lines().collect();
    assert_eq!(lines[0], "declare i8* @__builtin_method__str__init__(i32)");
    assert_eq!(lines[1], "declare i8* @__builtin_method__str__concat__(i8*, i8*)");
    assert_eq!(lines[2], "declare void @__func__printInt(i32)");
    assert_eq!(lines[3], "declare void @__func__printString(i8*)");
    assert_eq!(lines[4], "declare void @__func__error()");
    assert_eq!(lines[5], "declare i32 @__func__readInt()");
    assert_eq!(lines[6], "declare i8* @__func__readString()");
}

#[test]
fn main_is_defined() {
    let text = compile(checked("int main() { return 42; }"));
    assert!(text.contains("define i32 @main () {"), "{}", text);
    assert!(text.contains("ret i32 42"), "{}", text);
}

#[test]
fn functions_get_prefixed_names() {
    let text = compile(checked("int twice(int x) { return x + x; } int main() { printInt(twice(21)); return 0; }"));
    assert!(text.contains("@__func__twice"), "{}", text);
    assert!(text.contains("call void @__func__printInt"), "{}", text);
}

#[test]
fn checked_compilation_agrees() {
    let source = "int main() { int i = 0; while (i < 3) i++; if (i == 3) printString(\"three\"); return 0; }";
    let direct = compile(checked(source));
    let guarded = compile_checked(checked(source)).unwrap();
    assert_eq!(direct, guarded);
}

#[test]
fn classes_and_arrays_compile() {
    let source = "class P { int x; }\n\
                  class Q extends P { boolean b; }\n\
                  int main() { Q q = new Q; q.x = 3; int[] a = new int[2]; a[0] = q.x; printInt(a.length); return a[0]; }";
    let text = compile_checked(checked(source)).unwrap();
    assert!(text.contains("define i32 @main () {"), "{}", text);
    assert!(text.contains("@__init__Q"), "{}", text);
    assert!(text.contains("store i32 3"), "{}", text);
}

#[test]
fn method_calls_are_not_compiled() {
    let source = "class P { int x; int get() { return x; } }\n\
                  int main() { P p = new P; return p.get(); }";
    assert!(compile_checked(checked(source)).is_none());
}

#[test]
fn subtraction_keeps_operand_order() {
    let text = compile(checked("int main() { int x = 7; int y = 2; return x - y; }"));
    assert!(text.contains("sub i32 7, 2"), "{}", text);
}

#[test]
fn decrement_subtracts_one() {
    let text = compile(checked("int main() { int x = 7; x--; return x; }"));
    assert!(text.contains("sub i32 7, 1"), "{}", text);
}

#[test]
fn phi_after_nested_branch_names_the_block_that_jumps() {
    let source = "int main() { int x = 0; if (readInt() > 0) { if (readInt() > 0) x = 1; } printInt(x); return 0; }";
    let text = compile(checked(source));
    let merges_inner_end = text
        .lines()
        .any(|l| l.contains(" = phi ") && l.contains("__cond__false__2"));
    assert!(merges_inner_end, "{}", text);
}

#[test]
fn lazy_or_of_constants_ends_in_a_phi() {
    use_lazy_or();
}

fn use_lazy_or() {
    let bool_meta = || latte::meta::TypeMeta { t: latte::frontend::ast::Type::Bool };
    let left = latte::meta::Meta::new(latte::frontend::ast::ExpressionKind::LitBool { val: true }, bool_meta());
    let right = latte::meta::Meta::new(latte::frontend::ast::ExpressionKind::LitBool { val: false }, bool_meta());
    let e = latte::meta::Meta::new(
        latte::frontend::ast::ExpressionKind::Binary {
            left: Box::new(left),
            op: latte::frontend::ast::BinaryOperator::Or,
            right: Box::new(right),
        },
        bool_meta(),
    );
    let mut fc = latte::backend::compiler::function::FunctionCompiler::new(latte::backend::context::GlobalContext::new());
    let r = fc.compile_expression(e);
    assert_eq!(r, latte::backend::ir::Entity::Register { n: 2, t: latte::frontend::ast::Type::Bool });
    assert_eq!(fc.builder.block.label, Some(String::from("__lazy_end__1")));
    assert_eq!(fc.builder.block.instructions.len(), 1);
    match &fc.builder.block.instructions[0].item {
        latte::backend::ir::InstructionKind::Phi { args } => {
            assert_eq!(args[0], (latte::backend::ir::Entity::Bool { v: true, uuid: 1 }, String::from("0")));
            assert_eq!(args[1], (latte::backend::ir::Entity::Bool { v: false, uuid: 2 }, String::from("__lazy_cont__1")));
        }
        other => panic!("unexpected {:?}", other),
    }
    let entry = &fc.function_context.compiled_blocks[0];
    assert_eq!(entry.label, None);
    assert_eq!(entry.instructions.len(), 2);
    assert_eq!(entry.instructions[0], lazy_instruction(
        latte::backend::ir::InstructionKind::BinaryOp {
            op: latte::frontend::ast::BinaryOperator::Equal,
            l: latte::backend::ir::Entity::Bool { v: true, uuid: 1 },
            r: latte::backend::ir::Entity::Bool { v: true, uuid: 0 },
        },
        Some(latte::backend::ir::Entity::Register { n: 1, t: latte::frontend::ast::Type::Bool }),
    ));
    assert_eq!(entry.instructions[1], lazy_instruction(
        latte::backend::ir::InstructionKind::JumpCond {
            cond: latte::backend::ir::Entity::Register { n: 1, t: latte::frontend::ast::Type::Bool },
            true_label: String::from("__lazy_end__1"),
            false_label: String::from("__lazy_cont__1"),
        },
        None,
    ));
    let cont = &fc.function_context.compiled_blocks[1];
    assert_eq!(cont.label, Some(String::from("__lazy_cont__1")));
    assert_eq!(cont.instructions.len(), 1);
}

fn lazy_instruction(kind: latte::backend::ir::InstructionKind, result: Option<latte::backend::ir::Entity>) -> latte::backend::ir::Instruction {
    latte::meta::Meta::new(kind, result)
}

fn lazy_or_of_constants() -> latte::frontend::ast::Expression<latte::meta::TypeMeta> {
    let bool_meta = || latte::meta::TypeMeta { t: latte::frontend::ast::Type::Bool };
    let left = latte::meta::Meta::new(latte::frontend::ast::ExpressionKind::LitBool { val: true }, bool_meta());
    let right = latte::meta::Meta::new(latte::frontend::ast::ExpressionKind::LitBool { val: false }, bool_meta());
    latte::meta::Meta::new(
        latte::frontend::ast::ExpressionKind::Binary {
            left: Box::new(left),
            op: latte::frontend::ast::BinaryOperator::Or,
            right: Box::new(right),
        },
        bool_meta(),
    )
}

#[test]
fn program_compiler_keeps_lazy_value_in_a_slot() {
    let mut compiler = latte::backend::compiler::Compiler::new();
    let r = compiler.compile_expression(lazy_or_of_constants());
    let bool_t = || latte::frontend::ast::Type::Bool;
    let slot = || latte::backend::ir::Entity::Register { n: 1, t: latte::frontend::ast::Type::Reference { t: Box::new(bool_t()) } };
    assert_eq!(r, latte::backend::ir::Entity::Register { n: 3, t: bool_t() });
    let fc = &compiler.function_compiler;
    let entry = &fc.function_context.compiled_blocks[0];
    assert_eq!(entry.label, None);
    assert_eq!(entry.instructions, vec![
        lazy_instruction(latte::backend::ir::InstructionKind::Alloc { t: bool_t() }, Some(slot())),
        lazy_instruction(latte::backend::ir::InstructionKind::Store {
            val: latte::backend::ir::Entity::Bool { v: true, uuid: 1 },
            ptr: slot(),
        }, None),
        lazy_instruction(latte::backend::ir::InstructionKind::BinaryOp {
            op: latte::frontend::ast::BinaryOperator::Equal,
            l: latte::backend::ir::Entity::Bool { v: true, uuid: 1 },
            r: latte::backend::ir::Entity::Bool { v: true, uuid: 0 },
        }, Some(latte::backend::ir::Entity::Register { n: 2, t: bool_t() })),
        lazy_instruction(latte::backend::ir::InstructionKind::JumpCond {
            cond: latte::backend::ir::Entity::Register { n: 2, t: bool_t() },
            true_label: String::from("__lazy_end__1"),
            false_label: String::from("__lazy_cont__1"),
        }, None),
    ]);
    let cont = &fc.function_context.compiled_blocks[1];
    assert_eq!(cont.label, Some(String::from("__lazy_cont__1")));
    assert_eq!(cont.instructions, vec![
        lazy_instruction(latte::backend::ir::InstructionKind::Store {
            val: latte::backend::ir::Entity::Bool { v: false, uuid: 2 },
            ptr: slot(),
        }, None),
        lazy_instruction(latte::backend::ir::InstructionKind::Jump { label: String::from("__lazy_end__1") }, None),
    ]);
    assert_eq!(fc.builder.block.label, Some(String::from("__lazy_end__1")));
    assert_eq!(fc.builder.block.instructions, vec![
        lazy_instruction(latte::backend::ir::InstructionKind::Load { ptr: slot() }, Some(latte::backend::ir::Entity::Register { n: 3, t: bool_t() })),
    ]);
}

#[test]
fn declared_integer_starts_at_zero() {
    let text = compile(checked("int main() { int x; return x; }"));
    assert!(text.contains("ret i32 0"), "{}", text);
}

fn int_meta() -> latte::meta::TypeMeta {
    latte::meta::TypeMeta { t: latte::frontend::ast::Type::Int }
}

#[test]
fn function_returning_a_constant_is_one_block() {
    let ret = latte::meta::Meta::new(
        StatementKind::Return { expr: Some(Box::new(latte::meta::Meta::new(ExpressionKind::LitInt { val: 0 }, int_meta()))) },
        int_meta(),
    );
    let block = latte::meta::Meta::new(BlockItem { stmts: vec![Box::new(ret)] }, int_meta());
    let function = latte::meta::Meta::new(
        FunctionItem { ret: Type::Int, ident: String::from("main"), args: vec![], block },
        latte::meta::TypeMeta { t: Type::Function { args: vec![], ret: Box::new(Type::Int) } },
    );
    let mut fc = latte::backend::compiler::function::FunctionCompiler::new(latte::backend::context::GlobalContext::new());
    let def = fc.compile_function(function);
    assert_eq!(def.name, String::from("main"));
    assert_eq!(def.ret_type, Type::Int);
    assert!(def.args.is_empty());
    assert_eq!(def.body, vec![latte::backend::ir::BasicBlock {
        label: None,
        instructions: vec![lazy_instruction(
            latte::backend::ir::InstructionKind::RetVal { val: latte::backend::ir::Entity::Int { v: 0, uuid: 1 } },
            None,
        )],
    }]);
}

#[test]
fn declared_string_is_created_empty() {
    let item = latte::meta::Meta::new(DeclItemKind::NoInit { ident: String::from("s") }, latte::meta::TypeMeta { t: Type::Str });
    let decl = latte::meta::Meta::new(StatementKind::Decl { t: Type::Str, items: vec![item] }, latte::meta::TypeMeta { t: Type::Void });
    let mut fc = latte::backend::compiler::function::FunctionCompiler::new(latte::backend::context::GlobalContext::new());
    fc.compile_statement(decl);
    let reg = || latte::backend::ir::Entity::Register { n: 1, t: Type::Str };
    assert_eq!(fc.builder.block.instructions, vec![lazy_instruction(
        latte::backend::ir::InstructionKind::Call {
            func: String::from("__builtin_method__str__init__"),
            args: vec![latte::backend::ir::Entity::Int { v: 0, uuid: 0 }],
        },
        Some(reg()),
    )]);
    assert_eq!(fc.block_context.get_variable(&String::from("s")), reg());
}

#[test]
fn assignment_in_nested_block_rebinds_outer_variable() {
    let void = || latte::meta::TypeMeta { t: Type::Void };
    let lit = |v: i32| Box::new(latte::meta::Meta::new(ExpressionKind::LitInt { val: v }, int_meta()));
    let item = latte::meta::Meta::new(DeclItemKind::Init { ident: String::from("x"), val: lit(1) }, int_meta());
    let decl = latte::meta::Meta::new(StatementKind::Decl { t: Type::Int, items: vec![item] }, void());
    let target = latte::meta::Meta::new(latte::frontend::ast::ReferenceKind::Ident { ident: String::from("x") }, int_meta());
    let assign = latte::meta::Meta::new(StatementKind::Ass { r: target, expr: lit(2) }, void());
    let block = latte::meta::Meta::new(BlockItem { stmts: vec![Box::new(assign)] }, void());
    let nested = latte::meta::Meta::new(StatementKind::Block { block }, void());
    let mut fc = latte::backend::compiler::function::FunctionCompiler::new(latte::backend::context::GlobalContext::new());
    fc.compile_statement(decl);
    fc.compile_statement(nested);
    assert_eq!(fc.block_context.get_variable(&String::from("x")), latte::backend::ir::Entity::Int { v: 2, uuid: 4 });
    assert_eq!(fc.block_context.current_depth, 0);
}

#[test]
fn if_else_branches_meet_in_the_end_block() {
    let text = compile(checked("int main() { int x = 0; if (x < 1) x = 1; else x = 2; return x; }"));
    assert!(text.contains("br label %__cond_else__end__1"), "{}", text);
    assert!(text.contains("__cond_else__end__1:"), "{}", text);
}

#[test]
fn if_else_where_both_branches_return_has_no_end_block() {
    let text = compile(checked("int main() { int x = 0; if (x < 1) return 1; else return 2; }"));
    assert!(!text.contains("__cond_else__end__"), "{}", text);
}

#[test]
fn while_condition_jumps_to_body_or_end() {
    let text = compile(checked("int main() { int i = 0; while (i < 3) i++; return i; }"));
    assert!(text.contains("br label %__loop_cond__1"), "{}", text);
    assert!(text.contains("label %__loop_body__1, label %__loop_end__1"), "{}", text);
}

#[test]
fn new_array_allocates_count_times_size_and_stores_length() {
    let arr_t = || Type::Array { item_t: Box::new(Type::Int) };
    let size = Box::new(latte::meta::Meta::new(ExpressionKind::LitInt { val: 3 }, int_meta()));
    let e = latte::meta::Meta::new(ExpressionKind::InitArr { t: arr_t(), size }, latte::meta::TypeMeta { t: arr_t() });
    let mut fc = latte::backend::compiler::function::FunctionCompiler::new(latte::backend::context::GlobalContext::new());
    fc.compile_expression(e);
    let instrs = &fc.builder.block.instructions;
    assert_eq!(instrs.len(), 10);
    let count = || latte::backend::ir::Entity::Int { v: 3, uuid: 1 };
    assert_eq!(instrs[0], lazy_instruction(
        latte::backend::ir::InstructionKind::BinaryOp {
            op: latte::frontend::ast::BinaryOperator::Times,
            l: count(),
            r: latte::backend::ir::Entity::Int { v: 4, uuid: 0 },
        },
        Some(latte::backend::ir::Entity::Register { n: 1, t: Type::Int }),
    ));
    assert_eq!(instrs[1], lazy_instruction(
        latte::backend::ir::InstructionKind::Call {
            func: String::from("__builtin_method__array__init__"),
            args: vec![latte::backend::ir::Entity::Register { n: 1, t: Type::Int }],
        },
        Some(latte::backend::ir::Entity::Register { n: 2, t: Type::Str }),
    ));
    match &instrs[7].item {
        latte::backend::ir::InstructionKind::Store { val, .. } => assert_eq!(*val, count()),
        other => panic!("unexpected {:?}", other),
    }
}
