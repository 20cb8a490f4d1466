use latte::backend::display::{instruction_to_llvm, type_to_llvm};
use latte::backend::ir::{Entity, InstructionKind};
use latte::frontend::ast::{BinaryOperator, Type, UnaryOperator};

#[test]
fn types_are_written_as_llvm_types() {
    assert_eq!(type_to_llvm(&Type::Int), "i32");
    assert_eq!(type_to_llvm(&Type::Bool), "i1");
    assert_eq!(type_to_llvm(&Type::Str), "i8*");
    assert_eq!(type_to_llvm(&Type::Void), "void");
    assert_eq!(type_to_llvm(&Type::Class { ident: String::from("A") }), "%__class__A*");
    assert_eq!(type_to_llvm(&Type::Array { item_t: Box::new(Type::Int) }), "%__builtin_struct__array_i32*");
    assert_eq!(type_to_llvm(&Type::Reference { t: Box::new(Type::Int) }), "i32*");
}

#[test]
fn binary_operation_is_written() {
    let instr = InstructionKind::BinaryOp {
        op: BinaryOperator::Plus,
        l: Entity::Register { n: 1, t: Type::Int },
        r: Entity::Int { v: 2, uuid: 0 },
    }
    .with_result(Entity::Register { n: 3, t: Type::Int });
    assert_eq!(instruction_to_llvm(&instr), "%3 = add i32 %1, 2");
}

#[test]
fn negation_is_a_subtraction_from_zero() {
    let instr = InstructionKind::UnaryOp { op: UnaryOperator::Neg, arg: Entity::Int { v: -5, uuid: 0 } }
        .with_result(Entity::Register { n: 7, t: Type::Int });
    assert_eq!(instruction_to_llvm(&instr), "%7 = sub i32 0, -5");
}

#[test]
fn store_and_return_are_written() {
    let store = InstructionKind::Store {
        val: Entity::Bool { v: true, uuid: 0 },
        ptr: Entity::Register { n: 4, t: Type::Reference { t: Box::new(Type::Bool) } },
    }
    .without_result();
    assert_eq!(instruction_to_llvm(&store), "store i1 true, i1* %4");
    let ret = InstructionKind::RetVal { val: Entity::NamedRegister { name: String::from("x"), t: Type::Int } }
        .without_result();
    assert_eq!(instruction_to_llvm(&ret), "ret i32 %x");
    assert_eq!(instruction_to_llvm(&InstructionKind::RetVoid.without_result()), "ret void");
}

#[test]
fn jumps_are_written() {
    let jump = InstructionKind::Jump { label: String::from("end") }.without_result();
    assert_eq!(instruction_to_llvm(&jump), "br label %end");
    let cond = InstructionKind::JumpCond {
        cond: Entity::Register { n: 2, t: Type::Bool },
        true_label: String::from("a"),
        false_label: String::from("b"),
    }
    .without_result();
    assert_eq!(instruction_to_llvm(&cond), "br i1 %2, label %a, label %b");
}
