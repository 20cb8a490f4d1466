//! Textual LLVM representation of types and names derived from them.
use vstd::prelude::*;

use crate::backend::ir::{BasicBlock, BasicBlockV, Entity, EntityV, FunctionDef, Instruction, InstructionKind, InstructionKindV, InstructionV, LLVM, StringDecl, StructDecl, VTableDecl, entity_type, instruction_view};
use crate::frontend::ast::{ArgItem, Type, TypeV, BinaryOperator, UnaryOperator};
use crate::meta::GetType;
use crate::util::text::{concat, concat3, decimal, signed_decimal, joined, strings_view, join, i32_to_string, usize_to_string};

verus! {

broadcast use {vstd::std_specs::vec::axiom_vec_decreases_to_view, vstd::std_specs::vec::axiom_vec_index_decreases};

/// LLVM name of a type; types that have no LLVM counterpart are written `void`
pub open spec fn llvm_type(t: TypeV) -> Seq<char>
    decreases t, 1nat,
{
    match t {
        TypeV::Int => "i32"@,
        TypeV::Str => "i8*"@,
        TypeV::Bool => "i1"@,
        TypeV::Void => "void"@,
        TypeV::Null => "i8*"@,
        TypeV::Reference { t } => llvm_type(*t) + "*"@,
        TypeV::Class { ident } => "%__class__"@ + ident + "*"@,
        TypeV::Array { item_t } => "%"@ + array_struct_name(*item_t) + "*"@,
        TypeV::BuiltinClass { ident } => "%"@ + ident + "*"@,
        _ => "void"@,
    }
}

/// LLVM name of a type with every `*` written as `ptr` (usable inside identifiers)
pub open spec fn mangled_type(t: TypeV) -> Seq<char>
    decreases t, 1nat,
{
    match t {
        TypeV::Int => "i32"@,
        TypeV::Str => "i8ptr"@,
        TypeV::Bool => "i1"@,
        TypeV::Void => "void"@,
        TypeV::Null => "i8ptr"@,
        TypeV::Reference { t } => mangled_type(*t) + "ptr"@,
        TypeV::Class { ident } => "%__class__"@ + ident + "ptr"@,
        TypeV::Array { item_t } => "%"@ + array_struct_name(*item_t) + "ptr"@,
        TypeV::BuiltinClass { ident } => "%"@ + ident + "ptr"@,
        _ => "void"@,
    }
}

/// name of the structure that represents arrays of `item_t`
pub open spec fn array_struct_name(item_t: TypeV) -> Seq<char>
    decreases item_t, 2nat,
{
    "__builtin_struct__array_"@ + mangled_type(item_t)
}

/// LLVM name of a type
pub fn type_to_llvm(t: &Type) -> (r: String)
    ensures
        r@ == llvm_type(t@),
    decreases t, 1nat,
{
    match t {
        Type::Int => String::from_str("i32"),
        Type::Str => String::from_str("i8*"),
        Type::Bool => String::from_str("i1"),
        Type::Void => String::from_str("void"),
        Type::Null => String::from_str("i8*"),
        Type::Reference { t } => {
            let inner = type_to_llvm(t);
            concat(inner.as_str(), "*")
        },
        Type::Class { ident } => concat3("%__class__", ident.as_str(), "*"),
        Type::Array { item_t } => {
            let name = array_struct_name_of(item_t);
            concat3("%", name.as_str(), "*")
        },
        Type::BuiltinClass { ident } => concat3("%", ident.as_str(), "*"),
        _ => String::from_str("void"),
    }
}

/// LLVM name of a type with every `*` written as `ptr`
pub fn type_to_mangled(t: &Type) -> (r: String)
    ensures
        r@ == mangled_type(t@),
    decreases t, 1nat,
{
    match t {
        Type::Int => String::from_str("i32"),
        Type::Str => String::from_str("i8ptr"),
        Type::Bool => String::from_str("i1"),
        Type::Void => String::from_str("void"),
        Type::Null => String::from_str("i8ptr"),
        Type::Reference { t } => {
            let inner = type_to_mangled(t);
            concat(inner.as_str(), "ptr")
        },
        Type::Class { ident } => concat3("%__class__", ident.as_str(), "ptr"),
        Type::Array { item_t } => {
            let name = array_struct_name_of(item_t);
            concat3("%", name.as_str(), "ptr")
        },
        Type::BuiltinClass { ident } => concat3("%", ident.as_str(), "ptr"),
        _ => String::from_str("void"),
    }
}

/// name of the structure that represents arrays of `item_t`
pub fn array_struct_name_of(item_t: &Type) -> (r: String)
    ensures
        r@ == array_struct_name(item_t@),
    decreases item_t, 2nat,
{
    let m = type_to_mangled(item_t);
    concat("__builtin_struct__array_", m.as_str())
}

/// LLVM operation of a binary operator
pub open spec fn llvm_binary_op(op: BinaryOperator) -> Seq<char> {
    match op {
        BinaryOperator::Plus => "add"@,
        BinaryOperator::Minus => "sub"@,
        BinaryOperator::Times => "mul"@,
        BinaryOperator::Divide => "sdiv"@,
        BinaryOperator::Modulo => "srem"@,
        BinaryOperator::Less => "icmp slt"@,
        BinaryOperator::LessEqual => "icmp sle"@,
        BinaryOperator::Greater => "icmp sgt"@,
        BinaryOperator::GreaterEqual => "icmp sge"@,
        BinaryOperator::Equal => "icmp eq"@,
        BinaryOperator::NotEqual => "icmp ne"@,
        BinaryOperator::And => "and"@,
        BinaryOperator::Or => "or"@,
    }
}

/// LLVM operation of a binary operator
pub fn binary_op_to_llvm(op: BinaryOperator) -> (r: &'static str)
    ensures
        r@ == llvm_binary_op(op),
{
    match op {
        BinaryOperator::Plus => "add",
        BinaryOperator::Minus => "sub",
        BinaryOperator::Times => "mul",
        BinaryOperator::Divide => "sdiv",
        BinaryOperator::Modulo => "srem",
        BinaryOperator::Less => "icmp slt",
        BinaryOperator::LessEqual => "icmp sle",
        BinaryOperator::Greater => "icmp sgt",
        BinaryOperator::GreaterEqual => "icmp sge",
        BinaryOperator::Equal => "icmp eq",
        BinaryOperator::NotEqual => "icmp ne",
        BinaryOperator::And => "and",
        BinaryOperator::Or => "or",
    }
}


/// what an LLVM comparison predicate says of two integers (`None` for a name that is not one)
pub open spec fn llvm_predicate_holds(pred: Seq<char>, a: int, b: int) -> Option<bool> {
    if pred == "icmp slt"@ {
        Some(a < b)
    } else if pred == "icmp sle"@ {
        Some(a <= b)
    } else if pred == "icmp sgt"@ {
        Some(a > b)
    } else if pred == "icmp sge"@ {
        Some(a >= b)
    } else if pred == "icmp eq"@ {
        Some(a == b)
    } else if pred == "icmp ne"@ {
        Some(a != b)
    } else {
        None
    }
}

/// what a Latte comparison operator says of two integers (`None` for another operator)
pub open spec fn latte_comparison_holds(op: BinaryOperator, a: int, b: int) -> Option<bool> {
    match op {
        BinaryOperator::Less => Some(a < b),
        BinaryOperator::LessEqual => Some(a <= b),
        BinaryOperator::Greater => Some(a > b),
        BinaryOperator::GreaterEqual => Some(a >= b),
        BinaryOperator::Equal => Some(a == b),
        BinaryOperator::NotEqual => Some(a != b),
        _ => None,
    }
}

/// quotient of integer division rounded toward zero
pub open spec fn quotient_toward_zero(a: int, b: int) -> int {
    let q = (if a >= 0 { a } else { -a }) / (if b >= 0 { b } else { -b });
    if (a >= 0) == (b >= 0) { q } else { -q }
}

/// remainder of integer division rounded toward zero (it has the sign of `a`)
pub open spec fn remainder_toward_zero(a: int, b: int) -> int {
    a - b * quotient_toward_zero(a, b)
}

/// the integer that an LLVM arithmetic instruction computes from two integers (`None` for a
/// name that is not one)
pub open spec fn llvm_arithmetic(name: Seq<char>, a: int, b: int) -> Option<int> {
    if name == "add"@ {
        Some(a + b)
    } else if name == "sub"@ {
        Some(a - b)
    } else if name == "mul"@ {
        Some(a * b)
    } else if name == "sdiv"@ {
        Some(quotient_toward_zero(a, b))
    } else if name == "srem"@ {
        Some(remainder_toward_zero(a, b))
    } else {
        None
    }
}

/// the integer that a Latte arithmetic operator computes from two integers (`None` for another
/// operator)
pub open spec fn latte_arithmetic(op: BinaryOperator, a: int, b: int) -> Option<int> {
    match op {
        BinaryOperator::Plus => Some(a + b),
        BinaryOperator::Minus => Some(a - b),
        BinaryOperator::Times => Some(a * b),
        BinaryOperator::Divide => Some(quotient_toward_zero(a, b)),
        BinaryOperator::Modulo => Some(remainder_toward_zero(a, b)),
        _ => None,
    }
}

/// the boolean that an LLVM logical instruction computes from two booleans (`None` for a name
/// that is not one)
pub open spec fn llvm_logic(name: Seq<char>, a: bool, b: bool) -> Option<bool> {
    if name == "and"@ {
        Some(a && b)
    } else if name == "or"@ {
        Some(a || b)
    } else {
        None
    }
}

/// the boolean that a Latte logical operator computes from two booleans
pub open spec fn latte_logic(op: BinaryOperator, a: bool, b: bool) -> Option<bool> {
    match op {
        BinaryOperator::And => Some(a && b),
        BinaryOperator::Or => Some(a || b),
        _ => None,
    }
}

/// Every binary operator is written as the LLVM operation of the same meaning: a comparison as
/// the predicate that holds of two integers exactly when the Latte comparison does (`<` as
/// `icmp slt`, `<=` as `icmp sle`, ...), an arithmetic operator as the instruction that
/// computes the same integer, and `&&`, `||` as the instructions that compute the same boolean.
pub proof fn law_operators_keep_their_meaning(op: BinaryOperator, a: int, b: int, x: bool, y: bool)
    ensures
        latte_comparison_holds(op, a, b) is Some ==> llvm_predicate_holds(llvm_binary_op(op), a, b) == latte_comparison_holds(op, a, b),
        latte_arithmetic(op, a, b) is Some ==> llvm_arithmetic(llvm_binary_op(op), a, b) == latte_arithmetic(op, a, b),
        latte_logic(op, x, y) is Some ==> llvm_logic(llvm_binary_op(op), x, y) == latte_logic(op, x, y),
{
    reveal_strlit("icmp slt");
    reveal_strlit("icmp sle");
    reveal_strlit("icmp sgt");
    reveal_strlit("icmp sge");
    reveal_strlit("icmp eq");
    reveal_strlit("icmp ne");
    reveal_strlit("add");
    reveal_strlit("sub");
    reveal_strlit("mul");
    reveal_strlit("sdiv");
    reveal_strlit("srem");
    reveal_strlit("and");
    reveal_strlit("or");
    assert("icmp sle"@ != "icmp slt"@) by { assert("icmp sle"@[7] != "icmp slt"@[7]); }
    assert("icmp sgt"@ != "icmp slt"@) by { assert("icmp sgt"@[6] != "icmp slt"@[6]); }
    assert("icmp sgt"@ != "icmp sle"@) by { assert("icmp sgt"@[6] != "icmp sle"@[6]); }
    assert("icmp sge"@ != "icmp slt"@) by { assert("icmp sge"@[6] != "icmp slt"@[6]); }
    assert("icmp sge"@ != "icmp sle"@) by { assert("icmp sge"@[6] != "icmp sle"@[6]); }
    assert("icmp sge"@ != "icmp sgt"@) by { assert("icmp sge"@[7] != "icmp sgt"@[7]); }
    assert("icmp eq"@ != "icmp slt"@) by { assert("icmp eq"@[5] != "icmp slt"@[5]); }
    assert("icmp eq"@ != "icmp sle"@) by { assert("icmp eq"@[5] != "icmp sle"@[5]); }
    assert("icmp eq"@ != "icmp sgt"@) by { assert("icmp eq"@[5] != "icmp sgt"@[5]); }
    assert("icmp eq"@ != "icmp sge"@) by { assert("icmp eq"@[5] != "icmp sge"@[5]); }
    assert("icmp ne"@ != "icmp slt"@) by { assert("icmp ne"@[5] != "icmp slt"@[5]); }
    assert("icmp ne"@ != "icmp sle"@) by { assert("icmp ne"@[5] != "icmp sle"@[5]); }
    assert("icmp ne"@ != "icmp sgt"@) by { assert("icmp ne"@[5] != "icmp sgt"@[5]); }
    assert("icmp ne"@ != "icmp sge"@) by { assert("icmp ne"@[5] != "icmp sge"@[5]); }
    assert("icmp ne"@ != "icmp eq"@) by { assert("icmp ne"@[5] != "icmp eq"@[5]); }
    assert("sub"@ != "add"@) by { assert("sub"@[0] != "add"@[0]); }
    assert("mul"@ != "add"@) by { assert("mul"@[0] != "add"@[0]); }
    assert("mul"@ != "sub"@) by { assert("mul"@[0] != "sub"@[0]); }
    assert("sdiv"@ != "add"@) by { assert("sdiv"@[0] != "add"@[0]); }
    assert("sdiv"@ != "sub"@) by { assert("sdiv"@[1] != "sub"@[1]); }
    assert("sdiv"@ != "mul"@) by { assert("sdiv"@[0] != "mul"@[0]); }
    assert("srem"@ != "add"@) by { assert("srem"@[0] != "add"@[0]); }
    assert("srem"@ != "sub"@) by { assert("srem"@[1] != "sub"@[1]); }
    assert("srem"@ != "mul"@) by { assert("srem"@[0] != "mul"@[0]); }
    assert("srem"@ != "sdiv"@) by { assert("srem"@[1] != "sdiv"@[1]); }
    assert("or"@ != "and"@) by { assert("or"@[0] != "and"@[0]); }
}

/// The text of a binary operation names the LLVM operation of its operator: the result, `=`, the
/// operation, the type of the left operand and the two operands.
pub proof fn law_binary_instruction_text(op: BinaryOperator, l: EntityV, r: EntityV, n: usize, t: TypeV)
    ensures
        instruction_text(InstructionV { kind: InstructionKindV::BinaryOp { op, l, r }, result: Some(EntityV::Register { n, t }) })
            == result_text(Some(EntityV::Register { n, t })) + " = "@ + llvm_binary_op(op) + " "@ + llvm_type(entity_type(l)) + " "@
                + entity_text(l) + ", "@ + entity_text(r),
{
}

/// text of an entity used as an operand
pub open spec fn entity_text(e: EntityV) -> Seq<char> {
    match e {
        EntityV::Null { .. } => "null"@,
        EntityV::Int { v, .. } => signed_decimal(v as int),
        EntityV::Bool { v, .. } => if v { "true"@ } else { "false"@ },
        EntityV::Register { n, .. } => "%"@ + decimal(n as nat),
        EntityV::NamedRegister { name, .. } => "%"@ + name,
        EntityV::GlobalConstInt { name } => "@"@ + name,
    }
}

/// text of an entity preceded by its type
pub open spec fn typed_text(e: EntityV) -> Seq<char> {
    llvm_type(entity_type(e)) + " "@ + entity_text(e)
}

/// text of the result of an instruction (empty when it has none)
pub open spec fn result_text(r: Option<EntityV>) -> Seq<char> {
    match r {
        Some(e) => entity_text(e),
        None => Seq::empty(),
    }
}

/// type of the result of an instruction (`void` when it has none)
pub open spec fn result_type_text(r: Option<EntityV>) -> Seq<char> {
    match r {
        Some(e) => llvm_type(entity_type(e)),
        None => "void"@,
    }
}

/// texts of the arguments of a call
pub open spec fn call_args_text(args: Seq<EntityV>) -> Seq<char> {
    joined(Seq::new(args.len(), |i: int| typed_text(args[i])), ","@)
}

/// texts of the arguments of a phi instruction
pub open spec fn phi_args_text(args: Seq<(EntityV, Seq<char>)>) -> Seq<char> {
    joined(Seq::new(args.len(), |i: int| "[ "@ + entity_text(args[i].0) + ", %"@ + args[i].1 + " ]"@), ", "@)
}

/// text of an instruction
pub open spec fn instruction_text(i: InstructionV) -> Seq<char> {
    let res = result_text(i.result);
    match i.kind {
        InstructionKindV::Alloc { t } => res + " = alloca "@ + llvm_type(t),
        InstructionKindV::Load { ptr } => res + " = load "@ + result_type_text(i.result) + ", "@ + typed_text(ptr),
        InstructionKindV::Store { val, ptr } => "store "@ + typed_text(val) + ", "@ + typed_text(ptr),
        InstructionKindV::GetStructElementPtr { container_type_name, var, idx } =>
            res + " = getelementptr "@ + container_type_name + ", "@ + typed_text(var) + ", i32 0, "@ + typed_text(idx),
        InstructionKindV::GetArrayElementPtr { item_t, var, idx } =>
            res + " = getelementptr "@ + llvm_type(item_t) + ", "@ + typed_text(var) + ", "@ + typed_text(idx),
        InstructionKindV::LoadConst { name, len } =>
            res + " = getelementptr inbounds ["@ + decimal(len as nat) + " x i8], ["@ + decimal(len as nat) + " x i8]* @"@ + name + ", i32 0, i32 0"@,
        InstructionKindV::BitCast { ent, to } => res + " = bitcast "@ + typed_text(ent) + " to "@ + llvm_type(to),
        InstructionKindV::UnaryOp { op, arg } => match op {
            UnaryOperator::Neg => res + " = sub i32 0, "@ + entity_text(arg),
            UnaryOperator::Not => res + " = add i1 "@ + entity_text(arg) + ", 1"@,
        },
        InstructionKindV::BinaryOp { op, l, r } =>
            res + " = "@ + llvm_binary_op(op) + " "@ + llvm_type(entity_type(l)) + " "@ + entity_text(l) + ", "@ + entity_text(r),
        InstructionKindV::Call { func, args } => match i.result {
            Some(_) => res + " = call "@ + result_type_text(i.result) + " @"@ + func + " ("@ + call_args_text(args) + ")"@,
            None => "call void @"@ + func + " ("@ + call_args_text(args) + ")"@,
        },
        InstructionKindV::RetVal { val } => "ret "@ + typed_text(val),
        InstructionKindV::RetVoid => "ret void"@,
        InstructionKindV::JumpCond { cond, true_label, false_label } =>
            "br "@ + typed_text(cond) + ", label %"@ + true_label + ", label %"@ + false_label,
        InstructionKindV::Jump { label } => "br label %"@ + label,
        InstructionKindV::Phi { args } => res + " = phi "@ + result_type_text(i.result) + " "@ + phi_args_text(args),
    }
}

/// text of a basic block: its label, then one instruction per line
pub open spec fn block_text(b: BasicBlockV) -> Seq<char> {
    let head = match b.label {
        Some(l) => l + ":\n"@,
        None => Seq::empty(),
    };
    head + joined(Seq::new(b.instructions.len(), |i: int| "\t"@ + instruction_text(b.instructions[i])), "\n"@) + "\n"@
}

/// text of an argument in a function header
pub open spec fn arg_text(t: TypeV, ident: Seq<char>) -> Seq<char> {
    llvm_type(t) + " %"@ + ident
}

/// text of a function definition
pub open spec fn function_text(f: FunctionDef) -> Seq<char> {
    "define "@ + llvm_type(f.ret_type@) + " @"@ + f.name@ + " ("@
        + joined(Seq::new(f.args@.len(), |i: int| arg_text(f.args@[i].t@, f.args@[i].ident@)), ","@)
        + ") {\n "@ + joined(Seq::new(f.body@.len(), |i: int| block_text(f.body@[i]@)), "\n"@) + " \n}\n"@
}

/// text of a string constant: the literal (with its quotes) gets a trailing zero byte
pub open spec fn string_decl_text(d: StringDecl) -> Seq<char> {
    let v = d.val@;
    let body = if v.len() == 0 { "\\00"@ } else { v.drop_last() + "\\00"@ + seq![v.last()] };
    "@"@ + d.name@ + " = private unnamed_addr constant ["@ + decimal(d.len as nat) + " x i8] c"@ + body
}

/// text of a structure type declaration
pub open spec fn struct_decl_text(name: Seq<char>, fields: Seq<TypeV>) -> Seq<char> {
    "%"@ + name + " = type { "@ + joined(Seq::new(fields.len(), |i: int| llvm_type(fields[i])), ", "@) + " }"@
}

/// text of a top-level item of the program
pub open spec fn llvm_text(l: LLVM) -> Seq<char> {
    match l {
        LLVM::DeclFunction { decl } => decl@,
        LLVM::DeclStruct { decl } => struct_decl_text(decl@.name, decl@.fields),
        LLVM::DeclString { decl } => string_decl_text(decl),
        LLVM::DeclVTable { decl } => struct_decl_text(decl.name@, Seq::new(decl.methods@.len(), |i: int| decl.methods@[i].0@)),
        LLVM::Function { def } => function_text(def),
    }
}

/// append `b` to `a`
fn push_all(a: &mut String, b: &str)
    ensures
        final(a)@ == old(a)@ + b@,
{
    a.append(b);
}

impl Entity {
    /// text of the entity used as an operand
    pub fn to_llvm(&self) -> (r: String)
        ensures
            r@ == entity_text(self@),
    {
        match self {
            Entity::Null { .. } => String::from_str("null"),
            Entity::Int { v, .. } => i32_to_string(*v),
            Entity::Bool { v, .. } => if *v { String::from_str("true") } else { String::from_str("false") },
            Entity::Register { n, .. } => {
                let digits = usize_to_string(*n);
                concat("%", digits.as_str())
            },
            Entity::NamedRegister { name, .. } => concat("%", name.as_str()),
            Entity::GlobalConstInt { name } => concat("@", name.as_str()),
        }
    }

    /// text of the entity preceded by its type
    pub fn to_typed_llvm(&self) -> (r: String)
        ensures
            r@ == typed_text(self@),
    {
        let t = type_to_llvm(&self.get_type());
        let e = self.to_llvm();
        concat3(t.as_str(), " ", e.as_str())
    }
}


/// text of the result of an instruction (empty when it has none)
fn result_to_llvm(r: &Option<Entity>) -> (s: String)
    ensures
        s@ == result_text(crate::backend::ir::opt_entity_view(*r)),
{
    match r {
        Some(e) => e.to_llvm(),
        None => String::new(),
    }
}

/// type of the result of an instruction (`void` when it has none)
fn result_type_to_llvm(r: &Option<Entity>) -> (s: String)
    ensures
        s@ == result_type_text(crate::backend::ir::opt_entity_view(*r)),
{
    match r {
        Some(e) => type_to_llvm(&e.get_type()),
        None => String::from_str("void"),
    }
}

/// texts of the arguments of a call
fn call_args_to_llvm(args: &Vec<Entity>) -> (r: String)
    ensures
        r@ == call_args_text(crate::backend::ir::entities_view(args@)),
{
    let mut parts: Vec<String> = Vec::new();
    let mut i: usize = 0;
    while i < args.len()
        invariant
            i <= args@.len(),
            parts@.len() == i,
            forall|j: int| 0 <= j < i ==> (#[trigger] parts@[j])@ == typed_text(args@[j]@),
        decreases args.len() - i,
    {
        parts.push(args[i].to_typed_llvm());
        i += 1;
    }
    let r = join(&parts, ",");
    proof {
        assert(strings_view(parts@) =~= Seq::new(args@.len(), |j: int| typed_text(crate::backend::ir::entities_view(args@)[j])));
    }
    r
}

/// texts of the arguments of a phi instruction
fn phi_args_to_llvm(args: &Vec<(Entity, String)>) -> (r: String)
    ensures
        r@ == phi_args_text(crate::backend::ir::phi_args_view(args@)),
{
    let mut parts: Vec<String> = Vec::new();
    let mut i: usize = 0;
    while i < args.len()
        invariant
            i <= args@.len(),
            parts@.len() == i,
            forall|j: int| 0 <= j < i ==> (#[trigger] parts@[j])@ == "[ "@ + entity_text(args@[j].0@) + ", %"@ + args@[j].1@ + " ]"@,
        decreases args.len() - i,
    {
        let mut p = String::from_str("[ ");
        let e = args[i].0.to_llvm();
        push_all(&mut p, e.as_str());
        push_all(&mut p, ", %");
        push_all(&mut p, args[i].1.as_str());
        push_all(&mut p, " ]");
        parts.push(p);
        i += 1;
    }
    let r = join(&parts, ", ");
    proof {
        let v = crate::backend::ir::phi_args_view(args@);
        assert(strings_view(parts@) =~= Seq::new(v.len(), |j: int| "[ "@ + entity_text(v[j].0) + ", %"@ + v[j].1 + " ]"@));
    }
    r
}

/// text of an instruction
pub fn instruction_to_llvm(i: &Instruction) -> (r: String)
    ensures
        r@ == instruction_text(instruction_view(*i)),
{
    let res = result_to_llvm(&i.meta);
    let mut r = String::new();
    match &i.item {
        InstructionKind::Alloc { t } => {
            push_all(&mut r, res.as_str());
            push_all(&mut r, " = alloca ");
            push_all(&mut r, type_to_llvm(t).as_str());
        },
        InstructionKind::Load { ptr } => {
            push_all(&mut r, res.as_str());
            push_all(&mut r, " = load ");
            push_all(&mut r, result_type_to_llvm(&i.meta).as_str());
            push_all(&mut r, ", ");
            push_all(&mut r, ptr.to_typed_llvm().as_str());
        },
        InstructionKind::Store { val, ptr } => {
            push_all(&mut r, "store ");
            push_all(&mut r, val.to_typed_llvm().as_str());
            push_all(&mut r, ", ");
            push_all(&mut r, ptr.to_typed_llvm().as_str());
        },
        InstructionKind::GetStructElementPtr { container_type_name, var, idx } => {
            push_all(&mut r, res.as_str());
            push_all(&mut r, " = getelementptr ");
            push_all(&mut r, container_type_name.as_str());
            push_all(&mut r, ", ");
            push_all(&mut r, var.to_typed_llvm().as_str());
            push_all(&mut r, ", i32 0, ");
            push_all(&mut r, idx.to_typed_llvm().as_str());
        },
        InstructionKind::GetArrayElementPtr { item_t, var, idx } => {
            push_all(&mut r, res.as_str());
            push_all(&mut r, " = getelementptr ");
            push_all(&mut r, type_to_llvm(item_t).as_str());
            push_all(&mut r, ", ");
            push_all(&mut r, var.to_typed_llvm().as_str());
            push_all(&mut r, ", ");
            push_all(&mut r, idx.to_typed_llvm().as_str());
        },
        InstructionKind::LoadConst { name, len } => {
            let n = usize_to_string(*len);
            push_all(&mut r, res.as_str());
            push_all(&mut r, " = getelementptr inbounds [");
            push_all(&mut r, n.as_str());
            push_all(&mut r, " x i8], [");
            push_all(&mut r, n.as_str());
            push_all(&mut r, " x i8]* @");
            push_all(&mut r, name.as_str());
            push_all(&mut r, ", i32 0, i32 0");
        },
        InstructionKind::BitCast { ent, to } => {
            push_all(&mut r, res.as_str());
            push_all(&mut r, " = bitcast ");
            push_all(&mut r, ent.to_typed_llvm().as_str());
            push_all(&mut r, " to ");
            push_all(&mut r, type_to_llvm(to).as_str());
        },
        InstructionKind::UnaryOp { op, arg } => {
            push_all(&mut r, res.as_str());
            match op {
                UnaryOperator::Neg => {
                    push_all(&mut r, " = sub i32 0, ");
                    push_all(&mut r, arg.to_llvm().as_str());
                },
                UnaryOperator::Not => {
                    push_all(&mut r, " = add i1 ");
                    push_all(&mut r, arg.to_llvm().as_str());
                    push_all(&mut r, ", 1");
                },
            }
        },
        InstructionKind::BinaryOp { op, l, r: right } => {
            push_all(&mut r, res.as_str());
            push_all(&mut r, " = ");
            push_all(&mut r, binary_op_to_llvm(*op));
            push_all(&mut r, " ");
            push_all(&mut r, type_to_llvm(&l.get_type()).as_str());
            push_all(&mut r, " ");
            push_all(&mut r, l.to_llvm().as_str());
            push_all(&mut r, ", ");
            push_all(&mut r, right.to_llvm().as_str());
        },
        InstructionKind::Call { func, args } => {
            let a = call_args_to_llvm(args);
            match &i.meta {
                Some(_) => {
                    push_all(&mut r, res.as_str());
                    push_all(&mut r, " = call ");
                    push_all(&mut r, result_type_to_llvm(&i.meta).as_str());
                    push_all(&mut r, " @");
                },
                None => {
                    push_all(&mut r, "call void @");
                },
            }
            push_all(&mut r, func.as_str());
            push_all(&mut r, " (");
            push_all(&mut r, a.as_str());
            push_all(&mut r, ")");
        },
        InstructionKind::RetVal { val } => {
            push_all(&mut r, "ret ");
            push_all(&mut r, val.to_typed_llvm().as_str());
        },
        InstructionKind::RetVoid => {
            push_all(&mut r, "ret void");
        },
        InstructionKind::JumpCond { cond, true_label, false_label } => {
            push_all(&mut r, "br ");
            push_all(&mut r, cond.to_typed_llvm().as_str());
            push_all(&mut r, ", label %");
            push_all(&mut r, true_label.as_str());
            push_all(&mut r, ", label %");
            push_all(&mut r, false_label.as_str());
        },
        InstructionKind::Jump { label } => {
            push_all(&mut r, "br label %");
            push_all(&mut r, label.as_str());
        },
        InstructionKind::Phi { args } => {
            push_all(&mut r, res.as_str());
            push_all(&mut r, " = phi ");
            push_all(&mut r, result_type_to_llvm(&i.meta).as_str());
            push_all(&mut r, " ");
            push_all(&mut r, phi_args_to_llvm(args).as_str());
        },
    }
    r
}


impl BasicBlock {
    /// text of the block: its label, then one instruction per line
    pub fn to_llvm(&self) -> (r: String)
        ensures
            r@ == block_text(self@),
    {
        let mut r = String::new();
        match &self.label {
            Some(l) => {
                push_all(&mut r, l.as_str());
                push_all(&mut r, ":\n");
            },
            None => {},
        }
        let mut lines: Vec<String> = Vec::new();
        let mut i: usize = 0;
        while i < self.instructions.len()
            invariant
                i <= self.instructions@.len(),
                lines@.len() == i,
                forall|j: int| 0 <= j < i ==> (#[trigger] lines@[j])@ == "\t"@ + instruction_text(instruction_view(self.instructions@[j])),
            decreases self.instructions.len() - i,
        {
            let text = instruction_to_llvm(&self.instructions[i]);
            lines.push(concat("\t", text.as_str()));
            i += 1;
        }
        let body = join(&lines, "\n");
        proof {
            assert(strings_view(lines@) =~= Seq::new(self@.instructions.len(), |j: int| "\t"@ + instruction_text(self@.instructions[j])));
        }
        push_all(&mut r, body.as_str());
        push_all(&mut r, "\n");
        proof {
            let head = match self@.label {
                Some(l) => l + ":\n"@,
                None => Seq::<char>::empty(),
            };
            assert(r@ =~= head + body@ + "\n"@);
        }
        r
    }
}

impl FunctionDef {
    /// text of the function definition
    pub fn to_llvm(&self) -> (r: String)
        ensures
            r@ == function_text(*self),
    {
        let mut args: Vec<String> = Vec::new();
        let mut i: usize = 0;
        while i < self.args.len()
            invariant
                i <= self.args@.len(),
                args@.len() == i,
                forall|j: int| 0 <= j < i ==> (#[trigger] args@[j])@ == arg_text(self.args@[j].t@, self.args@[j].ident@),
            decreases self.args.len() - i,
        {
            let t = type_to_llvm(&self.args[i].t);
            args.push(concat3(t.as_str(), " %", self.args[i].ident.as_str()));
            i += 1;
        }
        let mut blocks: Vec<String> = Vec::new();
        let mut i: usize = 0;
        while i < self.body.len()
            invariant
                i <= self.body@.len(),
                blocks@.len() == i,
                forall|j: int| 0 <= j < i ==> (#[trigger] blocks@[j])@ == block_text(self.body@[j]@),
            decreases self.body.len() - i,
        {
            blocks.push(self.body[i].to_llvm());
            i += 1;
        }
        let a = join(&args, ",");
        let b = join(&blocks, "\n");
        proof {
            assert(strings_view(args@) =~= Seq::new(self.args@.len(), |j: int| arg_text(self.args@[j].t@, self.args@[j].ident@)));
            assert(strings_view(blocks@) =~= Seq::new(self.body@.len(), |j: int| block_text(self.body@[j]@)));
        }
        let mut r = String::from_str("define ");
        push_all(&mut r, type_to_llvm(&self.ret_type).as_str());
        push_all(&mut r, " @");
        push_all(&mut r, self.name.as_str());
        push_all(&mut r, " (");
        push_all(&mut r, a.as_str());
        push_all(&mut r, ") {\n ");
        push_all(&mut r, b.as_str());
        push_all(&mut r, " \n}\n");
        r
    }
}

impl StringDecl {
    /// text of the string constant
    pub fn to_llvm(&self) -> (r: String)
        ensures
            r@ == string_decl_text(*self),
    {
        let chars = &self.val;
        let n = chars.as_str().unicode_len();
        let mut body = String::new();
        if n == 0 {
            push_all(&mut body, "\\00");
        } else {
            let front = chars.as_str().substring_char(0, n - 1);
            let last = chars.as_str().substring_char(n - 1, n);
            push_all(&mut body, front);
            push_all(&mut body, "\\00");
            push_all(&mut body, last);
            proof {
                assert(front@ =~= self.val@.drop_last());
                assert(last@ =~= seq![self.val@.last()]);
            }
        }
        let mut r = String::from_str("@");
        push_all(&mut r, self.name.as_str());
        push_all(&mut r, " = private unnamed_addr constant [");
        push_all(&mut r, usize_to_string(self.len).as_str());
        push_all(&mut r, " x i8] c");
        push_all(&mut r, body.as_str());
        r
    }
}

/// text of a structure type declaration
fn struct_type_to_llvm(name: &String, fields: &Vec<Type>) -> (r: String)
    ensures
        r@ == struct_decl_text(name@, Seq::new(fields@.len(), |i: int| fields@[i]@)),
{
    let mut parts: Vec<String> = Vec::new();
    let mut i: usize = 0;
    while i < fields.len()
        invariant
            i <= fields@.len(),
            parts@.len() == i,
            forall|j: int| 0 <= j < i ==> (#[trigger] parts@[j])@ == llvm_type(fields@[j]@),
        decreases fields.len() - i,
    {
        parts.push(type_to_llvm(&fields[i]));
        i += 1;
    }
    let f = join(&parts, ", ");
    proof {
        let ts = Seq::new(fields@.len(), |i: int| fields@[i]@);
        assert(strings_view(parts@) =~= Seq::new(ts.len(), |j: int| llvm_type(ts[j])));
    }
    let mut r = String::from_str("%");
    push_all(&mut r, name.as_str());
    push_all(&mut r, " = type { ");
    push_all(&mut r, f.as_str());
    push_all(&mut r, " }");
    r
}

impl LLVM {
    /// text of the top-level item
    pub fn to_llvm(&self) -> (r: String)
        ensures
            r@ == llvm_text(*self),
    {
        match self {
            LLVM::DeclFunction { decl } => decl.clone(),
            LLVM::DeclStruct { decl } => {
                let r = struct_type_to_llvm(&decl.name, &decl.fields);
                proof {
                    assert(Seq::new(decl.fields@.len(), |i: int| decl.fields@[i]@) =~= decl@.fields);
                }
                r
            },
            LLVM::DeclString { decl } => decl.to_llvm(),
            LLVM::DeclVTable { decl } => {
                let mut types: Vec<Type> = Vec::new();
                let mut i: usize = 0;
                while i < decl.methods.len()
                    invariant
                        i <= decl.methods@.len(),
                        types@.len() == i,
                        forall|j: int| 0 <= j < i ==> (#[trigger] types@[j])@ == decl.methods@[j].0@,
                    decreases decl.methods.len() - i,
                {
                    types.push(decl.methods[i].0.copy());
                    i += 1;
                }
                let r = struct_type_to_llvm(&decl.name, &types);
                proof {
                    assert(Seq::new(types@.len(), |i: int| types@[i]@) =~= Seq::new(decl.methods@.len(), |i: int| decl.methods@[i].0@));
                }
                r
            },
            LLVM::Function { def } => def.to_llvm(),
        }
    }
}

} // verus!
