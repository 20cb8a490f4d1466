//! Compilation of a single function: expressions and statements to basic blocks in SSA form.
use vstd::prelude::*;

use crate::backend::builder::{BlockBuilder, IncrementMapper, MapEntities};
use crate::backend::context::{BlockContext, FunctionContext, GlobalContext};
use crate::backend::context::global::{array_struct_decl, struct_decl_wf};
use crate::backend::ir::{BasicBlock, Entity, EntityV, InstructionKind, InstructionKindV, InstructionV, instruction_view, entity_type};
use crate::backend::ir::{FunctionDef, StructDecl};
use crate::backend::context::global::function_name;
use crate::frontend::ast::{ArgItem, Function, BinaryOperator, DeclItem, DeclItemKind, Expression, ExpressionKind, ReferenceKind, Statement, StatementKind, StatementOp, Type, TypeV};
use crate::meta::{GetType, TypeMeta};
use crate::util::env::Env;
use crate::util::text::{concat, usize_to_string, decimal};

verus! {

/// next value of a counter that stops at the largest `usize`
pub open spec fn bump(x: usize) -> usize {
    if x < usize::MAX {
        (x + 1) as usize
    } else {
        x
    }
}

/// a label made of a prefix and a unique suffix
pub open spec fn suffixed(prefix: Seq<char>, suffix: usize) -> Seq<char> {
    prefix + decimal(suffix as nat)
}


/// model of the entity bound to `k`, if any
pub open spec fn var_view(bc: BlockContext, k: Seq<char>) -> Option<EntityV> {
    match bc.spec_get(k) {
        Some(e) => Some(e@),
        None => None,
    }
}

/// the variable `k` is bound to an entity of an array type
pub open spec fn is_array_var(bc: BlockContext, k: Seq<char>) -> bool {
    var_view(bc, k) matches Some(e) && entity_type(e) is Array
}

/// the field `field` of class `cls` is declared
pub open spec fn has_field(structs: Env<StructDecl>, cls: Seq<char>, field: Seq<char>) -> bool {
    structs.lookup(cls) matches Some(d) && d.field_env.lookup(field) is Some
}

/// type of the field `field` of class `cls`
pub open spec fn field_type(structs: Env<StructDecl>, cls: Seq<char>, field: Seq<char>) -> TypeV {
    let d = structs.lookup(cls)->0;
    d.fields@[d.field_env.lookup(field)->0 as int]@
}

/// return type of a function type
pub open spec fn ret_type(t: TypeV) -> TypeV {
    match t {
        TypeV::Function { ret, .. } => *ret,
        _ => TypeV::Error,
    }
}

/// item type of an array type
pub open spec fn item_type(t: TypeV) -> TypeV {
    match t {
        TypeV::Array { item_t } => *item_t,
        _ => TypeV::Error,
    }
}

/// the expression is compiled to a null constant
pub open spec fn yields_null(e: Expression<TypeMeta>, bc: BlockContext) -> bool {
    match e.item {
        ExpressionKind::LitNull => true,
        ExpressionKind::Cast { .. } => true,
        ExpressionKind::App { r, .. } => ret_type(r.meta.t@) is Void,
        ExpressionKind::Reference { r } => match r.item {
            ReferenceKind::Ident { ident } => var_view(bc, ident@) matches Some(v) && v is Null,
            _ => false,
        },
        _ => false,
    }
}

/// the expression can be compiled with variables `bc` and classes `structs`: the references
/// it makes are bound, with the types they are used at, and its constructs are supported
pub open spec fn expr_compilable(e: Expression<TypeMeta>, bc: BlockContext, structs: Env<StructDecl>) -> bool
    decreases e,
{
    match e.item {
        ExpressionKind::LitStr { val } => (vstd::utf8::encode_utf8(val@).len() as usize) >= 1,
        ExpressionKind::App { r, args } => {
            &&& r.item is Ident
            &&& r.meta.t@ is Function
            &&& forall|i: int| 0 <= i < args@.len() ==> expr_compilable(*#[trigger] args@[i], bc, structs)
        },
        ExpressionKind::Unary { arg, .. } => expr_compilable(*arg, bc, structs),
        ExpressionKind::Binary { left, right, .. } => expr_compilable(*left, bc, structs) && expr_compilable(*right, bc, structs),
        ExpressionKind::InitDefault { t } => t@ is Class,
        ExpressionKind::InitArr { t, size } => t@ is Array && expr_compilable(*size, bc, structs),
        ExpressionKind::Reference { r } => match r.item {
            ReferenceKind::Ident { ident } => var_view(bc, ident@) is Some,
            ReferenceKind::TypedObject { obj, cls, field } => var_view(bc, obj@) is Some && has_field(structs, cls@, field@),
            ReferenceKind::Array { arr, idx } => is_array_var(bc, arr@) && expr_compilable(*idx, bc, structs),
            ReferenceKind::ArrayLen { ident } => is_array_var(bc, ident@),
            _ => false,
        },
        ExpressionKind::Cast { expr, .. } => expr_compilable(*expr, bc, structs) && yields_null(*expr, bc),
        ExpressionKind::Error => false,
        _ => true,
    }
}

/// type of the entity that the expression is compiled to
pub open spec fn compiled_type(e: Expression<TypeMeta>, bc: BlockContext, structs: Env<StructDecl>) -> TypeV {
    match e.item {
        ExpressionKind::LitInt { .. } => TypeV::Int,
        ExpressionKind::LitBool { .. } => TypeV::Bool,
        ExpressionKind::LitStr { .. } => TypeV::Str,
        ExpressionKind::LitNull => TypeV::Null,
        ExpressionKind::App { r, .. } => if ret_type(r.meta.t@) is Void { TypeV::Null } else { ret_type(r.meta.t@) },
        ExpressionKind::InitArr { t, .. } => t@,
        ExpressionKind::Reference { r } => match r.item {
            ReferenceKind::Ident { ident } => entity_type(var_view(bc, ident@)->0),
            ReferenceKind::TypedObject { cls, field, .. } => field_type(structs, cls@, field@),
            ReferenceKind::ArrayLen { .. } => TypeV::Int,
            _ => e.meta.t@,
        },
        ExpressionKind::Cast { t, .. } => t@,
        _ => e.meta.t@,
    }
}

/// the expression is compiled to a register defined by the last instruction of the block
/// (an array is initialised by stores that follow the definition of its register)
pub open spec fn produces_register(e: Expression<TypeMeta>) -> bool {
    match e.item {
        ExpressionKind::LitInt { .. } | ExpressionKind::LitBool { .. } | ExpressionKind::LitNull | ExpressionKind::Cast { .. } => false,
        ExpressionKind::InitArr { .. } => false,
        ExpressionKind::App { r, .. } => !(ret_type(r.meta.t@) is Void),
        ExpressionKind::Reference { r } => !(r.item is Ident),
        _ => true,
    }
}

/// an operand that compiles to an entity without any instruction: an integer or boolean
/// literal, `null` (also cast to a class or array type), or a variable
pub open spec fn is_atom(e: Expression<TypeMeta>) -> bool {
    match e.item {
        ExpressionKind::LitInt { .. } => true,
        ExpressionKind::LitBool { .. } => true,
        ExpressionKind::LitNull => true,
        ExpressionKind::Cast { expr, .. } => expr.item is LitNull,
        ExpressionKind::Reference { r } => r.item is Ident,
        _ => false,
    }
}

/// the entity that an operand compiles to in the block context `bc`, where `uuid` is the next
/// number of constants
pub open spec fn atom_entity(e: Expression<TypeMeta>, bc: BlockContext, uuid: usize) -> EntityV {
    match e.item {
        ExpressionKind::LitInt { val } => EntityV::Int { v: val, uuid },
        ExpressionKind::LitBool { val } => EntityV::Bool { v: val, uuid },
        ExpressionKind::LitNull => EntityV::Null { uuid, t: TypeV::Null },
        ExpressionKind::Cast { t, .. } => EntityV::Null { uuid, t: t@ },
        ExpressionKind::Reference { r } => match r.item {
            ReferenceKind::Ident { ident } => var_view(bc, ident@)->0,
            _ => EntityV::Null { uuid: 0, t: TypeV::Null },
        },
        _ => EntityV::Null { uuid: 0, t: TypeV::Null },
    }
}

/// the next number of constants after an operand is compiled: literals (and a cast `null`)
/// take one
pub open spec fn uuid_after(e: Expression<TypeMeta>, uuid: usize) -> usize {
    match e.item {
        ExpressionKind::LitInt { .. } => bump(uuid),
        ExpressionKind::LitBool { .. } => bump(uuid),
        ExpressionKind::LitNull => bump(uuid),
        ExpressionKind::Cast { .. } => bump(uuid),
        _ => uuid,
    }
}

/// the block `b` after a binary operation `op` of `l` and `r` into register `n` of type `t`
pub open spec fn binary_block(b: crate::backend::ir::BasicBlockV, op: BinaryOperator, l: EntityV, r: EntityV, n: usize, t: TypeV)
    -> crate::backend::ir::BasicBlockV {
    crate::backend::ir::BasicBlockV {
        label: b.label,
        instructions: b.instructions.push(InstructionV {
            kind: InstructionKindV::BinaryOp { op, l, r },
            result: Some(EntityV::Register { n, t }),
        }),
    }
}

/// the instructions that create an array of type `t` with `len` items, added to `before`, where
/// `n` is the next register: the number of bytes (`len` times the size that the type gives) goes
/// to register `n` and is passed to the allocation function, whose result is in the next
/// register; after the structure of the array is allocated, `len` is stored in its first field
pub open spec fn new_array_instructions(before: Seq<InstructionV>, after: Seq<InstructionV>, len: EntityV, t: TypeV, n: usize) -> bool {
    let k = before.len() as int;
    &&& after.len() == k + 10
    &&& after.subrange(0, k) == before
    &&& after[k] == (InstructionV {
        kind: InstructionKindV::BinaryOp { op: BinaryOperator::Times, l: len, r: EntityV::Int { v: type_size(t), uuid: 0 } },
        result: Some(EntityV::Register { n, t: TypeV::Int }),
    })
    &&& after[k + 1] == (InstructionV {
        kind: InstructionKindV::Call { func: "__builtin_method__array__init__"@, args: seq![EntityV::Register { n, t: TypeV::Int }] },
        result: Some(EntityV::Register { n: bump(n), t: TypeV::Str }),
    })
    &&& after[k + 6].kind matches InstructionKindV::GetStructElementPtr { idx, .. } && idx == (EntityV::Int { v: 0, uuid: 0 })
    &&& after[k + 6].result is Some
    &&& after[k + 7] == (InstructionV {
        kind: InstructionKindV::Store { val: len, ptr: after[k + 6].result->0 },
        result: None,
    })
}

/// the copy of `e` that a variable is bound to: a constant gets the number `u`
pub open spec fn unique_entity(e: EntityV, u: usize) -> EntityV {
    match e {
        EntityV::Null { t, .. } => EntityV::Null { uuid: u, t },
        EntityV::Int { v, .. } => EntityV::Int { v, uuid: u },
        EntityV::Bool { v, .. } => EntityV::Bool { v, uuid: u },
        _ => e,
    }
}

/// an operand of a string concatenation that compiles without control flow: one that needs no
/// instruction, or a string literal
pub open spec fn is_plain_operand(e: Expression<TypeMeta>) -> bool {
    is_atom(e) || e.item is LitStr
}

/// the entity that such an operand compiles to, where `u` is the next number of constants and
/// `n` the next register (a string literal is loaded into register `n` and cast into the next)
pub open spec fn plain_entity(e: Expression<TypeMeta>, bc: BlockContext, u: usize, n: usize) -> EntityV {
    if e.item is LitStr {
        EntityV::Register { n: bump(n), t: TypeV::Str }
    } else {
        atom_entity(e, bc, u)
    }
}

/// the next register after such an operand is compiled
pub open spec fn register_after(e: Expression<TypeMeta>, n: usize) -> usize {
    if e.item is LitStr {
        bump(bump(n))
    } else {
        n
    }
}

/// the call that joins the strings `l` and `r`, in this order, into register `n` of type `t`
pub open spec fn concat_call(l: EntityV, r: EntityV, n: usize, t: TypeV) -> InstructionV {
    InstructionV {
        kind: InstructionKindV::Call { func: "__builtin_method__str__concat__"@, args: seq![l, r] },
        result: Some(EntityV::Register { n, t }),
    }
}

/// the block `b` with one more instruction of the given kind, which has no result
pub open spec fn block_with(b: crate::backend::ir::BasicBlockV, kind: InstructionKindV) -> crate::backend::ir::BasicBlockV {
    crate::backend::ir::BasicBlockV {
        label: b.label,
        instructions: b.instructions.push(InstructionV { kind, result: None }),
    }
}

/// the block of a return statement added to `b`, where the returned value (if any) is an operand
/// compiled in the block context `bc` with `uuid` the next number of constants
pub open spec fn return_block(b: crate::backend::ir::BasicBlockV, expr: Option<Box<Expression<TypeMeta>>>, bc: BlockContext, uuid: usize)
    -> crate::backend::ir::BasicBlockV {
    match expr {
        None => block_with(b, InstructionKindV::RetVoid),
        Some(e) => block_with(b, InstructionKindV::RetVal { val: atom_entity(*e, bc, uuid) }),
    }
}

/// the block that ends a lazy `&&` or `||`, with suffix `s` for its labels: a phi of the value
/// of the left operand, from the block that evaluated it (labelled `in_label`), and of the value
/// of the right operand, from the block that continued the evaluation, into register `n`
pub open spec fn lazy_end_block(in_label: Option<Seq<char>>, s: usize, l: EntityV, r: EntityV, n: usize, t: TypeV)
    -> crate::backend::ir::BasicBlockV {
    crate::backend::ir::BasicBlockV {
        label: Some(suffixed("__lazy_end__"@, s)),
        instructions: seq![InstructionV {
            kind: InstructionKindV::Phi { args: seq![(l, crate::backend::ir::block_label(in_label)), (r, suffixed("__lazy_cont__"@, s))] },
            result: Some(EntityV::Register { n, t }),
        }],
    }
}

/// the value of the left operand that decides a lazy operator alone: true for `||`, false for `&&`
pub open spec fn deciding_value(op: BinaryOperator) -> EntityV {
    EntityV::Bool { v: op == BinaryOperator::Or, uuid: 0 }
}

/// the allocated slot (register `n`, a pointer to a boolean) in which a lazy operator keeps its
/// value when it is compiled in memory
pub open spec fn lazy_slot(n: usize) -> EntityV {
    EntityV::Register { n, t: TypeV::Reference { t: Box::new(TypeV::Bool) } }
}

/// the instructions that end the evaluation of the left operand `l` of a lazy operator with
/// label suffix `s`: its comparison with the deciding value into register `n`, and a jump to the
/// end if they are equal, else to the continuation
pub open spec fn lazy_check(op: BinaryOperator, l: EntityV, n: usize, s: usize) -> Seq<InstructionV> {
    seq![
        InstructionV {
            kind: InstructionKindV::BinaryOp { op: BinaryOperator::Equal, l, r: deciding_value(op) },
            result: Some(EntityV::Register { n, t: TypeV::Bool }),
        },
        InstructionV {
            kind: InstructionKindV::JumpCond {
                cond: EntityV::Register { n, t: TypeV::Bool },
                true_label: suffixed("__lazy_end__"@, s),
                false_label: suffixed("__lazy_cont__"@, s),
            },
            result: None,
        },
    ]
}

/// the two blocks that a lazy operator `op` of the operands `l` and `r` (which need no
/// instruction) completes, where `b` is the block under construction, `n` the next register and
/// `s` the label suffix: `b` ends with the check of `l`, and the continuation jumps to the end;
/// in memory, `b` first allocates the slot (register `n`) and stores `l` in it, and the
/// continuation stores `r` in it
pub open spec fn lazy_blocks(b: crate::backend::ir::BasicBlockV, op: BinaryOperator, l: EntityV, r: EntityV, n: usize, s: usize,
    in_memory: bool) -> Seq<crate::backend::ir::BasicBlockV> {
    let end = InstructionV { kind: InstructionKindV::Jump { label: suffixed("__lazy_end__"@, s) }, result: None };
    if in_memory {
        seq![
            crate::backend::ir::BasicBlockV {
                label: b.label,
                instructions: b.instructions + seq![
                    InstructionV { kind: InstructionKindV::Alloc { t: TypeV::Bool }, result: Some(lazy_slot(n)) },
                    InstructionV { kind: InstructionKindV::Store { val: l, ptr: lazy_slot(n) }, result: None },
                ] + lazy_check(op, l, bump(n), s),
            },
            crate::backend::ir::BasicBlockV {
                label: Some(suffixed("__lazy_cont__"@, s)),
                instructions: seq![InstructionV { kind: InstructionKindV::Store { val: r, ptr: lazy_slot(n) }, result: None }, end],
            },
        ]
    } else {
        seq![
            crate::backend::ir::BasicBlockV { label: b.label, instructions: b.instructions + lazy_check(op, l, n, s) },
            crate::backend::ir::BasicBlockV { label: Some(suffixed("__lazy_cont__"@, s)), instructions: seq![end] },
        ]
    }
}

/// the register that holds the value of such a lazy operator
pub open spec fn lazy_result(n: usize, in_memory: bool) -> usize {
    if in_memory { bump(bump(n)) } else { bump(n) }
}

/// the block that such a lazy operator leaves under construction: in memory, a load of the slot
/// into the result register, else the phi of the two operands
pub open spec fn lazy_last_block(in_label: Option<Seq<char>>, s: usize, l: EntityV, r: EntityV, n: usize, t: TypeV, in_memory: bool)
    -> crate::backend::ir::BasicBlockV {
    if in_memory {
        crate::backend::ir::BasicBlockV {
            label: Some(suffixed("__lazy_end__"@, s)),
            instructions: seq![InstructionV {
                kind: InstructionKindV::Load { ptr: lazy_slot(n) },
                result: Some(EntityV::Register { n: lazy_result(n, true), t }),
            }],
        }
    } else {
        lazy_end_block(in_label, s, l, r, bump(n), t)
    }
}

/// the expression is a lazy `&&` or `||`
pub open spec fn is_lazy_operator(e: Expression<TypeMeta>) -> bool {
    e.item matches ExpressionKind::Binary { op, .. } && (op == BinaryOperator::And || op == BinaryOperator::Or)
}

/// checks that the expression is a binary operation
pub fn is_binary(e: &Expression<TypeMeta>) -> (r: bool)
    ensures
        r == (e.item is Binary),
{
    match &e.item {
        ExpressionKind::Binary { .. } => true,
        _ => false,
    }
}

/// checks that the expression is a lazy `&&` or `||`
pub fn is_lazy(e: &Expression<TypeMeta>) -> (r: bool)
    ensures
        r == is_lazy_operator(*e),
{
    match &e.item {
        ExpressionKind::Binary { op, .. } => *op == BinaryOperator::And || *op == BinaryOperator::Or,
        _ => false,
    }
}

/// `e` holds the default value of a variable of type `t` declared without a value: 0, false, a
/// new empty string or object (a register of that type), or a null array
pub open spec fn default_of(t: TypeV, e: EntityV) -> bool {
    match t {
        TypeV::Int => e matches EntityV::Int { v, .. } && v == 0,
        TypeV::Bool => e matches EntityV::Bool { v, .. } && !v,
        TypeV::Str => e matches EntityV::Register { t: rt, .. } && rt == TypeV::Str,
        TypeV::Class { .. } => e matches EntityV::Register { t: rt, .. } && rt == t,
        TypeV::Array { .. } => e matches EntityV::Null { t: nt, .. } && nt == t,
        _ => false,
    }
}

/// the entity that holds the default value of a variable of type `t` declared without a value,
/// where `u` is the next number of constants and `n` the next register: 0, false, a new empty
/// string or a new object (held in register `n`), or a null array
pub open spec fn default_entity(t: TypeV, u: usize, n: usize) -> EntityV {
    match t {
        TypeV::Int => EntityV::Int { v: 0, uuid: u },
        TypeV::Bool => EntityV::Bool { v: false, uuid: u },
        TypeV::Str => EntityV::Register { n, t: TypeV::Str },
        TypeV::Class { .. } => EntityV::Register { n, t },
        TypeV::Array { .. } => EntityV::Null { uuid: u, t },
        _ => EntityV::Null { uuid: 0, t: TypeV::Null },
    }
}

/// the instructions that create that default value in register `n`: a call of the constructor
/// of empty strings, or of the function that creates an instance of the class
pub open spec fn default_instructions(t: TypeV, n: usize) -> Seq<InstructionV> {
    match t {
        TypeV::Str => seq![InstructionV {
            kind: InstructionKindV::Call { func: "__builtin_method__str__init__"@, args: seq![EntityV::Int { v: 0, uuid: 0 }] },
            result: Some(EntityV::Register { n, t: TypeV::Str }),
        }],
        TypeV::Class { ident } => seq![InstructionV {
            kind: InstructionKindV::Call { func: "__init__"@ + ident, args: Seq::empty() },
            result: Some(EntityV::Register { n, t }),
        }],
        _ => Seq::empty(),
    }
}

/// name that a declaration item declares
pub open spec fn declared_name(d: crate::frontend::ast::DeclItem<TypeMeta>) -> Seq<char> {
    match d.item {
        DeclItemKind::NoInit { ident } => ident@,
        DeclItemKind::Init { ident, .. } => ident@,
    }
}

/// the blocks of a loop with label suffix `s`, compiled after the first `n` blocks: the block
/// before the loop, which jumps to the condition, then the body (its first block labelled
/// `__loop_body__s`), whose last block jumps back to the condition, then the block that
/// evaluates the condition (labelled `__loop_cond__s`)
pub open spec fn loop_blocks(blocks: Seq<crate::backend::ir::BasicBlock>, n: int, s: usize) -> bool {
    &&& blocks.len() >= n + 3
    &&& exit_targets(blocks[n]@) == Some(seq![suffixed("__loop_cond__"@, s)])
    &&& blocks[n + 1]@.label == Some(suffixed("__loop_body__"@, s))
    &&& exists|i: int| n + 2 <= i < blocks.len() && (#[trigger] blocks[i])@.label == Some(suffixed("__loop_cond__"@, s))
        && exit_targets(blocks[i - 1]@) == Some(seq![suffixed("__loop_cond__"@, s)])
}

/// the labels that an instruction jumps to (none for one that does not jump)
pub open spec fn jump_targets(k: InstructionKindV) -> Seq<Seq<char>> {
    match k {
        InstructionKindV::Jump { label } => seq![label],
        InstructionKindV::JumpCond { true_label, false_label, .. } => seq![true_label, false_label],
        _ => Seq::empty(),
    }
}

/// the labels that the last instruction of a block jumps to (`None` for an empty block)
pub open spec fn exit_targets(b: crate::backend::ir::BasicBlockV) -> Option<Seq<Seq<char>>> {
    if b.instructions.len() > 0 {
        Some(jump_targets(b.instructions.last().kind))
    } else {
        None
    }
}

/// renumbering the entities of instructions keeps their number and where the last one jumps
pub proof fn lemma_mapping_keeps_exit(s: Seq<InstructionV>, inc: IncrementMapper, m: Map<EntityV, EntityV>)
    ensures
        crate::backend::builder::spec_map_instrs(s, inc, m).len() == s.len(),
        s.len() > 0 ==> jump_targets(crate::backend::builder::spec_map_instrs(s, inc, m).last().kind) == jump_targets(s.last().kind),
        s.len() > 0 && crate::backend::ir::is_return(s.last().kind) ==>
            crate::backend::ir::is_return(crate::backend::builder::spec_map_instrs(s, inc, m).last().kind),
    decreases s.len(),
{
    if s.len() > 0 {
        let i0 = crate::backend::builder::spec_map_instr(s[0], inc, m);
        let m2 = match i0.result {
            Some(e) => m.remove(e),
            None => m,
        };
        lemma_mapping_keeps_exit(s.drop_first(), inc, m2);
        if s.len() > 1 {
            assert(s.drop_first().last() == s.last());
        }
    }
}

/// the block ends with a return
pub open spec fn block_returns(b: crate::backend::ir::BasicBlockV) -> bool {
    b.instructions.len() > 0 && crate::backend::ir::is_return(b.instructions.last().kind)
}

/// the blocks of a conditional statement without `else`, with label suffix `s`, compiled after
/// the first `n` blocks, and the predecessors `preds` of the block that follows it: the block that
/// evaluates the condition jumps to `__cond__true__s` or to `__cond__false__s`, and is followed by
/// the first block of the branch (labelled `__cond__true__s`); the last block compiled, where the
/// branch ends, returns or jumps to `__cond__false__s`; these two blocks are the predecessors
pub open spec fn cond_blocks(blocks: Seq<crate::backend::ir::BasicBlock>, n: int, s: usize, preds: Env<Env<Entity>>) -> bool {
    let t_label = suffixed("__cond__true__"@, s);
    let f_label = suffixed("__cond__false__"@, s);
    exists|t: int| #![trigger blocks[t]] {
        &&& n < t < blocks.len()
        &&& blocks[t]@.label == Some(t_label)
        &&& exit_targets(blocks[t - 1]@) == Some(seq![t_label, f_label])
        &&& (exit_targets(blocks.last()@) == Some(seq![f_label]) || block_returns(blocks.last()@))
        &&& preds.lookup(crate::backend::ir::block_label(blocks[t - 1]@.label)) is Some
        &&& preds.lookup(crate::backend::ir::block_label(blocks.last()@.label)) is Some
        &&& forall|q: Seq<char>| #[trigger] preds.lookup(q) is Some ==>
            q == crate::backend::ir::block_label(blocks[t - 1]@.label) || q == crate::backend::ir::block_label(blocks.last()@.label)
    }
}

/// the block where a branch ends returns or jumps to `end`
pub open spec fn branch_end(b: crate::backend::ir::BasicBlockV, end: Seq<char>) -> bool {
    exit_targets(b) == Some(seq![end]) || block_returns(b)
}

/// the blocks of a conditional statement with `else` and label suffix `s`, compiled after the first
/// `n` blocks, where `b` is the block under construction after it and `preds` its predecessors:
/// the block that evaluates the condition jumps to `__cond_else__true__s` or to
/// `__cond_else__false__s`, and is followed by the first block of the true branch (labelled
/// `__cond_else__true__s`); the block where that branch ends returns or jumps to
/// `__cond_else__end__s`, and the false branch (labelled `__cond_else__false__s`) follows it.
/// If both branches return, no block follows them (the false branch ends in `b`); else `b` is
/// the empty block `__cond_else__end__s`, and its predecessors are the blocks where the branches
/// that do not return end
pub open spec fn cond_else_blocks(blocks: Seq<crate::backend::ir::BasicBlock>, n: int, s: usize,
    b: crate::backend::ir::BasicBlockV, preds: Env<Env<Entity>>) -> bool {
    let t_label = suffixed("__cond_else__true__"@, s);
    let f_label = suffixed("__cond_else__false__"@, s);
    let e_label = suffixed("__cond_else__end__"@, s);
    exists|t: int, f: int| #![trigger blocks[t], blocks[f - 1]] {
        &&& n < t < f <= blocks.len()
        &&& blocks[t]@.label == Some(t_label)
        &&& exit_targets(blocks[t - 1]@) == Some(seq![t_label, f_label])
        &&& branch_end(blocks[f - 1]@, e_label)
        &&& if b.instructions.len() == 0 {
            &&& b.label == Some(e_label)
            &&& f < blocks.len()
            &&& blocks[f]@.label == Some(f_label)
            &&& branch_end(blocks.last()@, e_label)
            &&& !(block_returns(blocks[f - 1]@) && block_returns(blocks.last()@))
            &&& forall|q: Seq<char>| #[trigger] preds.lookup(q) is Some <==>
                (q == crate::backend::ir::block_label(blocks[f - 1]@.label) && !block_returns(blocks[f - 1]@))
                || (q == crate::backend::ir::block_label(blocks.last()@.label) && !block_returns(blocks.last()@))
        } else {
            &&& block_returns(blocks[f - 1]@)
            &&& block_returns(b)
            &&& f == blocks.len() ==> b.label == Some(f_label)
            &&& f < blocks.len() ==> blocks[f]@.label == Some(f_label)
        }
    }
}

/// a block that ends with a jump does not end with a return
pub proof fn lemma_jump_is_no_return(b: crate::backend::ir::BasicBlockV, l: Seq<char>)
    requires
        exit_targets(b) == Some(seq![l]),
    ensures
        !block_returns(b),
{
    if block_returns(b) {
        assert(jump_targets(b.instructions.last().kind) =~= Seq::<Seq<char>>::empty());
        assert(seq![l].len() == 1);
    }
}

/// the facts that compiling a conditional statement with `else` establishes give the layout of
/// its blocks (`l0` is the block that evaluates the condition, `f - 1` the block where the true
/// branch ends, and `tr`, `fr` tell whether the branches return)
pub proof fn lemma_cond_else_blocks(blocks: Seq<crate::backend::ir::BasicBlock>, n: int, s: usize,
    b: crate::backend::ir::BasicBlockV, preds: Env<Env<Entity>>, l0: int, f: int, tr: bool, fr: bool)
    requires
        n <= l0,
        l0 + 1 < f <= blocks.len(),
        blocks[l0 + 1]@.label == Some(suffixed("__cond_else__true__"@, s)),
        exit_targets(blocks[l0]@) == Some(seq![suffixed("__cond_else__true__"@, s), suffixed("__cond_else__false__"@, s)]),
        branch_end(blocks[f - 1]@, suffixed("__cond_else__end__"@, s)),
        block_returns(blocks[f - 1]@) == tr,
        tr && fr ==> block_returns(b)
            && (f == blocks.len() ==> b.label == Some(suffixed("__cond_else__false__"@, s)))
            && (f < blocks.len() ==> blocks[f]@.label == Some(suffixed("__cond_else__false__"@, s))),
        !(tr && fr) ==> {
            &&& b.instructions.len() == 0
            &&& b.label == Some(suffixed("__cond_else__end__"@, s))
            &&& f < blocks.len()
            &&& blocks[f]@.label == Some(suffixed("__cond_else__false__"@, s))
            &&& branch_end(blocks.last()@, suffixed("__cond_else__end__"@, s))
            &&& block_returns(blocks.last()@) == fr
            &&& forall|q: Seq<char>| #[trigger] preds.lookup(q) is Some <==>
                (q == crate::backend::ir::block_label(blocks[f - 1]@.label) && !tr)
                || (q == crate::backend::ir::block_label(blocks.last()@.label) && !fr)
        },
    ensures
        cond_else_blocks(blocks, n, s, b, preds),
{
    let t = l0 + 1;
    assert(blocks[t] == blocks[t]);
    assert(blocks[f - 1] == blocks[f - 1]);
}

/// checks that the statement is a block
fn is_block_stmt(s: &Statement<TypeMeta>) -> (r: bool)
    ensures
        r == (s.item is Block),
{
    match &s.item {
        StatementKind::Block { .. } => true,
        _ => false,
    }
}

/// checks that the statement is a conditional statement with `else`
fn is_cond_else_stmt(s: &Statement<TypeMeta>) -> (r: bool)
    ensures
        r == (s.item is CondElse),
{
    match &s.item {
        StatementKind::CondElse { .. } => true,
        _ => false,
    }
}

/// the operation that an increment or a decrement performs
pub open spec fn mut_operator(op: StatementOp) -> BinaryOperator {
    match op {
        StatementOp::Increment => BinaryOperator::Plus,
        StatementOp::Decrement => BinaryOperator::Minus,
    }
}

/// the block `b` after an increment or decrement of the variable held in `var`: one more
/// instruction, which adds 1 to (or subtracts 1 from) the variable into register `n`
pub open spec fn mut_block(b: crate::backend::ir::BasicBlockV, op: StatementOp, var: EntityV, n: usize) -> crate::backend::ir::BasicBlockV {
    crate::backend::ir::BasicBlockV {
        label: b.label,
        instructions: b.instructions.push(InstructionV {
            kind: InstructionKindV::BinaryOp { op: mut_operator(op), l: var, r: EntityV::Int { v: 1, uuid: 0 } },
            result: Some(EntityV::Register { n, t: TypeV::Int }),
        }),
    }
}

/// the last instruction of the block under construction defines `r`
pub open spec fn defines_last(b: BlockBuilder, r: EntityV) -> bool {
    &&& b.block@.instructions.len() > 0
    &&& b.block@.instructions.last().result == Some(r)
    &&& r is Register
}

impl FunctionCompiler {
    /// `self` continues `old`: the declarations only grow, the counters only increase and
    /// the compiled blocks are kept
    pub open spec fn extends(&self, old: FunctionCompiler) -> bool {
        &&& self.inv()
        &&& old.unsupported ==> self.unsupported
        &&& self.lazy_in_memory == old.lazy_in_memory
        &&& self.global_context.function_declarations == old.global_context.function_declarations
        &&& self.global_context.struct_declarations == old.global_context.struct_declarations
        &&& self.global_context.struct_vtable_declarations == old.global_context.struct_vtable_declarations
        &&& forall|k: Seq<char>| old.global_context.string_declarations.lookup(k) is Some ==>
            #[trigger] self.global_context.string_declarations.lookup(k) == old.global_context.string_declarations.lookup(k)
        &&& self.global_context.available_label_suffix >= old.global_context.available_label_suffix
        &&& self.global_context.available_const >= old.global_context.available_const
        &&& self.function_context.available_register >= old.function_context.available_register
        &&& self.function_context.available_uuid >= old.function_context.available_uuid
        &&& self.function_context.compiled_blocks@.len() >= old.function_context.compiled_blocks@.len()
        &&& forall|i: int| 0 <= i < old.function_context.compiled_blocks@.len() ==>
            #[trigger] self.function_context.compiled_blocks@[i] == old.function_context.compiled_blocks@[i]
        &&& self.keeps_labels(old)
    }

    /// `self` is `old` after a lazy operator `op` of two operands that need no instruction and are
    /// compiled to `l` and `r`, with the result `res` of type `t` (when `old` builds a block with
    /// fewer than two predecessors, so that finishing it adds no instruction)
    pub open spec fn lazy_compiled(&self, old: FunctionCompiler, op: BinaryOperator, l: EntityV, r: EntityV, t: TypeV, res: EntityV) -> bool {
        let n = old.function_context.available_register;
        let s = old.global_context.available_label_suffix;
        let k = old.function_context.compiled_blocks@.len();
        let blocks = lazy_blocks(old.builder.block@, op, l, r, n, s, old.lazy_in_memory);
        &&& self.function_context.compiled_blocks@.len() == k + 2
        &&& self.function_context.compiled_blocks@[k as int]@ == blocks[0]
        &&& self.function_context.compiled_blocks@[k + 1 as int]@ == blocks[1]
        &&& self.builder.block@ == lazy_last_block(old.builder.block@.label, s, l, r, n, t, old.lazy_in_memory)
        &&& res == (EntityV::Register { n: lazy_result(n, old.lazy_in_memory), t })
    }

    /// `self` is `old` after the assignment of an operand that needs no instruction (`expr`) to
    /// the bound variable `x`: `x` holds a copy of the value (a constant gets the next number),
    /// and the scopes other than the one that binds `x` are unchanged
    pub open spec fn assigned_atom(&self, old: FunctionCompiler, x: Seq<char>, expr: Expression<TypeMeta>) -> bool {
        let u = old.function_context.available_uuid;
        let stack = old.block_context.env_stack@;
        &&& var_view(self.block_context, x) == Some(unique_entity(atom_entity(expr, old.block_context, u), uuid_after(expr, u)))
        &&& self.block_context.env_stack@.len() == stack.len()
        &&& crate::backend::context::block::binding_depth(stack, x) != stack.len() - 1 ==> self.block_context.env_stack@.last() == stack.last()
    }

    /// `self` is `old` after the declaration of `ident` of type `t` without a value: the
    /// variable holds the default value, whose creation (if any) ends the block under construction
    pub open spec fn declared_default(&self, old: FunctionCompiler, t: TypeV, ident: Seq<char>) -> bool {
        &&& var_view(self.block_context, ident) == Some(default_entity(t,
            old.function_context.available_uuid, old.function_context.available_register))
        &&& self.builder.block@ == (crate::backend::ir::BasicBlockV {
            label: old.builder.block@.label,
            instructions: old.builder.block@.instructions + default_instructions(t, old.function_context.available_register),
        })
        &&& self.function_context.compiled_blocks@ == old.function_context.compiled_blocks@
    }

    /// the labels of the blocks compiled before stay, and the first block compiled since is the
    /// block that `old` was building (which is still being built if no block was compiled)
    pub open spec fn keeps_labels(&self, old: FunctionCompiler) -> bool {
        let n = old.function_context.compiled_blocks@.len();
        &&& forall|i: int| 0 <= i < n ==>
            #[trigger] self.function_context.compiled_blocks@[i]@.label == old.function_context.compiled_blocks@[i]@.label
        &&& self.function_context.compiled_blocks@.len() > n ==> self.function_context.compiled_blocks@[n as int]@.label == old.builder.block@.label
        &&& self.function_context.compiled_blocks@.len() == n ==> self.builder.block@.label == old.builder.block@.label
    }
}


/// the type of a variable declared without a value has a default value
pub open spec fn has_default(t: TypeV) -> bool {
    t is Int || t is Bool || t is Str || t is Class || t is Array
}

/// the constructs of the statement are supported by the compiler (variables that are out of
/// scope are detected while compiling)
pub open spec fn stmt_supported(s: Statement<TypeMeta>) -> bool
    decreases s,
{
    match s.item {
        StatementKind::Block { block } => forall|i: int| 0 <= i < block.item.stmts@.len() ==> stmt_supported(*#[trigger] block.item.stmts@[i]),
        StatementKind::Decl { t, items } => forall|i: int| 0 <= i < items@.len() ==> (#[trigger] items@[i]).item is Init || has_default(t@),
        StatementKind::Ass { r, .. } => r.item is Ident || r.item is TypedObject || r.item is Array,
        StatementKind::Mut { r, .. } => r.item is Ident,
        StatementKind::Cond { stmt, .. } => stmt_supported(*stmt),
        StatementKind::CondElse { stmt_true, stmt_false, .. } => stmt_supported(*stmt_true) && stmt_supported(*stmt_false),
        StatementKind::While { stmt, .. } => stmt_supported(*stmt),
        StatementKind::For { stmt, .. } => stmt_supported(*stmt),
        StatementKind::Error => false,
        _ => true,
    }
}

/// checks that a declaration without a value can give a variable of the type a default value
pub fn type_has_default(t: &Type) -> (r: bool)
    ensures
        r == has_default(t@),
{
    match t {
        Type::Int | Type::Bool | Type::Str | Type::Class { .. } | Type::Array { .. } => true,
        _ => false,
    }
}

/// checks that the constructs of the statement are supported by the compiler
pub fn is_stmt_supported(s: &Statement<TypeMeta>) -> (r: bool)
    ensures
        r == stmt_supported(*s),
    decreases s,
{
    match &s.item {
        StatementKind::Block { block } => {
            let ghost s0 = *s;
            let ghost all = block.item.stmts@;
            let n = block.item.stmts.len();
            let mut i: usize = 0;
            while i < n
                invariant
                    i <= n,
                    n == all.len(),
                    block.item.stmts@ == all,
                    s0 == *s,
                    s0.item matches StatementKind::Block { block: b } && b.item.stmts@ == all,
                    forall|j: int| 0 <= j < i ==> stmt_supported(*#[trigger] all[j]),
                decreases n - i,
            {
                proof {
                    assert(decreases_to!(s0 => *all[i as int]));
                }
                if !is_stmt_supported(&block.item.stmts[i]) {
                    assert(!stmt_supported(*all[i as int]));
                    return false;
                }
                i += 1;
            }
            true
        },
        StatementKind::Decl { t, items } => {
            let ghost s0 = *s;
            let with_default = type_has_default(t);
            let n = items.len();
            let mut i: usize = 0;
            while i < n
                invariant
                    i <= n,
                    n == items@.len(),
                    with_default == has_default(t@),
                    s0 == *s,
                    s0.item matches StatementKind::Decl { t: t0, items: it0 } && t0 == *t && it0@ == items@,
                    forall|j: int| 0 <= j < i ==> (#[trigger] items@[j]).item is Init || has_default(t@),
                decreases n - i,
            {
                let init = match &items[i].item {
                    DeclItemKind::Init { .. } => true,
                    DeclItemKind::NoInit { .. } => false,
                };
                if !init && !with_default {
                    assert(!(items@[i as int].item is Init || has_default(t@)));
                    return false;
                }
                i += 1;
            }
            true
        },
        StatementKind::Ass { r, .. } => match &r.item {
            ReferenceKind::Ident { .. } | ReferenceKind::TypedObject { .. } | ReferenceKind::Array { .. } => true,
            _ => false,
        },
        StatementKind::Mut { r, .. } => match &r.item {
            ReferenceKind::Ident { .. } => true,
            _ => false,
        },
        StatementKind::Cond { stmt, .. } => is_stmt_supported(stmt),
        StatementKind::CondElse { stmt_true, stmt_false, .. } => {
            is_stmt_supported(stmt_true) && is_stmt_supported(stmt_false)
        },
        StatementKind::While { stmt, .. } => is_stmt_supported(stmt),
        StatementKind::For { stmt, .. } => is_stmt_supported(stmt),
        StatementKind::Error => false,
        _ => true,
    }
}

/// size in bytes of a value of the given type, as it is passed around
pub open spec fn type_size(t: TypeV) -> i32 {
    match t {
        TypeV::Int | TypeV::Str | TypeV::Class { .. } | TypeV::Array { .. } | TypeV::Reference { .. } => 4,
        TypeV::Bool => 1,
        _ => 0,
    }
}


impl FunctionCompiler {
    /// `self` continues `old` after a statement: the declarations only grow, the counters only
    /// increase, blocks are only added, and the depth of the variable scopes is the same
    pub open spec fn continues(&self, old: FunctionCompiler) -> bool {
        &&& self.inv()
        &&& old.unsupported ==> self.unsupported
        &&& self.lazy_in_memory == old.lazy_in_memory
        &&& self.block_context.current_depth == old.block_context.current_depth
        &&& self.global_context.function_declarations == old.global_context.function_declarations
        &&& self.global_context.struct_declarations == old.global_context.struct_declarations
        &&& self.global_context.struct_vtable_declarations == old.global_context.struct_vtable_declarations
        &&& forall|k: Seq<char>| old.global_context.string_declarations.lookup(k) is Some ==>
            #[trigger] self.global_context.string_declarations.lookup(k) == old.global_context.string_declarations.lookup(k)
        &&& self.global_context.available_label_suffix >= old.global_context.available_label_suffix
        &&& self.global_context.available_const >= old.global_context.available_const
        &&& self.function_context.available_register >= old.function_context.available_register
        &&& self.function_context.available_uuid >= old.function_context.available_uuid
        &&& self.function_context.compiled_blocks@.len() >= old.function_context.compiled_blocks@.len()
        &&& self.keeps_labels(old)
        &&& self.keeps_exits(old)
    }

    /// the blocks compiled before still jump where they did
    pub open spec fn keeps_exits(&self, old: FunctionCompiler) -> bool {
        forall|i: int| 0 <= i < old.function_context.compiled_blocks@.len()
            && old.function_context.compiled_blocks@[i]@.instructions.len() > 0 ==>
            exit_targets(#[trigger] self.function_context.compiled_blocks@[i]@) == exit_targets(old.function_context.compiled_blocks@[i]@)
            && (block_returns(old.function_context.compiled_blocks@[i]@) ==> block_returns(self.function_context.compiled_blocks@[i]@))
    }
}

/// compiler of a single function
pub struct FunctionCompiler {
    pub builder: BlockBuilder,
    pub block_context: BlockContext,
    pub function_context: FunctionContext,
    pub global_context: GlobalContext,
    /// set when a statement could not be compiled (a construct the compiler does not support,
    /// such as a method call) and was left out
    pub unsupported: bool,
    /// `&&` and `||` keep their value in an allocated slot (stored in each branch and loaded at
    /// the end) instead of joining the branches with a phi
    pub lazy_in_memory: bool,
}

impl FunctionCompiler {
    /// the contexts are consistent
    pub open spec fn inv(&self) -> bool {
        &&& self.block_context.wf()
        &&& self.global_context.wf()
        &&& self.builder.predecessors.wf()
        &&& forall|p: int| 0 <= p < self.builder.predecessors.entries@.len() ==> (#[trigger] self.builder.predecessors.entries@[p]).1.wf()
    }

    /// a compiler for a new function that uses (and extends) the given global context
    pub fn new(global_context: GlobalContext) -> (r: Self)
        ensures
            r.global_context == global_context,
            global_context.wf() ==> r.inv(),
            r.builder.block@.label is None,
            r.builder.block@.instructions.len() == 0,
            r.builder.entity_mapping is None,
            r.builder.predecessors.entries@.len() == 0,
            r.builder.variables_gen.entries@.len() == 0,
            r.block_context.current_depth == 0,
            r.block_context.env_stack@.len() == 1,
            r.block_context.env_stack@[0].entries@.len() == 0,
            forall|k: Seq<char>| r.block_context.spec_get(k) is None,
            r.function_context.available_register == 1,
            r.function_context.available_uuid == 1,
            r.function_context.compiled_blocks@.len() == 0,
            !r.unsupported,
            !r.lazy_in_memory,
    {
        FunctionCompiler {
            builder: BlockBuilder::without_label(),
            block_context: BlockContext::new(),
            function_context: FunctionContext::new(),
            global_context,
            unsupported: false,
            lazy_in_memory: false,
        }
    }

    pub fn get_global_context(&self) -> (r: &GlobalContext)
        ensures
            *r == self.global_context,
    {
        &self.global_context
    }

    /// a new register of type `t` (numbers stop at the largest `usize`)
    fn fresh_register(&mut self, t: Type) -> (r: Entity)
        ensures
            final(self).unsupported == old(self).unsupported,
            final(self).lazy_in_memory == old(self).lazy_in_memory,
            r@ == (EntityV::Register { n: old(self).function_context.available_register, t: t@ }),
            final(self).function_context.available_register == bump(old(self).function_context.available_register),
            final(self).function_context.available_uuid == old(self).function_context.available_uuid,
            final(self).function_context.compiled_blocks@ == old(self).function_context.compiled_blocks@,
            final(self).builder == old(self).builder,
            final(self).block_context == old(self).block_context,
            final(self).global_context == old(self).global_context,
    {
        if self.function_context.available_register < usize::MAX {
            self.function_context.new_register(t)
        } else {
            Entity::Register { n: self.function_context.available_register, t }
        }
    }

    /// a new unique identifier for a constant (numbers stop at the largest `usize`)
    fn fresh_uuid(&mut self) -> (r: usize)
        ensures
            final(self).unsupported == old(self).unsupported,
            final(self).lazy_in_memory == old(self).lazy_in_memory,
            r == old(self).function_context.available_uuid,
            final(self).function_context.available_uuid == bump(old(self).function_context.available_uuid),
            final(self).function_context.available_register == old(self).function_context.available_register,
            final(self).function_context.compiled_blocks@ == old(self).function_context.compiled_blocks@,
            final(self).builder == old(self).builder,
            final(self).block_context == old(self).block_context,
            final(self).global_context == old(self).global_context,
    {
        if self.function_context.available_uuid < usize::MAX {
            self.function_context.new_uuid()
        } else {
            self.function_context.available_uuid
        }
    }

    /// a new suffix for a set of labels (numbers stop at the largest `usize`)
    fn fresh_label_suffix(&mut self) -> (r: usize)
        requires
            old(self).inv(),
        ensures
            final(self).unsupported == old(self).unsupported,
            final(self).lazy_in_memory == old(self).lazy_in_memory,
            final(self).inv(),
            r == old(self).global_context.available_label_suffix,
            final(self).global_context.available_label_suffix == bump(old(self).global_context.available_label_suffix),
            final(self).global_context.string_declarations == old(self).global_context.string_declarations,
            final(self).global_context.function_declarations == old(self).global_context.function_declarations,
            final(self).global_context.struct_declarations == old(self).global_context.struct_declarations,
            final(self).global_context.struct_vtable_declarations == old(self).global_context.struct_vtable_declarations,
            final(self).global_context.array_struct_definitions == old(self).global_context.array_struct_definitions,
            final(self).global_context.available_const == old(self).global_context.available_const,
            final(self).function_context == old(self).function_context,
            final(self).builder == old(self).builder,
            final(self).block_context == old(self).block_context,
    {
        if self.global_context.available_label_suffix < usize::MAX {
            self.global_context.new_label_suffix()
        } else {
            self.global_context.available_label_suffix
        }
    }

    /// label made of `prefix` and `suffix`
    fn label(prefix: &str, suffix: usize) -> (r: String)
        ensures
            r@ == suffixed(prefix@, suffix),
    {
        let digits = usize_to_string(suffix);
        concat(prefix, digits.as_str())
    }

    /// finish the current block, and start a new one with the given label
    fn next_block(&mut self, label: String)
        requires
            old(self).inv(),
        ensures
            final(self).unsupported == old(self).unsupported,
            final(self).lazy_in_memory == old(self).lazy_in_memory,
            final(self).inv(),
            final(self).builder.block@.label == Some(label@),
            final(self).builder.block@.instructions.len() == 0,
            final(self).builder.predecessors.entries@.len() == 0,
            final(self).builder.entity_mapping is None,
            final(self).block_context == old(self).block_context,
            final(self).global_context == old(self).global_context,
            final(self).function_context.available_register >= old(self).function_context.available_register,
            final(self).function_context.available_uuid == old(self).function_context.available_uuid,
            final(self).function_context.compiled_blocks@.len() == old(self).function_context.compiled_blocks@.len() + 1,
            final(self).function_context.compiled_blocks@.drop_last() == old(self).function_context.compiled_blocks@,
            forall|i: int| 0 <= i < old(self).function_context.compiled_blocks@.len() ==>
                #[trigger] final(self).function_context.compiled_blocks@[i] == old(self).function_context.compiled_blocks@[i],
            final(self).function_context.compiled_blocks@.last()@.label == old(self).builder.block@.label,
            old(self).builder.predecessors.entries@.len() < 2 ==>
                final(self).function_context.compiled_blocks@.last()@ == old(self).builder.block@,
            old(self).builder.predecessors.entries@.len() < 2 ==>
                final(self).function_context.available_register == old(self).function_context.available_register,
            old(self).builder.block@.instructions.len() > 0 ==>
                exit_targets(final(self).function_context.compiled_blocks@.last()@) == exit_targets(old(self).builder.block@),
            block_returns(old(self).builder.block@) ==> block_returns(final(self).function_context.compiled_blocks@.last()@),
    {
        let ghost old_block = self.builder.block@;
        let block = if self.builder.ready_to_build(&self.function_context) {
            self.builder.build(&mut self.function_context)
        } else {
            self.builder.block.copy()
        };
        proof {
            if block@ != old_block && old_block.instructions.len() > 0 {
                let k = block@.instructions.len() - old_block.instructions.len();
                let j = old_block.instructions.len() - 1;
                assert(block@.instructions[k + j] == block@.instructions.last());
                assert(jump_targets(block@.instructions[k + j].kind) == jump_targets(old_block.instructions[j].kind));
                assert(crate::backend::ir::is_return(old_block.instructions[j].kind) ==> crate::backend::ir::is_return(block@.instructions[k + j].kind));
            }
        }
        let ghost before = self.function_context.compiled_blocks@;
        self.function_context.push_block(block);
        self.builder = BlockBuilder::with_label(label);
        proof {
            assert(self.function_context.compiled_blocks@.drop_last() =~= before);
        }
    }

    /// creates new basic block, but before that maps entities in the last block (loop body)
    /// using mapping for the currently built block (loop condition)
    fn complete_loop_block(&mut self, next_label: String)
        requires
            old(self).inv(),
        ensures
            final(self).unsupported == old(self).unsupported,
            final(self).lazy_in_memory == old(self).lazy_in_memory,
            final(self).inv(),
            final(self).builder.block@.label == Some(next_label@),
            final(self).builder.block@.instructions.len() == 0,
            final(self).builder.predecessors.entries@.len() == 0,
            final(self).block_context.current_depth == old(self).block_context.current_depth,
            forall|q: Seq<char>| #[trigger] final(self).block_context.spec_get(q) is Some <==> old(self).block_context.spec_get(q) is Some,
            final(self).global_context == old(self).global_context,
            final(self).function_context.available_register >= old(self).function_context.available_register,
            final(self).function_context.available_uuid == old(self).function_context.available_uuid,
            final(self).function_context.compiled_blocks@.len() == old(self).function_context.compiled_blocks@.len() + 1,
            final(self).function_context.compiled_blocks@.last()@.label == old(self).builder.block@.label,
            forall|i: int| 0 <= i < old(self).function_context.compiled_blocks@.len() ==>
                #[trigger] final(self).function_context.compiled_blocks@[i]@.label == old(self).function_context.compiled_blocks@[i]@.label,
            forall|i: int| 0 <= i < old(self).function_context.compiled_blocks@.len()
                && old(self).function_context.compiled_blocks@[i]@.instructions.len() > 0 ==>
                exit_targets(#[trigger] final(self).function_context.compiled_blocks@[i]@) == exit_targets(old(self).function_context.compiled_blocks@[i]@)
                && (block_returns(old(self).function_context.compiled_blocks@[i]@) ==> block_returns(final(self).function_context.compiled_blocks@[i]@)),
            old(self).builder.block@.instructions.len() > 0 ==>
                exit_targets(final(self).function_context.compiled_blocks@.last()@) == exit_targets(old(self).builder.block@),
    {
        let ghost blocks0 = self.function_context.compiled_blocks@;
        let ghost old_block = self.builder.block@;
        let cond_block = if self.builder.ready_to_build(&self.function_context) {
            self.builder.build(&mut self.function_context)
        } else {
            self.builder.block.copy()
        };
        proof {
            if cond_block@ != old_block && old_block.instructions.len() > 0 {
                let k = cond_block@.instructions.len() - old_block.instructions.len();
                let j = old_block.instructions.len() - 1;
                assert(cond_block@.instructions[k + j] == cond_block@.instructions.last());
                assert(jump_targets(cond_block@.instructions[k + j].kind) == jump_targets(old_block.instructions[j].kind));
            }
        }
        match &self.builder.entity_mapping {
            Some(mapping) => {
                let identity = IncrementMapper { offset: 0, from_value: 0 };
                let n = self.function_context.compiled_blocks.len();
                if n > 0 && self.function_context.compiled_blocks[n - 1].can_map(&identity) {
                    let ghost before = self.function_context.compiled_blocks@;
                    self.function_context.map_entities_in_last_block(mapping);
                    proof {
                        lemma_mapping_keeps_exit(before.last()@.instructions, crate::backend::context::function::identity_mapper(), mapping.view_map());
                        assert forall|i: int| 0 <= i < before.len() && before[i]@.instructions.len() > 0 implies
                            exit_targets(#[trigger] self.function_context.compiled_blocks@[i]@) == exit_targets(before[i]@)
                            && (block_returns(before[i]@) ==> block_returns(self.function_context.compiled_blocks@[i]@)) by {
                            if i < before.len() - 1 {
                                assert(self.function_context.compiled_blocks@[i] == self.function_context.compiled_blocks@.drop_last()[i]);
                                assert(before[i] == before.drop_last()[i]);
                            }
                        }
                        assert forall|i: int| 0 <= i < before.len() implies
                            #[trigger] self.function_context.compiled_blocks@[i]@.label == before[i]@.label by {
                            if i < before.len() - 1 {
                                assert(self.function_context.compiled_blocks@[i] == self.function_context.compiled_blocks@.drop_last()[i]);
                                assert(before[i] == before.drop_last()[i]);
                            }
                        }
                    }
                }
                self.block_context.map_env(mapping);
            },
            None => {},
        }
        let ghost before_push = self.function_context.compiled_blocks@;
        self.function_context.push_block(cond_block);
        self.builder = BlockBuilder::with_label(next_label);
        proof {
            assert forall|i: int| 0 <= i < blocks0.len() && blocks0[i]@.instructions.len() > 0 implies
                exit_targets(#[trigger] self.function_context.compiled_blocks@[i]@) == exit_targets(blocks0[i]@)
                && (block_returns(blocks0[i]@) ==> block_returns(self.function_context.compiled_blocks@[i]@)) by {
                assert(self.function_context.compiled_blocks@[i] == before_push[i]);
            }
            assert forall|i: int| 0 <= i < blocks0.len() implies
                #[trigger] self.function_context.compiled_blocks@[i]@.label == blocks0[i]@.label by {
                assert(self.function_context.compiled_blocks@[i] == before_push[i]);
            }
        }
    }

    /// copy of an entity, with a new uuid if it is a constant
    fn make_unique_entity(&mut self, ent: Entity) -> (r: Entity)
        ensures
            final(self).unsupported == old(self).unsupported,
            final(self).lazy_in_memory == old(self).lazy_in_memory,
            match ent@ {
                EntityV::Null { t, .. } => r@ == (EntityV::Null { uuid: old(self).function_context.available_uuid, t }),
                EntityV::Int { v, .. } => r@ == (EntityV::Int { v, uuid: old(self).function_context.available_uuid }),
                EntityV::Bool { v, .. } => r@ == (EntityV::Bool { v, uuid: old(self).function_context.available_uuid }),
                _ => r@ == ent@,
            },
            ent@ is Null || ent@ is Int || ent@ is Bool ==>
                final(self).function_context.available_uuid == bump(old(self).function_context.available_uuid),
            !(ent@ is Null || ent@ is Int || ent@ is Bool) ==>
                final(self).function_context.available_uuid == old(self).function_context.available_uuid,
            final(self).function_context.available_register == old(self).function_context.available_register,
            final(self).function_context.compiled_blocks@ == old(self).function_context.compiled_blocks@,
            final(self).builder == old(self).builder,
            final(self).block_context == old(self).block_context,
            final(self).global_context == old(self).global_context,
    {
        match ent {
            Entity::Null { uuid: _, t } => Entity::Null { uuid: self.fresh_uuid(), t },
            Entity::Int { v, uuid: _ } => Entity::Int { v, uuid: self.fresh_uuid() },
            Entity::Bool { v, uuid: _ } => Entity::Bool { v, uuid: self.fresh_uuid() },
            reg_entity => reg_entity,
        }
    }

    /// compiles instructions necessary to access `array_ent` at `idx_ent` as a reference entity:
    /// a pointer to the raw array in the array structure, the raw array, and the item pointer
    fn compile_array_gep(&mut self, array_item_t: Type, array_ent: Entity, idx_ent: Entity) -> (r: Entity)
        requires
            old(self).inv(),
        ensures
            final(self).unsupported == old(self).unsupported,
            final(self).lazy_in_memory == old(self).lazy_in_memory,
            final(self).inv(),
            ({
                let n0 = old(self).function_context.available_register;
                let n1 = bump(n0);
                let n2 = bump(n1);
                let item = array_item_t@;
                let rr = TypeV::Reference { t: Box::new(item) };
                &&& r@ == (EntityV::Register { n: n2, t: rr })
                &&& final(self).function_context.available_register == bump(n2)
                &&& final(self).builder.block@.instructions == old(self).builder.block@.instructions.push(InstructionV {
                        kind: InstructionKindV::GetStructElementPtr {
                            container_type_name: seq!['%'] + array_struct_decl(item).name,
                            var: array_ent@,
                            idx: EntityV::Int { v: 1, uuid: 0 },
                        },
                        result: Some(EntityV::Register { n: n0, t: TypeV::Reference { t: Box::new(rr) } }),
                    }).push(InstructionV {
                        kind: InstructionKindV::Load { ptr: EntityV::Register { n: n0, t: TypeV::Reference { t: Box::new(rr) } } },
                        result: Some(EntityV::Register { n: n1, t: rr }),
                    }).push(InstructionV {
                        kind: InstructionKindV::GetArrayElementPtr { item_t: item, var: EntityV::Register { n: n1, t: rr }, idx: idx_ent@ },
                        result: Some(EntityV::Register { n: n2, t: rr }),
                    })
            }),
            final(self).builder.block@.label == old(self).builder.block@.label,
            final(self).builder.predecessors == old(self).builder.predecessors,
            final(self).builder.entity_mapping == old(self).builder.entity_mapping,
            final(self).block_context == old(self).block_context,
            final(self).function_context.available_uuid == old(self).function_context.available_uuid,
            final(self).function_context.compiled_blocks@ == old(self).function_context.compiled_blocks@,
            final(self).global_context.string_declarations == old(self).global_context.string_declarations,
            final(self).global_context.function_declarations == old(self).global_context.function_declarations,
            final(self).global_context.struct_declarations == old(self).global_context.struct_declarations,
            final(self).global_context.struct_vtable_declarations == old(self).global_context.struct_vtable_declarations,
            final(self).global_context.available_const == old(self).global_context.available_const,
            final(self).global_context.available_label_suffix == old(self).global_context.available_label_suffix,
            crate::backend::context::global::has_array_struct(final(self).global_context.array_struct_definitions@, array_item_t@),
    {
        let ghost before = self.builder.block@.instructions;
        // get ptr to raw array from array struct
        let array_struct = self.global_context.get_or_declare_array_struct(&array_item_t);
        let array_gep_instr = InstructionKind::GetStructElementPtr {
            container_type_name: array_struct.llvm_name(),
            var: array_ent,
            idx: Entity::Int { v: 1, uuid: 0 },
        };
        let array_gep_reg = self.fresh_register(array_item_t.reference().reference());
        self.builder.push_instruction(array_gep_instr.with_result(array_gep_reg.copy()));

        // load raw array
        let array_load_instr = InstructionKind::Load { ptr: array_gep_reg };
        let array_reg = self.fresh_register(array_item_t.reference());
        self.builder.push_instruction(array_load_instr.with_result(array_reg.copy()));

        // get ptr to the index in raw array
        let get_item_ptr = InstructionKind::GetArrayElementPtr {
            item_t: array_item_t.copy(),
            var: array_reg,
            idx: idx_ent,
        };
        let item_ptr_ent = self.fresh_register(array_item_t.reference());
        self.builder.push_instruction(get_item_ptr.with_result(item_ptr_ent.copy()));
        proof {
            assert(self.builder.block@.instructions =~= instructions_view_push3(before, self.builder.block.instructions@));
        }
        item_ptr_ent
    }

    /// declare a string constant, if a name for it is left
    fn declare_string_now(&mut self, val: String) -> (r: (String, usize))
        requires
            old(self).inv(),
            (vstd::utf8::encode_utf8(val@).len() as usize) >= 1,
        ensures
            final(self).unsupported == old(self).unsupported,
            final(self).lazy_in_memory == old(self).lazy_in_memory,
            final(self).extends(*old(self)),
            final(self).block_context == old(self).block_context,
            final(self).builder == old(self).builder,
            final(self).function_context == old(self).function_context,
            old(self).global_context.available_const < usize::MAX ==> (final(self).global_context.string_declarations.lookup(val@) matches Some(d)
                && d.name@ == r.0@ && d.len == r.1),
    {
        if self.global_context.available_const < usize::MAX {
            let d = self.global_context.declare_string(val);
            (d.name, d.len)
        } else {
            (String::new(), 0)
        }
    }

    /// calculate size of a single value from reference
    fn get_size(t: &Type) -> (r: Entity)
        ensures
            r@ == (EntityV::Int { v: type_size(t@), uuid: 0 }),
    {
        match t {
            Type::Int => Entity::Int { v: 4, uuid: 0 },
            Type::Str => Entity::Int { v: 4, uuid: 0 },
            Type::Bool => Entity::Int { v: 1, uuid: 0 },
            Type::Class { .. } => Entity::Int { v: 4, uuid: 0 },
            Type::Array { .. } => Entity::Int { v: 4, uuid: 0 },
            Type::Reference { .. } => Entity::Int { v: 4, uuid: 0 },
            _ => Entity::Int { v: 0, uuid: 0 },
        }
    }

    /// interpret type as array, get type of its element
    fn get_array_item_type(t: &Type) -> (r: Type)
        requires
            t@ is Array,
        ensures
            r@ == item_type(t@),
    {
        match t {
            Type::Array { item_t } => item_t.copy(),
            _ => {
                assert(false);
                Type::Error
            },
        }
    }

    /// interpret type as function, get type of its return value
    fn get_function_return_type(t: &Type) -> (r: Type)
        requires
            t@ is Function,
        ensures
            r@ == ret_type(t@),
    {
        match t {
            Type::Function { args: _, ret } => ret.copy(),
            _ => {
                assert(false);
                Type::Error
            },
        }
    }

    /// compile an expression: its instructions go to the block under construction (lazy
    /// operators start new blocks), and the entity that holds its value is returned
    pub fn compile_expression(&mut self, expr: Expression<TypeMeta>) -> (r: Entity)
        requires
            old(self).inv(),
            expr_compilable(expr, old(self).block_context, old(self).global_context.struct_declarations),
        ensures
            final(self).unsupported == old(self).unsupported,
            final(self).lazy_in_memory == old(self).lazy_in_memory,
            final(self).extends(*old(self)),
            final(self).block_context == old(self).block_context,
            entity_type(r@) == compiled_type(expr, old(self).block_context, old(self).global_context.struct_declarations),
            yields_null(expr, old(self).block_context) ==> r@ is Null,
            expr.item matches ExpressionKind::App { r: f, .. } ==> (ret_type(f.meta.t@) is Void
                ==> r@ == (EntityV::Null { uuid: 0, t: TypeV::Null })),
            produces_register(expr) ==> defines_last(final(self).builder, r@),
            expr.item matches ExpressionKind::LitInt { val } ==> r@ == (EntityV::Int { v: val, uuid: old(self).function_context.available_uuid }),
            expr.item matches ExpressionKind::LitBool { val } ==> r@ == (EntityV::Bool { v: val, uuid: old(self).function_context.available_uuid }),
            expr.item is LitNull ==> r@ == (EntityV::Null { uuid: old(self).function_context.available_uuid, t: TypeV::Null }),
            expr.item matches ExpressionKind::Reference { r: rf } ==> (rf.item matches ReferenceKind::Ident { ident }
                ==> r@ == var_view(old(self).block_context, ident@)->0),
            expr.item is LitStr ==> r@ == (EntityV::Register { n: bump(old(self).function_context.available_register), t: TypeV::Str })
                && final(self).function_context.available_register == bump(bump(old(self).function_context.available_register))
                && final(self).function_context.available_uuid == old(self).function_context.available_uuid,
            expr.item matches ExpressionKind::Binary { left, op, right } ==> (op == BinaryOperator::Plus && left.meta.t@ == TypeV::Str
                && is_plain_operand(*left) && is_plain_operand(*right) ==> {
                    let u = old(self).function_context.available_uuid;
                    let n = old(self).function_context.available_register;
                    let l = plain_entity(*left, old(self).block_context, u, n);
                    let r = plain_entity(*right, old(self).block_context, uuid_after(*left, u), register_after(*left, n));
                    &&& final(self).builder.block@.instructions.len() > 0
                    &&& final(self).builder.block@.instructions.last()
                        == concat_call(l, r, register_after(*right, register_after(*left, n)), expr.meta.t@)
                }),
            expr.item matches ExpressionKind::LitStr { val } ==> (old(self).global_context.available_const < usize::MAX
                ==> (final(self).global_context.string_declarations.lookup(val@) matches Some(d)
                    && d.len == (vstd::utf8::encode_utf8(val@).len() as usize) - 1)),
            is_atom(expr) ==> final(self).builder == old(self).builder
                && final(self).function_context.compiled_blocks@ == old(self).function_context.compiled_blocks@
                && final(self).function_context.available_register == old(self).function_context.available_register
                && final(self).function_context.available_uuid == uuid_after(expr, old(self).function_context.available_uuid)
                && r@ == atom_entity(expr, old(self).block_context, old(self).function_context.available_uuid),
            expr.item matches ExpressionKind::Binary { left, op, right } ==> (op != BinaryOperator::And && op != BinaryOperator::Or
                && !(left.meta.t@ == TypeV::Str && op == BinaryOperator::Plus) && is_atom(*left) && is_atom(*right)
                ==> final(self).builder.block@ == binary_block(old(self).builder.block@, op,
                    atom_entity(*left, old(self).block_context, old(self).function_context.available_uuid),
                    atom_entity(*right, old(self).block_context, uuid_after(*left, old(self).function_context.available_uuid)),
                    old(self).function_context.available_register, expr.meta.t@)),
            expr.item matches ExpressionKind::InitArr { t, size } ==> (is_atom(*size) ==> new_array_instructions(
                old(self).builder.block@.instructions, final(self).builder.block@.instructions,
                atom_entity(*size, old(self).block_context, old(self).function_context.available_uuid), t@,
                old(self).function_context.available_register)),
            expr.item matches ExpressionKind::Binary { left, op, right } ==> ((op == BinaryOperator::And || op == BinaryOperator::Or)
                && is_atom(*left) && is_atom(*right) && old(self).builder.predecessors.entries@.len() < 2
                ==> final(self).lazy_compiled(*old(self), op,
                    atom_entity(*left, old(self).block_context, old(self).function_context.available_uuid),
                    atom_entity(*right, old(self).block_context, uuid_after(*left, old(self).function_context.available_uuid)),
                    expr.meta.t@, r@)),
        decreases expr, 1int,
    {
        if is_lazy(&expr) {
            return self.compile_lazy(expr);
        }
        if is_binary(&expr) {
            return self.compile_binary(expr);
        }
        let result_t = expr.get_type();
        let ghost e0 = expr;
        match expr.item {
            ExpressionKind::LitInt { val } => Entity::Int { v: val, uuid: self.fresh_uuid() },
            ExpressionKind::LitBool { val } => Entity::Bool { v: val, uuid: self.fresh_uuid() },
            ExpressionKind::LitStr { val } => {
                // declare the string as global constant
                let (name, len) = self.declare_string_now(val);

                // load the global constant in the current context
                let instr = InstructionKind::LoadConst { name, len };
                let register = self.fresh_register(Type::Str);
                self.builder.push_instruction(instr.with_result(register.copy()));

                // immediately cast the constant to i8* to prevent type mismatch in phi expressions
                let cast_instr = InstructionKind::BitCast { ent: register, to: Type::Str };
                let cast_register = self.fresh_register(Type::Str);
                self.builder.push_instruction(cast_instr.with_result(cast_register.copy()));
                cast_register
            },
            ExpressionKind::LitNull => Entity::Null { uuid: self.fresh_uuid(), t: Type::Null },
            ExpressionKind::App { r, args } => {
                // get name of the function, mapped by compiler
                let func_name = match &r.item {
                    ReferenceKind::Ident { ident } => self.global_context.get_function_name(ident),
                    _ => {
                        assert(false);
                        String::new()
                    },
                };

                // compile argument expressions
                let ghost all = args@;
                let ghost start = *self;
                let mut rest = args;
                let mut arg_entities: Vec<Entity> = Vec::new();
                while rest.len() > 0
                    invariant
                        start == *old(self),
                        self.extends(start),
                        self.unsupported == start.unsupported,
                        self.lazy_in_memory == start.lazy_in_memory,
                        self.block_context == start.block_context,
                        self.global_context.struct_declarations == start.global_context.struct_declarations,
                        rest@.len() + arg_entities@.len() == all.len(),
                        forall|i: int| 0 <= i < rest@.len() ==> rest@[i] == all[arg_entities@.len() + i],
                        forall|i: int| 0 <= i < all.len() ==> expr_compilable(*#[trigger] all[i], start.block_context, start.global_context.struct_declarations),
                        e0.item matches ExpressionKind::App { args, .. } && args@ == all,
                        e0 == expr,
                    decreases rest.len(),
                {
                    let a = rest.remove(0);
                    proof {
                        assert(a == all[arg_entities@.len() as int]);
                        assert(decreases_to!(e0 => *a));
                    }
                    let ent = self.compile_expression(*a);
                    arg_entities.push(ent);
                }

                // compile actual call instruction
                let instr = InstructionKind::Call { func: func_name, args: arg_entities };

                // function return type determines whether we store or forget the return value
                let ret_t = Self::get_function_return_type(&r.meta.t);
                match ret_t {
                    Type::Void => {
                        self.builder.push_instruction(instr.without_result());
                        // the type checker guarantees the value is not used, so a placeholder is returned
                        Entity::Null { uuid: 0, t: Type::Null }
                    },
                    t => {
                        let result_ent = self.fresh_register(t);
                        self.builder.push_instruction(instr.with_result(result_ent.copy()));
                        result_ent
                    },
                }
            },
            ExpressionKind::Unary { op, arg } => {
                let arg_ent = self.compile_expression(*arg);
                let instr = InstructionKind::UnaryOp { op, arg: arg_ent };
                let result_reg = self.fresh_register(result_t);
                self.builder.push_instruction(instr.with_result(result_reg.copy()));
                result_reg
            },
            ExpressionKind::Binary { .. } => {
                assert(false);
                Entity::Null { uuid: 0, t: Type::Null }
            },
            ExpressionKind::InitDefault { t } => {
                match &t {
                    Type::Class { ident } => {
                        let instr = InstructionKind::Call { func: self.global_context.get_init_name(ident), args: Vec::new() };
                        let result_ent = self.fresh_register(result_t);
                        self.builder.push_instruction(instr.with_result(result_ent.copy()));
                        result_ent
                    },
                    _ => {
                        assert(false);
                        Entity::Null { uuid: 0, t: Type::Null }
                    },
                }
            },
            ExpressionKind::InitArr { t, size } => {
                // void* in C is i8* in LLVM
                let arr_item_t = Self::get_array_item_type(&t);

                // register new array type that has to be declared for our program
                let arr_struct_decl = self.global_context.get_or_declare_array_struct(&arr_item_t);

                // calculate length (number of items)
                let length_ent = self.compile_expression(*size);
                let ghost b0 = self.builder.block@.instructions;

                // calculate size of the array (in bytes)
                let item_size_ent = Self::get_size(&t);
                let byte_count_instr = InstructionKind::BinaryOp { op: BinaryOperator::Times, l: length_ent.copy(), r: item_size_ent };
                let bytes_size_ent = self.fresh_register(Type::Int);
                self.builder.push_instruction(byte_count_instr.with_result(bytes_size_ent.copy()));

                // allocate memory for the array
                let ghost bytes_v = bytes_size_ent@;
                let mut malloc_args: Vec<Entity> = Vec::new();
                malloc_args.push(bytes_size_ent);
                proof {
                    assert(crate::backend::ir::entities_view(malloc_args@) =~= seq![bytes_v]);
                }
                let raw_array_malloc = InstructionKind::Call {
                    func: String::from_str("__builtin_method__array__init__"),
                    args: malloc_args,
                };
                let malloc_result_ent = self.fresh_register(Type::Str);
                self.builder.push_instruction(raw_array_malloc.with_result(malloc_result_ent.copy()));

                // cast raw array to its appropriate type
                let raw_array_t = arr_item_t.reference();
                let raw_array_cast = InstructionKind::BitCast { ent: malloc_result_ent, to: raw_array_t.copy() };
                let raw_array_ent = self.fresh_register(raw_array_t.copy());
                self.builder.push_instruction(raw_array_cast.with_result(raw_array_ent.copy()));

                // load size of array struct
                let load_struct_size = InstructionKind::Load {
                    ptr: Entity::GlobalConstInt { name: self.global_context.get_array_struct_size_name(&arr_item_t) },
                };
                let struct_size_ent = self.fresh_register(Type::Int);
                self.builder.push_instruction(load_struct_size.with_result(struct_size_ent.copy()));

                // use array init to allocate array struct as well
                let struct_init = InstructionKind::Call {
                    func: String::from_str("__builtin_method__array__init__"),
                    args: vec![struct_size_ent],
                };
                let array_init_ent = self.fresh_register(Type::Str);
                self.builder.push_instruction(struct_init.with_result(array_init_ent.copy()));

                // cast the result to appropriate type
                let array_struct_cast = InstructionKind::BitCast { ent: array_init_ent, to: t.copy() };
                let array_struct_ptr_ent = self.fresh_register(t.copy());
                self.builder.push_instruction(array_struct_cast.with_result(array_struct_ptr_ent.copy()));

                // set length
                let length_gep = InstructionKind::GetStructElementPtr {
                    container_type_name: arr_struct_decl.llvm_name(),
                    var: array_struct_ptr_ent.copy(),
                    idx: Entity::Int { v: 0, uuid: 0 },
                };
                let length_ptr = self.fresh_register(Type::Int.reference());
                self.builder.push_instruction(length_gep.with_result(length_ptr.copy()));
                let store_length = InstructionKind::Store { val: length_ent, ptr: length_ptr };
                self.builder.push_instruction(store_length.without_result());

                // move the allocated raw array into array struct
                let raw_array_gep = InstructionKind::GetStructElementPtr {
                    container_type_name: arr_struct_decl.llvm_name(),
                    var: array_struct_ptr_ent.copy(),
                    idx: Entity::Int { v: 1, uuid: 0 },
                };
                let raw_array_ptr = self.fresh_register(raw_array_t.reference());
                self.builder.push_instruction(raw_array_gep.with_result(raw_array_ptr.copy()));
                let store_array = InstructionKind::Store { val: raw_array_ent, ptr: raw_array_ptr };
                self.builder.push_instruction(store_array.without_result());

                proof {
                    let after = self.builder.block@.instructions;
                    let k = b0.len() as int;
                    assert(after.subrange(0, k) =~= b0);
                }
                // return array struct: {length, array}
                array_struct_ptr_ent
            },
            ExpressionKind::Reference { r } => {
                match r.item {
                    ReferenceKind::Ident { ident } => self.block_context.get_variable(&ident),
                    ReferenceKind::TypedObject { obj, cls, field } => {
                        let struct_decl = self.global_context.get_struct_decl(&cls);
                        let field_idx = match struct_decl.field_env.get(&field) {
                            Some(i) => *i,
                            None => {
                                assert(false);
                                0
                            },
                        };
                        proof {
                            assert(struct_decl_wf(self.global_context.struct_declarations.lookup(cls@)->0));
                        }
                        let field_t = struct_decl.fields[field_idx as usize].copy();
                        let obj_ent = self.block_context.get_variable(&obj);
                        let gep_instr = InstructionKind::GetStructElementPtr {
                            container_type_name: struct_decl.llvm_name(),
                            var: obj_ent,
                            idx: Entity::Int { v: field_idx, uuid: 0 },
                        };
                        let gep_reg = self.fresh_register(field_t.reference());
                        self.builder.push_instruction(gep_instr.with_result(gep_reg.copy()));
                        let load_reg = self.fresh_register(field_t);
                        let load_instr = InstructionKind::Load { ptr: gep_reg };
                        self.builder.push_instruction(load_instr.with_result(load_reg.copy()));
                        load_reg
                    },
                    ReferenceKind::Array { arr, idx } => {
                        let array_ent = self.block_context.get_variable(&arr);
                        let idx_ent = self.compile_expression(*idx);
                        let item_t = array_ent.get_array_item_t();
                        let gep_reg = self.compile_array_gep(item_t, array_ent, idx_ent);
                        let load_reg = self.fresh_register(result_t);
                        let load_instr = InstructionKind::Load { ptr: gep_reg };
                        self.builder.push_instruction(load_instr.with_result(load_reg.copy()));
                        load_reg
                    },
                    ReferenceKind::ArrayLen { ident } => {
                        let obj_ent = self.block_context.get_variable(&ident);
                        let arr_item_t = obj_ent.get_array_item_t();
                        let array_struct = self.global_context.get_or_declare_array_struct(&arr_item_t);
                        let gep_instr = InstructionKind::GetStructElementPtr {
                            container_type_name: array_struct.llvm_name(),
                            var: obj_ent,
                            idx: Entity::Int { v: 0, uuid: 0 },
                        };
                        let gep_reg = self.fresh_register(Type::Int.reference());
                        self.builder.push_instruction(gep_instr.with_result(gep_reg.copy()));
                        let load_reg = self.fresh_register(Type::Int);
                        let load_instr = InstructionKind::Load { ptr: gep_reg };
                        self.builder.push_instruction(load_instr.with_result(load_reg.copy()));
                        load_reg
                    },
                    _ => {
                        assert(false);
                        Entity::Null { uuid: 0, t: Type::Null }
                    },
                }
            },
            ExpressionKind::Cast { t, expr } => {
                let inner = self.compile_expression(*expr);
                match inner {
                    Entity::Null { uuid, t: _ } => Entity::Null { uuid, t },
                    _ => {
                        assert(false);
                        Entity::Null { uuid: 0, t }
                    },
                }
            },
            ExpressionKind::Error => {
                assert(false);
                Entity::Null { uuid: 0, t: Type::Null }
            },
        }
    }

    /// compile a binary operation that is not lazy: both operands are evaluated, the left one
    /// first, and then joined by one instruction (a call of the concatenation of strings for `+`
    /// on strings)
    fn compile_binary(&mut self, expr: Expression<TypeMeta>) -> (r: Entity)
        requires
            old(self).inv(),
            expr_compilable(expr, old(self).block_context, old(self).global_context.struct_declarations),
            expr.item is Binary,
            !is_lazy_operator(expr),
        ensures
            final(self).unsupported == old(self).unsupported,
            final(self).extends(*old(self)),
            final(self).block_context == old(self).block_context,
            entity_type(r@) == expr.meta.t@,
            defines_last(final(self).builder, r@),
            expr.item matches ExpressionKind::Binary { left, op, right } ==> (op == BinaryOperator::Plus && left.meta.t@ == TypeV::Str
                && is_plain_operand(*left) && is_plain_operand(*right) ==> {
                    let u = old(self).function_context.available_uuid;
                    let n = old(self).function_context.available_register;
                    let l = plain_entity(*left, old(self).block_context, u, n);
                    let r = plain_entity(*right, old(self).block_context, uuid_after(*left, u), register_after(*left, n));
                    &&& final(self).builder.block@.instructions.len() > 0
                    &&& final(self).builder.block@.instructions.last()
                        == concat_call(l, r, register_after(*right, register_after(*left, n)), expr.meta.t@)
                }),
            expr.item matches ExpressionKind::Binary { left, op, right } ==> (op != BinaryOperator::And && op != BinaryOperator::Or
                && !(left.meta.t@ == TypeV::Str && op == BinaryOperator::Plus) && is_atom(*left) && is_atom(*right)
                ==> final(self).builder.block@ == binary_block(old(self).builder.block@, op,
                    atom_entity(*left, old(self).block_context, old(self).function_context.available_uuid),
                    atom_entity(*right, old(self).block_context, uuid_after(*left, old(self).function_context.available_uuid)),
                    old(self).function_context.available_register, expr.meta.t@)),
        decreases expr, 0int,
    {
        let result_t = expr.get_type();
        match expr.item {
            ExpressionKind::Binary { left, op, right } => {
                // evaluate both sides of expression before performing the operation
                let t = left.get_type();
                let left_ent = self.compile_expression(*left);
                let right_ent = self.compile_expression(*right);
                let ghost lv = left_ent@;
                let ghost rv = right_ent@;

                // for strings, use concatenation function instead of llvm operator
                let is_concat = t.equals(&Type::Str) && op == BinaryOperator::Plus;
                let instr = if is_concat {
                    let mut args: Vec<Entity> = Vec::new();
                    args.push(left_ent);
                    args.push(right_ent);
                    proof {
                        assert(crate::backend::ir::entities_view(args@) =~= seq![lv, rv]);
                    }
                    InstructionKind::Call {
                        func: String::from_str("__builtin_method__str__concat__"),
                        args,
                    }
                } else {
                    InstructionKind::BinaryOp { op, l: left_ent, r: right_ent }
                };
                let result_ent = self.fresh_register(result_t);
                self.builder.push_instruction(instr.with_result(result_ent.copy()));
                proof {
                    if is_concat {
                        assert(self.builder.block@.instructions.last() == concat_call(lv, rv, result_ent@->Register_n, result_t@));
                    }
                }
                result_ent
            },
            _ => {
                assert(false);
                Entity::Null { uuid: 0, t: Type::Null }
            },
        }
    }

    /// compile a lazy `&&` or `||`: the right operand is evaluated in a block of its own only when
    /// the left one does not decide the value; the two ways meet in an end block, which joins
    /// them with a phi, or (in memory) loads the value that each way stored in an allocated slot
    #[verifier::rlimit(60)]
    #[verifier::spinoff_prover]
    fn compile_lazy(&mut self, expr: Expression<TypeMeta>) -> (r: Entity)
        requires
            old(self).inv(),
            expr_compilable(expr, old(self).block_context, old(self).global_context.struct_declarations),
            is_lazy_operator(expr),
        ensures
            final(self).unsupported == old(self).unsupported,
            final(self).extends(*old(self)),
            final(self).block_context == old(self).block_context,
            entity_type(r@) == expr.meta.t@,
            defines_last(final(self).builder, r@),
            expr.item matches ExpressionKind::Binary { left, op, right } ==> (is_atom(*left) && is_atom(*right)
                && old(self).builder.predecessors.entries@.len() < 2
                ==> final(self).lazy_compiled(*old(self), op,
                    atom_entity(*left, old(self).block_context, old(self).function_context.available_uuid),
                    atom_entity(*right, old(self).block_context, uuid_after(*left, old(self).function_context.available_uuid)),
                    expr.meta.t@, r@)),
        decreases expr, 0int,
    {
        let result_t = expr.get_type();
        let ghost e0 = expr;
        let ghost s0 = *self;
        match expr.item {
            ExpressionKind::Binary { left, op, right } => {
                let ghost gl = *left;
                let ghost gr = *right;
                let ghost in_memory = self.lazy_in_memory;
                let ghost n0 = self.function_context.available_register;
                let ghost k = self.function_context.compiled_blocks@.len();
                let ghost b0 = self.builder.block@;

                // in memory, the value is kept in an allocated slot
                let slot = if self.lazy_in_memory {
                    let slot = self.fresh_register(Type::Bool.reference());
                    self.builder.push_instruction(InstructionKind::Alloc { t: Type::Bool }.with_result(slot.copy()));
                    Some(slot)
                } else {
                    None
                };

                // generate labels for conditional jump
                let suffix = self.fresh_label_suffix();
                let cont_label = Self::label("__lazy_cont__", suffix);
                let end_label = Self::label("__lazy_end__", suffix);

                // evaluate left expression (and store it)
                let left_ent = self.compile_expression(*left);
                match &slot {
                    Some(p) => self.builder.push_instruction(InstructionKind::Store { val: left_ent.copy(), ptr: p.copy() }.without_result()),
                    None => {},
                }

                // check if left result is enough to determine the entire expression result:
                // for OR, a true left side makes the expression true,
                // for AND, a false left side makes the expression false
                let ending_value = if op == BinaryOperator::Or {
                    Entity::Bool { v: true, uuid: 0 }
                } else {
                    Entity::Bool { v: false, uuid: 0 }
                };
                let check = InstructionKind::BinaryOp { op: BinaryOperator::Equal, l: left_ent.copy(), r: ending_value };
                let check_result = self.fresh_register(Type::Bool);
                self.builder.push_instruction(check.with_result(check_result.copy()));

                // perform conditional jump to cont_label if we need to evaluate 2nd expression
                let cond_jump = InstructionKind::JumpCond {
                    cond: check_result,
                    true_label: end_label.clone(),
                    false_label: cont_label.clone(),
                };
                self.builder.push_instruction(cond_jump.without_result());
                let in_label = self.builder.get_block_label();
                let ghost entry = self.builder.block@;
                let ghost n_mid = self.function_context.available_register;

                // if the left branch was was not enough, evaluate right branch (and store it)
                self.next_block(cont_label);
                let right_ent = self.compile_expression(*right);
                match &slot {
                    Some(p) => self.builder.push_instruction(InstructionKind::Store { val: right_ent.copy(), ptr: p.copy() }.without_result()),
                    None => {},
                }
                let jump = InstructionKind::Jump { label: end_label.clone() };
                self.builder.push_instruction(jump.without_result());
                let ghost cont = self.builder.block@;

                // the end of the continued evaluation may have another label than its
                // beginning (when more lazy expressions are nested)
                let cont_label = self.builder.get_block_label();
                self.next_block(end_label);
                let ghost empty_block = self.builder.block@;
                match slot {
                    Some(p) => {
                        // at the end, load the value of the result back to a register
                        let load = InstructionKind::Load { ptr: p };
                        let load_reg = self.fresh_register(result_t);
                        self.builder.push_instruction(load.with_result(load_reg.copy()));
                        proof {
                            assert(empty_block.instructions =~= Seq::<InstructionV>::empty());
                            if is_atom(gl) && is_atom(gr) && s0.builder.predecessors.entries@.len() < 2 {
                                let blocks = lazy_blocks(b0, op, left_ent@, right_ent@, n0, suffix, in_memory);
                                assert(entry.instructions =~= blocks[0].instructions);
                                assert(cont.instructions =~= blocks[1].instructions);
                                assert(self.builder.block@.instructions =~= lazy_last_block(b0.label, suffix, left_ent@, right_ent@, n0, result_t@, in_memory).instructions);
                            }
                        }
                        load_reg
                    },
                    None => {
                        // at the end, join the values of the two ways
                        let ghost args_v = seq![(left_ent@, in_label@), (right_ent@, cont_label@)];
                        let phi_args = vec![(left_ent, in_label), (right_ent, cont_label)];
                        proof {
                            assert(crate::backend::ir::phi_args_view(phi_args@) =~= args_v);
                        }
                        let phi_instr = InstructionKind::Phi { args: phi_args };
                        let phi_reg = self.fresh_register(result_t);
                        self.builder.push_instruction(phi_instr.with_result(phi_reg.copy()));
                        proof {
                            assert(empty_block.instructions =~= Seq::<InstructionV>::empty());
                            assert(self.builder.block@.instructions =~= seq![InstructionV {
                                kind: InstructionKindV::Phi { args: args_v },
                                result: Some(phi_reg@),
                            }]);
                            if is_atom(gl) && is_atom(gr) && s0.builder.predecessors.entries@.len() < 2 {
                                let blocks = lazy_blocks(b0, op, left_ent@, right_ent@, n0, suffix, in_memory);
                                assert(entry.instructions =~= blocks[0].instructions);
                                assert(cont.instructions =~= blocks[1].instructions);
                            }
                        }
                        phi_reg
                    },
                }
            },
            _ => {
                assert(false);
                Entity::Null { uuid: 0, t: Type::Null }
            },
        }
    }

    /// the variable `ident` is bound to an entity of an array type
    fn is_array_var_now(&self, ident: &String) -> (r: bool)
        ensures
            r == is_array_var(self.block_context, ident@),
    {
        match self.block_context.lookup_variable(ident) {
            Some(e) => match e.get_type() {
                Type::Array { .. } => true,
                _ => false,
            },
            None => false,
        }
    }

    /// the field `field` of class `cls` is declared
    fn has_field_now(&self, cls: &String, field: &String) -> (r: bool)
        ensures
            r == has_field(self.global_context.struct_declarations, cls@, field@),
    {
        match self.global_context.struct_declarations.get(cls) {
            Some(d) => d.field_env.contains_key(field),
            None => false,
        }
    }

    /// the expression is compiled to a null constant
    fn yields_null_now(&self, e: &Expression<TypeMeta>) -> (r: bool)
        ensures
            r == yields_null(*e, self.block_context),
    {
        match &e.item {
            ExpressionKind::LitNull => true,
            ExpressionKind::Cast { .. } => true,
            ExpressionKind::App { r, .. } => match &r.meta.t {
                Type::Function { ret, .. } => {
                    assert(ret_type(r.meta.t@) == (**ret)@);
                    match &**ret {
                        Type::Void => true,
                        _ => false,
                    }
                },
                _ => false,
            },
            ExpressionKind::Reference { r } => match &r.item {
                ReferenceKind::Ident { ident } => {
                    let found = self.block_context.lookup_variable(ident);
                    match found {
                        Some(ent) => {
                            assert(var_view(self.block_context, ident@) == Some(ent@));
                            match ent {
                                Entity::Null { .. } => true,
                                _ => false,
                            }
                        },
                        None => false,
                    }
                },
                _ => false,
            },
            _ => false,
        }
    }

    /// checks that the expression can be compiled in the current state
    pub fn check_expr(&self, e: &Expression<TypeMeta>) -> (r: bool)
        ensures
            r == expr_compilable(*e, self.block_context, self.global_context.struct_declarations),
        decreases e,
    {
        match &e.item {
            ExpressionKind::LitStr { val } => val.as_str().len() >= 1,
            ExpressionKind::App { r, args } => {
                let is_ident = match &r.item {
                    ReferenceKind::Ident { .. } => true,
                    _ => false,
                };
                let is_function = match &r.meta.t {
                    Type::Function { .. } => true,
                    _ => false,
                };
                if !is_ident || !is_function {
                    return false;
                }
                let mut i: usize = 0;
                while i < args.len()
                    invariant
                        i <= args@.len(),
                        forall|j: int| 0 <= j < i ==> expr_compilable(*#[trigger] args@[j], self.block_context, self.global_context.struct_declarations),
                        e.item matches ExpressionKind::App { args: a, .. } && a == args,
                    decreases args.len() - i,
                {
                    if !self.check_expr(&args[i]) {
                        return false;
                    }
                    i += 1;
                }
                true
            },
            ExpressionKind::Unary { arg, .. } => self.check_expr(arg),
            ExpressionKind::Binary { left, right, .. } => self.check_expr(left) && self.check_expr(right),
            ExpressionKind::InitDefault { t } => match t {
                Type::Class { .. } => true,
                _ => false,
            },
            ExpressionKind::InitArr { t, size } => match t {
                Type::Array { .. } => self.check_expr(size),
                _ => false,
            },
            ExpressionKind::Reference { r } => match &r.item {
                ReferenceKind::Ident { ident } => self.block_context.lookup_variable(ident).is_some(),
                ReferenceKind::TypedObject { obj, cls, field } =>
                    self.block_context.lookup_variable(obj).is_some() && self.has_field_now(cls, field),
                ReferenceKind::Array { arr, idx } => self.is_array_var_now(arr) && self.check_expr(idx),
                ReferenceKind::ArrayLen { ident } => self.is_array_var_now(ident),
                _ => false,
            },
            ExpressionKind::Cast { expr, .. } => self.check_expr(expr) && self.yields_null_now(expr),
            ExpressionKind::Error => false,
            _ => true,
        }
    }

    /// register `label` as a predecessor of the block under construction, with the variables
    /// of `env`
    fn add_pred(&mut self, label: String, env: &Env<Entity>)
        requires
            old(self).inv(),
            env.wf(),
        ensures
            final(self).unsupported == old(self).unsupported,
            final(self).lazy_in_memory == old(self).lazy_in_memory,
            final(self).inv(),
            final(self).builder.block == old(self).builder.block,
            final(self).builder.entity_mapping == old(self).builder.entity_mapping,
            final(self).builder.variables_gen == old(self).builder.variables_gen,
            forall|q: Seq<char>| q != label@ ==> #[trigger] final(self).builder.predecessors.lookup(q) == old(self).builder.predecessors.lookup(q),
            final(self).builder.predecessors.lookup(label@) is Some,
            forall|k: Seq<char>| (#[trigger] final(self).builder.predecessors.lookup(label@)->0.lookup(k)) is Some <==> env.lookup(k) is Some,
            forall|k: Seq<char>| final(self).builder.predecessors.lookup(label@)->0.lookup(k) is Some
                ==> (#[trigger] final(self).builder.predecessors.lookup(label@)->0.lookup(k))->0@ == env.lookup(k)->0@,
            final(self).block_context == old(self).block_context,
            final(self).global_context == old(self).global_context,
            final(self).function_context == old(self).function_context,
    {
        self.builder.add_predecessor(label, env);
    }

    /// compile a declaration: each variable is bound to the value it is given, or to the default
    /// value of its type
    fn compile_decl(&mut self, t: Type, items: Vec<DeclItem<TypeMeta>>)
        requires
            old(self).inv(),
            forall|i: int| 0 <= i < items@.len() ==> (#[trigger] items@[i]).item is Init || has_default(t@),
        ensures
            final(self).continues(*old(self)),
            forall|i: int| 0 <= i < items@.len() ==>
                ((#[trigger] items@[i]).item matches DeclItemKind::NoInit { ident } ==> var_view(final(self).block_context, ident@) is Some),
            forall|i: int| 0 <= i < items@.len()
                && (forall|j: int| i < j < items@.len() ==> declared_name(items@[j]) != declared_name(items@[i]))
                ==> ((#[trigger] items@[i]).item matches DeclItemKind::NoInit { ident }
                    ==> (var_view(final(self).block_context, ident@) matches Some(e) && default_of(t@, e))),
            items@.len() == 1 ==> (items@[0].item matches DeclItemKind::NoInit { ident } ==>
                final(self).declared_default(*old(self), t@, ident@)),
    {
        let ghost all = items@;
        let ghost start = *self;
        let mut rest = items;
        let total = rest.len();
        let mut k: usize = 0;
        while rest.len() > 0
            invariant
                self.continues(start),
                start.inv(),
                all.len() == total,
                rest@.len() + k == all.len(),
                forall|i: int| 0 <= i < rest@.len() ==> rest@[i] == all[k + i],
                forall|i: int| 0 <= i < all.len() ==> (#[trigger] all[i]).item is Init || has_default(t@),
                forall|i: int| 0 <= i < k ==> ((#[trigger] all[i]).item matches DeclItemKind::NoInit { ident }
                    ==> var_view(self.block_context, ident@) is Some),
                forall|i: int| 0 <= i < k && (forall|j: int| i < j < k ==> declared_name(all[j]) != declared_name(all[i]))
                    ==> ((#[trigger] all[i]).item matches DeclItemKind::NoInit { ident }
                        ==> (var_view(self.block_context, ident@) matches Some(e) && default_of(t@, e))),
                start == *old(self),
                k == 0 ==> *self == start,
                all.len() == 1 && k == 1 ==> (all[0].item matches DeclItemKind::NoInit { ident } ==> {
                    &&& var_view(self.block_context, ident@) == Some(default_entity(t@,
                        start.function_context.available_uuid, start.function_context.available_register))
                    &&& self.builder.block@ == (crate::backend::ir::BasicBlockV {
                        label: start.builder.block@.label,
                        instructions: start.builder.block@.instructions + default_instructions(t@, start.function_context.available_register),
                    })
                    &&& self.function_context.compiled_blocks@ == start.function_context.compiled_blocks@
                }),
            decreases rest.len(),
        {
            let item = rest.remove(0);
            let ghost before = *self;
            proof {
                assert(item == all[k as int]);
            }
            // get identifier and entity representing the value (default if not provided)
            match item.item {
                DeclItemKind::NoInit { ident } => {
                    let entity = match &t {
                        Type::Int => Entity::Int { v: 0, uuid: self.fresh_uuid() },
                        Type::Bool => Entity::Bool { v: false, uuid: self.fresh_uuid() },
                        Type::Str => {
                            let func = String::from_str("__builtin_method__str__init__");
                            let mut args: Vec<Entity> = Vec::new();
                            args.push(Entity::Int { v: 0, uuid: 0 });
                            proof {
                                assert(args@ =~= seq![Entity::Int { v: 0, uuid: 0 }]);
                                assert(func@ == "__builtin_method__str__init__"@);
                            }
                            let default_init = InstructionKind::Call { func, args };
                            proof {
                                assert(default_init@ == (InstructionKindV::Call { func: "__builtin_method__str__init__"@,
                                    args: seq![EntityV::Int { v: 0, uuid: 0 }] })) by {
                                    assert(crate::backend::ir::entities_view(seq![Entity::Int { v: 0, uuid: 0 }]) =~= seq![EntityV::Int { v: 0, uuid: 0 }]);
                                }
                            }
                            let call_ret_ent = self.fresh_register(Type::Str);
                            self.builder.push_instruction(default_init.with_result(call_ret_ent.copy()));
                            proof {
                                assert(self.builder.block@.instructions =~= before.builder.block@.instructions
                                    + default_instructions(t@, before.function_context.available_register));
                            }
                            call_ret_ent
                        },
                        Type::Class { ident: cls } => {
                            let call_instr = InstructionKind::Call { func: self.global_context.get_init_name(cls), args: Vec::new() };
                            proof {
                                assert(crate::backend::ir::entities_view(Seq::<Entity>::empty()) =~= Seq::<EntityV>::empty());
                            }
                            let call_result_ent = self.fresh_register(t.copy());
                            self.builder.push_instruction(call_instr.with_result(call_result_ent.copy()));
                            proof {
                                assert(self.builder.block@.instructions =~= before.builder.block@.instructions
                                    + default_instructions(t@, before.function_context.available_register));
                            }
                            call_result_ent
                        },
                        Type::Array { item_t } => Entity::Null {
                            uuid: self.fresh_uuid(),
                            t: Type::Array { item_t: Box::new(item_t.copy()) },
                        },
                        _ => {
                            assert(false);
                            Entity::Null { uuid: 0, t: Type::Null }
                        },
                    };
                    proof {
                        assert(entity@ == default_entity(t@, before.function_context.available_uuid, before.function_context.available_register));
                        assert(self.builder.block@.instructions =~= before.builder.block@.instructions
                            + default_instructions(t@, before.function_context.available_register));
                    }
                    // use compiler environment to remember where the variable is stored
                    self.block_context.set_new_variable(ident, entity);
                },
                DeclItemKind::Init { ident, val } => {
                    if self.check_expr(&val) {
                        let value_ent = self.compile_expression(*val);
                        let entity = self.make_unique_entity(value_ent);
                        self.block_context.set_new_variable(ident, entity);
                    } else {
                        self.unsupported = true;
                    }
                },
            }
            proof {
                assert forall|i: int| 0 <= i < k + 1 && (forall|j: int| i < j < k + 1 ==> declared_name(all[j]) != declared_name(all[i]))
                    implies ((#[trigger] all[i]).item matches DeclItemKind::NoInit { ident }
                        ==> (var_view(self.block_context, ident@) matches Some(e) && default_of(t@, e))) by {
                    if i < k {
                        assert(declared_name(all[k as int]) != declared_name(all[i]));
                        match all[i].item {
                            DeclItemKind::NoInit { ident } => {
                                assert(var_view(self.block_context, ident@) == var_view(before.block_context, ident@));
                            },
                            _ => {},
                        }
                    }
                }
                assert forall|i: int| 0 <= i < k + 1 implies ((#[trigger] all[i]).item matches DeclItemKind::NoInit { ident }
                    ==> var_view(self.block_context, ident@) is Some) by {
                    if i < k {
                        match all[i].item {
                            DeclItemKind::NoInit { ident } => {
                                assert(var_view(before.block_context, ident@) is Some);
                            },
                            _ => {},
                        }
                    }
                }
            }
            k += 1;
        }
    }

    /// finish the block under construction, where the false branch of a conditional statement
    /// ends, and start the end block, whose predecessors are the branches that do not return
    fn join_branches(&mut self, end_label: String, true_end: String, true_env: &Env<Entity>, true_returns: bool,
        false_end: String, false_env: &Env<Entity>, false_returns: bool)
        requires
            old(self).inv(),
            true_env.wf(),
            false_env.wf(),
        ensures
            final(self).unsupported == old(self).unsupported,
            final(self).lazy_in_memory == old(self).lazy_in_memory,
            final(self).inv(),
            final(self).builder.block@.label == Some(end_label@),
            final(self).builder.block@.instructions.len() == 0,
            final(self).block_context == old(self).block_context,
            final(self).global_context == old(self).global_context,
            final(self).function_context.available_register >= old(self).function_context.available_register,
            final(self).function_context.available_uuid == old(self).function_context.available_uuid,
            final(self).function_context.compiled_blocks@.len() == old(self).function_context.compiled_blocks@.len() + 1,
            forall|i: int| 0 <= i < old(self).function_context.compiled_blocks@.len() ==>
                #[trigger] final(self).function_context.compiled_blocks@[i] == old(self).function_context.compiled_blocks@[i],
            final(self).function_context.compiled_blocks@.last()@.label == old(self).builder.block@.label,
            old(self).builder.block@.instructions.len() > 0 ==>
                exit_targets(final(self).function_context.compiled_blocks@.last()@) == exit_targets(old(self).builder.block@),
            block_returns(old(self).builder.block@) ==> block_returns(final(self).function_context.compiled_blocks@.last()@),
            forall|q: Seq<char>| #[trigger] final(self).builder.predecessors.lookup(q) is Some <==>
                (q == true_end@ && !true_returns) || (q == false_end@ && !false_returns),
    {
        self.next_block(end_label);
        proof {
            assert forall|q: Seq<char>| #[trigger] self.builder.predecessors.lookup(q) is None by {
                assert(self.builder.predecessors.entries@.len() == 0);
            }
        }
        if !true_returns {
            self.add_pred(true_end, true_env);
        }
        if !false_returns {
            self.add_pred(false_end, false_env);
        }
    }

    /// compile a conditional statement with `else`: the condition jumps to one of the branches,
    /// and the branches that do not return meet in the end block
    #[verifier::rlimit(100)]
    #[verifier::spinoff_prover]
    fn compile_cond_else(&mut self, stmt: Statement<TypeMeta>)
        requires
            old(self).inv(),
            stmt_supported(stmt),
            stmt.item is CondElse,
        ensures
            final(self).continues(*old(self)),
            stmt.item matches StatementKind::CondElse { expr, .. } ==> (expr_compilable(*expr, old(self).block_context, old(self).global_context.struct_declarations)
                ==> cond_else_blocks(final(self).function_context.compiled_blocks@, old(self).function_context.compiled_blocks@.len() as int,
                    old(self).global_context.available_label_suffix, final(self).builder.block@, final(self).builder.predecessors)),
        decreases stmt, 0int,
    {
        let ghost s0 = stmt;
        match stmt.item {
            StatementKind::CondElse { expr, stmt_true, stmt_false } => {
            let ghost s0_n = self.function_context.compiled_blocks@.len() as int;
            if self.check_expr(&expr) {
                // create labels for all branches
                let suffix = self.fresh_label_suffix();
                let true_label = Self::label("__cond_else__true__", suffix);
                let false_label = Self::label("__cond_else__false__", suffix);
                let end_label = Self::label("__cond_else__end__", suffix);

                // evaluate conditional expression and perform conditional jump
                let expr_ent = self.compile_expression(*expr);
                let cond_jump_instr = InstructionKind::JumpCond {
                    cond: expr_ent,
                    true_label: true_label.clone(),
                    false_label: false_label.clone(),
                };
                self.builder.push_instruction(cond_jump_instr.without_result());

                // collect information for phi calculation
                let in_label = self.builder.get_block_label();
                let in_env = self.block_context.get_env_view();

                // true branch
                let ghost l0 = self.function_context.compiled_blocks@.len() as int;
                self.next_block(true_label.clone());
                self.add_pred(in_label.clone(), &in_env);
                proof {
                    assert(decreases_to!(s0 => *stmt_true));
                    assert(exit_targets(self.function_context.compiled_blocks@[l0]@) == Some(seq![true_label@, false_label@]));
                }
                let ghost at_true = *self;
                self.compile_statement(*stmt_true);
                let true_returns = self.builder.block_always_returns();
                proof {
                    if self.builder.block.instructions@.len() > 0 {
                        assert(self.builder.block@.instructions.last() == instruction_view(self.builder.block.instructions@.last()));
                    }
                    assert(true_returns == block_returns(self.builder.block@));
                }
                if !true_returns {
                    let end_jump_instr = InstructionKind::Jump { label: end_label.clone() };
                    self.builder.push_instruction(end_jump_instr.without_result());
                }
                let true_env = self.block_context.get_env_view();
                let true_end_label = self.builder.get_block_label();

                // false branch
                let ghost before_false = *self;
                self.next_block(false_label.clone());
                let ghost f = self.function_context.compiled_blocks@.len() as int;
                proof {
                    assert(self.function_context.compiled_blocks@[l0 + 1]@.label == Some(true_label@)) by {
                        if before_false.function_context.compiled_blocks@.len() > l0 + 1 {
                            assert(before_false.function_context.compiled_blocks@[l0 + 1]@.label == at_true.builder.block@.label);
                        }
                    }
                    assert(branch_end(self.function_context.compiled_blocks@[f - 1]@, end_label@));
                    assert(exit_targets(self.function_context.compiled_blocks@[f - 1]@) == exit_targets(before_false.builder.block@));
                    if !true_returns {
                        lemma_jump_is_no_return(self.function_context.compiled_blocks@[f - 1]@, end_label@);
                    }
                    assert(block_returns(self.function_context.compiled_blocks@[f - 1]@) == true_returns);
                    assert(!true_returns ==> exit_targets(self.function_context.compiled_blocks@[f - 1]@) == Some(seq![end_label@]));
                }
                self.add_pred(in_label, &in_env);
                proof {
                    assert(decreases_to!(s0 => *stmt_false));
                }
                let ghost at_false = *self;
                self.compile_statement(*stmt_false);
                let false_returns = self.builder.block_always_returns();
                proof {
                    if self.builder.block.instructions@.len() > 0 {
                        assert(self.builder.block@.instructions.last() == instruction_view(self.builder.block.instructions@.last()));
                    }
                    assert(false_returns == block_returns(self.builder.block@));
                }
                if !false_returns {
                    let end_jump_instr = InstructionKind::Jump { label: end_label.clone() };
                    self.builder.push_instruction(end_jump_instr.without_result());
                }
                let false_env = self.block_context.get_env_view();
                let false_end_label = self.builder.get_block_label();

                // unless both branches return, the end block follows them, and each branch
                // that does not return is one of its predecessors
                let ghost before_end = *self;
                if !true_returns || !false_returns {
                    self.join_branches(end_label, true_end_label, &true_env, true_returns, false_end_label, &false_env, false_returns);
                    proof {
                        let blocks = self.function_context.compiled_blocks@;
                        assert(blocks[f]@.label == Some(false_label@)) by {
                            if before_end.function_context.compiled_blocks@.len() > f {
                                assert(before_end.function_context.compiled_blocks@[f]@.label == at_false.builder.block@.label);
                            }
                        }
                        assert(exit_targets(blocks.last()@) == exit_targets(before_end.builder.block@));
                        if !false_returns {
                            lemma_jump_is_no_return(blocks.last()@, end_label@);
                        }
                        assert(block_returns(blocks.last()@) == false_returns);
                    }
                }
                proof {
                    let blocks = self.function_context.compiled_blocks@;
                    assert(blocks[l0 + 1]@.label == Some(true_label@));
                    assert(exit_targets(blocks[l0]@) == Some(seq![true_label@, false_label@]));
                    assert(branch_end(blocks[f - 1]@, end_label@));
                    if true_returns && false_returns {
                        assert(f < blocks.len() ==> blocks[f]@.label == Some(false_label@)) by {
                            if f < blocks.len() {
                                assert(blocks[f]@.label == at_false.builder.block@.label);
                            }
                        }
                    }
                    if !true_returns {
                        assert(exit_targets(blocks[f - 1]@) == Some(seq![end_label@]));
                        lemma_jump_is_no_return(blocks[f - 1]@, end_label@);
                    }
                    lemma_cond_else_blocks(blocks, s0_n, suffix, self.builder.block@, self.builder.predecessors, l0, f,
                        true_returns, false_returns);
                }
            } else {
                self.unsupported = true;
            }
            },
            _ => {
                assert(false);
            },
        }
    }

    /// compile a block statement: the variables declared in it are forgotten at its end
    #[verifier::rlimit(60)]
    #[verifier::spinoff_prover]
    fn compile_block_stmt(&mut self, stmt: Statement<TypeMeta>)
        requires
            old(self).inv(),
            stmt_supported(stmt),
            stmt.item is Block,
        ensures
            final(self).continues(*old(self)),
            stmt.item matches StatementKind::Block { block } ==> (block.item.stmts@.len() == 1 ==>
                (block.item.stmts@[0].item matches StatementKind::Ass { r, expr } ==> (r.item matches ReferenceKind::Ident { ident } ==>
                    (var_view(old(self).block_context, ident@) is Some && is_atom(*expr)
                        && expr_compilable(*expr, old(self).block_context, old(self).global_context.struct_declarations)
                        ==> var_view(final(self).block_context, ident@) == Some(unique_entity(
                            atom_entity(*expr, old(self).block_context, old(self).function_context.available_uuid),
                            uuid_after(*expr, old(self).function_context.available_uuid))))))),
        decreases stmt, 0int,
    {
        let ghost s0 = stmt;
        match stmt.item {
            StatementKind::Block { block } => {
                // variables declared in the block are forgotten at its end
                let entered = self.enter_block();
                let ghost all = block.item.stmts@;
                let ghost start = *self;
                let mut rest = block.item.stmts;
                let total = rest.len();
                let mut k: usize = 0;
                while rest.len() > 0
                    invariant
                        self.continues(start),
                        start.inv(),
                        all.len() == total,
                        rest@.len() + k == all.len(),
                        forall|i: int| 0 <= i < rest@.len() ==> rest@[i] == all[k + i],
                        forall|i: int| 0 <= i < all.len() ==> stmt_supported(*#[trigger] all[i]),
                        s0.item matches StatementKind::Block { block: b } && b.item.stmts@ == all,
                        s0 == stmt,
                        k == 0 ==> *self == start,
                        all.len() == 1 && k == 1 ==> (all[0].item matches StatementKind::Ass { r, expr } ==> (r.item matches ReferenceKind::Ident { ident } ==>
                            (var_view(start.block_context, ident@) is Some && is_atom(*expr)
                                && expr_compilable(*expr, start.block_context, start.global_context.struct_declarations)
                                ==> self.assigned_atom(start, ident@, *expr)))),
                    decreases rest.len(),
                {
                    let st = rest.remove(0);
                    proof {
                        assert(st == all[k as int]);
                        assert(decreases_to!(s0 => *st));
                    }
                    self.compile_statement(*st);
                    k += 1;
                }
                let ghost before_leave = *self;
                if entered {
                    self.leave_block();
                }
                proof {
                    if all.len() == 1 {
                        match all[0].item {
                            StatementKind::Ass { r, expr } => {
                                match r.item {
                                    ReferenceKind::Ident { ident } => {
                                        if entered {
                                            assert(var_view(start.block_context, ident@) == var_view(old(self).block_context, ident@));
                                            assert(atom_entity(*expr, start.block_context, start.function_context.available_uuid)
                                                == atom_entity(*expr, old(self).block_context, old(self).function_context.available_uuid));
                                            if var_view(old(self).block_context, ident@) is Some && is_atom(*expr)
                                                && expr_compilable(*expr, old(self).block_context, old(self).global_context.struct_declarations) {
                                                reveal_with_fuel(expr_compilable, 2);
                                                assert(expr_compilable(*expr, start.block_context, start.global_context.struct_declarations));
                                                assert(start.block_context.env_stack@.last().lookup(ident@) is None);
                                                crate::backend::context::block::lemma_binding_depth(start.block_context.env_stack@.drop_last(), ident@);
                                                assert(crate::backend::context::block::binding_depth(start.block_context.env_stack@, ident@)
                                                    != start.block_context.env_stack@.len() - 1);
                                                assert(before_leave.block_context.env_stack@.last().lookup(ident@) is None);
                                            }
                                        }
                                    },
                                    _ => {},
                                }
                            },
                            _ => {},
                        }
                    }
                }
            },
            _ => {
                assert(false);
            },
        }
    }

    /// compile a statement: its instructions go to the blocks of the function, and the
    /// variables it declares or assigns are bound in the block context; a statement that the
    /// compiler cannot compile in the current context (a method call, a variable out of scope)
    /// is left out, and `unsupported` is set
    #[verifier::rlimit(80)]
    #[verifier::spinoff_prover]
    pub fn compile_statement(&mut self, stmt: Statement<TypeMeta>)
        requires
            old(self).inv(),
            stmt_supported(stmt),
        ensures
            final(self).continues(*old(self)),
            stmt.item is Empty ==> *final(self) == *old(self),
            stmt.item matches StatementKind::Return { expr } ==> (match expr {
                None => true,
                Some(e) => expr_compilable(*e, old(self).block_context, old(self).global_context.struct_declarations),
            } ==> final(self).builder.block@.instructions.len() > 0
                && crate::backend::ir::is_return(final(self).builder.block@.instructions.last().kind)),
            stmt.item matches StatementKind::Mut { r, op } ==> (r.item matches ReferenceKind::Ident { ident } ==>
                (var_view(old(self).block_context, ident@) is Some ==> var_view(final(self).block_context, ident@)
                    == Some(EntityV::Register { n: old(self).function_context.available_register, t: TypeV::Int }))),
            stmt.item matches StatementKind::Return { expr } ==> (match expr {
                None => true,
                Some(e) => is_atom(*e) && expr_compilable(*e, old(self).block_context, old(self).global_context.struct_declarations),
            } ==> final(self).builder.block@ == return_block(old(self).builder.block@, expr, old(self).block_context,
                old(self).function_context.available_uuid)
                && final(self).builder.predecessors == old(self).builder.predecessors
                && final(self).function_context.compiled_blocks@ == old(self).function_context.compiled_blocks@),
            stmt.item matches StatementKind::Mut { r, op } ==> (r.item matches ReferenceKind::Ident { ident } ==>
                (var_view(old(self).block_context, ident@) is Some ==> final(self).builder.block@
                    == mut_block(old(self).builder.block@, op, var_view(old(self).block_context, ident@)->0,
                        old(self).function_context.available_register))),
            stmt.item matches StatementKind::Decl { t, items } ==> forall|i: int| 0 <= i < items@.len() ==>
                ((#[trigger] items@[i]).item matches DeclItemKind::NoInit { ident } ==> var_view(final(self).block_context, ident@) is Some),
            stmt.item matches StatementKind::Decl { t, items } ==> forall|i: int| 0 <= i < items@.len()
                && (forall|j: int| i < j < items@.len() ==> declared_name(items@[j]) != declared_name(items@[i]))
                ==> ((#[trigger] items@[i]).item matches DeclItemKind::NoInit { ident }
                    ==> (var_view(final(self).block_context, ident@) matches Some(e) && default_of(t@, e))),
            stmt.item matches StatementKind::Decl { t, items } ==> (items@.len() == 1 ==> (items@[0].item matches DeclItemKind::NoInit { ident } ==>
                final(self).declared_default(*old(self), t@, ident@))),
            stmt.item matches StatementKind::Cond { expr, .. } ==> (expr_compilable(*expr, old(self).block_context, old(self).global_context.struct_declarations)
                ==> final(self).builder.block@.label == Some(suffixed("__cond__false__"@, old(self).global_context.available_label_suffix))),
            stmt.item matches StatementKind::Cond { expr, .. } ==> (expr_compilable(*expr, old(self).block_context, old(self).global_context.struct_declarations)
                ==> cond_blocks(final(self).function_context.compiled_blocks@, old(self).function_context.compiled_blocks@.len() as int,
                    old(self).global_context.available_label_suffix, final(self).builder.predecessors)),
            stmt.item matches StatementKind::CondElse { expr, .. } ==> (expr_compilable(*expr, old(self).block_context, old(self).global_context.struct_declarations)
                ==> cond_else_blocks(final(self).function_context.compiled_blocks@, old(self).function_context.compiled_blocks@.len() as int,
                    old(self).global_context.available_label_suffix, final(self).builder.block@, final(self).builder.predecessors)),
            stmt.item matches StatementKind::While { expr, .. } ==>
                final(self).builder.block@.label == Some(suffixed("__loop_end__"@, old(self).global_context.available_label_suffix)),
            stmt.item is While ==> loop_blocks(final(self).function_context.compiled_blocks@,
                old(self).function_context.compiled_blocks@.len() as int, old(self).global_context.available_label_suffix),
            stmt.item is While && !final(self).unsupported ==> exit_targets(final(self).function_context.compiled_blocks@.last()@)
                == Some(seq![suffixed("__loop_body__"@, old(self).global_context.available_label_suffix),
                    suffixed("__loop_end__"@, old(self).global_context.available_label_suffix)]),
            stmt.item matches StatementKind::Ass { r, expr } ==> (r.item matches ReferenceKind::Ident { ident } ==>
                (var_view(old(self).block_context, ident@) is Some
                    && expr_compilable(*expr, old(self).block_context, old(self).global_context.struct_declarations) ==>
                (var_view(final(self).block_context, ident@) matches Some(e)
                    && entity_type(e) == compiled_type(*expr, old(self).block_context, old(self).global_context.struct_declarations)))),
            stmt.item is Expr ==> final(self).block_context == old(self).block_context,
            stmt.item matches StatementKind::Ass { r, expr } ==> (r.item matches ReferenceKind::Ident { ident } ==>
                (var_view(old(self).block_context, ident@) is Some && is_atom(*expr)
                    && expr_compilable(*expr, old(self).block_context, old(self).global_context.struct_declarations)
                    ==> final(self).assigned_atom(*old(self), ident@, *expr))),
            stmt.item matches StatementKind::Block { block } ==> (block.item.stmts@.len() == 1 ==>
                (block.item.stmts@[0].item matches StatementKind::Ass { r, expr } ==> (r.item matches ReferenceKind::Ident { ident } ==>
                    (var_view(old(self).block_context, ident@) is Some && is_atom(*expr)
                        && expr_compilable(*expr, old(self).block_context, old(self).global_context.struct_declarations)
                        ==> var_view(final(self).block_context, ident@) == Some(unique_entity(
                            atom_entity(*expr, old(self).block_context, old(self).function_context.available_uuid),
                            uuid_after(*expr, old(self).function_context.available_uuid))))))),
        decreases stmt, 1int,
    {
        if is_cond_else_stmt(&stmt) {
            self.compile_cond_else(stmt);
            return;
        }
        if is_block_stmt(&stmt) {
            self.compile_block_stmt(stmt);
            return;
        }
        let ghost s0 = stmt;
        match stmt.item {
            StatementKind::Block { .. } => {
                assert(false);
            },
            StatementKind::Empty => {},
            StatementKind::Decl { t, items } => {
                self.compile_decl(t, items);
            },
            StatementKind::Ass { r, expr } => {
                if self.check_expr(&expr) {
                    match r.item {
                        ReferenceKind::Ident { ident } => {
                            if self.block_context.lookup_variable(&ident).is_some() {
                                // update local variable environment to reflect the change
                                let value_ent = self.compile_expression(*expr);
                                let entity = self.make_unique_entity(value_ent);
                                self.block_context.update_variable(ident, entity);
                            } else {
                                self.unsupported = true;
                            }
                        },
                        ReferenceKind::TypedObject { obj, cls, field } => {
                            if self.block_context.lookup_variable(&obj).is_some() && self.has_field_now(&cls, &field) {
                                let value_ent = self.compile_expression(*expr);
                                let struct_decl = self.global_context.get_struct_decl(&cls);
                                let field_idx = match struct_decl.field_env.get(&field) {
                                    Some(i) => *i,
                                    None => {
                                        assert(false);
                                        0
                                    },
                                };
                                let obj_ent = self.block_context.get_variable(&obj);

                                // get pointer to the struct member
                                let ptr_t = r.meta.t.reference();
                                let gep_instr = InstructionKind::GetStructElementPtr {
                                    container_type_name: struct_decl.llvm_name(),
                                    var: obj_ent,
                                    idx: Entity::Int { v: field_idx, uuid: 0 },
                                };
                                let gep_reg = self.fresh_register(ptr_t);
                                self.builder.push_instruction(gep_instr.with_result(gep_reg.copy()));

                                // store expression result at the pointer
                                let store_instr = InstructionKind::Store { val: value_ent, ptr: gep_reg };
                                self.builder.push_instruction(store_instr.without_result());
                            } else {
                                self.unsupported = true;
                            }
                        },
                        ReferenceKind::Array { arr, idx } => {
                            if self.check_expr(&idx) && self.is_array_var_now(&arr) {
                                // compile necessary getelementptr instructions
                                let value_ent = self.compile_expression(*expr);
                                let idx_ent = self.compile_expression(*idx);
                                let array_ent = self.block_context.get_variable(&arr);
                                let item_t = array_ent.get_array_item_t();
                                let gep_reg = self.compile_array_gep(item_t, array_ent, idx_ent);

                                // store entity at the location of array index
                                let store_instruction = InstructionKind::Store { val: value_ent, ptr: gep_reg };
                                self.builder.push_instruction(store_instruction.without_result());
                            } else {
                                self.unsupported = true;
                            }
                        },
                        _ => {
                            assert(false);
                        },
                    }
                } else {
                    self.unsupported = true;
                }
            },
            StatementKind::Mut { r, op } => {
                match r.item {
                    ReferenceKind::Ident { ident } => {
                        if self.block_context.lookup_variable(&ident).is_some() {
                            let var_ent = self.block_context.get_variable(&ident);

                            // perform the op on the extracted value
                            let binary_op = match op {
                                StatementOp::Increment => BinaryOperator::Plus,
                                StatementOp::Decrement => BinaryOperator::Minus,
                            };
                            let mut_op = InstructionKind::BinaryOp { op: binary_op, l: var_ent, r: Entity::Int { v: 1, uuid: 0 } };
                            let mut_result_ent = self.fresh_register(Type::Int);
                            self.builder.push_instruction(mut_op.with_result(mut_result_ent.copy()));

                            // update local variable environment to reflect the change
                            self.block_context.update_variable(ident, mut_result_ent);
                        } else {
                            self.unsupported = true;
                        }
                    },
                    _ => {
                        assert(false);
                    },
                }
            },
            StatementKind::Return { expr } => {
                match expr {
                    None => {
                        self.builder.push_instruction(InstructionKind::RetVoid.without_result());
                    },
                    Some(e) => {
                        if self.check_expr(&e) {
                            let result_ent = self.compile_expression(*e);
                            let ret = InstructionKind::RetVal { val: result_ent };
                            self.builder.push_instruction(ret.without_result());
                        } else {
                            self.unsupported = true;
                        }
                    },
                }
            },
            StatementKind::Cond { expr, stmt } => {
                let ghost s0_n = self.function_context.compiled_blocks@.len() as int;
                if self.check_expr(&expr) {
                    // create labels for all branches
                    let suffix = self.fresh_label_suffix();
                    let true_label = Self::label("__cond__true__", suffix);
                    let end_label = Self::label("__cond__false__", suffix);

                    // compile conditional expression, jump based on result
                    let cond_result = self.compile_expression(*expr);
                    let cond_jump_instr = InstructionKind::JumpCond {
                        cond: cond_result,
                        true_label: true_label.clone(),
                        false_label: end_label.clone(),
                    };
                    self.builder.push_instruction(cond_jump_instr.without_result());

                    // collect information for phi calculation
                    let in_label = self.builder.get_block_label();
                    let in_env = self.block_context.get_env_view();

                    // true branch
                    let ghost l0 = self.function_context.compiled_blocks@.len() as int;
                    self.next_block(true_label.clone());
                    self.add_pred(in_label.clone(), &in_env);
                    proof {
                        assert(decreases_to!(s0 => *stmt));
                        assert(exit_targets(self.function_context.compiled_blocks@[l0]@) == Some(seq![true_label@, end_label@]));
                    }
                    let ghost at_true = *self;
                    self.compile_statement(*stmt);
                    if !self.builder.block_always_returns() {
                        let jump_instr = InstructionKind::Jump { label: end_label.clone() };
                        self.builder.push_instruction(jump_instr.without_result());
                    }

                    // collect information for phi calculation (the true branch may end in another
                    // block than the one it begins with, when it holds nested branches or loops)
                    let true_env = self.block_context.get_env_view();
                    let true_end_label = self.builder.get_block_label();

                    // end = new current block, with additional predecessor (in_block)
                    let ghost before_end = *self;
                    self.next_block(end_label);
                    proof {
                        let blocks = self.function_context.compiled_blocks@;
                        assert(blocks[l0 + 1]@.label == Some(true_label@)) by {
                            if before_end.function_context.compiled_blocks@.len() > l0 + 1 {
                                assert(before_end.function_context.compiled_blocks@[l0 + 1]@.label == at_true.builder.block@.label);
                            }
                        }
                        assert(exit_targets(blocks[l0]@) == Some(seq![true_label@, end_label@]));
                        assert(blocks[l0]@.label == at_true.function_context.compiled_blocks@[l0]@.label);
                    }
                    self.add_pred(in_label, &in_env);
                    self.add_pred(true_end_label, &true_env);
                    proof {
                        let blocks = self.function_context.compiled_blocks@;
                        assert(blocks[l0 + 1]@.label == Some(true_label@));
                        assert(cond_blocks(blocks, s0_n, suffix, self.builder.predecessors));
                    }
                } else {
                    self.unsupported = true;
                }
            },
            StatementKind::CondElse { .. } => {
                assert(false);
            },
            StatementKind::While { expr, stmt } => {
                // get labels with unique suffix
                let suffix = self.fresh_label_suffix();
                let cond_label = Self::label("__loop_cond__", suffix);
                let loop_label = Self::label("__loop_body__", suffix);
                let end_label = Self::label("__loop_end__", suffix);

                // jump to condition evaluation sequence
                let cond_jump = InstructionKind::Jump { label: cond_label.clone() };
                self.builder.push_instruction(cond_jump.copy().without_result());

                // collect information for phi calculation
                let in_label = self.builder.get_block_label();
                let in_env = self.block_context.get_env_view();

                // compile loop body, that also jumps back to cond at the end
                // (the body block needs no predecessors)
                let ghost n0: int = self.function_context.compiled_blocks@.len() as int;
                self.next_block(loop_label.clone());
                proof {
                    assert(decreases_to!(s0 => *stmt));
                }
                let ghost before_body = *self;
                self.compile_statement(*stmt);
                self.builder.push_instruction(cond_jump.without_result());
                let body_env = self.block_context.get_env_view();
                let body_end_label = self.builder.get_block_label();

                // begin next block by evaluating necessary phi statements based on block variables
                let ghost before_cond = *self;
                self.next_block(cond_label);
                proof {
                    assert(self.function_context.compiled_blocks@[n0 + 1]@.label == Some(loop_label@)) by {
                        if before_cond.function_context.compiled_blocks@.len() > n0 + 1 {
                            assert(before_cond.function_context.compiled_blocks@[n0 + 1]@.label == before_body.builder.block@.label);
                        }
                    }
                }
                let ghost l1: int = self.function_context.compiled_blocks@.len() as int;
                let ghost at_cond = *self;
                self.add_pred(in_label, &in_env);
                self.add_pred(body_end_label, &body_env);

                // evaluate condition in a new block and jump to loop body or end
                if self.check_expr(&expr) {
                    let expr_result = self.compile_expression(*expr);
                    let loop_cond_jump = InstructionKind::JumpCond {
                        cond: expr_result,
                        true_label: loop_label,
                        false_label: end_label.clone(),
                    };
                    self.builder.push_instruction(loop_cond_jump.without_result());
                } else {
                    self.unsupported = true;
                }

                // start new block with loop end label, and fix mapping in 2 previous blocks
                let ghost before_end = *self;
                self.complete_loop_block(end_label);
                proof {
                    assert(self.function_context.compiled_blocks@[n0 + 1]@.label == Some(loop_label@));
                    assert(self.function_context.compiled_blocks@[l1]@.label == Some(cond_label@)) by {
                        if before_end.function_context.compiled_blocks@.len() > l1 {
                            assert(before_end.function_context.compiled_blocks@[l1]@.label == at_cond.builder.block@.label);
                        }
                    }
                    assert(loop_blocks(self.function_context.compiled_blocks@, n0, suffix));
                }
            },
            StatementKind::For { t: _, ident, arr, stmt } => {
                if self.check_expr(&arr) {
                    let suffix = self.fresh_label_suffix();
                    let cond_label = Self::label("__for_cond__", suffix);
                    let body_label = Self::label("__for_body__", suffix);
                    let end_label = Self::label("__for_end__", suffix);

                    // create variable i (index), dot prefix prevents conflicts with user variables
                    let index_uuid = self.fresh_uuid();
                    let index_ident = Self::label(".__i__", index_uuid);
                    let index_ent = Entity::Int { v: 0, uuid: self.fresh_uuid() };
                    let ghost bc0 = self.block_context;
                    let ghost structs0 = self.global_context.struct_declarations;
                    self.block_context.set_new_variable(index_ident.clone(), index_ent);

                    // create entity holding a pointer to the array
                    let arr_ok = self.check_expr(&arr);
                    if arr_ok {
                        let array_ent = self.compile_expression(*arr);
                        let is_array = match array_ent.get_type() {
                            Type::Array { .. } => true,
                            _ => false,
                        };
                        if is_array {
                            let array_item_t = array_ent.get_array_item_t();

                            // jump to condition evaluation sequence
                            let cond_jump = InstructionKind::Jump { label: cond_label.clone() };
                            self.builder.push_instruction(cond_jump.copy().without_result());

                            // collect information for phi calculation
                            let in_label = self.builder.get_block_label();
                            let in_env = self.block_context.get_env_view();

                            // compile loop body, that also jumps back to cond at the end
                            // (the body block needs no predecessors)
                            self.next_block(body_label.clone());

                            // get pointer to the current item from an array
                            let index_now = self.block_context.get_variable(&index_ident);
                            let gep_reg = self.compile_array_gep(array_item_t.copy(), array_ent.copy(), index_now);

                            // load current item from the pointer and update environment for the loop body
                            let load_reg = self.fresh_register(array_item_t.copy());
                            let load_instr = InstructionKind::Load { ptr: gep_reg };
                            self.builder.push_instruction(load_instr.with_result(load_reg.copy()));
                            self.block_context.set_new_variable(ident.clone(), load_reg);

                            // compile block body
                            proof {
                                assert(decreases_to!(s0 => *stmt));
                            }
                            self.compile_statement(*stmt);

                            // increment index
                            match self.block_context.lookup_variable(&index_ident) {
                                Some(index_var) => {
                                    let increment_instr = InstructionKind::BinaryOp {
                                        op: BinaryOperator::Plus,
                                        l: index_var,
                                        r: Entity::Int { v: 1, uuid: 0 },
                                    };
                                    let increment_ent = self.fresh_register(Type::Int);
                                    self.builder.push_instruction(increment_instr.with_result(increment_ent.copy()));
                                    self.block_context.update_variable(index_ident.clone(), increment_ent);
                                },
                                None => {},
                            }

                            // jump to loop cond evaluation block
                            self.builder.push_instruction(cond_jump.without_result());

                            // remove item variable so that no excessive phi nodes are generated
                            self.block_context.remove_variable(&ident);
                            let body_env = self.block_context.get_env_view();
                            let body_end_label = self.builder.get_block_label();

                            // begin next block by evaluating necessary phi statements based on block variables
                            self.next_block(cond_label);
                            self.add_pred(in_label, &in_env);
                            self.add_pred(body_end_label, &body_env);

                            // get array length
                            let array_struct = self.global_context.get_or_declare_array_struct(&array_item_t);
                            let length_gep_instr = InstructionKind::GetStructElementPtr {
                                container_type_name: array_struct.llvm_name(),
                                var: array_ent,
                                idx: Entity::Int { v: 0, uuid: 0 },
                            };
                            let length_gep_reg = self.fresh_register(Type::Int.reference());
                            self.builder.push_instruction(length_gep_instr.with_result(length_gep_reg.copy()));
                            let length_load_reg = self.fresh_register(Type::Int);
                            let length_load_instr = InstructionKind::Load { ptr: length_gep_reg };
                            self.builder.push_instruction(length_load_instr.with_result(length_load_reg.copy()));

                            // evaluate loop condition (index < length) and jump
                            match self.block_context.lookup_variable(&index_ident) {
                                Some(index_var) => {
                                    let less_instr = InstructionKind::BinaryOp {
                                        op: BinaryOperator::Less,
                                        l: index_var,
                                        r: length_load_reg,
                                    };
                                    let less_result = self.fresh_register(Type::Bool);
                                    self.builder.push_instruction(less_instr.with_result(less_result.copy()));
                                    let loop_cond_jump = InstructionKind::JumpCond {
                                        cond: less_result,
                                        true_label: body_label,
                                        false_label: end_label.clone(),
                                    };
                                    self.builder.push_instruction(loop_cond_jump.without_result());
                                },
                                None => {},
                            }

                            // start new block with loop end label, and fix mapping in 2 previous blocks
                            self.complete_loop_block(end_label);
                        } else {
                            self.unsupported = true;
                        }
                    } else {
                        self.unsupported = true;
                    }
                } else {
                    self.unsupported = true;
                }
            },
            StatementKind::Expr { expr } => {
                if self.check_expr(&expr) {
                    self.compile_expression(*expr);
                } else {
                    self.unsupported = true;
                }
            },
            _ => {},
        }
    }

    /// enter a nested scope of variables (unless the depth cannot grow any more)
    fn enter_block(&mut self) -> (r: bool)
        requires
            old(self).inv(),
        ensures
            final(self).unsupported == old(self).unsupported,
            final(self).lazy_in_memory == old(self).lazy_in_memory,
            final(self).inv(),
            r == (old(self).block_context.current_depth < usize::MAX),
            r ==> final(self).block_context.current_depth == old(self).block_context.current_depth + 1
                && final(self).block_context.env_stack@.drop_last() == old(self).block_context.env_stack@
                && final(self).block_context.env_stack@.last().entries@.len() == 0
                && forall|k: Seq<char>| final(self).block_context.spec_get(k) == old(self).block_context.spec_get(k),
            !r ==> final(self).block_context == old(self).block_context,
            final(self).builder == old(self).builder,
            final(self).global_context == old(self).global_context,
            final(self).function_context == old(self).function_context,
    {
        if self.block_context.current_depth < usize::MAX {
            self.block_context.increase_depth();
            true
        } else {
            false
        }
    }

    /// leave a nested scope of variables
    fn leave_block(&mut self)
        requires
            old(self).inv(),
            old(self).block_context.current_depth > 0,
        ensures
            final(self).unsupported == old(self).unsupported,
            final(self).lazy_in_memory == old(self).lazy_in_memory,
            final(self).inv(),
            final(self).block_context.current_depth == old(self).block_context.current_depth - 1,
            final(self).block_context.env_stack@ == old(self).block_context.env_stack@.drop_last(),
            final(self).builder == old(self).builder,
            final(self).global_context == old(self).global_context,
            final(self).function_context == old(self).function_context,
    {
        self.block_context.decrease_depth();
    }

    /// compile a function: its arguments are named registers, and its body becomes a list of
    /// basic blocks
    pub fn compile_function(&mut self, function: Function<TypeMeta>) -> (r: FunctionDef)
        requires
            old(self).inv(),
            forall|i: int| 0 <= i < function.item.block.item.stmts@.len() ==> stmt_supported(*#[trigger] function.item.block.item.stmts@[i]),
        ensures
            final(self).inv(),
            r.name@ == function_name(function.item.ident@),
            r.ret_type@ == function.item.ret@,
            r.args@.len() == function.item.args@.len(),
            forall|i: int| 0 <= i < r.args@.len() ==> (#[trigger] r.args@[i]).ident@ == function.item.args@[i].item.ident@
                && r.args@[i].t@ == function.item.args@[i].meta.t@,
            r.body@.len() >= old(self).function_context.compiled_blocks@.len() + 1,
            r.body@[old(self).function_context.compiled_blocks@.len() as int]@.label == old(self).builder.block@.label,
            final(self).function_context.compiled_blocks@.len() == 0,
            final(self).global_context.struct_declarations == old(self).global_context.struct_declarations,
            final(self).global_context.function_declarations == old(self).global_context.function_declarations,
            final(self).global_context.struct_vtable_declarations == old(self).global_context.struct_vtable_declarations,
            function.item.args@.len() == 0 && function.item.block.item.stmts@.len() == 1 && old(self).builder.predecessors.entries@.len() < 2
                ==> (function.item.block.item.stmts@[0].item matches StatementKind::Return { expr } ==> (match expr {
                    None => true,
                    Some(e) => is_atom(*e) && expr_compilable(*e, old(self).block_context, old(self).global_context.struct_declarations),
                } ==> r.body@.len() == old(self).function_context.compiled_blocks@.len() + 1
                    && r.body@[old(self).function_context.compiled_blocks@.len() as int]@ == return_block(old(self).builder.block@, expr,
                        old(self).block_context, old(self).function_context.available_uuid))),
    {
        // collect function argument info
        let mut args: Vec<ArgItem> = Vec::new();
        let mut i: usize = 0;
        while i < function.item.args.len()
            invariant
                self.inv(),
                i <= function.item.args@.len(),
                args@.len() == i,
                forall|j: int| 0 <= j < i ==> (#[trigger] args@[j]).ident@ == function.item.args@[j].item.ident@
                    && args@[j].t@ == function.item.args@[j].meta.t@,
                self.function_context == old(self).function_context,
                self.global_context == old(self).global_context,
                self.builder == old(self).builder,
                i == 0 ==> self.block_context == old(self).block_context,
            decreases function.item.args.len() - i,
        {
            let arg = &function.item.args[i];
            // collect variable types in case the caller needs to cast the passed arguments later
            let arg_type = arg.get_type();
            args.push(ArgItem { t: arg_type.copy(), ident: arg.item.ident.clone() });

            // mark location of the variable in the block environment
            let arg_ent = Entity::NamedRegister { name: arg.item.ident.clone(), t: arg_type };
            self.block_context.set_new_variable(arg.item.ident.clone(), arg_ent);
            i += 1;
        }

        // compile function instructions
        let ident = function.item.ident;
        let ret_type = function.item.ret;
        let ghost all = function.item.block.item.stmts@;
        let ghost start = *self;
        let mut rest = function.item.block.item.stmts;
        let total = rest.len();
        let mut k: usize = 0;
        while rest.len() > 0
            invariant
                self.continues(start),
                start.inv(),
                start.function_context == old(self).function_context,
                start.global_context == old(self).global_context,
                start.builder == old(self).builder,
                all.len() == total,
                rest@.len() + k == all.len(),
                forall|i: int| 0 <= i < rest@.len() ==> rest@[i] == all[k + i],
                forall|i: int| 0 <= i < all.len() ==> stmt_supported(*#[trigger] all[i]),
                k == 0 ==> *self == start,
                all.len() == 1 && k == 1 ==> (all[0].item matches StatementKind::Return { expr } ==> (match expr {
                    None => true,
                    Some(e) => is_atom(*e) && expr_compilable(*e, start.block_context, start.global_context.struct_declarations),
                } ==> self.builder.block@ == return_block(start.builder.block@, expr, start.block_context, start.function_context.available_uuid)
                    && self.builder.predecessors == start.builder.predecessors
                    && self.function_context.compiled_blocks@ == start.function_context.compiled_blocks@)),
            decreases rest.len(),
        {
            let st = rest.remove(0);
            proof {
                assert(st == all[k as int]);
            }
            self.compile_statement(*st);
            k += 1;
        }

        // finish the last block
        self.next_block(String::new());
        let body = self.function_context.conclude();
        self.builder = BlockBuilder::without_label();

        // build the LLVM function
        FunctionDef {
            name: self.global_context.get_function_name(&ident),
            ret_type,
            args,
            body,
        }
    }
}

/// the model of instructions after three pushes (helper to state the model of a block)
pub open spec fn instructions_view_push3(before: Seq<InstructionV>, after: Seq<crate::backend::ir::Instruction>) -> Seq<InstructionV> {
    before.push(instruction_view(after[after.len() - 3])).push(instruction_view(after[after.len() - 2])).push(instruction_view(after[after.len() - 1]))
}

} // verus!
