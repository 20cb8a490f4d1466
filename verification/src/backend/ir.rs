//! Intermediate representation: a subset of LLVM IR.
//!
//! internal type representation (as argument or object member):
//! string: pointer to an array of characters, passed by value;
//! int, bool: passed by value;
//! array: pointer to array, passed by value;
//! object: pointer to struct, passed by value
use vstd::prelude::*;

use crate::frontend::ast::{ArgItem, BinaryOperator, Type, TypeV, UnaryOperator};
use crate::meta::{GetType, Meta};
use crate::util::env::Env;

verus! {

/// represents anything that can be passed as argument to LLVM operation;
/// uuid fields are necessary for constants to differentiate between variables with same,
/// constant value
#[derive(Debug, PartialEq)]
pub enum Entity {
    Null { uuid: usize, t: Type },
    Int { v: i32, uuid: usize },
    Bool { v: bool, uuid: usize },
    Register { n: usize, t: Type },
    NamedRegister { name: String, t: Type },
    GlobalConstInt { name: String },
}

/// mathematical model of an entity
pub enum EntityV {
    Null { uuid: usize, t: TypeV },
    Int { v: i32, uuid: usize },
    Bool { v: bool, uuid: usize },
    Register { n: usize, t: TypeV },
    NamedRegister { name: Seq<char>, t: TypeV },
    GlobalConstInt { name: Seq<char> },
}

impl View for Entity {
    type V = EntityV;

    open spec fn view(&self) -> EntityV {
        match self {
            Entity::Null { uuid, t } => EntityV::Null { uuid: *uuid, t: t@ },
            Entity::Int { v, uuid } => EntityV::Int { v: *v, uuid: *uuid },
            Entity::Bool { v, uuid } => EntityV::Bool { v: *v, uuid: *uuid },
            Entity::Register { n, t } => EntityV::Register { n: *n, t: t@ },
            Entity::NamedRegister { name, t } => EntityV::NamedRegister { name: name@, t: t@ },
            Entity::GlobalConstInt { name } => EntityV::GlobalConstInt { name: name@ },
        }
    }
}

/// type of the value an entity stands for
pub open spec fn entity_type(e: EntityV) -> TypeV {
    match e {
        EntityV::Null { t, .. } => t,
        EntityV::Int { .. } => TypeV::Int,
        EntityV::Bool { .. } => TypeV::Bool,
        EntityV::Register { t, .. } => t,
        EntityV::NamedRegister { t, .. } => t,
        EntityV::GlobalConstInt { .. } => TypeV::Reference { t: Box::new(TypeV::Int) },
    }
}

/// models of a sequence of entities
pub open spec fn entities_view(s: Seq<Entity>) -> Seq<EntityV> {
    Seq::new(s.len(), |i: int| s[i]@)
}

impl Entity {
    /// copy of the entity
    pub fn copy(&self) -> (r: Entity)
        ensures
            r@ == self@,
    {
        match self {
            Entity::Null { uuid, t } => Entity::Null { uuid: *uuid, t: t.copy() },
            Entity::Int { v, uuid } => Entity::Int { v: *v, uuid: *uuid },
            Entity::Bool { v, uuid } => Entity::Bool { v: *v, uuid: *uuid },
            Entity::Register { n, t } => Entity::Register { n: *n, t: t.copy() },
            Entity::NamedRegister { name, t } => Entity::NamedRegister { name: name.clone(), t: t.copy() },
            Entity::GlobalConstInt { name } => Entity::GlobalConstInt { name: name.clone() },
        }
    }

    /// compares two entities
    pub fn equals(&self, other: &Entity) -> (r: bool)
        ensures
            r == (self@ == other@),
    {
        match (self, other) {
            (Entity::Null { uuid: a, t: ta }, Entity::Null { uuid: b, t: tb }) => *a == *b && ta.equals(tb),
            (Entity::Int { v: a, uuid: ua }, Entity::Int { v: b, uuid: ub }) => *a == *b && *ua == *ub,
            (Entity::Bool { v: a, uuid: ua }, Entity::Bool { v: b, uuid: ub }) => *a == *b && *ua == *ub,
            (Entity::Register { n: a, t: ta }, Entity::Register { n: b, t: tb }) => *a == *b && ta.equals(tb),
            (Entity::NamedRegister { name: a, t: ta }, Entity::NamedRegister { name: b, t: tb }) => *a == *b && ta.equals(tb),
            (Entity::GlobalConstInt { name: a }, Entity::GlobalConstInt { name: b }) => *a == *b,
            _ => false,
        }
    }

    /// interprets entity as array, returns type of its item
    pub fn get_array_item_t(&self) -> (r: Type)
        requires
            entity_type(self@) is Array,
        ensures
            entity_type(self@) == (TypeV::Array { item_t: Box::new(r@) }),
    {
        let t = self.get_type();
        match t {
            Type::Array { item_t } => *item_t,
            _ => {
                assert(false);
                Type::Error
            },
        }
    }
}

impl GetType for Entity {
    fn get_type(&self) -> (r: Type)
        ensures
            r@ == entity_type(self@),
    {
        match self {
            Entity::Null { uuid: _, t } => t.copy(),
            Entity::Int { .. } => Type::Int,
            Entity::Bool { .. } => Type::Bool,
            Entity::Register { n: _, t } => t.copy(),
            Entity::NamedRegister { name: _, t } => t.copy(),
            Entity::GlobalConstInt { .. } => Type::Reference { t: Box::new(Type::Int) },
        }
    }
}

/// copy of a sequence of entities
pub fn copy_entities(s: &Vec<Entity>) -> (r: Vec<Entity>)
    ensures
        entities_view(r@) == entities_view(s@),
{
    let mut r: Vec<Entity> = Vec::new();
    let mut i: usize = 0;
    while i < s.len()
        invariant
            i <= s.len(),
            r.len() == i,
            forall|j: int| 0 <= j < i ==> r@[j]@ == s@[j]@,
        decreases s.len() - i,
    {
        r.push(s[i].copy());
        i += 1;
    }
    assert(entities_view(r@) =~= entities_view(s@));
    r
}

#[derive(Debug, PartialEq)]
pub enum InstructionKind {
    Alloc { t: Type },
    Load { ptr: Entity },
    Store { val: Entity, ptr: Entity },
    GetStructElementPtr { container_type_name: String, var: Entity, idx: Entity },
    GetArrayElementPtr { item_t: Type, var: Entity, idx: Entity },
    LoadConst { name: String, len: usize },
    BitCast { ent: Entity, to: Type },
    UnaryOp { op: UnaryOperator, arg: Entity },
    BinaryOp { op: BinaryOperator, l: Entity, r: Entity },
    Call { func: String, args: Vec<Entity> },
    RetVal { val: Entity },
    RetVoid,
    JumpCond { cond: Entity, true_label: String, false_label: String },
    Jump { label: String },
    Phi { args: Vec<(Entity, String)> },
}

/// mathematical model of an instruction kind
pub enum InstructionKindV {
    Alloc { t: TypeV },
    Load { ptr: EntityV },
    Store { val: EntityV, ptr: EntityV },
    GetStructElementPtr { container_type_name: Seq<char>, var: EntityV, idx: EntityV },
    GetArrayElementPtr { item_t: TypeV, var: EntityV, idx: EntityV },
    LoadConst { name: Seq<char>, len: usize },
    BitCast { ent: EntityV, to: TypeV },
    UnaryOp { op: UnaryOperator, arg: EntityV },
    BinaryOp { op: BinaryOperator, l: EntityV, r: EntityV },
    Call { func: Seq<char>, args: Seq<EntityV> },
    RetVal { val: EntityV },
    RetVoid,
    JumpCond { cond: EntityV, true_label: Seq<char>, false_label: Seq<char> },
    Jump { label: Seq<char> },
    Phi { args: Seq<(EntityV, Seq<char>)> },
}

/// models of the arguments of a phi instruction
pub open spec fn phi_args_view(s: Seq<(Entity, String)>) -> Seq<(EntityV, Seq<char>)> {
    Seq::new(s.len(), |i: int| (s[i].0@, s[i].1@))
}

impl View for InstructionKind {
    type V = InstructionKindV;

    open spec fn view(&self) -> InstructionKindV {
        match self {
            InstructionKind::Alloc { t } => InstructionKindV::Alloc { t: t@ },
            InstructionKind::Load { ptr } => InstructionKindV::Load { ptr: ptr@ },
            InstructionKind::Store { val, ptr } => InstructionKindV::Store { val: val@, ptr: ptr@ },
            InstructionKind::GetStructElementPtr { container_type_name, var, idx } =>
                InstructionKindV::GetStructElementPtr {
                    container_type_name: container_type_name@,
                    var: var@,
                    idx: idx@,
                },
            InstructionKind::GetArrayElementPtr { item_t, var, idx } =>
                InstructionKindV::GetArrayElementPtr { item_t: item_t@, var: var@, idx: idx@ },
            InstructionKind::LoadConst { name, len } => InstructionKindV::LoadConst { name: name@, len: *len },
            InstructionKind::BitCast { ent, to } => InstructionKindV::BitCast { ent: ent@, to: to@ },
            InstructionKind::UnaryOp { op, arg } => InstructionKindV::UnaryOp { op: *op, arg: arg@ },
            InstructionKind::BinaryOp { op, l, r } => InstructionKindV::BinaryOp { op: *op, l: l@, r: r@ },
            InstructionKind::Call { func, args } => InstructionKindV::Call { func: func@, args: entities_view(args@) },
            InstructionKind::RetVal { val } => InstructionKindV::RetVal { val: val@ },
            InstructionKind::RetVoid => InstructionKindV::RetVoid,
            InstructionKind::JumpCond { cond, true_label, false_label } => InstructionKindV::JumpCond {
                cond: cond@,
                true_label: true_label@,
                false_label: false_label@,
            },
            InstructionKind::Jump { label } => InstructionKindV::Jump { label: label@ },
            InstructionKind::Phi { args } => InstructionKindV::Phi { args: phi_args_view(args@) },
        }
    }
}

/// an instruction, with the entity that receives its result (if any)
pub type Instruction = Meta<InstructionKind, Option<Entity>>;

/// mathematical model of an instruction
pub struct InstructionV {
    pub kind: InstructionKindV,
    pub result: Option<EntityV>,
}

/// model of an optional entity
pub open spec fn opt_entity_view(e: Option<Entity>) -> Option<EntityV> {
    match e {
        Some(x) => Some(x@),
        None => None,
    }
}

/// model of an instruction
pub open spec fn instruction_view(i: Instruction) -> InstructionV {
    InstructionV { kind: i.item@, result: opt_entity_view(i.meta) }
}

/// models of a sequence of instructions
pub open spec fn instructions_view(s: Seq<Instruction>) -> Seq<InstructionV> {
    Seq::new(s.len(), |i: int| instruction_view(s[i]))
}

impl InstructionKind {
    /// copy of the instruction kind
    pub fn copy(&self) -> (r: InstructionKind)
        ensures
            r@ == self@,
    {
        match self {
            InstructionKind::Alloc { t } => InstructionKind::Alloc { t: t.copy() },
            InstructionKind::Load { ptr } => InstructionKind::Load { ptr: ptr.copy() },
            InstructionKind::Store { val, ptr } => InstructionKind::Store { val: val.copy(), ptr: ptr.copy() },
            InstructionKind::GetStructElementPtr { container_type_name, var, idx } => InstructionKind::GetStructElementPtr {
                container_type_name: container_type_name.clone(),
                var: var.copy(),
                idx: idx.copy(),
            },
            InstructionKind::GetArrayElementPtr { item_t, var, idx } => InstructionKind::GetArrayElementPtr {
                item_t: item_t.copy(),
                var: var.copy(),
                idx: idx.copy(),
            },
            InstructionKind::LoadConst { name, len } => InstructionKind::LoadConst { name: name.clone(), len: *len },
            InstructionKind::BitCast { ent, to } => InstructionKind::BitCast { ent: ent.copy(), to: to.copy() },
            InstructionKind::UnaryOp { op, arg } => InstructionKind::UnaryOp { op: *op, arg: arg.copy() },
            InstructionKind::BinaryOp { op, l, r } => InstructionKind::BinaryOp { op: *op, l: l.copy(), r: r.copy() },
            InstructionKind::Call { func, args } => InstructionKind::Call { func: func.clone(), args: copy_entities(args) },
            InstructionKind::RetVal { val } => InstructionKind::RetVal { val: val.copy() },
            InstructionKind::RetVoid => InstructionKind::RetVoid,
            InstructionKind::JumpCond { cond, true_label, false_label } => InstructionKind::JumpCond {
                cond: cond.copy(),
                true_label: true_label.clone(),
                false_label: false_label.clone(),
            },
            InstructionKind::Jump { label } => InstructionKind::Jump { label: label.clone() },
            InstructionKind::Phi { args } => {
                let mut r: Vec<(Entity, String)> = Vec::new();
                let mut i: usize = 0;
                while i < args.len()
                    invariant
                        i <= args@.len(),
                        r@.len() == i,
                        forall|j: int| 0 <= j < i ==> r@[j].0@ == args@[j].0@ && r@[j].1@ == args@[j].1@,
                    decreases args.len() - i,
                {
                    r.push((args[i].0.copy(), args[i].1.clone()));
                    i += 1;
                }
                assert(phi_args_view(r@) =~= phi_args_view(args@));
                InstructionKind::Phi { args: r }
            },
        }
    }

    /// convert to an instruction without a result
    pub fn without_result(self) -> (r: Instruction)
        ensures
            r.item == self,
            r.meta is None,
    {
        Meta::new(self, None)
    }

    /// convert to an instruction with provided result entity
    pub fn with_result(self, result: Entity) -> (r: Instruction)
        ensures
            r.item == self,
            r.meta == Some(result),
    {
        Meta::new(self, Some(result))
    }
}

/// access to the result entity of an instruction
pub trait GetEntity {
    spec fn spec_result(&self) -> Option<Entity>;

    fn get_entity(&self) -> (r: Entity)
        requires
            self.spec_result() is Some,
        ensures
            r@ == self.spec_result()->0@,
    ;

    fn has_result_entity(&self) -> (r: bool)
        ensures
            r == self.spec_result() is Some,
    ;
}

impl GetEntity for Instruction {
    open spec fn spec_result(&self) -> Option<Entity> {
        self.meta
    }

    fn get_entity(&self) -> (r: Entity) {
        match &self.meta {
            Some(entity) => entity.copy(),
            None => {
                assert(false);
                Entity::Null { uuid: 0, t: Type::Null }
            },
        }
    }

    fn has_result_entity(&self) -> (r: bool) {
        self.meta.is_some()
    }
}

impl GetType for Instruction {
    /// type of the result entity (an instruction without one is given type `Void`)
    fn get_type(&self) -> (r: Type)
        ensures
            self.meta matches Some(e) ==> r@ == entity_type(e@),
            self.meta is None ==> r@ == TypeV::Void,
    {
        match &self.meta {
            Some(e) => e.get_type(),
            None => Type::Void,
        }
    }
}

#[derive(Debug, PartialEq)]
pub struct BasicBlock {
    pub label: Option<String>,
    pub instructions: Vec<Instruction>,
}

/// mathematical model of a basic block
pub struct BasicBlockV {
    pub label: Option<Seq<char>>,
    pub instructions: Seq<InstructionV>,
}

impl View for BasicBlock {
    type V = BasicBlockV;

    open spec fn view(&self) -> BasicBlockV {
        BasicBlockV {
            label: match self.label {
                Some(l) => Some(l@),
                None => None,
            },
            instructions: instructions_view(self.instructions@),
        }
    }
}

/// does the instruction return from the function?
pub open spec fn is_return(k: InstructionKindV) -> bool {
    k is RetVoid || k is RetVal
}

/// register number of a result entity, if it is a register
pub open spec fn register_number(e: Option<EntityV>) -> Option<usize> {
    match e {
        Some(EntityV::Register { n, .. }) => Some(n),
        _ => None,
    }
}

/// the result register of `s` with the lowest number (the first of them in `s` where several
/// have it), if any instruction has a register as its result
pub open spec fn lowest_register(s: Seq<InstructionV>) -> Option<EntityV>
    decreases s.len(),
{
    if s.len() == 0 {
        None
    } else {
        let rest = lowest_register(s.drop_first());
        match register_number(s[0].result) {
            Some(n) => match register_number(rest) {
                Some(m) => if m < n { rest } else { s[0].result },
                None => s[0].result,
            },
            None => rest,
        }
    }
}

/// the lowest register of a block is the result of one of its instructions, and no result
/// register of the block has a lower number
pub proof fn lemma_lowest_register(s: Seq<InstructionV>)
    ensures
        lowest_register(s) is None <==> forall|i: int| 0 <= i < s.len() ==> register_number(#[trigger] s[i].result) is None,
        lowest_register(s) is Some ==> register_number(lowest_register(s)) is Some
            && exists|i: int| 0 <= i < s.len() && s[i].result == lowest_register(s),
        forall|i: int| 0 <= i < s.len() && register_number(#[trigger] s[i].result) is Some
            ==> register_number(lowest_register(s))->0 <= register_number(s[i].result)->0,
    decreases s.len(),
{
    if s.len() > 0 {
        let t = s.drop_first();
        lemma_lowest_register(t);
        assert forall|i: int| 0 < i < s.len() implies #[trigger] s[i] == t[i - 1] by {}
        if lowest_register(s) is Some && lowest_register(s) != s[0].result {
            let i = choose|i: int| 0 <= i < t.len() && t[i].result == lowest_register(t);
            assert(s[i + 1] == t[i]);
        }
        assert forall|i: int| 0 <= i < s.len() && register_number(#[trigger] s[i].result) is Some
            implies register_number(lowest_register(s))->0 <= register_number(s[i].result)->0 by {
            if i > 0 {
                assert(s[i] == t[i - 1]);
            }
        }
        if forall|i: int| 0 <= i < s.len() ==> register_number(#[trigger] s[i].result) is None {
            assert(register_number(s[0].result) is None);
            assert forall|i: int| 0 <= i < t.len() implies register_number(#[trigger] t[i].result) is None by {
                assert(t[i] == s[i + 1]);
            }
        }
    }
}

/// label of a block: its own, or the unnamed label "0"
pub open spec fn block_label(l: Option<Seq<char>>) -> Seq<char> {
    match l {
        Some(s) => s,
        None => seq!['0'],
    }
}

/// copy of an instruction
pub fn copy_instruction(i: &Instruction) -> (r: Instruction)
    ensures
        instruction_view(r) == instruction_view(*i),
{
    let result = match &i.meta {
        Some(e) => Some(e.copy()),
        None => None,
    };
    Meta::new(i.item.copy(), result)
}

impl BasicBlock {
    /// copy of the block
    pub fn copy(&self) -> (r: BasicBlock)
        ensures
            r@ == self@,
    {
        let mut instructions: Vec<Instruction> = Vec::new();
        let mut i: usize = 0;
        while i < self.instructions.len()
            invariant
                i <= self.instructions@.len(),
                instructions@.len() == i,
                forall|j: int| 0 <= j < i ==> instruction_view(instructions@[j]) == instruction_view(self.instructions@[j]),
            decreases self.instructions.len() - i,
        {
            instructions.push(copy_instruction(&self.instructions[i]));
            i += 1;
        }
        let label = match &self.label {
            Some(l) => Some(l.clone()),
            None => None,
        };
        let r = BasicBlock { label, instructions };
        assert(r@.instructions =~= self@.instructions);
        r
    }

    /// checks if the block ends with a return instruction
    pub fn always_returns(&self) -> (r: bool)
        ensures
            r == (self.instructions@.len() > 0 && is_return(self.instructions@.last().item@)),
    {
        if self.instructions.len() > 0 {
            let last = &self.instructions[self.instructions.len() - 1];
            match &last.item {
                InstructionKind::RetVoid => true,
                InstructionKind::RetVal { .. } => true,
                _ => false,
            }
        } else {
            false
        }
    }

    /// get the lowest register number used within the block (the result register with the
    /// lowest number)
    pub fn get_first_register(&self) -> (r: Option<Entity>)
        ensures
            opt_entity_view(r) == lowest_register(self@.instructions),
    {
        let ghost s = self@.instructions;
        let mut best: Option<Entity> = None;
        let mut best_n: usize = 0;
        let mut i: usize = self.instructions.len();
        assert(s.subrange(s.len() as int, s.len() as int) =~= Seq::<InstructionV>::empty());
        while i > 0
            invariant
                i <= self.instructions@.len(),
                s == instructions_view(self.instructions@),
                opt_entity_view(best) == lowest_register(s.subrange(i as int, s.len() as int)),
                register_number(opt_entity_view(best)) matches Some(m) ==> m == best_n,
            decreases i,
        {
            i -= 1;
            proof {
                assert(s.subrange(i as int, s.len() as int).drop_first() =~= s.subrange(i + 1, s.len() as int));
                assert(s.subrange(i as int, s.len() as int)[0] == s[i as int]);
            }
            match &self.instructions[i].meta {
                Some(e) => match e {
                    Entity::Register { n, .. } => {
                        let take = match &best {
                            Some(Entity::Register { .. }) => best_n >= *n,
                            _ => true,
                        };
                        if take {
                            best = Some(e.copy());
                            best_n = *n;
                        }
                    },
                    _ => {},
                },
                None => {},
            }
        }
        assert(s.subrange(0, s.len() as int) =~= s);
        best
    }

    /// get block label name, or unnamed label 0
    pub fn get_label(&self) -> (r: String)
        ensures
            r@ == block_label(self@.label),
    {
        match &self.label {
            Some(label) => label.clone(),
            None => {
                let r = String::from_str("0");
                proof {
                    reveal_strlit("0");
                }
                r
            },
        }
    }
}

#[derive(Debug)]
pub struct StructDecl {
    /// name of the structure
    pub name: String,
    /// name of the constant representing the structure size
    pub size_constant_name: String,
    /// field types in fixed order
    pub fields: Vec<Type>,
    /// mapping: field name => field index
    pub field_env: Env<i32>,
}

/// mathematical model of a structure declaration
pub struct StructDeclV {
    pub name: Seq<char>,
    pub size_constant_name: Seq<char>,
    pub fields: Seq<TypeV>,
    pub field_env: Map<Seq<char>, i32>,
}

/// models of a sequence of types
pub open spec fn type_seq_view(s: Seq<Type>) -> Seq<TypeV> {
    Seq::new(s.len(), |i: int| s[i]@)
}

impl View for StructDecl {
    type V = StructDeclV;

    open spec fn view(&self) -> StructDeclV {
        StructDeclV {
            name: self.name@,
            size_constant_name: self.size_constant_name@,
            fields: type_seq_view(self.fields@),
            field_env: crate::util::env::map_of(self.field_env.entries@),
        }
    }
}

/// copy of an environment of indices
pub fn copy_index_env(e: &Env<i32>) -> (r: Env<i32>)
    ensures
        r.entries@.len() == e.entries@.len(),
        forall|i: int| 0 <= i < e.entries@.len() ==> (#[trigger] r.entries@[i]).0@ == e.entries@[i].0@ && r.entries@[i].1 == e.entries@[i].1,
        r.wf() == e.wf(),
        crate::util::env::map_of(r.entries@) == crate::util::env::map_of(e.entries@),
        forall|k: Seq<char>| #[trigger] r.lookup(k) == e.lookup(k),
{
    let mut entries: Vec<(String, i32)> = Vec::new();
    let mut i: usize = 0;
    while i < e.entries.len()
        invariant
            i <= e.entries@.len(),
            entries@.len() == i,
            forall|j: int| 0 <= j < i ==> (#[trigger] entries@[j]).0@ == e.entries@[j].0@ && entries@[j].1 == e.entries@[j].1,
        decreases e.entries.len() - i,
    {
        entries.push((e.entries[i].0.clone(), e.entries[i].1));
        i += 1;
    }
    let r = Env { entries };
    proof {
        assert forall|k: Seq<char>| #[trigger] r.lookup(k) == e.lookup(k) by {
            lemma_find_in_same_index(r.entries@, e.entries@, k);
        }
        assert forall|k: Seq<char>| #[trigger] crate::util::env::find_in(r.entries@, k) == crate::util::env::find_in(e.entries@, k) by {
            lemma_find_in_same_index(r.entries@, e.entries@, k);
        }
        assert(crate::util::env::map_of(r.entries@) =~= crate::util::env::map_of(e.entries@));
        assert(r.wf() == e.wf()) by {
            if r.wf() != e.wf() {
                if r.wf() {
                    let (a, b) = choose|a: int, b: int| 0 <= a < b < e.entries@.len() && e.entries@[a].0@ == e.entries@[b].0@;
                    assert(r.entries@[a].0@ == r.entries@[b].0@);
                } else {
                    let (a, b) = choose|a: int, b: int| 0 <= a < b < r.entries@.len() && r.entries@[a].0@ == r.entries@[b].0@;
                    assert(e.entries@[a].0@ == e.entries@[b].0@);
                }
            }
        }
    }
    r
}

pub proof fn lemma_find_in_same_index(a: Seq<(String, i32)>, b: Seq<(String, i32)>, k: Seq<char>)
    requires
        a.len() == b.len(),
        forall|i: int| 0 <= i < a.len() ==> (#[trigger] a[i]).0@ == b[i].0@ && a[i].1 == b[i].1,
    ensures
        crate::util::env::find_in(a, k) == crate::util::env::find_in(b, k),
    decreases a.len(),
{
    if a.len() > 0 {
        assert(a.last() == a[a.len() - 1]);
        lemma_find_in_same_index(a.drop_last(), b.drop_last(), k);
    }
}

/// copy of a sequence of types
pub fn copy_type_vec(v: &Vec<Type>) -> (r: Vec<Type>)
    ensures
        type_seq_view(r@) == type_seq_view(v@),
        r@.len() == v@.len(),
{
    let mut r: Vec<Type> = Vec::new();
    let mut i: usize = 0;
    while i < v.len()
        invariant
            i <= v@.len(),
            r@.len() == i,
            forall|j: int| 0 <= j < i ==> r@[j]@ == v@[j]@,
        decreases v.len() - i,
    {
        r.push(v[i].copy());
        i += 1;
    }
    assert(type_seq_view(r@) =~= type_seq_view(v@));
    r
}

impl StructDecl {
    /// copy of the declaration
    pub fn copy(&self) -> (r: StructDecl)
        ensures
            r@ == self@,
            r.field_env.wf() == self.field_env.wf(),
            r.fields@.len() == self.fields@.len(),
            forall|k: Seq<char>| #[trigger] r.field_env.lookup(k) == self.field_env.lookup(k),
    {
        StructDecl {
            name: self.name.clone(),
            size_constant_name: self.size_constant_name.clone(),
            fields: copy_type_vec(&self.fields),
            field_env: copy_index_env(&self.field_env),
        }
    }

    /// name of the structure type in LLVM
    pub fn llvm_name(&self) -> (r: String)
        ensures
            r@ == seq!['%'] + self.name@,
    {
        let r = crate::util::text::concat("%", self.name.as_str());
        proof {
            reveal_strlit("%");
        }
        r
    }
}

/// table of virtual methods of a class
#[derive(Debug)]
pub struct VTableDecl {
    /// name of the structure type
    pub name: String,
    /// name of the constant holding the table
    pub data_const_name: String,
    /// method types and names, in fixed order
    pub methods: Vec<(Type, String)>,
    /// mapping: method name => method index
    pub method_env: Env<i32>,
}

impl VTableDecl {
    /// copy of the declaration
    pub fn copy(&self) -> (r: VTableDecl)
        ensures
            r.name@ == self.name@,
            r.data_const_name@ == self.data_const_name@,
            r.methods@.len() == self.methods@.len(),
            forall|i: int| 0 <= i < self.methods@.len() ==> (#[trigger] r.methods@[i]).0@ == self.methods@[i].0@
                && r.methods@[i].1@ == self.methods@[i].1@,
            forall|k: Seq<char>| #[trigger] r.method_env.lookup(k) == self.method_env.lookup(k),
            r.method_env.wf() == self.method_env.wf(),
    {
        let mut methods: Vec<(Type, String)> = Vec::new();
        let mut i: usize = 0;
        while i < self.methods.len()
            invariant
                i <= self.methods@.len(),
                methods@.len() == i,
                forall|j: int| 0 <= j < i ==> (#[trigger] methods@[j]).0@ == self.methods@[j].0@ && methods@[j].1@ == self.methods@[j].1@,
            decreases self.methods.len() - i,
        {
            methods.push((self.methods[i].0.copy(), self.methods[i].1.clone()));
            i += 1;
        }
        VTableDecl {
            name: self.name.clone(),
            data_const_name: self.data_const_name.clone(),
            methods,
            method_env: copy_index_env(&self.method_env),
        }
    }
}

#[derive(Debug, PartialEq, Eq)]
pub struct StringDecl {
    pub name: String,
    pub val: String,
    pub len: usize,
}

impl StringDecl {
    /// copy of the declaration
    pub fn copy(&self) -> (r: StringDecl)
        ensures
            r == *self,
    {
        StringDecl { name: self.name.clone(), val: self.val.clone(), len: self.len }
    }
}

#[derive(Debug)]
pub struct FunctionDef {
    pub name: String,
    pub ret_type: Type,
    pub args: Vec<ArgItem>,
    pub body: Vec<BasicBlock>,
}

#[derive(Debug)]
pub enum LLVM {
    DeclFunction { decl: String },
    DeclStruct { decl: StructDecl },
    DeclString { decl: StringDecl },
    DeclVTable { decl: VTableDecl },
    Function { def: FunctionDef },
}

} // verus!
