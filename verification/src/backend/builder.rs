//! Construction of basic blocks in SSA form: phi instructions and renumbering of entities.
use vstd::prelude::*;

use crate::backend::context::FunctionContext;
use crate::backend::ir::{BasicBlock, BasicBlockV, Entity, EntityV, Instruction, InstructionKind, InstructionKindV, InstructionV, entities_view, entity_type, lowest_register, instruction_view, instructions_view, opt_entity_view, phi_args_view, copy_instruction};
use crate::meta::GetType;
use crate::frontend::ast::{Type, TypeV};
use crate::util::env::Env;

verus! {

/// utility structure for increasing values >= from_value by offset
pub struct IncrementMapper {
    pub offset: usize,
    pub from_value: usize,
}

impl IncrementMapper {
    /// value that `u` is mapped to
    pub open spec fn spec_map(&self, u: usize) -> int {
        if u >= self.from_value {
            u + self.offset
        } else {
            u as int
        }
    }

    /// `u` is mapped to a value that fits in a `usize`
    pub open spec fn can_map(&self, u: usize) -> bool {
        self.spec_map(u) <= usize::MAX
    }

    /// perform mapping of values
    pub fn map(&self, u: usize) -> (r: usize)
        requires
            self.can_map(u),
        ensures
            r == self.spec_map(u),
    {
        if u >= self.from_value {
            u + self.offset
        } else {
            u
        }
    }
}

/// Renumbering keeps the order of numbers, so two different registers never end up
/// with the same number.
pub proof fn lemma_increment_mapper_monotonic(m: IncrementMapper, u: usize, v: usize)
    requires
        u < v,
    ensures
        m.spec_map(u) < m.spec_map(v),
{
}

/// value bound to entity `k` in `s`; a later pair shadows an earlier one
pub open spec fn find_entity(s: Seq<(Entity, Entity)>, k: EntityV) -> Option<EntityV>
    decreases s.len(),
{
    if s.len() == 0 {
        None
    } else if s.last().0@ == k {
        Some(s.last().1@)
    } else {
        find_entity(s.drop_last(), k)
    }
}

/// mapping of entities (replacement of one entity by another)
#[derive(Debug)]
pub struct EntityMap {
    pub pairs: Vec<(Entity, Entity)>,
}

pub proof fn lemma_find_entity_push(s: Seq<(Entity, Entity)>, e: (Entity, Entity), k: EntityV)
    ensures
        find_entity(s.push(e), k) == if e.0@ == k { Some(e.1@) } else { find_entity(s, k) },
{
    assert(s.push(e).drop_last() =~= s);
}

pub proof fn lemma_find_entity_prefix(s: Seq<(Entity, Entity)>, i: int, k: EntityV)
    requires
        0 <= i <= s.len(),
        forall|j: int| i <= j < s.len() ==> s[j].0@ != k,
    ensures
        find_entity(s, k) == find_entity(s.subrange(0, i), k),
    decreases s.len(),
{
    if s.len() == i {
        assert(s.subrange(0, i) =~= s);
    } else {
        lemma_find_entity_prefix(s.drop_last(), i, k);
        assert(s.drop_last().subrange(0, i) =~= s.subrange(0, i));
    }
}

/// removing every pair with the given key from `s`
pub open spec fn without_key(s: Seq<(Entity, Entity)>, k: EntityV) -> Seq<(Entity, Entity)>
    decreases s.len(),
{
    if s.len() == 0 {
        s
    } else if s.last().0@ == k {
        without_key(s.drop_last(), k)
    } else {
        without_key(s.drop_last(), k).push(s.last())
    }
}

pub proof fn lemma_find_entity_without(s: Seq<(Entity, Entity)>, k: EntityV, q: EntityV)
    ensures
        find_entity(without_key(s, k), q) == if q == k { None } else { find_entity(s, q) },
    decreases s.len(),
{
    if s.len() > 0 {
        lemma_find_entity_without(s.drop_last(), k, q);
        if s.last().0@ != k {
            lemma_find_entity_push(without_key(s.drop_last(), k), s.last(), q);
        }
    }
}

impl EntityMap {
    /// the mapping as a map of models
    pub open spec fn view_map(&self) -> Map<EntityV, EntityV> {
        Map::new(|k: EntityV| find_entity(self.pairs@, k) is Some, |k: EntityV| find_entity(self.pairs@, k)->0)
    }

    /// empty mapping
    pub fn new() -> (r: Self)
        ensures
            r.view_map() == Map::<EntityV, EntityV>::empty(),
    {
        let r = EntityMap { pairs: Vec::new() };
        assert(r.view_map() =~= Map::<EntityV, EntityV>::empty());
        r
    }

    /// entity that `k` is mapped to
    pub fn get(&self, k: &Entity) -> (r: Option<&Entity>)
        ensures
            match r {
                Some(v) => self.view_map().contains_key(k@) && self.view_map()[k@] == v@,
                None => !self.view_map().contains_key(k@),
            },
    {
        let mut i = self.pairs.len();
        while i > 0
            invariant
                i <= self.pairs@.len(),
                forall|j: int| i <= j < self.pairs@.len() ==> self.pairs@[j].0@ != k@,
            decreases i,
        {
            if self.pairs[i - 1].0.equals(k) {
                proof {
                    lemma_find_entity_prefix(self.pairs@, i as int, k@);
                    assert(self.pairs@.subrange(0, i as int).drop_last() =~= self.pairs@.subrange(0, i - 1));
                }
                return Some(&self.pairs[i - 1].1);
            }
            i = i - 1;
        }
        proof {
            lemma_find_entity_prefix(self.pairs@, 0, k@);
        }
        None
    }

    /// map `k` to `v` (replacing the previous target of `k`)
    pub fn insert(&mut self, k: Entity, v: Entity)
        ensures
            final(self).view_map() == old(self).view_map().insert(k@, v@),
    {
        let ghost s = self.pairs@;
        let ghost kv = k@;
        let ghost vv = v@;
        self.pairs.push((k, v));
        proof {
            assert forall|q: EntityV| find_entity(self.pairs@, q) == if q == kv { Some(vv) } else { find_entity(s, q) } by {
                lemma_find_entity_push(s, self.pairs@.last(), q);
            }
            assert(self.view_map() =~= old(self).view_map().insert(kv, vv));
        }
    }

    /// remove the mapping of `k`
    pub fn remove(&mut self, k: &Entity)
        ensures
            final(self).view_map() == old(self).view_map().remove(k@),
    {
        let ghost s = self.pairs@;
        let mut kept: Vec<(Entity, Entity)> = Vec::new();
        let mut pairs: Vec<(Entity, Entity)> = Vec::new();
        std::mem::swap(&mut pairs, &mut self.pairs);
        let mut i: usize = 0;
        let len = pairs.len();
        while i < len
            invariant
                len == s.len(),
                i <= len,
                pairs@.len() == len,
                forall|j: int| i <= j < len ==> pairs@[j] == s[j],
                kept@ == without_key(s.subrange(0, i as int), k@),
            decreases len - i,
        {
            let p = pairs.remove(i);
            let placeholder = (Entity::Int { v: 0, uuid: 0 }, Entity::Int { v: 0, uuid: 0 });
            pairs.insert(i, placeholder);
            proof {
                assert(s.subrange(0, i + 1).drop_last() =~= s.subrange(0, i as int));
            }
            if !p.0.equals(k) {
                kept.push(p);
            }
            i += 1;
        }
        self.pairs = kept;
        proof {
            assert(s.subrange(0, len as int) =~= s);
            assert forall|q: EntityV| find_entity(self.pairs@, q) == if q == k@ { None } else { find_entity(s, q) } by {
                lemma_find_entity_without(s, k@, q);
            }
            assert(self.view_map() =~= old(self).view_map().remove(k@));
        }
    }

    /// copy of the mapping
    pub fn copy(&self) -> (r: EntityMap)
        ensures
            r.view_map() == self.view_map(),
    {
        let mut pairs: Vec<(Entity, Entity)> = Vec::new();
        let mut i: usize = 0;
        while i < self.pairs.len()
            invariant
                i <= self.pairs@.len(),
                pairs@.len() == i,
                forall|j: int| 0 <= j < i ==> pairs@[j].0@ == self.pairs@[j].0@ && pairs@[j].1@ == self.pairs@[j].1@,
            decreases self.pairs.len() - i,
        {
            pairs.push((self.pairs[i].0.copy(), self.pairs[i].1.copy()));
            i += 1;
        }
        let r = EntityMap { pairs };
        proof {
            assert forall|q: EntityV| find_entity(r.pairs@, q) == find_entity(self.pairs@, q) by {
                lemma_find_entity_same(r.pairs@, self.pairs@, q);
            }
            assert(r.view_map() =~= self.view_map());
        }
        r
    }
}

/// pairs with equal models describe the same mapping
pub proof fn lemma_find_entity_same(a: Seq<(Entity, Entity)>, b: Seq<(Entity, Entity)>, q: EntityV)
    requires
        a.len() == b.len(),
        forall|j: int| 0 <= j < a.len() ==> a[j].0@ == b[j].0@ && a[j].1@ == b[j].1@,
    ensures
        find_entity(a, q) == find_entity(b, q),
    decreases a.len(),
{
    if a.len() > 0 {
        lemma_find_entity_same(a.drop_last(), b.drop_last(), q);
    }
}

/// an entity can be renumbered (its register number, if any, stays within bounds)
pub open spec fn entity_mappable(e: EntityV, inc: IncrementMapper) -> bool {
    match e {
        EntityV::Register { n, .. } => inc.can_map(n),
        _ => true,
    }
}

/// entity `e` after renumbering: direct mapping first, otherwise registers are incremented
pub open spec fn spec_map_entity(e: EntityV, inc: IncrementMapper, m: Map<EntityV, EntityV>) -> EntityV {
    if m.contains_key(e) {
        m[e]
    } else {
        match e {
            EntityV::Register { n, t } => EntityV::Register { n: inc.spec_map(n) as usize, t },
            _ => e,
        }
    }
}

/// all entities of a sequence can be renumbered
pub open spec fn all_mappable(args: Seq<EntityV>, inc: IncrementMapper) -> bool {
    forall|i: int| 0 <= i < args.len() ==> entity_mappable(#[trigger] args[i], inc)
}

/// all argument entities of an instruction can be renumbered
pub open spec fn kind_mappable(k: InstructionKindV, inc: IncrementMapper) -> bool {
    match k {
        InstructionKindV::Load { ptr } => entity_mappable(ptr, inc),
        InstructionKindV::Store { val, ptr } => entity_mappable(val, inc) && entity_mappable(ptr, inc),
        InstructionKindV::GetStructElementPtr { var, idx, .. } => entity_mappable(var, inc) && entity_mappable(idx, inc),
        InstructionKindV::GetArrayElementPtr { var, idx, .. } => entity_mappable(var, inc) && entity_mappable(idx, inc),
        InstructionKindV::BitCast { ent, .. } => entity_mappable(ent, inc),
        InstructionKindV::UnaryOp { arg, .. } => entity_mappable(arg, inc),
        InstructionKindV::BinaryOp { l, r, .. } => entity_mappable(l, inc) && entity_mappable(r, inc),
        InstructionKindV::Call { args, .. } => all_mappable(args, inc),
        InstructionKindV::RetVal { val } => entity_mappable(val, inc),
        InstructionKindV::JumpCond { cond, .. } => entity_mappable(cond, inc),
        _ => true,
    }
}

/// instruction kind after renumbering of its argument entities (phi arguments are left as they are)
pub open spec fn spec_map_kind(k: InstructionKindV, inc: IncrementMapper, m: Map<EntityV, EntityV>) -> InstructionKindV {
    match k {
        InstructionKindV::Load { ptr } => InstructionKindV::Load { ptr: spec_map_entity(ptr, inc, m) },
        InstructionKindV::Store { val, ptr } => InstructionKindV::Store {
            val: spec_map_entity(val, inc, m),
            ptr: spec_map_entity(ptr, inc, m),
        },
        InstructionKindV::GetStructElementPtr { container_type_name, var, idx } => InstructionKindV::GetStructElementPtr {
            container_type_name,
            var: spec_map_entity(var, inc, m),
            idx: spec_map_entity(idx, inc, m),
        },
        InstructionKindV::GetArrayElementPtr { item_t, var, idx } => InstructionKindV::GetArrayElementPtr {
            item_t,
            var: spec_map_entity(var, inc, m),
            idx: spec_map_entity(idx, inc, m),
        },
        InstructionKindV::BitCast { ent, to } => InstructionKindV::BitCast { ent: spec_map_entity(ent, inc, m), to },
        InstructionKindV::UnaryOp { op, arg } => InstructionKindV::UnaryOp { op, arg: spec_map_entity(arg, inc, m) },
        InstructionKindV::BinaryOp { op, l, r } => InstructionKindV::BinaryOp {
            op,
            l: spec_map_entity(l, inc, m),
            r: spec_map_entity(r, inc, m),
        },
        InstructionKindV::Call { func, args } => InstructionKindV::Call {
            func,
            args: args.map_values(|a: EntityV| spec_map_entity(a, inc, m)),
        },
        InstructionKindV::RetVal { val } => InstructionKindV::RetVal { val: spec_map_entity(val, inc, m) },
        InstructionKindV::JumpCond { cond, true_label, false_label } => InstructionKindV::JumpCond {
            cond: spec_map_entity(cond, inc, m),
            true_label,
            false_label,
        },
        _ => k,
    }
}

/// the result entity of an instruction after renumbering
pub open spec fn spec_map_result(r: Option<EntityV>, inc: IncrementMapper) -> Option<EntityV> {
    match r {
        Some(EntityV::Register { n, t }) => Some(EntityV::Register { n: inc.spec_map(n) as usize, t }),
        _ => r,
    }
}

/// an instruction can be renumbered: its result (if any) is a register
pub open spec fn instr_mappable(i: InstructionV, inc: IncrementMapper) -> bool {
    &&& kind_mappable(i.kind, inc)
    &&& match i.result {
        Some(e) => e is Register && entity_mappable(e, inc),
        None => true,
    }
}

/// instruction after renumbering
pub open spec fn spec_map_instr(i: InstructionV, inc: IncrementMapper, m: Map<EntityV, EntityV>) -> InstructionV {
    InstructionV { kind: spec_map_kind(i.kind, inc, m), result: spec_map_result(i.result, inc) }
}

/// sequence of instructions after renumbering, where an entity assigned by an instruction
/// is no longer replaced in the instructions that follow
pub open spec fn spec_map_instrs(s: Seq<InstructionV>, inc: IncrementMapper, m: Map<EntityV, EntityV>) -> Seq<InstructionV>
    decreases s.len(),
{
    if s.len() == 0 {
        s
    } else {
        let i0 = spec_map_instr(s[0], inc, m);
        let m2 = match i0.result {
            Some(e) => m.remove(e),
            None => m,
        };
        seq![i0] + spec_map_instrs(s.drop_first(), inc, m2)
    }
}

/// renumbering of entities
pub trait MapEntities: Sized {
    /// the value can be renumbered with the given increment mapper
    spec fn mappable(&self, inc: IncrementMapper) -> bool;

    /// `r` is the value renumbered with `inc` and `m`
    spec fn mapped_to(&self, inc: IncrementMapper, m: Map<EntityV, EntityV>, r: Self) -> bool;

    /// map all entities in the structure using mapping or increment mapper
    fn map_entities(&self, increment_mapper: &IncrementMapper, direct_mapping: &EntityMap) -> (r: Self)
        requires
            self.mappable(*increment_mapper),
        ensures
            self.mapped_to(*increment_mapper, direct_mapping.view_map(), r),
    ;
}

impl MapEntities for Entity {
    open spec fn mappable(&self, inc: IncrementMapper) -> bool {
        entity_mappable(self@, inc)
    }

    open spec fn mapped_to(&self, inc: IncrementMapper, m: Map<EntityV, EntityV>, r: Self) -> bool {
        r@ == spec_map_entity(self@, inc, m)
    }

    /// renumber register entities, correct ONLY for NON-PHI instructions
    fn map_entities(&self, increment_mapper: &IncrementMapper, direct_mapping: &EntityMap) -> (r: Self) {
        match direct_mapping.get(self) {
            Some(mapped_ent) => mapped_ent.copy(),
            None => match self {
                Entity::Register { n, t } => Entity::Register { n: increment_mapper.map(*n), t: t.copy() },
                _ => self.copy(),
            },
        }
    }
}

/// renumber every entity of a sequence
pub fn map_entity_vec(args: &Vec<Entity>, inc: &IncrementMapper, m: &EntityMap) -> (r: Vec<Entity>)
    requires
        forall|i: int| 0 <= i < args@.len() ==> entity_mappable(#[trigger] args@[i]@, *inc),
    ensures
        entities_view(r@) == entities_view(args@).map_values(|a: EntityV| spec_map_entity(a, *inc, m.view_map())),
{
    let mut r: Vec<Entity> = Vec::new();
    let mut i: usize = 0;
    while i < args.len()
        invariant
            i <= args@.len(),
            r@.len() == i,
            forall|j: int| 0 <= j < args@.len() ==> entity_mappable(#[trigger] args@[j]@, *inc),
            forall|j: int| 0 <= j < i ==> r@[j]@ == spec_map_entity(args@[j]@, *inc, m.view_map()),
        decreases args.len() - i,
    {
        r.push(args[i].map_entities(inc, m));
        i += 1;
    }
    assert(entities_view(r@) =~= entities_view(args@).map_values(|a: EntityV| spec_map_entity(a, *inc, m.view_map())));
    r
}

impl MapEntities for Instruction {
    open spec fn mappable(&self, inc: IncrementMapper) -> bool {
        instr_mappable(instruction_view(*self), inc)
    }

    open spec fn mapped_to(&self, inc: IncrementMapper, m: Map<EntityV, EntityV>, r: Self) -> bool {
        instruction_view(r) == spec_map_instr(instruction_view(*self), inc, m)
    }

    /// renumber argument and result entities, correct ONLY for NON-PHI instructions
    fn map_entities(&self, increment_mapper: &IncrementMapper, direct_mapping: &EntityMap) -> (r: Self) {
        let inc = increment_mapper;
        let m = direct_mapping;
        let mapped_args_ent = match &self.item {
            InstructionKind::Load { ptr } => InstructionKind::Load { ptr: ptr.map_entities(inc, m) },
            InstructionKind::Store { val, ptr } => InstructionKind::Store {
                val: val.map_entities(inc, m),
                ptr: ptr.map_entities(inc, m),
            },
            InstructionKind::BitCast { ent, to } => InstructionKind::BitCast {
                ent: ent.map_entities(inc, m),
                to: to.copy(),
            },
            InstructionKind::UnaryOp { op, arg } => InstructionKind::UnaryOp { op: *op, arg: arg.map_entities(inc, m) },
            InstructionKind::BinaryOp { op, l, r } => InstructionKind::BinaryOp {
                op: *op,
                l: l.map_entities(inc, m),
                r: r.map_entities(inc, m),
            },
            InstructionKind::Call { func, args } => {
                proof {
                    assert(instruction_view(*self).kind == InstructionKindV::Call { func: func@, args: entities_view(args@) });
                    assert forall|i: int| 0 <= i < args@.len() implies entity_mappable(#[trigger] args@[i]@, *inc) by {
                        let ev = entities_view(args@);
                        assert(kind_mappable(InstructionKindV::Call { func: func@, args: ev }, *inc));
                        assert(all_mappable(ev, *inc));
                        assert(ev[i] == args@[i]@);
                        assert(entity_mappable(ev[i], *inc));
                    }
                }
                InstructionKind::Call { func: func.clone(), args: map_entity_vec(args, inc, m) }
            },
            InstructionKind::RetVal { val } => InstructionKind::RetVal { val: val.map_entities(inc, m) },
            InstructionKind::JumpCond { cond, true_label, false_label } => InstructionKind::JumpCond {
                cond: cond.map_entities(inc, m),
                true_label: true_label.clone(),
                false_label: false_label.clone(),
            },
            InstructionKind::GetStructElementPtr { container_type_name, var, idx } => InstructionKind::GetStructElementPtr {
                container_type_name: container_type_name.clone(),
                var: var.map_entities(inc, m),
                idx: idx.map_entities(inc, m),
            },
            InstructionKind::GetArrayElementPtr { item_t, var, idx } => InstructionKind::GetArrayElementPtr {
                item_t: item_t.copy(),
                var: var.map_entities(inc, m),
                idx: idx.map_entities(inc, m),
            },
            InstructionKind::Alloc { t } => InstructionKind::Alloc { t: t.copy() },
            InstructionKind::LoadConst { name, len } => InstructionKind::LoadConst { name: name.clone(), len: *len },
            InstructionKind::RetVoid => InstructionKind::RetVoid,
            InstructionKind::Jump { label } => InstructionKind::Jump { label: label.clone() },
            InstructionKind::Phi { args } => InstructionKind::Phi { args: copy_phi_args(args) },
        };
        match &self.meta {
            Some(Entity::Register { n, t }) => mapped_args_ent.with_result(Entity::Register {
                n: inc.map(*n),
                t: t.copy(),
            }),
            _ => mapped_args_ent.without_result(),
        }
    }
}

/// copy of the arguments of a phi instruction
pub fn copy_phi_args(args: &Vec<(Entity, String)>) -> (r: Vec<(Entity, String)>)
    ensures
        phi_args_view(r@) == phi_args_view(args@),
{
    let mut r: Vec<(Entity, String)> = Vec::new();
    let mut i: usize = 0;
    while i < args.len()
        invariant
            i <= args@.len(),
            r@.len() == i,
            forall|j: int| 0 <= j < i ==> r@[j].0@ == args@[j].0@ && r@[j].1@ == args@[j].1@,
        decreases args.len() - i,
    {
        r.push((args[i].0.copy(), args[i].1.clone()));
        i += 1;
    }
    assert(phi_args_view(r@) =~= phi_args_view(args@));
    r
}

impl MapEntities for BasicBlock {
    open spec fn mappable(&self, inc: IncrementMapper) -> bool {
        forall|i: int| 0 <= i < self.instructions@.len() ==> instr_mappable(#[trigger] instruction_view(self.instructions@[i]), inc)
    }

    open spec fn mapped_to(&self, inc: IncrementMapper, m: Map<EntityV, EntityV>, r: Self) -> bool {
        r@ == BasicBlockV { label: self@.label, instructions: spec_map_instrs(self@.instructions, inc, m) }
    }

    fn map_entities(&self, increment_mapper: &IncrementMapper, direct_mapping: &EntityMap) -> (r: Self) {
        let ghost s = self@.instructions;
        let mut mapping = direct_mapping.copy();
        let mut instructions: Vec<Instruction> = Vec::new();
        let mut i: usize = 0;
        proof {
            assert(s.subrange(0, s.len() as int) =~= s);
            assert(instructions_view(instructions@) + spec_map_instrs(s, *increment_mapper, mapping.view_map())
                =~= spec_map_instrs(s, *increment_mapper, mapping.view_map()));
        }
        while i < self.instructions.len()
            invariant
                i <= self.instructions@.len(),
                s == instructions_view(self.instructions@),
                self.mappable(*increment_mapper),
                instructions_view(instructions@) + spec_map_instrs(s.subrange(i as int, s.len() as int), *increment_mapper, mapping.view_map())
                    == spec_map_instrs(s, *increment_mapper, direct_mapping.view_map()),
            decreases self.instructions.len() - i,
        {
            let ghost rest = s.subrange(i as int, s.len() as int);
            let ghost before = instructions_view(instructions@);
            assert(instruction_view(self.instructions@[i as int]) == s[i as int]);
            let mapped_instr = self.instructions[i].map_entities(increment_mapper, &mapping);
            let ghost m0 = mapping.view_map();
            match &mapped_instr.meta {
                Some(entity) => {
                    mapping.remove(entity);
                },
                None => {},
            }
            instructions.push(mapped_instr);
            proof {
                assert(rest.drop_first() =~= s.subrange(i + 1, s.len() as int));
                assert(rest[0] == s[i as int]);
                assert(instructions_view(instructions@) =~= before.push(instruction_view(instructions@.last())));
                assert(before.push(instruction_view(instructions@.last())) + spec_map_instrs(rest.drop_first(), *increment_mapper, mapping.view_map())
                    =~= before + spec_map_instrs(rest, *increment_mapper, m0));
            }
            i += 1;
        }
        proof {
            assert(spec_map_instrs(s.subrange(s.len() as int, s.len() as int), *increment_mapper, mapping.view_map()) =~= Seq::<InstructionV>::empty());
            assert(instructions_view(instructions@) + Seq::<InstructionV>::empty() =~= instructions_view(instructions@));
        }
        let label = match &self.label {
            Some(l) => Some(l.clone()),
            None => None,
        };
        BasicBlock { label, instructions }
    }
}

} // verus!

verus! {

/// number of bindings in all the environments of `preds`
pub open spec fn total_bindings(preds: Seq<(String, Env<Entity>)>) -> nat
    decreases preds.len(),
{
    if preds.len() == 0 {
        0
    } else {
        total_bindings(preds.drop_last()) + preds.last().1.entries@.len()
    }
}

pub proof fn lemma_total_bindings_prefix(preds: Seq<(String, Env<Entity>)>, i: int)
    requires
        0 <= i < preds.len(),
    ensures
        total_bindings(preds.subrange(0, i + 1)) == total_bindings(preds.subrange(0, i)) + preds[i].1.entries@.len(),
        total_bindings(preds.subrange(0, i + 1)) <= total_bindings(preds),
    decreases preds.len(),
{
    assert(preds.subrange(0, i + 1).drop_last() =~= preds.subrange(0, i));
    if i + 1 < preds.len() {
        lemma_total_bindings_prefix(preds.drop_last(), i);
        assert(preds.drop_last().subrange(0, i + 1) =~= preds.subrange(0, i + 1));
        assert(preds.drop_last().subrange(0, i) =~= preds.subrange(0, i));
    } else {
        assert(preds.subrange(0, i + 1) =~= preds);
    }
}

/// renumbering with a larger offset from a lower threshold covers renumbering with a smaller one
pub proof fn lemma_mappable_weaken(i: InstructionV, big: IncrementMapper, small: IncrementMapper)
    requires
        instr_mappable(i, big),
        big.from_value == 0,
        small.offset <= big.offset,
    ensures
        instr_mappable(i, small),
{
    match i.kind {
        InstructionKindV::Call { func, args } => {
            assert forall|j: int| 0 <= j < args.len() implies entity_mappable(#[trigger] args[j], small) by {
                assert(entity_mappable(args[j], big));
            }
        },
        _ => {},
    }
}

/// `e` is bound to `k` in the environment of some predecessor labelled `l`
pub open spec fn bound_in_predecessor(preds: Seq<(String, Env<Entity>)>, k: Seq<char>, e: EntityV, l: Seq<char>) -> bool {
    exists|p: int| 0 <= p < preds.len() && #[trigger] preds[p].0@ == l && preds[p].1.lookup(k) is Some && preds[p].1.lookup(k)->0@ == e
}

/// `vals` holds exactly the distinct models of the entities in `locs`
#[verifier::opaque]
pub open spec fn distinct_entities_of(locs: Seq<(Entity, String)>, vals: Seq<Entity>) -> bool {
    &&& forall|a: int, b: int| 0 <= a < b < vals.len() ==> vals[a]@ != vals[b]@
    &&& forall|a: int| 0 <= a < vals.len() ==> exists|b: int| 0 <= b < locs.len() && #[trigger] locs[b].0@ == (#[trigger] vals[a])@
    &&& forall|b: int| 0 <= b < locs.len() ==> exists|a: int| 0 <= a < vals.len() && #[trigger] locs[b].0@ == (#[trigger] vals[a])@
}

/// one location, one distinct entity
pub proof fn lemma_distinct_single(l: Seq<(Entity, String)>, u: Seq<Entity>)
    requires
        l.len() == 1,
        u.len() == 1,
        l[0].0@ == u[0]@,
    ensures
        distinct_entities_of(l, u),
{
    reveal(distinct_entities_of);
}

/// adding a location keeps the distinct entities exact
pub proof fn lemma_distinct_push(l: Seq<(Entity, String)>, u: Seq<Entity>, loc: (Entity, String), u_new: Seq<Entity>)
    requires
        distinct_entities_of(l, u),
        (exists|a: int| 0 <= a < u.len() && (#[trigger] u[a])@ == loc.0@) ==> u_new == u,
        !(exists|a: int| 0 <= a < u.len() && (#[trigger] u[a])@ == loc.0@) ==> u_new.len() == u.len() + 1
            && u_new.subrange(0, u.len() as int) == u && u_new.last()@ == loc.0@,
    ensures
        distinct_entities_of(l.push(loc), u_new),
{
    reveal(distinct_entities_of);
    let l_new = l.push(loc);
    let present = exists|a: int| 0 <= a < u.len() && (#[trigger] u[a])@ == loc.0@;
    assert forall|x: int, y: int| 0 <= x < y < u_new.len() implies u_new[x]@ != u_new[y]@ by {
        if !present {
            assert(u_new[x] == u_new.subrange(0, u.len() as int)[x] || y < u.len() || x >= u.len());
            if y >= u.len() {
                assert(u_new[x] == u[x]);
            } else {
                assert(u_new[x] == u[x]);
                assert(u_new[y] == u[y]);
            }
        }
    }
    assert forall|x: int| 0 <= x < u_new.len() implies exists|y: int| 0 <= y < l_new.len() && #[trigger] l_new[y].0@ == (#[trigger] u_new[x])@ by {
        if x < u.len() {
            if !present {
                assert(u_new[x] == u[x]);
            }
            let y = choose|y: int| 0 <= y < l.len() && #[trigger] l[y].0@ == (#[trigger] u[x])@;
            assert(l_new[y] == l[y]);
        } else {
            assert(l_new[l.len() as int].0@ == loc.0@);
        }
    }
    assert forall|y: int| 0 <= y < l_new.len() implies exists|x: int| 0 <= x < u_new.len() && #[trigger] l_new[y].0@ == (#[trigger] u_new[x])@ by {
        if y < l.len() {
            let x = choose|x: int| 0 <= x < u.len() && #[trigger] l[y].0@ == (#[trigger] u[x])@;
            if !present {
                assert(u_new[x] == u[x]);
            }
            assert(l_new[y] == l[y]);
        } else {
            if !present {
                assert(u_new[u.len() as int]@ == loc.0@);
            } else {
                let x = choose|x: int| 0 <= x < u.len() && (#[trigger] u[x])@ == loc.0@;
            }
        }
    }
}

/// two locations with different entities mean at least two distinct entities
pub proof fn lemma_distinct_two(l: Seq<(Entity, String)>, u: Seq<Entity>, y1: int, y2: int)
    requires
        distinct_entities_of(l, u),
        0 <= y1 < l.len(),
        0 <= y2 < l.len(),
        l[y1].0@ != l[y2].0@,
    ensures
        u.len() >= 2,
{
    reveal(distinct_entities_of);
    let a1 = choose|a: int| 0 <= a < u.len() && #[trigger] l[y1].0@ == (#[trigger] u[a])@;
    let a2 = choose|a: int| 0 <= a < u.len() && #[trigger] l[y2].0@ == (#[trigger] u[a])@;
    assert(a1 != a2);
}

/// two distinct entities give two locations with different entities
pub proof fn lemma_distinct_witness(l: Seq<(Entity, String)>, u: Seq<Entity>)
    requires
        distinct_entities_of(l, u),
        u.len() >= 2,
    ensures
        exists|b1: int, b2: int| 0 <= b1 < l.len() && 0 <= b2 < l.len() && l[b1].0@ != l[b2].0@,
{
    reveal(distinct_entities_of);
    let b1 = choose|b: int| 0 <= b < l.len() && #[trigger] l[b].0@ == (#[trigger] u[0])@;
    let b2 = choose|b: int| 0 <= b < l.len() && #[trigger] l[b].0@ == (#[trigger] u[1])@;
    assert(l[b1].0@ != l[b2].0@);
}

/// where each variable of the predecessors' environments is found
pub struct PredecessorLocations {
    /// variable identifiers (no duplicates)
    pub keys: Vec<String>,
    /// for each variable: its entities, with the labels of the predecessors that hold them
    pub locations: Vec<Vec<(Entity, String)>>,
    /// for each variable: its distinct entities
    pub unique: Vec<Vec<Entity>>,
}

impl PredecessorLocations {
    /// entity `e` of predecessor `l` is recorded as a location of variable `k`
    pub open spec fn has_location(&self, k: Seq<char>, e: EntityV, l: Seq<char>) -> bool {
        exists|a: int, b: int| 0 <= a < self.keys@.len() && 0 <= b < self.locations@[a]@.len()
            && #[trigger] self.keys@[a]@ == k && (#[trigger] self.locations@[a]@[b]).0@ == e && self.locations@[a]@[b].1@ == l
    }

    #[verifier::opaque]
    pub open spec fn describes(&self, preds: Seq<(String, Env<Entity>)>) -> bool {
        &&& self.keys@.len() == self.locations@.len()
        &&& self.keys@.len() == self.unique@.len()
        &&& forall|a: int, b: int| 0 <= a < b < self.keys@.len() ==> self.keys@[a]@ != self.keys@[b]@
        &&& forall|a: int| 0 <= a < self.keys@.len() ==> (#[trigger] self.locations@[a])@.len() > 0
        &&& forall|a: int, b: int| 0 <= a < self.keys@.len() && 0 <= b < self.locations@[a]@.len()
            ==> bound_in_predecessor(preds, self.keys@[a]@, #[trigger] self.locations@[a]@[b].0@, self.locations@[a]@[b].1@)
        &&& forall|a: int| 0 <= a < self.keys@.len() ==> distinct_entities_of(#[trigger] self.locations@[a]@, self.unique@[a]@)
        &&& forall|p: int, k: Seq<char>| 0 <= p < preds.len() && (#[trigger] preds[p].1.lookup(k)) is Some
            ==> self.has_location(k, preds[p].1.lookup(k)->0@, preds[p].0@)
    }
}

/// checks if an entity with the model of `e` is in `v`
pub fn contains_entity(v: &Vec<Entity>, e: &Entity) -> (r: bool)
    ensures
        r == exists|a: int| 0 <= a < v@.len() && (#[trigger] v@[a])@ == e@,
{
    let mut i: usize = 0;
    while i < v.len()
        invariant
            i <= v@.len(),
            forall|a: int| 0 <= a < i ==> (#[trigger] v@[a])@ != e@,
        decreases v.len() - i,
    {
        if v[i].equals(e) {
            return true;
        }
        i += 1;
    }
    false
}

/// position of the identifier `k` in `keys`
pub fn find_key(keys: &Vec<String>, k: &String) -> (r: Option<usize>)
    ensures
        match r {
            Some(a) => a < keys@.len() && keys@[a as int]@ == k@,
            None => forall|a: int| 0 <= a < keys@.len() ==> (#[trigger] keys@[a])@ != k@,
        },
{
    let mut i: usize = 0;
    while i < keys.len()
        invariant
            i <= keys@.len(),
            forall|a: int| 0 <= a < i ==> (#[trigger] keys@[a])@ != k@,
        decreases keys.len() - i,
    {
        if keys[i] == *k {
            return Some(i);
        }
        i += 1;
    }
    None
}

} // verus!

verus! {

impl PredecessorLocations {
    /// internal consistency: parallel vectors, unique keys, non-empty locations, distinct entities
    pub open spec fn inv(&self) -> bool {
        &&& self.keys@.len() == self.locations@.len()
        &&& self.keys@.len() == self.unique@.len()
        &&& forall|a: int, b: int| 0 <= a < b < self.keys@.len() ==> self.keys@[a]@ != self.keys@[b]@
        &&& forall|a: int| 0 <= a < self.keys@.len() ==> (#[trigger] self.locations@[a])@.len() > 0
        &&& forall|a: int| 0 <= a < self.keys@.len() ==> distinct_entities_of(#[trigger] self.locations@[a]@, self.unique@[a]@)
    }

    /// record that variable `key` is held in entity `ent` by predecessor `label`
    pub fn add_location(&mut self, key: &String, ent: &Entity, label: &String)
        requires
            old(self).inv(),
        ensures
            final(self).inv(),
            final(self).keys@.len() <= old(self).keys@.len() + 1,
            final(self).keys@.len() >= old(self).keys@.len(),
            forall|a: int| 0 <= a < old(self).keys@.len() ==> #[trigger] final(self).keys@[a] == old(self).keys@[a],
            final(self).has_location(key@, ent@, label@),
            forall|a: int, b: int| 0 <= a < old(self).keys@.len() && 0 <= b < old(self).locations@[a]@.len()
                ==> b < final(self).locations@[a]@.len() && #[trigger] final(self).locations@[a]@[b] == old(self).locations@[a]@[b],
            forall|a: int, b: int| 0 <= a < final(self).keys@.len() && 0 <= b < final(self).locations@[a]@.len()
                ==> ((a < old(self).keys@.len() && b < old(self).locations@[a]@.len()
                        && #[trigger] final(self).locations@[a]@[b] == old(self).locations@[a]@[b])
                    || (final(self).keys@[a]@ == key@ && final(self).locations@[a]@[b].0@ == ent@
                        && final(self).locations@[a]@[b].1@ == label@)),
    {
        let ghost old_locs = self.locations@;
        let ghost old_uniq = self.unique@;
        let ghost keys_before = self.keys@;
        match find_key(&self.keys, key) {
            Some(a) => {
                let mut l = self.locations.remove(a);
                let ghost l_old = l@;
                l.push((ent.copy(), label.clone()));
                let ghost l_new = l@;
                let ghost l_vec = l;
                self.locations.insert(a, l);
                let mut u = self.unique.remove(a);
                let ghost u_old = u@;
                let present = contains_entity(&u, ent);
                if !present {
                    u.push(ent.copy());
                }
                let ghost u_new = u@;
                let ghost u_vec = u;
                self.unique.insert(a, u);
                proof {
                    assert(self.locations@ =~= old_locs.update(a as int, l_vec));
                    assert(self.unique@ =~= old_uniq.update(a as int, u_vec));
                    assert(l_new == l_old.push(l_new.last()));
                    if !present {
                        assert(u_new.subrange(0, u_old.len() as int) =~= u_old);
                    }
                    lemma_distinct_push(l_old, u_old, l_new.last(), u_new);
                    assert forall|x: int| 0 <= x < self.keys@.len() implies distinct_entities_of(#[trigger] self.locations@[x]@, self.unique@[x]@) by {
                        if x != a {
                            assert(self.locations@[x] == old_locs[x]);
                            assert(self.unique@[x] == old_uniq[x]);
                        }
                    }
                    assert forall|x: int| 0 <= x < self.keys@.len() implies (#[trigger] self.locations@[x])@.len() > 0 by {
                        if x != a {
                            assert(self.locations@[x] == old_locs[x]);
                        }
                    }
                    assert forall|x: int, y: int| 0 <= x < self.keys@.len() && 0 <= y < self.locations@[x]@.len()
                        implies ((x < keys_before.len() && y < old_locs[x]@.len()
                                && #[trigger] self.locations@[x]@[y] == old_locs[x]@[y])
                            || (self.keys@[x]@ == key@ && self.locations@[x]@[y].0@ == ent@
                                && self.locations@[x]@[y].1@ == label@)) by {
                        if x != a {
                            assert(self.locations@[x] == old_locs[x]);
                        } else if y < l_old.len() {
                            assert(self.locations@[x]@[y] == l_old[y]);
                        }
                    }
                    assert(self.keys@[a as int]@ == key@);
                    assert(self.locations@[a as int]@[l_old.len() as int] == l_new[l_old.len() as int]);
                    assert forall|x: int, y: int| 0 <= x < keys_before.len() && 0 <= y < old_locs[x]@.len()
                        implies y < self.locations@[x]@.len() && #[trigger] self.locations@[x]@[y] == old_locs[x]@[y] by {
                        if x != a {
                            assert(self.locations@[x] == old_locs[x]);
                        } else {
                            assert(self.locations@[x]@[y] == l_old[y]);
                        }
                    }
                }
            },
            None => {
                self.keys.push(key.clone());
                let mut l: Vec<(Entity, String)> = Vec::new();
                l.push((ent.copy(), label.clone()));
                let mut u: Vec<Entity> = Vec::new();
                u.push(ent.copy());
                let ghost l_new = l@;
                let ghost u_new = u@;
                self.locations.push(l);
                self.unique.push(u);
                proof {
                    lemma_distinct_single(l_new, u_new);
                    assert forall|x: int| 0 <= x < self.keys@.len() implies distinct_entities_of(#[trigger] self.locations@[x]@, self.unique@[x]@) by {
                        if x < old_locs.len() {
                            assert(self.locations@[x] == old_locs[x]);
                            assert(self.unique@[x] == old_uniq[x]);
                        }
                    }
                    assert forall|x: int| 0 <= x < self.keys@.len() implies (#[trigger] self.locations@[x])@.len() > 0 by {
                        if x < old_locs.len() {
                            assert(self.locations@[x] == old_locs[x]);
                        }
                    }
                    assert forall|x: int, y: int| 0 <= x < self.keys@.len() && 0 <= y < self.locations@[x]@.len()
                        implies ((x < keys_before.len() && y < old_locs[x]@.len()
                                && #[trigger] self.locations@[x]@[y] == old_locs[x]@[y])
                            || (self.keys@[x]@ == key@ && self.locations@[x]@[y].0@ == ent@
                                && self.locations@[x]@[y].1@ == label@)) by {
                        if x < old_locs.len() {
                            assert(self.locations@[x] == old_locs[x]);
                        } else {
                            assert(self.locations@[x]@[y] == l_new[0]);
                        }
                    }
                    assert(self.keys@[self.keys@.len() - 1]@ == key@);
                    assert(self.locations@[self.keys@.len() - 1]@[0] == l_new[0]);
                    assert forall|x: int, y: int| 0 <= x < keys_before.len() && 0 <= y < old_locs[x]@.len()
                        implies y < self.locations@[x]@.len() && #[trigger] self.locations@[x]@[y] == old_locs[x]@[y] by {
                        assert(self.locations@[x] == old_locs[x]);
                    }
                }
            },
        }
    }
}

/// find, for each variable bound in some predecessor's environment, where it is held
pub fn collect_predecessor_locations(preds: &Env<Env<Entity>>) -> (r: PredecessorLocations)
    requires
        forall|p: int| 0 <= p < preds.entries@.len() ==> (#[trigger] preds.entries@[p]).1.wf(),
    ensures
        r.describes(preds.entries@),
        r.keys@.len() <= total_bindings(preds.entries@),
{
    let ghost ps = preds.entries@;
    let mut r = PredecessorLocations { keys: Vec::new(), locations: Vec::new(), unique: Vec::new() };
    let mut p: usize = 0;
    while p < preds.entries.len()
        invariant
            ps == preds.entries@,
            p <= ps.len(),
            forall|q: int| 0 <= q < ps.len() ==> (#[trigger] ps[q]).1.wf(),
            r.inv(),
            r.keys@.len() <= total_bindings(ps.subrange(0, p as int)),
            forall|a: int, b: int| 0 <= a < r.keys@.len() && 0 <= b < r.locations@[a]@.len()
                ==> bound_in_predecessor(ps, r.keys@[a]@, #[trigger] r.locations@[a]@[b].0@, r.locations@[a]@[b].1@),
            forall|q: int, k: Seq<char>| 0 <= q < p && (#[trigger] ps[q].1.lookup(k)) is Some
                ==> r.has_location(k, ps[q].1.lookup(k)->0@, ps[q].0@),
        decreases ps.len() - p,
    {
        let label = &preds.entries[p].0;
        let env = &preds.entries[p].1;
        proof {
            lemma_total_bindings_prefix(ps, p as int);
        }
        let ghost keys0 = r.keys@.len();
        let mut j: usize = 0;
        while j < env.entries.len()
            invariant
                ps == preds.entries@,
                p < ps.len(),
                *label == ps[p as int].0,
                *env == ps[p as int].1,
                env.wf(),
                j <= env.entries@.len(),
                r.inv(),
                r.keys@.len() <= keys0 + j,
                forall|a: int, b: int| 0 <= a < r.keys@.len() && 0 <= b < r.locations@[a]@.len()
                    ==> bound_in_predecessor(ps, r.keys@[a]@, #[trigger] r.locations@[a]@[b].0@, r.locations@[a]@[b].1@),
                forall|q: int, k: Seq<char>| 0 <= q < p && (#[trigger] ps[q].1.lookup(k)) is Some
                    ==> r.has_location(k, ps[q].1.lookup(k)->0@, ps[q].0@),
                forall|t: int| 0 <= t < j ==> r.has_location((#[trigger] env.entries@[t]).0@, env.entries@[t].1@, label@),
            decreases env.entries.len() - j,
        {
            let key = &env.entries[j].0;
            let ent = &env.entries[j].1;
            proof {
                crate::util::env::lemma_find_in_unique(env.entries@, j as int);
                assert(bound_in_predecessor(ps, key@, ent@, label@)) by {
                    assert(ps[p as int].0@ == label@);
                }
            }
            let ghost before = r;
            r.add_location(key, ent, label);
            proof {
                assert forall|a: int, b: int| 0 <= a < r.keys@.len() && 0 <= b < r.locations@[a]@.len()
                    implies bound_in_predecessor(ps, r.keys@[a]@, #[trigger] r.locations@[a]@[b].0@, r.locations@[a]@[b].1@) by {
                    if a < before.keys@.len() && b < before.locations@[a]@.len() && r.locations@[a]@[b] == before.locations@[a]@[b] {
                        assert(r.keys@[a] == before.keys@[a]);
                    }
                }
                assert forall|k: Seq<char>, e: EntityV, l: Seq<char>| before.has_location(k, e, l) implies r.has_location(k, e, l) by {
                    let (x, y) = choose|x: int, y: int| 0 <= x < before.keys@.len() && 0 <= y < before.locations@[x]@.len()
                        && #[trigger] before.keys@[x]@ == k && (#[trigger] before.locations@[x]@[y]).0@ == e && before.locations@[x]@[y].1@ == l;
                    assert(r.keys@[x] == before.keys@[x]);
                    assert(r.locations@[x]@[y] == before.locations@[x]@[y]);
                }
                assert forall|t: int| 0 <= t < j + 1 implies r.has_location((#[trigger] env.entries@[t]).0@, env.entries@[t].1@, label@) by {
                    if t < j {
                        assert(before.has_location(env.entries@[t].0@, env.entries@[t].1@, label@));
                    }
                }
                assert forall|q: int, k: Seq<char>| 0 <= q < p && (#[trigger] ps[q].1.lookup(k)) is Some
                    implies r.has_location(k, ps[q].1.lookup(k)->0@, ps[q].0@) by {
                    assert(before.has_location(k, ps[q].1.lookup(k)->0@, ps[q].0@));
                }
            }
            j += 1;
        }
        proof {
            assert forall|k: Seq<char>| (#[trigger] env.lookup(k)) is Some implies r.has_location(k, env.lookup(k)->0@, label@) by {
                crate::util::env::lemma_find_in_some(env.entries@, k);
                let t = choose|t: int| 0 <= t < env.entries@.len() && env.entries@[t].0@ == k && env.entries@[t].1 == env.lookup(k)->0;
                assert(r.has_location(env.entries@[t].0@, env.entries@[t].1@, label@));
            }
            assert forall|q: int, k: Seq<char>| 0 <= q < p + 1 && (#[trigger] ps[q].1.lookup(k)) is Some
                implies r.has_location(k, ps[q].1.lookup(k)->0@, ps[q].0@) by {
                if q == p {
                    assert(env.lookup(k) is Some);
                }
            }
            assert(env.entries@.len() == ps[p as int].1.entries@.len());
        }
        p += 1;
    }
    proof {
        assert(ps.subrange(0, ps.len() as int) =~= ps);
        reveal(PredecessorLocations::describes);
    }
    r
}

} // verus!

verus! {

/// number of the first register of a block, if its first result entity is a register
pub open spec fn first_register_number(first: Option<EntityV>) -> Option<usize> {
    match first {
        Some(EntityV::Register { n, .. }) => Some(n),
        _ => None,
    }
}

/// result register number of an instruction (0 if it has none)
pub open spec fn result_number(i: InstructionV) -> usize {
    match i.result {
        Some(EntityV::Register { n, .. }) => n,
        _ => 0,
    }
}

/// arguments of a phi instruction (empty for other instructions)
pub open spec fn phi_args_of(i: InstructionV) -> Seq<(EntityV, Seq<char>)> {
    match i.kind {
        InstructionKindV::Phi { args } => args,
        _ => Seq::empty(),
    }
}

/// the arguments of a phi merge the values of one variable held by predecessors,
/// at least two of them different
pub open spec fn all_bound(preds: Seq<(String, Env<Entity>)>, k: Seq<char>, args: Seq<(EntityV, Seq<char>)>) -> bool {
    forall|b: int| 0 <= b < args.len() ==> bound_in_predecessor(preds, k, #[trigger] args[b].0, args[b].1)
}

#[verifier::opaque]
pub open spec fn phi_merges_variable(preds: Seq<(String, Env<Entity>)>, args: Seq<(EntityV, Seq<char>)>) -> bool {
    &&& exists|k: Seq<char>| #[trigger] all_bound(preds, k, args)
    &&& exists|b1: int, b2: int| 0 <= b1 < args.len() && 0 <= b2 < args.len() && args[b1].0 != args[b2].0
}

/// the leading `k` instructions of `r` are phi instructions that merge variables of the
/// predecessors, with result registers numbered consecutively from `start`
pub open spec fn phis_well_formed(r: Seq<InstructionV>, k: int, start: int, preds: Seq<(String, Env<Entity>)>) -> bool {
    forall|i: int| 0 <= i < k ==> {
        &&& (#[trigger] r[i]).kind is Phi
        &&& r[i].result matches Some(EntityV::Register { n, .. }) && n == start + i
        &&& phi_merges_variable(preds, phi_args_of(r[i]))
    }
}

#[derive(Debug)]
pub struct BlockBuilder {
    /// currently built basic block
    pub block: BasicBlock,
    /// entity mapping, available to re-use after initial block build
    pub entity_mapping: Option<EntityMap>,
    /// predecessor label => predecessor variable ident => entity in that predecessor
    pub predecessors: Env<Env<Entity>>,
    /// variables to which values were assigned in the block
    pub variables_gen: Env<Entity>,
}

/// copy of an environment of entities
pub fn copy_entity_env(env: &Env<Entity>) -> (r: Env<Entity>)
    ensures
        r.entries@.len() == env.entries@.len(),
        forall|i: int| 0 <= i < env.entries@.len() ==> (#[trigger] r.entries@[i]).0 == env.entries@[i].0
            && r.entries@[i].1@ == env.entries@[i].1@,
        env.wf() ==> r.wf(),
        forall|k: Seq<char>| (#[trigger] r.lookup(k)) is Some <==> env.lookup(k) is Some,
        forall|k: Seq<char>| r.lookup(k) is Some ==> (#[trigger] r.lookup(k))->0@ == env.lookup(k)->0@,
{
    let mut entries: Vec<(String, Entity)> = Vec::new();
    let mut i: usize = 0;
    while i < env.entries.len()
        invariant
            i <= env.entries@.len(),
            entries@.len() == i,
            forall|j: int| 0 <= j < i ==> (#[trigger] entries@[j]).0 == env.entries@[j].0 && entries@[j].1@ == env.entries@[j].1@,
        decreases env.entries.len() - i,
    {
        entries.push((env.entries[i].0.clone(), env.entries[i].1.copy()));
        i += 1;
    }
    let r = Env { entries };
    proof {
        assert forall|k: Seq<char>| #[trigger] r.lookup(k) is Some <==> env.lookup(k) is Some by {
            lemma_find_in_same_keys(r.entries@, env.entries@, k);
        }
        assert forall|k: Seq<char>| r.lookup(k) is Some implies (#[trigger] r.lookup(k))->0@ == env.lookup(k)->0@ by {
            lemma_find_in_same_keys(r.entries@, env.entries@, k);
        }
    }
    r
}

pub proof fn lemma_find_in_same_keys(a: Seq<(String, Entity)>, b: Seq<(String, Entity)>, k: Seq<char>)
    requires
        a.len() == b.len(),
        forall|i: int| 0 <= i < a.len() ==> (#[trigger] a[i]).0 == b[i].0 && a[i].1@ == b[i].1@,
    ensures
        crate::util::env::find_in(a, k) is Some <==> crate::util::env::find_in(b, k) is Some,
        crate::util::env::find_in(a, k) is Some ==> crate::util::env::find_in(a, k)->0@ == crate::util::env::find_in(b, k)->0@,
    decreases a.len(),
{
    if a.len() > 0 {
        assert(a.last() == a[a.len() - 1]);
        lemma_find_in_same_keys(a.drop_last(), b.drop_last(), k);
    }
}

impl BlockBuilder {
    pub fn without_label() -> (r: Self)
        ensures
            r.block@.label is None,
            r.block@.instructions.len() == 0,
            r.entity_mapping is None,
            r.predecessors.entries@.len() == 0,
            r.predecessors.wf(),
            r.variables_gen.entries@.len() == 0,
    {
        BlockBuilder {
            predecessors: Env::new(),
            block: BasicBlock { label: None, instructions: Vec::new() },
            entity_mapping: None,
            variables_gen: Env::new(),
        }
    }

    pub fn with_label(label: String) -> (r: Self)
        ensures
            r.block@.label == Some(label@),
            r.block@.instructions.len() == 0,
            r.entity_mapping is None,
            r.predecessors.entries@.len() == 0,
            r.predecessors.wf(),
    {
        BlockBuilder {
            predecessors: Env::new(),
            block: BasicBlock { label: Some(label), instructions: Vec::new() },
            entity_mapping: None,
            variables_gen: Env::new(),
        }
    }

    /// label of the block under construction
    pub fn get_block_label(&self) -> (r: String)
        ensures
            r@ == crate::backend::ir::block_label(self.block@.label),
    {
        self.block.get_label()
    }

    /// register environment from a compiled predecessor
    pub fn add_predecessor(&mut self, label: String, env: &Env<Entity>)
        requires
            old(self).predecessors.wf(),
        ensures
            final(self).predecessors.wf(),
            final(self).block == old(self).block,
            final(self).entity_mapping == old(self).entity_mapping,
            final(self).variables_gen == old(self).variables_gen,
            forall|q: Seq<char>| q != label@ ==> #[trigger] final(self).predecessors.lookup(q) == old(self).predecessors.lookup(q),
            final(self).predecessors.lookup(label@) is Some,
            forall|k: Seq<char>| (#[trigger] final(self).predecessors.lookup(label@)->0.lookup(k)) is Some <==> env.lookup(k) is Some,
            forall|k: Seq<char>| final(self).predecessors.lookup(label@)->0.lookup(k) is Some
                ==> (#[trigger] final(self).predecessors.lookup(label@)->0.lookup(k))->0@ == env.lookup(k)->0@,
            env.wf() ==> final(self).predecessors.lookup(label@)->0.wf(),
            old(self).predecessors.lookup(label@) is None ==> final(self).predecessors.entries@.len() == old(self).predecessors.entries@.len() + 1,
            old(self).predecessors.lookup(label@) is Some ==> final(self).predecessors.entries@.len() == old(self).predecessors.entries@.len(),
            forall|i: int| 0 <= i < old(self).predecessors.entries@.len() && old(self).predecessors.entries@[i].0@ != label@
                ==> #[trigger] final(self).predecessors.entries@[i] == old(self).predecessors.entries@[i],
            env.wf() && (forall|p: int| 0 <= p < old(self).predecessors.entries@.len() ==> (#[trigger] old(self).predecessors.entries@[p]).1.wf())
                ==> forall|p: int| 0 <= p < final(self).predecessors.entries@.len() ==> (#[trigger] final(self).predecessors.entries@[p]).1.wf(),
    {
        let ghost l = label@;
        let copied = copy_entity_env(env);
        let ghost c = copied;
        let ghost before = self.predecessors.entries@;
        let prev = self.predecessors.insert(label, copied);
        proof {
            assert(self.predecessors.lookup(l) == Some(c));
            if prev is Some {
                let i = choose|i: int| 0 <= i < before.len() && before[i].0@ == l
                    && self.predecessors.entries@ == before.update(i, (self.predecessors.entries@[i].0, c));
                assert forall|j: int| 0 <= j < before.len() && before[j].0@ != l
                    implies #[trigger] self.predecessors.entries@[j] == before[j] by {
                    assert(j != i);
                }
                assert(self.predecessors.entries@[i].1 == c);
            } else {
                assert(self.predecessors.entries@.last().1 == c);
            }
        }
    }

    /// add new instruction to the current basic block
    pub fn push_instruction(&mut self, instr: Instruction)
        ensures
            final(self).block@.label == old(self).block@.label,
            final(self).block.instructions@ == old(self).block.instructions@.push(instr),
            final(self).block@.instructions == old(self).block@.instructions.push(instruction_view(instr)),
            final(self).entity_mapping == old(self).entity_mapping,
            final(self).predecessors == old(self).predecessors,
    {
        let ghost before = self.block@.instructions;
        self.block.instructions.push(instr);
        proof {
            assert(self.block@.instructions =~= before.push(instruction_view(instr)));
        }
    }

    /// checks if current block always returns
    pub fn block_always_returns(&self) -> (r: bool)
        ensures
            r == (self.block.instructions@.len() > 0 && crate::backend::ir::is_return(self.block.instructions@.last().item@)),
    {
        self.block.always_returns()
    }
}

} // verus!

verus! {

/// the renumbering applied to the instructions already in a block that received `k` phi instructions
pub open spec fn shift_mapper(first: Option<EntityV>, k: int) -> IncrementMapper {
    IncrementMapper {
        offset: k as usize,
        from_value: match first_register_number(first) {
            Some(n) => n,
            None => 0,
        },
    }
}

/// every variable held in two different entities by two predecessors is merged by one of the phis
pub open spec fn phis_complete(r: Seq<InstructionV>, k: int, preds: Seq<(String, Env<Entity>)>) -> bool {
    forall|p1: int, p2: int, v: Seq<char>|
        0 <= p1 < preds.len() && 0 <= p2 < preds.len()
        && (#[trigger] preds[p1].1.lookup(v)) is Some && (#[trigger] preds[p2].1.lookup(v)) is Some
        && preds[p1].1.lookup(v)->0@ != preds[p2].1.lookup(v)->0@
        ==> exists|i: int| 0 <= i < k
            && (#[trigger] phi_args_of(r[i])).contains((preds[p1].1.lookup(v)->0@, preds[p1].0@))
            && phi_args_of(r[i]).contains((preds[p2].1.lookup(v)->0@, preds[p2].0@))
}

/// `args` are exactly the locations of the variable `v` in the predecessors: each entity that a
/// predecessor binds `v` to, with the label of that predecessor
pub open spec fn exact_locations(preds: Seq<(String, Env<Entity>)>, v: Seq<char>, args: Seq<(EntityV, Seq<char>)>) -> bool {
    forall|e: EntityV, l: Seq<char>| #![trigger args.contains((e, l))] #![trigger bound_in_predecessor(preds, v, e, l)]
        args.contains((e, l)) <==> bound_in_predecessor(preds, v, e, l)
}

/// two predecessors hold the variable `v` in different entities
pub open spec fn held_differently(preds: Seq<(String, Env<Entity>)>, v: Seq<char>) -> bool {
    exists|p1: int, p2: int| 0 <= p1 < preds.len() && 0 <= p2 < preds.len()
        && (#[trigger] preds[p1].1.lookup(v)) is Some && (#[trigger] preds[p2].1.lookup(v)) is Some
        && preds[p1].1.lookup(v)->0@ != preds[p2].1.lookup(v)->0@
}

/// the leading `k` instructions of `r` are the phis of the distinct variables `vars`, one for
/// each variable held differently by the predecessors, each listing exactly the locations of
/// its variable
pub open spec fn phi_vars(r: Seq<InstructionV>, k: int, preds: Seq<(String, Env<Entity>)>, vars: Seq<Seq<char>>) -> bool {
    &&& vars.len() == k
    &&& forall|i: int, j: int| 0 <= i < j < k ==> vars[i] != vars[j]
    &&& forall|i: int| 0 <= i < k ==> exact_locations(preds, vars[i], #[trigger] phi_args_of(r[i]))
    &&& forall|v: Seq<char>| #[trigger] held_differently(preds, v) ==> exists|i: int| 0 <= i < k && vars[i] == v
}

/// the leading `k` instructions of `r` are one phi per variable held differently by the
/// predecessors, each with exactly the locations of its variable as arguments
pub open spec fn phis_exact(r: Seq<InstructionV>, k: int, preds: Seq<(String, Env<Entity>)>) -> bool {
    exists|vars: Seq<Seq<char>>| phi_vars(r, k, preds, vars)
}

/// `m` maps each argument entity of the leading `k` phis of `r` to the result of a phi among
/// whose arguments it is, and nothing else
pub open spec fn mapping_of_phis(r: Seq<InstructionV>, k: int, m: Map<EntityV, EntityV>) -> bool {
    &&& forall|i: int, b: int| 0 <= i < k && 0 <= b < phi_args_of(r[i]).len()
        ==> m.contains_key(#[trigger] phi_args_of(r[i])[b].0)
    &&& forall|e: EntityV| #[trigger] m.contains_key(e) ==> exists|i: int, b: int| 0 <= i < k
        && 0 <= b < phi_args_of(r[i]).len() && phi_args_of(r[i])[b].0 == e && r[i].result == Some(m[e])
}

/// a new phi for `locs`, with all its entities mapped to its result, keeps the mapping that of
/// the phis
proof fn lemma_mapping_of_new_phi(before: Seq<InstructionV>, after: Seq<InstructionV>, shift: int,
    m0: Map<EntityV, EntityV>, m1: Map<EntityV, EntityV>, locs: Seq<(Entity, String)>, reg: EntityV)
    requires
        0 <= shift,
        before.len() == shift,
        after.len() == shift + 1,
        forall|i: int| 0 <= i < shift ==> after[i] == before[i],
        phi_args_of(after[shift]) == phi_args_view(locs),
        after[shift].result == Some(reg),
        mapping_of_phis(before, shift, m0),
        forall|e: EntityV| #[trigger] m1.contains_key(e) <==>
            (m0.contains_key(e) || exists|b: int| 0 <= b < locs.len() && locs[b].0@ == e),
        forall|e: EntityV| m1.contains_key(e) ==> #[trigger] m1[e] ==
            if exists|b: int| 0 <= b < locs.len() && locs[b].0@ == e { reg } else { m0[e] },
    ensures
        mapping_of_phis(after, shift + 1, m1),
{
    assert forall|i: int, b: int| 0 <= i < shift + 1 && 0 <= b < phi_args_of(after[i]).len()
        implies m1.contains_key(#[trigger] phi_args_of(after[i])[b].0) by {
        if i < shift {
            assert(after[i] == before[i]);
            assert(m0.contains_key(phi_args_of(before[i])[b].0));
        } else {
            assert(phi_args_of(after[i])[b].0 == locs[b].0@);
        }
    }
    assert forall|e: EntityV| #[trigger] m1.contains_key(e) implies exists|i: int, b: int| 0 <= i < shift + 1
        && 0 <= b < phi_args_of(after[i]).len() && phi_args_of(after[i])[b].0 == e && after[i].result == Some(m1[e]) by {
        if exists|b: int| 0 <= b < locs.len() && locs[b].0@ == e {
            let b = choose|b: int| 0 <= b < locs.len() && locs[b].0@ == e;
            assert(phi_args_of(after[shift])[b].0 == e);
        } else {
            let (i, b) = choose|i: int, b: int| 0 <= i < shift
                && 0 <= b < phi_args_of(before[i]).len() && phi_args_of(before[i])[b].0 == e && before[i].result == Some(m0[e]);
            assert(after[i] == before[i]);
        }
    }
}

/// the recorded locations of a variable are exactly its locations in the predecessors
proof fn lemma_locations_exact(locs: &PredecessorLocations, preds: Seq<(String, Env<Entity>)>, x: int)
    requires
        locs.describes(preds),
        0 <= x < locs.keys@.len(),
    ensures
        exact_locations(preds, locs.keys@[x]@, phi_args_view(locs.locations@[x]@)),
{
    reveal(PredecessorLocations::describes);
    let v = locs.keys@[x]@;
    let args = phi_args_view(locs.locations@[x]@);
    assert forall|e: EntityV, l: Seq<char>| args.contains((e, l)) <==> bound_in_predecessor(preds, v, e, l) by {
        if args.contains((e, l)) {
            let b = choose|b: int| 0 <= b < args.len() && args[b] == (e, l);
            assert(bound_in_predecessor(preds, v, locs.locations@[x]@[b].0@, locs.locations@[x]@[b].1@));
        }
        if bound_in_predecessor(preds, v, e, l) {
            let p = choose|p: int| 0 <= p < preds.len() && #[trigger] preds[p].0@ == l && preds[p].1.lookup(v) is Some
                && preds[p].1.lookup(v)->0@ == e;
            assert(locs.has_location(v, preds[p].1.lookup(v)->0@, preds[p].0@));
            let (a, b) = choose|a: int, b: int| 0 <= a < locs.keys@.len() && 0 <= b < locs.locations@[a]@.len()
                && #[trigger] locs.keys@[a]@ == v && (#[trigger] locs.locations@[a]@[b]).0@ == e && locs.locations@[a]@[b].1@ == l;
            assert(a == x);
            assert(args[b] == (e, l));
        }
    }
}

/// the phis made for increasing indices of the recorded variables are those of `phi_vars`
proof fn lemma_phi_vars(locs: &PredecessorLocations, preds: Seq<(String, Env<Entity>)>, r: Seq<InstructionV>, k: int,
    vars: Seq<Seq<char>>, idx: Seq<int>)
    requires
        locs.describes(preds),
        vars.len() == k,
        idx.len() == k,
        forall|i: int| 0 <= i < k ==> 0 <= #[trigger] idx[i] < locs.keys@.len() && vars[i] == locs.keys@[idx[i]]@
            && phi_args_of(r[i]) == phi_args_view(locs.locations@[idx[i]]@),
        forall|i: int, j: int| 0 <= i < j < k ==> idx[i] < idx[j],
        forall|x: int| 0 <= x < locs.keys@.len() && locs.unique@[x]@.len() >= 2 ==> exists|i: int| 0 <= i < k && #[trigger] idx[i] == x,
    ensures
        phi_vars(r, k, preds, vars),
{
    assert forall|i: int, j: int| 0 <= i < j < k implies vars[i] != vars[j] by {
        assert(idx[i] < idx[j]);
        if vars[i] == vars[j] {
            lemma_describes_unique_keys(locs, preds, idx[i], idx[j]);
        }
    }
    assert forall|i: int| 0 <= i < k implies exact_locations(preds, vars[i], #[trigger] phi_args_of(r[i])) by {
        lemma_locations_exact(locs, preds, idx[i]);
    }
    assert forall|v: Seq<char>| #[trigger] held_differently(preds, v) implies exists|i: int| 0 <= i < k && vars[i] == v by {
        let (p1, p2) = choose|p1: int, p2: int| 0 <= p1 < preds.len() && 0 <= p2 < preds.len()
            && (#[trigger] preds[p1].1.lookup(v)) is Some && (#[trigger] preds[p2].1.lookup(v)) is Some
            && preds[p1].1.lookup(v)->0@ != preds[p2].1.lookup(v)->0@;
        let e1 = preds[p1].1.lookup(v)->0@;
        let e2 = preds[p2].1.lookup(v)->0@;
        lemma_describes_location(locs, preds, p1, v);
        lemma_describes_location(locs, preds, p2, v);
        let (x1, y1) = choose|x: int, y: int| 0 <= x < locs.keys@.len() && 0 <= y < locs.locations@[x]@.len()
            && #[trigger] locs.keys@[x]@ == v && (#[trigger] locs.locations@[x]@[y]).0@ == e1 && locs.locations@[x]@[y].1@ == preds[p1].0@;
        let (x2, y2) = choose|x: int, y: int| 0 <= x < locs.keys@.len() && 0 <= y < locs.locations@[x]@.len()
            && #[trigger] locs.keys@[x]@ == v && (#[trigger] locs.locations@[x]@[y]).0@ == e2 && locs.locations@[x]@[y].1@ == preds[p2].0@;
        lemma_describes_facts(locs, preds, x1);
        lemma_describes_unique_keys(locs, preds, x1, x2);
        lemma_distinct_two(locs.locations@[x1]@, locs.unique@[x1]@, y1, y2);
        let i = choose|i: int| 0 <= i < k && #[trigger] idx[i] == x1;
        assert(vars[i] == v);
    }
}

/// map every entity of `locs` to `reg`
fn map_locations_to(mapping: &mut EntityMap, locs: &Vec<(Entity, String)>, reg: &Entity)
    ensures
        forall|e: EntityV| #[trigger] final(mapping).view_map().contains_key(e) <==>
            (old(mapping).view_map().contains_key(e) || exists|b: int| 0 <= b < locs@.len() && locs@[b].0@ == e),
        forall|e: EntityV| final(mapping).view_map().contains_key(e) ==> #[trigger] final(mapping).view_map()[e] ==
            if exists|b: int| 0 <= b < locs@.len() && locs@[b].0@ == e { reg@ } else { old(mapping).view_map()[e] },
{
    let mut b: usize = 0;
    while b < locs.len()
        invariant
            b <= locs@.len(),
            forall|e: EntityV| #[trigger] mapping.view_map().contains_key(e) <==>
                (old(mapping).view_map().contains_key(e) || exists|c: int| 0 <= c < b && locs@[c].0@ == e),
            forall|e: EntityV| mapping.view_map().contains_key(e) ==> #[trigger] mapping.view_map()[e] ==
                if exists|c: int| 0 <= c < b && locs@[c].0@ == e { reg@ } else { old(mapping).view_map()[e] },
        decreases locs@.len() - b,
    {
        mapping.insert(locs[b].0.copy(), reg.copy());
        b += 1;
    }
}

/// phi instructions for all variables held in at least two different entities, and the mapping
/// of those entities to the results of the phis
#[verifier::rlimit(60)]
fn create_phis(locs: &PredecessorLocations, first: &Option<Entity>, function_ctx: &mut FunctionContext,
    Ghost(preds): Ghost<Seq<(String, Env<Entity>)>>, Ghost(start): Ghost<int>) -> (r: (Vec<Instruction>, EntityMap))
    requires
        locs.describes(preds),
        locs.keys@.len() <= total_bindings(preds),
        total_bindings(preds) <= usize::MAX,
        old(function_ctx).available_register + total_bindings(preds) <= usize::MAX,
        first_register_number(opt_entity_view(*first)) matches Some(n) ==> n + total_bindings(preds) <= usize::MAX,
        start == match first_register_number(opt_entity_view(*first)) {
            Some(n) => n as int,
            None => old(function_ctx).available_register as int,
        },
    ensures
        final(function_ctx).available_uuid == old(function_ctx).available_uuid,
        final(function_ctx).compiled_blocks@ == old(function_ctx).compiled_blocks@,
        final(function_ctx).available_register == old(function_ctx).available_register + r.0@.len(),
        r.0@.len() <= locs.keys@.len(),
        phis_well_formed(instructions_view(r.0@), r.0@.len() as int, start, preds),
        forall|x: int| 0 <= x < locs.keys@.len() && locs.unique@[x]@.len() >= 2 ==> exists|i: int| 0 <= i < r.0@.len()
            && #[trigger] phi_args_of(instruction_view(r.0@[i])) == phi_args_view(locs.locations@[x]@),
        forall|e: EntityV| #[trigger] r.1.view_map().contains_key(e) ==> exists|i: int|
            0 <= i < r.0@.len() && instruction_view(r.0@[i]).result == Some(r.1.view_map()[e]),
        phis_exact(instructions_view(r.0@), r.0@.len() as int, preds),
        mapping_of_phis(instructions_view(r.0@), r.0@.len() as int, r.1.view_map()),
{
    let ghost ctx_start = function_ctx.available_register;
    let ghost mut vars: Seq<Seq<char>> = Seq::empty();
    let ghost mut idx: Seq<int> = Seq::empty();
    proof {
        reveal(PredecessorLocations::describes);
    }
    let mut phis: Vec<Instruction> = Vec::new();
    let mut mapping = EntityMap::new();
    let mut shift: usize = 0;
    let mut a: usize = 0;
    while a < locs.keys.len()
        invariant
            locs.describes(preds),
            locs.keys@.len() == locs.locations@.len(),
            locs.keys@.len() == locs.unique@.len(),
            forall|x: int| 0 <= x < locs.keys@.len() ==> (#[trigger] locs.locations@[x])@.len() > 0,
            locs.keys@.len() <= total_bindings(preds),
            a <= locs.keys@.len(),
            shift <= a,
            phis@.len() == shift,
            function_ctx.available_register == ctx_start + shift,
            ctx_start + total_bindings(preds) <= usize::MAX,
            first_register_number(opt_entity_view(*first)) matches Some(n) ==> n + total_bindings(preds) <= usize::MAX,
            start == match first_register_number(opt_entity_view(*first)) {
                Some(n) => n as int,
                None => ctx_start as int,
            },
            phis_well_formed(instructions_view(phis@), shift as int, start, preds),
            forall|x: int| 0 <= x < a && locs.unique@[x]@.len() >= 2 ==> exists|i: int| 0 <= i < shift
                && #[trigger] phi_args_of(instruction_view(phis@[i])) == phi_args_view(locs.locations@[x]@),
            forall|e: EntityV| #[trigger] mapping.view_map().contains_key(e) ==> exists|i: int|
                0 <= i < shift && instruction_view(phis@[i]).result == Some(mapping.view_map()[e]),
            function_ctx.available_uuid == old(function_ctx).available_uuid,
            function_ctx.compiled_blocks@ == old(function_ctx).compiled_blocks@,
            vars.len() == shift,
            idx.len() == shift,
            forall|i: int| 0 <= i < shift ==> 0 <= #[trigger] idx[i] < a && vars[i] == locs.keys@[idx[i]]@
                && phi_args_of(instruction_view(phis@[i])) == phi_args_view(locs.locations@[idx[i]]@),
            forall|i: int, j: int| 0 <= i < j < shift ==> idx[i] < idx[j],
            forall|x: int| 0 <= x < a && locs.unique@[x]@.len() >= 2 ==> exists|i: int| 0 <= i < shift && #[trigger] idx[i] == x,
            mapping_of_phis(instructions_view(phis@), shift as int, mapping.view_map()),
        decreases locs.keys.len() - a,
    {
        if locs.unique[a].len() >= 2 {
            let variable_t = locs.locations[a][0].0.get_type();
            let available_register = function_ctx.new_register(variable_t.copy());
            let actual_phi_register = match first {
                Some(Entity::Register { n, t: _ }) => Entity::Register { n: *n + shift, t: variable_t },
                _ => available_register,
            };
            let args = copy_phi_args(&locs.locations[a]);
            let ghost phis_before = phis@;
            let phi = InstructionKind::Phi { args }.with_result(actual_phi_register.copy());
            phis.push(phi);
            let ghost map_before = mapping.view_map();
            map_locations_to(&mut mapping, &locs.locations[a], &actual_phi_register);
            proof {
                lemma_describes_facts(locs, preds, a as int);
                assert(phis@.subrange(0, shift as int) =~= phis_before);
                lemma_new_phi(locs, phis_before, phis@, preds, a as int, shift as int, start);
                assert forall|e: EntityV| #[trigger] mapping.view_map().contains_key(e) implies exists|i: int|
                    0 <= i < shift + 1 && instruction_view(phis@[i]).result == Some(mapping.view_map()[e]) by {
                    if mapping.view_map()[e] == actual_phi_register@ {
                        assert(instruction_view(phis@[shift as int]).result == Some(actual_phi_register@));
                    } else {
                        let i = choose|i: int| 0 <= i < shift && instruction_view(phis_before[i]).result == Some(map_before[e]);
                        assert(phis@[i] == phis_before[i]);
                    }
                }
                lemma_mapping_of_new_phi(instructions_view(phis_before), instructions_view(phis@), shift as int,
                    map_before, mapping.view_map(), locs.locations@[a as int]@, actual_phi_register@);
                let vars0 = vars;
                let idx0 = idx;
                vars = vars.push(locs.keys@[a as int]@);
                idx = idx.push(a as int);
                assert forall|i: int| 0 <= i < shift + 1 implies 0 <= #[trigger] idx[i] < a + 1 && vars[i] == locs.keys@[idx[i]]@
                    && phi_args_of(instruction_view(phis@[i])) == phi_args_view(locs.locations@[idx[i]]@) by {
                    if i < shift {
                        assert(idx[i] == idx0[i]);
                        assert(phis@[i] == phis_before[i]);
                    }
                }
                assert forall|x: int| 0 <= x < a + 1 && locs.unique@[x]@.len() >= 2 implies exists|i: int| 0 <= i < shift + 1 && #[trigger] idx[i] == x by {
                    if x < a {
                        let i = choose|i: int| 0 <= i < shift && #[trigger] idx0[i] == x;
                        assert(idx[i] == x);
                    } else {
                        assert(idx[shift as int] == x);
                    }
                }
            }
            shift += 1;
        }
        a += 1;
    }
    proof {
        lemma_phi_vars(locs, preds, instructions_view(phis@), shift as int, vars, idx);
    }
    (phis, mapping)
}

/// what a description of the predecessors says about variable `a`
proof fn lemma_describes_facts(locs: &PredecessorLocations, preds: Seq<(String, Env<Entity>)>, a: int)
    requires
        locs.describes(preds),
        0 <= a < locs.keys@.len(),
    ensures
        locs.keys@.len() == locs.locations@.len(),
        locs.keys@.len() == locs.unique@.len(),
        distinct_entities_of(locs.locations@[a]@, locs.unique@[a]@),
        all_bound(preds, locs.keys@[a]@, phi_args_view(locs.locations@[a]@)),
{
    reveal(PredecessorLocations::describes);
    let args_v = phi_args_view(locs.locations@[a]@);
    assert forall|b: int| 0 <= b < args_v.len() implies bound_in_predecessor(preds, locs.keys@[a]@, #[trigger] args_v[b].0, args_v[b].1) by {
        assert(bound_in_predecessor(preds, locs.keys@[a]@, locs.locations@[a]@[b].0@, locs.locations@[a]@[b].1@));
    }
}

/// a variable bound by a predecessor is recorded with its entity
proof fn lemma_describes_location(locs: &PredecessorLocations, preds: Seq<(String, Env<Entity>)>, p: int, v: Seq<char>)
    requires
        locs.describes(preds),
        0 <= p < preds.len(),
        preds[p].1.lookup(v) is Some,
    ensures
        locs.has_location(v, preds[p].1.lookup(v)->0@, preds[p].0@),
{
    reveal(PredecessorLocations::describes);
}

/// recorded variables are distinct
proof fn lemma_describes_unique_keys(locs: &PredecessorLocations, preds: Seq<(String, Env<Entity>)>, x1: int, x2: int)
    requires
        locs.describes(preds),
        0 <= x1 < locs.keys@.len(),
        0 <= x2 < locs.keys@.len(),
        locs.keys@[x1]@ == locs.keys@[x2]@,
    ensures
        x1 == x2,
{
    reveal(PredecessorLocations::describes);
}

/// adding the phi of variable `a` keeps the phis well formed and records it
#[verifier::rlimit(60)]
proof fn lemma_new_phi(locs: &PredecessorLocations, before: Seq<Instruction>, after: Seq<Instruction>,
    preds: Seq<(String, Env<Entity>)>, a: int, shift: int, start: int)
    requires
        0 <= a < locs.keys@.len(),
        locs.keys@.len() == locs.unique@.len(),
        locs.keys@.len() == locs.locations@.len(),
        distinct_entities_of(locs.locations@[a]@, locs.unique@[a]@),
        all_bound(preds, locs.keys@[a]@, phi_args_view(locs.locations@[a]@)),
        locs.unique@[a]@.len() >= 2,
        before.len() == shift,
        after.len() == shift + 1,
        after.subrange(0, shift) == before,
        phis_well_formed(instructions_view(before), shift, start, preds),
        forall|x: int| 0 <= x < a && locs.unique@[x]@.len() >= 2 ==> exists|i: int| 0 <= i < shift
            && #[trigger] phi_args_of(instruction_view(before[i])) == phi_args_view(locs.locations@[x]@),
        phi_args_of(instruction_view(after[shift])) == phi_args_view(locs.locations@[a]@),
        instruction_view(after[shift]).kind is Phi,
        instruction_view(after[shift]).result matches Some(EntityV::Register { n, .. }) && n == start + shift,
    ensures
        phis_well_formed(instructions_view(after), shift + 1, start, preds),
        forall|x: int| 0 <= x < a + 1 && locs.unique@[x]@.len() >= 2 ==> exists|i: int| 0 <= i < shift + 1
            && #[trigger] phi_args_of(instruction_view(after[i])) == phi_args_view(locs.locations@[x]@),
{
    let pv = instructions_view(after);
    let args_v = phi_args_view(locs.locations@[a]@);
    assert(phi_merges_variable(preds, args_v)) by {
        reveal(phi_merges_variable);
        let k = locs.keys@[a]@;
        let u = locs.unique@[a]@;
        let l = locs.locations@[a]@;
        lemma_distinct_witness(l, u);
        let (b1, b2) = choose|b1: int, b2: int| 0 <= b1 < l.len() && 0 <= b2 < l.len() && l[b1].0@ != l[b2].0@;
        assert(args_v[b1].0 != args_v[b2].0);
    }
    assert forall|i: int| 0 <= i < shift + 1 implies {
        &&& (#[trigger] pv[i]).kind is Phi
        &&& pv[i].result matches Some(EntityV::Register { n, .. }) && n == start + i
        &&& phi_merges_variable(preds, phi_args_of(pv[i]))
    } by {
        if i < shift {
            assert(after[i] == before[i]);
            assert(pv[i] == instructions_view(before)[i]);
        }
    }
    assert forall|x: int| 0 <= x < a + 1 && locs.unique@[x]@.len() >= 2 implies exists|i: int| 0 <= i < shift + 1
        && #[trigger] phi_args_of(instruction_view(after[i])) == phi_args_view(locs.locations@[x]@) by {
        if x < a {
            let i = choose|i: int| 0 <= i < shift && #[trigger] phi_args_of(instruction_view(before[i])) == phi_args_view(locs.locations@[x]@);
            assert(after[i] == before[i]);
        }
    }
}

/// renumber all instructions of `instrs`, appending them to `out`
fn append_mapped(out: &mut Vec<Instruction>, instrs: &Vec<Instruction>, inc: &IncrementMapper, mapping: &EntityMap,
    Ghost(big): Ghost<IncrementMapper>)
    requires
        big.from_value == 0,
        inc.offset <= big.offset,
        forall|i: int| 0 <= i < instrs@.len() ==> instr_mappable(#[trigger] instruction_view(instrs@[i]), big),
    ensures
        final(out)@.len() == old(out)@.len() + instrs@.len(),
        final(out)@.subrange(0, old(out)@.len() as int) == old(out)@,
        forall|j: int| 0 <= j < instrs@.len() ==> #[trigger] instruction_view(final(out)@[old(out)@.len() + j])
            == spec_map_instr(instruction_view(instrs@[j]), *inc, mapping.view_map()),
{
    let ghost start = out@.len();
    let mut i: usize = 0;
    while i < instrs.len()
        invariant
            i <= instrs@.len(),
            out@.len() == start + i,
            start == old(out)@.len(),
            out@.subrange(0, start as int) == old(out)@,
            big.from_value == 0,
            inc.offset <= big.offset,
            forall|i: int| 0 <= i < instrs@.len() ==> instr_mappable(#[trigger] instruction_view(instrs@[i]), big),
            forall|j: int| 0 <= j < i ==> #[trigger] instruction_view(out@[start + j])
                == spec_map_instr(instruction_view(instrs@[j]), *inc, mapping.view_map()),
        decreases instrs@.len() - i,
    {
        proof {
            lemma_mappable_weaken(instruction_view(instrs@[i as int]), big, *inc);
        }
        let ghost before = out@;
        let mapped = instrs[i].map_entities(inc, mapping);
        out.push(mapped);
        proof {
            assert(out@.subrange(0, start as int) =~= before.subrange(0, start as int));
            assert forall|j: int| 0 <= j < i + 1 implies #[trigger] instruction_view(out@[start + j])
                == spec_map_instr(instruction_view(instrs@[j]), *inc, mapping.view_map()) by {
                if j < i {
                    assert(out@[start + j] == before[start + j]);
                }
            }
        }
        i += 1;
    }
}

/// two different entities of one variable are merged by the phi of that variable
#[verifier::rlimit(60)]
proof fn lemma_phis_complete(locs: &PredecessorLocations, r: Seq<InstructionV>, k: int, preds: Seq<(String, Env<Entity>)>)
    requires
        locs.describes(preds),
        forall|x: int| 0 <= x < locs.keys@.len() && locs.unique@[x]@.len() >= 2 ==> exists|i: int| 0 <= i < k
            && #[trigger] phi_args_of(r[i]) == phi_args_view(locs.locations@[x]@),
    ensures
        phis_complete(r, k, preds),
{
    assert forall|p1: int, p2: int, v: Seq<char>|
        0 <= p1 < preds.len() && 0 <= p2 < preds.len()
        && (#[trigger] preds[p1].1.lookup(v)) is Some && (#[trigger] preds[p2].1.lookup(v)) is Some
        && preds[p1].1.lookup(v)->0@ != preds[p2].1.lookup(v)->0@
        implies exists|i: int| 0 <= i < k
            && (#[trigger] phi_args_of(r[i])).contains((preds[p1].1.lookup(v)->0@, preds[p1].0@))
            && phi_args_of(r[i]).contains((preds[p2].1.lookup(v)->0@, preds[p2].0@)) by {
        let e1 = preds[p1].1.lookup(v)->0@;
        let e2 = preds[p2].1.lookup(v)->0@;
        lemma_describes_location(locs, preds, p1, v);
        lemma_describes_location(locs, preds, p2, v);
        let (x1, y1) = choose|x: int, y: int| 0 <= x < locs.keys@.len() && 0 <= y < locs.locations@[x]@.len()
            && #[trigger] locs.keys@[x]@ == v && (#[trigger] locs.locations@[x]@[y]).0@ == e1 && locs.locations@[x]@[y].1@ == preds[p1].0@;
        let (x2, y2) = choose|x: int, y: int| 0 <= x < locs.keys@.len() && 0 <= y < locs.locations@[x]@.len()
            && #[trigger] locs.keys@[x]@ == v && (#[trigger] locs.locations@[x]@[y]).0@ == e2 && locs.locations@[x]@[y].1@ == preds[p2].0@;
        lemma_describes_facts(locs, preds, x1);
        lemma_describes_unique_keys(locs, preds, x1, x2);
        let l = locs.locations@[x1]@;
        let u = locs.unique@[x1]@;
        lemma_distinct_two(l, u, y1, y2);
        let i = choose|i: int| 0 <= i < k && #[trigger] phi_args_of(r[i]) == phi_args_view(locs.locations@[x1]@);
        let args = phi_args_view(l);
        assert(args[y1] == (e1, preds[p1].0@));
        assert(args[y2] == (e2, preds[p2].0@));
    }
}

impl BlockBuilder {
    /// get entity mapping from already built block, that can later be applied to another block
    pub fn get_entity_mapping(&self) -> (r: &EntityMap)
        requires
            self.entity_mapping is Some,
        ensures
            *r == self.entity_mapping->0,
    {
        self.entity_mapping.as_ref().unwrap()
    }

    /// the block can be built: predecessor environments are consistent and register numbers
    /// leave room for the phi instructions
    pub open spec fn can_build(&self, ctx: FunctionContext) -> bool {
        &&& self.predecessors.wf()
        &&& forall|p: int| 0 <= p < self.predecessors.entries@.len() ==> (#[trigger] self.predecessors.entries@[p]).1.wf()
        &&& self.block.mappable(IncrementMapper { offset: total_bindings(self.predecessors.entries@) as usize, from_value: 0 })
        &&& total_bindings(self.predecessors.entries@) <= usize::MAX
        &&& ctx.available_register + total_bindings(self.predecessors.entries@) <= usize::MAX
    }

    /// build the block, adding all necessary phi instructions at the beginning
    pub fn build(&mut self, function_ctx: &mut FunctionContext) -> (r: BasicBlock)
        requires
            old(self).can_build(*old(function_ctx)),
        ensures
            final(function_ctx).available_uuid == old(function_ctx).available_uuid,
            final(function_ctx).compiled_blocks@ == old(function_ctx).compiled_blocks@,
            final(self).predecessors == old(self).predecessors,
            old(self).predecessors.entries@.len() < 2 ==> {
                &&& r@ == old(self).block@
                &&& final(self).block == old(self).block
                &&& final(self).entity_mapping == old(self).entity_mapping
                &&& final(function_ctx).available_register == old(function_ctx).available_register
            },
            old(self).predecessors.entries@.len() >= 2 ==> ({
                let old_instrs = old(self).block@.instructions;
                let k = r@.instructions.len() - old_instrs.len();
                let first = lowest_register(old_instrs);
                let start = match first_register_number(first) {
                    Some(n) => n as int,
                    None => old(function_ctx).available_register as int,
                };
                let preds = old(self).predecessors.entries@;
                &&& 0 <= k <= total_bindings(preds)
                &&& r@.label == old(self).block@.label
                &&& final(self).block@ == r@
                &&& final(self).entity_mapping is Some
                &&& final(function_ctx).available_register == old(function_ctx).available_register + k
                &&& phis_well_formed(r@.instructions, k, start, preds)
                &&& phis_complete(r@.instructions, k, preds)
                &&& phis_exact(r@.instructions, k, preds)
                &&& mapping_of_phis(r@.instructions, k, final(self).entity_mapping->0.view_map())
                &&& forall|j: int| 0 <= j < old_instrs.len() ==> #[trigger] r@.instructions[k + j]
                    == spec_map_instr(old_instrs[j], shift_mapper(first, k), final(self).entity_mapping->0.view_map())
                &&& forall|e: EntityV| #[trigger] final(self).entity_mapping->0.view_map().contains_key(e) ==> exists|i: int|
                    0 <= i < k && r@.instructions[i].result == Some(final(self).entity_mapping->0.view_map()[e])
            }),
    {
        if self.predecessors.len() < 2 {
            return self.block.copy();
        }
        let ghost preds = self.predecessors.entries@;
        let ghost old_instrs = self.block@.instructions;
        let ghost ctx_start = function_ctx.available_register;
        let ghost big = IncrementMapper { offset: total_bindings(preds) as usize, from_value: 0 };
        let locs = collect_predecessor_locations(&self.predecessors);
        let first = self.block.get_first_register();
        let ghost start: int = match first_register_number(lowest_register(old_instrs)) {
            Some(n) => n as int,
            None => ctx_start as int,
        };
        proof {
            if first_register_number(lowest_register(old_instrs)) is Some {
                // the first register is the result of some instruction, so it can be renumbered
                crate::backend::ir::lemma_lowest_register(old_instrs);
                let i = choose|i: int| 0 <= i < old_instrs.len() && old_instrs[i].result == lowest_register(old_instrs);
                assert(instr_mappable(instruction_view(self.block.instructions@[i]), big));
            }
        }
        let (mut phis, mapping) = create_phis(&locs, &first, function_ctx, Ghost(preds), Ghost(start));
        let shift = phis.len();
        let from_value = match &first {
            Some(Entity::Register { n, t: _ }) => *n,
            _ => 0,
        };
        let increment_mapper = IncrementMapper { offset: shift, from_value };
        let ghost phis_only = phis@;
        append_mapped(&mut phis, &self.block.instructions, &increment_mapper, &mapping, Ghost(big));
        self.block.instructions = phis;
        let ghost final_map = mapping.view_map();
        self.entity_mapping = Some(mapping);
        let r = self.block.copy();
        proof {
            let rv = r@.instructions;
            assert(rv.len() - old_instrs.len() == shift);
            assert forall|i: int| 0 <= i < shift implies #[trigger] rv[i] == instructions_view(phis_only)[i] by {
                assert(phis@[i] == phis_only[i]);
            }
            assert(phis_well_formed(rv, shift as int, start, preds));
            assert forall|x: int| 0 <= x < locs.keys@.len() && locs.unique@[x]@.len() >= 2 implies exists|i: int| 0 <= i < shift
                && #[trigger] phi_args_of(rv[i]) == phi_args_view(locs.locations@[x]@) by {
                let i = choose|i: int| 0 <= i < shift
                    && #[trigger] phi_args_of(instruction_view(phis_only[i])) == phi_args_view(locs.locations@[x]@);
                assert(rv[i] == instructions_view(phis_only)[i]);
            }
            lemma_phis_complete(&locs, rv, shift as int, preds);
            let pv = instructions_view(phis_only);
            let vars = choose|vars: Seq<Seq<char>>| phi_vars(pv, shift as int, preds, vars);
            assert forall|i: int| 0 <= i < shift implies exact_locations(preds, vars[i], #[trigger] phi_args_of(rv[i])) by {
                assert(rv[i] == pv[i]);
                assert(exact_locations(preds, vars[i], phi_args_of(pv[i])));
            }
            assert(phi_vars(rv, shift as int, preds, vars));
            assert forall|i: int, b: int| 0 <= i < shift && 0 <= b < phi_args_of(rv[i]).len()
                implies final_map.contains_key(#[trigger] phi_args_of(rv[i])[b].0) by {
                assert(rv[i] == pv[i]);
                assert(final_map.contains_key(phi_args_of(pv[i])[b].0));
            }
            assert forall|e: EntityV| #[trigger] final_map.contains_key(e) implies exists|i: int, b: int| 0 <= i < shift
                && 0 <= b < phi_args_of(rv[i]).len() && phi_args_of(rv[i])[b].0 == e && rv[i].result == Some(final_map[e]) by {
                let (i, b) = choose|i: int, b: int| 0 <= i < shift
                    && 0 <= b < phi_args_of(pv[i]).len() && phi_args_of(pv[i])[b].0 == e && pv[i].result == Some(final_map[e]);
                assert(rv[i] == pv[i]);
            }
            assert forall|j: int| 0 <= j < old_instrs.len() implies #[trigger] rv[shift + j]
                == spec_map_instr(old_instrs[j], shift_mapper(lowest_register(old_instrs), shift as int), final_map) by {
                assert(old_instrs[j] == instruction_view(self.block.instructions@[shift + j - shift]) || true);
            }
            assert forall|e: EntityV| #[trigger] final_map.contains_key(e) implies exists|i: int|
                0 <= i < shift && rv[i].result == Some(final_map[e]) by {
                let i = choose|i: int| 0 <= i < shift && instruction_view(phis_only[i]).result == Some(final_map[e]);
                assert(rv[i] == instructions_view(phis_only)[i]);
            }
        }
        r
    }
}

/// checks that an entity can be renumbered with `inc`
pub fn entity_fits(e: &Entity, inc: &IncrementMapper) -> (r: bool)
    ensures
        r == entity_mappable(e@, *inc),
{
    match e {
        Entity::Register { n, .. } => *n < inc.from_value || *n <= usize::MAX - inc.offset,
        _ => true,
    }
}

/// checks that an instruction can be renumbered with `inc`
pub fn instruction_fits(i: &Instruction, inc: &IncrementMapper) -> (r: bool)
    ensures
        r == instr_mappable(instruction_view(*i), *inc),
{
    let kind_ok = match &i.item {
        InstructionKind::Load { ptr } => entity_fits(ptr, inc),
        InstructionKind::Store { val, ptr } => entity_fits(val, inc) && entity_fits(ptr, inc),
        InstructionKind::GetStructElementPtr { var, idx, .. } => entity_fits(var, inc) && entity_fits(idx, inc),
        InstructionKind::GetArrayElementPtr { var, idx, .. } => entity_fits(var, inc) && entity_fits(idx, inc),
        InstructionKind::BitCast { ent, .. } => entity_fits(ent, inc),
        InstructionKind::UnaryOp { arg, .. } => entity_fits(arg, inc),
        InstructionKind::BinaryOp { l, r, .. } => entity_fits(l, inc) && entity_fits(r, inc),
        InstructionKind::Call { args, .. } => {
            let mut ok = true;
            let mut j: usize = 0;
            while j < args.len()
                invariant
                    j <= args@.len(),
                    ok == forall|t: int| 0 <= t < j ==> entity_mappable(#[trigger] entities_view(args@)[t], *inc),
                decreases args.len() - j,
            {
                let f = entity_fits(&args[j], inc);
                proof {
                    assert(entities_view(args@)[j as int] == args@[j as int]@);
                    if !f {
                        assert(!entity_mappable(entities_view(args@)[j as int], *inc));
                    }
                }
                ok = ok && f;
                j += 1;
            }
            ok
        },
        InstructionKind::RetVal { val } => entity_fits(val, inc),
        InstructionKind::JumpCond { cond, .. } => entity_fits(cond, inc),
        _ => true,
    };
    let result_ok = match &i.meta {
        Some(e) => match e {
            Entity::Register { .. } => entity_fits(e, inc),
            _ => false,
        },
        None => true,
    };
    kind_ok && result_ok
}

impl BasicBlock {
    /// checks that all instructions of the block can be renumbered with `inc`
    pub fn can_map(&self, inc: &IncrementMapper) -> (r: bool)
        ensures
            r == self.mappable(*inc),
    {
        let mut j: usize = 0;
        while j < self.instructions.len()
            invariant
                j <= self.instructions@.len(),
                forall|t: int| 0 <= t < j ==> instr_mappable(#[trigger] instruction_view(self.instructions@[t]), *inc),
            decreases self.instructions.len() - j,
        {
            if !instruction_fits(&self.instructions[j], inc) {
                return false;
            }
            j += 1;
        }
        true
    }
}

impl BlockBuilder {
    /// checks that the block can be built in the given function context without running out
    /// of register numbers (the predecessor environments are assumed to be consistent)
    pub fn ready_to_build(&self, ctx: &FunctionContext) -> (r: bool)
        requires
            self.predecessors.wf(),
            forall|p: int| 0 <= p < self.predecessors.entries@.len() ==> (#[trigger] self.predecessors.entries@[p]).1.wf(),
        ensures
            r == self.can_build(*ctx),
    {
        let preds = &self.predecessors.entries;
        let mut total: usize = 0;
        let mut p: usize = 0;
        while p < preds.len()
            invariant
                preds@ == self.predecessors.entries@,
                p <= preds@.len(),
                total == total_bindings(preds@.subrange(0, p as int)),
            decreases preds.len() - p,
        {
            proof {
                lemma_total_bindings_prefix(preds@, p as int);
            }
            let n = preds[p].1.entries.len();
            if total > usize::MAX - n {
                assert(total_bindings(preds@) > usize::MAX);
                return false;
            }
            total = total + n;
            p += 1;
        }
        proof {
            assert(preds@.subrange(0, preds@.len() as int) =~= preds@);
        }
        if ctx.available_register > usize::MAX - total {
            return false;
        }
        let inc = IncrementMapper { offset: total, from_value: 0 };
        self.block.can_map(&inc)
    }
}

} // verus!
