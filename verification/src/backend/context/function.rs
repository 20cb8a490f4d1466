//! Context of the function being compiled.
use vstd::prelude::*;

use crate::backend::builder::{IncrementMapper, MapEntities, EntityMap, spec_map_instrs};
use crate::backend::ir::{BasicBlock, BasicBlockV, Entity, EntityV};
use crate::frontend::ast::{Type, TypeV};

verus! {

pub struct FunctionContext {
    /// number of next available register
    pub available_register: usize,
    /// uuid for variables initialized to constant values
    pub available_uuid: usize,
    /// already compiled basic blocks
    pub compiled_blocks: Vec<BasicBlock>,
}

/// the mapper that renumbers nothing
pub open spec fn identity_mapper() -> IncrementMapper {
    IncrementMapper { offset: 0, from_value: 0 }
}

impl FunctionContext {
    pub fn new() -> (r: Self)
        ensures
            r.available_register == 1,
            r.available_uuid == 1,
            r.compiled_blocks@.len() == 0,
    {
        FunctionContext {
            available_register: 1,
            // 0 is reserved for built-in constants
            available_uuid: 1,
            compiled_blocks: Vec::new(),
        }
    }

    /// get new numbered register identifier
    pub fn new_register(&mut self, t: Type) -> (r: Entity)
        requires
            old(self).available_register < usize::MAX,
        ensures
            r@ == (EntityV::Register { n: old(self).available_register, t: t@ }),
            final(self).available_register == old(self).available_register + 1,
            final(self).available_uuid == old(self).available_uuid,
            final(self).compiled_blocks@ == old(self).compiled_blocks@,
    {
        let register_n = self.available_register;
        self.available_register += 1;
        Entity::Register { n: register_n, t }
    }

    /// get new unique identifier
    pub fn new_uuid(&mut self) -> (r: usize)
        requires
            old(self).available_uuid < usize::MAX,
        ensures
            r == old(self).available_uuid,
            final(self).available_uuid == old(self).available_uuid + 1,
            final(self).available_register == old(self).available_register,
            final(self).compiled_blocks@ == old(self).compiled_blocks@,
    {
        let uuid = self.available_uuid;
        self.available_uuid += 1;
        uuid
    }

    /// push new, compiled basic block to the function context
    pub fn push_block(&mut self, block: BasicBlock)
        ensures
            final(self).compiled_blocks@ == old(self).compiled_blocks@.push(block),
            final(self).available_register == old(self).available_register,
            final(self).available_uuid == old(self).available_uuid,
    {
        self.compiled_blocks.push(block);
    }

    /// map entities in instructions from the last compiled block using provided mapping
    pub fn map_entities_in_last_block(&mut self, mapping: &EntityMap)
        requires
            old(self).compiled_blocks@.len() > 0,
            old(self).compiled_blocks@.last().mappable(identity_mapper()),
        ensures
            final(self).compiled_blocks@.len() == old(self).compiled_blocks@.len(),
            final(self).compiled_blocks@.drop_last() == old(self).compiled_blocks@.drop_last(),
            final(self).compiled_blocks@.last()@ == (BasicBlockV {
                label: old(self).compiled_blocks@.last()@.label,
                instructions: spec_map_instrs(old(self).compiled_blocks@.last()@.instructions, identity_mapper(), mapping.view_map()),
            }),
            final(self).available_register == old(self).available_register,
            final(self).available_uuid == old(self).available_uuid,
    {
        let last_block = self.compiled_blocks.pop().unwrap();
        let inc = IncrementMapper { offset: 0, from_value: 0 };
        let mapped = last_block.map_entities(&inc, mapping);
        self.compiled_blocks.push(mapped);
    }

    /// concludes the current block and returns all compiled blocks
    pub fn conclude(&mut self) -> (r: Vec<BasicBlock>)
        ensures
            r@ == old(self).compiled_blocks@,
            final(self).compiled_blocks@.len() == 0,
            final(self).available_register == old(self).available_register,
            final(self).available_uuid == old(self).available_uuid,
    {
        let mut blocks: Vec<BasicBlock> = Vec::new();
        std::mem::swap(&mut blocks, &mut self.compiled_blocks);
        blocks
    }
}

/// Registers handed out by `new_register` one after another (with any number of others
/// between them) have different numbers.
pub proof fn law_registers_are_fresh(c0: FunctionContext, c1: FunctionContext, r1: EntityV, t1: TypeV, r2: EntityV, t2: TypeV)
    requires
        r1 == (EntityV::Register { n: c0.available_register, t: t1 }),
        c1.available_register >= c0.available_register + 1,
        r2 == (EntityV::Register { n: c1.available_register, t: t2 }),
    ensures
        r1 != r2,
{
}

/// Numbers handed out by `new_uuid` one after another (with any number of others between them)
/// are different.
pub proof fn law_uuids_are_fresh(c0: FunctionContext, c1: FunctionContext, u1: usize, u2: usize)
    requires
        u1 == c0.available_uuid,
        c1.available_uuid >= c0.available_uuid + 1,
        u2 == c1.available_uuid,
    ensures
        u1 != u2,
{
}

/// `conclude` after `push_block` gives back the blocks compiled before, then the pushed block,
/// and leaves no compiled block behind.
pub proof fn law_conclude_returns_pushed_blocks(c0: FunctionContext, c1: FunctionContext, c2: FunctionContext,
    b: BasicBlock, r: Seq<BasicBlock>)
    requires
        c1.compiled_blocks@ == c0.compiled_blocks@.push(b),
        r == c1.compiled_blocks@,
        c2.compiled_blocks@.len() == 0,
    ensures
        r.len() == c0.compiled_blocks@.len() + 1,
        r.last() == b,
        r.drop_last() == c0.compiled_blocks@,
        c2.compiled_blocks@.len() == 0,
{
    assert(r.drop_last() =~= c0.compiled_blocks@);
}

} // verus!
