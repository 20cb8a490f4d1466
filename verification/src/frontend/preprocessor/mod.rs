//! Preprocessing of parsed programs: constant conditions and return statements.
pub mod ast_optimizer;
pub mod block_organizer;

use vstd::prelude::*;

use crate::frontend::ast::Program;
use crate::frontend::error::FrontendError;
use crate::frontend::preprocessor::ast_optimizer::{AstOptimizer, block_optimized, no_empty_statements};
use crate::frontend::preprocessor::block_organizer::{BlockOrganizer, block_organized, block_returns};
use crate::meta::LocationMeta;
use crate::util::mapper::AstMapper;

verus! {

/// replace conditionals with constant conditions by the branch they take, and remove empty
/// statements from the blocks of functions (see `block_optimized`)
pub fn optimize_constants(program: Program<LocationMeta>) -> (r: Result<Program<LocationMeta>, Vec<FrontendError<LocationMeta>>>)
    ensures
        r matches Ok(p) ==> p.functions.keys() == program.functions.keys() && p.classes.keys() == program.classes.keys()
            && forall|i: int| 0 <= i < p.functions.entries@.len() ==> no_empty_statements((#[trigger] p.functions.entries@[i]).1.item.block)
                && block_optimized(program.functions.entries@[i].1.item.block, p.functions.entries@[i].1.item.block),
        r matches Ok(p) ==> forall|i: int| 0 <= i < p.classes.entries@.len() ==>
                (#[trigger] p.classes.entries@[i]).1.item.vars.keys() == program.classes.entries@[i].1.item.vars.keys()
                && p.classes.entries@[i].1.item.methods.keys() == program.classes.entries@[i].1.item.methods.keys(),
        r is Ok,
{
    let mut optimizer = AstOptimizer;
    optimizer.map_program(program)
}

/// make every path through every function end with a return (see `block_organized`)
pub fn organize_blocks(program: Program<LocationMeta>) -> (r: Result<Program<LocationMeta>, Vec<FrontendError<LocationMeta>>>)
    ensures
        r matches Ok(p) ==> p.functions.keys() == program.functions.keys() && p.classes.keys() == program.classes.keys()
            && forall|i: int| 0 <= i < p.functions.entries@.len() ==> block_returns((#[trigger] p.functions.entries@[i]).1.item.block)
                && block_organized(program.functions.entries@[i].1.item.block, p.functions.entries@[i].1.item.block),
        r matches Ok(p) ==> forall|i: int| 0 <= i < p.classes.entries@.len() ==>
                (#[trigger] p.classes.entries@[i]).1.item.vars.keys() == program.classes.entries@[i].1.item.vars.keys()
                && p.classes.entries@[i].1.item.methods.keys() == program.classes.entries@[i].1.item.methods.keys(),
        r is Ok,
{
    let mut organizer = BlockOrganizer;
    organizer.map_program(program)
}

} // verus!
