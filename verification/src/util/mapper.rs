//! The mapper pattern: a transformation of a syntax tree, node by node.
use vstd::prelude::*;

use crate::frontend::ast::{Block, Class, Expression, Function, Program, Reference, Statement};
use crate::util::env::Env;

verus! {

/// a transformation of syntax trees with metadata `FromMeta` to trees with metadata `ToMeta`,
/// which may fail with errors of type `ErrT`; the trees are taken by value
pub trait AstMapper<FromMeta, ToMeta, ErrT>: Sized {
    /// the state of the mapper is consistent
    spec fn mapper_inv(&self) -> bool;

    /// what the mapper guarantees of a function it mapped
    spec fn function_mapped(from: Function<FromMeta>, to: Function<ToMeta>) -> bool;

    /// the mapper maps every function and every class, never failing
    spec fn infallible() -> bool;

    /// reference to a variable or object property
    fn map_var_reference(&mut self, r: Reference<FromMeta>) -> (res: Result<Reference<ToMeta>, Vec<ErrT>>)
        requires
            old(self).mapper_inv(),
        ensures
            final(self).mapper_inv(),
            res matches Err(e) ==> e@.len() >= 1,
    ;

    /// reference to function or object method
    fn map_func_reference(&mut self, r: Reference<FromMeta>) -> (res: Result<Reference<ToMeta>, Vec<ErrT>>)
        requires
            old(self).mapper_inv(),
        ensures
            final(self).mapper_inv(),
            res matches Err(e) ==> e@.len() >= 1,
    ;

    fn map_block(&mut self, block: Block<FromMeta>) -> (res: Result<Block<ToMeta>, Vec<ErrT>>)
        requires
            old(self).mapper_inv(),
        ensures
            final(self).mapper_inv(),
            res matches Err(e) ==> e@.len() >= 1,
    ;

    fn map_expression(&mut self, expr: Expression<FromMeta>) -> (res: Result<Expression<ToMeta>, Vec<ErrT>>)
        requires
            old(self).mapper_inv(),
        ensures
            final(self).mapper_inv(),
            res matches Err(e) ==> e@.len() >= 1,
    ;

    fn map_statement(&mut self, stmt: Statement<FromMeta>) -> (res: Result<Statement<ToMeta>, Vec<ErrT>>)
        requires
            old(self).mapper_inv(),
        ensures
            final(self).mapper_inv(),
            res matches Err(e) ==> e@.len() >= 1,
    ;

    fn map_class(&mut self, class: Class<FromMeta>) -> (res: Result<Class<ToMeta>, Vec<ErrT>>)
        requires
            old(self).mapper_inv(),
        ensures
            final(self).mapper_inv(),
            res matches Err(e) ==> e@.len() >= 1,
            res matches Ok(c) ==> c.item.vars.keys() == class.item.vars.keys()
                && c.item.methods.keys() == class.item.methods.keys(),
            Self::infallible() ==> res is Ok,
    ;

    fn map_function(&mut self, function: Function<FromMeta>) -> (res: Result<Function<ToMeta>, Vec<ErrT>>)
        requires
            old(self).mapper_inv(),
        ensures
            final(self).mapper_inv(),
            res matches Err(e) ==> e@.len() >= 1,
            res matches Ok(f) ==> Self::function_mapped(function, f),
            Self::infallible() ==> res is Ok,
    ;

    /// main ast mapper function: maps all functions, then all classes; the program is mapped
    /// when all of them are, and otherwise the errors of all of them are returned
    fn map_program(&mut self, program: Program<FromMeta>) -> (res: Result<Program<ToMeta>, Vec<ErrT>>)
        requires
            old(self).mapper_inv(),
        ensures
            final(self).mapper_inv(),
            res matches Ok(p) ==> p.functions.keys() == program.functions.keys() && p.classes.keys() == program.classes.keys(),
            res matches Ok(p) ==> forall|i: int| 0 <= i < p.functions.entries@.len() ==>
                Self::function_mapped(program.functions.entries@[i].1, #[trigger] p.functions.entries@[i].1),
            res matches Ok(p) ==> forall|i: int| 0 <= i < p.classes.entries@.len() ==>
                (#[trigger] p.classes.entries@[i]).1.item.vars.keys() == program.classes.entries@[i].1.item.vars.keys()
                && p.classes.entries@[i].1.item.methods.keys() == program.classes.entries@[i].1.item.methods.keys(),
            res matches Err(e) ==> e@.len() >= 1,
            Self::infallible() ==> res is Ok,
    {
        let Program { classes, functions } = program;
        let ghost fkeys = functions.keys();
        let ghost ckeys = classes.keys();

        // map all functions, collect errors
        let mut errors: Vec<ErrT> = Vec::new();
        let mut mapped_functions: Vec<(String, Function<ToMeta>)> = Vec::new();
        let mut rest = functions.entries;
        let ghost all = rest@;
        let total = rest.len();
        let mut k: usize = 0;
        while rest.len() > 0
            invariant
                self.mapper_inv(),
                all.len() == total,
                rest@.len() + k == total,
                forall|i: int| 0 <= i < rest@.len() ==> rest@[i] == all[k + i],
                fkeys == crate::util::env::keys_of(all),
                Self::infallible() ==> errors@.len() == 0,
                errors@.len() == 0 ==> mapped_functions@.len() == k
                    && forall|i: int| 0 <= i < k ==> (#[trigger] mapped_functions@[i]).0@ == all[i].0@
                        && Self::function_mapped(all[i].1, mapped_functions@[i].1),
            decreases rest.len(),
        {
            let (key, func) = rest.remove(0);
            match self.map_function(func) {
                Ok(mapped) => {
                    mapped_functions.push((key, mapped));
                },
                Err(mut e) => {
                    errors.append(&mut e);
                },
            }
            k += 1;
        }

        // map all classes, collect errors
        let mut mapped_classes: Vec<(String, Class<ToMeta>)> = Vec::new();
        let ghost mapped_f = mapped_functions@;
        let mut rest = classes.entries;
        let ghost all_c = rest@;
        let total = rest.len();
        let mut k: usize = 0;
        let ghost function_errors = errors@.len();
        while rest.len() > 0
            invariant
                self.mapper_inv(),
                all_c.len() == total,
                rest@.len() + k == total,
                forall|i: int| 0 <= i < rest@.len() ==> rest@[i] == all_c[k + i],
                ckeys == crate::util::env::keys_of(all_c),
                errors@.len() >= function_errors,
                Self::infallible() ==> errors@.len() == 0,
                mapped_functions@ == mapped_f,
                errors@.len() == 0 ==> mapped_classes@.len() == k
                    && forall|i: int| 0 <= i < k ==> (#[trigger] mapped_classes@[i]).0@ == all_c[i].0@
                        && mapped_classes@[i].1.item.vars.keys() == all_c[i].1.item.vars.keys()
                        && mapped_classes@[i].1.item.methods.keys() == all_c[i].1.item.methods.keys(),
            decreases rest.len(),
        {
            let (key, cls) = rest.remove(0);
            match self.map_class(cls) {
                Ok(mapped) => {
                    mapped_classes.push((key, mapped));
                },
                Err(mut e) => {
                    errors.append(&mut e);
                },
            }
            k += 1;
        }
        if errors.len() == 0 {
            let p = Program { classes: Env { entries: mapped_classes }, functions: Env { entries: mapped_functions } };
            proof {
                assert(p.functions.keys() =~= fkeys);
                assert(p.classes.keys() =~= ckeys);
            }
            Ok(p)
        } else {
            Err(errors)
        }
    }
}

} // verus!
