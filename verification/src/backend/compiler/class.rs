//! Compilation of classes: the functions that create their instances.
use vstd::prelude::*;

use crate::backend::context::GlobalContext;
use crate::backend::ir::{BasicBlock, Entity, EntityV, FunctionDef, InstructionKind, InstructionKindV, InstructionV, StructDecl, instruction_view};
use crate::frontend::ast::{Class, Keyed, Type, TypeV};
use crate::meta::{GetType, TypeMeta};

verus! {

/// the instructions of the function that creates an instance of a structure: load the size
/// of the structure, allocate that many zeroed bytes, cast them and return them
pub open spec fn init_instructions(size_constant_name: Seq<char>, struct_t: TypeV) -> Seq<InstructionV> {
    seq![
        InstructionV {
            kind: InstructionKindV::Load { ptr: EntityV::GlobalConstInt { name: size_constant_name } },
            result: Some(EntityV::Register { n: 1, t: TypeV::Int }),
        },
        InstructionV {
            kind: InstructionKindV::Call {
                func: "__builtin_method__array__init__"@,
                args: seq![EntityV::Register { n: 1, t: TypeV::Int }],
            },
            result: Some(EntityV::Register { n: 2, t: TypeV::Str }),
        },
        InstructionV {
            kind: InstructionKindV::BitCast { ent: EntityV::Register { n: 2, t: TypeV::Str }, to: struct_t },
            result: Some(EntityV::Register { n: 3, t: struct_t }),
        },
        InstructionV {
            kind: InstructionKindV::RetVal { val: EntityV::Register { n: 3, t: struct_t } },
            result: None,
        },
    ]
}

/// compiler of the functions of a class
pub struct ClassCompiler {
    pub global_context: GlobalContext,
}

impl ClassCompiler {
    /// a compiler that uses (and extends) the given global context
    pub fn new(global_context: GlobalContext) -> (r: Self)
        ensures
            r.global_context == global_context,
    {
        ClassCompiler { global_context }
    }

    pub fn get_global_context(&self) -> (r: &GlobalContext)
        ensures
            *r == self.global_context,
    {
        &self.global_context
    }

    /// creates and compiles init function, used to initialize the struct representing a class
    pub fn compile_init_function(&mut self, func_name: String, struct_decl: StructDecl, struct_t: Type) -> (r: FunctionDef)
        ensures
            r.name@ == func_name@,
            r.ret_type@ == struct_t@,
            r.args@.len() == 0,
            r.body@.len() == 1,
            r.body@[0]@.label is None,
            r.body@[0]@.instructions == init_instructions(struct_decl.size_constant_name@, struct_t@),
            final(self).global_context == old(self).global_context,
    {
        // prepare necessary entities
        let load_ptr = Entity::GlobalConstInt { name: struct_decl.size_constant_name };
        let load_ent = Entity::Register { n: 1, t: Type::Int };
        let array_init_ent = Entity::Register { n: 2, t: Type::Str };
        let return_ent = Entity::Register { n: 3, t: struct_t.copy() };

        let mut instructions = Vec::new();
        // first, we load global constant representing the structure size
        instructions.push(InstructionKind::Load { ptr: load_ptr }.with_result(load_ent.copy()));
        // we use array init as a shorthand for malloc and memset
        let call_args = vec![load_ent];
        proof {
            assert(crate::backend::ir::entities_view(call_args@) =~= seq![EntityV::Register { n: 1, t: TypeV::Int }]);
        }
        instructions.push(InstructionKind::Call {
            func: String::from_str("__builtin_method__array__init__"),
            args: call_args,
        }.with_result(array_init_ent.copy()));
        // before returning, we cast the result to appropriate type
        instructions.push(InstructionKind::BitCast { ent: array_init_ent, to: struct_t.copy() }.with_result(return_ent.copy()));
        instructions.push(InstructionKind::RetVal { val: return_ent }.without_result());
        let block = BasicBlock { label: None, instructions };
        proof {
            assert(block@.instructions =~= init_instructions(struct_decl.size_constant_name@, struct_t@));
        }
        FunctionDef { name: func_name, ret_type: struct_t, args: Vec::new(), body: vec![block] }
    }

    /// compile the functions of a class (the function that creates its instances)
    pub fn compile_class(&mut self, class: Class<TypeMeta>) -> (r: Vec<FunctionDef>)
        requires
            old(self).global_context.struct_declarations.lookup(class.item.ident@) is Some,
        ensures
            r@.len() == 1,
            r@[0].name@ == "__init__"@ + class.item.ident@,
            r@[0].ret_type@ == class.meta.t@,
            r@[0].args@.len() == 0,
            r@[0].body@.len() == 1,
            r@[0].body@[0]@.label is None,
            r@[0].body@[0]@.instructions == init_instructions(
                old(self).global_context.struct_declarations.lookup(class.item.ident@)->0.size_constant_name@, class.meta.t@),
            final(self).global_context == old(self).global_context,
    {
        let struct_decl = self.global_context.get_struct_decl(class.get_key());
        let mut compiled_functions = Vec::new();
        let init_name = self.global_context.get_init_name(class.get_key());
        let init_func = self.compile_init_function(init_name, struct_decl, class.get_type());
        compiled_functions.push(init_func);
        compiled_functions
    }
}

} // verus!
