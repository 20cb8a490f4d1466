//! Back end of the compiler: compilation of checked programs to LLVM IR.
pub mod ir;
pub mod builder;
pub mod context;
pub mod display;
pub mod compiler;

use vstd::prelude::*;

use crate::backend::compiler::Compiler;
use crate::backend::compiler::program::{program_wf, is_program_compilable, function_supported, defines_function, lists_init_functions, root_fits, starts_unlabelled};
use crate::frontend::frontend_checked;
use crate::backend::display::llvm_text;
use crate::backend::context::global::{declares_function, function_name, lists_declarations, declarations_count};
use crate::backend::context::GlobalContext;
use crate::backend::ir::LLVM;
use crate::frontend::ast::Program;
use crate::meta::TypeMeta;
use crate::util::text::{joined, join};

verus! {

/// declarations of the functions of the runtime library
pub open spec fn builtin_declarations() -> Seq<Seq<char>> {
    seq![
        "declare i8* @__builtin_method__str__init__(i32)"@,
        "declare i8* @__builtin_method__str__concat__(i8*, i8*)"@,
        "declare void @__func__printInt(i32)"@,
        "declare void @__func__printString(i8*)"@,
        "declare void @__func__error()"@,
        "declare i32 @__func__readInt()"@,
        "declare i8* @__func__readString()"@,
    ]
}

/// text of a list of top-level items, one per line
pub open spec fn program_text(items: Seq<LLVM>) -> Seq<char> {
    joined(Seq::new(items.len(), |i: int| llvm_text(items[i])), "\n"@)
}

/// text of a list of top-level items, one per line
pub fn render(items: &Vec<LLVM>) -> (r: String)
    ensures
        r@ == program_text(items@),
{
    let mut lines: Vec<String> = Vec::new();
    let mut i: usize = 0;
    while i < items.len()
        invariant
            i <= items@.len(),
            lines@.len() == i,
            forall|j: int| 0 <= j < i ==> (#[trigger] lines@[j])@ == llvm_text(items@[j]),
        decreases items.len() - i,
    {
        lines.push(items[i].to_llvm());
        i += 1;
    }
    let r = join(&lines, "\n");
    proof {
        assert(crate::util::text::strings_view(lines@) =~= Seq::new(items@.len(), |j: int| llvm_text(items@[j])));
    }
    r
}

/// `text` is the LLVM text of a list of items that starts with the global declarations of the
/// compilation (first those of the runtime library), continues with the functions that create
/// instances of the classes whose structures are declared (every class without a parent whose
/// members fit the `i32` indices among them), and ends with the definitions of the functions of
/// the program, in their order
pub open spec fn is_compilation(program: Program<TypeMeta>, text: Seq<char>) -> bool {
    exists|items: Seq<LLVM>, g: GlobalContext| #![trigger program_text(items), lists_declarations(g, items)] {
        &&& text == program_text(items)
        &&& lists_declarations(g, items)
        &&& declarations_count(g) <= items.len() - program.functions.entries@.len()
        &&& lists_init_functions(items, declarations_count(g), items.len() - program.functions.entries@.len(),
            program.classes.entries@, g.struct_declarations)
        &&& forall|i: int| 0 <= i < program.classes.entries@.len() && root_fits(#[trigger] program.classes.entries@[i].1)
            ==> g.struct_declarations.lookup(program.classes.entries@[i].1.item.ident@) is Some
        &&& items.len() >= builtin_declarations().len() + program.functions.entries@.len()
        &&& forall|i: int| 0 <= i < builtin_declarations().len() ==>
            declares_function(#[trigger] items[i], builtin_declarations()[i])
        &&& forall|i: int| 0 <= i < program.functions.entries@.len() ==> defines_function(
            #[trigger] items[items.len() - program.functions.entries@.len() + i],
            function_name(program.functions.entries@[i].1.item.ident@))
        &&& forall|i: int| 0 <= i < program.functions.entries@.len() ==>
            starts_unlabelled(#[trigger] items[items.len() - program.functions.entries@.len() + i])
    }
}

/// compiles the program into the LLVM text, and tells whether some statement had to be left out
/// (one that uses a construct the compiler does not support, such as a method call)
fn compile_with_status(program: Program<TypeMeta>) -> (r: (String, bool))
    requires
        program_wf(program),
    ensures
        is_compilation(program, r.0@),
{
    let mut builtins: Vec<String> = vec![
        String::from_str("declare i8* @__builtin_method__str__init__(i32)"),
        String::from_str("declare i8* @__builtin_method__str__concat__(i8*, i8*)"),
        String::from_str("declare void @__func__printInt(i32)"),
        String::from_str("declare void @__func__printString(i8*)"),
        String::from_str("declare void @__func__error()"),
        String::from_str("declare i32 @__func__readInt()"),
        String::from_str("declare i8* @__func__readString()"),
    ];
    let ghost b = builtins@;
    proof {
        assert(crate::util::text::strings_view(b) =~= builtin_declarations()) by {
            reveal_strlit("declare i8* @__builtin_method__str__init__(i32)");
        }
    }
    let mut compiler = Compiler::with_builtin_functions(&mut builtins);
    let items = compiler.compile_program(program);
    let r = render(&items);
    proof {
        assert forall|i: int| 0 <= i < builtin_declarations().len() implies
            declares_function(#[trigger] items@[i], builtin_declarations()[i]) by {
            assert(b[i]@ == builtin_declarations()[i]);
        }
        assert(r@ == program_text(items@));
        assert(lists_declarations(compiler.function_compiler.global_context, items@));
    }
    (r, compiler.function_compiler.unsupported)
}

/// compiles the given program, assuming it meets all the necessary criteria (is checked by frontend)
/// into a string containing its LLVM intermediate representation; the declarations of the
/// runtime library come first (a statement that uses a construct the compiler does not support,
/// such as a method call, is left out)
pub fn compile(program: Program<TypeMeta>) -> (r: String)
    requires
        program_wf(program),
    ensures
        is_compilation(program, r@),
{
    compile_with_status(program).0
}

/// compiles the program if it meets what the compiler needs (see `program_wf`) and every
/// statement could be compiled, and gives `None` otherwise
pub fn compile_checked(program: Program<TypeMeta>) -> (r: Option<String>)
    ensures
        !program_wf(program) ==> r is None,
        r matches Some(text) ==> is_compilation(program, text@),
{
    if is_program_compilable(&program) {
        let ghost p = program;
        let (text, unsupported) = compile_with_status(program);
        if unsupported {
            None
        } else {
            Some(text)
        }
    } else {
        None
    }
}

/// A program that the front end accepted meets what the compiler needs, provided the statements
/// of its functions use only the constructs that the compiler supports.
pub proof fn checked_program_compiles(p: Program<TypeMeta>)
    requires
        frontend_checked(p),
        forall|i: int| 0 <= i < p.functions.entries@.len() ==> function_supported(#[trigger] p.functions.entries@[i].1),
    ensures
        program_wf(p),
{
}

} // verus!
