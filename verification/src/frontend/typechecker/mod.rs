//! Type checking: types of every node of the syntax tree, and the errors of the program.
pub mod typechecker;
pub mod mapper;

use vstd::prelude::*;

use crate::frontend::ast::{Class, Function, Program, Type, TypeV, arg_types};
use crate::frontend::error::{FrontendError, FrontendErrorKind};
use crate::frontend::typechecker::mapper::{TypeCheckResult, args_type_env};
use crate::frontend::typechecker::typechecker::{ClassInfo, TypeChecker};
use crate::meta::{LocationMeta, Meta, TypeMeta};
use crate::util::env::{Env, find_in, lemma_find_in_push, lemma_find_in_some};
use crate::util::mapper::AstMapper;
use crate::util::text::concat3;

use crate::frontend::preprocessor::block_organizer::block_returns;

verus! {

/// type of a function with the given argument types and return type
pub open spec fn function_type(args: Seq<TypeV>, ret: TypeV) -> TypeV {
    TypeV::Function { args, ret: Box::new(ret) }
}

/// a function type with one argument
fn unary_function(arg: Type, ret: Type) -> (r: Type)
    ensures
        r@ == function_type(seq![arg@], ret@),
{
    let args = vec![Box::new(arg)];
    proof {
        crate::frontend::ast::lemma_types_view(args@);
        assert(crate::frontend::ast::types_view(args@) =~= seq![arg@]);
    }
    Type::Function { args, ret: Box::new(ret) }
}

/// a function type without arguments
fn nullary_function(ret: Type) -> (r: Type)
    ensures
        r@ == function_type(Seq::empty(), ret@),
{
    let args: Vec<Box<Type>> = Vec::new();
    proof {
        assert(crate::frontend::ast::types_view(args@) =~= Seq::<TypeV>::empty());
    }
    Type::Function { args, ret: Box::new(ret) }
}

/// get environment containing all builtin functions
pub fn get_builtins() -> (r: Env<Type>)
    ensures
        r.wf(),
        r.entries@.len() == 5,
        r.lookup("printInt"@) matches Some(t) && t@ == function_type(seq![TypeV::Int], TypeV::Void),
        r.lookup("printString"@) matches Some(t) && t@ == function_type(seq![TypeV::Str], TypeV::Void),
        r.lookup("readInt"@) matches Some(t) && t@ == function_type(Seq::empty(), TypeV::Int),
        r.lookup("readString"@) matches Some(t) && t@ == function_type(Seq::empty(), TypeV::Str),
        r.lookup("error"@) matches Some(t) && t@ == function_type(Seq::empty(), TypeV::Void),
{
    let mut env: Env<Type> = Env::new();
    proof {
        reveal_strlit("printInt");
        reveal_strlit("printString");
        reveal_strlit("readInt");
        reveal_strlit("readString");
        reveal_strlit("error");
        assert("printInt"@.len() == 8 && "printString"@.len() == 11 && "readInt"@.len() == 7);
        assert("readString"@.len() == 10 && "error"@.len() == 5);
        assert("printInt"@ != "printString"@);
        assert("printInt"@ != "readInt"@ && "printString"@ != "readInt"@);
        assert("printInt"@ != "readString"@ && "printString"@ != "readString"@ && "readInt"@ != "readString"@);
        assert("printInt"@ != "error"@ && "printString"@ != "error"@ && "readInt"@ != "error"@ && "readString"@ != "error"@);
    }
    let t1 = unary_function(Type::Int, Type::Void);
    let t2 = unary_function(Type::Str, Type::Void);
    let t3 = nullary_function(Type::Int);
    let t4 = nullary_function(Type::Str);
    let t5 = nullary_function(Type::Void);
    let ghost (v1, v2, v3, v4, v5) = (t1@, t2@, t3@, t4@, t5@);
    env.insert(String::from_str("printInt"), t1);
    env.insert(String::from_str("printString"), t2);
    env.insert(String::from_str("readInt"), t3);
    env.insert(String::from_str("readString"), t4);
    env.insert(String::from_str("error"), t5);
    proof {
        assert(env.lookup("printInt"@) matches Some(t) && t@ == v1);
        assert(env.lookup("printString"@) matches Some(t) && t@ == v2);
        assert(env.lookup("readInt"@) matches Some(t) && t@ == v3);
        assert(env.lookup("readString"@) matches Some(t) && t@ == v4);
    }
    env
}

/// conversion of the members of a syntax tree node to an environment of their types
pub trait ToTypeEnv {
    /// convert env with complex values to only store type information
    fn to_type_env(&self) -> (r: Env<Type>)
        ensures
            r.wf(),
    ;
}

impl ToTypeEnv for Function<LocationMeta> {
    /// creates Env containing types of all function arguments (a later argument with the
    /// same name wins)
    fn to_type_env(&self) -> (r: Env<Type>)
        ensures
            forall|i: int| 0 <= i < self.item.args@.len() ==> (#[trigger] r.lookup(self.item.args@[i].item.ident@)) is Some,
            forall|i: int| 0 <= i < self.item.args@.len()
                && (forall|j: int| i < j < self.item.args@.len() ==> self.item.args@[j].item.ident@ != self.item.args@[i].item.ident@)
                ==> (#[trigger] r.lookup(self.item.args@[i].item.ident@))->0@ == self.item.args@[i].item.t@,
            forall|k: Seq<char>| #[trigger] r.lookup(k) is Some ==>
                exists|i: int| 0 <= i < self.item.args@.len() && self.item.args@[i].item.ident@ == k,
    {
        args_type_env(&self.item.args)
    }
}

impl ToTypeEnv for Class<LocationMeta> {
    /// creates Env containing types of all instance variables
    fn to_type_env(&self) -> (r: Env<Type>)
        ensures
            forall|k: Seq<char>| #[trigger] r.lookup(k) is Some <==> self.item.vars.lookup(k) is Some,
            forall|k: Seq<char>| r.lookup(k) is Some ==> (#[trigger] r.lookup(k))->0@ == self.item.vars.lookup(k)->0.item.t@,
    {
        class_vars_env(&self.item.vars)
    }
}

/// environment with the types of instance variables
fn class_vars_env<MetaT>(vars: &Env<crate::frontend::ast::ClassVar<MetaT>>) -> (r: Env<Type>)
    ensures
        r.wf(),
        forall|k: Seq<char>| #[trigger] r.lookup(k) is Some <==> vars.lookup(k) is Some,
        forall|k: Seq<char>| r.lookup(k) is Some ==> (#[trigger] r.lookup(k))->0@ == vars.lookup(k)->0.item.t@,
{
    let mut env: Env<Type> = Env::new();
    let mut i: usize = 0;
    while i < vars.entries.len()
        invariant
            env.wf(),
            i <= vars.entries@.len(),
            forall|k: Seq<char>| #[trigger] env.lookup(k) is Some <==> crate::util::env::find_in(vars.entries@.subrange(0, i as int), k) is Some,
            forall|k: Seq<char>| env.lookup(k) is Some ==> (#[trigger] env.lookup(k))->0@
                == crate::util::env::find_in(vars.entries@.subrange(0, i as int), k)->0.item.t@,
        decreases vars.entries.len() - i,
    {
        let ghost sub = vars.entries@.subrange(0, i as int);
        env.insert(vars.entries[i].0.clone(), vars.entries[i].1.item.t.copy());
        proof {
            assert(vars.entries@.subrange(0, i + 1) =~= sub.push(vars.entries@[i as int]));
            assert forall|k: Seq<char>| crate::util::env::find_in(vars.entries@.subrange(0, i + 1), k)
                == if vars.entries@[i as int].0@ == k { Some(vars.entries@[i as int].1) } else { crate::util::env::find_in(sub, k) } by {
                crate::util::env::lemma_find_in_push(sub, vars.entries@[i as int], k);
            }
        }
        i += 1;
    }
    proof {
        assert(vars.entries@.subrange(0, vars.entries@.len() as int) =~= vars.entries@);
    }
    env
}

/// environment with the types of methods
fn methods_env<MetaT>(methods: &Env<Function<MetaT>>) -> (r: Env<Type>)
    ensures
        r.wf(),
        forall|k: Seq<char>| #[trigger] r.lookup(k) is Some <==> methods.lookup(k) is Some,
        forall|k: Seq<char>| r.lookup(k) is Some ==> (#[trigger] r.lookup(k))->0@
            == function_type(arg_types(methods.lookup(k)->0.item.args@), methods.lookup(k)->0.item.ret@),
{
    let mut env: Env<Type> = Env::new();
    let mut i: usize = 0;
    while i < methods.entries.len()
        invariant
            env.wf(),
            i <= methods.entries@.len(),
            forall|k: Seq<char>| #[trigger] env.lookup(k) is Some <==> crate::util::env::find_in(methods.entries@.subrange(0, i as int), k) is Some,
            forall|k: Seq<char>| env.lookup(k) is Some ==> (#[trigger] env.lookup(k))->0@ == function_type(
                arg_types(crate::util::env::find_in(methods.entries@.subrange(0, i as int), k)->0.item.args@),
                crate::util::env::find_in(methods.entries@.subrange(0, i as int), k)->0.item.ret@),
        decreases methods.entries.len() - i,
    {
        let ghost sub = methods.entries@.subrange(0, i as int);
        env.insert(methods.entries[i].0.clone(), methods.entries[i].1.item.get_type());
        proof {
            assert(methods.entries@.subrange(0, i + 1) =~= sub.push(methods.entries@[i as int]));
            assert forall|k: Seq<char>| crate::util::env::find_in(methods.entries@.subrange(0, i + 1), k)
                == if methods.entries@[i as int].0@ == k { Some(methods.entries@[i as int].1) } else { crate::util::env::find_in(sub, k) } by {
                crate::util::env::lemma_find_in_push(sub, methods.entries@[i as int], k);
            }
        }
        i += 1;
    }
    proof {
        assert(methods.entries@.subrange(0, methods.entries@.len() as int) =~= methods.entries@);
    }
    env
}

/// the information of a class: its parent, and the types of the instance variables and of the
/// methods it declares itself
pub open spec fn class_info_of(info: ClassInfo, c: Class<LocationMeta>) -> bool {
    &&& info.parent == c.item.parent
    &&& forall|k: Seq<char>| #[trigger] info.vars.lookup(k) is Some <==> c.item.vars.lookup(k) is Some
    &&& forall|k: Seq<char>| info.vars.lookup(k) is Some ==> (#[trigger] info.vars.lookup(k))->0@ == c.item.vars.lookup(k)->0.item.t@
    &&& forall|k: Seq<char>| #[trigger] info.methods.lookup(k) is Some <==> c.item.methods.lookup(k) is Some
    &&& forall|k: Seq<char>| info.methods.lookup(k) is Some ==> (#[trigger] info.methods.lookup(k))->0@
        == function_type(arg_types(c.item.methods.lookup(k)->0.item.args@), c.item.methods.lookup(k)->0.item.ret@)
}

impl TypeChecker {
    /// a type checker for the program: the functions are the built-in ones and those of the
    /// program (a function of the program hides a built-in one of the same name), and the
    /// classes are those of the program
    pub fn new(program: &Program<LocationMeta>, builtins: &Env<Type>) -> (r: Self)
        requires
            builtins.wf(),
        ensures
            r.wf(),
            r.current_class is None,
            forall|k: Seq<char>| #[trigger] r.functions.lookup(k) is Some
                <==> (builtins.lookup(k) is Some || program.functions.lookup(k) is Some),
            forall|k: Seq<char>| program.functions.lookup(k) is Some ==> (#[trigger] r.functions.lookup(k))->0@
                == function_type(arg_types(program.functions.lookup(k)->0.item.args@), program.functions.lookup(k)->0.item.ret@),
            forall|k: Seq<char>| builtins.lookup(k) is Some && program.functions.lookup(k) is None
                ==> (#[trigger] r.functions.lookup(k))->0@ == builtins.lookup(k)->0@,
            forall|k: Seq<char>| #[trigger] r.classes.lookup(k) is Some <==> program.classes.lookup(k) is Some,
            forall|k: Seq<char>| r.classes.lookup(k) is Some ==> class_info_of((#[trigger] r.classes.lookup(k))->0, program.classes.lookup(k)->0),
            forall|i: int| 0 <= i < program.functions.entries@.len() ==>
                (#[trigger] r.functions.lookup(program.functions.entries@[i].0@)) is Some,
    {
        let ghost bs = builtins.entries@;
        let ghost fs = program.functions.entries@;
        let ghost cs = program.classes.entries@;
        let mut functions: Env<Type> = Env::new();
        let mut i: usize = 0;
        while i < builtins.entries.len()
            invariant
                functions.wf(),
                builtins.wf(),
                bs == builtins.entries@,
                i <= bs.len(),
                forall|k: Seq<char>| #[trigger] functions.lookup(k) is Some <==> find_in(bs.subrange(0, i as int), k) is Some,
                forall|k: Seq<char>| functions.lookup(k) is Some ==> (#[trigger] functions.lookup(k))->0@ == find_in(bs.subrange(0, i as int), k)->0@,
            decreases builtins.entries.len() - i,
        {
            proof {
                assert(bs.subrange(0, i + 1) =~= bs.subrange(0, i as int).push(bs[i as int]));
                assert forall|k: Seq<char>| find_in(bs.subrange(0, i + 1), k)
                    == if bs[i as int].0@ == k { Some(bs[i as int].1) } else { find_in(bs.subrange(0, i as int), k) } by {
                    lemma_find_in_push(bs.subrange(0, i as int), bs[i as int], k);
                }
            }
            functions.insert(builtins.entries[i].0.clone(), builtins.entries[i].1.copy());
            i += 1;
        }
        proof {
            assert(bs.subrange(0, bs.len() as int) =~= bs);
        }
        let mut i: usize = 0;
        while i < program.functions.entries.len()
            invariant
                functions.wf(),
                fs == program.functions.entries@,
                i <= fs.len(),
                forall|k: Seq<char>| #[trigger] functions.lookup(k) is Some
                    <==> (builtins.lookup(k) is Some || find_in(fs.subrange(0, i as int), k) is Some),
                forall|k: Seq<char>| find_in(fs.subrange(0, i as int), k) is Some ==> (#[trigger] functions.lookup(k))->0@
                    == function_type(arg_types(find_in(fs.subrange(0, i as int), k)->0.item.args@), find_in(fs.subrange(0, i as int), k)->0.item.ret@),
                forall|k: Seq<char>| builtins.lookup(k) is Some && find_in(fs.subrange(0, i as int), k) is None
                    ==> (#[trigger] functions.lookup(k))->0@ == builtins.lookup(k)->0@,
            decreases program.functions.entries.len() - i,
        {
            proof {
                assert(fs.subrange(0, i + 1) =~= fs.subrange(0, i as int).push(fs[i as int]));
                assert forall|k: Seq<char>| find_in(fs.subrange(0, i + 1), k)
                    == if fs[i as int].0@ == k { Some(fs[i as int].1) } else { find_in(fs.subrange(0, i as int), k) } by {
                    lemma_find_in_push(fs.subrange(0, i as int), fs[i as int], k);
                }
            }
            functions.insert(program.functions.entries[i].0.clone(), program.functions.entries[i].1.item.get_type());
            i += 1;
        }
        proof {
            assert(fs.subrange(0, fs.len() as int) =~= fs);
        }
        let mut classes: Env<ClassInfo> = Env::new();
        let mut i: usize = 0;
        while i < program.classes.entries.len()
            invariant
                classes.wf(),
                cs == program.classes.entries@,
                i <= cs.len(),
                forall|k: Seq<char>| #[trigger] classes.lookup(k) is Some <==> find_in(cs.subrange(0, i as int), k) is Some,
                forall|k: Seq<char>| classes.lookup(k) is Some ==> class_info_of((#[trigger] classes.lookup(k))->0, find_in(cs.subrange(0, i as int), k)->0),
            decreases program.classes.entries.len() - i,
        {
            proof {
                assert(cs.subrange(0, i + 1) =~= cs.subrange(0, i as int).push(cs[i as int]));
                assert forall|k: Seq<char>| find_in(cs.subrange(0, i + 1), k)
                    == if cs[i as int].0@ == k { Some(cs[i as int].1) } else { find_in(cs.subrange(0, i as int), k) } by {
                    lemma_find_in_push(cs.subrange(0, i as int), cs[i as int], k);
                }
            }
            let cls = &program.classes.entries[i].1;
            let parent = match &cls.item.parent {
                Some(p) => Some(p.clone()),
                None => None,
            };
            let info = ClassInfo { vars: class_vars_env(&cls.item.vars), methods: methods_env(&cls.item.methods), parent };
            assert(class_info_of(info, *cls));
            classes.insert(program.classes.entries[i].0.clone(), info);
            i += 1;
        }
        proof {
            assert(cs.subrange(0, cs.len() as int) =~= cs);
            assert forall|j: int| 0 <= j < fs.len() implies (#[trigger] functions.lookup(fs[j].0@)) is Some by {
                lemma_find_in_some(fs, fs[j].0@);
            }
        }
        TypeChecker::empty(functions, classes)
    }
}

/// functions of the program that have the name of a built-in function
pub fn check_builtin_conflicts(program: &Program<LocationMeta>, builtins: &Env<Type>) -> (r: Result<(), Vec<FrontendError<LocationMeta>>>)
    ensures
        r is Ok <==> forall|i: int| 0 <= i < program.functions.entries@.len() ==>
            builtins.lookup(#[trigger] program.functions.entries@[i].1.item.ident@) is None,
        r matches Err(e) ==> e@.len() >= 1,
{
    let mut errors: Vec<FrontendError<LocationMeta>> = Vec::new();
    let mut i: usize = 0;
    while i < program.functions.entries.len()
        invariant
            i <= program.functions.entries@.len(),
            errors@.len() == 0 <==> forall|j: int| 0 <= j < i ==>
                builtins.lookup(#[trigger] program.functions.entries@[j].1.item.ident@) is None,
        decreases program.functions.entries.len() - i,
    {
        let f = &program.functions.entries[i].1;
        if builtins.contains_key(&f.item.ident) {
            let message = concat3("Function ", f.item.ident.as_str(), " conflicts with a built-in function");
            errors.push(Meta::new(FrontendErrorKind::EnvError { message }, f.meta));
        }
        i += 1;
    }
    if errors.len() == 0 {
        Ok(())
    } else {
        Err(errors)
    }
}

/// the name is that of a built-in function
pub open spec fn is_builtin_name(k: Seq<char>) -> bool {
    ||| k == "printInt"@
    ||| k == "printString"@
    ||| k == "readInt"@
    ||| k == "readString"@
    ||| k == "error"@
}

/// the program has a function `main` that takes no arguments and returns an integer
pub open spec fn has_main<MetaT>(program: Program<MetaT>) -> bool {
    exists|i: int| 0 <= i < program.functions.entries@.len() && {
        let f = #[trigger] program.functions.entries@[i].1;
        &&& f.item.ident@ == "main"@
        &&& f.item.args@.len() == 0
        &&& f.item.ret@ == TypeV::Int
    }
}

/// checks that the program has a `main` function with the right signature
pub fn check_main(program: &Program<LocationMeta>) -> (r: Result<(), Vec<FrontendError<LocationMeta>>>)
    ensures
        r is Ok <==> has_main(*program),
        r matches Err(e) ==> e@.len() == 1,
{
    let main = String::from_str("main");
    let mut i: usize = 0;
    while i < program.functions.entries.len()
        invariant
            i <= program.functions.entries@.len(),
            main@ == "main"@,
            forall|j: int| 0 <= j < i ==> !({
                let f = #[trigger] program.functions.entries@[j].1;
                &&& f.item.ident@ == "main"@
                &&& f.item.args@.len() == 0
                &&& f.item.ret@ == TypeV::Int
            }),
        decreases program.functions.entries.len() - i,
    {
        let f = &program.functions.entries[i].1;
        let returns_int = match &f.item.ret {
            Type::Int => true,
            _ => false,
        };
        if f.item.ident == main && f.item.args.len() == 0 && returns_int {
            return Ok(());
        }
        i += 1;
    }
    let message = String::from_str("Missing function main with signature `int main()`");
    Err(vec![Meta::new(FrontendErrorKind::EnvError { message }, LocationMeta { offset: 0 })])
}

/// main typechecker function: checks types of the entire program, converts implicit
/// self-references to current object into explicit ones, converts all references to object
/// members to the typed ones, converts array.length to the dedicated ArrayLength reference
pub fn check_types(program: Program<LocationMeta>) -> (r: TypeCheckResult<Program<TypeMeta>>)
    ensures
        r matches Ok(p) ==> has_main(program) && p.functions.keys() == program.functions.keys()
            && p.classes.keys() == program.classes.keys()
            && forall|i: int| 0 <= i < p.functions.entries@.len() ==> {
                let from = program.functions.entries@[i].1;
                let to = #[trigger] p.functions.entries@[i].1;
                &&& to.item.ident == from.item.ident
                &&& to.meta.t@ == function_type(arg_types(from.item.args@), from.item.ret@)
                &&& block_returns(from.item.block) ==> block_returns(to.item.block)
            },
        r matches Ok(p) ==> forall|i: int| 0 <= i < p.classes.entries@.len() ==>
                (#[trigger] p.classes.entries@[i]).1.item.vars.keys() == program.classes.entries@[i].1.item.vars.keys()
                && p.classes.entries@[i].1.item.methods.keys() == program.classes.entries@[i].1.item.methods.keys(),
        r matches Err(e) ==> e@.len() >= 1,
        (exists|i: int| 0 <= i < program.functions.entries@.len()
            && is_builtin_name(#[trigger] program.functions.entries@[i].1.item.ident@)) ==> r is Err,
        !has_main(program) ==> r is Err,
{
    // get builtin functions and check for duplicate declarations
    let builtins = get_builtins();
    check_builtin_conflicts(&program, &builtins)?;
    check_main(&program)?;

    // create typechecker and iterate over entire program (classes & functions)
    let mut typechecker = TypeChecker::new(&program, &builtins);
    typechecker.map_program(program)
}

} // verus!
