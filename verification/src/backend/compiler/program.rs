//! Compilation of whole programs: classes, functions and global declarations.
use vstd::prelude::*;

use crate::backend::compiler::class::ClassCompiler;
use crate::backend::compiler::function::{FunctionCompiler, stmt_supported, is_stmt_supported};
use crate::backend::context::GlobalContext;
use crate::backend::context::global::{declares_function, function_name, lists_declarations, declarations_count};
use crate::backend::ir::{FunctionDef, LLVM, StructDecl};
use crate::frontend::ast::{Class, Function, Program};
use crate::meta::TypeMeta;
use crate::util::env::Env;

verus! {

/// the statements of the function are supported by the compiler
pub open spec fn function_supported(f: Function<TypeMeta>) -> bool {
    forall|i: int| 0 <= i < f.item.block.item.stmts@.len() ==> stmt_supported(*#[trigger] f.item.block.item.stmts@[i])
}

/// the environments of the program have unique keys and its functions are supported
pub open spec fn program_wf(p: Program<TypeMeta>) -> bool {
    &&& p.classes.wf()
    &&& p.functions.wf()
    &&& forall|i: int| 0 <= i < p.classes.entries@.len() ==> (#[trigger] p.classes.entries@[i]).1.item.vars.wf()
        && p.classes.entries@[i].1.item.methods.wf()
    &&& forall|i: int| 0 <= i < p.functions.entries@.len() ==> function_supported(#[trigger] p.functions.entries@[i].1)
}

/// checks that the statements of the function are supported by the compiler
pub fn is_function_supported(f: &Function<TypeMeta>) -> (r: bool)
    ensures
        r == function_supported(*f),
{
    let n = f.item.block.item.stmts.len();
    let mut i: usize = 0;
    while i < n
        invariant
            i <= n,
            n == f.item.block.item.stmts@.len(),
            forall|j: int| 0 <= j < i ==> stmt_supported(*#[trigger] f.item.block.item.stmts@[j]),
        decreases n - i,
    {
        if !is_stmt_supported(&f.item.block.item.stmts[i]) {
            assert(!stmt_supported(*f.item.block.item.stmts@[i as int]));
            return false;
        }
        i += 1;
    }
    true
}

/// checks that the program meets what the compiler needs: unique names in each environment and
/// supported statements in each function
pub fn is_program_compilable(p: &Program<TypeMeta>) -> (r: bool)
    ensures
        r == program_wf(*p),
{
    if !p.classes.has_unique_keys() || !p.functions.has_unique_keys() {
        return false;
    }
    let n = p.classes.entries.len();
    let mut i: usize = 0;
    while i < n
        invariant
            i <= n,
            n == p.classes.entries@.len(),
            forall|j: int| 0 <= j < i ==> (#[trigger] p.classes.entries@[j]).1.item.vars.wf()
                && p.classes.entries@[j].1.item.methods.wf(),
        decreases n - i,
    {
        let cls = &p.classes.entries[i].1;
        if !cls.item.vars.has_unique_keys() || !cls.item.methods.has_unique_keys() {
            assert(!(p.classes.entries@[i as int].1.item.vars.wf() && p.classes.entries@[i as int].1.item.methods.wf()));
            return false;
        }
        i += 1;
    }
    let m = p.functions.entries.len();
    let mut k: usize = 0;
    while k < m
        invariant
            k <= m,
            m == p.functions.entries@.len(),
            forall|j: int| 0 <= j < k ==> function_supported(#[trigger] p.functions.entries@[j].1),
        decreases m - k,
    {
        if !is_function_supported(&p.functions.entries[k].1) {
            assert(!function_supported(p.functions.entries@[k as int].1));
            return false;
        }
        k += 1;
    }
    true
}

/// `l` is the definition of a function named `name`
pub open spec fn defines_function(l: LLVM, name: Seq<char>) -> bool {
    match l {
        LLVM::Function { def } => def.name@ == name,
        _ => false,
    }
}

/// a class without a parent whose members fit the `i32` indices of its structure and table
pub open spec fn root_fits(cls: Class<TypeMeta>) -> bool {
    &&& cls.item.parent is None
    &&& cls.item.vars.entries@.len() + 1 <= i32::MAX
    &&& cls.item.methods.entries@.len() <= i32::MAX
}

/// every structure declared in `before` is declared in `after`, and each one declared in
/// `after` alone is that of a class of `classes`
pub open spec fn declarations_grown(before: Env<StructDecl>, after: Env<StructDecl>, classes: Env<Class<TypeMeta>>) -> bool {
    &&& forall|k: Seq<char>| before.lookup(k) is Some ==> (#[trigger] after.lookup(k)) is Some
    &&& forall|k: Seq<char>| (#[trigger] after.lookup(k)) is Some ==> before.lookup(k) is Some
        || exists|i: int| 0 <= i < classes.entries@.len() && (#[trigger] classes.entries@[i]).1.item.ident@ == k
}

/// declaring the structure of class `i` keeps the declarations grown from `start`
pub proof fn lemma_declared_one(start: Env<StructDecl>, before: Env<StructDecl>, after: Env<StructDecl>,
    classes: Env<Class<TypeMeta>>, i: int)
    requires
        0 <= i < classes.entries@.len(),
        declarations_grown(start, before, classes),
        after.lookup(classes.entries@[i].1.item.ident@) is Some,
        forall|k: Seq<char>| k != classes.entries@[i].1.item.ident@ ==> #[trigger] after.lookup(k) == before.lookup(k),
    ensures
        declarations_grown(start, after, classes),
        forall|k: Seq<char>| before.lookup(k) is Some ==> (#[trigger] after.lookup(k)) is Some,
{
    let id = classes.entries@[i].1.item.ident@;
    assert forall|k: Seq<char>| start.lookup(k) is Some implies (#[trigger] after.lookup(k)) is Some by {
        if k != id {
            assert(before.lookup(k) is Some);
        }
    }
    assert forall|k: Seq<char>| (#[trigger] after.lookup(k)) is Some implies start.lookup(k) is Some
        || exists|j: int| 0 <= j < classes.entries@.len() && (#[trigger] classes.entries@[j]).1.item.ident@ == k by {
        if k == id {
            assert(classes.entries@[i].1.item.ident@ == k);
        } else {
            assert(before.lookup(k) is Some);
        }
    }
}

/// `l` defines a function whose first block is unlabelled (the entry block)
pub open spec fn starts_unlabelled(l: LLVM) -> bool {
    l matches LLVM::Function { def } && def.body@.len() >= 1 && def.body@[0]@.label is None
}

/// name of the function that creates instances of the class
pub open spec fn init_name(ident: Seq<char>) -> Seq<char> {
    "__init__"@ + ident
}

/// `l` is the function that creates instances of one of the classes whose structure is declared
pub open spec fn inits_declared_class(l: LLVM, classes: Seq<(String, Class<TypeMeta>)>, structs: Env<StructDecl>) -> bool {
    exists|c: int| 0 <= c < classes.len() && structs.lookup(classes[c].1.item.ident@) is Some
        && #[trigger] defines_function(l, init_name(classes[c].1.item.ident@))
}

/// the items of `r` from `lo` to `hi` are the functions that create instances of the classes
/// whose structures are declared in `structs`: one or more for each such class, and no other
pub open spec fn lists_init_functions(r: Seq<LLVM>, lo: int, hi: int, classes: Seq<(String, Class<TypeMeta>)>, structs: Env<StructDecl>) -> bool {
    &&& forall|i: int| lo <= i < hi ==> inits_declared_class(#[trigger] r[i], classes, structs)
    &&& forall|c: int| 0 <= c < classes.len() && structs.lookup((#[trigger] classes[c]).1.item.ident@) is Some
        ==> exists|i: int| lo <= i < hi && defines_function(r[i], init_name(classes[c].1.item.ident@))
}

/// adding the functions made for the next class keeps the list of them that of the classes so far
proof fn lemma_init_functions_step(methods0: Seq<LLVM>, m: Seq<LLVM>, all_c: Seq<(String, Class<TypeMeta>)>, c: int, structs: Env<StructDecl>)
    requires
        0 <= c < all_c.len(),
        lists_init_functions(methods0, 0, methods0.len() as int, all_c.subrange(0, c), structs),
        structs.lookup(all_c[c].1.item.ident@) is Some ==> m.len() == methods0.len() + 1 && m.drop_last() == methods0
            && defines_function(m.last(), init_name(all_c[c].1.item.ident@)),
        structs.lookup(all_c[c].1.item.ident@) is None ==> m == methods0,
    ensures
        lists_init_functions(m, 0, m.len() as int, all_c.subrange(0, c + 1), structs),
{
    let prev = all_c.subrange(0, c);
    let next = all_c.subrange(0, c + 1);
    assert forall|j: int| 0 <= j < c implies #[trigger] next[j] == prev[j] by {}
    assert(next[c] == all_c[c]);
    assert forall|i: int| 0 <= i < m.len() implies inits_declared_class(#[trigger] m[i], next, structs) by {
        if i < methods0.len() {
            assert(m[i] == methods0[i]);
            assert(inits_declared_class(methods0[i], prev, structs));
            let cc = choose|cc: int| 0 <= cc < prev.len()
                && structs.lookup(prev[cc].1.item.ident@) is Some && #[trigger] defines_function(methods0[i], init_name(prev[cc].1.item.ident@));
            assert(next[cc] == prev[cc]);
            assert(defines_function(m[i], init_name(next[cc].1.item.ident@)));
        } else {
            assert(defines_function(m[i], init_name(next[c].1.item.ident@)));
        }
    }
    assert forall|cc: int| 0 <= cc < next.len() && structs.lookup((#[trigger] next[cc]).1.item.ident@) is Some
        implies exists|i: int| 0 <= i < m.len() && defines_function(m[i], init_name(next[cc].1.item.ident@)) by {
        if cc < c {
            assert(next[cc] == prev[cc]);
            let i = choose|i: int| 0 <= i < methods0.len() && defines_function(methods0[i], init_name(prev[cc].1.item.ident@));
            assert(m[i] == methods0[i]);
        } else {
            assert(defines_function(m[m.len() - 1], init_name(next[cc].1.item.ident@)));
        }
    }
}

/// the functions made for the classes, placed after `d` items, are listed there
proof fn lemma_init_functions_shift(r: Seq<LLVM>, cm: Seq<LLVM>, d: int, classes: Seq<(String, Class<TypeMeta>)>, structs: Env<StructDecl>)
    requires
        0 <= d,
        d + cm.len() <= r.len(),
        forall|i: int| 0 <= i < cm.len() ==> #[trigger] r[d + i] == cm[i],
        lists_init_functions(cm, 0, cm.len() as int, classes, structs),
    ensures
        lists_init_functions(r, d, d + cm.len(), classes, structs),
{
    assert forall|i: int| d <= i < d + cm.len() implies inits_declared_class(#[trigger] r[i], classes, structs) by {
        let j = i - d;
        assert(r[d + j] == cm[j]);
        assert(inits_declared_class(cm[j], classes, structs));
    }
    assert forall|cc: int| 0 <= cc < classes.len() && structs.lookup((#[trigger] classes[cc]).1.item.ident@) is Some
        implies exists|i: int| d <= i < d + cm.len() && defines_function(r[i], init_name(classes[cc].1.item.ident@)) by {
        let i = choose|i: int| 0 <= i < cm.len() && defines_function(cm[i], init_name(classes[cc].1.item.ident@));
        assert(r[d + i] == cm[i]);
    }
}

/// compiler of whole programs
pub struct ProgramCompiler {
    pub global_context: GlobalContext,
    /// set when a statement of some function could not be compiled and was left out
    pub unsupported: bool,
    /// the functions keep the values of `&&` and `||` in allocated slots
    pub lazy_in_memory: bool,
}

impl ProgramCompiler {
    /// create a compiler with empty global context
    pub fn new() -> (r: Self)
        ensures
            r.global_context.wf(),
            r.global_context.function_declarations@.len() == 0,
            r.global_context.struct_declarations.entries@.len() == 0,
    {
        ProgramCompiler { global_context: GlobalContext::new(), unsupported: false, lazy_in_memory: false }
    }

    /// create a compiler with a pre-defined vector of function declarations
    pub fn with_builtin_functions(declarations: &mut Vec<String>) -> (r: Self)
        ensures
            r.global_context.wf(),
            r.global_context.function_declarations@ == old(declarations)@,
            r.global_context.struct_declarations.entries@.len() == 0,
            final(declarations)@.len() == 0,
    {
        let mut compiler = Self::new();
        compiler.global_context.append_function_declarations(declarations);
        compiler
    }

    /// checks that the class can be declared in the current global context
    fn fits_declaration(&self, cls: &Class<TypeMeta>) -> (r: bool)
        requires
            self.global_context.wf(),
            cls.item.vars.wf(),
            cls.item.methods.wf(),
        ensures
            r == self.global_context.can_declare_class(*cls),
    {
        let gc = &self.global_context;
        let (parent_fields, parent_methods): (usize, usize) = match &cls.item.parent {
            Some(p) => {
                let f = match gc.struct_declarations.get(p) {
                    Some(d) => d.fields.len(),
                    None => 0,
                };
                let m = match gc.struct_vtable_declarations.get(p) {
                    Some(d) => d.methods.len(),
                    None => 0,
                };
                (f, m)
            },
            None => (0, 0),
        };
        assert(parent_fields == match gc.parent_struct(*cls) { Some(d) => d.fields@.len() as int, None => 0 });
        assert(parent_methods == match gc.parent_vtable(*cls) { Some(d) => d.methods@.len() as int, None => 0 });
        let limit: usize = 0x7fff_ffff;
        let nv = cls.item.vars.entries.len();
        let nm = cls.item.methods.entries.len();
        if nv >= limit || parent_fields >= limit || nv + 1 + parent_fields > limit {
            return false;
        }
        if nm > limit || parent_methods > limit || nm + parent_methods > limit {
            return false;
        }
        // a field of the class must not replace a field of its parent
        match &cls.item.parent {
            Some(p) => match gc.struct_declarations.get(p) {
                Some(d) => {
                    let mut i: usize = 0;
                    while i < cls.item.vars.entries.len()
                        invariant
                            self.global_context.struct_declarations.lookup(p@) == Some(*d),
                            cls.item.parent == Some(*p),
                            i <= cls.item.vars.entries@.len(),
                            forall|j: int| 0 <= j < i ==> crate::util::env::find_in(d.field_env.entries@, #[trigger] cls.item.vars.entries@[j].0@) is None,
                        decreases cls.item.vars.entries.len() - i,
                    {
                        if d.field_env.contains_key(&cls.item.vars.entries[i].0) {
                            proof {
                                let k = cls.item.vars.entries@[i as int].0@;
                                crate::util::env::lemma_find_in_some(cls.item.vars.entries@, k);
                                assert(cls.item.vars.lookup(k) is Some);
                                assert(crate::util::env::find_in(d.field_env.entries@, k) is Some);
                            }
                            return false;
                        }
                        i += 1;
                    }
                    proof {
                        let pd = d;
                        assert forall|k: Seq<char>| #[trigger] cls.item.vars.lookup(k) is Some
                            implies crate::util::env::find_in(pd.field_env.entries@, k) is None by {
                            crate::util::env::lemma_find_in_some(cls.item.vars.entries@, k);
                            let j = choose|j: int| 0 <= j < cls.item.vars.entries@.len() && cls.item.vars.entries@[j].0@ == k;
                            assert(crate::util::env::find_in(pd.field_env.entries@, cls.item.vars.entries@[j].0@) is None);
                        }
                    }
                },
                None => {},
            },
            None => {},
        }
        true
    }

    /// apply inheritance and declare all classes' structs: classes without a parent first, then
    /// each class whose parent has been declared, until no more can be declared
    fn declare_classes(&mut self, classes: &Env<Class<TypeMeta>>)
        requires
            old(self).global_context.wf(),
            forall|i: int| 0 <= i < classes.entries@.len() ==> (#[trigger] classes.entries@[i]).1.item.vars.wf()
                && classes.entries@[i].1.item.methods.wf(),
        ensures
            final(self).global_context.wf(),
            final(self).global_context.function_declarations == old(self).global_context.function_declarations,
            final(self).global_context.string_declarations == old(self).global_context.string_declarations,
            final(self).global_context.available_label_suffix == old(self).global_context.available_label_suffix,
            final(self).unsupported == old(self).unsupported,
            declarations_grown(old(self).global_context.struct_declarations, final(self).global_context.struct_declarations, *classes),
            forall|i: int| 0 <= i < classes.entries@.len() && root_fits(#[trigger] classes.entries@[i].1)
                ==> final(self).global_context.struct_declarations.lookup(classes.entries@[i].1.item.ident@) is Some,
    {
        let n = classes.entries.len();
        let mut processed: Vec<bool> = Vec::new();
        let mut count: usize = 0;

        // insert all root tree nodes
        let mut i: usize = 0;
        while i < n
            invariant
                n == classes.entries@.len(),
                i <= n,
                processed@.len() == i,
                count <= i,
                self.global_context.wf(),
                self.global_context.function_declarations == old(self).global_context.function_declarations,
                self.unsupported == old(self).unsupported,
                self.global_context.string_declarations == old(self).global_context.string_declarations,
                self.global_context.available_label_suffix == old(self).global_context.available_label_suffix,
                forall|j: int| 0 <= j < classes.entries@.len() ==> (#[trigger] classes.entries@[j]).1.item.vars.wf()
                    && classes.entries@[j].1.item.methods.wf(),
                declarations_grown(old(self).global_context.struct_declarations, self.global_context.struct_declarations, *classes),
                forall|j: int| 0 <= j < i && root_fits(#[trigger] classes.entries@[j].1)
                    ==> self.global_context.struct_declarations.lookup(classes.entries@[j].1.item.ident@) is Some,
            decreases n - i,
        {
            let class = &classes.entries[i].1;
            let is_root = class.item.parent.is_none();
            if is_root && self.fits_declaration(class) {
                let ghost before = self.global_context.struct_declarations;
                self.global_context.declare_class(class);
                proof {
                    lemma_declared_one(old(self).global_context.struct_declarations, before,
                        self.global_context.struct_declarations, *classes, i as int);
                }
            }
            processed.push(is_root);
            if is_root {
                count += 1;
            }
            i += 1;
        }

        // insert all children, as long as some of them can be inserted
        let mut progress = true;
        while count < n && progress
            invariant
                n == classes.entries@.len(),
                processed@.len() == n,
                count <= n,
                self.global_context.wf(),
                self.global_context.function_declarations == old(self).global_context.function_declarations,
                self.unsupported == old(self).unsupported,
                self.global_context.string_declarations == old(self).global_context.string_declarations,
                self.global_context.available_label_suffix == old(self).global_context.available_label_suffix,
                forall|j: int| 0 <= j < classes.entries@.len() ==> (#[trigger] classes.entries@[j]).1.item.vars.wf()
                    && classes.entries@[j].1.item.methods.wf(),
                declarations_grown(old(self).global_context.struct_declarations, self.global_context.struct_declarations, *classes),
                forall|j: int| 0 <= j < n && root_fits(#[trigger] classes.entries@[j].1)
                    ==> self.global_context.struct_declarations.lookup(classes.entries@[j].1.item.ident@) is Some,
            decreases n - count + if progress { 1int } else { 0int },
        {
            let start_count = count;
            let mut i: usize = 0;
            while i < n
                invariant
                    n == classes.entries@.len(),
                    processed@.len() == n,
                    i <= n,
                    start_count <= count <= n,
                    self.global_context.wf(),
                    self.global_context.function_declarations == old(self).global_context.function_declarations,
                    self.unsupported == old(self).unsupported,
                    self.global_context.string_declarations == old(self).global_context.string_declarations,
                    self.global_context.available_label_suffix == old(self).global_context.available_label_suffix,
                    forall|j: int| 0 <= j < classes.entries@.len() ==> (#[trigger] classes.entries@[j]).1.item.vars.wf()
                        && classes.entries@[j].1.item.methods.wf(),
                    declarations_grown(old(self).global_context.struct_declarations, self.global_context.struct_declarations, *classes),
                    forall|j: int| 0 <= j < n && root_fits(#[trigger] classes.entries@[j].1)
                        ==> self.global_context.struct_declarations.lookup(classes.entries@[j].1.item.ident@) is Some,
                decreases n - i,
            {
                if !processed[i] {
                    let class = &classes.entries[i].1;
                    match &class.item.parent {
                        Some(parent) => {
                            // inheritance is applied only when the parent has all its inherited properties
                            match classes.position(parent) {
                                Some(p) => {
                                    if processed[p] && count < n {
                                        if self.fits_declaration(class) {
                                            let ghost before = self.global_context.struct_declarations;
                                            self.global_context.declare_class(class);
                                            proof {
                                                lemma_declared_one(old(self).global_context.struct_declarations, before,
                                                    self.global_context.struct_declarations, *classes, i as int);
                                            }
                                        }
                                        processed.set(i, true);
                                        count += 1;
                                    }
                                },
                                None => {},
                            }
                        },
                        None => {},
                    }
                }
                i += 1;
            }
            progress = count > start_count;
        }
    }

    /// compile the functions of a class (the function that creates its instances), when its
    /// structure is declared, and add them to `compiled`
    fn compile_class_functions(&mut self, cls: Class<TypeMeta>, compiled: &mut Vec<LLVM>)
        requires
            old(self).global_context.wf(),
        ensures
            final(self).global_context.wf(),
            final(self).global_context.struct_declarations == old(self).global_context.struct_declarations,
            final(self).global_context.function_declarations == old(self).global_context.function_declarations,
            final(self).unsupported == old(self).unsupported,
            old(self).global_context.struct_declarations.lookup(cls.item.ident@) is Some ==> final(compiled)@.len() == old(compiled)@.len() + 1
                && final(compiled)@.drop_last() == old(compiled)@ && defines_function(final(compiled)@.last(), init_name(cls.item.ident@)),
            old(self).global_context.struct_declarations.lookup(cls.item.ident@) is None ==> final(compiled)@ == old(compiled)@,
    {
        let ghost ident = cls.item.ident@;
        if self.global_context.struct_declarations.contains_key(&cls.item.ident) {
            let mut global = GlobalContext::new();
            std::mem::swap(&mut global, &mut self.global_context);
            let mut class_compiler = ClassCompiler::new(global);
            let mut defs = class_compiler.compile_class(cls);
            self.global_context = class_compiler.global_context;
            let ghost defs0 = defs@;
            let ghost methods0 = compiled@;
            while defs.len() > 0
                invariant
                    defs0.len() == 1,
                    defs0[0].name@ == init_name(ident),
                    defs@.len() <= 1,
                    defs@.len() == 1 ==> defs@[0] == defs0[0],
                    defs@.len() == 1 ==> compiled@ == methods0,
                    defs@.len() == 0 ==> compiled@.len() == methods0.len() + 1
                        && compiled@.drop_last() == methods0
                        && defines_function(compiled@.last(), init_name(ident)),
                decreases defs.len(),
            {
                let def = defs.remove(0);
                compiled.push(LLVM::Function { def });
                proof {
                    assert(compiled@.drop_last() =~= methods0);
                }
            }
        }
    }

    /// compile a program: the global declarations come first, then the functions of classes,
    /// then the functions of the program, each in the order of declaration
    #[verifier::spinoff_prover]
    #[verifier::rlimit(60)]
    pub fn compile_program(&mut self, program: Program<TypeMeta>) -> (r: Vec<LLVM>)
        requires
            old(self).global_context.wf(),
            program_wf(program),
        ensures
            r@.len() >= old(self).global_context.function_declarations@.len() + program.functions.entries@.len(),
            forall|i: int| 0 <= i < old(self).global_context.function_declarations@.len() ==>
                declares_function(#[trigger] r@[i], old(self).global_context.function_declarations@[i]@),
            forall|i: int| 0 <= i < program.functions.entries@.len() ==> defines_function(
                #[trigger] r@[r@.len() - program.functions.entries@.len() + i],
                function_name(program.functions.entries@[i].1.item.ident@)),
            forall|i: int| 0 <= i < program.functions.entries@.len() ==>
                starts_unlabelled(#[trigger] r@[r@.len() - program.functions.entries@.len() + i]),
            final(self).global_context.wf(),
            final(self).global_context.function_declarations == old(self).global_context.function_declarations,
            old(self).unsupported ==> final(self).unsupported,
            lists_declarations(final(self).global_context, r@),
            lists_init_functions(r@, declarations_count(final(self).global_context), r@.len() - program.functions.entries@.len(),
                program.classes.entries@, final(self).global_context.struct_declarations),
            declarations_count(final(self).global_context) <= r@.len() - program.functions.entries@.len(),
            forall|i: int| 0 <= i < program.classes.entries@.len() && root_fits(#[trigger] program.classes.entries@[i].1)
                ==> final(self).global_context.struct_declarations.lookup(program.classes.entries@[i].1.item.ident@) is Some,
    {
        let ghost funcs0 = program.functions.entries@;
        let ghost classes0 = program.classes.entries@;
        let Program { classes, functions } = program;

        // declare structures for all classes
        self.declare_classes(&classes);
        let ghost structs = self.global_context.struct_declarations;

        // compile all functions
        let mut compiled_functions: Vec<LLVM> = Vec::new();
        let mut rest = functions.entries;
        let total = rest.len();
        let mut k: usize = 0;
        while rest.len() > 0
            invariant
                funcs0.len() == total,
                rest@.len() + k == total,
                forall|j: int| 0 <= j < rest@.len() ==> rest@[j] == funcs0[k + j],
                forall|j: int| 0 <= j < funcs0.len() ==> function_supported(#[trigger] funcs0[j].1),
                compiled_functions@.len() == k,
                self.global_context.wf(),
                self.global_context.function_declarations == old(self).global_context.function_declarations,
                old(self).unsupported ==> self.unsupported,
                forall|j: int| 0 <= j < k ==> defines_function(#[trigger] compiled_functions@[j],
                    function_name(funcs0[j].1.item.ident@)),
                forall|j: int| 0 <= j < k ==> starts_unlabelled(#[trigger] compiled_functions@[j]),
                self.global_context.struct_declarations == structs,
            decreases rest.len(),
        {
            let (_, func) = rest.remove(0);
            let mut global = GlobalContext::new();
            std::mem::swap(&mut global, &mut self.global_context);
            let mut function_compiler = FunctionCompiler::new(global);
            function_compiler.lazy_in_memory = self.lazy_in_memory;
            let def = function_compiler.compile_function(func);
            if function_compiler.unsupported {
                self.unsupported = true;
            }
            self.global_context = function_compiler.global_context;
            compiled_functions.push(LLVM::Function { def });
            k += 1;
        }

        // compile all class functions (the functions that create instances)
        let mut compiled_methods: Vec<LLVM> = Vec::new();
        let mut rest = classes.entries;
        let ghost all_c = rest@;
        let total_c = rest.len();
        let mut c: usize = 0;
        while rest.len() > 0
            invariant
                self.global_context.wf(),
                self.global_context.function_declarations == old(self).global_context.function_declarations,
                old(self).unsupported ==> self.unsupported,
                self.global_context.struct_declarations == structs,
                compiled_functions@.len() == funcs0.len(),
                forall|j: int| 0 <= j < funcs0.len() ==> defines_function(#[trigger] compiled_functions@[j],
                    function_name(funcs0[j].1.item.ident@)),
                forall|j: int| 0 <= j < funcs0.len() ==> starts_unlabelled(#[trigger] compiled_functions@[j]),
                all_c == classes0,
                all_c.len() == total_c,
                rest@.len() + c == total_c,
                forall|j: int| 0 <= j < rest@.len() ==> rest@[j] == all_c[c + j],
                lists_init_functions(compiled_methods@, 0, compiled_methods@.len() as int, all_c.subrange(0, c as int), structs),
            decreases rest.len(),
        {
            let (key, cls) = rest.remove(0);
            let ghost methods0 = compiled_methods@;
            proof {
                assert((key, cls) == all_c[c as int]);
            }
            self.compile_class_functions(cls, &mut compiled_methods);
            proof {
                lemma_init_functions_step(methods0, compiled_methods@, all_c, c as int, structs);
            }
            c += 1;
        }
        assert(all_c.subrange(0, c as int) =~= all_c);

        // get all global declarations after compilation (so that they contain const string literals)
        let mut compiled = self.global_context.get_declarations();
        let ghost decls = compiled@;
        let ghost cm = compiled_methods@;
        compiled.append(&mut compiled_methods);
        let ghost before = compiled@;
        let ghost cf = compiled_functions@;
        compiled.append(&mut compiled_functions);
        proof {
            let g = self.global_context;
            let d = declarations_count(g);
            assert(decls.len() == d);
            assert forall|i: int| 0 <= i < d implies #[trigger] compiled@[i] == decls[i] by {
                assert(compiled@[i] == before[i]);
            }
            assert(lists_declarations(g, compiled@));
            assert forall|i: int| 0 <= i < cm.len() implies #[trigger] compiled@[d + i] == cm[i] by {
                assert(compiled@[d + i] == before[d + i]);
            }
            lemma_init_functions_shift(compiled@, cm, d, classes0, structs);
            assert(compiled@.len() == d + cm.len() + funcs0.len());
            assert forall|i: int| 0 <= i < funcs0.len() implies defines_function(
                #[trigger] compiled@[compiled@.len() - funcs0.len() + i], function_name(funcs0[i].1.item.ident@)) by {
                assert(compiled@[compiled@.len() - funcs0.len() + i] == before.add(cf)[before.len() + i]);
            }
            assert forall|i: int| 0 <= i < funcs0.len() implies starts_unlabelled(
                #[trigger] compiled@[compiled@.len() - funcs0.len() + i]) by {
                assert(compiled@[compiled@.len() - funcs0.len() + i] == before.add(cf)[before.len() + i]);
            }
            assert forall|i: int| 0 <= i < old(self).global_context.function_declarations@.len() implies
                declares_function(#[trigger] compiled@[i], old(self).global_context.function_declarations@[i]@) by {
                assert(compiled@[i] == decls[i]);
            }
        }
        compiled
    }
}

} // verus!
