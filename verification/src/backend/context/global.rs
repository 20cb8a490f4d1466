//! Context shared by the whole program: global declarations and unique names.
use vstd::prelude::*;

use crate::backend::display::{array_struct_name, array_struct_name_of, mangled_type, type_to_mangled};
use crate::backend::ir::{LLVM, StringDecl, StructDecl, StructDeclV, VTableDecl, type_seq_view, copy_index_env};
use crate::frontend::ast::{Class, ClassVar, Keyed, Type, TypeV};
use crate::meta::TypeMeta;
use crate::util::env::{Env, map_of};
use vstd::string::StringSliceAdditionalSpecFns;
use crate::util::text::{concat, concat3, decimal, usize_to_string, lemma_decimal_injective};

verus! {

/// name of the global constant with the given number
pub open spec fn const_name(n: nat) -> Seq<char> {
    ".str."@ + decimal(n)
}

/// Different numbers give different constant names.
pub proof fn lemma_const_name_injective(a: nat, b: nat)
    requires
        a != b,
    ensures
        const_name(a) != const_name(b),
{
    lemma_decimal_injective(a, b);
    if const_name(a) == const_name(b) {
        let p = ".str."@;
        assert(const_name(a).subrange(p.len() as int, const_name(a).len() as int) =~= decimal(a));
        assert(const_name(b).subrange(p.len() as int, const_name(b).len() as int) =~= decimal(b));
    }
}

/// the index environment points into a sequence of the given length, which fits in an `i32`
pub open spec fn indices_within(env: Env<i32>, len: nat) -> bool {
    &&& env.wf()
    &&& len <= i32::MAX
    &&& forall|k: Seq<char>| #[trigger] env.lookup(k) is Some ==> 0 <= env.lookup(k)->0 < len
    &&& forall|k1: Seq<char>, k2: Seq<char>| k1 != k2 && (#[trigger] env.lookup(k1)) is Some && (#[trigger] env.lookup(k2)) is Some
        ==> env.lookup(k1)->0 != env.lookup(k2)->0
}

pub open spec fn struct_decl_wf(d: StructDecl) -> bool {
    &&& d.fields@.len() >= 1
    &&& indices_within(d.field_env, d.fields@.len())
}

pub open spec fn vtable_decl_wf(d: VTableDecl) -> bool {
    indices_within(d.method_env, d.methods@.len())
}

#[derive(Debug)]
pub struct GlobalContext {
    /// string value to string declaration mapping
    pub string_declarations: Env<StringDecl>,
    /// LLVM IR String representation of function declarations
    pub function_declarations: Vec<String>,
    /// struct name to struct declaration mapping
    pub struct_declarations: Env<StructDecl>,
    /// struct name to struct vtable declaration mapping
    pub struct_vtable_declarations: Env<VTableDecl>,
    /// structs representing arrays, by type of their items
    pub array_struct_definitions: Vec<(Type, StructDecl)>,
    /// number for next available global constant
    pub available_const: usize,
    /// unique suffix that can be used for new label (or set of labels)
    pub available_label_suffix: usize,
}

impl GlobalContext {
    /// consistency of the declarations
    pub open spec fn wf(&self) -> bool {
        &&& self.string_declarations.wf()
        &&& self.struct_declarations.wf()
        &&& self.struct_vtable_declarations.wf()
        &&& forall|k: Seq<char>| #[trigger] self.string_declarations.lookup(k) is Some ==>
            self.string_declarations.lookup(k)->0.val@ == k
            && self.string_declarations.lookup(k)->0.len == (vstd::utf8::encode_utf8(k).len() as usize) - 1
            && exists|n: nat| n < self.available_const && self.string_declarations.lookup(k)->0.name@ == const_name(n)
        &&& forall|i: int, j: int| 0 <= i < j < self.string_declarations.entries@.len() ==>
            self.string_declarations.entries@[i].1.name@ != self.string_declarations.entries@[j].1.name@
        &&& forall|k: Seq<char>| #[trigger] self.struct_declarations.lookup(k) is Some ==> struct_decl_wf(self.struct_declarations.lookup(k)->0)
        &&& forall|k: Seq<char>| #[trigger] self.struct_vtable_declarations.lookup(k) is Some ==> vtable_decl_wf(self.struct_vtable_declarations.lookup(k)->0)
        &&& array_structs_wf(self.array_struct_definitions@)
    }

    pub fn new() -> (r: Self)
        ensures
            r.wf(),
            r.string_declarations.entries@.len() == 0,
            r.function_declarations@.len() == 0,
            r.struct_declarations.entries@.len() == 0,
            r.struct_vtable_declarations.entries@.len() == 0,
            r.array_struct_definitions@.len() == 0,
            r.available_const == 1,
            r.available_label_suffix == 1,
    {
        GlobalContext {
            string_declarations: Env::new(),
            function_declarations: Vec::new(),
            struct_declarations: Env::new(),
            struct_vtable_declarations: Env::new(),
            array_struct_definitions: Vec::new(),
            available_const: 1,
            available_label_suffix: 1,
        }
    }

    /// add new constant string to declarations, get a declaration of the constant;
    /// `val` holds the literal with its quotes, so the constant (with a trailing zero byte)
    /// is one byte shorter than it
    pub fn declare_string(&mut self, val: String) -> (r: StringDecl)
        requires
            old(self).wf(),
            old(self).available_const < usize::MAX,
            (vstd::utf8::encode_utf8(val@).len() as usize) >= 1,
        ensures
            final(self).wf(),
            r.val@ == val@,
            final(self).string_declarations.lookup(val@) == Some(r),
            old(self).string_declarations.lookup(val@) matches Some(d) ==> r == d && final(self).string_declarations == old(self).string_declarations
                && final(self).available_const == old(self).available_const,
            old(self).string_declarations.lookup(val@) is None ==> {
                &&& r.name@ == const_name(old(self).available_const as nat)
                &&& r.len == (vstd::utf8::encode_utf8(val@).len() as usize) - 1
                &&& final(self).available_const == old(self).available_const + 1
                &&& forall|k: Seq<char>| k != val@ ==> #[trigger] final(self).string_declarations.lookup(k) == old(self).string_declarations.lookup(k)
            },
            final(self).function_declarations == old(self).function_declarations,
            final(self).struct_declarations == old(self).struct_declarations,
            final(self).struct_vtable_declarations == old(self).struct_vtable_declarations,
            final(self).array_struct_definitions == old(self).array_struct_definitions,
            final(self).available_label_suffix == old(self).available_label_suffix,
    {
        match self.string_declarations.get(&val) {
            Some(existing_decl) => {
                return existing_decl.copy();
            },
            None => {},
        }
        let ghost old_entries = self.string_declarations.entries@;
        let ghost c = self.available_const;
        let name = self.new_const_name();
        let len = val.as_str().len() - 1;
        let new_decl = StringDecl { name, val: val.clone(), len };
        let r = new_decl.copy();
        self.string_declarations.insert(val, new_decl);
        proof {
            assert(self.string_declarations.entries@ == old_entries.push(self.string_declarations.entries@.last()));
            assert forall|k: Seq<char>| #[trigger] self.string_declarations.lookup(k) is Some implies
                self.string_declarations.lookup(k)->0.val@ == k
                && exists|n: nat| n < self.available_const && self.string_declarations.lookup(k)->0.name@ == const_name(n) by {
                if k != r.val@ {
                    let n = choose|n: nat| n < c && old(self).string_declarations.lookup(k)->0.name@ == const_name(n);
                    assert(n < self.available_const);
                } else {
                    assert(c < self.available_const);
                }
            }
            assert forall|i: int, j: int| 0 <= i < j < self.string_declarations.entries@.len() implies
                self.string_declarations.entries@[i].1.name@ != self.string_declarations.entries@[j].1.name@ by {
                if j == old_entries.len() {
                    let e = old_entries[i];
                    crate::util::env::lemma_find_in_unique(old_entries, i);
                    let n = choose|n: nat| n < c && old(self).string_declarations.lookup(e.0@)->0.name@ == const_name(n);
                    lemma_const_name_injective(n, c as nat);
                }
            }
        }
        r
    }

    /// append vector of function declarations to the existing ones
    pub fn append_function_declarations(&mut self, declarations: &mut Vec<String>)
        ensures
            final(self).function_declarations@ == old(self).function_declarations@ + old(declarations)@,
            final(declarations)@.len() == 0,
            final(self).string_declarations == old(self).string_declarations,
            final(self).struct_declarations == old(self).struct_declarations,
            final(self).struct_vtable_declarations == old(self).struct_vtable_declarations,
            final(self).array_struct_definitions == old(self).array_struct_definitions,
            final(self).available_const == old(self).available_const,
            final(self).available_label_suffix == old(self).available_label_suffix,
    {
        self.function_declarations.append(declarations);
    }

    pub fn get_struct_name(&self, class_name: &String) -> (r: String)
        ensures
            r@ == "__class__"@ + class_name@,
    {
        concat("__class__", class_name.as_str())
    }

    pub fn get_size_constant_name(&self, class_name: &String) -> (r: String)
        ensures
            r@ == "__sizeof__"@ + class_name@,
    {
        concat("__sizeof__", class_name.as_str())
    }

    pub fn get_vtable_struct_name(&self, class_name: &String) -> (r: String)
        ensures
            r@ == "__vtable_type__"@ + class_name@,
    {
        concat("__vtable_type__", class_name.as_str())
    }

    pub fn get_vtable_struct_const(&self, class_name: &String) -> (r: String)
        ensures
            r@ == "__vtable_const__"@ + class_name@,
    {
        concat("__vtable_const__", class_name.as_str())
    }

    /// get name of LLVM function that represents the given method for the given class
    pub fn get_method_name(&self, class_name: &String, method_name: &String) -> (r: String)
        ensures
            r@ == "__method__"@ + class_name@ + "__"@ + method_name@,
    {
        let a = concat3("__method__", class_name.as_str(), "__");
        concat(a.as_str(), method_name.as_str())
    }

    pub fn get_array_struct_name(&self, item_t: &Type) -> (r: String)
        ensures
            r@ == array_struct_name(item_t@),
    {
        array_struct_name_of(item_t)
    }

    pub fn get_array_struct_size_name(&self, item_t: &Type) -> (r: String)
        ensures
            r@ == "__builtin_sizeof__array_"@ + mangled_type(item_t@),
    {
        let m = type_to_mangled(item_t);
        concat("__builtin_sizeof__array_", m.as_str())
    }

    /// get new unique name for a global constant (same convention as clang uses for C strings)
    fn new_const_name(&mut self) -> (r: String)
        requires
            old(self).available_const < usize::MAX,
        ensures
            r@ == const_name(old(self).available_const as nat),
            final(self).available_const == old(self).available_const + 1,
            final(self).string_declarations == old(self).string_declarations,
            final(self).function_declarations == old(self).function_declarations,
            final(self).struct_declarations == old(self).struct_declarations,
            final(self).struct_vtable_declarations == old(self).struct_vtable_declarations,
            final(self).array_struct_definitions == old(self).array_struct_definitions,
            final(self).available_label_suffix == old(self).available_label_suffix,
    {
        let ord = self.available_const;
        self.available_const += 1;
        let digits = usize_to_string(ord);
        concat(".str.", digits.as_str())
    }

    /// get new unique suffix for labels
    pub fn new_label_suffix(&mut self) -> (r: usize)
        requires
            old(self).available_label_suffix < usize::MAX,
        ensures
            r == old(self).available_label_suffix,
            final(self).available_label_suffix == old(self).available_label_suffix + 1,
            final(self).string_declarations == old(self).string_declarations,
            final(self).function_declarations == old(self).function_declarations,
            final(self).struct_declarations == old(self).struct_declarations,
            final(self).struct_vtable_declarations == old(self).struct_vtable_declarations,
            final(self).array_struct_definitions == old(self).array_struct_definitions,
            final(self).available_const == old(self).available_const,
    {
        let suffix = self.available_label_suffix;
        self.available_label_suffix += 1;
        suffix
    }

    /// get name of the function that creates a class instance by class name
    pub fn get_init_name(&self, class_name: &String) -> (r: String)
        ensures
            r@ == "__init__"@ + class_name@,
    {
        concat("__init__", class_name.as_str())
    }

    /// get mangled function name from its source code identifier
    /// (main is the only non-mangled function)
    pub fn get_function_name(&self, func_name: &String) -> (r: String)
        ensures
            r@ == function_name(func_name@),
    {
        let main = String::from_str("main");
        if *func_name == main {
            func_name.clone()
        } else {
            concat("__func__", func_name.as_str())
        }
    }

    /// get declaration of a struct representing an array type
    /// (declared the first time it is asked for)
    pub fn get_or_declare_array_struct(&mut self, item_t: &Type) -> (r: StructDecl)
        requires
            old(self).wf(),
        ensures
            final(self).wf(),
            r@ == array_struct_decl(item_t@),
            struct_decl_wf(r),
            has_array_struct(final(self).array_struct_definitions@, item_t@),
            has_array_struct(old(self).array_struct_definitions@, item_t@) ==>
                final(self).array_struct_definitions@ == old(self).array_struct_definitions@,
            !has_array_struct(old(self).array_struct_definitions@, item_t@) ==>
                final(self).array_struct_definitions@.drop_last() == old(self).array_struct_definitions@
                && final(self).array_struct_definitions@.len() == old(self).array_struct_definitions@.len() + 1,
            final(self).string_declarations == old(self).string_declarations,
            final(self).function_declarations == old(self).function_declarations,
            final(self).struct_declarations == old(self).struct_declarations,
            final(self).struct_vtable_declarations == old(self).struct_vtable_declarations,
            final(self).available_const == old(self).available_const,
            final(self).available_label_suffix == old(self).available_label_suffix,
    {
        let mut i: usize = 0;
        while i < self.array_struct_definitions.len()
            invariant
                old(self).wf(),
                *self == *old(self),
                i <= self.array_struct_definitions@.len(),
                forall|j: int| 0 <= j < i ==> (#[trigger] self.array_struct_definitions@[j]).0@ != item_t@,
            decreases self.array_struct_definitions.len() - i,
        {
            if self.array_struct_definitions[i].0.equals(item_t) {
                let r = self.array_struct_definitions[i].1.copy();
                proof {
                    assert(self.array_struct_definitions@[i as int].0@ == item_t@);
                    assert(has_array_struct(self.array_struct_definitions@, item_t@));
                    assert(struct_decl_wf(self.array_struct_definitions@[i as int].1));
                    assert forall|k: Seq<char>| #[trigger] r.field_env.lookup(k) is Some implies 0 <= r.field_env.lookup(k)->0 < r.fields@.len() by {
                        assert(r.field_env.lookup(k) == self.array_struct_definitions@[i as int].1.field_env.lookup(k));
                    }
                }
                return r;
            }
            i += 1;
        }
        let mut field_env: Env<i32> = Env::new();
        field_env.insert(String::from_str("length"), 0);
        field_env.insert(String::from_str("array"), 1);
        proof {
            assert forall|q: Seq<char>| #[trigger] field_env.lookup(q) == if q == "array"@ { Some(1i32) } else if q == "length"@ { Some(0i32) } else { None } by {}
        }
        let mut fields: Vec<Type> = Vec::new();
        fields.push(Type::Int);
        fields.push(item_t.reference());
        let array_struct = StructDecl {
            name: self.get_array_struct_name(item_t),
            size_constant_name: self.get_array_struct_size_name(item_t),
            fields,
            field_env,
        };
        proof {
            reveal_strlit("length");
            reveal_strlit("array");
            lemma_map_of(array_struct.field_env.entries@, "length"@);
            lemma_map_of(array_struct.field_env.entries@, "array"@);
            assert forall|k: Seq<char>| #[trigger] array_struct@.field_env.contains_key(k) <==> (k == "length"@ || k == "array"@) by {
                lemma_map_of(array_struct.field_env.entries@, k);
                assert(array_struct.field_env.lookup(k) == if k == "array"@ { Some(1i32) } else if k == "length"@ { Some(0i32) } else { None });
            }
            let m = map!["length"@ => 0i32, "array"@ => 1i32];
            assert forall|k: Seq<char>| #[trigger] m.contains_key(k) implies array_struct@.field_env[k] == m[k] by {
                lemma_map_of(array_struct.field_env.entries@, k);
                assert(array_struct.field_env.lookup(k) == if k == "array"@ { Some(1i32) } else if k == "length"@ { Some(0i32) } else { None });
            }
            assert(array_struct@.field_env =~= m);
            assert(type_seq_view(array_struct.fields@) =~= seq![TypeV::Int, TypeV::Reference { t: Box::new(item_t@) }]);
        }
        let r = array_struct.copy();
        let ghost before = self.array_struct_definitions@;
        self.array_struct_definitions.push((item_t.copy(), array_struct));
        proof {
            assert(self.array_struct_definitions@.drop_last() =~= before);
            assert(!has_array_struct(before, item_t@));
            assert(self.array_struct_definitions@[before.len() as int].0@ == item_t@);
            assert(has_array_struct(self.array_struct_definitions@, item_t@));
            assert forall|k: Seq<char>| #[trigger] r.field_env.lookup(k) is Some implies 0 <= r.field_env.lookup(k)->0 < r.fields@.len() by {
                lemma_map_of(r.field_env.entries@, k);
            }
        }
        r
    }

    /// get all global declarations: functions, strings, classes, tables of methods and arrays,
    /// each kind in the order of declaration
    pub fn get_declarations(&self) -> (r: Vec<LLVM>)
        ensures
            r@.len() == self.function_declarations@.len() + self.string_declarations.entries@.len()
                + self.struct_declarations.entries@.len() + self.struct_vtable_declarations.entries@.len()
                + self.array_struct_definitions@.len(),
            forall|i: int| 0 <= i < self.function_declarations@.len() ==>
                declares_function(#[trigger] r@[i], self.function_declarations@[i]@),
            forall|i: int| 0 <= i < self.string_declarations.entries@.len() ==>
                declares_string(#[trigger] r@[self.function_declarations@.len() + i], self.string_declarations.entries@[i].1),
            forall|i: int| 0 <= i < self.struct_declarations.entries@.len() ==>
                declares_struct(#[trigger] r@[self.function_declarations@.len() + self.string_declarations.entries@.len() + i],
                    self.struct_declarations.entries@[i].1@),
            forall|i: int| 0 <= i < self.struct_vtable_declarations.entries@.len() ==>
                declares_vtable(#[trigger] r@[self.function_declarations@.len() + self.string_declarations.entries@.len()
                    + self.struct_declarations.entries@.len() + i], self.struct_vtable_declarations.entries@[i].1),
            forall|i: int| 0 <= i < self.array_struct_definitions@.len() ==>
                declares_struct(#[trigger] r@[self.function_declarations@.len() + self.string_declarations.entries@.len()
                    + self.struct_declarations.entries@.len() + self.struct_vtable_declarations.entries@.len() + i],
                    self.array_struct_definitions@[i].1@),
    {
        let mut r: Vec<LLVM> = Vec::new();
        let mut i: usize = 0;
        while i < self.function_declarations.len()
            invariant
                i <= self.function_declarations@.len(),
                r@.len() == i,
                forall|j: int| 0 <= j < i ==> declares_function(#[trigger] r@[j], self.function_declarations@[j]@),
            decreases self.function_declarations.len() - i,
        {
            r.push(LLVM::DeclFunction { decl: self.function_declarations[i].clone() });
            i += 1;
        }
        let ghost n0 = r@.len() as int;
        let mut i: usize = 0;
        while i < self.string_declarations.entries.len()
            invariant
                i <= self.string_declarations.entries@.len(),
                r@.len() == n0 + i,
                n0 == self.function_declarations@.len(),
                forall|j: int| 0 <= j < n0 ==> declares_function(#[trigger] r@[j], self.function_declarations@[j]@),
                forall|j: int| 0 <= j < i ==> declares_string(#[trigger] r@[n0 + j], self.string_declarations.entries@[j].1),
            decreases self.string_declarations.entries.len() - i,
        {
            r.push(LLVM::DeclString { decl: self.string_declarations.entries[i].1.copy() });
            i += 1;
        }
        let ghost n1 = r@.len() as int;
        let mut i: usize = 0;
        while i < self.struct_declarations.entries.len()
            invariant
                i <= self.struct_declarations.entries@.len(),
                r@.len() == n1 + i,
                n0 == self.function_declarations@.len(),
                n1 == n0 + self.string_declarations.entries@.len(),
                forall|j: int| 0 <= j < n0 ==> declares_function(#[trigger] r@[j], self.function_declarations@[j]@),
                forall|j: int| 0 <= j < n1 - n0 ==> declares_string(#[trigger] r@[n0 + j], self.string_declarations.entries@[j].1),
                forall|j: int| 0 <= j < i ==> declares_struct(#[trigger] r@[n1 + j], self.struct_declarations.entries@[j].1@),
            decreases self.struct_declarations.entries.len() - i,
        {
            r.push(LLVM::DeclStruct { decl: self.struct_declarations.entries[i].1.copy() });
            i += 1;
        }
        let ghost n2 = r@.len() as int;
        let mut i: usize = 0;
        while i < self.struct_vtable_declarations.entries.len()
            invariant
                i <= self.struct_vtable_declarations.entries@.len(),
                r@.len() == n2 + i,
                n0 == self.function_declarations@.len(),
                n1 == n0 + self.string_declarations.entries@.len(),
                n2 == n1 + self.struct_declarations.entries@.len(),
                forall|j: int| 0 <= j < n0 ==> declares_function(#[trigger] r@[j], self.function_declarations@[j]@),
                forall|j: int| 0 <= j < n1 - n0 ==> declares_string(#[trigger] r@[n0 + j], self.string_declarations.entries@[j].1),
                forall|j: int| 0 <= j < n2 - n1 ==> declares_struct(#[trigger] r@[n1 + j], self.struct_declarations.entries@[j].1@),
                forall|j: int| 0 <= j < i ==> declares_vtable(#[trigger] r@[n2 + j], self.struct_vtable_declarations.entries@[j].1),
            decreases self.struct_vtable_declarations.entries.len() - i,
        {
            let d = self.struct_vtable_declarations.entries[i].1.copy();
            r.push(LLVM::DeclVTable { decl: d });
            i += 1;
        }
        let ghost n3 = r@.len() as int;
        let mut i: usize = 0;
        while i < self.array_struct_definitions.len()
            invariant
                i <= self.array_struct_definitions@.len(),
                r@.len() == n3 + i,
                n0 == self.function_declarations@.len(),
                n1 == n0 + self.string_declarations.entries@.len(),
                n2 == n1 + self.struct_declarations.entries@.len(),
                n3 == n2 + self.struct_vtable_declarations.entries@.len(),
                forall|j: int| 0 <= j < n0 ==> declares_function(#[trigger] r@[j], self.function_declarations@[j]@),
                forall|j: int| 0 <= j < n1 - n0 ==> declares_string(#[trigger] r@[n0 + j], self.string_declarations.entries@[j].1),
                forall|j: int| 0 <= j < n2 - n1 ==> declares_struct(#[trigger] r@[n1 + j], self.struct_declarations.entries@[j].1@),
                forall|j: int| 0 <= j < n3 - n2 ==> declares_vtable(#[trigger] r@[n2 + j], self.struct_vtable_declarations.entries@[j].1),
                forall|j: int| 0 <= j < i ==> declares_struct(#[trigger] r@[n3 + j], self.array_struct_definitions@[j].1@),
            decreases self.array_struct_definitions.len() - i,
        {
            r.push(LLVM::DeclStruct { decl: self.array_struct_definitions[i].1.copy() });
            i += 1;
        }
        r
    }

    /// get struct declaration from the class identifier
    pub fn get_struct_decl(&self, class_ident: &String) -> (r: StructDecl)
        requires
            self.struct_declarations.lookup(class_ident@) is Some,
        ensures
            r@ == self.struct_declarations.lookup(class_ident@)->0@,
            r.field_env.wf() == self.struct_declarations.lookup(class_ident@)->0.field_env.wf(),
            r.fields@.len() == self.struct_declarations.lookup(class_ident@)->0.fields@.len(),
            forall|i: int| 0 <= i < r.fields@.len() ==> (#[trigger] r.fields@[i])@ == self.struct_declarations.lookup(class_ident@)->0.fields@[i]@,
            forall|k: Seq<char>| #[trigger] r.field_env.lookup(k) == self.struct_declarations.lookup(class_ident@)->0.field_env.lookup(k),
    {
        let r = self.struct_declarations.get(class_ident).unwrap().copy();
        proof {
            let d = self.struct_declarations.lookup(class_ident@)->0;
            assert forall|i: int| 0 <= i < r.fields@.len() implies (#[trigger] r.fields@[i])@ == d.fields@[i]@ by {
                assert(type_seq_view(r.fields@)[i] == type_seq_view(d.fields@)[i]);
            }
        }
        r
    }
}


/// structure that represents an array of items of type `t`: its length, then a pointer to the items
pub open spec fn array_struct_decl(t: TypeV) -> StructDeclV {
    StructDeclV {
        name: array_struct_name(t),
        size_constant_name: "__builtin_sizeof__array_"@ + mangled_type(t),
        fields: seq![TypeV::Int, TypeV::Reference { t: Box::new(t) }],
        field_env: map!["length"@ => 0i32, "array"@ => 1i32],
    }
}

/// each array structure is declared once per item type, as `array_struct_decl` describes it
pub open spec fn array_structs_wf(defs: Seq<(Type, StructDecl)>) -> bool {
    &&& forall|i: int| 0 <= i < defs.len() ==> (#[trigger] defs[i]).1@ == array_struct_decl(defs[i].0@)
        && struct_decl_wf(defs[i].1)
    &&& forall|i: int, j: int| 0 <= i < j < defs.len() ==> (#[trigger] defs[i]).0@ != (#[trigger] defs[j]).0@
}

/// some declared array structure has items of type `t`
pub open spec fn has_array_struct(defs: Seq<(Type, StructDecl)>, t: TypeV) -> bool {
    exists|i: int| 0 <= i < defs.len() && (#[trigger] defs[i]).0@ == t
}

/// the number of global declarations of the context
pub open spec fn declarations_count(g: GlobalContext) -> int {
    (g.function_declarations@.len() + g.string_declarations.entries@.len() + g.struct_declarations.entries@.len()
        + g.struct_vtable_declarations.entries@.len() + g.array_struct_definitions@.len()) as int
}

/// `r` starts with the global declarations of the context: its functions, strings, structures,
/// method tables and array structures, each group in its order
pub open spec fn lists_declarations(g: GlobalContext, r: Seq<LLVM>) -> bool {
    &&& r.len() >= declarations_count(g)
    &&& forall|i: int| 0 <= i < g.function_declarations@.len() ==>
        declares_function(#[trigger] r[i], g.function_declarations@[i]@)
    &&& forall|i: int| 0 <= i < g.string_declarations.entries@.len() ==>
        declares_string(#[trigger] r[g.function_declarations@.len() + i], g.string_declarations.entries@[i].1)
    &&& forall|i: int| 0 <= i < g.struct_declarations.entries@.len() ==>
        declares_struct(#[trigger] r[g.function_declarations@.len() + g.string_declarations.entries@.len() + i],
            g.struct_declarations.entries@[i].1@)
    &&& forall|i: int| 0 <= i < g.struct_vtable_declarations.entries@.len() ==>
        declares_vtable(#[trigger] r[g.function_declarations@.len() + g.string_declarations.entries@.len()
            + g.struct_declarations.entries@.len() + i], g.struct_vtable_declarations.entries@[i].1)
    &&& forall|i: int| 0 <= i < g.array_struct_definitions@.len() ==>
        declares_struct(#[trigger] r[g.function_declarations@.len() + g.string_declarations.entries@.len()
            + g.struct_declarations.entries@.len() + g.struct_vtable_declarations.entries@.len() + i],
            g.array_struct_definitions@[i].1@)
}

/// `l` declares the function whose declaration text is `d`
pub open spec fn declares_function(l: LLVM, d: Seq<char>) -> bool {
    match l {
        LLVM::DeclFunction { decl } => decl@ == d,
        _ => false,
    }
}

/// `l` declares the string constant `d`
pub open spec fn declares_string(l: LLVM, d: StringDecl) -> bool {
    match l {
        LLVM::DeclString { decl } => decl == d,
        _ => false,
    }
}

/// `l` declares the structure `d`
pub open spec fn declares_struct(l: LLVM, d: StructDeclV) -> bool {
    match l {
        LLVM::DeclStruct { decl } => decl@ == d,
        _ => false,
    }
}

/// two tables of methods have the same names, methods and indices
pub open spec fn same_vtable(a: VTableDecl, b: VTableDecl) -> bool {
    &&& a.name@ == b.name@
    &&& a.data_const_name@ == b.data_const_name@
    &&& a.methods@.len() == b.methods@.len()
    &&& forall|i: int| 0 <= i < a.methods@.len() ==> (#[trigger] a.methods@[i]).0@ == b.methods@[i].0@ && a.methods@[i].1@ == b.methods@[i].1@
    &&& forall|k: Seq<char>| #[trigger] a.method_env.lookup(k) == b.method_env.lookup(k)
}

/// `l` declares the table of methods `d`
pub open spec fn declares_vtable(l: LLVM, d: VTableDecl) -> bool {
    match l {
        LLVM::DeclVTable { decl } => same_vtable(decl, d),
        _ => false,
    }
}

/// the map of an environment binds what the environment binds
pub proof fn lemma_map_of<T>(s: Seq<(String, T)>, k: Seq<char>)
    ensures
        map_of(s).contains_key(k) == (crate::util::env::find_in(s, k) is Some),
        crate::util::env::find_in(s, k) is Some ==> map_of(s)[k] == crate::util::env::find_in(s, k)->0,
{
}

/// method `name` is in the table at some index, with LLVM name `mname` and type `t`
pub open spec fn method_at(decls: Seq<(Type, String)>, env: Env<i32>, name: Seq<char>, mname: Seq<char>, t: TypeV) -> bool {
    &&& env.lookup(name) is Some
    &&& 0 <= env.lookup(name)->0 < decls.len()
    &&& decls[env.lookup(name)->0 as int].1@ == mname
    &&& decls[env.lookup(name)->0 as int].0@ == t
}

/// the parent's method table has a method of that name
pub open spec fn inherits_method(parent: Option<VTableDecl>, k: Seq<char>) -> bool {
    parent matches Some(p) && p.method_env.lookup(k) is Some
}

/// number of the methods whose names the parent's method table does not have
pub open spec fn new_method_count(ms: Seq<(String, crate::frontend::ast::Function<TypeMeta>)>, parent: Option<VTableDecl>) -> nat
    decreases ms.len(),
{
    if ms.len() == 0 {
        0
    } else {
        new_method_count(ms.drop_last(), parent) + if inherits_method(parent, ms.last().0@) { 0nat } else { 1nat }
    }
}

/// the instance variables are at consecutive indices from `base`, in declaration order
pub open spec fn vars_placed_from(fe: Map<Seq<char>, i32>, vars: Seq<(String, ClassVar<TypeMeta>)>, base: int) -> bool {
    forall|i: int| 0 <= i < vars.len() ==> #[trigger] fe.contains_key(vars[i].0@) && fe[vars[i].0@] == i + base
}

/// types of the instance variables of a class (in declaration order)
pub open spec fn var_types(cls: Class<TypeMeta>) -> Seq<TypeV> {
    Seq::new(cls.item.vars.entries@.len(), |i: int| cls.item.vars.entries@[i].1.meta.t@)
}

impl GlobalContext {
    /// declaration of the parent's structure, if the class has a declared parent
    pub open spec fn parent_struct(&self, cls: Class<TypeMeta>) -> Option<StructDecl> {
        match cls.item.parent {
            Some(p) => self.struct_declarations.lookup(p@),
            None => None,
        }
    }

    /// index of the first field that the class itself declares (after the table pointer
    /// and the inherited fields)
    pub open spec fn first_own_field(&self, cls: Class<TypeMeta>) -> int {
        match self.parent_struct(cls) {
            Some(d) => d@.fields.len() as int,
            None => 1,
        }
    }

    /// declaration of the parent's table of methods, if the class has a declared parent
    pub open spec fn parent_vtable(&self, cls: Class<TypeMeta>) -> Option<VTableDecl> {
        match cls.item.parent {
            Some(p) => self.struct_vtable_declarations.lookup(p@),
            None => None,
        }
    }

    fn get_parent_struct_decl(&self, cls: &Class<TypeMeta>) -> (r: Option<StructDecl>)
        requires
            self.wf(),
        ensures
            match r {
                Some(d) => self.parent_struct(*cls) is Some && d@ == self.parent_struct(*cls)->0@ && struct_decl_wf(d)
                    && d.fields@.len() == self.parent_struct(*cls)->0.fields@.len()
                    && (forall|k: Seq<char>| #[trigger] d.field_env.lookup(k) == self.parent_struct(*cls)->0.field_env.lookup(k)),
                None => self.parent_struct(*cls) is None,
            },
    {
        match &cls.item.parent {
            Some(parent_cls) => match self.struct_declarations.get(parent_cls) {
                Some(d) => Some(d.copy()),
                None => None,
            },
            None => None,
        }
    }

    fn get_parent_struct_vtable(&self, cls: &Class<TypeMeta>) -> (r: Option<VTableDecl>)
        requires
            self.wf(),
        ensures
            match r {
                Some(d) => self.parent_vtable(*cls) matches Some(p) && vtable_decl_wf(d)
                    && d.methods@.len() == p.methods@.len()
                    && (forall|i: int| 0 <= i < p.methods@.len() ==> (#[trigger] d.methods@[i]).0@ == p.methods@[i].0@ && d.methods@[i].1@ == p.methods@[i].1@)
                    && (forall|k: Seq<char>| #[trigger] d.method_env.lookup(k) == p.method_env.lookup(k)),
                None => self.parent_vtable(*cls) is None,
            },
    {
        match &cls.item.parent {
            Some(parent_cls) => match self.struct_vtable_declarations.get(parent_cls) {
                Some(d) => Some(d.copy()),
                None => None,
            },
            None => None,
        }
    }

    /// the class can be declared: its members have unique names, fields it adds are new,
    /// and the counts fit in the `i32` indices
    pub open spec fn can_declare_class(&self, cls: Class<TypeMeta>) -> bool {
        &&& self.wf()
        &&& cls.item.vars.wf()
        &&& cls.item.methods.wf()
        &&& self.available_const <= usize::MAX
        &&& cls.item.vars.entries@.len() + 1 + match self.parent_struct(cls) { Some(d) => d.fields@.len() as int, None => 0 } <= i32::MAX
        &&& cls.item.methods.entries@.len() + match self.parent_vtable(cls) { Some(d) => d.methods@.len() as int, None => 0 } <= i32::MAX
        &&& self.parent_struct(cls) matches Some(d) ==> forall|k: Seq<char>| #[trigger] cls.item.vars.lookup(k) is Some
            ==> crate::util::env::find_in(d.field_env.entries@, k) is None
    }

    /// add new class declaration, get a StructDecl object corresponding to the new LLVM IR struct;
    /// a new vtable type for the class methods is declared as well
    /// (function definitions for class methods are compiled separately)
    #[verifier::spinoff_prover]
    #[verifier::rlimit(50)]
    pub fn declare_class(&mut self, cls: &Class<TypeMeta>) -> (r: StructDecl)
        requires
            old(self).can_declare_class(*cls),
        ensures
            final(self).wf(),
            r@.name == "__class__"@ + cls.item.ident@,
            r@.size_constant_name == "__sizeof__"@ + cls.item.ident@,
            r@.fields == seq![TypeV::BuiltinClass { ident: "__vtable_type__"@ + cls.item.ident@ }]
                + match old(self).parent_struct(*cls) { Some(d) => d@.fields.drop_first(), None => Seq::empty() }
                + var_types(*cls),
            vars_placed_from(r@.field_env, cls.item.vars.entries@, old(self).first_own_field(*cls)),
            forall|k: Seq<char>| cls.item.vars.lookup(k) is None ==> #[trigger] r@.field_env.contains_key(k) ==
                (old(self).parent_struct(*cls) matches Some(d) && d@.field_env.contains_key(k)),
            forall|k: Seq<char>| cls.item.vars.lookup(k) is None && #[trigger] r@.field_env.contains_key(k) ==>
                r@.field_env[k] == old(self).parent_struct(*cls)->0@.field_env[k],
            final(self).struct_declarations.lookup(cls.item.ident@) is Some,
            final(self).struct_declarations.lookup(cls.item.ident@)->0@ == r@,
            forall|k: Seq<char>| k != cls.item.ident@ ==> #[trigger] final(self).struct_declarations.lookup(k) == old(self).struct_declarations.lookup(k),
            forall|k: Seq<char>| k != cls.item.ident@ ==> #[trigger] final(self).struct_vtable_declarations.lookup(k) == old(self).struct_vtable_declarations.lookup(k),
            final(self).struct_vtable_declarations.lookup(cls.item.ident@) matches Some(vt) && {
                &&& vt.name@ == "__vtable_type__"@ + cls.item.ident@
                &&& vt.data_const_name@ == "__vtable_const__"@ + cls.item.ident@
                // every method of the class is in the table, under its own name
                &&& forall|i: int| 0 <= i < cls.item.methods.entries@.len() ==> #[trigger] method_at(vt.methods@, vt.method_env,
                    cls.item.methods.entries@[i].0@, "__method__"@ + cls.item.ident@ + "__"@ + cls.item.methods.entries@[i].0@,
                    cls.item.methods.entries@[i].1.meta.t@)
                // an inherited method that is not overridden keeps its place, its type and its implementation
                &&& old(self).parent_vtable(*cls) matches Some(p) ==> forall|k: Seq<char>| cls.item.methods.lookup(k) is None
                    && (#[trigger] p.method_env.lookup(k)) is Some ==> vt.method_env.lookup(k) == p.method_env.lookup(k)
                    && vt.methods@[p.method_env.lookup(k)->0 as int].0@ == p.methods@[p.method_env.lookup(k)->0 as int].0@
                    && vt.methods@[p.method_env.lookup(k)->0 as int].1@ == p.methods@[p.method_env.lookup(k)->0 as int].1@
                // an overridden method keeps the place it had in the parent's table
                &&& old(self).parent_vtable(*cls) matches Some(p) ==> forall|k: Seq<char>| cls.item.methods.lookup(k) is Some
                    && (#[trigger] p.method_env.lookup(k)) is Some ==> vt.method_env.lookup(k) == p.method_env.lookup(k)
                // the table has the parent's methods, then one entry for each new method, placed after them
                &&& vt.methods@.len() == match old(self).parent_vtable(*cls) { Some(p) => p.methods@.len() as int, None => 0 }
                    + new_method_count(cls.item.methods.entries@, old(self).parent_vtable(*cls))
                &&& forall|i: int| 0 <= i < cls.item.methods.entries@.len()
                    && !inherits_method(old(self).parent_vtable(*cls), (#[trigger] cls.item.methods.entries@[i]).0@)
                    ==> vt.method_env.lookup(cls.item.methods.entries@[i].0@)->0
                        >= match old(self).parent_vtable(*cls) { Some(p) => p.methods@.len() as int, None => 0 }
            },
            final(self).string_declarations == old(self).string_declarations,
            final(self).function_declarations == old(self).function_declarations,
            final(self).array_struct_definitions == old(self).array_struct_definitions,
            final(self).available_const == old(self).available_const,
            final(self).available_label_suffix == old(self).available_label_suffix,
    {
        let class_name = cls.item.get_key();

        // create a vtable for current class, unifying it with parent class to preserve order
        let mut method_declarations: Vec<(Type, String)> = Vec::new();
        let mut method_env: Env<i32> = Env::new();
        let ghost parent_vt = self.parent_vtable(*cls);
        let parent_vtable = self.get_parent_struct_vtable(cls);
        match parent_vtable {
            Some(pv) => {
                method_declarations = pv.methods;
                method_env = pv.method_env;
            },
            None => {},
        }
        let ghost base_methods = method_declarations@;
        let ghost base_env = method_env;
        let mut i: usize = 0;
        while i < cls.item.methods.entries.len()
            invariant
                old(self).can_declare_class(*cls),
                *self == *old(self),
                class_name@ == cls.item.ident@,
                i <= cls.item.methods.entries@.len(),
                indices_within(method_env, method_declarations@.len()),
                method_declarations@.len() <= base_methods.len() + i,
                base_methods.len() == match parent_vt { Some(d) => d.methods@.len() as int, None => 0 },
                parent_vt == self.parent_vtable(*cls),
                method_declarations@.len() >= base_methods.len(),
                base_env.wf(),
                parent_vt matches Some(p) ==> forall|k: Seq<char>| #[trigger] base_env.lookup(k) == p.method_env.lookup(k),
                parent_vt is None ==> forall|k: Seq<char>| #[trigger] base_env.lookup(k) is None,
                parent_vt matches Some(p) ==> forall|j: int| 0 <= j < p.methods@.len() ==> (#[trigger] base_methods[j]).0@ == p.methods@[j].0@ && base_methods[j].1@ == p.methods@[j].1@,
                forall|j: int| 0 <= j < i ==> #[trigger] method_at(method_declarations@, method_env,
                    cls.item.methods.entries@[j].0@, "__method__"@ + cls.item.ident@ + "__"@ + cls.item.methods.entries@[j].0@,
                    cls.item.methods.entries@[j].1.meta.t@),
                forall|k: Seq<char>| (forall|j: int| 0 <= j < i ==> cls.item.methods.entries@[j].0@ != k) && (#[trigger] base_env.lookup(k)) is Some
                    ==> method_env.lookup(k) == base_env.lookup(k)
                    && method_declarations@[base_env.lookup(k)->0 as int] == base_methods[base_env.lookup(k)->0 as int],
                forall|k: Seq<char>| (#[trigger] base_env.lookup(k)) is Some ==> method_env.lookup(k) == base_env.lookup(k),
                method_declarations@.len() == base_methods.len() + new_method_count(cls.item.methods.entries@.subrange(0, i as int), parent_vt),
                forall|k: Seq<char>| #[trigger] method_env.lookup(k) is Some ==> base_env.lookup(k) is Some
                    || exists|j: int| 0 <= j < i && cls.item.methods.entries@[j].0@ == k,
                forall|j: int| 0 <= j < i && !inherits_method(parent_vt, (#[trigger] cls.item.methods.entries@[j]).0@)
                    ==> method_env.lookup(cls.item.methods.entries@[j].0@)->0 >= base_methods.len(),
            decreases cls.item.methods.entries.len() - i,
        {
            let method_name = &cls.item.methods.entries[i].0;
            let method = &cls.item.methods.entries[i].1;
            let method_t = method.meta.t.copy();
            let method_llvm_name = self.get_method_name(class_name, method_name);
            let ghost before_decls = method_declarations@;
            let ghost before_env = method_env;
            let ghost before_count = new_method_count(cls.item.methods.entries@.subrange(0, i as int), parent_vt);
            proof {
                crate::util::env::lemma_find_in_unique(cls.item.methods.entries@, i as int);
                let ms = cls.item.methods.entries@;
                assert(ms.subrange(0, i + 1).drop_last() =~= ms.subrange(0, i as int));
                assert(ms.subrange(0, i + 1).last() == ms[i as int]);
                // the name of method `i` is in the table only if the parent has it
                if method_env.lookup(ms[i as int].0@) is Some && base_env.lookup(ms[i as int].0@) is None {
                    let j = choose|j: int| 0 <= j < i && ms[j].0@ == ms[i as int].0@;
                    assert(false);
                }
            }
            match method_env.get(method_name) {
                Some(parent_method_idx) => {
                    // replacing method with same name, defined in the parent class
                    let idx = *parent_method_idx as usize;
                    method_declarations.set(idx, (method_t, method_llvm_name));
                },
                None => {
                    // adding new method
                    let idx = method_declarations.len() as i32;
                    method_env.insert(method_name.clone(), idx);
                    method_declarations.push((method_t, method_llvm_name));
                },
            }
            proof {
                assert forall|j: int| 0 <= j < i + 1 implies #[trigger] method_at(method_declarations@, method_env,
                    cls.item.methods.entries@[j].0@, "__method__"@ + cls.item.ident@ + "__"@ + cls.item.methods.entries@[j].0@,
                    cls.item.methods.entries@[j].1.meta.t@) by {
                    if j < i {
                        assert(cls.item.methods.entries@[j].0@ != cls.item.methods.entries@[i as int].0@);
                        assert(method_at(before_decls, before_env,
                            cls.item.methods.entries@[j].0@, "__method__"@ + cls.item.ident@ + "__"@ + cls.item.methods.entries@[j].0@,
                            cls.item.methods.entries@[j].1.meta.t@));
                    }
                }
                assert forall|k: Seq<char>| (forall|j: int| 0 <= j < i + 1 ==> cls.item.methods.entries@[j].0@ != k) && (#[trigger] base_env.lookup(k)) is Some
                    implies method_env.lookup(k) == base_env.lookup(k)
                    && method_declarations@[base_env.lookup(k)->0 as int] == base_methods[base_env.lookup(k)->0 as int] by {
                    assert(forall|j: int| 0 <= j < i ==> cls.item.methods.entries@[j].0@ != k);
                    assert(cls.item.methods.entries@[i as int].0@ != k);
                }
            }
            i += 1;
        }
        assert(cls.item.methods.entries@.subrange(0, i as int) =~= cls.item.methods.entries@);
        let vtable_name = self.get_vtable_struct_name(class_name);
        let vtable_decl = VTableDecl {
            name: self.get_vtable_struct_name(class_name),
            data_const_name: self.get_vtable_struct_const(class_name),
            methods: method_declarations,
            method_env,
        };
        let ghost vt = vtable_decl;

        // build LLVM representation of the structure
        let mut fields: Vec<Type> = Vec::new();
        fields.push(Type::BuiltinClass { ident: vtable_name });
        let mut field_env: Env<i32> = Env::new();
        let ghost parent_sd = self.parent_struct(*cls);
        match self.get_parent_struct_decl(cls) {
            Some(parent_decl) => {
                let mut j: usize = 1;
                while j < parent_decl.fields.len()
                    invariant
                        1 <= j <= parent_decl.fields@.len(),
                        fields@.len() == j,
                        fields@[0]@ == (TypeV::BuiltinClass { ident: "__vtable_type__"@ + cls.item.ident@ }),
                        forall|x: int| 1 <= x < j ==> fields@[x]@ == parent_decl.fields@[x]@,
                    decreases parent_decl.fields.len() - j,
                {
                    fields.push(parent_decl.fields[j].copy());
                    j += 1;
                }
                field_env = copy_index_env(&parent_decl.field_env);
                proof {
                    assert(type_seq_view(fields@) =~= seq![TypeV::BuiltinClass { ident: "__vtable_type__"@ + cls.item.ident@ }] + parent_decl@.fields.drop_first());
                }
            },
            None => {
                proof {
                    assert(type_seq_view(fields@) =~= seq![TypeV::BuiltinClass { ident: "__vtable_type__"@ + cls.item.ident@ }]);
                }
            },
        }
        let ghost base_fields = type_seq_view(fields@);
        let ghost base_field_env = field_env;
        let base_len = fields.len();
        let mut v: usize = 0;
        while v < cls.item.vars.entries.len()
            invariant
                old(self).can_declare_class(*cls),
                *self == *old(self),
                parent_sd == self.parent_struct(*cls),
                v <= cls.item.vars.entries@.len(),
                base_len == base_fields.len(),
                base_len == match parent_sd { Some(d) => d.fields@.len() as int, None => 1 },
                fields@.len() == base_len + v,
                type_seq_view(fields@) == base_fields + var_types(*cls).subrange(0, v as int),
                field_env.wf(),
                indices_within(field_env, fields@.len()),
                parent_sd matches Some(d) ==> forall|k: Seq<char>| #[trigger] base_field_env.lookup(k) == crate::util::env::find_in(d.field_env.entries@, k),
                parent_sd is None ==> forall|k: Seq<char>| #[trigger] base_field_env.lookup(k) is None,
                forall|x: int| 0 <= x < v ==> #[trigger] field_env.lookup(cls.item.vars.entries@[x].0@) == Some((base_len + x) as i32),
                forall|k: Seq<char>| (forall|x: int| 0 <= x < v ==> cls.item.vars.entries@[x].0@ != k) ==> #[trigger] field_env.lookup(k) == base_field_env.lookup(k),
            decreases cls.item.vars.entries.len() - v,
        {
            let field_name = &cls.item.vars.entries[v].0;
            let field_var = &cls.item.vars.entries[v].1;
            proof {
                crate::util::env::lemma_find_in_unique(cls.item.vars.entries@, v as int);
                assert(cls.item.vars.lookup(field_name@) is Some);
                assert(field_env.lookup(field_name@) is None);
            }
            // unlike methods, fields cannot be replaced (and this should've been caught by typechecker)
            let field_idx = fields.len() as i32;
            let ghost before = type_seq_view(fields@);
            fields.push(field_var.meta.t.copy());
            field_env.insert(field_name.clone(), field_idx);
            proof {
                assert(var_types(*cls).subrange(0, v + 1) =~= var_types(*cls).subrange(0, v as int).push(field_var.meta.t@));
                assert(type_seq_view(fields@) =~= before.push(field_var.meta.t@));
                assert forall|x: int| 0 <= x < v + 1 implies #[trigger] field_env.lookup(cls.item.vars.entries@[x].0@) == Some((base_len + x) as i32) by {
                    if x < v {
                        assert(cls.item.vars.entries@[x].0@ != cls.item.vars.entries@[v as int].0@);
                    }
                }
            }
            v += 1;
        }
        proof {
            assert(parent_sd == old(self).parent_struct(*cls));
        }
        let new_struct = StructDecl {
            name: self.get_struct_name(class_name),
            size_constant_name: self.get_size_constant_name(class_name),
            fields,
            field_env,
        };
        proof {
            assert(old(self).first_own_field(*cls) == base_len);
            assert forall|x: int| 0 <= x < cls.item.vars.entries@.len() implies #[trigger] new_struct@.field_env.contains_key(cls.item.vars.entries@[x].0@)
                && new_struct@.field_env[cls.item.vars.entries@[x].0@] == x + base_len by {
                lemma_map_of(new_struct.field_env.entries@, cls.item.vars.entries@[x].0@);
                assert(new_struct.field_env.lookup(cls.item.vars.entries@[x].0@) == Some((base_len + x) as i32));
                assert(base_len + x <= i32::MAX);
                if parent_sd is Some {
                    assert(parent_sd->0@.fields.len() == parent_sd->0.fields@.len());
                }
            }
            assert forall|k: Seq<char>| cls.item.vars.lookup(k) is None implies #[trigger] new_struct@.field_env.contains_key(k) ==
                (parent_sd matches Some(d) && d@.field_env.contains_key(k)) by {
                lemma_map_of(new_struct.field_env.entries@, k);
                if parent_sd is Some {
                    lemma_map_of(parent_sd->0.field_env.entries@, k);
                }
                if exists|x: int| 0 <= x < cls.item.vars.entries@.len() && cls.item.vars.entries@[x].0@ == k {
                    let x = choose|x: int| 0 <= x < cls.item.vars.entries@.len() && cls.item.vars.entries@[x].0@ == k;
                    crate::util::env::lemma_find_in_unique(cls.item.vars.entries@, x);
                }
                assert(forall|x: int| 0 <= x < cls.item.vars.entries@.len() ==> cls.item.vars.entries@[x].0@ != k);
                assert(new_struct.field_env.lookup(k) == base_field_env.lookup(k));
            }
            assert forall|k: Seq<char>| cls.item.vars.lookup(k) is None && #[trigger] new_struct@.field_env.contains_key(k) implies
                new_struct@.field_env[k] == parent_sd->0@.field_env[k] by {
                lemma_map_of(new_struct.field_env.entries@, k);
                if parent_sd is Some {
                    lemma_map_of(parent_sd->0.field_env.entries@, k);
                }
                if exists|x: int| 0 <= x < cls.item.vars.entries@.len() && cls.item.vars.entries@[x].0@ == k {
                    let x = choose|x: int| 0 <= x < cls.item.vars.entries@.len() && cls.item.vars.entries@[x].0@ == k;
                    crate::util::env::lemma_find_in_unique(cls.item.vars.entries@, x);
                }
                assert(forall|x: int| 0 <= x < cls.item.vars.entries@.len() ==> cls.item.vars.entries@[x].0@ != k);
                assert(new_struct.field_env.lookup(k) == base_field_env.lookup(k));
            }
            assert(struct_decl_wf(new_struct));
            assert(vtable_decl_wf(vt));
            assert(var_types(*cls).subrange(0, var_types(*cls).len() as int) =~= var_types(*cls));
            assert forall|k: Seq<char>| cls.item.vars.lookup(k) is None implies (forall|x: int| 0 <= x < cls.item.vars.entries@.len() ==> cls.item.vars.entries@[x].0@ != k) by {
                if exists|x: int| 0 <= x < cls.item.vars.entries@.len() && cls.item.vars.entries@[x].0@ == k {
                    let x = choose|x: int| 0 <= x < cls.item.vars.entries@.len() && cls.item.vars.entries@[x].0@ == k;
                    crate::util::env::lemma_find_in_unique(cls.item.vars.entries@, x);
                }
            }
            assert forall|k: Seq<char>| cls.item.methods.lookup(k) is None implies (forall|x: int| 0 <= x < cls.item.methods.entries@.len() ==> cls.item.methods.entries@[x].0@ != k) by {
                if exists|x: int| 0 <= x < cls.item.methods.entries@.len() && cls.item.methods.entries@[x].0@ == k {
                    let x = choose|x: int| 0 <= x < cls.item.methods.entries@.len() && cls.item.methods.entries@[x].0@ == k;
                    crate::util::env::lemma_find_in_unique(cls.item.methods.entries@, x);
                }
            }
        }
        let class_key = class_name.clone();
        self.struct_vtable_declarations.insert(class_key, vtable_decl);
        let stored = new_struct.copy();
        self.struct_declarations.insert(class_name.clone(), stored);
        proof {
            assert(vars_placed_from(new_struct@.field_env, cls.item.vars.entries@, old(self).first_own_field(*cls)));
            assert(self.struct_vtable_declarations.lookup(cls.item.ident@) == Some(vt));
            assert forall|k: Seq<char>| cls.item.methods.lookup(k) is None && parent_vt is Some
                && (#[trigger] parent_vt->0.method_env.lookup(k)) is Some implies vt.method_env.lookup(k) == parent_vt->0.method_env.lookup(k)
                && vt.methods@[parent_vt->0.method_env.lookup(k)->0 as int].1@ == parent_vt->0.methods@[parent_vt->0.method_env.lookup(k)->0 as int].1@ by {
                assert(base_env.lookup(k) == parent_vt->0.method_env.lookup(k));
                assert(forall|x: int| 0 <= x < cls.item.methods.entries@.len() ==> cls.item.methods.entries@[x].0@ != k);
                let idx = parent_vt->0.method_env.lookup(k)->0 as int;
                assert(0 <= idx < parent_vt->0.methods@.len()) by {
                    assert(vtable_decl_wf(parent_vt->0));
                }
                assert(base_methods[idx].1@ == parent_vt->0.methods@[idx].1@);
            }
            assert forall|k: Seq<char>| parent_vt is Some && (#[trigger] parent_vt->0.method_env.lookup(k)) is Some
                implies vt.method_env.lookup(k) == parent_vt->0.method_env.lookup(k) by {
                assert(base_env.lookup(k) == parent_vt->0.method_env.lookup(k));
            }
            assert forall|k: Seq<char>| #[trigger] self.struct_declarations.lookup(k) is Some implies struct_decl_wf(self.struct_declarations.lookup(k)->0) by {
                if k != cls.item.ident@ {
                    assert(old(self).struct_declarations.lookup(k) is Some);
                }
            }
            assert forall|k: Seq<char>| #[trigger] self.struct_vtable_declarations.lookup(k) is Some implies vtable_decl_wf(self.struct_vtable_declarations.lookup(k)->0) by {
                if k != cls.item.ident@ {
                    assert(old(self).struct_vtable_declarations.lookup(k) is Some);
                }
            }
        }
        new_struct
    }
}

/// name of the LLVM function for a function of the program
pub open spec fn function_name(f: Seq<char>) -> Seq<char> {
    if f == "main"@ {
        f
    } else {
        "__func__"@ + f
    }
}

/// Label suffixes handed out by `new_label_suffix` one after another (with any number of others
/// between them) are different, so the labels made with them are too.
pub proof fn law_label_suffixes_are_fresh(g0: GlobalContext, g1: GlobalContext, s1: usize, s2: usize)
    requires
        s1 == g0.available_label_suffix,
        g1.available_label_suffix >= g0.available_label_suffix + 1,
        s2 == g1.available_label_suffix,
    ensures
        s1 != s2,
{
}

/// `get_struct_decl` gives back the structure that `declare_class` declared for the class, as
/// long as no other class of the same name was declared since.
pub proof fn law_declared_struct_is_read_back(g: GlobalContext, k: Seq<char>, declared: StructDeclV, read: StructDeclV)
    requires
        g.struct_declarations.lookup(k) is Some,
        g.struct_declarations.lookup(k)->0@ == declared,
        read == g.struct_declarations.lookup(k)->0@,
    ensures
        read == declared,
{
}

} // verus!
