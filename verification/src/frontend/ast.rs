//! Abstract syntax tree of Latte programs.
use vstd::prelude::*;

use crate::frontend::error::{FrontendError, FrontendErrorKind};
use crate::meta::Meta;
use crate::util::env::{Env, FromKeyedVec};
use crate::util::text::concat;

verus! {

broadcast use {vstd::std_specs::vec::axiom_vec_decreases_to_view, vstd::std_specs::vec::axiom_vec_index_decreases};

/// items that can be searched by key (in an environment)
pub trait Keyed {
    /// the key, as a sequence of characters
    spec fn spec_key(&self) -> Seq<char>;

    fn get_key(&self) -> (r: &String)
        ensures
            r@ == self.spec_key(),
    ;
}

/// alias for all metadata containers attached to ast items
pub type AstItem<ItemT, MetaT> = Meta<ItemT, MetaT>;

impl<ItemT: Keyed, MetaT> Keyed for Meta<ItemT, MetaT> {
    open spec fn spec_key(&self) -> Seq<char> {
        self.item.spec_key()
    }

    fn get_key(&self) -> (r: &String) {
        self.item.get_key()
    }
}

#[derive(Debug, PartialEq, Eq, Structural, Clone, Copy)]
pub enum BinaryOperator {
    Plus,
    Minus,
    Times,
    Divide,
    Modulo,
    Less,
    LessEqual,
    Greater,
    GreaterEqual,
    Equal,
    NotEqual,
    And,
    Or,
}

#[derive(Debug, PartialEq, Eq, Structural, Clone, Copy)]
pub enum UnaryOperator {
    Neg,
    Not,
}

/// types of the language (and a few auxiliary ones used by the compiler)
#[derive(Debug, PartialEq, Eq)]
pub enum Type {
    Int,
    Str,
    Bool,
    Void,
    Null,
    /// instance of a class
    Class { ident: String },
    /// array of items
    Array { item_t: Box<Type> },
    /// used for checking types during function call
    Function { args: Vec<Box<Type>>, ret: Box<Type> },
    /// error type for smooth propagation of errors during parsing
    Error,
    /// represents any type, used to report errors like: 'expected Array { Any } got Int'
    Any,
    /// represents any object (instance of any class), used to report member access errors
    Object,
    /// represents a reference to any other type
    Reference { t: Box<Type> },
    /// structure of the compiler's own (such as a class' table of methods)
    BuiltinClass { ident: String },
}

/// mathematical model of a type: identifiers as character sequences
pub enum TypeV {
    Int,
    Str,
    Bool,
    Void,
    Null,
    Class { ident: Seq<char> },
    Array { item_t: Box<TypeV> },
    Function { args: Seq<TypeV>, ret: Box<TypeV> },
    Error,
    Any,
    Object,
    Reference { t: Box<TypeV> },
    BuiltinClass { ident: Seq<char> },
}

pub open spec fn type_view(t: Type) -> TypeV
    decreases t,
{
    match t {
        Type::Int => TypeV::Int,
        Type::Str => TypeV::Str,
        Type::Bool => TypeV::Bool,
        Type::Void => TypeV::Void,
        Type::Null => TypeV::Null,
        Type::Class { ident } => TypeV::Class { ident: ident@ },
        Type::Array { item_t } => TypeV::Array { item_t: Box::new(type_view(*item_t)) },
        Type::Function { args, ret } => TypeV::Function {
            args: types_view(args@),
            ret: Box::new(type_view(*ret)),
        },
        Type::Error => TypeV::Error,
        Type::Any => TypeV::Any,
        Type::Object => TypeV::Object,
        Type::Reference { t } => TypeV::Reference { t: Box::new(type_view(*t)) },
        Type::BuiltinClass { ident } => TypeV::BuiltinClass { ident: ident@ },
    }
}

pub open spec fn types_view(args: Seq<Box<Type>>) -> Seq<TypeV>
    decreases args,
{
    if args.len() == 0 {
        Seq::empty()
    } else {
        types_view(args.drop_last()).push(type_view(*args.last()))
    }
}

/// the model of a sequence of types is the sequence of their models
pub proof fn lemma_types_view(s: Seq<Box<Type>>)
    ensures
        types_view(s).len() == s.len(),
        forall|i: int| 0 <= i < s.len() ==> #[trigger] types_view(s)[i] == type_view(*s[i]),
    decreases s.len(),
{
    if s.len() > 0 {
        lemma_types_view(s.drop_last());
        assert forall|i: int| 0 <= i < s.len() implies #[trigger] types_view(s)[i] == type_view(*s[i]) by {
            if i < s.len() - 1 {
                assert(s.drop_last()[i] == s[i]);
            }
        }
    }
}

impl View for Type {
    type V = TypeV;

    open spec fn view(&self) -> TypeV {
        type_view(*self)
    }
}

impl Default for Type {
    fn default() -> (r: Self)
        ensures
            r == Type::Void,
    {
        Type::Void
    }
}

impl Type {
    /// copy of the type
    pub fn copy(&self) -> (r: Type)
        ensures
            r@ == self@,
        decreases self, 0nat,
    {
        match self {
            Type::Int => Type::Int,
            Type::Str => Type::Str,
            Type::Bool => Type::Bool,
            Type::Void => Type::Void,
            Type::Null => Type::Null,
            Type::Class { ident } => Type::Class { ident: ident.clone() },
            Type::Array { item_t } => Type::Array { item_t: Box::new(item_t.copy()) },
            Type::Function { args, ret } => {
                let v = copy_types(args);
                Type::Function { args: v, ret: Box::new(ret.copy()) }
            },
            Type::Error => Type::Error,
            Type::Any => Type::Any,
            Type::Object => Type::Object,
            Type::Reference { t } => Type::Reference { t: Box::new(t.copy()) },
            Type::BuiltinClass { ident } => Type::BuiltinClass { ident: ident.clone() },
        }
    }

    /// compares two types
    pub fn equals(&self, other: &Type) -> (r: bool)
        ensures
            r == (self@ == other@),
        decreases self, 0nat,
    {
        match (self, other) {
            (Type::Int, Type::Int) => true,
            (Type::Str, Type::Str) => true,
            (Type::Bool, Type::Bool) => true,
            (Type::Void, Type::Void) => true,
            (Type::Null, Type::Null) => true,
            (Type::Class { ident: a }, Type::Class { ident: b }) => *a == *b,
            (Type::Array { item_t: a }, Type::Array { item_t: b }) => a.equals(b),
            (Type::Function { args: a, ret: ra }, Type::Function { args: b, ret: rb }) => {
                if types_equal(a, b) {
                    ra.equals(rb)
                } else {
                    false
                }
            },
            (Type::Error, Type::Error) => true,
            (Type::Any, Type::Any) => true,
            (Type::Object, Type::Object) => true,
            (Type::Reference { t: a }, Type::Reference { t: b }) => a.equals(b),
            (Type::BuiltinClass { ident: a }, Type::BuiltinClass { ident: b }) => *a == *b,
            _ => false,
        }
    }

    /// type of a reference to a value of this type
    pub fn reference(&self) -> (r: Type)
        ensures
            r@ == (TypeV::Reference { t: Box::new(self@) }),
    {
        Type::Reference { t: Box::new(self.copy()) }
    }
}

/// copy of a sequence of types
pub fn copy_types(args: &Vec<Box<Type>>) -> (r: Vec<Box<Type>>)
    ensures
        types_view(r@) == types_view(args@),
        r@.len() == args@.len(),
    decreases args, 1nat,
{
    let mut v: Vec<Box<Type>> = Vec::new();
    let mut i: usize = 0;
    while i < args.len()
        invariant
            i <= args.len(),
            v.len() == i,
            types_view(v@) == types_view(args@.subrange(0, i as int)),
        decreases args.len() - i,
    {
        proof {
            assert(decreases_to!(*args => args@[i as int]));
        }
        let c = args[i].copy();
        let ghost old_v = v@;
        v.push(Box::new(c));
        proof {
            assert(v@.drop_last() =~= old_v);
            assert(args@.subrange(0, i + 1).drop_last() =~= args@.subrange(0, i as int));
        }
        i += 1;
    }
    assert(args@.subrange(0, args.len() as int) =~= args@);
    v
}

/// compares two sequences of types
pub fn types_equal(a: &Vec<Box<Type>>, b: &Vec<Box<Type>>) -> (r: bool)
    ensures
        r == (types_view(a@) == types_view(b@)),
    decreases a, 1nat,
{
    proof {
        lemma_types_view(a@);
        lemma_types_view(b@);
    }
    if a.len() != b.len() {
        return false;
    }
    let mut i: usize = 0;
    while i < a.len()
        invariant
            i <= a.len(),
            a.len() == b.len(),
            types_view(a@).len() == a@.len(),
            types_view(b@).len() == b@.len(),
            forall|j: int| 0 <= j < a@.len() ==> #[trigger] types_view(a@)[j] == type_view(*a@[j]),
            forall|j: int| 0 <= j < b@.len() ==> #[trigger] types_view(b@)[j] == type_view(*b@[j]),
            forall|j: int| 0 <= j < i ==> types_view(a@)[j] == types_view(b@)[j],
        decreases a.len() - i,
    {
        proof {
            assert(decreases_to!(*a => a@[i as int]));
        }
        if !a[i].equals(&b[i]) {
            assert(types_view(a@)[i as int] != types_view(b@)[i as int]);
            return false;
        }
        i += 1;
    }
    assert(types_view(a@) =~= types_view(b@));
    true
}

#[allow(inconsistent_fields)]
#[derive(Debug, PartialEq)]
pub enum ExpressionKind<MetaT> {
    LitInt { val: i32 },
    LitBool { val: bool },
    LitStr { val: String },
    LitNull,
    App { r: Reference<MetaT>, args: Vec<Box<Expression<MetaT>>> },
    Unary { op: UnaryOperator, arg: Box<Expression<MetaT>> },
    Binary { left: Box<Expression<MetaT>>, op: BinaryOperator, right: Box<Expression<MetaT>> },
    InitDefault { t: Type },
    InitArr { t: Type, size: Box<Expression<MetaT>> },
    Reference { r: Reference<MetaT> },
    /// edge case: expr in Cast is always null so we don't need to locate it
    Cast { t: Type, expr: Box<Expression<MetaT>> },
    Error,
}

pub type Expression<MetaT> = AstItem<ExpressionKind<MetaT>, MetaT>;

#[derive(Debug, PartialEq)]
pub enum ReferenceKind<MetaT> {
    Ident { ident: String },
    Object { obj: String, field: String },
    ObjectSelf { field: String },
    Array { arr: String, idx: Box<Expression<MetaT>> },
    ArrayLen { ident: String },
    /// reference to a member of an object whose class is known (created by the type checker)
    TypedObject { obj: String, cls: String, field: String },
}

pub type Reference<MetaT> = AstItem<ReferenceKind<MetaT>, MetaT>;

#[derive(Debug, PartialEq)]
pub enum DeclItemKind<MetaT> {
    NoInit { ident: String },
    Init { ident: String, val: Box<Expression<MetaT>> },
}

pub type DeclItem<MetaT> = AstItem<DeclItemKind<MetaT>, MetaT>;

#[derive(Debug, PartialEq)]
pub struct BlockItem<MetaT> {
    pub stmts: Vec<Box<Statement<MetaT>>>,
}

pub type Block<MetaT> = AstItem<BlockItem<MetaT>, MetaT>;

#[allow(inconsistent_fields)]
#[derive(Debug, PartialEq)]
pub enum StatementKind<MetaT> {
    Block { block: Block<MetaT> },
    Empty,
    Decl { t: Type, items: Vec<DeclItem<MetaT>> },
    Ass { r: Reference<MetaT>, expr: Box<Expression<MetaT>> },
    Mut { r: Reference<MetaT>, op: StatementOp },
    Return { expr: Option<Box<Expression<MetaT>>> },
    Cond { expr: Box<Expression<MetaT>>, stmt: Box<Statement<MetaT>> },
    CondElse {
        expr: Box<Expression<MetaT>>,
        stmt_true: Box<Statement<MetaT>>,
        stmt_false: Box<Statement<MetaT>>,
    },
    While { expr: Box<Expression<MetaT>>, stmt: Box<Statement<MetaT>> },
    For { t: Type, ident: String, arr: Box<Expression<MetaT>>, stmt: Box<Statement<MetaT>> },
    Expr { expr: Box<Expression<MetaT>> },
    Error,
}

pub type Statement<MetaT> = AstItem<StatementKind<MetaT>, MetaT>;

#[derive(Debug, PartialEq, Eq, Structural, Clone, Copy)]
pub enum StatementOp {
    Increment,
    Decrement,
}

#[derive(Debug, PartialEq)]
pub struct ArgItem {
    pub t: Type,
    pub ident: String,
}

pub type Arg<MetaT> = AstItem<ArgItem, MetaT>;

impl Keyed for ArgItem {
    open spec fn spec_key(&self) -> Seq<char> {
        self.ident@
    }

    fn get_key(&self) -> (r: &String) {
        &self.ident
    }
}

#[derive(Debug, PartialEq)]
pub struct FunctionItem<MetaT> {
    pub ret: Type,
    pub ident: String,
    pub args: Vec<Arg<MetaT>>,
    pub block: Block<MetaT>,
}

pub type Function<MetaT> = AstItem<FunctionItem<MetaT>, MetaT>;

impl<MetaT> Keyed for FunctionItem<MetaT> {
    open spec fn spec_key(&self) -> Seq<char> {
        self.ident@
    }

    fn get_key(&self) -> (r: &String) {
        &self.ident
    }
}

#[derive(Debug, PartialEq)]
pub struct ClassVarItem {
    pub t: Type,
    pub ident: String,
}

pub type ClassVar<MetaT> = AstItem<ClassVarItem, MetaT>;

impl Keyed for ClassVarItem {
    open spec fn spec_key(&self) -> Seq<char> {
        self.ident@
    }

    fn get_key(&self) -> (r: &String) {
        &self.ident
    }
}

pub struct ClassItem<MetaT> {
    pub ident: String,
    pub vars: Env<ClassVar<MetaT>>,
    pub methods: Env<Function<MetaT>>,
    pub parent: Option<String>,
}

pub type Class<MetaT> = AstItem<ClassItem<MetaT>, MetaT>;

impl<MetaT> Keyed for ClassItem<MetaT> {
    open spec fn spec_key(&self) -> Seq<char> {
        self.ident@
    }

    fn get_key(&self) -> (r: &String) {
        &self.ident
    }
}

pub enum TopDefKind<MetaT> {
    Function { func: Function<MetaT> },
    Class { cls: Class<MetaT> },
    Error,
}

pub type TopDef<MetaT> = AstItem<TopDefKind<MetaT>, MetaT>;

/// the result of parsing and all subsequent operations (ast root)
pub struct Program<MetaT> {
    pub classes: Env<Class<MetaT>>,
    pub functions: Env<Function<MetaT>>,
}


/// the arguments have pairwise different names
pub open spec fn args_unique<MetaT>(args: Seq<Arg<MetaT>>) -> bool {
    forall|i: int, j: int| 0 <= i < j < args.len() ==> args[i].item.ident@ != args[j].item.ident@
}

/// types of the arguments
pub open spec fn arg_types<MetaT>(args: Seq<Arg<MetaT>>) -> Seq<TypeV> {
    Seq::new(args.len(), |i: int| args[i].item.t@)
}

impl<MetaT> FunctionItem<MetaT> {
    /// a function, provided its arguments have different names (each repeated name is
    /// reported at the argument that repeats it)
    pub fn new(ret: Type, ident: String, args: Vec<Arg<MetaT>>, block: Block<MetaT>) -> (r: Result<Self, Vec<FrontendError<MetaT>>>)
        ensures
            r is Ok <==> args_unique(args@),
            r matches Ok(f) ==> f.ret == ret && f.ident == ident && f.args == args && f.block == block,
            r matches Err(errors) ==> errors@.len() >= 1,
            r matches Err(errors) ==> forall|j: int| 0 <= j < errors@.len() ==> crate::util::env::reports_duplicate(#[trigger] errors@[j], args@),
            r matches Err(errors) ==> crate::util::env::each_repeat_reported(errors@, args@),
    {
        // find the arguments whose name is used by an earlier one
        let mut duplicate: Vec<bool> = Vec::new();
        let mut any = false;
        let mut j: usize = 0;
        while j < args.len()
            invariant
                j <= args@.len(),
                duplicate@.len() == j,
                any == exists|b: int, a: int| 0 <= a < b < j && args@[a].item.ident@ == args@[b].item.ident@,
                forall|b: int| 0 <= b < j ==> (#[trigger] duplicate@[b]) == exists|a: int| 0 <= a < b && args@[a].item.ident@ == args@[b].item.ident@,
            decreases args.len() - j,
        {
            let mut found = false;
            let mut i: usize = 0;
            while i < j
                invariant
                    i <= j < args@.len(),
                    found == exists|a: int| 0 <= a < i && args@[a].item.ident@ == args@[j as int].item.ident@,
                decreases j - i,
            {
                if args[i].item.ident == args[j].item.ident {
                    found = true;
                }
                i += 1;
            }
            duplicate.push(found);
            any = any || found;
            j += 1;
        }
        if !any {
            return Ok(FunctionItem { ret, ident, args, block });
        }
        // report every repeated name at its argument
        let mut errors: Vec<FrontendError<MetaT>> = Vec::new();
        proof {
            let (b, a) = choose|b: int, a: int| 0 <= a < b < args@.len() && args@[a].item.ident@ == args@[b].item.ident@;
            assert(duplicate@[b]);
        }
        let mut rest = args;
        let mut k: usize = 0;
        let ghost all = rest@;
        let total = rest.len();
        while rest.len() > 0
            invariant
                all.len() == total,
                duplicate@.len() == all.len(),
                rest@.len() + k == all.len(),
                forall|i: int| 0 <= i < rest@.len() ==> rest@[i] == all[k + i],
                (exists|b: int| 0 <= b < all.len() && #[trigger] duplicate@[b]) && (errors@.len() == 0 ==> forall|b: int| 0 <= b < k ==> !duplicate@[b]),
                forall|j: int| 0 <= j < errors@.len() ==> crate::util::env::reports_duplicate(#[trigger] errors@[j], all),
                forall|b: int| 0 <= b < all.len() ==> (#[trigger] duplicate@[b]) == exists|a: int| 0 <= a < b && all[a].item.ident@ == all[b].item.ident@,
                errors@.len() == crate::util::env::repeats(all.subrange(0, k as int)).len(),
                forall|m: int| 0 <= m < errors@.len() ==> crate::util::env::duplicate_at(#[trigger] errors@[m], all,
                    crate::util::env::repeats(all.subrange(0, k as int))[m]),
            decreases rest.len(),
        {
            let arg = rest.remove(0);
            let ghost errors_before = errors@;
            proof {
                let p0 = all.subrange(0, k as int);
                let p1 = all.subrange(0, k + 1);
                assert(p1.drop_last() =~= p0);
                assert forall|i: int| 0 <= i <= k implies #[trigger] p1[i] == all[i] by {}
                let repeated = exists|j: int| 0 <= j < k && #[trigger] p1[j].spec_key() == p1[k as int].spec_key();
                assert(crate::util::env::repeats(p1) == if repeated { crate::util::env::repeats(p0).push(k as int) } else { crate::util::env::repeats(p0) });
                if repeated {
                    let j = choose|j: int| 0 <= j < k && #[trigger] p1[j].spec_key() == p1[k as int].spec_key();
                    assert(all[j].item.ident@ == all[k as int].item.ident@);
                }
                if duplicate@[k as int] {
                    let a = choose|a: int| 0 <= a < k && all[a].item.ident@ == all[k as int].item.ident@;
                    assert(p1[a].spec_key() == p1[k as int].spec_key());
                }
            }
            if duplicate[k] {
                let ghost errors0 = errors@;
                let message = concat("Duplicate declaration of ", arg.item.ident.as_str());
                errors.push(Meta::new(FrontendErrorKind::EnvError { message }, arg.meta));
                proof {
                    assert(arg == all[k as int]);
                    assert(all[k as int].spec_key() == arg.item.ident@);
                    assert(errors@[errors0.len() as int].meta == all[k as int].meta);
                    assert(crate::util::env::reports_duplicate(errors@[errors0.len() as int], all));
                    assert forall|j: int| 0 <= j < errors@.len() implies crate::util::env::reports_duplicate(#[trigger] errors@[j], all) by {
                        if j < errors0.len() {
                            assert(errors@[j] == errors0[j]);
                        }
                    }
                    assert(crate::util::env::duplicate_at(errors@[errors0.len() as int], all, k as int));
                    assert forall|m: int| 0 <= m < errors@.len() implies crate::util::env::duplicate_at(#[trigger] errors@[m], all,
                        crate::util::env::repeats(all.subrange(0, k + 1))[m]) by {
                        if m < errors0.len() {
                            assert(errors@[m] == errors0[m]);
                        }
                    }
                }
            }
            k += 1;
        }
        proof {
            assert(all.subrange(0, k as int) =~= all);
        }
        Err(errors)
    }

    /// type of the function: the types of its arguments and its return type
    pub fn get_type(&self) -> (r: Type)
        ensures
            r@ == (TypeV::Function { args: arg_types(self.args@), ret: Box::new(self.ret@) }),
    {
        let mut arg_types_vec: Vec<Box<Type>> = Vec::new();
        let mut i: usize = 0;
        while i < self.args.len()
            invariant
                i <= self.args@.len(),
                arg_types_vec@.len() == i,
                forall|j: int| 0 <= j < i ==> (*#[trigger] arg_types_vec@[j])@ == self.args@[j].item.t@,
            decreases self.args.len() - i,
        {
            arg_types_vec.push(Box::new(self.args[i].item.t.copy()));
            i += 1;
        }
        proof {
            lemma_types_view(arg_types_vec@);
            assert(types_view(arg_types_vec@) =~= arg_types(self.args@));
        }
        Type::Function { args: arg_types_vec, ret: Box::new(self.ret.copy()) }
    }
}

impl<MetaT> ClassItem<MetaT> {
    /// a class without parent, provided its members have unique names
    pub fn new(ident: String, var_vec: &mut Vec<ClassVar<MetaT>>, method_vec: &mut Vec<Function<MetaT>>)
        -> (r: Result<Self, Vec<FrontendError<MetaT>>>)
        ensures
            r is Ok <==> crate::util::env::keyed_unique(old(var_vec)@) && crate::util::env::keyed_unique(old(method_vec)@),
            r matches Ok(c) ==> c.ident == ident && c.parent is None
                && c.vars.built_from(old(var_vec)@) && c.methods.built_from(old(method_vec)@),
            r matches Err(errors) ==> errors@.len() >= 1,
            r matches Err(errors) ==> forall|j: int| 0 <= j < errors@.len() ==> crate::util::env::reports_duplicate(#[trigger] errors@[j], old(var_vec)@)
                || crate::util::env::reports_duplicate(errors@[j], old(method_vec)@),
            !crate::util::env::keyed_unique(old(var_vec)@) ==> (r matches Err(errors)
                && crate::util::env::each_repeat_reported(errors@, old(var_vec)@)),
            crate::util::env::keyed_unique(old(var_vec)@) && !crate::util::env::keyed_unique(old(method_vec)@) ==> (r matches Err(errors)
                && crate::util::env::each_repeat_reported(errors@, old(method_vec)@)),
    {
        let vars = Env::from_vec(var_vec)?;
        let methods = Env::from_vec(method_vec)?;
        Ok(ClassItem { ident, vars, methods, parent: None })
    }

    /// the same class, with the given parent
    pub fn with_parent(self, parent: &String) -> (r: Self)
        ensures
            r.ident == self.ident,
            r.vars == self.vars,
            r.methods == self.methods,
            r.parent == Some(*parent),
    {
        ClassItem { parent: Some(parent.clone()), ..self }
    }
}

impl<MetaT> Program<MetaT> {
    /// a program, provided its classes and its functions have unique names
    pub fn new(classes: &mut Vec<Class<MetaT>>, functions: &mut Vec<Function<MetaT>>) -> (r: Result<Self, Vec<FrontendError<MetaT>>>)
        ensures
            r is Ok <==> crate::util::env::keyed_unique(old(classes)@) && crate::util::env::keyed_unique(old(functions)@),
            r matches Ok(p) ==> p.classes.built_from(old(classes)@) && p.functions.built_from(old(functions)@),
            r matches Err(errors) ==> errors@.len() >= 1,
            r matches Err(errors) ==> forall|j: int| 0 <= j < errors@.len() ==> crate::util::env::reports_duplicate(#[trigger] errors@[j], old(classes)@)
                || crate::util::env::reports_duplicate(errors@[j], old(functions)@),
            !crate::util::env::keyed_unique(old(classes)@) ==> (r matches Err(errors)
                && crate::util::env::each_repeat_reported(errors@, old(classes)@)),
            crate::util::env::keyed_unique(old(classes)@) && !crate::util::env::keyed_unique(old(functions)@) ==> (r matches Err(errors)
                && crate::util::env::each_repeat_reported(errors@, old(functions)@)),
    {
        let classes = Env::from_vec(classes)?;
        let functions = Env::from_vec(functions)?;
        Ok(Program { classes, functions })
    }
}

} // verus!
