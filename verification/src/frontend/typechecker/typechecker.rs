//! State of the type checker: the environments of functions, classes and local variables.
use vstd::prelude::*;

use crate::frontend::ast::{Type, TypeV};
use crate::frontend::error::{FrontendError, FrontendErrorKind};
use crate::meta::{LocationMeta, Meta};
use crate::util::env::Env;
use crate::util::text::concat;

verus! {

/// what the type checker knows of a class
pub struct ClassInfo {
    /// types of the instance variables declared by the class itself
    pub vars: Env<Type>,
    /// types of the methods declared by the class itself
    pub methods: Env<Type>,
    /// the class it extends, if any
    pub parent: Option<String>,
}

/// option of a type, by its model
pub open spec fn opt_type_view(t: Option<Type>) -> Option<TypeV> {
    match t {
        Some(t) => Some(t@),
        None => None,
    }
}

/// `sup` is `sub` or one of its ancestors (following at most `fuel` parents)
pub open spec fn is_ancestor(classes: Env<ClassInfo>, sub: Seq<char>, sup: Seq<char>, fuel: nat) -> bool
    decreases fuel,
{
    if sub == sup {
        true
    } else if fuel == 0 {
        false
    } else {
        match classes.lookup(sub) {
            Some(c) => match c.parent {
                Some(p) => is_ancestor(classes, p@, sup, (fuel - 1) as nat),
                None => false,
            },
            None => false,
        }
    }
}

/// type of member `field` of class `cls` (its instance variables if `vars`, its methods
/// otherwise), declared by the class or by its closest ancestor that declares it
pub open spec fn find_member(classes: Env<ClassInfo>, cls: Seq<char>, field: Seq<char>, vars: bool, fuel: nat) -> Option<TypeV>
    decreases fuel,
{
    match classes.lookup(cls) {
        None => None,
        Some(c) => {
            let own = if vars { c.vars.lookup(field) } else { c.methods.lookup(field) };
            match own {
                Some(t) => Some(t@),
                None => if fuel == 0 {
                    None
                } else {
                    match c.parent {
                        Some(p) => find_member(classes, p@, field, vars, (fuel - 1) as nat),
                        None => None,
                    }
                },
            }
        },
    }
}

/// type of the local variable `k`: the innermost scope that binds it decides
pub open spec fn local_type(envs: Seq<Env<Type>>, k: Seq<char>) -> Option<TypeV>
    decreases envs.len(),
{
    if envs.len() == 0 {
        None
    } else {
        match envs.last().lookup(k) {
            Some(t) => Some(t@),
            None => local_type(envs.drop_last(), k),
        }
    }
}

/// a value of type `actual` can be assigned to a variable of type `expected`: the types are
/// equal, or `null` is assigned to a reference, or an object to a variable of an ancestor class
pub open spec fn assignable(classes: Env<ClassInfo>, expected: TypeV, actual: TypeV) -> bool {
    ||| expected == actual
    ||| actual is Null && (expected is Class || expected is Array || expected is Str)
    ||| (expected matches TypeV::Class { ident: sup } && actual matches TypeV::Class { ident: sub }
        && is_ancestor(classes, sub, sup, classes.entries@.len() as nat))
}

/// the type checker
pub struct TypeChecker {
    /// types of the functions (built-in ones and those of the program)
    pub functions: Env<Type>,
    /// the classes of the program
    pub classes: Env<ClassInfo>,
    /// scopes of local variables, the innermost last
    pub local_envs: Vec<Env<Type>>,
    /// the class whose method is checked, if any
    pub current_class: Option<String>,
}

impl TypeChecker {
    /// the environments have unique keys and there is a scope for local variables
    pub open spec fn wf(&self) -> bool {
        &&& self.functions.wf()
        &&& self.classes.wf()
        &&& self.local_envs@.len() >= 1
        &&& forall|i: int| 0 <= i < self.local_envs@.len() ==> (#[trigger] self.local_envs@[i]).wf()
    }

    /// number of parents that can be followed when looking for an ancestor
    pub open spec fn fuel(&self) -> nat {
        self.classes.entries@.len() as nat
    }

    /// type of the variable `k` visible in the current context: a local variable, or else an
    /// instance variable of the current class
    pub open spec fn variable_type(&self, k: Seq<char>) -> Option<TypeV> {
        match local_type(self.local_envs@, k) {
            Some(t) => Some(t),
            None => match self.current_class {
                Some(c) => find_member(self.classes, c@, k, true, self.fuel()),
                None => None,
            },
        }
    }

    /// the variable `k` is an instance variable of the current class (not hidden by a local one)
    pub open spec fn is_class_var(&self, k: Seq<char>) -> bool {
        &&& local_type(self.local_envs@, k) is None
        &&& self.current_class matches Some(c) && find_member(self.classes, c@, k, true, self.fuel()) is Some
    }

    /// an empty type checker (one empty scope of local variables)
    pub fn empty(functions: Env<Type>, classes: Env<ClassInfo>) -> (r: Self)
        requires
            functions.wf(),
            classes.wf(),
        ensures
            r.wf(),
            r.functions == functions,
            r.classes == classes,
            r.current_class is None,
            forall|k: Seq<char>| local_type(r.local_envs@, k) is None,
    {
        let mut local_envs: Vec<Env<Type>> = Vec::new();
        let e = Env::new();
        local_envs.push(e);
        let r = TypeChecker { functions, classes, local_envs, current_class: None };
        proof {
            assert forall|k: Seq<char>| local_type(r.local_envs@, k) is None by {
                assert(r.local_envs@.drop_last().len() == 0);
                assert(r.local_envs@.last() == e);
                assert(e.lookup(k) is None);
                assert(local_type(r.local_envs@.drop_last(), k) is None);
            }
        }
        r
    }

    /// type of the local variable `ident`, if it is declared
    pub fn lookup_local(&self, ident: &String) -> (r: Option<Type>)
        ensures
            opt_type_view(r) == local_type(self.local_envs@, ident@),
    {
        let mut i = self.local_envs.len();
        assert(self.local_envs@.subrange(0, i as int) =~= self.local_envs@);
        while i > 0
            invariant
                i <= self.local_envs@.len(),
                local_type(self.local_envs@, ident@) == local_type(self.local_envs@.subrange(0, i as int), ident@),
            decreases i,
        {
            let ghost sub = self.local_envs@.subrange(0, i as int);
            assert(sub.last() == self.local_envs@[i - 1]);
            assert(sub.drop_last() =~= self.local_envs@.subrange(0, i - 1));
            match self.local_envs[i - 1].get(ident) {
                Some(t) => {
                    return Some(t.copy());
                },
                None => {},
            }
            i = i - 1;
        }
        None
    }

    /// type of member `field` of class `cls` (an instance variable if `vars`, a method otherwise)
    pub fn lookup_member(&self, cls: &String, field: &String, vars: bool) -> (r: Option<Type>)
        ensures
            opt_type_view(r) == find_member(self.classes, cls@, field@, vars, self.fuel()),
    {
        let mut cur = cls.clone();
        let mut fuel = self.classes.entries.len();
        loop
            invariant
                find_member(self.classes, cls@, field@, vars, self.fuel()) == find_member(self.classes, cur@, field@, vars, fuel as nat),
            decreases fuel,
        {
            match self.classes.get(&cur) {
                None => {
                    return None;
                },
                Some(c) => {
                    let own = if vars { c.vars.get(field) } else { c.methods.get(field) };
                    match own {
                        Some(t) => {
                            return Some(t.copy());
                        },
                        None => {
                            if fuel == 0 {
                                return None;
                            }
                            match &c.parent {
                                Some(p) => {
                                    cur = p.clone();
                                    fuel = fuel - 1;
                                },
                                None => {
                                    return None;
                                },
                            }
                        },
                    }
                },
            }
        }
    }

    /// `sup` is `sub` or one of its ancestors
    pub fn ancestor(&self, sub: &String, sup: &String) -> (r: bool)
        ensures
            r == is_ancestor(self.classes, sub@, sup@, self.fuel()),
    {
        let mut cur = sub.clone();
        let mut fuel = self.classes.entries.len();
        loop
            invariant
                is_ancestor(self.classes, sub@, sup@, self.fuel()) == is_ancestor(self.classes, cur@, sup@, fuel as nat),
            decreases fuel,
        {
            if cur == *sup {
                return true;
            }
            if fuel == 0 {
                return false;
            }
            match self.classes.get(&cur) {
                Some(c) => match &c.parent {
                    Some(p) => {
                        cur = p.clone();
                        fuel = fuel - 1;
                    },
                    None => {
                        return false;
                    },
                },
                None => {
                    return false;
                },
            }
        }
    }

    /// type of the variable `ident` visible in the current context
    pub fn get_variable(&self, ident: &String, loc: LocationMeta) -> (r: Result<Type, Vec<FrontendError<LocationMeta>>>)
        ensures
            match r {
                Ok(t) => self.variable_type(ident@) == Some(t@),
                Err(e) => self.variable_type(ident@) is None && e@.len() == 1 && e@[0].meta == loc
                    && (e@[0].item matches FrontendErrorKind::EnvError { message } && message@ == "Undefined variable: "@ + ident@),
            },
    {
        match self.lookup_local(ident) {
            Some(t) => Ok(t),
            None => {
                let found = match &self.current_class {
                    Some(c) => self.lookup_member(c, ident, true),
                    None => None,
                };
                match found {
                    Some(t) => Ok(t),
                    None => {
                        let message = concat("Undefined variable: ", ident.as_str());
                        Err(vec![Meta::new(FrontendErrorKind::EnvError { message }, loc)])
                    },
                }
            },
        }
    }

    /// the variable `ident` is an instance variable of the current class
    pub fn is_class_variable(&self, ident: &String) -> (r: bool)
        ensures
            r == self.is_class_var(ident@),
    {
        if self.lookup_local(ident).is_some() {
            return false;
        }
        match &self.current_class {
            Some(c) => self.lookup_member(c, ident, true).is_some(),
            None => false,
        }
    }

    /// type of the function `ident`
    pub fn get_func(&self, ident: &String, loc: LocationMeta) -> (r: Result<Type, Vec<FrontendError<LocationMeta>>>)
        ensures
            match r {
                Ok(t) => self.functions.lookup(ident@) matches Some(f) && f@ == t@,
                Err(e) => self.functions.lookup(ident@) is None && e@.len() == 1 && e@[0].meta == loc
                    && (e@[0].item matches FrontendErrorKind::EnvError { message } && message@ == "Undefined function: "@ + ident@),
            },
    {
        match self.functions.get(ident) {
            Some(t) => Ok(t.copy()),
            None => {
                let message = concat("Undefined function: ", ident.as_str());
                Err(vec![Meta::new(FrontendErrorKind::EnvError { message }, loc)])
            },
        }
    }

    /// name of the class that `t` is the type of the instances of
    pub fn get_class(&self, t: &Type, loc: LocationMeta) -> (r: Result<String, Vec<FrontendError<LocationMeta>>>)
        ensures
            match r {
                Ok(c) => t@ == (TypeV::Class { ident: c@ }) && self.classes.lookup(c@) is Some,
                Err(e) => !(t@ matches TypeV::Class { ident } && self.classes.lookup(ident) is Some)
                    && e@.len() == 1 && e@[0].meta == loc
                    && (e@[0].item matches FrontendErrorKind::TypeError { expected, actual } && expected@ == TypeV::Object && actual@ == t@),
            },
    {
        match t {
            Type::Class { ident } => {
                if self.classes.contains_key(ident) {
                    return Ok(ident.clone());
                }
            },
            _ => {},
        }
        Err(vec![Meta::new(FrontendErrorKind::TypeError { expected: Type::Object, actual: t.copy() }, loc)])
    }

    /// type of instance variable `field` of class `cls` (or of its ancestors)
    pub fn get_instance_variable(&self, cls: &String, field: &String, loc: LocationMeta) -> (r: Result<Type, Vec<FrontendError<LocationMeta>>>)
        ensures
            match r {
                Ok(t) => find_member(self.classes, cls@, field@, true, self.fuel()) == Some(t@),
                Err(e) => find_member(self.classes, cls@, field@, true, self.fuel()) is None && e@.len() == 1 && e@[0].meta == loc
                    && (e@[0].item matches FrontendErrorKind::EnvError { message } && message@ == "Undefined instance variable: "@ + field@),
            },
    {
        match self.lookup_member(cls, field, true) {
            Some(t) => Ok(t),
            None => {
                let message = concat("Undefined instance variable: ", field.as_str());
                Err(vec![Meta::new(FrontendErrorKind::EnvError { message }, loc)])
            },
        }
    }

    /// type of method `field` of class `cls` (or of its ancestors)
    pub fn get_method(&self, cls: &String, field: &String, loc: LocationMeta) -> (r: Result<Type, Vec<FrontendError<LocationMeta>>>)
        ensures
            match r {
                Ok(t) => find_member(self.classes, cls@, field@, false, self.fuel()) == Some(t@),
                Err(e) => find_member(self.classes, cls@, field@, false, self.fuel()) is None && e@.len() == 1 && e@[0].meta == loc
                    && (e@[0].item matches FrontendErrorKind::EnvError { message } && message@ == "Undefined method: "@ + field@),
            },
    {
        match self.lookup_member(cls, field, false) {
            Some(t) => Ok(t),
            None => {
                let message = concat("Undefined method: ", field.as_str());
                Err(vec![Meta::new(FrontendErrorKind::EnvError { message }, loc)])
            },
        }
    }

    /// checks that a value of type `actual` can be assigned to a variable of type `expected`
    pub fn check_assignment(&self, expected: &Type, actual: &Type) -> (r: Result<(), FrontendErrorKind>)
        ensures
            r is Ok <==> assignable(self.classes, expected@, actual@),
            r matches Err(k) ==> (k matches FrontendErrorKind::TypeError { expected: e, actual: a } && e@ == expected@ && a@ == actual@),
    {
        if expected.equals(actual) {
            return Ok(());
        }
        let null_to_reference = match actual {
            Type::Null => match expected {
                Type::Class { .. } | Type::Array { .. } | Type::Str => true,
                _ => false,
            },
            _ => false,
        };
        if null_to_reference {
            return Ok(());
        }
        match (expected, actual) {
            (Type::Class { ident: sup }, Type::Class { ident: sub }) => {
                if self.ancestor(sub, sup) {
                    return Ok(());
                }
            },
            _ => {},
        }
        Err(FrontendErrorKind::TypeError { expected: expected.copy(), actual: actual.copy() })
    }

    /// the closest common type of two types: their type if they are equal, and for two
    /// classes the closest ancestor of the first that is an ancestor of the second
    pub fn get_types_lca(&self, a: &Type, b: &Type) -> (r: Option<Type>)
        ensures
            a@ == b@ ==> opt_type_view(r) == Some(a@),
            r matches Some(t) ==> a@ == b@ && t@ == a@ || (t@ matches TypeV::Class { ident: c }
                && a@ matches TypeV::Class { ident: x } && b@ matches TypeV::Class { ident: y }
                && is_ancestor(self.classes, x, c, self.fuel()) && is_ancestor(self.classes, y, c, self.fuel())),
            !(a@ == b@) && !(a@ is Class && b@ is Class) ==> r is None,
    {
        if a.equals(b) {
            return Some(a.copy());
        }
        match (a, b) {
            (Type::Class { ident: x }, Type::Class { ident: y }) => {
                let mut cur = x.clone();
                let total = self.classes.entries.len();
                let mut fuel = total;
                loop
                    invariant
                        fuel <= total,
                        total == self.fuel(),
                        is_ancestor(self.classes, x@, cur@, (total - fuel) as nat),
                        a@ == (TypeV::Class { ident: x@ }),
                        b@ == (TypeV::Class { ident: y@ }),
                        !(a@ == b@),
                    decreases fuel,
                {
                    if self.ancestor(y, &cur) {
                        proof {
                            lemma_ancestor_mono(self.classes, x@, cur@, (total - fuel) as nat, self.fuel());
                        }
                        return Some(Type::Class { ident: cur });
                    }
                    if fuel == 0 {
                        return None;
                    }
                    match self.classes.get(&cur) {
                        Some(c) => match &c.parent {
                            Some(p) => {
                                proof {
                                    lemma_ancestor_extend(self.classes, x@, cur@, p@, (total - fuel) as nat);
                                }
                                cur = p.clone();
                                fuel = fuel - 1;
                            },
                            None => {
                                return None;
                            },
                        },
                        None => {
                            return None;
                        },
                    }
                }
            },
            _ => None,
        }
    }

    /// enter a nested scope of local variables, with the given variables declared in it
    pub fn push_scope(&mut self, env: Env<Type>)
        requires
            old(self).wf(),
            env.wf(),
        ensures
            final(self).wf(),
            final(self).local_envs@ == old(self).local_envs@.push(env),
            final(self).functions == old(self).functions,
            final(self).classes == old(self).classes,
            final(self).current_class == old(self).current_class,
    {
        self.local_envs.push(env);
    }

    /// leave the innermost scope of local variables
    pub fn pop_scope(&mut self)
        requires
            old(self).wf(),
            old(self).local_envs@.len() >= 2,
        ensures
            final(self).wf(),
            final(self).local_envs@ == old(self).local_envs@.drop_last(),
            final(self).functions == old(self).functions,
            final(self).classes == old(self).classes,
            final(self).current_class == old(self).current_class,
    {
        self.local_envs.pop();
    }

    /// declare a local variable in the innermost scope
    pub fn declare_local(&mut self, ident: String, t: Type)
        requires
            old(self).wf(),
        ensures
            final(self).wf(),
            final(self).local_envs@.len() == old(self).local_envs@.len(),
            final(self).local_envs@.drop_last() == old(self).local_envs@.drop_last(),
            final(self).local_envs@.last().lookup(ident@) == Some(t),
            forall|q: Seq<char>| q != ident@ ==> #[trigger] final(self).local_envs@.last().lookup(q) == old(self).local_envs@.last().lookup(q),
            final(self).functions == old(self).functions,
            final(self).classes == old(self).classes,
            final(self).current_class == old(self).current_class,
    {
        let n = self.local_envs.len();
        let mut env = self.local_envs.pop().unwrap();
        env.insert(ident, t);
        self.local_envs.push(env);
        proof {
            assert(self.local_envs@.drop_last() =~= old(self).local_envs@.drop_last());
        }
    }

    /// the variable is declared in the innermost scope
    pub fn declared_here(&self, ident: &String) -> (r: bool)
        requires
            self.wf(),
        ensures
            r == (self.local_envs@.last().lookup(ident@) is Some),
    {
        self.local_envs[self.local_envs.len() - 1].contains_key(ident)
    }
}

/// the parent of an ancestor is an ancestor (one more parent is followed)
pub proof fn lemma_ancestor_extend(classes: Env<ClassInfo>, sub: Seq<char>, mid: Seq<char>, p: Seq<char>, n: nat)
    requires
        is_ancestor(classes, sub, mid, n),
        classes.lookup(mid) matches Some(c) && c.parent matches Some(q) && q@ == p,
    ensures
        is_ancestor(classes, sub, p, n + 1),
    decreases n,
{
    if sub == p {
    } else if sub == mid {
        assert(is_ancestor(classes, p, p, n));
    } else {
        let c = classes.lookup(sub)->0;
        let q = c.parent->0;
        lemma_ancestor_extend(classes, q@, mid, p, (n - 1) as nat);
        assert(is_ancestor(classes, q@, p, n));
    }
}

/// following more parents finds the same ancestors (and maybe more)
pub proof fn lemma_ancestor_mono(classes: Env<ClassInfo>, sub: Seq<char>, sup: Seq<char>, n: nat, m: nat)
    requires
        n <= m,
        is_ancestor(classes, sub, sup, n),
    ensures
        is_ancestor(classes, sub, sup, m),
    decreases n,
{
    if sub != sup {
        let c = classes.lookup(sub)->0;
        let q = c.parent->0;
        lemma_ancestor_mono(classes, q@, sup, (n - 1) as nat, (m - 1) as nat);
    }
}

} // verus!
