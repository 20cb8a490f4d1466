//! Context of the block being compiled: variables visible at each depth.
use vstd::prelude::*;

use crate::backend::builder::{EntityMap, IncrementMapper, MapEntities, spec_map_entity};
use crate::backend::ir::{Entity, EntityV};
use crate::util::env::{Env, find_in, lemma_find_in_push, lemma_find_in_some};

verus! {

/// binding of `k` seen from the innermost environment of `stack`
pub open spec fn scope_find(stack: Seq<Env<Entity>>, k: Seq<char>) -> Option<Entity>
    decreases stack.len(),
{
    if stack.len() == 0 {
        None
    } else {
        match stack.last().lookup(k) {
            Some(e) => Some(e),
            None => scope_find(stack.drop_last(), k),
        }
    }
}

/// depth of the innermost environment of `stack` that binds `k` (-1 if there is none)
pub open spec fn binding_depth(stack: Seq<Env<Entity>>, k: Seq<char>) -> int
    decreases stack.len(),
{
    if stack.len() == 0 {
        -1
    } else if stack.last().lookup(k) is Some {
        stack.len() - 1
    } else {
        binding_depth(stack.drop_last(), k)
    }
}

pub proof fn lemma_binding_depth(stack: Seq<Env<Entity>>, k: Seq<char>)
    ensures
        -1 <= binding_depth(stack, k) < stack.len(),
        binding_depth(stack, k) >= 0 ==> stack[binding_depth(stack, k)].lookup(k) is Some
            && scope_find(stack, k) == stack[binding_depth(stack, k)].lookup(k),
        binding_depth(stack, k) == -1 <==> scope_find(stack, k) is None,
        forall|j: int| binding_depth(stack, k) < j < stack.len() ==> (#[trigger] stack[j]).lookup(k) is None,
    decreases stack.len(),
{
    if stack.len() > 0 {
        lemma_binding_depth(stack.drop_last(), k);
        assert forall|j: int| binding_depth(stack, k) < j < stack.len() implies (#[trigger] stack[j]).lookup(k) is None by {
            if j < stack.len() - 1 {
                assert(stack.drop_last()[j] == stack[j]);
            }
        }
        if binding_depth(stack, k) >= 0 && binding_depth(stack, k) < stack.len() - 1 {
            assert(stack.drop_last()[binding_depth(stack, k)] == stack[binding_depth(stack, k)]);
        }
    }
}

/// lookups are decided level by level
pub proof fn lemma_scope_find_levels(a: Seq<Env<Entity>>, b: Seq<Env<Entity>>, k: Seq<char>)
    requires
        a.len() == b.len(),
        forall|j: int| 0 <= j < a.len() ==> (#[trigger] a[j]).lookup(k) == b[j].lookup(k),
    ensures
        scope_find(a, k) == scope_find(b, k),
    decreases a.len(),
{
    if a.len() > 0 {
        assert(a.last().lookup(k) == b.last().lookup(k));
        lemma_scope_find_levels(a.drop_last(), b.drop_last(), k);
    }
}

#[derive(Debug)]
pub struct BlockContext {
    /// current depth
    pub current_depth: usize,
    /// local variable environment stack
    pub env_stack: Vec<Env<Entity>>,
}

impl BlockContext {
    /// one environment per depth, each with unique keys
    pub open spec fn wf(&self) -> bool {
        &&& self.env_stack@.len() == self.current_depth + 1
        &&& forall|j: int| 0 <= j < self.env_stack@.len() ==> (#[trigger] self.env_stack@[j]).wf()
    }

    /// entity bound to `k` (the one with the closest depth)
    pub open spec fn spec_get(&self, k: Seq<char>) -> Option<Entity> {
        scope_find(self.env_stack@, k)
    }

    pub fn new() -> (r: Self)
        ensures
            r.wf(),
            r.current_depth == 0,
            r.env_stack@.len() == 1,
            r.env_stack@[0].entries@.len() == 0,
            forall|k: Seq<char>| r.spec_get(k) is None,
    {
        let mut env_stack: Vec<Env<Entity>> = Vec::new();
        let e = Env::new();
        env_stack.push(e);
        let r = BlockContext { current_depth: 0, env_stack };
        proof {
            assert forall|k: Seq<char>| r.spec_get(k) is None by {
                assert(r.env_stack@.drop_last().len() == 0);
                assert(scope_find(r.env_stack@.drop_last(), k) is None);
                assert(r.env_stack@.last().lookup(k) is None);
            }
        }
        r
    }

    /// enter a nested block
    pub fn increase_depth(&mut self)
        requires
            old(self).wf(),
            old(self).current_depth < usize::MAX,
        ensures
            final(self).wf(),
            final(self).current_depth == old(self).current_depth + 1,
            final(self).env_stack@.drop_last() == old(self).env_stack@,
            final(self).env_stack@.last().entries@.len() == 0,
            forall|k: Seq<char>| final(self).spec_get(k) == old(self).spec_get(k),
    {
        self.current_depth += 1;
        let ghost s = self.env_stack@;
        self.env_stack.push(Env::new());
        proof {
            assert(self.env_stack@.drop_last() =~= s);
        }
    }

    /// leave a nested block, forgetting the variables declared in it
    pub fn decrease_depth(&mut self)
        requires
            old(self).wf(),
            old(self).current_depth > 0,
        ensures
            final(self).wf(),
            final(self).current_depth == old(self).current_depth - 1,
            final(self).env_stack@ == old(self).env_stack@.drop_last(),
    {
        self.current_depth -= 1;
        self.env_stack.pop();
    }

    /// get entity representing a variable with given identifier
    pub fn get_variable(&self, ident: &String) -> (r: Entity)
        requires
            self.spec_get(ident@) is Some,
        ensures
            r@ == self.spec_get(ident@)->0@,
    {
        let mut i = self.env_stack.len();
        assert(self.env_stack@.subrange(0, self.env_stack@.len() as int) =~= self.env_stack@);
        while i > 0
            invariant
                i <= self.env_stack@.len(),
                scope_find(self.env_stack@, ident@) == scope_find(self.env_stack@.subrange(0, i as int), ident@),
                scope_find(self.env_stack@, ident@) is Some,
            decreases i,
        {
            let ghost sub = self.env_stack@.subrange(0, i as int);
            assert(sub.last() == self.env_stack@[i - 1]);
            assert(sub.drop_last() =~= self.env_stack@.subrange(0, i - 1));
            match self.env_stack[i - 1].get(ident) {
                Some(ent) => {
                    return ent.copy();
                },
                None => {},
            }
            i = i - 1;
        }
        assert(self.env_stack@.subrange(0, 0).len() == 0);
        assert(false);
        Entity::Int { v: 0, uuid: 0 }
    }

    /// entity representing a variable with given identifier, if it is bound
    pub fn lookup_variable(&self, ident: &String) -> (r: Option<Entity>)
        ensures
            r is Some <==> self.spec_get(ident@) is Some,
            r matches Some(e) ==> e@ == self.spec_get(ident@)->0@,
    {
        let mut i = self.env_stack.len();
        assert(self.env_stack@.subrange(0, self.env_stack@.len() as int) =~= self.env_stack@);
        while i > 0
            invariant
                i <= self.env_stack@.len(),
                scope_find(self.env_stack@, ident@) == scope_find(self.env_stack@.subrange(0, i as int), ident@),
            decreases i,
        {
            let ghost sub = self.env_stack@.subrange(0, i as int);
            assert(sub.last() == self.env_stack@[i - 1]);
            assert(sub.drop_last() =~= self.env_stack@.subrange(0, i - 1));
            match self.env_stack[i - 1].get(ident) {
                Some(ent) => {
                    return Some(ent.copy());
                },
                None => {},
            }
            i = i - 1;
        }
        assert(self.env_stack@.subrange(0, 0).len() == 0);
        None
    }

    /// update existing variable value from the current depth
    /// (the related entity with closest depth to current one will be updated)
    pub fn update_variable(&mut self, ident: String, ent: Entity)
        requires
            old(self).wf(),
            old(self).spec_get(ident@) is Some,
        ensures
            final(self).wf(),
            final(self).current_depth == old(self).current_depth,
            final(self).env_stack@.len() == old(self).env_stack@.len(),
            forall|j: int| 0 <= j < old(self).env_stack@.len() && j != binding_depth(old(self).env_stack@, ident@)
                ==> #[trigger] final(self).env_stack@[j] == old(self).env_stack@[j],
            forall|q: Seq<char>| #[trigger] final(self).env_stack@[binding_depth(old(self).env_stack@, ident@)].lookup(q)
                == if q == ident@ { Some(ent) } else { old(self).env_stack@[binding_depth(old(self).env_stack@, ident@)].lookup(q) },
            forall|q: Seq<char>| #[trigger] final(self).spec_get(q) == if q == ident@ { Some(ent) } else { old(self).spec_get(q) },
    {
        let ghost s = self.env_stack@;
        let ghost k = ident@;
        let ghost entv = ent;
        proof {
            lemma_binding_depth(s, k);
        }
        let mut i = self.env_stack.len();
        while i > 0
            invariant
                i <= s.len(),
                self.env_stack@ == s,
                k == ident@,
                entv == ent,
                self.current_depth == old(self).current_depth,
                s.len() == self.current_depth + 1,
                s == old(self).env_stack@,
                forall|j: int| 0 <= j < s.len() ==> (#[trigger] s[j]).wf(),
                binding_depth(s, k) < i,
                binding_depth(s, k) >= 0,
                s[binding_depth(s, k)].lookup(k) is Some,
                forall|j: int| binding_depth(s, k) < j < s.len() ==> (#[trigger] s[j]).lookup(k) is None,
            decreases i,
        {
            let found = self.env_stack[i - 1].contains_key(&ident);
            if found {
                assert(self.env_stack@[i - 1] == s[i - 1]);
                assert(s[i - 1].lookup(k) is Some);
                let mut env = self.env_stack.remove(i - 1);
                env.insert(ident, ent);
                let ghost new_env = env;
                self.env_stack.insert(i - 1, env);
                proof {
                    assert(self.env_stack@ =~= s.update(i - 1, new_env));
                    assert forall|j: int| 0 <= j < self.env_stack@.len() implies (#[trigger] self.env_stack@[j]).wf() by {
                        if j != i - 1 {
                            assert(self.env_stack@[j] == s[j]);
                        }
                    }
                    assert forall|q: Seq<char>, j: int| q != k && 0 <= j < s.len() implies #[trigger] self.env_stack@[j].lookup(q) == s[j].lookup(q) by {
                    }
                    assert(i - 1 == binding_depth(s, k));
                    assert(self.env_stack@[i - 1] == new_env);
                    assert(new_env.lookup(k) == Some(entv));
                    assert forall|q: Seq<char>| #[trigger] self.spec_get(q) == if q == k { Some(entv) } else { scope_find(s, q) } by {
                        lemma_binding_depth(s, q);
                        lemma_binding_depth(self.env_stack@, q);
                        if q != k {
                            lemma_scope_find_levels(self.env_stack@, s, q);
                        } else {
                            assert(self.env_stack@[i - 1].lookup(k) == Some(entv));
                            assert forall|j: int| i - 1 < j < self.env_stack@.len() implies (#[trigger] self.env_stack@[j]).lookup(k) is None by {
                                assert(self.env_stack@[j] == s[j]);
                            }
                            lemma_scope_find_suffix(self.env_stack@, i - 1, k);
                        }
                    }
                }
                return;
            }
            i = i - 1;
        }
        assert(false);
    }

    /// set a new variable in environment (at current depth)
    pub fn set_new_variable(&mut self, ident: String, ent: Entity)
        requires
            old(self).wf(),
        ensures
            final(self).wf(),
            final(self).current_depth == old(self).current_depth,
            final(self).env_stack@.drop_last() == old(self).env_stack@.drop_last(),
            forall|q: Seq<char>| #[trigger] final(self).env_stack@.last().lookup(q) == if q == ident@ { Some(ent) } else { old(self).env_stack@.last().lookup(q) },
            forall|q: Seq<char>| #[trigger] final(self).spec_get(q) == if q == ident@ { Some(ent) } else { old(self).spec_get(q) },
    {
        let ghost s = self.env_stack@;
        let ghost entv = ent;
        let d = self.current_depth;
        let mut env = self.env_stack.remove(d);
        env.insert(ident, ent);
        self.env_stack.insert(d, env);
        proof {
            assert(self.env_stack@.drop_last() =~= s.drop_last());
            assert forall|q: Seq<char>| #[trigger] self.spec_get(q) == if q == ident@ { Some(entv) } else { scope_find(s, q) } by {
                assert(self.env_stack@.drop_last() == s.drop_last());
            }
        }
    }

    /// remove a variable from the environment at current depth
    pub fn remove_variable(&mut self, ident: &String)
        requires
            old(self).wf(),
        ensures
            final(self).wf(),
            final(self).current_depth == old(self).current_depth,
            final(self).env_stack@.drop_last() == old(self).env_stack@.drop_last(),
            forall|q: Seq<char>| #[trigger] final(self).env_stack@.last().lookup(q) == if q == ident@ { None } else { old(self).env_stack@.last().lookup(q) },
    {
        let ghost s = self.env_stack@;
        let d = self.current_depth;
        let mut env = self.env_stack.remove(d);
        env.remove(ident);
        self.env_stack.insert(d, env);
        proof {
            assert(self.env_stack@.drop_last() =~= s.drop_last());
        }
    }

    /// get view of the environment from the current depth
    /// (each variable will be mapped to related entity with the closest depth)
    pub fn get_env_view(&self) -> (r: Env<Entity>)
        requires
            self.wf(),
        ensures
            r.wf(),
            forall|q: Seq<char>| #[trigger] r.lookup(q) is Some <==> self.spec_get(q) is Some,
            forall|q: Seq<char>| r.lookup(q) is Some ==> (#[trigger] r.lookup(q))->0@ == self.spec_get(q)->0@,
    {
        let mut combined: Env<Entity> = Env::new();
        let mut i: usize = 0;
        while i < self.env_stack.len()
            invariant
                i <= self.env_stack@.len(),
                combined.wf(),
                forall|q: Seq<char>| #[trigger] combined.lookup(q) is Some <==> scope_find(self.env_stack@.subrange(0, i as int), q) is Some,
                forall|q: Seq<char>| combined.lookup(q) is Some ==> (#[trigger] combined.lookup(q))->0@ == scope_find(self.env_stack@.subrange(0, i as int), q)->0@,
            decreases self.env_stack.len() - i,
        {
            let env = &self.env_stack[i];
            let ghost before = combined;
            let mut j: usize = 0;
            while j < env.entries.len()
                invariant
                    j <= env.entries@.len(),
                    combined.wf(),
                    forall|q: Seq<char>| #[trigger] combined.lookup(q) is Some <==> (before.lookup(q) is Some || find_in(env.entries@.subrange(0, j as int), q) is Some),
                    forall|q: Seq<char>| combined.lookup(q) is Some ==> (#[trigger] combined.lookup(q))->0@ ==
                        (if find_in(env.entries@.subrange(0, j as int), q) is Some { find_in(env.entries@.subrange(0, j as int), q)->0@ } else { before.lookup(q)->0@ }),
                decreases env.entries.len() - j,
            {
                let key = env.entries[j].0.clone();
                let val = env.entries[j].1.copy();
                let ghost sub = env.entries@.subrange(0, j as int);
                combined.insert(key, val);
                proof {
                    assert(env.entries@.subrange(0, j + 1) =~= sub.push(env.entries@[j as int]));
                    assert forall|q: Seq<char>| find_in(env.entries@.subrange(0, j + 1), q) == if env.entries@[j as int].0@ == q { Some(env.entries@[j as int].1) } else { find_in(sub, q) } by {
                        lemma_find_in_push(sub, env.entries@[j as int], q);
                    }
                }
                j += 1;
            }
            proof {
                assert(env.entries@.subrange(0, env.entries@.len() as int) =~= env.entries@);
                assert(self.env_stack@.subrange(0, i + 1).drop_last() =~= self.env_stack@.subrange(0, i as int));
                assert(self.env_stack@.subrange(0, i + 1).last() == self.env_stack@[i as int]);
            }
            i += 1;
        }
        proof {
            assert(self.env_stack@.subrange(0, self.env_stack@.len() as int) =~= self.env_stack@);
        }
        combined
    }

    /// substitute entities in entire environment stack using provided mapping
    pub fn map_env(&mut self, mapping: &EntityMap)
        requires
            old(self).wf(),
        ensures
            final(self).wf(),
            final(self).current_depth == old(self).current_depth,
            final(self).env_stack@.len() == old(self).env_stack@.len(),
            forall|q: Seq<char>| #[trigger] final(self).spec_get(q) is Some <==> old(self).spec_get(q) is Some,
            forall|q: Seq<char>| final(self).spec_get(q) is Some ==> (#[trigger] final(self).spec_get(q))->0@
                == spec_map_entity(old(self).spec_get(q)->0@, IncrementMapper { offset: 0, from_value: 0 }, mapping.view_map()),
    {
        let inc = IncrementMapper { offset: 0, from_value: 0 };
        let ghost s = self.env_stack@;
        let mut stack: Vec<Env<Entity>> = Vec::new();
        std::mem::swap(&mut stack, &mut self.env_stack);
        let mut result: Vec<Env<Entity>> = Vec::new();
        let mut i: usize = 0;
        while i < stack.len()
            invariant
                inc == (IncrementMapper { offset: 0, from_value: 0 }),
                stack@ == s,
                i <= s.len(),
                result@.len() == i,
                forall|j: int| 0 <= j < s.len() ==> (#[trigger] s[j]).wf(),
                forall|j: int| 0 <= j < i ==> (#[trigger] result@[j]).wf() && keys_mapped(s[j], result@[j], mapping.view_map()),
            decreases s.len() - i,
        {
            let env = &stack[i];
            let mut mapped: Vec<(String, Entity)> = Vec::new();
            let mut j: usize = 0;
            while j < env.entries.len()
                invariant
                    inc == (IncrementMapper { offset: 0, from_value: 0 }),
                    env.wf(),
                    j <= env.entries@.len(),
                    mapped@.len() == j,
                    forall|t: int| 0 <= t < j ==> (#[trigger] mapped@[t]).0@ == env.entries@[t].0@
                        && mapped@[t].1@ == spec_map_entity(env.entries@[t].1@, inc, mapping.view_map()),
                decreases env.entries.len() - j,
            {
                let k = env.entries[j].0.clone();
                let v = env.entries[j].1.map_entities(&inc, mapping);
                mapped.push((k, v));
                j += 1;
            }
            let new_env = Env { entries: mapped };
            proof {
                assert(keys_mapped(*env, new_env, mapping.view_map())) by {
                    assert forall|q: Seq<char>| (#[trigger] new_env.lookup(q)) is Some <==> env.lookup(q) is Some by {
                        lemma_find_in_some(new_env.entries@, q);
                        lemma_find_in_some(env.entries@, q);
                        if env.lookup(q) is Some {
                            let t = choose|t: int| 0 <= t < env.entries@.len() && env.entries@[t].0@ == q;
                            assert(new_env.entries@[t].0@ == q);
                        }
                        if new_env.lookup(q) is Some {
                            let t = choose|t: int| 0 <= t < new_env.entries@.len() && new_env.entries@[t].0@ == q;
                            assert(env.entries@[t].0@ == q);
                        }
                    }
                    assert forall|q: Seq<char>| new_env.lookup(q) is Some implies (#[trigger] new_env.lookup(q))->0@
                        == spec_map_entity(env.lookup(q)->0@, inc, mapping.view_map()) by {
                        lemma_find_in_mapped(env.entries@, new_env.entries@, q, mapping.view_map());
                    }
                }
                assert(new_env.wf());
            }
            result.push(new_env);
            i += 1;
        }
        self.env_stack = result;
        proof {
            assert forall|q: Seq<char>| #[trigger] self.spec_get(q) is Some <==> scope_find(s, q) is Some by {
                lemma_scope_find_mapped(s, self.env_stack@, q, mapping.view_map());
            }
            assert forall|q: Seq<char>| self.spec_get(q) is Some implies (#[trigger] self.spec_get(q))->0@
                == spec_map_entity(scope_find(s, q)->0@, inc, mapping.view_map()) by {
                lemma_scope_find_mapped(s, self.env_stack@, q, mapping.view_map());
            }
        }
    }
}

/// `b` binds the same keys as `a`, to entities mapped by `m`
pub open spec fn keys_mapped(a: Env<Entity>, b: Env<Entity>, m: Map<EntityV, EntityV>) -> bool {
    &&& forall|q: Seq<char>| (#[trigger] b.lookup(q)) is Some <==> a.lookup(q) is Some
    &&& forall|q: Seq<char>| b.lookup(q) is Some ==> (#[trigger] b.lookup(q))->0@
        == spec_map_entity(a.lookup(q)->0@, IncrementMapper { offset: 0, from_value: 0 }, m)
}

pub proof fn lemma_find_in_mapped(a: Seq<(String, Entity)>, b: Seq<(String, Entity)>, q: Seq<char>, m: Map<EntityV, EntityV>)
    requires
        a.len() == b.len(),
        forall|t: int| 0 <= t < a.len() ==> (#[trigger] b[t]).0@ == a[t].0@
            && b[t].1@ == spec_map_entity(a[t].1@, IncrementMapper { offset: 0, from_value: 0 }, m),
    ensures
        find_in(b, q) is Some <==> find_in(a, q) is Some,
        find_in(b, q) is Some ==> find_in(b, q)->0@ == spec_map_entity(find_in(a, q)->0@, IncrementMapper { offset: 0, from_value: 0 }, m),
    decreases a.len(),
{
    if a.len() > 0 {
        assert(b.last() == b[b.len() - 1]);
        lemma_find_in_mapped(a.drop_last(), b.drop_last(), q, m);
    }
}

pub proof fn lemma_scope_find_mapped(a: Seq<Env<Entity>>, b: Seq<Env<Entity>>, q: Seq<char>, m: Map<EntityV, EntityV>)
    requires
        a.len() == b.len(),
        forall|j: int| 0 <= j < b.len() ==> keys_mapped(a[j], #[trigger] b[j], m),
    ensures
        scope_find(b, q) is Some <==> scope_find(a, q) is Some,
        scope_find(b, q) is Some ==> scope_find(b, q)->0@ == spec_map_entity(scope_find(a, q)->0@, IncrementMapper { offset: 0, from_value: 0 }, m),
    decreases a.len(),
{
    if a.len() > 0 {
        assert(keys_mapped(a.last(), b.last(), m)) by {
            assert(b.last() == b[b.len() - 1]);
        }
        lemma_scope_find_mapped(a.drop_last(), b.drop_last(), q, m);
    }
}

/// the binding at depth `i` is seen when no deeper environment binds the key
pub proof fn lemma_scope_find_suffix(stack: Seq<Env<Entity>>, i: int, k: Seq<char>)
    requires
        0 <= i < stack.len(),
        stack[i].lookup(k) is Some,
        forall|j: int| i < j < stack.len() ==> (#[trigger] stack[j]).lookup(k) is None,
    ensures
        scope_find(stack, k) == stack[i].lookup(k),
    decreases stack.len(),
{
    if i < stack.len() - 1 {
        assert(stack.last() == stack[stack.len() - 1]);
        assert forall|j: int| i < j < stack.len() - 1 implies (#[trigger] stack.drop_last()[j]).lookup(k) is None by {
            assert(stack.drop_last()[j] == stack[j]);
        }
        lemma_scope_find_suffix(stack.drop_last(), i, k);
    }
}

/// Leaving a block restores the block context from before entering it: `decrease_depth`
/// after `increase_depth` gives back the depth and the scopes, and so every variable binding.
pub proof fn law_leaving_undoes_entering(before: BlockContext, entered: BlockContext, left: BlockContext)
    requires
        entered.current_depth == before.current_depth + 1,
        entered.env_stack@.drop_last() == before.env_stack@,
        left.current_depth == entered.current_depth - 1,
        left.env_stack@ == entered.env_stack@.drop_last(),
    ensures
        left.current_depth == before.current_depth,
        left.env_stack@ == before.env_stack@,
        forall|k: Seq<char>| #[trigger] left.spec_get(k) == before.spec_get(k),
{
}

} // verus!
