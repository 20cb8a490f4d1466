//! Environments: finite maps from identifiers to values.
//!
//! An environment keeps its entries in insertion order, with no key occurring twice.
use vstd::prelude::*;

use crate::frontend::ast::Keyed;
use crate::frontend::error::{FrontendError, FrontendErrorKind};
use crate::meta::Meta;
use crate::util::text::concat;

verus! {

/// value bound to key `k` in `s`; a later entry shadows an earlier one
pub open spec fn find_in<T>(s: Seq<(String, T)>, k: Seq<char>) -> Option<T>
    decreases s.len(),
{
    if s.len() == 0 {
        None
    } else if s.last().0@ == k {
        Some(s.last().1)
    } else {
        find_in(s.drop_last(), k)
    }
}

/// the keys of `s`, in order
pub open spec fn keys_of<T>(s: Seq<(String, T)>) -> Seq<Seq<char>> {
    Seq::new(s.len(), |i: int| s[i].0@)
}

/// no key occurs twice in `s`
pub open spec fn unique_keys<T>(s: Seq<(String, T)>) -> bool {
    forall|i: int, j: int| 0 <= i < j < s.len() ==> s[i].0@ != s[j].0@
}

/// the finite map described by `s`
pub open spec fn map_of<T>(s: Seq<(String, T)>) -> Map<Seq<char>, T> {
    Map::new(|k: Seq<char>| find_in(s, k) is Some, |k: Seq<char>| find_in(s, k)->0)
}

/// uniqueness of keys depends on the keys alone
pub proof fn lemma_unique_keys_same_keys<A, B>(a: Seq<(String, A)>, b: Seq<(String, B)>)
    requires
        keys_of(a) == keys_of(b),
        unique_keys(a),
    ensures
        unique_keys(b),
{
    assert(keys_of(a).len() == a.len());
    assert forall|i: int, j: int| 0 <= i < j < b.len() implies b[i].0@ != b[j].0@ by {
        assert(keys_of(b)[i] == b[i].0@);
        assert(keys_of(b)[j] == b[j].0@);
        assert(keys_of(a)[i] == a[i].0@);
        assert(keys_of(a)[j] == a[j].0@);
    }
}

/// a key that does not occur after position `i` does not see those entries
pub proof fn lemma_find_in_prefix<T>(s: Seq<(String, T)>, i: int, k: Seq<char>)
    requires
        0 <= i <= s.len(),
        forall|j: int| i <= j < s.len() ==> s[j].0@ != k,
    ensures
        find_in(s, k) == find_in(s.subrange(0, i), k),
    decreases s.len(),
{
    if s.len() == i {
        assert(s.subrange(0, i) =~= s);
    } else {
        lemma_find_in_prefix(s.drop_last(), i, k);
        assert(s.drop_last().subrange(0, i) =~= s.subrange(0, i));
    }
}

/// with unique keys, the entry at position `i` is what its key finds
pub proof fn lemma_find_in_unique<T>(s: Seq<(String, T)>, i: int)
    requires
        0 <= i < s.len(),
        unique_keys(s),
    ensures
        find_in(s, s[i].0@) == Some(s[i].1),
    decreases s.len(),
{
    if i == s.len() - 1 {
    } else {
        assert(s.drop_last()[i] == s[i]);
        lemma_find_in_unique(s.drop_last(), i);
    }
}

/// a key found in `s` is the key of some entry
pub proof fn lemma_find_in_some<T>(s: Seq<(String, T)>, k: Seq<char>)
    ensures
        find_in(s, k) is Some <==> exists|i: int| 0 <= i < s.len() && s[i].0@ == k,
        find_in(s, k) is Some ==> exists|i: int| 0 <= i < s.len() && s[i].0@ == k && s[i].1 == find_in(s, k)->0,
    decreases s.len(),
{
    if s.len() > 0 {
        lemma_find_in_some(s.drop_last(), k);
        if find_in(s.drop_last(), k) is Some {
            let i = choose|i: int| 0 <= i < s.len() - 1 && s.drop_last()[i].0@ == k && s.drop_last()[i].1 == find_in(s.drop_last(), k)->0;
            assert(s[i] == s.drop_last()[i]);
        }
        if exists|i: int| 0 <= i < s.len() && s[i].0@ == k {
            let i = choose|i: int| 0 <= i < s.len() && s[i].0@ == k;
            if i < s.len() - 1 {
                assert(s.drop_last()[i] == s[i]);
            }
        }
    }
}

/// appending an entry binds its key and leaves the others as they were
pub proof fn lemma_find_in_push<T>(s: Seq<(String, T)>, e: (String, T), k: Seq<char>)
    ensures
        find_in(s.push(e), k) == if e.0@ == k { Some(e.1) } else { find_in(s, k) },
{
    assert(s.push(e).drop_last() =~= s);
}

/// replacing the value of an entry (keys unique) rebinds only that key
pub proof fn lemma_find_in_update<T>(s: Seq<(String, T)>, i: int, e: (String, T), k: Seq<char>)
    requires
        0 <= i < s.len(),
        unique_keys(s),
        e.0@ == s[i].0@,
    ensures
        find_in(s.update(i, e), k) == if e.0@ == k { Some(e.1) } else { find_in(s, k) },
        unique_keys(s.update(i, e)),
    decreases s.len(),
{
    let t = s.update(i, e);
    if i == s.len() - 1 {
        assert(t.drop_last() =~= s.drop_last());
    } else {
        assert(t.drop_last() =~= s.drop_last().update(i, e));
        lemma_find_in_update(s.drop_last(), i, e, k);
        if e.0@ == k {
            assert(s.last().0@ != s[i].0@);
        }
    }
}

/// removing an entry (keys unique) unbinds only its key
pub proof fn lemma_find_in_remove<T>(s: Seq<(String, T)>, i: int, k: Seq<char>)
    requires
        0 <= i < s.len(),
        unique_keys(s),
    ensures
        find_in(s.remove(i), k) == if s[i].0@ == k { None } else { find_in(s, k) },
        unique_keys(s.remove(i)),
    decreases s.len(),
{
    let t = s.remove(i);
    if i == s.len() - 1 {
        assert(t =~= s.drop_last());
        if s[i].0@ == k {
            lemma_find_in_some(t, k);
        }
    } else {
        assert(t.drop_last() =~= s.drop_last().remove(i));
        assert(t.last() == s.last());
        lemma_find_in_remove(s.drop_last(), i, k);
    }
}

/// environment mapping identifiers to values of type `T`
#[derive(Debug)]
pub struct Env<T> {
    /// entries in insertion order
    pub entries: Vec<(String, T)>,
}

impl<T> Env<T> {
    /// keys are unique
    pub open spec fn wf(&self) -> bool {
        unique_keys(self.entries@)
    }

    /// value bound to `k`
    pub open spec fn lookup(&self, k: Seq<char>) -> Option<T> {
        find_in(self.entries@, k)
    }

    /// keys in insertion order
    pub open spec fn keys(&self) -> Seq<Seq<char>> {
        keys_of(self.entries@)
    }

    /// empty environment
    pub fn new() -> (r: Self)
        ensures
            r.wf(),
            r.entries@.len() == 0,
            forall|k: Seq<char>| r.lookup(k) is None,
    {
        Env { entries: Vec::new() }
    }

    /// number of bindings
    pub fn len(&self) -> (r: usize)
        ensures
            r == self.entries@.len(),
    {
        self.entries.len()
    }

    /// position of the entry with key `k`
    pub fn position(&self, k: &String) -> (r: Option<usize>)
        ensures
            match r {
                Some(i) => i < self.entries@.len() && self.entries@[i as int].0@ == k@
                    && forall|j: int| i < j < self.entries@.len() ==> self.entries@[j].0@ != k@,
                None => forall|j: int| 0 <= j < self.entries@.len() ==> self.entries@[j].0@ != k@,
            },
            self.lookup(k@) is Some <==> r is Some,
            r matches Some(i) ==> self.lookup(k@) == Some(self.entries@[i as int].1),
    {
        let mut i = self.entries.len();
        while i > 0
            invariant
                i <= self.entries@.len(),
                forall|j: int| i <= j < self.entries@.len() ==> self.entries@[j].0@ != k@,
            decreases i,
        {
            if self.entries[i - 1].0 == *k {
                proof {
                    lemma_find_in_prefix(self.entries@, i as int, k@);
                    assert(self.entries@.subrange(0, i as int).drop_last() =~= self.entries@.subrange(0, i - 1));
                }
                return Some(i - 1);
            }
            i = i - 1;
        }
        proof {
            lemma_find_in_some(self.entries@, k@);
        }
        None
    }

    /// value bound to `k`, if any
    pub fn get(&self, k: &String) -> (r: Option<&T>)
        ensures
            match r {
                Some(v) => self.lookup(k@) == Some(*v),
                None => self.lookup(k@) is None,
            },
    {
        match self.position(k) {
            Some(i) => Some(&self.entries[i].1),
            None => None,
        }
    }

    /// checks if `k` is bound
    pub fn contains_key(&self, k: &String) -> (r: bool)
        ensures
            r == (self.lookup(k@) is Some),
    {
        self.position(k).is_some()
    }

    /// bind `k` to `v`; the previous value (if any) is returned, and its entry keeps its place
    pub fn insert(&mut self, k: String, v: T) -> (r: Option<T>)
        requires
            old(self).wf(),
        ensures
            final(self).wf(),
            r == old(self).lookup(k@),
            forall|q: Seq<char>| final(self).lookup(q) == if q == k@ { Some(v) } else { old(self).lookup(q) },
            r is None ==> final(self).entries@ == old(self).entries@.push((k, v)),
            r is Some ==> final(self).entries@.len() == old(self).entries@.len()
                && keys_of(final(self).entries@) == keys_of(old(self).entries@),
            r is Some ==> exists|i: int| 0 <= i < old(self).entries@.len() && old(self).entries@[i].0@ == k@
                && final(self).entries@ == old(self).entries@.update(i, (k, v)),
    {
        let ghost kv = (k, v);
        match self.position(&k) {
            Some(i) => {
                let ghost s = self.entries@;
                let (old_k, old_v) = self.entries.remove(i);
                self.entries.insert(i, (k, v));
                proof {
                    assert(self.entries@ =~= s.update(i as int, (k, v)));
                    assert forall|q: Seq<char>| find_in(self.entries@, q) == if q == k@ { Some(v) } else { find_in(s, q) } by {
                        lemma_find_in_update(s, i as int, (k, v), q);
                    }
                    lemma_find_in_update(s, i as int, (k, v), k@);
                    assert(keys_of(self.entries@) =~= keys_of(s));
                    assert(self.entries@ == s.update(i as int, kv));
                }
                Some(old_v)
            },
            None => {
                let ghost s = self.entries@;
                self.entries.push((k, v));
                proof {
                    assert forall|q: Seq<char>| find_in(self.entries@, q) == if q == k@ { Some(v) } else { find_in(s, q) } by {
                        lemma_find_in_push(s, (k, v), q);
                    }
                }
                None
            },
        }
    }

    /// unbind `k`, returning its value
    pub fn remove(&mut self, k: &String) -> (r: Option<T>)
        requires
            old(self).wf(),
        ensures
            final(self).wf(),
            r == old(self).lookup(k@),
            forall|q: Seq<char>| final(self).lookup(q) == if q == k@ { None } else { old(self).lookup(q) },
    {
        match self.position(k) {
            Some(i) => {
                let ghost s = self.entries@;
                let (_, old_v) = self.entries.remove(i);
                proof {
                    assert forall|q: Seq<char>| find_in(self.entries@, q) == if q == k@ { None::<T> } else { find_in(s, q) } by {
                        lemma_find_in_remove(s, i as int, q);
                    }
                    lemma_find_in_remove(s, i as int, k@);
                }
                Some(old_v)
            },
            None => None,
        }
    }

    /// checks that no key occurs twice
    pub fn has_unique_keys(&self) -> (r: bool)
        ensures
            r == self.wf(),
    {
        let n = self.entries.len();
        let mut j: usize = 0;
        while j < n
            invariant
                j <= n,
                n == self.entries@.len(),
                forall|a: int, b: int| 0 <= a < b < j ==> self.entries@[a].0@ != self.entries@[b].0@,
            decreases n - j,
        {
            let mut i: usize = 0;
            while i < j
                invariant
                    i <= j < n,
                    n == self.entries@.len(),
                    forall|a: int| 0 <= a < i ==> self.entries@[a].0@ != self.entries@[j as int].0@,
                decreases j - i,
            {
                if self.entries[i].0 == self.entries[j].0 {
                    return false;
                }
                i += 1;
            }
            j += 1;
        }
        true
    }
}


/// insertion that reports a duplicate key
pub trait UniqueEnv<ItemT, LocationT>: Sized {
    /// the value bound to `k`
    spec fn bound(&self, k: Seq<char>) -> Option<Meta<ItemT, LocationT>>;

    /// the keys are unique
    spec fn keys_unique(&self) -> bool;

    /// associates `k` with `v`, unless `k` is bound already: then the earlier value stays
    /// and the duplicate is reported at the location of `v`
    fn insert_unique(&mut self, k: String, v: Meta<ItemT, LocationT>) -> (r: Result<(), FrontendError<LocationT>>)
        requires
            old(self).keys_unique(),
        ensures
            final(self).keys_unique(),
            r is Ok <==> old(self).bound(k@) is None,
            r is Ok ==> final(self).bound(k@) == Some(v),
            r is Err ==> final(self).bound(k@) == old(self).bound(k@),
            forall|q: Seq<char>| q != k@ ==> #[trigger] final(self).bound(q) == old(self).bound(q),
            r matches Err(e) ==> e.meta == v.meta && (e.item matches FrontendErrorKind::EnvError { message }
                && message@ == "Duplicate declaration of "@ + k@),
    ;
}

impl<ItemT, MetaT> UniqueEnv<ItemT, MetaT> for Env<Meta<ItemT, MetaT>> {
    open spec fn bound(&self, k: Seq<char>) -> Option<Meta<ItemT, MetaT>> {
        self.lookup(k)
    }

    open spec fn keys_unique(&self) -> bool {
        self.wf()
    }

    fn insert_unique(&mut self, k: String, v: Meta<ItemT, MetaT>) -> (r: Result<(), FrontendError<MetaT>>)
        ensures
            r is Ok ==> final(self).entries@ == old(self).entries@.push((k, v)),
    {
        if self.contains_key(&k) {
            let message = concat("Duplicate declaration of ", k.as_str());
            Err(Meta::new(FrontendErrorKind::EnvError { message }, v.meta))
        } else {
            self.insert(k, v);
            Ok(())
        }
    }
}

/// construction from a vector of keyed items
pub trait FromKeyedVec<ItemT, LocationT>: Sized {
    /// the environment binds exactly the keys of the items, each to the item with that key
    spec fn built_from(&self, items: Seq<Meta<ItemT, LocationT>>) -> bool;

    /// no two of the items have the same key
    spec fn unique_items(items: Seq<Meta<ItemT, LocationT>>) -> bool;

    /// the error reports a repeated name at one of the items
    spec fn reports_repeated(e: FrontendError<LocationT>, items: Seq<Meta<ItemT, LocationT>>) -> bool;

    /// the errors report, in order, each item whose name an earlier item has, at its location
    spec fn reports_each_repeat(errors: Seq<FrontendError<LocationT>>, items: Seq<Meta<ItemT, LocationT>>) -> bool;

    /// create an env mapping element.get_key() to element, making sure keys are unique;
    /// the items are moved out of `member_vec`
    fn from_vec(member_vec: &mut Vec<Meta<ItemT, LocationT>>) -> (r: Result<Self, Vec<FrontendError<LocationT>>>)
        ensures
            final(member_vec)@.len() == 0,
            r is Ok <==> Self::unique_items(old(member_vec)@),
            r matches Ok(env) ==> env.built_from(old(member_vec)@),
            r matches Err(errors) ==> errors@.len() >= 1,
            r matches Err(errors) ==> forall|j: int| 0 <= j < errors@.len() ==> Self::reports_repeated(#[trigger] errors@[j], old(member_vec)@),
            r matches Err(errors) ==> Self::reports_each_repeat(errors@, old(member_vec)@),
    ;
}

/// the positions of the items whose name an earlier item has, in order
pub open spec fn repeats<ItemT: Keyed, LocationT>(items: Seq<Meta<ItemT, LocationT>>) -> Seq<int>
    decreases items.len(),
{
    if items.len() == 0 {
        Seq::empty()
    } else {
        let i = items.len() - 1;
        let earlier = repeats(items.drop_last());
        if exists|j: int| 0 <= j < i && #[trigger] items[j].spec_key() == items[i].spec_key() {
            earlier.push(i)
        } else {
            earlier
        }
    }
}

/// the errors report, in order, each item whose name an earlier item has, at its location
pub open spec fn each_repeat_reported<ItemT: Keyed, LocationT>(errors: Seq<FrontendError<LocationT>>, items: Seq<Meta<ItemT, LocationT>>) -> bool {
    &&& errors.len() == repeats(items).len()
    &&& forall|m: int| 0 <= m < errors.len() ==> duplicate_at(#[trigger] errors[m], items, repeats(items)[m])
}

/// the error reports the name of item `i`, repeated, at its location
pub open spec fn duplicate_at<ItemT: Keyed, LocationT>(e: FrontendError<LocationT>, items: Seq<Meta<ItemT, LocationT>>, i: int) -> bool {
    e.meta == items[i].meta && (e.item matches FrontendErrorKind::EnvError { message }
        && message@ == "Duplicate declaration of "@ + items[i].spec_key())
}

/// the error reports a repeated name at one of the items: `Duplicate declaration of` the name
pub open spec fn reports_duplicate<ItemT: Keyed, LocationT>(e: FrontendError<LocationT>, items: Seq<Meta<ItemT, LocationT>>) -> bool {
    exists|i: int| 0 <= i < items.len() && e.meta == items[i].meta && (e.item matches FrontendErrorKind::EnvError { message }
        && message@ == "Duplicate declaration of "@ + #[trigger] items[i].spec_key())
}

/// the keys of the items are pairwise different
pub open spec fn keyed_unique<ItemT: Keyed, LocationT>(items: Seq<Meta<ItemT, LocationT>>) -> bool {
    forall|i: int, j: int| 0 <= i < j < items.len() ==> items[i].spec_key() != items[j].spec_key()
}

impl<ItemT: Keyed, MetaT> FromKeyedVec<ItemT, MetaT> for Env<Meta<ItemT, MetaT>> {
    open spec fn built_from(&self, items: Seq<Meta<ItemT, MetaT>>) -> bool {
        &&& self.wf()
        &&& self.entries@.len() == items.len()
        &&& forall|i: int| 0 <= i < items.len() ==> (#[trigger] self.entries@[i]).1 == items[i]
            && self.entries@[i].0@ == items[i].spec_key()
    }

    open spec fn unique_items(items: Seq<Meta<ItemT, MetaT>>) -> bool {
        keyed_unique(items)
    }

    open spec fn reports_repeated(e: FrontendError<MetaT>, items: Seq<Meta<ItemT, MetaT>>) -> bool {
        reports_duplicate(e, items)
    }

    open spec fn reports_each_repeat(errors: Seq<FrontendError<MetaT>>, items: Seq<Meta<ItemT, MetaT>>) -> bool {
        each_repeat_reported(errors, items)
    }

    fn from_vec(member_vec: &mut Vec<Meta<ItemT, MetaT>>) -> (r: Result<Self, Vec<FrontendError<MetaT>>>) {
        let ghost items = member_vec@;
        let mut env: Env<Meta<ItemT, MetaT>> = Env::new();
        let mut errors: Vec<FrontendError<MetaT>> = Vec::new();
        let mut k: usize = 0;
        let total = member_vec.len();
        while member_vec.len() > 0
            invariant
                items.len() == total,
                member_vec@.len() + k == total,
                forall|i: int| 0 <= i < member_vec@.len() ==> member_vec@[i] == items[k + i],
                env.wf(),
                errors@.len() == 0 ==> env.entries@.len() == k
                    && forall|i: int| 0 <= i < k ==> (#[trigger] env.entries@[i]).1 == items[i]
                        && env.entries@[i].0@ == items[i].spec_key(),
                errors@.len() == 0 <==> keyed_unique(items.subrange(0, k as int)),
                forall|q: Seq<char>| #[trigger] env.lookup(q) is Some <==> exists|j: int| 0 <= j < k && items[j].spec_key() == q,
                forall|j: int| 0 <= j < errors@.len() ==> reports_duplicate(#[trigger] errors@[j], items),
                errors@.len() == repeats(items.subrange(0, k as int)).len(),
                forall|m: int| 0 <= m < errors@.len() ==> duplicate_at(#[trigger] errors@[m], items, repeats(items.subrange(0, k as int))[m]),
            decreases member_vec.len(),
        {
            let element = member_vec.remove(0);
            let key = element.get_key().clone();
            let ghost before = env.entries@;
            let ghost env0 = env;
            let ghost errors0 = errors@.len();
            let ghost kq = items[k as int].spec_key();
            let ghost kv = key@;
            assert(kv == kq);
            let ghost errors0 = errors@;
            let ghost elem = element;
            match env.insert_unique(key, element) {
                Ok(()) => {},
                Err(e) => {
                    proof {
                        assert(items[k as int] == elem);
                        assert(reports_duplicate(e, items));
                        assert(duplicate_at(e, items, k as int));
                    }
                    errors.push(e);
                    proof {
                        assert forall|j: int| 0 <= j < errors@.len() implies reports_duplicate(#[trigger] errors@[j], items) by {
                            if j < errors0.len() {
                                assert(errors@[j] == errors0[j]);
                            }
                        }
                    }
                },
            }
            proof {
                let p0 = items.subrange(0, k as int);
                let p1 = items.subrange(0, k + 1);
                assert forall|i: int| 0 <= i < k implies #[trigger] p1[i] == p0[i] by {}
                assert(p1[k as int] == items[k as int]);
                assert(p1.drop_last() =~= p0);
                let repeated = exists|j: int| 0 <= j < k && #[trigger] p1[j].spec_key() == p1[k as int].spec_key();
                assert(repeats(p1) == if repeated { repeats(p0).push(k as int) } else { repeats(p0) });
                if env0.lookup(kq) is Some {
                    let j = choose|j: int| 0 <= j < k && items[j].spec_key() == kq;
                    assert(p1[j].spec_key() == p1[k as int].spec_key());
                }
                if repeated {
                    let j = choose|j: int| 0 <= j < k && #[trigger] p1[j].spec_key() == p1[k as int].spec_key();
                    assert(items[j].spec_key() == kq);
                }
                assert forall|m: int| 0 <= m < errors@.len() implies duplicate_at(#[trigger] errors@[m], items, repeats(p1)[m]) by {
                    if m < errors0.len() {
                        assert(errors@[m] == errors0[m]);
                    }
                }
                if keyed_unique(p1) {
                    assert forall|i: int, j: int| 0 <= i < j < p0.len() implies p0[i].spec_key() != p0[j].spec_key() by {
                        assert(p1[i] == p0[i] && p1[j] == p0[j]);
                    }
                    if env0.lookup(kq) is Some {
                        let j = choose|j: int| 0 <= j < k && items[j].spec_key() == kq;
                        assert(p1[j].spec_key() == p1[k as int].spec_key());
                    }
                }
                if keyed_unique(p0) && env0.lookup(kq) is None {
                    assert forall|i: int, j: int| 0 <= i < j < p1.len() implies p1[i].spec_key() != p1[j].spec_key() by {
                        if j == k {
                            assert(p1[i] == items[i]);
                        } else {
                            assert(p1[i] == p0[i] && p1[j] == p0[j]);
                        }
                    }
                }
                assert forall|q: Seq<char>| #[trigger] env.lookup(q) is Some <==> exists|j: int| 0 <= j < k + 1 && items[j].spec_key() == q by {
                    if q != kq {
                        assert(env.bound(q) == env0.bound(q));
                        assert(env0.lookup(q) is Some <==> exists|j: int| 0 <= j < k && items[j].spec_key() == q);
                        if exists|j: int| 0 <= j < k + 1 && items[j].spec_key() == q {
                            let j = choose|j: int| 0 <= j < k + 1 && items[j].spec_key() == q;
                            assert(j < k);
                        }
                    } else {
                        assert(env.bound(kq) is Some);
                        assert(items[k as int].spec_key() == q);
                    }
                }
            }
            k += 1;
        }
        assert(items.subrange(0, total as int) =~= items);
        if errors.len() == 0 {
            Ok(env)
        } else {
            Err(errors)
        }
    }
}

} // verus!
