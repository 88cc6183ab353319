//! Environments: layered maps from names to values, inherited down the widget tree.
use vstd::prelude::*;
use std::marker::PhantomData;
use std::sync::Arc;

verus! {

/// A name for a value of type `T` in an [`Environment`].
pub struct EnvKey<T> {
    key: &'static str,
    _type: PhantomData<T>,
}

impl<T> EnvKey<T> {
    /// The name of the key.
    pub closed spec fn name(&self) -> Seq<char> {
        self.key@
    }

    /// Creates the key called `key`.
    pub fn new(key: &'static str) -> (k: EnvKey<T>)
        ensures
            k.name() == key@,
    {
        EnvKey { key, _type: PhantomData }
    }

    /// A copy of this key.
    pub fn clone(&self) -> (k: EnvKey<T>)
        ensures
            k.name() == self.name(),
    {
        EnvKey { key: self.key, _type: PhantomData }
    }
}

/// Returns the value that `a` points to, if `a` is its only owner, and gives
/// `a` back otherwise (`std::sync::Arc::try_unwrap`).
///
/// Trusted: in both cases the value is the one `a` points to. Which case
/// happens depends on the other owners at the time of the call.
#[verifier::external_body]
fn arc_try_unwrap<T>(a: Arc<T>) -> (r: Result<T, Arc<T>>)
    ensures
        match r {
            Ok(t) => t == *a,
            Err(b) => b == a,
        },
{
    Arc::try_unwrap(a)
}

/// Another owner of the value that `a` points to (`Clone` for `std::sync::Arc`).
///
/// Trusted: the result points to the same value.
#[verifier::external_body]
fn arc_clone<T>(a: &Arc<T>) -> (r: Arc<T>)
    ensures
        r == *a,
{
    a.clone()
}

/// One layer of an environment: its own values, and the layer it extends.
pub struct EnvImpl<V> {
    parent: Option<Arc<EnvImpl<V>>>,
    values: Vec<(String, Arc<V>)>,
}

/// The values that a list of entries defines: later entries win.
pub open spec fn values_map<V>(s: Seq<(String, Arc<V>)>) -> Map<Seq<char>, V>
    decreases s.len(),
{
    if s.len() == 0 {
        Map::empty()
    } else {
        values_map(s.drop_last()).insert(s.last().0@, *s.last().1)
    }
}

/// A name that no entry from index `i` on defines has the value it has in the
/// entries before `i`.
proof fn lemma_values_map_prefix<V>(s: Seq<(String, Arc<V>)>, i: int, k: Seq<char>)
    requires
        0 <= i <= s.len(),
        forall|j: int| i <= j < s.len() ==> s[j].0@ != k,
    ensures
        values_map(s).dom().contains(k) == values_map(s.take(i)).dom().contains(k),
        values_map(s).dom().contains(k) ==> values_map(s)[k] == values_map(s.take(i))[k],
    decreases s.len() - i,
{
    if i < s.len() {
        assert(s.drop_last().take(i) =~= s.take(i));
        lemma_values_map_prefix(s.drop_last(), i, k);
    } else {
        assert(s.take(i) =~= s);
    }
}

impl<V> EnvImpl<V> {
    /// Number of layers below this one.
    pub closed spec fn depth(self) -> nat
        decreases self,
    {
        match self.parent {
            None => 0,
            Some(p) => 1 + (*p).depth(),
        }
    }

    /// The values visible from this layer: those of the layers below,
    /// overridden by its own.
    pub closed spec fn map(self) -> Map<Seq<char>, V>
        decreases self,
    {
        match self.parent {
            None => values_map(self.values@),
            Some(p) => (*p).map().union_prefer_right(values_map(self.values@)),
        }
    }
}

impl<V: Clone> EnvImpl<V> {
    /// Returns a clone of the value called `key`: its own if it has one,
    /// otherwise the one visible from the layer below.
    fn get(&self, key: &str) -> (r: Option<V>)
        ensures
            r is Some == self.map().dom().contains(key@),
            r is Some ==> cloned(self.map()[key@], r->0),
        decreases self.depth(),
    {
        let mut i = self.values.len();
        while i > 0
            invariant
                i <= self.values@.len(),
                forall|j: int| i <= j < self.values@.len() ==> self.values@[j].0@ != key@,
            decreases i,
        {
            let k = i - 1;
            if str_equal(self.values[k].0.as_str(), key) {
                proof {
                    let s = self.values@;
                    lemma_values_map_prefix(s, i as int, key@);
                    assert(s.take(i as int).drop_last() =~= s.take(k as int));
                }
                let v: &V = &*self.values[k].1;
                return Some(v.clone());
            }
            i = k;
        }
        proof {
            lemma_values_map_prefix(self.values@, 0, key@);
            assert(self.values@.take(0) =~= Seq::<(String, Arc<V>)>::empty());
        }
        match &self.parent {
            Some(parent) => parent.get(key),
            None => None,
        }
    }
}

/// A layered map from names to values. Adding a value makes a new layer over
/// the environment unless this environment is its only owner.
pub struct Environment<V>(Arc<EnvImpl<V>>);

impl<V> View for Environment<V> {
    type V = Map<Seq<char>, V>;

    closed spec fn view(&self) -> Map<Seq<char>, V> {
        (*self.0).map()
    }
}

impl<V> Clone for Environment<V> {
    /// Another owner of the same environment.
    fn clone(&self) -> (e: Self)
        ensures
            e@ == self@,
    {
        Environment(arc_clone(&self.0))
    }
}

impl<V> Environment<V> {
    /// Number of layers below the top one.
    pub closed spec fn depth(&self) -> nat {
        (*self.0).depth()
    }
}

impl<V: Clone> Environment<V> {
    /// Creates a new, empty environment.
    pub fn new() -> (e: Environment<V>)
        ensures
            e@ == Map::<Seq<char>, V>::empty(),
    {
        let e = Environment(Arc::new(EnvImpl { parent: None, values: Vec::new() }));
        assert(e@ =~= Map::<Seq<char>, V>::empty());
        e
    }

    /// Creates a new environment that adds or overrides a given key.
    pub fn add(self, key: EnvKey<V>, value: V) -> (e: Environment<V>)
        ensures
            e@ == self@.insert(key.name(), value),
    {
        let ghost old_map = self@;
        match arc_try_unwrap(self.0) {
            Ok(env) => {
                let mut env = env;
                let ghost old_values = env.values@;
                env.values.push((key.key.to_owned(), Arc::new(value)));
                assert(env.values@.drop_last() =~= old_values);
                let e = Environment(Arc::new(env));
                assert(e@ =~= old_map.insert(key.name(), value));
                e
            },
            Err(shared) => {
                let mut values: Vec<(String, Arc<V>)> = Vec::new();
                values.push((key.key.to_owned(), Arc::new(value)));
                assert(values@.drop_last() =~= Seq::<(String, Arc<V>)>::empty());
                assert(values_map(values@.drop_last()) =~= Map::<Seq<char>, V>::empty());
                assert(values_map(values@) =~= Map::<Seq<char>, V>::empty().insert(key.name(), value));
                let child_env = EnvImpl { parent: Some(shared), values };
                let e = Environment(Arc::new(child_env));
                assert(e@ =~= old_map.insert(key.name(), value));
                e
            },
        }
    }

    /// Returns the value corresponding to the key.
    pub fn get(&self, key: EnvKey<V>) -> (r: Option<V>)
        ensures
            r is Some == self@.dom().contains(key.name()),
            r is Some ==> cloned(self@[key.name()], r->0),
    {
        self.0.get(key.key)
    }

    /// The environment `with` placed over this one: its values, and those of
    /// this environment that it does not redefine.
    pub fn merged(&self, with: Environment<V>) -> (e: Environment<V>)
        ensures
            e@ == self@.union_prefer_right(with@),
        decreases with.depth(),
    {
        let ghost with_map = with@;
        let mut inner = match arc_try_unwrap(with.0) {
            Ok(env) => env,
            Err(shared) => EnvImpl { parent: shared.clone_parent(), values: shared.clone_values() },
        };
        assert(inner.map() =~= with_map);
        let parent = inner.parent.take();
        match parent {
            Some(parent) => {
                let tmp = self.merged(Environment(parent));
                inner.parent = Some(tmp.0);
                let e = Environment(Arc::new(inner));
                assert(e@ =~= self@.union_prefer_right(with_map));
                e
            },
            None => {
                inner.parent = Some(arc_clone(&self.0));
                let e = Environment(Arc::new(inner));
                assert(e@ =~= self@.union_prefer_right(with_map));
                e
            },
        }
    }
}

impl<V> EnvImpl<V> {
    /// Another owner of the layer below, if any.
    fn clone_parent(&self) -> (p: Option<Arc<EnvImpl<V>>>)
        ensures
            p == self.parent,
    {
        match &self.parent {
            Some(parent) => Some(arc_clone(parent)),
            None => None,
        }
    }

    /// A copy of the layer's own entries, sharing the values.
    fn clone_values(&self) -> (v: Vec<(String, Arc<V>)>)
        ensures
            v@ == self.values@,
    {
        let mut v: Vec<(String, Arc<V>)> = Vec::new();
        let mut i: usize = 0;
        while i < self.values.len()
            invariant
                i <= self.values@.len(),
                v@ == self.values@.take(i as int),
            decreases self.values@.len() - i,
        {
            let name = self.values[i].0.clone();
            let value = arc_clone(&self.values[i].1);
            v.push((name, value));
            assert(v@ =~= self.values@.take(i + 1));
            i = i + 1;
        }
        assert(v@ =~= self.values@);
        v
    }
}

/// Whether two strings are equal, compared byte by byte.
fn str_equal(a: &str, b: &str) -> (r: bool)
    ensures
        r == (a@ == b@),
{
    a.to_owned() == b.to_owned()
}

/// A value added to an environment is what the new environment gives for its
/// key, and every other key keeps the value it had.
pub proof fn law_get_after_add<V>(before: Map<Seq<char>, V>, after: Map<Seq<char>, V>, key: Seq<char>, value: V, other: Seq<char>)
    requires
        after == before.insert(key, value),
    ensures
        after.dom().contains(key),
        after[key] == value,
        other != key ==> (after.dom().contains(other) == before.dom().contains(other)),
        other != key && before.dom().contains(other) ==> after[other] == before[other],
{
}

/// In a merged environment, the values of the environment merged in win; the
/// other keys keep the values of the base environment.
pub proof fn law_merged_lookup<V>(base: Map<Seq<char>, V>, with: Map<Seq<char>, V>, merged: Map<Seq<char>, V>, key: Seq<char>)
    requires
        merged == base.union_prefer_right(with),
    ensures
        merged.dom().contains(key) == (base.dom().contains(key) || with.dom().contains(key)),
        with.dom().contains(key) ==> merged[key] == with[key],
        !with.dom().contains(key) && base.dom().contains(key) ==> merged[key] == base[key],
{
}

} // verus!
