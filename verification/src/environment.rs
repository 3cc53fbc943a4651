//! Variable scopes for the tree-walking interpreter: a chain of scopes, the
//! innermost last, each binding names to values.  A new scope is opened over
//! the current one for a block, a loop iteration or a call, and dropped when
//! it ends; a name is looked up from the innermost scope outwards, and an
//! assignment changes the innermost binding of the name.
use vstd::prelude::*;

verus! {

broadcast use vstd::string::group_string_axioms;

/// The bindings of one scope, by name.
pub open spec fn scope_map<V>(s: Seq<(String, V)>) -> Map<Seq<char>, V> {
    Map::new(
        |k: Seq<char>| exists|i: int| 0 <= i < s.len() && #[trigger] s[i].0@ == k,
        |k: Seq<char>| s[choose|i: int| 0 <= i < s.len() && #[trigger] s[i].0@ == k].1,
    )
}

/// No name is bound twice in a scope.
pub open spec fn unique_names<V>(s: Seq<(String, V)>) -> bool {
    forall|i: int, j: int| 0 <= i < s.len() && 0 <= j < s.len() && #[trigger] s[i].0@ == #[trigger] s[j].0@ ==> i == j
}

/// The value of `k` in the innermost scope that binds it.
pub open spec fn lookup<V>(scopes: Seq<Map<Seq<char>, V>>, k: Seq<char>) -> Option<V>
    decreases scopes.len(),
{
    if scopes.len() == 0 {
        None
    } else if scopes.last().contains_key(k) {
        Some(scopes.last()[k])
    } else {
        lookup(scopes.drop_last(), k)
    }
}

/// The scopes after `k` is set to `v` in the innermost scope that binds it,
/// or `None` if no scope binds it.
pub open spec fn assigned<V>(scopes: Seq<Map<Seq<char>, V>>, k: Seq<char>, v: V) -> Option<Seq<Map<Seq<char>, V>>>
    decreases scopes.len(),
{
    if scopes.len() == 0 {
        None
    } else if scopes.last().contains_key(k) {
        Some(scopes.drop_last().push(scopes.last().insert(k, v)))
    } else {
        match assigned(scopes.drop_last(), k, v) {
            Some(outer) => Some(outer.push(scopes.last())),
            None => None,
        }
    }
}

/// The text of the error for assigning an unbound name.
pub open spec fn undefined_message(name: Seq<char>) -> Seq<char> {
    "Undefined variable '"@ + name + "'. Cannot assign."@
}

/// A chain of scopes; there is always at least one.
pub struct Environment<V> {
    scopes: Vec<Vec<(String, V)>>,
}

impl<V> Environment<V> {
    /// The scopes, outermost first, as maps from names to values.
    pub closed spec fn scopes(&self) -> Seq<Map<Seq<char>, V>> {
        Seq::new(self.scopes@.len(), |i: int| scope_map(self.scopes@[i]@))
    }

    pub closed spec fn wf(&self) -> bool {
        &&& self.scopes@.len() > 0
        &&& forall|i: int| 0 <= i < self.scopes@.len() ==> unique_names(#[trigger] self.scopes@[i]@)
    }

    /// The global scope, in which `print` is bound to the given builtin.
    pub fn new(print: V) -> (env: Self)
        ensures
            env.wf(),
            env.scopes() == seq![Map::<Seq<char>, V>::empty().insert("print"@, print)],
    {
        let mut scopes: Vec<Vec<(String, V)>> = Vec::new();
        scopes.push(Vec::new());
        let mut env = Environment { scopes };
        assert(scope_map(env.scopes@[0]@) =~= Map::<Seq<char>, V>::empty());
        assert(env.scopes() =~= seq![Map::<Seq<char>, V>::empty()]);
        let name = "print".to_string();
        env.define(name, print);
        assert(env.scopes() =~= seq![Map::<Seq<char>, V>::empty().insert("print"@, print)]);
        env
    }

    /// A new, empty scope inside `parent`.
    pub fn with_parent(parent: Self) -> (env: Self)
        requires
            parent.wf(),
        ensures
            env.wf(),
            env.scopes() == parent.scopes().push(Map::empty()),
    {
        let mut scopes = parent.scopes;
        scopes.push(Vec::new());
        let env = Environment { scopes };
        assert(scope_map(env.scopes@.last()@) =~= Map::<Seq<char>, V>::empty());
        assert(env.scopes() =~= parent.scopes().push(Map::empty()));
        env
    }

    /// The scope around the innermost one; the outermost scope has none and
    /// stays as it is.
    pub fn into_parent(self) -> (env: Self)
        requires
            self.wf(),
        ensures
            env.wf(),
            env.scopes() == if self.scopes().len() > 1 {
                self.scopes().drop_last()
            } else {
                self.scopes()
            },
    {
        let mut scopes = self.scopes;
        if scopes.len() > 1 {
            scopes.pop();
        }
        let env = Environment { scopes };
        assert(env.scopes() =~= if self.scopes().len() > 1 {
            self.scopes().drop_last()
        } else {
            self.scopes()
        });
        env
    }

    /// A well-formed chain has at least one scope.
    pub proof fn lemma_has_scope(&self)
        requires
            self.wf(),
        ensures
            self.scopes().len() > 0,
    {
    }

    /// Opens a new, empty scope inside the current ones.
    pub fn open_scope(&mut self)
        requires
            old(self).wf(),
        ensures
            final(self).wf(),
            final(self).scopes() == old(self).scopes().push(Map::empty()),
    {
        self.scopes.push(Vec::new());
        assert(scope_map(self.scopes@.last()@) =~= Map::<Seq<char>, V>::empty());
        assert(self.scopes() =~= old(self).scopes().push(Map::empty()));
    }

    /// Closes the innermost scope; the outermost scope stays.
    pub fn close_scope(&mut self)
        requires
            old(self).wf(),
        ensures
            final(self).wf(),
            final(self).scopes() == if old(self).scopes().len() > 1 {
                old(self).scopes().drop_last()
            } else {
                old(self).scopes()
            },
    {
        if self.scopes.len() > 1 {
            self.scopes.pop();
        }
        assert(self.scopes() =~= if old(self).scopes().len() > 1 {
            old(self).scopes().drop_last()
        } else {
            old(self).scopes()
        });
    }

    /// The position of `name` in scope `s`, if it binds it.
    fn find_in(&self, s: usize, name: &String) -> (r: Option<usize>)
        requires
            self.wf(),
            s < self.scopes@.len(),
        ensures
            match r {
                Some(i) => i < self.scopes@[s as int]@.len() && self.scopes@[s as int]@[i as int].0@ == name@,
                None => !scope_map(self.scopes@[s as int]@).contains_key(name@),
            },
    {
        let scope = &self.scopes[s];
        let mut i: usize = 0;
        while i < scope.len()
            invariant
                s < self.scopes@.len(),
                *scope == self.scopes@[s as int],
                i <= scope@.len(),
                forall|j: int| 0 <= j < i ==> #[trigger] scope@[j].0@ != name@,
            decreases scope@.len() - i,
        {
            if scope[i].0 == *name {
                return Some(i);
            }
            i = i + 1;
        }
        None
    }

    /// Binds `name` to `value` in the innermost scope, replacing a binding
    /// of the name there.
    pub fn define(&mut self, name: String, value: V)
        requires
            old(self).wf(),
        ensures
            final(self).wf(),
            final(self).scopes() == old(self).scopes().update(
                old(self).scopes().len() - 1,
                old(self).scopes().last().insert(name@, value),
            ),
    {
        let top = self.scopes.len() - 1;
        let found = self.find_in(top, &name);
        let ghost outer = self.scopes@;
        let mut scope = self.scopes.remove(top);
        let ghost before = scope@;
        let ghost k = name@;
        let ghost pos: int;
        match found {
            Some(i) => {
                scope.set(i, (name, value));
                proof {
                    pos = i as int;
                }
            },
            None => {
                scope.push((name, value));
                proof {
                    pos = before.len() as int;
                }
            },
        }
        proof {
            assert(0 <= pos < scope@.len() && scope@[pos].0@ == k && scope@[pos].1 == value);
            assert(forall|j: int| 0 <= j < scope@.len() && j != pos ==> #[trigger] scope@[j] == before[j]);
            assert(unique_names(before));
            assert(unique_names(scope@));
            let m0 = scope_map(before);
            let m1 = scope_map(scope@);
            assert forall|key: Seq<char>| #[trigger] m1.contains_key(key) <==> m0.insert(k, value).contains_key(key) by {
                if m0.contains_key(key) && key != k {
                    let j = choose|j: int| 0 <= j < before.len() && #[trigger] before[j].0@ == key;
                    assert(j != pos);
                    assert(scope@[j] == before[j]);
                }
                if key == k {
                    assert(scope@[pos].0@ == key);
                }
                if m1.contains_key(key) && key != k {
                    let j = choose|j: int| 0 <= j < scope@.len() && #[trigger] scope@[j].0@ == key;
                    assert(j != pos);
                    assert(before[j].0@ == key);
                }
            }
            assert forall|key: Seq<char>| #[trigger] m1.contains_key(key) implies m1[key] == m0.insert(k, value)[key] by {
                let j = choose|j: int| 0 <= j < scope@.len() && #[trigger] scope@[j].0@ == key;
                if key != k {
                    assert(j != pos);
                    assert(before[j] == scope@[j]);
                    let j0 = choose|j0: int| 0 <= j0 < before.len() && #[trigger] before[j0].0@ == key;
                    assert(j0 == j);
                } else {
                    assert(j == pos);
                }
            }
            assert(m1 =~= m0.insert(k, value));
        }
        self.scopes.insert(top, scope);
        proof {
            assert(self.scopes@ =~= outer.update(top as int, scope));
            assert(self.scopes() =~= old(self).scopes().update(
                old(self).scopes().len() - 1,
                old(self).scopes().last().insert(k, value),
            ));
        }
    }

    /// The value of `name` in the innermost scope that binds it.
    pub fn get(&self, name: &str) -> (r: Option<&V>)
        requires
            self.wf(),
        ensures
            match r {
                Some(v) => lookup(self.scopes(), name@) == Some(*v),
                None => lookup(self.scopes(), name@) is None,
            },
    {
        let key = name.to_owned();
        let mut s = self.scopes.len();
        assert(self.scopes().subrange(0, s as int) =~= self.scopes());
        while s > 0
            invariant
                self.wf(),
                s <= self.scopes@.len(),
                key@ == name@,
                lookup(self.scopes(), name@) == lookup(self.scopes().subrange(0, s as int), name@),
            decreases s,
        {
            let ghost prefix = self.scopes().subrange(0, s as int);
            assert(prefix.last() == self.scopes()[s - 1]);
            assert(prefix.drop_last() =~= self.scopes().subrange(0, s - 1));
            match self.find_in(s - 1, &key) {
                Some(i) => {
                    proof {
                        let m = scope_map(self.scopes@[s - 1]@);
                        assert(m.contains_key(name@));
                        let j = choose|j: int| 0 <= j < self.scopes@[s - 1]@.len() && #[trigger] self.scopes@[s - 1]@[j].0@ == name@;
                        assert(j == i);
                    }
                    return Some(&self.scopes[s - 1][i].1);
                },
                None => {},
            }
            s = s - 1;
        }
        assert(self.scopes().subrange(0, 0) =~= Seq::<Map<Seq<char>, V>>::empty());
        None
    }

    /// Sets `name` to `value` in the innermost scope that binds it; where
    /// no scope binds it, nothing changes and the error says so.
    pub fn assign(&mut self, name: &str, value: V) -> (r: Result<(), String>)
        requires
            old(self).wf(),
        ensures
            final(self).wf(),
            match assigned(old(self).scopes(), name@, value) {
                Some(scopes) => r is Ok && final(self).scopes() == scopes,
                None => r matches Err(e) && e@ == undefined_message(name@) && final(self).scopes() == old(self).scopes(),
            },
    {
        let key = name.to_owned();
        let mut s = self.scopes.len();
        while s > 0
            invariant
                self.wf(),
                *self == *old(self),
                s <= self.scopes@.len(),
                key@ == name@,
                forall|t: int| s <= t < self.scopes@.len() ==> !(#[trigger] self.scopes()[t]).contains_key(name@),
            decreases s,
        {
            match self.find_in(s - 1, &key) {
                Some(i) => {
                    let ghost old_scopes = self.scopes();
                    let top = s - 1;
                    let ghost outer = self.scopes@;
                    let mut scope = self.scopes.remove(top);
                    let ghost before = scope@;
                    scope.set(i, (key, value));
                    proof {
                        assert(unique_names(before));
                        assert(unique_names(scope@));
                        let k = name@;
                        let m0 = scope_map(before);
                        let m1 = scope_map(scope@);
                        assert forall|kk: Seq<char>| #[trigger] m1.contains_key(kk) <==> m0.insert(k, value).contains_key(kk) by {
                            if m0.contains_key(kk) && kk != k {
                                let j = choose|j: int| 0 <= j < before.len() && #[trigger] before[j].0@ == kk;
                                assert(scope@[j] == before[j]);
                            }
                            if kk == k {
                                assert(scope@[i as int].0@ == kk);
                            }
                            if m1.contains_key(kk) && kk != k {
                                let j = choose|j: int| 0 <= j < scope@.len() && #[trigger] scope@[j].0@ == kk;
                                assert(j != i);
                                assert(before[j].0@ == kk);
                            }
                        }
                        assert forall|kk: Seq<char>| #[trigger] m1.contains_key(kk) implies m1[kk] == m0.insert(k, value)[kk] by {
                            let j = choose|j: int| 0 <= j < scope@.len() && #[trigger] scope@[j].0@ == kk;
                            if kk != k {
                                assert(j != i);
                                assert(before[j] == scope@[j]);
                                let j0 = choose|j0: int| 0 <= j0 < before.len() && #[trigger] before[j0].0@ == kk;
                                assert(j0 == j);
                            } else {
                                assert(j == i);
                            }
                        }
                        assert(m1 =~= m0.insert(k, value));
                    }
                    self.scopes.insert(top, scope);
                    proof {
                        assert(self.scopes@ =~= outer.update(top as int, scope));
                        lemma_assigned_at(old_scopes, top as int, name@, value);
                        assert(self.scopes() =~= old_scopes.update(top as int, old_scopes[top as int].insert(name@, value)));
                    }
                    return Ok(());
                },
                None => {},
            }
            s = s - 1;
        }
        proof {
            lemma_assigned_none(self.scopes(), name@, value);
        }
        let mut e = String::new();
        crate::text::push_str(&mut e, "Undefined variable '");
        crate::text::push_str(&mut e, name);
        crate::text::push_str(&mut e, "'. Cannot assign.");
        Err(e)
    }
}

/// Where the scopes above `t` do not bind `k` and scope `t` does, the
/// assignment changes scope `t`.
proof fn lemma_assigned_at<V>(scopes: Seq<Map<Seq<char>, V>>, t: int, k: Seq<char>, v: V)
    requires
        0 <= t < scopes.len(),
        scopes[t].contains_key(k),
        forall|u: int| t < u < scopes.len() ==> !(#[trigger] scopes[u]).contains_key(k),
    ensures
        assigned(scopes, k, v) == Some(scopes.update(t, scopes[t].insert(k, v))),
    decreases scopes.len(),
{
    if t == scopes.len() - 1 {
        assert(scopes.drop_last().push(scopes.last().insert(k, v)) =~= scopes.update(t, scopes[t].insert(k, v)));
    } else {
        let inner = scopes.drop_last();
        assert forall|u: int| t < u < inner.len() implies !(#[trigger] inner[u]).contains_key(k) by {
            assert(inner[u] == scopes[u]);
        }
        lemma_assigned_at(inner, t, k, v);
        assert(inner.update(t, inner[t].insert(k, v)).push(scopes.last()) =~= scopes.update(t, scopes[t].insert(k, v)));
    }
}

/// Where no scope binds `k`, there is nothing to assign.
proof fn lemma_assigned_none<V>(scopes: Seq<Map<Seq<char>, V>>, k: Seq<char>, v: V)
    requires
        forall|u: int| 0 <= u < scopes.len() ==> !(#[trigger] scopes[u]).contains_key(k),
    ensures
        assigned(scopes, k, v) is None,
    decreases scopes.len(),
{
    if scopes.len() > 0 {
        let inner = scopes.drop_last();
        assert(!scopes[scopes.len() - 1].contains_key(k));
        assert forall|u: int| 0 <= u < inner.len() implies !(#[trigger] inner[u]).contains_key(k) by {
            assert(inner[u] == scopes[u]);
        }
        lemma_assigned_none(inner, k, v);
    }
}

/// A name just defined reads back as the value it was given.
pub proof fn lemma_define_then_get<V>(scopes: Seq<Map<Seq<char>, V>>, k: Seq<char>, v: V)
    requires
        scopes.len() > 0,
    ensures
        lookup(scopes.update(scopes.len() - 1, scopes.last().insert(k, v)), k) == Some(v),
{
    let s2 = scopes.update(scopes.len() - 1, scopes.last().insert(k, v));
    assert(s2.last() == scopes.last().insert(k, v));
}

/// A name just assigned reads back as the value it was given.
pub proof fn lemma_assign_then_get<V>(scopes: Seq<Map<Seq<char>, V>>, k: Seq<char>, v: V)
    requires
        assigned(scopes, k, v) is Some,
    ensures
        lookup(assigned(scopes, k, v)->0, k) == Some(v),
    decreases scopes.len(),
{
    if !scopes.last().contains_key(k) {
        let outer = assigned(scopes.drop_last(), k, v)->0;
        lemma_assign_then_get(scopes.drop_last(), k, v);
        assert(outer.push(scopes.last()).drop_last() =~= outer);
    } else {
        let s2 = scopes.drop_last().push(scopes.last().insert(k, v));
        assert(s2.last() == scopes.last().insert(k, v));
    }
}

/// A new scope sees every binding of the scopes around it.
pub proof fn lemma_new_scope_sees_outer<V>(scopes: Seq<Map<Seq<char>, V>>, k: Seq<char>)
    ensures
        lookup(scopes.push(Map::empty()), k) == lookup(scopes, k),
{
    assert(scopes.push(Map::empty()).drop_last() =~= scopes);
}

/// Closing a scope just opened gives back the scopes there were.
pub proof fn lemma_scope_round_trip<V>(scopes: Seq<Map<Seq<char>, V>>)
    ensures
        scopes.push(Map::empty()).drop_last() == scopes,
{
    assert(scopes.push(Map::empty()).drop_last() =~= scopes);
}

} // verus!
