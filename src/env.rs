use vstd::prelude::*;
use crate::text::{owned, str_eq};

verus! {

/// The value of the latest binding of `name` in one scope.
pub open spec fn find_binding<V>(s: Seq<(Seq<char>, V)>, name: Seq<char>) -> Option<V>
    decreases s.len(),
{
    if s.len() == 0 {
        None
    } else if s.last().0 == name {
        Some(s.last().1)
    } else {
        find_binding(s.drop_last(), name)
    }
}

/// The value bound to `name`, searched from the innermost scope outward.
pub open spec fn lookup_scopes<V>(scopes: Seq<Seq<(Seq<char>, V)>>, name: Seq<char>) -> Option<V>
    decreases scopes.len(),
{
    if scopes.len() == 0 {
        None
    } else {
        match find_binding(scopes.last(), name) {
            Some(v) => Some(v),
            None => lookup_scopes(scopes.drop_last(), name),
        }
    }
}

/// Scopes after `name` is bound to `v` in the innermost one.
pub open spec fn define_in<V>(scopes: Seq<Seq<(Seq<char>, V)>>, name: Seq<char>, v: V) -> Seq<
    Seq<(Seq<char>, V)>,
> {
    scopes.update(scopes.len() - 1, scopes.last().push((name, v)))
}

/// Scopes after each binding of `bs` is made in the innermost one, in order.
pub open spec fn define_all<V>(scopes: Seq<Seq<(Seq<char>, V)>>, bs: Seq<(Seq<char>, V)>) -> Seq<
    Seq<(Seq<char>, V)>,
>
    decreases bs.len(),
{
    if bs.len() == 0 {
        scopes
    } else {
        define_in(define_all(scopes, bs.drop_last()), bs.last().0, bs.last().1)
    }
}

/// Block scoping: after a scope is pushed, any bindings are made in it and
/// it is popped, the scopes are what they were before, so every lookup
/// gives what it gave before. A binding made inside a block is not visible
/// after it, and one that shadows an outer binding leaves it unchanged.
pub proof fn lemma_block_scoping<V>(scopes: Seq<Seq<(Seq<char>, V)>>, bs: Seq<(Seq<char>, V)>, name: Seq<char>)
    ensures
        define_all(scopes.push(seq![]), bs).drop_last() == scopes,
        lookup_scopes(define_all(scopes.push(seq![]), bs).drop_last(), name) == lookup_scopes(scopes, name),
    decreases bs.len(),
{
    lemma_define_all_keeps_outer(scopes, bs);
    assert(define_all(scopes.push(seq![]), bs).drop_last() =~= scopes);
}

/// Bindings made in the innermost scope leave the outer scopes as they are.
proof fn lemma_define_all_keeps_outer<V>(scopes: Seq<Seq<(Seq<char>, V)>>, bs: Seq<(Seq<char>, V)>)
    ensures
        define_all(scopes.push(seq![]), bs).len() == scopes.len() + 1,
        forall|i: int| 0 <= i < scopes.len() ==> #[trigger] define_all(scopes.push(seq![]), bs)[i] == scopes[i],
    decreases bs.len(),
{
    if bs.len() > 0 {
        lemma_define_all_keeps_outer(scopes, bs.drop_last());
    }
}

/// A scoped symbol table: a stack of scopes, each binding names to values.
#[derive(Debug, Clone)]
pub struct Env<V> {
    scopes: Vec<Vec<(String, V)>>,
}

/// The model of one scope: its bindings in the order they were made.
pub open spec fn scope_model<V>(sc: Seq<(String, V)>) -> Seq<(Seq<char>, V)> {
    sc.map_values(|b: (String, V)| (b.0@, b.1))
}

impl<V> View for Env<V> {
    type V = Seq<Seq<(Seq<char>, V)>>;

    closed spec fn view(&self) -> Seq<Seq<(Seq<char>, V)>> {
        self.scopes@.map_values(|sc: Vec<(String, V)>| scope_model(sc@))
    }
}

impl<V> Env<V> {
    /// There is always a global scope.
    pub open spec fn wf(&self) -> bool {
        self@.len() >= 1
    }

    /// An environment with one empty (global) scope.
    pub fn new() -> (r: Env<V>)
        ensures
            r.wf(),
            r@ == seq![Seq::<(Seq<char>, V)>::empty()],
    {
        let global: Vec<(String, V)> = Vec::new();
        let r = Env { scopes: vec![global] };
        proof {
            assert(r.scopes@ =~= seq![global]);
            assert(scope_model(global@) =~= Seq::<(Seq<char>, V)>::empty());
            assert(r@ =~= seq![Seq::<(Seq<char>, V)>::empty()]);
        }
        r
    }

    /// The number of scopes, the global one included.
    pub fn depth(&self) -> (r: usize)
        ensures
            r == self@.len(),
    {
        self.scopes.len()
    }

    /// Enters a block or a function body.
    pub fn push_scope(&mut self)
        ensures
            final(self)@ == old(self)@.push(seq![]),
    {
        let ghost before = self.scopes@;
        let fresh: Vec<(String, V)> = Vec::new();
        self.scopes.push(fresh);
        proof {
            assert(self.scopes@ == before.push(fresh));
            assert(scope_model(fresh@) =~= seq![]);
            assert(self@ =~= old(self)@.push(seq![]));
        }
    }

    /// Leaves a block or a function body; the global scope is never
    /// popped.
    pub fn pop_scope(&mut self)
        requires
            old(self)@.len() > 1,
        ensures
            final(self)@ == old(self)@.drop_last(),
    {
        let ghost before = self.scopes@;
        self.scopes.pop();
        proof {
            assert(self.scopes@ == before.drop_last());
            assert(self@ =~= old(self)@.drop_last());
        }
    }

    /// Binds `name` to `value` in the innermost scope.
    pub fn define(&mut self, name: &str, value: V)
        requires
            old(self).wf(),
        ensures
            final(self).wf(),
            final(self)@ == define_in(old(self)@, name@, value),
    {
        let ghost before = self.scopes@;
        let mut last = self.scopes.pop().unwrap();
        let ghost last0 = last@;
        last.push((owned(name), value));
        self.scopes.push(last);
        proof {
            assert(scope_model(last@) =~= scope_model(last0).push((name@, value)));
            assert(self@ =~= define_in(old(self)@, name@, value));
        }
    }

    /// The value bound to `name`, searched from the innermost scope
    /// outward.
    pub fn lookup(&self, name: &str) -> (r: Option<&V>)
        ensures
            match r {
                Some(v) => lookup_scopes(self@, name@) == Some(*v),
                None => lookup_scopes(self@, name@) is None,
            },
    {
        let mut k: usize = self.scopes.len();
        proof {
            assert(self@.take(k as int) =~= self@);
        }
        while k > 0
            invariant
                k <= self@.len(),
                lookup_scopes(self@, name@) == lookup_scopes(self@.take(k as int), name@),
            decreases k,
        {
            let sc = &self.scopes[k - 1];
            let ghost m = scope_model(sc@);
            proof {
                assert(self@.take(k as int).last() == m);
                assert(self@.take(k as int).drop_last() =~= self@.take(k - 1));
            }
            let mut j: usize = sc.len();
            proof {
                assert(m.take(j as int) =~= m);
            }
            while j > 0
                invariant
                    0 < k <= self@.len(),
                    lookup_scopes(self@, name@) == lookup_scopes(self@.take(k as int), name@),
                    self@.take(k as int).last() == m,
                    j <= sc@.len(),
                    m == scope_model(sc@),
                    find_binding(m, name@) == find_binding(m.take(j as int), name@),
                decreases j,
            {
                proof {
                    assert(m.take(j as int).drop_last() =~= m.take(j - 1));
                    assert(m.take(j as int).last() == (sc@[j - 1].0@, sc@[j - 1].1));
                }
                if str_eq(sc[j - 1].0.as_str(), name) {
                    return Some(&sc[j - 1].1);
                }
                j = j - 1;
            }
            proof {
                assert(m.take(0) =~= Seq::<(Seq<char>, V)>::empty());
            }
            k = k - 1;
        }
        proof {
            assert(self@.take(0) =~= Seq::<Seq<(Seq<char>, V)>>::empty());
        }
        None
    }
}

} // verus!
