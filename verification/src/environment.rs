//! The variable-binding environment: one flat table mapping a name to its
//! current value and, optionally, the type it was declared with. Entries are
//! created by declaration (which overwrites any prior binding, including its
//! type), mutated by assignment, and never removed.
//!
//! The table is a vector of entries with pairwise distinct names; its
//! mathematical view is a `Map` from the name's characters to the pair of
//! value view and declared type.

use vstd::prelude::*;

use crate::ast::Type;
use crate::value::ErrorView;
use crate::value::RuntimeError;
use crate::value::Value;
use crate::value::ValueView;
use crate::value::type_matches;

verus! {

/// One binding: name, current value, declared type (`None` means the binding
/// is dynamically typed).
pub type Binding = (String, Value, Option<Type>);

/// The single source of truth for variable state during one run.
pub struct Environment {
    entries: Vec<Binding>,
}

/// The map holding the bindings of `s`, later entries of one name shadowing
/// earlier ones (with distinct names nothing shadows).
pub open spec fn entries_map(s: Seq<Binding>) -> Map<Seq<char>, (ValueView, Option<Type>)>
    decreases s.len(),
{
    if s.len() == 0 {
        Map::empty()
    } else {
        entries_map(s.drop_last()).insert(s.last().0@, (s.last().1@, s.last().2))
    }
}

impl View for Environment {
    type V = Map<Seq<char>, (ValueView, Option<Type>)>;

    closed spec fn view(&self) -> Map<Seq<char>, (ValueView, Option<Type>)> {
        entries_map(self.entries@)
    }
}

/// A key is in the map exactly when some entry bears it.
proof fn lemma_map_domain(s: Seq<Binding>)
    ensures
        forall|k: Seq<char>|
            entries_map(s).dom().contains(k) <==> exists|i: int| 0 <= i < s.len() && s[i].0@ == k,
    decreases s.len(),
{
    if s.len() > 0 {
        lemma_map_domain(s.drop_last());
        assert forall|k: Seq<char>| entries_map(s).dom().contains(k) implies exists|i: int|
            0 <= i < s.len() && s[i].0@ == k by {
            if k == s.last().0@ {
                assert(s[s.len() - 1].0@ == k);
            } else {
                assert(entries_map(s) == entries_map(s.drop_last()).insert(
                    s.last().0@,
                    (s.last().1@, s.last().2),
                ));
                assert(entries_map(s.drop_last()).dom().contains(k));
                let i = choose|i: int| 0 <= i < s.drop_last().len() && s.drop_last()[i].0@ == k;
                assert(s[i].0@ == k);
            }
        }
        assert forall|k: Seq<char>| (exists|i: int| 0 <= i < s.len() && s[i].0@ == k) implies
            entries_map(s).dom().contains(k) by {
            let i = choose|i: int| 0 <= i < s.len() && s[i].0@ == k;
            if i < s.len() - 1 {
                assert(s.drop_last()[i].0@ == k);
            }
        }
    }
}

/// With pairwise distinct names, the map sends each entry's name to that
/// entry's value and type.
proof fn lemma_map_at_index(s: Seq<Binding>, i: int)
    requires
        distinct_names(s),
        0 <= i < s.len(),
    ensures
        entries_map(s).dom().contains(s[i].0@),
        entries_map(s)[s[i].0@] == (s[i].1@, s[i].2),
    decreases s.len(),
{
    if i < s.len() - 1 {
        assert(distinct_names(s.drop_last()));
        lemma_map_at_index(s.drop_last(), i);
        assert(s[i].0@ != s.last().0@);
    }
}

/// Pairwise distinct names.
pub open spec fn distinct_names(s: Seq<Binding>) -> bool {
    forall|i: int, j: int| 0 <= i < j < s.len() ==> s[i].0@ != s[j].0@
}

/// Replacing the entry at `i` by one with the same name updates the map at
/// that name.
proof fn lemma_map_update(s: Seq<Binding>, i: int, e: Binding)
    requires
        distinct_names(s),
        0 <= i < s.len(),
        e.0@ == s[i].0@,
    ensures
        entries_map(s.update(i, e)) =~= entries_map(s).insert(e.0@, (e.1@, e.2)),
    decreases s.len(),
{
    let su = s.update(i, e);
    if i == s.len() - 1 {
        assert(su.drop_last() =~= s.drop_last());
        assert(su.last() == e);
    } else {
        assert(distinct_names(s.drop_last()));
        assert(su.drop_last() =~= s.drop_last().update(i, e));
        lemma_map_update(s.drop_last(), i, e);
        assert(su.last() == s.last());
        assert(s.last().0@ != e.0@);
    }
}

impl Environment {
    /// Names of the stored entries are pairwise distinct.
    pub closed spec fn wf(&self) -> bool {
        distinct_names(self.entries@)
    }

    /// A fresh, empty environment.
    pub fn new() -> (r: Environment)
        ensures
            r.wf(),
            r@ == Map::<Seq<char>, (ValueView, Option<Type>)>::empty(),
    {
        Environment { entries: Vec::new() }
    }

    /// The position of the entry named `name`, if any.
    fn find_index(&self, name: &String) -> (r: Option<usize>)
        ensures
            match r {
                Some(i) => i < self.entries@.len() && self.entries@[i as int].0@ == name@,
                None => forall|j: int| 0 <= j < self.entries@.len() ==> self.entries@[j].0@ != name@,
            },
    {
        let n = self.entries.len();
        let mut i: usize = 0;
        while i < n
            invariant
                n == self.entries@.len(),
                i <= n,
                forall|j: int| 0 <= j < i ==> self.entries@[j].0@ != name@,
            decreases n - i,
        {
            if self.entries[i].0.eq(name) {
                return Some(i);
            }
            i = i + 1;
        }
        None
    }

    /// Unconditional insert-or-overwrite: binds `name` to `value` with the
    /// declared type `value_type`, discarding any prior binding and its type.
    pub fn define(&mut self, name: String, value: Value, value_type: Option<Type>)
        requires
            old(self).wf(),
        ensures
            final(self).wf(),
            final(self)@ == old(self)@.insert(name@, (value@, value_type)),
    {
        let ghost s0 = self.entries@;
        match self.find_index(&name) {
            Some(i) => {
                proof {
                    lemma_map_update(s0, i as int, (name, value, value_type));
                }
                self.entries.remove(i);
                self.entries.insert(i, (name, value, value_type));
                proof {
                    assert(self.entries@ =~= s0.update(i as int, (name, value, value_type)));
                    assert(distinct_names(self.entries@));
                }
            },
            None => {
                self.entries.push((name, value, value_type));
                proof {
                    assert(self.entries@.drop_last() =~= s0);
                    assert(distinct_names(self.entries@));
                }
            },
        }
    }

    /// Overwrite the value of an existing binding, keeping its declared
    /// type. Fails with `UndeclaredVariable` when `name` has no binding, and
    /// with `TypeMismatch` when the binding's declared type does not match
    /// the new value's variant; on failure nothing changes.
    pub fn assign(&mut self, name: String, value: Value) -> (r: Result<(), RuntimeError>)
        requires
            old(self).wf(),
        ensures
            final(self).wf(),
            match r {
                Ok(()) => {
                    &&& old(self)@.dom().contains(name@)
                    &&& match old(self)@[name@].1 {
                        None => true,
                        Some(t) => type_matches(value@, t),
                    }
                    &&& final(self)@ == old(self)@.insert(name@, (value@, old(self)@[name@].1))
                },
                Err(e) => {
                    &&& final(self)@ == old(self)@
                    &&& match e@ {
                        ErrorView::UndeclaredVariable(n) => n == name@ && !old(
                            self,
                        )@.dom().contains(name@),
                        ErrorView::TypeMismatch(n) => {
                            &&& n == name@
                            &&& old(self)@.dom().contains(name@)
                            &&& old(self)@[name@].1 is Some
                            &&& !type_matches(value@, old(self)@[name@].1->0)
                        },
                        ErrorView::InvalidComparison => false,
                    }
                },
            },
    {
        let ghost s0 = self.entries@;
        proof {
            lemma_map_domain(s0);
        }
        match self.find_index(&name) {
            Some(i) => {
                proof {
                    lemma_map_at_index(s0, i as int);
                }
                let matches = match (&self.entries[i].2, &value) {
                    (None, _) => true,
                    (Some(Type::String), Value::StringLiteral(_)) => true,
                    (Some(Type::Int), Value::NumberLiteral(_)) => true,
                    (Some(Type::Boolean), Value::BooleanLiteral(_)) => true,
                    _ => false,
                };
                if matches {
                    let ty = self.entries[i].2;
                    proof {
                        lemma_map_update(s0, i as int, (name, value, ty));
                    }
                    self.entries.remove(i);
                    self.entries.insert(i, (name, value, ty));
                    proof {
                        assert(self.entries@ =~= s0.update(i as int, (name, value, ty)));
                        assert(distinct_names(self.entries@));
                    }
                    Ok(())
                } else {
                    Err(RuntimeError::TypeMismatch(name))
                }
            },
            None => Err(RuntimeError::UndeclaredVariable(name)),
        }
    }

    /// The current value of the binding named `name`; fails with
    /// `UndeclaredVariable` when there is none.
    pub fn get(&self, name: &str) -> (r: Result<Value, RuntimeError>)
        requires
            self.wf(),
        ensures
            match r {
                Ok(v) => self@.dom().contains(name@) && v@ == self@[name@].0,
                Err(e) => !self@.dom().contains(name@) && e@ == ErrorView::UndeclaredVariable(
                    name@,
                ),
            },
    {
        proof {
            lemma_map_domain(self.entries@);
        }
        let key = name.to_owned();
        match self.find_index(&key) {
            Some(i) => {
                proof {
                    lemma_map_at_index(self.entries@, i as int);
                }
                Ok(self.entries[i].1.clone())
            },
            None => Err(RuntimeError::UndeclaredVariable(key)),
        }
    }
}

} // verus!
