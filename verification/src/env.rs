//! The variable environment: a mapping from case-sensitive names to the bit
//! patterns of their IEEE-754 double values, modelled as a `Map` from
//! character sequences to bits.

use vstd::prelude::*;

use crate::ast::str_eq;

verus! {

/// A state of all defined constants and variables. Keys are unique.
pub struct Environment {
    entries: Vec<(String, u64)>,
}

/// The mapping an entry list denotes: later entries win, though with unique
/// keys every key occurs once.
pub open spec fn env_map(entries: Seq<(String, u64)>) -> Map<Seq<char>, u64>
    decreases entries.len(),
{
    if entries.len() == 0 {
        Map::empty()
    } else {
        env_map(entries.drop_last()).insert(entries.last().0@, entries.last().1)
    }
}

/// No two entries share a name.
pub open spec fn keys_distinct(entries: Seq<(String, u64)>) -> bool {
    forall|i: int, j: int| 0 <= i < j < entries.len() ==> entries[i].0@ != entries[j].0@
}

proof fn lemma_env_map_contains(entries: Seq<(String, u64)>, k: Seq<char>)
    ensures
        env_map(entries).contains_key(k) <==> exists|i: int|
            0 <= i < entries.len() && entries[i].0@ == k,
    decreases entries.len(),
{
    if entries.len() > 0 {
        lemma_env_map_contains(entries.drop_last(), k);
        if entries.last().0@ == k {
            assert(entries[entries.len() - 1].0@ == k);
        } else {
            if env_map(entries).contains_key(k) {
                let i = choose|i: int|
                    0 <= i < entries.drop_last().len() && entries.drop_last()[i].0@ == k;
                assert(entries[i].0@ == k);
            }
            if exists|i: int| 0 <= i < entries.len() && entries[i].0@ == k {
                let i = choose|i: int| 0 <= i < entries.len() && entries[i].0@ == k;
                assert(i < entries.len() - 1);
                assert(entries.drop_last()[i].0@ == k);
            }
        }
    }
}

proof fn lemma_env_map_at(entries: Seq<(String, u64)>, i: int)
    requires
        keys_distinct(entries),
        0 <= i < entries.len(),
    ensures
        env_map(entries).contains_key(entries[i].0@),
        env_map(entries)[entries[i].0@] == entries[i].1,
    decreases entries.len(),
{
    if i == entries.len() - 1 {
    } else {
        assert(keys_distinct(entries.drop_last()));
        assert(entries.drop_last()[i] == entries[i]);
        lemma_env_map_at(entries.drop_last(), i);
        assert(entries[i].0@ != entries.last().0@);
    }
}

proof fn lemma_env_map_update(entries: Seq<(String, u64)>, j: int, p: (String, u64))
    requires
        keys_distinct(entries),
        0 <= j < entries.len(),
        entries[j].0@ == p.0@,
    ensures
        env_map(entries.update(j, p)) =~= env_map(entries).insert(p.0@, p.1),
        keys_distinct(entries.update(j, p)),
    decreases entries.len(),
{
    let upd = entries.update(j, p);
    assert(keys_distinct(upd));
    if j == entries.len() - 1 {
        assert(upd.drop_last() =~= entries.drop_last());
        assert(upd.last() == p);
    } else {
        assert(keys_distinct(entries.drop_last()));
        assert(entries.drop_last()[j] == entries[j]);
        lemma_env_map_update(entries.drop_last(), j, p);
        assert(upd.drop_last() =~= entries.drop_last().update(j, p));
        assert(upd.last() == entries.last());
        assert(entries[j].0@ != entries.last().0@);
    }
}

impl Environment {
    /// Well-formedness: no name is bound twice. Constructors establish it and
    /// every method preserves it.
    pub closed spec fn wf(&self) -> bool {
        keys_distinct(self.entries@)
    }

    /// An empty environment.
    pub fn new() -> (r: Environment)
        ensures
            r@ == Map::<Seq<char>, u64>::empty(),
            r.wf(),
    {
        Environment { entries: Vec::new() }
    }

    /// Looks a name up; `None` exactly when the name is unbound.
    pub fn get(&self, name: &str) -> (r: Option<u64>)
        requires
            self.wf(),
        ensures
            r == if self@.contains_key(name@) {
                Some(self@[name@])
            } else {
                None::<u64>
            },
    {
        let n = self.entries.len();
        let mut i: usize = 0;
        while i < n
            invariant
                n == self.entries@.len(),
                i <= n,
                keys_distinct(self.entries@),
                forall|j: int| 0 <= j < i ==> self.entries@[j].0@ != name@,
            decreases n - i,
        {
            if str_eq(self.entries[i].0.as_str(), name) {
                proof {
                    lemma_env_map_at(self.entries@, i as int);
                }
                return Some(self.entries[i].1);
            }
            i = i + 1;
        }
        proof {
            lemma_env_map_contains(self.entries@, name@);
        }
        None
    }

    /// Binds `name` to `v`, overwriting any prior binding.
    pub fn insert(&mut self, name: String, v: u64)
        requires
            old(self).wf(),
        ensures
            final(self)@ == old(self)@.insert(name@, v),
            final(self).wf(),
    {
        let n = self.entries.len();
        let mut i: usize = 0;
        while i < n
            invariant
                self.entries@ == old(self).entries@,
                n == self.entries@.len(),
                i <= n,
                keys_distinct(self.entries@),
                forall|j: int| 0 <= j < i ==> self.entries@[j].0@ != name@,
            decreases n - i,
        {
            if str_eq(self.entries[i].0.as_str(), name.as_str()) {
                proof {
                    lemma_env_map_update(self.entries@, i as int, (name, v));
                }
                self.entries.set(i, (name, v));
                return ;
            }
            i = i + 1;
        }
        proof {
            lemma_env_map_contains(self.entries@, name@);
            assert(!env_map(self.entries@).contains_key(name@));
        }
        let ghost pre = self.entries@;
        self.entries.push((name, v));
        proof {
            assert(self.entries@.drop_last() =~= pre);
            assert(keys_distinct(self.entries@)) by {
                lemma_env_map_contains(pre, self.entries@.last().0@);
            }
        }
    }

    /// An independent copy with the same bindings.
    pub fn duplicate(&self) -> (r: Environment)
        requires
            self.wf(),
        ensures
            r@ == self@,
            r.wf(),
    {
        let n = self.entries.len();
        let mut out: Vec<(String, u64)> = Vec::new();
        let mut i: usize = 0;
        while i < n
            invariant
                n == self.entries@.len(),
                i <= n,
                out@ =~= self.entries@.subrange(0, i as int),
            decreases n - i,
        {
            let name = self.entries[i].0.clone();
            out.push((name, self.entries[i].1));
            assert(out@ =~= self.entries@.subrange(0, i + 1 as int));
            i = i + 1;
        }
        assert(out@ =~= self.entries@);
        Environment { entries: out }
    }
}

impl View for Environment {
    type V = Map<Seq<char>, u64>;

    closed spec fn view(&self) -> Map<Seq<char>, u64> {
        env_map(self.entries@)
    }
}

} // verus!
