//! Environments from names to values, with scopes that can be closed again.
//!
//! An environment is a log of bindings; a later binding of a name hides an
//! earlier one. Opening a scope remembers the length of the log, closing it
//! cuts the log back to that length, which forgets every binding made inside.

use vstd::prelude::*;

verus! {

/// The map that a log of bindings denotes: the last binding of each name wins.
pub open spec fn bindings<V>(log: Seq<(Seq<char>, V)>) -> Map<Seq<char>, V>
    decreases log.len(),
{
    if log.len() == 0 {
        Map::empty()
    } else {
        bindings(log.drop_last()).insert(log.last().0, log.last().1)
    }
}

/// When no binding at or after position `i` names `k`, the log and its first
/// `i` bindings agree on `k`.
pub proof fn lemma_bindings_prefix<V>(log: Seq<(Seq<char>, V)>, i: int, k: Seq<char>)
    requires
        0 <= i <= log.len(),
        forall|j: int| i <= j < log.len() ==> (#[trigger] log[j]).0 != k,
    ensures
        bindings(log).contains_key(k) == bindings(log.take(i)).contains_key(k),
        bindings(log).contains_key(k) ==> bindings(log)[k] == bindings(log.take(i))[k],
    decreases log.len() - i,
{
    if i < log.len() {
        let shorter = log.drop_last();
        assert(forall|j: int| i <= j < shorter.len() ==> (#[trigger] shorter[j]).0 == log[j].0);
        lemma_bindings_prefix(shorter, i, k);
        assert(shorter.take(i) =~= log.take(i));
    } else {
        assert(log.take(i) =~= log);
    }
}

/// `later` starts with `earlier`.
pub open spec fn extends<T>(later: Seq<T>, earlier: Seq<T>) -> bool {
    &&& earlier.len() <= later.len()
    &&& forall|i: int| 0 <= i < earlier.len() ==> #[trigger] later[i] == earlier[i]
}

pub struct Env<V> {
    entries: Vec<(String, V)>,
}

impl<V: Copy> Env<V> {
    /// The bindings made so far, oldest first.
    pub closed spec fn log(&self) -> Seq<(Seq<char>, V)> {
        self.entries@.map_values(|e: (String, V)| (e.0@, e.1))
    }

    /// The names bound, and their values.
    pub open spec fn map(&self) -> Map<Seq<char>, V> {
        bindings(self.log())
    }

    pub fn new() -> (e: Env<V>)
        ensures
            e.log() == Seq::<(Seq<char>, V)>::empty(),
            e.map() == Map::<Seq<char>, V>::empty(),
    {
        let e = Env { entries: Vec::new() };
        assert(e.log() =~= Seq::<(Seq<char>, V)>::empty());
        e
    }

    /// The number of bindings made so far: a mark to close a scope at.
    pub fn depth(&self) -> (n: usize)
        ensures
            n == self.log().len(),
    {
        self.entries.len()
    }

    /// The value bound to `name`, if any.
    pub fn get(&self, name: &String) -> (r: Option<V>)
        ensures
            r == if self.map().contains_key(name@) {
                Some(self.map()[name@])
            } else {
                None::<V>
            },
    {
        let ghost log = self.log();
        let mut i = self.entries.len();
        while i > 0
            invariant
                i <= self.entries.len(),
                log == self.log(),
                log.len() == self.entries.len(),
                forall|j: int| i <= j < log.len() ==> (#[trigger] log[j]).0 != name@,
            decreases i,
        {
            let found = self.entries[i - 1].0 == *name;
            if found {
                proof {
                    lemma_bindings_prefix(log, i as int, name@);
                    assert(log.take(i as int).drop_last() =~= log.take(i - 1));
                }
                return Some(self.entries[i - 1].1);
            }
            i = i - 1;
        }
        proof {
            lemma_bindings_prefix(log, 0, name@);
            assert(log.take(0) =~= Seq::<(Seq<char>, V)>::empty());
        }
        None
    }

    /// Binds `name` to `value`, hiding any earlier binding of the name.
    pub fn insert(&mut self, name: String, value: V)
        ensures
            final(self).log() == old(self).log().push((name@, value)),
            final(self).map() == old(self).map().insert(name@, value),
    {
        let ghost n = name@;
        self.entries.push((name, value));
        assert(self.log() =~= old(self).log().push((n, value)));
        assert(self.log().drop_last() =~= old(self).log());
    }

    /// Forgets every binding made after the first `n`.
    pub fn truncate(&mut self, n: usize)
        requires
            n <= old(self).log().len(),
        ensures
            final(self).log() == old(self).log().take(n as int),
            forall|earlier: Seq<(Seq<char>, V)>|
                extends(old(self).log(), earlier) && earlier.len() == n ==> final(self).log()
                    == earlier,
    {
        self.entries.truncate(n);
        assert(self.log() =~= old(self).log().take(n as int));
        assert forall|earlier: Seq<(Seq<char>, V)>|
            extends(old(self).log(), earlier) && earlier.len() == n implies self.log()
            == earlier by {
            assert(self.log() =~= earlier);
        }
    }
}

} // verus!
