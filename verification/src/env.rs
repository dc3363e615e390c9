//! The interpreter's and type checker's name table: one flat mutable
//! mapping from names to values, with no scoping. Binding a name again
//! replaces what it meant before.

use crate::chars::str_eq;
use vstd::prelude::*;

verus! {

/// The mapping denoted by a pair list: later pairs override earlier ones.
pub open spec fn map_of<V: View>(ps: Seq<(String, V)>) -> Map<Seq<char>, V::V>
    decreases ps.len(),
{
    if ps.len() == 0 {
        Map::empty()
    } else {
        map_of(ps.drop_last()).insert(ps.last().0@, ps.last().1@)
    }
}

/// If no pair at or beyond `i` holds the key, the pairs before `i` decide
/// the lookup.
proof fn lemma_map_of_skip<V: View>(ps: Seq<(String, V)>, key: Seq<char>, i: int)
    requires
        0 <= i <= ps.len(),
        forall|j: int| i <= j < ps.len() ==> (#[trigger] ps[j]).0@ != key,
    ensures
        map_of(ps).contains_key(key) == map_of(ps.take(i)).contains_key(key),
        map_of(ps).contains_key(key) ==> map_of(ps)[key] == map_of(ps.take(i))[key],
    decreases ps.len() - i,
{
    if i < ps.len() {
        lemma_map_of_skip(ps, key, i + 1);
        assert(ps.take(i + 1).drop_last() =~= ps.take(i));
        assert(ps.take(i + 1).last() == ps[i]);
    } else {
        assert(ps.take(ps.len() as int) =~= ps);
    }
}

/// A name table backed by a pair list; its view is the mapping the list
/// denotes.
pub struct Env<V> {
    pairs: Vec<(String, V)>,
}

impl<V: View> View for Env<V> {
    type V = Map<Seq<char>, V::V>;

    closed spec fn view(&self) -> Map<Seq<char>, V::V> {
        map_of(self.pairs@)
    }
}

impl<V: View> Env<V> {
    /// An empty table.
    pub fn new() -> (r: Env<V>)
        ensures
            r@ == Map::<Seq<char>, V::V>::empty(),
    {
        Env { pairs: Vec::new() }
    }

    /// Binds `name`, replacing any earlier binding of it.
    pub fn insert(&mut self, name: String, v: V)
        ensures
            final(self)@ == old(self)@.insert(name@, v@),
    {
        let ghost pre = self.pairs@;
        self.pairs.push((name, v));
        proof {
            assert(self.pairs@.drop_last() =~= pre);
        }
    }

    /// The value bound to `name`, if any.
    pub fn get(&self, name: &str) -> (r: Option<&V>)
        ensures
            match r {
                Option::Some(v) => self@.contains_key(name@) && v@ == self@[name@],
                Option::None => !self@.contains_key(name@),
            },
    {
        let ghost ps = self.pairs@;
        let mut i: usize = self.pairs.len();
        loop
            invariant
                ps == self.pairs@,
                i <= ps.len(),
                forall|j: int| i <= j < ps.len() ==> (#[trigger] ps[j]).0@ != name@,
            ensures
                ps == self.pairs@,
                i <= ps.len(),
                forall|j: int| i <= j < ps.len() ==> (#[trigger] ps[j]).0@ != name@,
                i == 0,
            decreases i,
        {
            if i == 0 {
                break;
            }
            if str_eq(self.pairs[i - 1].0.as_str(), name) {
                proof {
                    lemma_map_of_skip(ps, name@, i as int);
                    assert(ps.take(i as int).drop_last() =~= ps.take(i as int - 1));
                    assert(ps.take(i as int).last() == ps[i as int - 1]);
                }
                return Option::Some(&self.pairs[i - 1].1);
            }
            i = i - 1;
        }
        proof {
            lemma_map_of_skip(ps, name@, 0);
            assert(ps.take(0) =~= Seq::<(String, V)>::empty());
        }
        Option::None
    }
}

} // verus!
