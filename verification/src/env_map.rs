//! The environment mapping handed to the child process: variable names
//! to values, where a later insertion of the same name overwrites an
//! earlier one.

use vstd::prelude::*;

verus! {

/// The mapping that a sequence of insertions denotes: entries are applied
/// in order, so a later entry with the same name wins.
pub open spec fn map_of_entries(es: Seq<(String, String)>) -> Map<Seq<char>, Seq<char>>
    decreases es.len(),
{
    if es.len() == 0 {
        Map::empty()
    } else {
        map_of_entries(es.drop_last()).insert(es.last().0@, es.last().1@)
    }
}

/// An ordered-irrelevant mapping from environment-variable names to
/// values. Its view is the mathematical map in which the last insertion
/// of a name wins.
pub struct EnvMap {
    entries: Vec<(String, String)>,
}

impl View for EnvMap {
    type V = Map<Seq<char>, Seq<char>>;

    closed spec fn view(&self) -> Map<Seq<char>, Seq<char>> {
        map_of_entries(self.entries@)
    }
}

/// If no entry at or after position `i` has the name `k`, the entries
/// before `i` already decide what the whole list says about `k`.
proof fn lemma_map_of_entries_take(es: Seq<(String, String)>, i: int, k: Seq<char>)
    requires
        0 <= i <= es.len(),
        forall|j: int| i <= j < es.len() ==> (#[trigger] es[j]).0@ != k,
    ensures
        map_of_entries(es).contains_key(k) == map_of_entries(es.take(i)).contains_key(k),
        map_of_entries(es).contains_key(k) ==> map_of_entries(es)[k] == map_of_entries(
            es.take(i),
        )[k],
    decreases es.len() - i,
{
    if i == es.len() {
        assert(es.take(i) =~= es);
    } else {
        lemma_map_of_entries_take(es, i + 1, k);
        assert(es.take(i + 1).drop_last() =~= es.take(i));
        assert(es.take(i + 1).last() == es[i]);
    }
}

impl EnvMap {
    /// The empty mapping.
    pub fn new() -> (r: Self)
        ensures
            r@ == Map::<Seq<char>, Seq<char>>::empty(),
    {
        EnvMap { entries: Vec::new() }
    }

    /// Insert a name/value pair; a pair inserted later for the same name
    /// overwrites this one.
    pub fn insert(&mut self, key: String, value: String)
        ensures
            final(self)@ == old(self)@.insert(key@, value@),
    {
        proof {
            assert(self.entries@.push((key, value)).drop_last() =~= self.entries@);
        }
        self.entries.push((key, value));
    }

    /// Look a name up; the value of the last insertion of that name, if any.
    pub fn get<'a>(&'a self, key: &String) -> (r: Option<&'a String>)
        ensures
            match r {
                Some(v) => self@.contains_key(key@) && v@ == self@[key@],
                None => !self@.contains_key(key@),
            },
    {
        let n = self.entries.len();
        let mut i: usize = n;
        while i > 0
            invariant
                i <= n,
                n == self.entries@.len(),
                forall|j: int| i <= j < n ==> (#[trigger] self.entries@[j]).0@ != key@,
            decreases i,
        {
            if self.entries[i - 1].0.eq(key) {
                proof {
                    lemma_map_of_entries_take(self.entries@, i as int, key@);
                    assert(self.entries@.take(i as int).drop_last() =~= self.entries@.take(
                        i as int - 1,
                    ));
                    assert(self.entries@.take(i as int).last() == self.entries@[i as int - 1]);
                }
                return Some(&self.entries[i - 1].1);
            }
            i = i - 1;
        }
        proof {
            lemma_map_of_entries_take(self.entries@, 0, key@);
            assert(self.entries@.take(0) =~= Seq::<(String, String)>::empty());
        }
        None
    }

    /// Whether some insertion used this name.
    pub fn contains_key(&self, key: &String) -> (r: bool)
        ensures
            r == self@.contains_key(key@),
    {
        self.get(key).is_some()
    }

    /// Insert every pair of `other`, in its order; on a shared name the
    /// entry of `other` wins.
    pub fn extend(&mut self, other: &EnvMap)
        ensures
            final(self)@ == old(self)@.union_prefer_right(other@),
    {
        let n = other.entries.len();
        let mut i: usize = 0;
        while i < n
            invariant
                i <= n,
                n == other.entries@.len(),
                self.entries@ == old(self).entries@ + other.entries@.take(i as int),
            decreases n - i,
        {
            let key = other.entries[i].0.clone();
            let value = other.entries[i].1.clone();
            proof {
                assert((old(self).entries@ + other.entries@.take(i as int)).push((key, value))
                    =~= old(self).entries@ + other.entries@.take(i as int + 1));
            }
            self.entries.push((key, value));
            i = i + 1;
        }
        proof {
            assert(other.entries@.take(n as int) =~= other.entries@);
            lemma_map_of_entries_append(old(self).entries@, other.entries@);
        }
    }

    /// The entries in insertion order; applying them in order yields
    /// exactly this mapping.
    pub fn entries(&self) -> (r: &Vec<(String, String)>)
        ensures
            map_of_entries(r@) == self@,
    {
        &self.entries
    }
}

/// Concatenating entry lists merges their mappings, the later list
/// winning on shared names.
pub proof fn lemma_map_of_entries_append(a: Seq<(String, String)>, b: Seq<(String, String)>)
    ensures
        map_of_entries(a + b) == map_of_entries(a).union_prefer_right(map_of_entries(b)),
    decreases b.len(),
{
    if b.len() == 0 {
        assert(a + b =~= a);
        assert(map_of_entries(a).union_prefer_right(map_of_entries(b)) =~= map_of_entries(a));
    } else {
        lemma_map_of_entries_append(a, b.drop_last());
        assert((a + b).drop_last() =~= a + b.drop_last());
        assert((a + b).last() == b.last());
        assert(map_of_entries(a).union_prefer_right(
            map_of_entries(b.drop_last()).insert(b.last().0@, b.last().1@),
        ) =~= map_of_entries(a).union_prefer_right(map_of_entries(b.drop_last())).insert(
            b.last().0@,
            b.last().1@,
        ));
    }
}

} // verus!
