//! A mapping of name -> value pairs, used for routing parameters and for
//! request/response headers.

use vstd::prelude::*;

verus! {

/// The mathematical contents of a sequence of key/value entries: a later
/// entry for the same key wins.
pub open spec fn map_of(entries: Seq<(String, String)>) -> Map<Seq<char>, Seq<char>>
    decreases entries.len(),
{
    if entries.len() == 0 {
        Map::empty()
    } else {
        map_of(entries.drop_last()).insert(entries.last().0@, entries.last().1@)
    }
}

/// Params are a mapping of name -> parameter for the purposes of routing.
///
/// Built fresh per dispatch and read by handlers; also reused as the header
/// mapping of requests and responses. Inserting an existing key replaces its
/// value (last write wins).
#[derive(Debug, PartialEq, Eq)]
pub struct Params {
    entries: Vec<(String, String)>,
}

impl View for Params {
    type V = Map<Seq<char>, Seq<char>>;

    closed spec fn view(&self) -> Map<Seq<char>, Seq<char>> {
        map_of(self.entries@)
    }
}

impl Params {
    /// Construct an empty mapping.
    pub fn new() -> (r: Self)
        ensures
            r@ == Map::<Seq<char>, Seq<char>>::empty(),
    {
        Params { entries: Vec::new() }
    }

    /// Whether the mapping holds no keys at all.
    pub fn is_empty(&self) -> (r: bool)
        ensures
            r == (self@ == Map::<Seq<char>, Seq<char>>::empty()),
    {
        proof {
            lemma_map_of_dom(self.entries@);
            if self.entries@.len() > 0 {
                assert(self@.contains_key(self.entries@[self.entries@.len() - 1].0@));
            } else {
                assert(self@ =~= Map::<Seq<char>, Seq<char>>::empty());
            }
        }
        self.entries.len() == 0
    }

    /// Insert a value under a key, replacing any value the key held before.
    pub fn insert(&mut self, key: String, value: String)
        ensures
            final(self)@ == old(self)@.insert(key@, value@),
    {
        self.entries.push((key, value));
        proof {
            assert(self.entries@.drop_last() =~= old(self).entries@);
        }
    }

    /// The keys of the mapping's entries, in insertion order; a key
    /// written more than once appears more than once, each occurrence
    /// looking up the value that won.
    pub fn keys(&self) -> (r: Vec<String>)
        ensures
            forall|i: int| 0 <= i < r@.len() ==> self@.contains_key((#[trigger] r@[i])@),
            forall|k: Seq<char>|
                self@.contains_key(k) ==> exists|i: int| 0 <= i < r@.len() && (#[trigger] r@[i])@
                    == k,
    {
        proof {
            lemma_map_of_dom(self.entries@);
        }
        let n = self.entries.len();
        let mut r: Vec<String> = Vec::new();
        let mut i: usize = 0;
        while i < n
            invariant
                i <= n,
                n == self.entries.len(),
                r@.len() == i,
                forall|j: int| 0 <= j < i ==> (#[trigger] r@[j])@ == self.entries@[j].0@,
            decreases n - i,
        {
            r.push(self.entries[i].0.clone());
            i += 1;
        }
        proof {
            assert forall|k: Seq<char>| self@.contains_key(k) implies exists|i2: int|
                0 <= i2 < r@.len() && (#[trigger] r@[i2])@ == k by {
                let j = choose|j: int|
                    0 <= j < self.entries@.len() && (#[trigger] self.entries@[j]).0@ == k;
                assert(r@[j]@ == k);
            }
            assert forall|i2: int| 0 <= i2 < r@.len() implies self@.contains_key(
                (#[trigger] r@[i2])@,
            ) by {
                assert(self.entries@[i2].0@ == r@[i2]@);
            }
        }
        r
    }

    /// Look up the value stored under a key.
    pub fn get(&self, key: &String) -> (r: Option<&String>)
        ensures
            match r {
                Some(v) => self@.contains_key(key@) && self@[key@] == v@,
                None => !self@.contains_key(key@),
            },
    {
        let n = self.entries.len();
        let mut i: usize = n;
        while i > 0
            invariant
                n == self.entries.len(),
                i <= n,
                forall|k: int| i <= k < n ==> (#[trigger] self.entries@[k]).0@ != key@,
            decreases i,
        {
            i = i - 1;
            if string_eq(&self.entries[i].0, key) {
                proof {
                    lemma_map_of_get_last(self.entries@, i as int);
                }
                return Some(&self.entries[i].1);
            }
        }
        proof {
            lemma_map_of_dom(self.entries@);
        }
        None
    }
}

impl Clone for Params {
    /// The clone holds the same mapping.
    fn clone(&self) -> (r: Self)
        ensures
            r@ == self@,
    {
        let n = self.entries.len();
        let mut entries: Vec<(String, String)> = Vec::new();
        let mut i: usize = 0;
        while i < n
            invariant
                i <= n,
                n == self.entries.len(),
                entries@.len() == i,
                forall|j: int|
                    0 <= j < i ==> (#[trigger] entries@[j]).0@ == self.entries@[j].0@
                        && entries@[j].1@ == self.entries@[j].1@,
            decreases n - i,
        {
            let k = self.entries[i].0.clone();
            let v = self.entries[i].1.clone();
            entries.push((k, v));
            i += 1;
        }
        proof {
            lemma_map_of_congruence(entries@, self.entries@);
        }
        Params { entries }
    }
}

/// Entrywise view-equal entry sequences carry the same mapping.
proof fn lemma_map_of_congruence(a: Seq<(String, String)>, b: Seq<(String, String)>)
    requires
        a.len() == b.len(),
        forall|j: int|
            0 <= j < a.len() ==> (#[trigger] a[j]).0@ == b[j].0@ && a[j].1@ == b[j].1@,
    ensures
        map_of(a) == map_of(b),
    decreases a.len(),
{
    if a.len() > 0 {
        assert(forall|j: int| 0 <= j < a.drop_last().len() ==> a.drop_last()[j] == a[j]);
        assert(forall|j: int| 0 <= j < b.drop_last().len() ==> b.drop_last()[j] == b[j]);
        lemma_map_of_congruence(a.drop_last(), b.drop_last());
        assert(a.last() == a[a.len() - 1]);
        assert(b.last() == b[a.len() - 1]);
    }
}

impl Default for Params {
    fn default() -> (r: Self)
        ensures
            r@ == Map::<Seq<char>, Seq<char>>::empty(),
    {
        Params { entries: Vec::new() }
    }
}

/// Compare two strings by their characters.
pub fn string_eq(a: &String, b: &String) -> (r: bool)
    ensures
        r == (a@ == b@),
{
    *a == *b
}

/// The domain of `map_of` is exactly the keys of the entries.
proof fn lemma_map_of_dom(entries: Seq<(String, String)>)
    ensures
        forall|k: Seq<char>|
            map_of(entries).contains_key(k) <==> exists|i: int|
                0 <= i < entries.len() && (#[trigger] entries[i]).0@ == k,
    decreases entries.len(),
{
    if entries.len() > 0 {
        lemma_map_of_dom(entries.drop_last());
        assert forall|k: Seq<char>| map_of(entries).contains_key(k) implies exists|i: int|
            0 <= i < entries.len() && (#[trigger] entries[i]).0@ == k by {
            if k == entries.last().0@ {
                assert(entries[entries.len() - 1].0@ == k);
            } else {
                assert(map_of(entries.drop_last()).contains_key(k));
                let i = choose|i: int|
                    0 <= i < entries.drop_last().len() && (#[trigger] entries.drop_last()[i]).0@
                        == k;
                assert(entries.drop_last()[i] == entries[i]);
                assert(entries[i].0@ == k);
            }
        }
        assert forall|k: Seq<char>|
            exists|i: int|
                0 <= i < entries.len() && (#[trigger] entries[i]).0@
                    == k implies map_of(entries).contains_key(k) by {
            let i = choose|i: int| 0 <= i < entries.len() && (#[trigger] entries[i]).0@ == k;
            if i < entries.len() - 1 {
                let dl = entries.drop_last();
                assert(dl[i] == entries[i]);
                assert(exists|j: int| 0 <= j < dl.len() && (#[trigger] dl[j]).0@ == k) by {
                    assert(dl[i].0@ == k);
                }
                assert(map_of(dl).contains_key(k));
            }
        }
    }
}

/// The last entry for a key gives the mapping's value at that key.
proof fn lemma_map_of_get_last(entries: Seq<(String, String)>, i: int)
    requires
        0 <= i < entries.len(),
        forall|k: int| i < k < entries.len() ==> (#[trigger] entries[k]).0@ != entries[i].0@,
    ensures
        map_of(entries).contains_key(entries[i].0@),
        map_of(entries)[entries[i].0@] == entries[i].1@,
    decreases entries.len(),
{
    if i < entries.len() - 1 {
        assert(forall|a: int|
            0 <= a < entries.drop_last().len() ==> entries.drop_last()[a] == entries[a]);
        lemma_map_of_get_last(entries.drop_last(), i);
        assert(entries.last().0@ != entries[i].0@);
    }
}

} // verus!
