use indexmap::IndexMap;
use vstd::prelude::*;
use crate::model::{BinValue, ValV, vview};

verus! {

/// The insertion-ordered sections of a document, keyed by name.
///
/// The map itself is an indexmap held behind an opaque wrapper; its
/// observable contents are named by [`sections_view`]: the ordered
/// key-value pairs, keys unique, insertion order preserved.
#[verifier::external_body]
pub struct Sections {
    inner: IndexMap<String, BinValue>,
}

/// The ordered entries of a section map: pairs of key characters and
/// the value's view, in insertion order.
pub uninterp spec fn sections_view(m: &Sections) -> Seq<(Seq<char>, ValV)>;

/// Index of the first entry whose key is `k`, or -1 when absent.
pub open spec fn key_index(s: Seq<(Seq<char>, ValV)>, k: Seq<char>) -> int
    decreases s.len(),
{
    if s.len() == 0 {
        -1
    } else if s[0].0 == k {
        0
    } else {
        let r = key_index(s.drop_first(), k);
        if r == -1 {
            -1
        } else {
            r + 1
        }
    }
}

/// Whether some entry carries the key `k`.
pub open spec fn has_key(s: Seq<(Seq<char>, ValV)>, k: Seq<char>) -> bool {
    key_index(s, k) >= 0
}

/// No two entries carry the same key.
pub open spec fn keys_unique(s: Seq<(Seq<char>, ValV)>) -> bool {
    forall|i: int, j: int| 0 <= i < j < s.len() ==> (#[trigger] s[i]).0 != (#[trigger] s[j]).0
}

/// An entry whose key appears nowhere else sits exactly at its key's
/// index.
pub proof fn lemma_key_index_unique(s: Seq<(Seq<char>, ValV)>, i: int)
    requires
        0 <= i < s.len(),
        forall|j: int| 0 <= j < s.len() && j != i ==> (#[trigger] s[j]).0 != s[i].0,
    ensures
        key_index(s, s[i].0) == i,
    decreases i,
{
    if i == 0 {
    } else {
        assert(s[0].0 != s[i].0);
        assert(forall|a: int|
            0 <= a < s.drop_first().len() ==> (#[trigger] s.drop_first()[a]) == s[a + 1]);
        lemma_key_index_unique(s.drop_first(), i - 1);
        assert(s.drop_first()[i - 1] == s[i]);
    }
}

/// Where `key_index` points, the key matches, and nothing before it
/// does; where it is -1, no key matches.
pub proof fn lemma_key_index(s: Seq<(Seq<char>, ValV)>, k: Seq<char>)
    ensures
        key_index(s, k) >= -1,
        key_index(s, k) >= 0 ==> key_index(s, k) < s.len() && s[key_index(s, k)].0 == k,
        key_index(s, k) == -1 <==> forall|i: int| 0 <= i < s.len() ==> (#[trigger] s[i]).0 != k,
    decreases s.len(),
{
    if s.len() > 0 && s[0].0 != k {
        lemma_key_index(s.drop_first(), k);
        assert(forall|i: int|
            1 <= i < s.len() ==> (#[trigger] s[i]) == s.drop_first()[i - 1]);
        if key_index(s, k) == -1 {
            assert(key_index(s.drop_first(), k) == -1);
            assert forall|i: int| 0 <= i < s.len() implies (#[trigger] s[i]).0 != k by {
                if i >= 1 {
                    assert(s.drop_first()[i - 1].0 != k);
                    assert(s[i] == s.drop_first()[i - 1]);
                }
            }
        } else {
            assert(s[key_index(s, k)].0 == k);
        }
    } else if s.len() > 0 {
        assert(s[0].0 == k);
    }
}

impl Sections {
    /// An empty section map. Relies on IndexMap::new, which creates a
    /// map with no entries.
    #[verifier::external_body]
    pub fn new() -> (r: Sections)
        ensures
            sections_view(&r) == Seq::<(Seq<char>, ValV)>::empty(),
            keys_unique(sections_view(&r)),
    {
        Sections { inner: IndexMap::new() }
    }

    /// The number of entries. Relies on IndexMap::len.
    #[verifier::external_body]
    pub fn len(&self) -> (n: usize)
        ensures
            n == sections_view(self).len(),
    {
        self.inner.len()
    }

    /// Insert a section. Relies on IndexMap::insert: an existing key
    /// keeps its position and has its value replaced; a new key is
    /// appended at the end.
    #[verifier::external_body]
    pub fn insert(&mut self, key: String, value: BinValue)
        ensures
            key_index(sections_view(old(self)), key@) == -1 ==> sections_view(final(self))
                == sections_view(old(self)).push((key@, vview(value))),
            key_index(sections_view(old(self)), key@) >= 0 ==> sections_view(final(self))
                == sections_view(old(self)).update(
                key_index(sections_view(old(self)), key@),
                (key@, vview(value)),
            ),
            keys_unique(sections_view(old(self))) ==> keys_unique(sections_view(final(self))),
    {
        self.inner.insert(key, value);
    }

    /// Look a section up by name. Relies on IndexMap::get, which finds
    /// the entry with an equivalent key, if any.
    #[verifier::external_body]
    pub fn get(&self, key: &str) -> (r: Option<&BinValue>)
        ensures
            match r {
                Some(v) => has_key(sections_view(self), key@) && vview(*v) == sections_view(
                    self,
                )[key_index(sections_view(self), key@)].1,
                None => !has_key(sections_view(self), key@),
            },
    {
        self.inner.get(key)
    }

    /// The entry at a position, in insertion order. Relies on
    /// IndexMap::get_index, which returns the pair at that position.
    #[verifier::external_body]
    pub fn get_index(&self, i: usize) -> (r: (&String, &BinValue))
        requires
            i < sections_view(self).len(),
        ensures
            r.0@ == sections_view(self)[i as int].0,
            vview(*r.1) == sections_view(self)[i as int].1,
            forall|j: int|
                0 <= j < sections_view(self).len() && j != i ==> (#[trigger] sections_view(
                    self,
                )[j]).0 != r.0@,
    {
        let (k, v) = self.inner.get_index(i).unwrap();
        (k, v)
    }
}

/// A binary property document: named, typed, insertion-ordered
/// sections.
pub struct Bin {
    pub sections: Sections,
}

impl Bin {
    /// A document with no sections.
    pub fn new() -> (r: Bin)
        ensures
            sections_view(&r.sections) == Seq::<(Seq<char>, ValV)>::empty(),
    {
        Bin { sections: Sections::new() }
    }
}

impl Default for Bin {
    fn default() -> (r: Bin)
        ensures
            sections_view(&r.sections) == Seq::<(Seq<char>, ValV)>::empty(),
    {
        Bin::new()
    }
}

/// Appending an entry does not disturb the position of an existing
/// key, and gives a fresh key the last position.
pub proof fn lemma_key_index_push(s: Seq<(Seq<char>, ValV)>, p: (Seq<char>, ValV), k: Seq<char>)
    ensures
        key_index(s, k) >= 0 ==> key_index(s.push(p), k) == key_index(s, k),
        key_index(s, k) == -1 && p.0 == k ==> key_index(s.push(p), k) == s.len(),
        key_index(s, k) == -1 && p.0 != k ==> key_index(s.push(p), k) == -1,
    decreases s.len(),
{
    lemma_key_index(s, k);
    if s.len() == 0 {
        assert(s.push(p)[0] == p);
        if p.0 != k {
            assert(s.push(p).drop_first() =~= Seq::<(Seq<char>, ValV)>::empty());
            assert(key_index(s.push(p).drop_first(), k) == -1);
        }
    } else {
        assert(s.push(p)[0] == s[0]);
        if s[0].0 != k {
            lemma_key_index_push(s.drop_first(), p, k);
            assert(s.push(p).drop_first() =~= s.drop_first().push(p));
            let r = key_index(s.drop_first().push(p), k);
            assert(key_index(s.push(p), k) == if r == -1 {
                -1int
            } else {
                r + 1
            });
            if key_index(s, k) == -1 {
                lemma_key_index(s.drop_first(), k);
                assert(key_index(s.drop_first(), k) == -1);
            }
        }
    }
}

} // verus!
