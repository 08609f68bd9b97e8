//! A header mapping with case-folded keys: the last insertion of a key
//! wins, lookups are ASCII-case-insensitive, and the view is a map from
//! folded key bytes to value characters.

use vstd::prelude::*;
use vstd::string::StringSliceAdditionalSpecFns;
use crate::text::{lower_bytes, lower_vec, bytes_eq, lemma_lower_idempotent};

verus! {

/// The map a sequence of header entries denotes, later entries winning.
pub open spec fn map_of_entries(s: Seq<(Seq<u8>, Seq<char>)>) -> Map<Seq<u8>, Seq<char>>
    decreases s.len(),
{
    if s.len() == 0 {
        Map::empty()
    } else {
        map_of_entries(s.drop_last()).insert(s.last().0, s.last().1)
    }
}

/// The folded key a header name looks up under.
pub open spec fn header_key(name: &str) -> Seq<u8> {
    lower_bytes(name.spec_bytes())
}

/// Header storage: keys held as folded bytes, values as strings.
#[derive(Debug)]
pub struct HeaderMap {
    entries: Vec<(Vec<u8>, String)>,
}

impl View for HeaderMap {
    type V = Map<Seq<u8>, Seq<char>>;

    open spec fn view(&self) -> Map<Seq<u8>, Seq<char>> {
        map_of_entries(self.spec_entries())
    }
}

impl HeaderMap {
    /// The entries in insertion order, as abstract pairs.
    pub closed spec fn spec_entries(&self) -> Seq<(Seq<u8>, Seq<char>)> {
        Seq::new(
            self.entries@.len(),
            |i: int|
                {
                    let pair = self.entries@[i];
                    (pair.0@, pair.1@)
                },
        )
    }

    /// Well-formed: every key is stored case-folded, and no key repeats.
    pub open spec fn wf(&self) -> bool {
        &&& forall|i: int| 0 <= i < self.spec_entries().len()
            ==> #[trigger] self.spec_entries()[i].0 == lower_bytes(self.spec_entries()[i].0)
        &&& forall|i: int, j: int|
            0 <= i < j < self.spec_entries().len() ==> self.spec_entries()[i].0
                != self.spec_entries()[j].0
    }

    /// An empty header mapping.
    pub fn new() -> (r: HeaderMap)
        ensures
            r@ == Map::<Seq<u8>, Seq<char>>::empty(),
            r.spec_entries() == Seq::<(Seq<u8>, Seq<char>)>::empty(),
            r.wf(),
    {
        let r = HeaderMap { entries: Vec::new() };
        assert(r.spec_entries() =~= Seq::<(Seq<u8>, Seq<char>)>::empty());
        r
    }

    /// How many distinct headers are stored.
    pub fn len(&self) -> (r: usize)
        ensures
            r == self.spec_entries().len(),
    {
        self.entries.len()
    }

    /// The folded key of the entry at `i`.
    pub fn key_at(&self, i: usize) -> (r: &Vec<u8>)
        requires
            i < self.spec_entries().len(),
        ensures
            r@ == self.spec_entries()[i as int].0,
    {
        &self.entries[i].0
    }

    /// The value of the entry at `i`.
    pub fn value_at(&self, i: usize) -> (r: &String)
        requires
            i < self.spec_entries().len(),
        ensures
            r@ == self.spec_entries()[i as int].1,
    {
        &self.entries[i].1
    }

    /// The position holding `key`, if any.
    fn find_idx(&self, key: &[u8]) -> (r: Option<usize>)
        ensures
            r matches Some(i) ==> i < self.spec_entries().len()
                && self.spec_entries()[i as int].0 == key@,
            r is None ==> forall|i: int|
                0 <= i < self.spec_entries().len() ==> #[trigger] self.spec_entries()[i].0
                    != key@,
    {
        let mut i: usize = 0;
        while i < self.entries.len()
            invariant
                i <= self.spec_entries().len(),
                forall|k: int| 0 <= k < i ==> #[trigger] self.spec_entries()[k].0 != key@,
            decreases self.entries.len() - i,
        {
            if bytes_eq(self.entries[i].0.as_slice(), key) {
                return Some(i);
            }
            i = i + 1;
        }
        None
    }

    /// Insert under the folded bytes of `raw_key`, replacing any earlier
    /// value stored under the same folded key.
    pub fn insert_folded(&mut self, raw_key: &[u8], value: String)
        requires
            old(self).wf(),
        ensures
            final(self).wf(),
            final(self)@ == old(self)@.insert(lower_bytes(raw_key@), value@),
            !entry_present(old(self).spec_entries(), lower_bytes(raw_key@))
                ==> final(self).spec_entries()
                == old(self).spec_entries().push((lower_bytes(raw_key@), value@)),
    {
        let folded = lower_vec(raw_key);
        let ghost k = folded@;
        let ghost v = value@;
        let ghost s0 = self.spec_entries();
        proof {
            lemma_lower_idempotent(raw_key@);
        }
        match self.find_idx(folded.as_slice()) {
            Some(i) => {
                self.entries.remove(i);
                let ghost s1 = self.spec_entries();
                proof {
                    assert(s1 =~= s0.remove(i as int));
                    lemma_map_remove(s0, i as int);
                }
                self.entries.push((folded, value));
                proof {
                    let s2 = self.spec_entries();
                    assert(s2 =~= s1.push((k, v)));
                    lemma_map_push(s1, k, v);
                    assert(map_of_entries(s0).remove(k).insert(k, v) =~= map_of_entries(
                        s0,
                    ).insert(k, v));
                    assert forall|j: int| 0 <= j < s1.len() implies #[trigger] s1[j].0 != k by {
                        if j < i {
                            assert(s1[j] == s0[j]);
                        } else {
                            assert(s1[j] == s0[j + 1]);
                        }
                    }
                    assert forall|a: int, b: int| 0 <= a < b < s2.len() implies s2[a].0
                        != s2[b].0 by {
                        if b < s2.len() - 1 {
                            if a < i && b < i {
                            } else if a < i {
                                assert(s1[b] == s0[b + 1]);
                            } else {
                                assert(s1[a] == s0[a + 1]);
                                assert(s1[b] == s0[b + 1]);
                            }
                        }
                    }
                    assert forall|j: int| 0 <= j < s2.len() implies #[trigger] s2[j].0
                        == lower_bytes(s2[j].0) by {
                        if j < s2.len() - 1 {
                            if j < i {
                                assert(s1[j] == s0[j]);
                            } else {
                                assert(s1[j] == s0[j + 1]);
                            }
                        }
                    }
                }
            },
            None => {
                self.entries.push((folded, value));
                proof {
                    let s2 = self.spec_entries();
                    assert(s2 =~= s0.push((k, v)));
                    lemma_map_push(s0, k, v);
                    assert(forall|j: int| 0 <= j < s0.len() ==> #[trigger] s0[j].0 != k);
                }
            },
        }
    }

    /// Insert a header by name, case-folding the name.
    pub fn insert(&mut self, name: &str, value: String)
        requires
            old(self).wf(),
        ensures
            final(self).wf(),
            final(self)@ == old(self)@.insert(header_key(name), value@),
            !entry_present(old(self).spec_entries(), header_key(name))
                ==> final(self).spec_entries()
                == old(self).spec_entries().push((header_key(name), value@)),
    {
        self.insert_folded(name.as_bytes(), value);
    }

    /// Look a header up by name, case-insensitively.
    pub fn get(&self, name: &str) -> (r: Option<&String>)
        requires
            self.wf(),
        ensures
            r matches Some(v) ==> self@.contains_key(header_key(name)) && v@ == self@[header_key(
                name,
            )],
            r is None ==> !self@.contains_key(header_key(name)),
    {
        let folded = lower_vec(name.as_bytes());
        match self.find_idx(folded.as_slice()) {
            Some(i) => {
                proof {
                    lemma_map_at(self.spec_entries(), i as int);
                }
                Some(&self.entries[i].1)
            },
            None => {
                proof {
                    lemma_map_keys(self.spec_entries(), folded@);
                }
                None
            },
        }
    }

    /// Whether a header with this name is stored.
    pub fn contains_key(&self, name: &str) -> (r: bool)
        requires
            self.wf(),
        ensures
            r == self@.contains_key(header_key(name)),
    {
        self.get(name).is_some()
    }
}

/// Header lookup is ASCII-case-insensitive: two names with the same
/// case fold address the same entry of any header map.
pub proof fn lemma_lookup_case_insensitive(h: Map<Seq<u8>, Seq<char>>, n1: &str, n2: &str)
    requires
        lower_bytes(n1.spec_bytes()) == lower_bytes(n2.spec_bytes()),
    ensures
        h.contains_key(header_key(n1)) == h.contains_key(header_key(n2)),
        h.contains_key(header_key(n1)) ==> h[header_key(n1)] == h[header_key(n2)],
{
}

/// Some entry holds key `k`.
pub open spec fn entry_present(s: Seq<(Seq<u8>, Seq<char>)>, k: Seq<u8>) -> bool {
    exists|i: int| 0 <= i < s.len() && #[trigger] s[i].0 == k
}

/// A key occurs in the denoted map exactly when some entry holds it.
pub proof fn lemma_map_keys(s: Seq<(Seq<u8>, Seq<char>)>, k: Seq<u8>)
    ensures
        map_of_entries(s).contains_key(k) <==> exists|i: int|
            0 <= i < s.len() && #[trigger] s[i].0 == k,
    decreases s.len(),
{
    if s.len() > 0 {
        lemma_map_keys(s.drop_last(), k);
        if s.last().0 == k {
            assert(s[s.len() - 1].0 == k);
        } else {
            assert(forall|i: int| 0 <= i < s.len() - 1 && s.drop_last()[i] == s[i]
                ==> #[trigger] s[i] == s.drop_last()[i]);
            assert((exists|i: int| 0 <= i < s.len() - 1 && #[trigger] s.drop_last()[i].0 == k)
                <==> (exists|i: int| 0 <= i < s.len() && #[trigger] s[i].0 == k));
        }
    }
}

/// With distinct keys, the entry at `i` gives the map's value at its key.
proof fn lemma_map_at(s: Seq<(Seq<u8>, Seq<char>)>, i: int)
    requires
        0 <= i < s.len(),
        forall|a: int, b: int| 0 <= a < b < s.len() ==> s[a].0 != s[b].0,
    ensures
        map_of_entries(s).contains_key(s[i].0),
        map_of_entries(s)[s[i].0] == s[i].1,
    decreases s.len(),
{
    if i == s.len() - 1 {
    } else {
        assert(s.drop_last()[i] == s[i]);
        lemma_map_at(s.drop_last(), i);
        assert(s.last().0 != s[i].0);
    }
}

/// Appending an entry denotes inserting it.
proof fn lemma_map_push(s: Seq<(Seq<u8>, Seq<char>)>, k: Seq<u8>, v: Seq<char>)
    ensures
        map_of_entries(s.push((k, v))) == map_of_entries(s).insert(k, v),
{
    assert(s.push((k, v)).drop_last() =~= s);
    assert(s.push((k, v)).last() == (k, v));
}

/// With distinct keys, removing the entry at `i` removes its key.
proof fn lemma_map_remove(s: Seq<(Seq<u8>, Seq<char>)>, i: int)
    requires
        0 <= i < s.len(),
        forall|a: int, b: int| 0 <= a < b < s.len() ==> s[a].0 != s[b].0,
    ensures
        map_of_entries(s.remove(i)) == map_of_entries(s).remove(s[i].0),
    decreases s.len(),
{
    if i == s.len() - 1 {
        assert(s.remove(i) =~= s.drop_last());
        lemma_map_keys(s.drop_last(), s[i].0);
        assert(forall|a: int| 0 <= a < s.len() - 1
            ==> #[trigger] s.drop_last()[a].0 != s[i].0);
        assert(!map_of_entries(s.drop_last()).contains_key(s[i].0));
        assert(map_of_entries(s.drop_last()) =~= map_of_entries(s.drop_last()).insert(
            s.last().0,
            s.last().1,
        ).remove(s[i].0));
    } else {
        assert(s.remove(i).drop_last() =~= s.drop_last().remove(i));
        assert(s.remove(i).last() == s.last());
        assert(forall|a: int| 0 <= a < s.drop_last().len()
            ==> #[trigger] s.drop_last()[a] == s[a]);
        lemma_map_remove(s.drop_last(), i);
        assert(s.last().0 != s[i].0);
        assert(map_of_entries(s.drop_last().remove(i)).insert(s.last().0, s.last().1)
            =~= map_of_entries(s).remove(s[i].0));
    }
}

} // verus!
