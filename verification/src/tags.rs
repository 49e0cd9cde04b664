//! Tag mappings: string keys to string values, keys unique, insertion order
//! irrelevant to the mapping they denote.

use vstd::prelude::*;
use crate::text::str_eq;

verus! {

/// The mapping denoted by a sequence of key-value pairs; where a key repeats,
/// its first occurrence wins.
pub open spec fn spec_pairs_map(ps: Seq<(Seq<char>, Seq<char>)>) -> Map<Seq<char>, Seq<char>>
    decreases ps.len(),
{
    if ps.len() == 0 {
        Map::<Seq<char>, Seq<char>>::empty()
    } else {
        spec_pairs_map(ps.drop_first()).insert(ps[0].0, ps[0].1)
    }
}

/// No key occurs twice.
pub open spec fn spec_unique_keys(ps: Seq<(Seq<char>, Seq<char>)>) -> bool {
    forall|i: int, j: int| 0 <= i < j < ps.len() ==> (#[trigger] ps[i]).0 != (#[trigger] ps[j]).0
}

/// A key is in the mapping exactly when some pair holds it.
pub proof fn lemma_pairs_map_domain(ps: Seq<(Seq<char>, Seq<char>)>, k: Seq<char>)
    ensures
        spec_pairs_map(ps).contains_key(k) <==> exists|i: int|
            0 <= i < ps.len() && (#[trigger] ps[i]).0 == k,
    decreases ps.len(),
{
    if ps.len() > 0 {
        lemma_pairs_map_domain(ps.drop_first(), k);
        if ps[0].0 == k {
        } else if spec_pairs_map(ps.drop_first()).contains_key(k) {
            let rest = ps.drop_first();
            let i = choose|i: int| 0 <= i < rest.len() && (#[trigger] rest[i]).0 == k;
            assert(ps[i + 1].0 == k);
        } else if exists|i: int| 0 <= i < ps.len() && (#[trigger] ps[i]).0 == k {
            let i = choose|i: int| 0 <= i < ps.len() && (#[trigger] ps[i]).0 == k;
            assert(ps.drop_first()[i - 1].0 == k);
        }
    }
}

/// The first pair holding a key gives that key's value.
pub proof fn lemma_pairs_map_first_match(ps: Seq<(Seq<char>, Seq<char>)>, i: int)
    requires
        0 <= i < ps.len(),
        forall|j: int| 0 <= j < i ==> (#[trigger] ps[j]).0 != ps[i].0,
    ensures
        spec_pairs_map(ps).contains_key(ps[i].0),
        spec_pairs_map(ps)[ps[i].0] == ps[i].1,
    decreases i,
{
    if i == 0 {
    } else {
        let rest = ps.drop_first();
        assert forall|j: int| 0 <= j < i - 1 implies (#[trigger] rest[j]).0 != rest[i - 1].0 by {
            assert(rest[j] == ps[j + 1]);
        }
        lemma_pairs_map_first_match(rest, i - 1);
        assert(rest[i - 1] == ps[i]);
        assert(ps[0].0 != ps[i].0);
    }
}

/// A key no pair holds is not in the mapping.
pub proof fn lemma_pairs_map_absent(ps: Seq<(Seq<char>, Seq<char>)>, k: Seq<char>)
    requires
        forall|j: int| 0 <= j < ps.len() ==> (#[trigger] ps[j]).0 != k,
    ensures
        !spec_pairs_map(ps).contains_key(k),
{
    lemma_pairs_map_domain(ps, k);
}

/// Removing the pair that holds a key removes the key from the mapping.
proof fn lemma_pairs_map_remove_at(ps: Seq<(Seq<char>, Seq<char>)>, i: int)
    requires
        spec_unique_keys(ps),
        0 <= i < ps.len(),
    ensures
        spec_pairs_map(ps.remove(i)) == spec_pairs_map(ps).remove(ps[i].0),
    decreases i,
{
    let k = ps[i].0;
    let rest = ps.drop_first();
    if i == 0 {
        assert(ps.remove(0) =~= rest);
        assert forall|j: int| 0 <= j < rest.len() implies (#[trigger] rest[j]).0 != k by {
            assert(rest[j] == ps[j + 1]);
        }
        lemma_pairs_map_absent(rest, k);
        assert(spec_pairs_map(ps).remove(k) =~= spec_pairs_map(rest));
    } else {
        assert forall|a: int, b: int|
            0 <= a < b < rest.len() implies (#[trigger] rest[a]).0 != (#[trigger] rest[b]).0 by {
            assert(rest[a] == ps[a + 1]);
            assert(rest[b] == ps[b + 1]);
        }
        lemma_pairs_map_remove_at(rest, i - 1);
        assert(rest[i - 1] == ps[i]);
        assert(ps.remove(i).drop_first() =~= rest.remove(i - 1));
        assert(ps.remove(i)[0] == ps[0]);
        assert(ps[0].0 != k);
        assert(spec_pairs_map(ps.remove(i)) == spec_pairs_map(rest.remove(i - 1)).insert(
            ps[0].0,
            ps[0].1,
        ));
        assert(spec_pairs_map(rest).remove(k).insert(ps[0].0, ps[0].1) =~= spec_pairs_map(
            rest,
        ).insert(ps[0].0, ps[0].1).remove(k));
    }
}

/// Appending a pair whose key no pair holds inserts that key.
proof fn lemma_pairs_map_push(ps: Seq<(Seq<char>, Seq<char>)>, k: Seq<char>, v: Seq<char>)
    requires
        forall|j: int| 0 <= j < ps.len() ==> (#[trigger] ps[j]).0 != k,
    ensures
        spec_pairs_map(ps.push((k, v))) == spec_pairs_map(ps).insert(k, v),
    decreases ps.len(),
{
    if ps.len() == 0 {
        let q = ps.push((k, v));
        assert(q.len() == 1);
        assert(q[0] == (k, v));
        assert(q.drop_first().len() == 0);
        assert(spec_pairs_map(q.drop_first()) =~= Map::<Seq<char>, Seq<char>>::empty());
        assert(spec_pairs_map(q) == spec_pairs_map(q.drop_first()).insert(q[0].0, q[0].1));
        assert(spec_pairs_map(q) =~= spec_pairs_map(ps).insert(k, v));
    } else {
        let rest = ps.drop_first();
        assert forall|j: int| 0 <= j < rest.len() implies (#[trigger] rest[j]).0 != k by {
            assert(rest[j] == ps[j + 1]);
        }
        lemma_pairs_map_push(rest, k, v);
        assert(ps.push((k, v)).drop_first() =~= rest.push((k, v)));
        assert(ps.push((k, v))[0] == ps[0]);
        assert(ps[0].0 != k);
        assert(spec_pairs_map(rest).insert(k, v).insert(ps[0].0, ps[0].1) =~= spec_pairs_map(
            rest,
        ).insert(ps[0].0, ps[0].1).insert(k, v));
    }
}

/// A mapping from tag names to tag values.  Keys are unique; the order of the
/// underlying entries does not matter to the mapping the value denotes.
pub struct TagMap {
    entries: Vec<(String, String)>,
}

impl View for TagMap {
    type V = Map<Seq<char>, Seq<char>>;

    closed spec fn view(&self) -> Map<Seq<char>, Seq<char>> {
        spec_pairs_map(self.pairs())
    }
}

impl TagMap {
    /// The entries as a sequence of key-value pairs, in insertion order.
    pub closed spec fn pairs(&self) -> Seq<(Seq<char>, Seq<char>)> {
        Seq::new(self.entries@.len(), |i: int| (self.entries@[i].0@, self.entries@[i].1@))
    }

    /// Each key occurs in at most one entry.
    pub open spec fn wf(&self) -> bool {
        spec_unique_keys(self.pairs())
    }

    /// The mapping holds a key exactly when some entry holds it.
    pub proof fn lemma_view_domain(&self, k: Seq<char>)
        ensures
            self@.contains_key(k) <==> exists|i: int|
                0 <= i < self.pairs().len() && (#[trigger] self.pairs()[i]).0 == k,
    {
        lemma_pairs_map_domain(self.pairs(), k);
    }

    /// An empty mapping.
    pub fn new() -> (r: TagMap)
        ensures
            r.wf(),
            r@ == Map::<Seq<char>, Seq<char>>::empty(),
            r.pairs() == Seq::<(Seq<char>, Seq<char>)>::empty(),
    {
        let r = TagMap { entries: Vec::new() };
        proof {
            assert(r.pairs() =~= Seq::<(Seq<char>, Seq<char>)>::empty());
        }
        r
    }

    /// How many tags the mapping holds.
    pub fn len(&self) -> (n: usize)
        ensures
            n == self.pairs().len(),
    {
        self.entries.len()
    }

    /// Whether the mapping holds no tag.
    pub fn is_empty(&self) -> (r: bool)
        ensures
            r == (self.pairs().len() == 0),
    {
        self.entries.is_empty()
    }

    /// The key of the entry at an index.
    pub fn key_at(&self, i: usize) -> (k: &String)
        requires
            i < self.pairs().len(),
        ensures
            k@ == self.pairs()[i as int].0,
    {
        &self.entries[i].0
    }

    /// The value of the entry at an index.
    pub fn value_at(&self, i: usize) -> (v: &String)
        requires
            i < self.pairs().len(),
        ensures
            v@ == self.pairs()[i as int].1,
    {
        &self.entries[i].1
    }

    /// The value under a key, if the mapping holds the key.
    pub fn get(&self, key: &str) -> (r: Option<&String>)
        ensures
            match r {
                Some(v) => self@.contains_key(key@) && v@ == self@[key@],
                None => !self@.contains_key(key@),
            },
    {
        let n = self.entries.len();
        let mut i: usize = 0;
        while i < n
            invariant
                n == self.pairs().len(),
                i <= n,
                forall|j: int| 0 <= j < i ==> (#[trigger] self.pairs()[j]).0 != key@,
            decreases n - i,
        {
            if str_eq(self.entries[i].0.as_str(), key) {
                proof {
                    lemma_pairs_map_first_match(self.pairs(), i as int);
                }
                return Some(&self.entries[i].1);
            }
            i = i + 1;
        }
        proof {
            lemma_pairs_map_absent(self.pairs(), key@);
        }
        None
    }

    /// Whether the mapping holds a key.
    pub fn contains_key(&self, key: &str) -> (r: bool)
        ensures
            r == self@.contains_key(key@),
    {
        self.get(key).is_some()
    }

    /// Remove a key and hand back the value it held, if any.
    pub fn remove(&mut self, key: &str) -> (r: Option<String>)
        requires
            old(self).wf(),
        ensures
            final(self).wf(),
            match r {
                Some(v) => old(self)@.contains_key(key@) && v@ == old(self)@[key@] && final(self)@
                    == old(self)@.remove(key@),
                None => !old(self)@.contains_key(key@) && *final(self) == *old(self),
            },
    {
        let n = self.entries.len();
        let mut i: usize = 0;
        while i < n
            invariant
                n == self.pairs().len(),
                i <= n,
                *self == *old(self),
                old(self).wf(),
                forall|j: int| 0 <= j < i ==> (#[trigger] self.pairs()[j]).0 != key@,
            decreases n - i,
        {
            if str_eq(self.entries[i].0.as_str(), key) {
                proof {
                    lemma_pairs_map_first_match(self.pairs(), i as int);
                    lemma_pairs_map_remove_at(self.pairs(), i as int);
                }
                let ghost old_pairs = self.pairs();
                let pair = self.entries.remove(i);
                proof {
                    assert(self.pairs() =~= old_pairs.remove(i as int));
                    assert forall|a: int, b: int|
                        0 <= a < b < self.pairs().len() implies (#[trigger] self.pairs()[a]).0 != (
                    #[trigger] self.pairs()[b]).0 by {
                        let oa = if a < i { a } else { a + 1 };
                        let ob = if b < i { b } else { b + 1 };
                        assert(self.pairs()[a] == old_pairs[oa]);
                        assert(self.pairs()[b] == old_pairs[ob]);
                    }
                }
                return Some(pair.1);
            }
            i = i + 1;
        }
        proof {
            lemma_pairs_map_absent(self.pairs(), key@);
        }
        None
    }

    /// Set a key to a value, dropping any value the key held before.
    pub fn insert(&mut self, key: String, value: String)
        requires
            old(self).wf(),
        ensures
            final(self).wf(),
            final(self)@ == old(self)@.insert(key@, value@),
    {
        let _ = self.remove(key.as_str());
        proof {
            self.lemma_view_domain(key@);
        }
        let ghost mid_pairs = self.pairs();
        let ghost mid_map = self@;
        self.entries.push((key, value));
        proof {
            assert(self.pairs() =~= mid_pairs.push((key@, value@)));
            lemma_pairs_map_push(mid_pairs, key@, value@);
            assert forall|a: int, b: int|
                0 <= a < b < self.pairs().len() implies (#[trigger] self.pairs()[a]).0 != (
            #[trigger] self.pairs()[b]).0 by {
                if b < self.pairs().len() - 1 {
                    assert(self.pairs()[a] == mid_pairs[a]);
                    assert(self.pairs()[b] == mid_pairs[b]);
                } else {
                    assert(self.pairs()[a] == mid_pairs[a]);
                    assert(self.pairs()[b] == (key@, value@));
                }
            }
            assert(self@ == mid_map.insert(key@, value@));
            assert(old(self)@.remove(key@).insert(key@, value@) =~= old(self)@.insert(
                key@,
                value@,
            ));
        }
    }
}

/// Whether a measurement's numeric value is a running total or a snapshot.
#[derive(Clone, Copy, PartialEq, Eq, Structural, Debug)]
pub enum MeasurementKind {
    Absolute,
    Incremental,
}

/// One parsed measurement: a name, a kind, a numeric value and a tag
/// mapping.  The value is carried through untouched as its raw bit pattern;
/// this crate never interprets it.
pub struct Measurement {
    pub name: String,
    pub kind: MeasurementKind,
    pub value_bits: u64,
    pub tags: TagMap,
}

impl Measurement {
    /// The tag mapping holds each key once.
    pub open spec fn wf(&self) -> bool {
        self.tags.wf()
    }

    /// A measurement with no tags.
    pub fn new(name: String, kind: MeasurementKind, value_bits: u64) -> (r: Measurement)
        ensures
            r.wf(),
            r.name == name,
            r.kind == kind,
            r.value_bits == value_bits,
            r.tags@ == Map::<Seq<char>, Seq<char>>::empty(),
            r.tags.pairs() == Seq::<(Seq<char>, Seq<char>)>::empty(),
    {
        Measurement { name, kind, value_bits, tags: TagMap::new() }
    }

    /// The measurement's tags.
    pub fn tags(&self) -> (r: &TagMap)
        ensures
            *r == self.tags,
    {
        &self.tags
    }

    /// Set a tag, dropping any value the key held before.
    pub fn replace_tag(&mut self, key: String, value: String)
        requires
            old(self).wf(),
        ensures
            final(self).wf(),
            final(self).tags@ == old(self).tags@.insert(key@, value@),
            final(self).name == old(self).name,
            final(self).kind == old(self).kind,
            final(self).value_bits == old(self).value_bits,
    {
        self.tags.insert(key, value);
    }

    /// Remove a tag and hand back the value it held, if any.
    pub fn remove_tag(&mut self, key: &str) -> (r: Option<String>)
        requires
            old(self).wf(),
        ensures
            final(self).wf(),
            final(self).name == old(self).name,
            final(self).kind == old(self).kind,
            final(self).value_bits == old(self).value_bits,
            match r {
                Some(v) => old(self).tags@.contains_key(key@) && v@ == old(self).tags@[key@]
                    && final(self).tags@ == old(self).tags@.remove(key@),
                None => !old(self).tags@.contains_key(key@) && *final(self) == *old(self),
            },
    {
        self.tags.remove(key)
    }
}

impl Clone for TagMap {
    /// A clone holds the same entries in the same order.
    fn clone(&self) -> (r: Self)
        ensures
            r.pairs() == self.pairs(),
            r@ == self@,
            r.wf() == self.wf(),
    {
        let n = self.entries.len();
        let mut entries: Vec<(String, String)> = Vec::new();
        let mut i: usize = 0;
        while i < n
            invariant
                n == self.entries@.len(),
                i <= n,
                entries@.len() == i,
                forall|j: int|
                    0 <= j < i ==> (#[trigger] entries@[j]).0@ == self.pairs()[j].0
                        && entries@[j].1@ == self.pairs()[j].1,
            decreases n - i,
        {
            let k = self.entries[i].0.clone();
            let v = self.entries[i].1.clone();
            entries.push((k, v));
            i = i + 1;
        }
        let r = TagMap { entries };
        proof {
            assert(r.pairs() =~= self.pairs());
        }
        r
    }
}

} // verus!
