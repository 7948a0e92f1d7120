//! The chunk store: every generated chunk sits in exactly one of two
//! partitions, *resident* (projected into placement records) or *dormant*
//! (retained but not drawn).
//!
//! Each partition is an association vector with pairwise-distinct keys,
//! viewed in specifications as a `Map<Coord, Chunk>`; the store's invariant
//! adds that the two key sets are disjoint, so a coordinate is never
//! materialized and dormant at once.

use vstd::prelude::*;

use crate::chunk::Chunk;
use crate::coords::Coord;

verus! {

/// The finite map that an association vector denotes: later entries win,
/// though under `distinct_keys` every key occurs at most once.
pub open spec fn assoc_map(s: Seq<(Coord, Chunk)>) -> Map<Coord, Chunk>
    decreases s.len(),
{
    if s.len() == 0 {
        Map::empty()
    } else {
        assoc_map(s.drop_last()).insert(s.last().0, s.last().1)
    }
}

/// No two entries share a key.
pub open spec fn distinct_keys(s: Seq<(Coord, Chunk)>) -> bool {
    forall|i: int, j: int| 0 <= i < j < s.len() ==> (#[trigger] s[i]).0 != (#[trigger] s[j]).0
}

/// Some entry carries this key.
pub open spec fn has_key(s: Seq<(Coord, Chunk)>, c: Coord) -> bool {
    exists|i: int| 0 <= i < s.len() && (#[trigger] s[i]).0 == c
}

/// A key is carried by an extended vector exactly when an entry already
/// carries it or the new entry does.
pub proof fn lemma_has_key_push(s: Seq<(Coord, Chunk)>, p: (Coord, Chunk))
    ensures
        forall|c: Coord| #![auto] has_key(s.push(p), c) <==> has_key(s, c) || c == p.0,
{
    assert forall|c: Coord| #![auto] has_key(s.push(p), c) <==> has_key(s, c) || c == p.0 by {
        if has_key(s.push(p), c) {
            let i = choose|i: int| 0 <= i < s.push(p).len() && (#[trigger] s.push(p)[i]).0 == c;
            if i < s.len() {
                assert(s[i] == s.push(p)[i]);
                assert(s[i].0 == c);
            } else {
                assert(s.push(p)[s.len() as int] == p);
            }
        }
        if has_key(s, c) {
            let i = choose|i: int| 0 <= i < s.len() && (#[trigger] s[i]).0 == c;
            assert(s.push(p)[i] == s[i]);
            assert((#[trigger] s.push(p)[i]).0 == c);
        }
        if c == p.0 {
            assert((#[trigger] s.push(p)[s.len() as int]).0 == c);
        }
    }
}

/// Keys stay distinct when the appended entry's key is fresh.
pub proof fn lemma_distinct_push(s: Seq<(Coord, Chunk)>, p: (Coord, Chunk))
    requires
        distinct_keys(s),
        !has_key(s, p.0),
    ensures
        distinct_keys(s.push(p)),
{
    assert forall|i: int, j: int|
        0 <= i < j < s.push(p).len() implies (#[trigger] s.push(p)[i]).0 != (
    #[trigger] s.push(p)[j]).0 by {
        if j < s.len() {
            assert(s.push(p)[i] == s[i]);
            assert(s.push(p)[j] == s[j]);
        } else {
            assert(s.push(p)[i] == s[i]);
            assert(s.push(p)[j] == p);
            if s[i].0 == p.0 {
                assert((#[trigger] s[i]).0 == p.0);
            }
        }
    }
}

/// Distinctness is inherited by the vector without its last entry, whose
/// key then occurs nowhere in it.
pub proof fn lemma_distinct_drop_last(s: Seq<(Coord, Chunk)>)
    requires
        distinct_keys(s),
        s.len() > 0,
    ensures
        distinct_keys(s.drop_last()),
        !has_key(s.drop_last(), s.last().0),
{
    assert forall|i: int, j: int|
        0 <= i < j < s.drop_last().len() implies (#[trigger] s.drop_last()[i]).0 != (
    #[trigger] s.drop_last()[j]).0 by {
        assert(s.drop_last()[i] == s[i]);
        assert(s.drop_last()[j] == s[j]);
        assert((#[trigger] s[i]).0 != (#[trigger] s[j]).0);
    }
    if has_key(s.drop_last(), s.last().0) {
        let i = choose|i: int|
            0 <= i < s.drop_last().len() && (#[trigger] s.drop_last()[i]).0 == s.last().0;
        assert(s.drop_last()[i] == s[i]);
        assert((#[trigger] s[i]).0 == (#[trigger] s[s.len() - 1]).0);
    }
}

/// The denoted map's domain is exactly the keys of the entries.
pub proof fn lemma_assoc_map_dom(s: Seq<(Coord, Chunk)>)
    ensures
        forall|c: Coord| #![auto] assoc_map(s).dom().contains(c) <==> has_key(s, c),
    decreases s.len(),
{
    if s.len() > 0 {
        let sd = s.drop_last();
        lemma_assoc_map_dom(sd);
        assert forall|c: Coord| #![auto] assoc_map(s).dom().contains(c) <==> has_key(s, c) by {
            assert(assoc_map(s).dom().contains(c) <==> assoc_map(sd).dom().contains(c) || c
                == s.last().0);
            assert(assoc_map(sd).dom().contains(c) <==> has_key(sd, c));
            if c == s.last().0 {
                assert((#[trigger] s[s.len() - 1]).0 == c);
                assert(has_key(s, c));
            } else {
                if has_key(sd, c) {
                    let i = choose|i: int| 0 <= i < sd.len() && (#[trigger] sd[i]).0 == c;
                    assert(sd[i] == s[i]);
                    assert((#[trigger] s[i]).0 == c);
                }
                if has_key(s, c) {
                    let i = choose|i: int| 0 <= i < s.len() && (#[trigger] s[i]).0 == c;
                    assert(i < s.len() - 1);
                    assert((#[trigger] sd[i]).0 == c);
                }
            }
        }
    } else {
        assert forall|c: Coord| #![auto] assoc_map(s).dom().contains(c) <==> has_key(s, c) by {
            if has_key(s, c) {
                let i = choose|i: int| 0 <= i < s.len() && (#[trigger] s[i]).0 == c;
            }
        }
    }
}

/// Under distinct keys, each entry gives the denoted map's value at its key.
pub proof fn lemma_assoc_map_index(s: Seq<(Coord, Chunk)>, i: int)
    requires
        distinct_keys(s),
        0 <= i < s.len(),
    ensures
        assoc_map(s).dom().contains(s[i].0),
        assoc_map(s)[s[i].0] == s[i].1,
    decreases s.len(),
{
    if i < s.len() - 1 {
        lemma_distinct_drop_last(s);
        lemma_assoc_map_index(s.drop_last(), i);
        assert(s.drop_last()[i] == s[i]);
        assert((#[trigger] s[i]).0 != (#[trigger] s[s.len() - 1]).0);
    }
}

/// Appending an entry inserts its binding into the denoted map.
pub proof fn lemma_assoc_map_push(s: Seq<(Coord, Chunk)>, p: (Coord, Chunk))
    ensures
        assoc_map(s.push(p)) == assoc_map(s).insert(p.0, p.1),
{
    assert(s.push(p).drop_last() =~= s);
    assert(s.push(p).last() == p);
}

/// Dropping the last entry removes its binding, when keys are distinct.
pub proof fn lemma_assoc_map_drop_last(s: Seq<(Coord, Chunk)>)
    requires
        distinct_keys(s),
        s.len() > 0,
    ensures
        !assoc_map(s.drop_last()).dom().contains(s.last().0),
        assoc_map(s.drop_last()) == assoc_map(s).remove(s.last().0),
{
    lemma_distinct_drop_last(s);
    lemma_assoc_map_dom(s.drop_last());
    assert(assoc_map(s.drop_last()) =~= assoc_map(s).remove(s.last().0));
}

/// Under distinct keys, the denoted map has exactly one binding per entry.
pub proof fn lemma_assoc_map_dom_len(s: Seq<(Coord, Chunk)>)
    requires
        distinct_keys(s),
    ensures
        assoc_map(s).dom().finite(),
        assoc_map(s).dom().len() == s.len(),
    decreases s.len(),
{
    broadcast use vstd::set::group_set_axioms;

    if s.len() > 0 {
        lemma_distinct_drop_last(s);
        lemma_assoc_map_dom(s.drop_last());
        lemma_assoc_map_dom_len(s.drop_last());
        assert(!assoc_map(s.drop_last()).dom().contains(s.last().0));
        assert(assoc_map(s).dom() == assoc_map(s.drop_last()).dom().insert(s.last().0));
    }
}

/// Keyed cache holding every chunk in exactly one of two partitions.
#[derive(Debug)]
pub struct ChunkStore {
    pub resident: Vec<(Coord, Chunk)>,
    pub dormant: Vec<(Coord, Chunk)>,
}

impl ChunkStore {
    /// The resident partition as a map.
    pub open spec fn resident_map(self) -> Map<Coord, Chunk> {
        assoc_map(self.resident@)
    }

    /// The dormant partition as a map.
    pub open spec fn dormant_map(self) -> Map<Coord, Chunk> {
        assoc_map(self.dormant@)
    }

    /// Well-formedness: distinct keys within each partition, and no
    /// coordinate keyed in both partitions at once.
    pub open spec fn inv(self) -> bool {
        &&& distinct_keys(self.resident@)
        &&& distinct_keys(self.dormant@)
        &&& forall|c: Coord| #![auto]
            !(has_key(self.resident@, c) && has_key(self.dormant@, c))
    }

    /// The partition invariant, at the level of the denoted maps: a
    /// coordinate is a key of at most one of the two partitions.
    pub proof fn lemma_partition_invariant(self, c: Coord)
        requires
            self.inv(),
        ensures
            !(self.resident_map().dom().contains(c) && self.dormant_map().dom().contains(c)),
    {
        lemma_assoc_map_dom(self.resident@);
        lemma_assoc_map_dom(self.dormant@);
        if self.resident_map().dom().contains(c) && self.dormant_map().dom().contains(c) {
            assert(has_key(self.resident@, c) && has_key(self.dormant@, c));
            assert(false);
        }
    }

    /// An empty store.
    pub fn new() -> (s: ChunkStore)
        ensures
            s.inv(),
            s.resident_map() == Map::<Coord, Chunk>::empty(),
            s.dormant_map() == Map::<Coord, Chunk>::empty(),
            s.resident@.len() == 0,
            s.dormant@.len() == 0,
    {
        ChunkStore { resident: Vec::new(), dormant: Vec::new() }
    }

    /// Whether the coordinate is currently materialized.
    pub fn resident_contains(&self, c: Coord) -> (r: bool)
        ensures
            r == self.resident_map().dom().contains(c),
    {
        proof {
            lemma_assoc_map_dom(self.resident@);
        }
        contains_key(&self.resident, c)
    }

    /// Whether the coordinate is currently retained without being drawn.
    pub fn dormant_contains(&self, c: Coord) -> (r: bool)
        ensures
            r == self.dormant_map().dom().contains(c),
    {
        proof {
            lemma_assoc_map_dom(self.dormant@);
        }
        contains_key(&self.dormant, c)
    }

    /// How many chunks are materialized.
    pub fn resident_len(&self) -> (n: usize)
        ensures
            n == self.resident@.len(),
            self.inv() ==> n == self.resident_map().dom().len(),
    {
        proof {
            if self.inv() {
                lemma_assoc_map_dom_len(self.resident@);
            }
        }
        self.resident.len()
    }

    /// How many chunks are retained without being drawn.
    pub fn dormant_len(&self) -> (n: usize)
        ensures
            n == self.dormant@.len(),
            self.inv() ==> n == self.dormant_map().dom().len(),
    {
        proof {
            if self.inv() {
                lemma_assoc_map_dom_len(self.dormant@);
            }
        }
        self.dormant.len()
    }

    /// Files a chunk, not yet held anywhere, under the dormant partition.
    pub fn insert_dormant(&mut self, c: Coord, chunk: Chunk)
        requires
            old(self).inv(),
            !old(self).resident_map().dom().contains(c),
            !old(self).dormant_map().dom().contains(c),
        ensures
            final(self).inv(),
            final(self).resident_map() == old(self).resident_map(),
            final(self).dormant_map() == old(self).dormant_map().insert(c, chunk),
            final(self).resident@ == old(self).resident@,
    {
        proof {
            lemma_assoc_map_dom(old(self).dormant@);
            lemma_assoc_map_dom(old(self).resident@);
            lemma_assoc_map_push(old(self).dormant@, (c, chunk));
            lemma_has_key_push(old(self).dormant@, (c, chunk));
            lemma_distinct_push(old(self).dormant@, (c, chunk));
        }
        self.dormant.push((c, chunk));
    }

    /// Reads the chunk held dormant at a coordinate, if any.
    pub fn dormant_get(&self, c: Coord) -> (r: Option<&Chunk>)
        requires
            self.inv(),
        ensures
            match r {
                Some(chunk) => self.dormant_map().dom().contains(c) && *chunk
                    == self.dormant_map()[c],
                None => !self.dormant_map().dom().contains(c),
            },
    {
        proof {
            lemma_assoc_map_dom(self.dormant@);
        }
        let n = self.dormant.len();
        let mut i: usize = 0;
        while i < n
            invariant
                n == self.dormant@.len(),
                i <= n,
                distinct_keys(self.dormant@),
                forall|k: int| 0 <= k < i ==> (#[trigger] self.dormant@[k]).0 != c,
            decreases n - i,
        {
            if self.dormant[i].0 == c {
                proof {
                    lemma_assoc_map_index(self.dormant@, i as int);
                }
                return Some(&self.dormant[i].1);
            }
            i = i + 1;
        }
        proof {
            if has_key(self.dormant@, c) {
                let k = choose|k: int|
                    0 <= k < self.dormant@.len() && (#[trigger] self.dormant@[k]).0 == c;
                assert(self.dormant@[k].0 != c);
            }
        }
        None
    }
}

/// Linear key search over an association vector.
fn contains_key(s: &Vec<(Coord, Chunk)>, c: Coord) -> (r: bool)
    ensures
        r == has_key(s@, c),
{
    let n = s.len();
    let mut i: usize = 0;
    while i < n
        invariant
            n == s@.len(),
            i <= n,
            forall|k: int| 0 <= k < i ==> (#[trigger] s@[k]).0 != c,
        decreases n - i,
    {
        if s[i].0 == c {
            return true;
        }
        i = i + 1;
    }
    proof {
        if has_key(s@, c) {
            let k = choose|k: int| 0 <= k < s@.len() && (#[trigger] s@[k]).0 == c;
            assert(s@[k].0 != c);
        }
    }
    false
}

} // verus!
