//! Flat string-keyed variable mapping.
//!
//! Keys are unique; insertion replaces the value of an existing key. The
//! abstract value of a mapping is a `Map` from key bytes to value bytes.

use vstd::prelude::*;
use vstd::pervasive::VecAdditionalExecFns;

verus! {

/// The map that a pair list denotes; a later pair wins over an earlier one
/// with the same key.
pub open spec fn pairs_map(ps: Seq<(Vec<u8>, Vec<u8>)>) -> Map<Seq<u8>, Seq<u8>>
    decreases ps.len(),
{
    if ps.len() == 0 {
        Map::empty()
    } else {
        pairs_map(ps.drop_last()).insert(ps.last().0@, ps.last().1@)
    }
}

/// The views of a sequence of key/value pairs.
pub open spec fn pair_views(ps: Seq<(Vec<u8>, Vec<u8>)>) -> Seq<(Seq<u8>, Seq<u8>)> {
    ps.map_values(|p: (Vec<u8>, Vec<u8>)| (p.0@, p.1@))
}

/// The map that a pair list of byte sequences denotes; a later pair wins over
/// an earlier one with the same key.
pub open spec fn model_pairs_map(ps: Seq<(Seq<u8>, Seq<u8>)>) -> Map<Seq<u8>, Seq<u8>>
    decreases ps.len(),
{
    if ps.len() == 0 {
        Map::empty()
    } else {
        model_pairs_map(ps.drop_last()).insert(ps.last().0, ps.last().1)
    }
}

/// Copy of a byte vector.
pub fn copy_bytes(v: &Vec<u8>) -> (r: Vec<u8>)
    ensures
        r@ == v@,
{
    let mut out: Vec<u8> = Vec::new();
    let mut k: usize = 0;
    while k < v.len()
        invariant
            k <= v@.len(),
            out@ =~= v@.take(k as int),
        decreases v@.len() - k,
    {
        out.push(v[k]);
        proof {
            assert(out@ =~= v@.take(k + 1 as int));
        }
        k = k + 1;
    }
    proof {
        assert(v@.take(v@.len() as int) =~= v@);
    }
    out
}

/// Append the bytes of `src` to `out`.
pub fn append_bytes(out: &mut Vec<u8>, src: &Vec<u8>)
    ensures
        final(out)@ == old(out)@ + src@,
{
    let mut k: usize = 0;
    while k < src.len()
        invariant
            k <= src@.len(),
            out@ =~= old(out)@ + src@.take(k as int),
        decreases src@.len() - k,
    {
        out.push(src[k]);
        proof {
            assert(out@ =~= old(out)@ + src@.take(k + 1 as int));
        }
        k = k + 1;
    }
    proof {
        assert(src@.take(src@.len() as int) =~= src@);
        assert(out@ =~= old(out)@ + src@);
    }
}

/// A variable mapping: key/value byte strings with unique keys.
#[derive(Debug, Clone)]
pub struct Mapping {
    pub pairs: Vec<(Vec<u8>, Vec<u8>)>,
}

impl View for Mapping {
    type V = Map<Seq<u8>, Seq<u8>>;

    open spec fn view(&self) -> Map<Seq<u8>, Seq<u8>> {
        pairs_map(self.pairs@)
    }
}

/// Byte-wise equality of two byte vectors.
pub fn bytes_eq(a: &Vec<u8>, b: &Vec<u8>) -> (r: bool)
    ensures
        r == (a@ == b@),
{
    if a.len() != b.len() {
        return false;
    }
    let mut i: usize = 0;
    while i < a.len()
        invariant
            i <= a@.len() == b@.len(),
            forall|j: int| 0 <= j < i ==> a@[j] == b@[j],
        decreases a@.len() - i,
    {
        if a[i] != b[i] {
            return false;
        }
        i = i + 1;
    }
    proof {
        assert(a@ =~= b@);
    }
    true
}

proof fn lemma_pairs_map_index(ps: Seq<(Vec<u8>, Vec<u8>)>, i: int)
    requires
        0 <= i < ps.len(),
        forall|q: int| i < q < ps.len() ==> ps[q].0@ != ps[i].0@,
    ensures
        pairs_map(ps).contains_key(ps[i].0@),
        pairs_map(ps)[ps[i].0@] == ps[i].1@,
    decreases ps.len(),
{
    if i == ps.len() - 1 {
    } else {
        assert(ps.drop_last()[i] == ps[i]);
        lemma_pairs_map_index(ps.drop_last(), i);
    }
}

proof fn lemma_pairs_map_absent(ps: Seq<(Vec<u8>, Vec<u8>)>, k: Seq<u8>)
    requires
        forall|q: int| 0 <= q < ps.len() ==> ps[q].0@ != k,
    ensures
        !pairs_map(ps).contains_key(k),
    decreases ps.len(),
{
    if ps.len() > 0 {
        lemma_pairs_map_absent(ps.drop_last(), k);
    }
}

proof fn lemma_pairs_map_update(ps: Seq<(Vec<u8>, Vec<u8>)>, i: int, p: (Vec<u8>, Vec<u8>))
    requires
        0 <= i < ps.len(),
        ps[i].0@ == p.0@,
        forall|u: int, q: int| 0 <= u < q < ps.len() ==> ps[u].0@ != ps[q].0@,
    ensures
        pairs_map(ps.update(i, p)) =~= pairs_map(ps).insert(p.0@, p.1@),
    decreases ps.len(),
{
    if i == ps.len() - 1 {
        assert(ps.update(i, p).drop_last() =~= ps.drop_last());
        assert(ps.update(i, p).last() == p);
    } else {
        assert(ps.update(i, p).drop_last() =~= ps.drop_last().update(i, p));
        assert(ps.update(i, p).last() == ps.last());
        lemma_pairs_map_update(ps.drop_last(), i, p);
        assert(ps.last().0@ != p.0@);
    }
}

impl Mapping {
    /// Keys are pairwise distinct.
    pub open spec fn wf(&self) -> bool {
        forall|u: int, q: int| 0 <= u < q < self.pairs@.len()
            ==> self.pairs@[u].0@ != self.pairs@[q].0@
    }

    /// An empty mapping.
    pub fn new() -> (r: Mapping)
        ensures
            r.wf(),
            r@ == Map::<Seq<u8>, Seq<u8>>::empty(),
            r.pairs@.len() == 0,
    {
        Mapping { pairs: Vec::new() }
    }

    /// Number of entries.
    pub fn len(&self) -> (r: usize)
        ensures
            r == self.pairs@.len(),
    {
        self.pairs.len()
    }

    /// The key and value at a position.
    pub fn pair_at(&self, i: usize) -> (r: (&Vec<u8>, &Vec<u8>))
        requires
            i < self.pairs@.len(),
        ensures
            r.0@ == self.pairs@[i as int].0@,
            r.1@ == self.pairs@[i as int].1@,
    {
        (&self.pairs[i].0, &self.pairs[i].1)
    }

    /// Insert a key/value pair, replacing the value of an existing key.
    pub fn insert(&mut self, key: Vec<u8>, value: Vec<u8>)
        requires
            old(self).wf(),
        ensures
            final(self).wf(),
            final(self)@ == old(self)@.insert(key@, value@),
    {
        let n = self.pairs.len();
        let mut i: usize = 0;
        while i < n
            invariant
                i <= n == self.pairs@.len(),
                self == old(self),
                self.wf(),
                forall|j: int| 0 <= j < i ==> self.pairs@[j].0@ != key@,
            decreases n - i,
        {
            if bytes_eq(&self.pairs[i].0, &key) {
                proof {
                    lemma_pairs_map_update(self.pairs@, i as int, (key, value));
                }
                let ghost ps0 = self.pairs@;
                self.pairs.set(i, (key, value));
                proof {
                    assert forall|u: int, q: int|
                        0 <= u < q < self.pairs@.len()
                        implies self.pairs@[u].0@ != self.pairs@[q].0@ by {
                        assert(ps0[u].0@ == self.pairs@[u].0@);
                        assert(ps0[q].0@ == self.pairs@[q].0@);
                    }
                }
                return;
            }
            i = i + 1;
        }
        let ghost ps0 = self.pairs@;
        let ghost k = key@;
        self.pairs.push((key, value));
        proof {
            assert(self.pairs@.drop_last() =~= ps0);
            assert forall|u: int, q: int|
                0 <= u < q < self.pairs@.len()
                implies self.pairs@[u].0@ != self.pairs@[q].0@ by {
                if q < self.pairs@.len() - 1 {
                    assert(ps0[u].0@ != ps0[q].0@);
                } else {
                    assert(self.pairs@[q].0@ == k);
                    assert(ps0[u].0@ != k);
                }
            }
        }
    }

    /// Look a key up.
    pub fn get(&self, key: &Vec<u8>) -> (r: Option<&Vec<u8>>)
        requires
            self.wf(),
        ensures
            match r {
                Some(v) => self@.contains_key(key@) && v@ == self@[key@],
                None => !self@.contains_key(key@),
            },
    {
        let n = self.pairs.len();
        let mut i: usize = 0;
        while i < n
            invariant
                i <= n == self.pairs@.len(),
                self.wf(),
                forall|j: int| 0 <= j < i ==> self.pairs@[j].0@ != key@,
            decreases n - i,
    {
            if bytes_eq(&self.pairs[i].0, key) {
                proof {
                    lemma_pairs_map_index(self.pairs@, i as int);
                }
                return Some(&self.pairs[i].1);
            }
            i = i + 1;
        }
        proof {
            lemma_pairs_map_absent(self.pairs@, key@);
        }
        None
    }
}

} // verus!
