//! Wallpaper rotation: build the deduplicated, sorted candidate list and
//! pick the next image after the currently linked one, wrapping around.

use vstd::prelude::*;

use crate::mapping::bytes_eq;

verus! {

/// Lexicographic byte-wise order on paths.
pub open spec fn lex_lt(a: Seq<u8>, b: Seq<u8>) -> bool
    decreases a.len(),
{
    if b.len() == 0 {
        false
    } else if a.len() == 0 {
        true
    } else if a[0] < b[0] {
        true
    } else if a[0] > b[0] {
        false
    } else {
        lex_lt(a.skip(1), b.skip(1))
    }
}

proof fn lemma_lex_skip(a: Seq<u8>, b: Seq<u8>, i: int)
    requires
        0 <= i <= a.len(),
        i <= b.len(),
        forall|q: int| 0 <= q < i ==> a[q] == b[q],
    ensures
        lex_lt(a, b) == lex_lt(a.skip(i), b.skip(i)),
    decreases i,
{
    if i > 0 {
        assert(a[0] == b[0]);
        assert forall|q: int| 0 <= q < i - 1 implies a.skip(1)[q] == b.skip(1)[q] by {
            assert(a.skip(1)[q] == a[q + 1]);
            assert(b.skip(1)[q] == b[q + 1]);
        }
        lemma_lex_skip(a.skip(1), b.skip(1), i - 1);
        assert(a.skip(1).skip(i - 1) =~= a.skip(i));
        assert(b.skip(1).skip(i - 1) =~= b.skip(i));
    } else {
        assert(a.skip(0) =~= a);
        assert(b.skip(0) =~= b);
    }
}

/// The order is total: two paths compare one way, the other, or are equal.
proof fn lemma_lex_trichotomy(a: Seq<u8>, b: Seq<u8>)
    ensures
        lex_lt(a, b) || lex_lt(b, a) || a == b,
    decreases a.len(),
{
    if a.len() == 0 && b.len() == 0 {
        assert(a =~= b);
    } else if a.len() == 0 || b.len() == 0 {
    } else if a[0] != b[0] {
    } else {
        lemma_lex_trichotomy(a.skip(1), b.skip(1));
        if !lex_lt(a, b) && !lex_lt(b, a) {
            assert(a.skip(1) == b.skip(1));
            assert forall|q: int| 0 <= q < a.len() implies a[q] == b[q] by {
                if q > 0 {
                    assert(a.skip(1)[q - 1] == a[q]);
                    assert(b.skip(1)[q - 1] == b[q]);
                }
            }
            assert(a =~= b);
        }
    }
}

/// The order is transitive.
proof fn lemma_lex_trans(a: Seq<u8>, b: Seq<u8>, c: Seq<u8>)
    requires
        lex_lt(a, b),
        lex_lt(b, c),
    ensures
        lex_lt(a, c),
    decreases a.len(),
{
    if a.len() == 0 {
    } else {
        if a[0] == b[0] && b[0] == c[0] {
            lemma_lex_trans(a.skip(1), b.skip(1), c.skip(1));
        }
    }
}

/// Byte-wise lexicographic comparison.
pub fn bytes_lt(a: &Vec<u8>, b: &Vec<u8>) -> (r: bool)
    ensures
        r == lex_lt(a@, b@),
{
    let mut i: usize = 0;
    while i < a.len() && i < b.len()
        invariant
            i <= a@.len(),
            i <= b@.len(),
            forall|q: int| 0 <= q < i ==> a@[q] == b@[q],
        decreases a@.len() - i,
    {
        if a[i] < b[i] {
            proof {
                lemma_lex_skip(a@, b@, i as int);
                assert(a@.skip(i as int)[0] == a@[i as int]);
                assert(b@.skip(i as int)[0] == b@[i as int]);
            }
            return true;
        }
        if a[i] > b[i] {
            proof {
                lemma_lex_skip(a@, b@, i as int);
                assert(a@.skip(i as int)[0] == a@[i as int]);
                assert(b@.skip(i as int)[0] == b@[i as int]);
            }
            return false;
        }
        i = i + 1;
    }
    proof {
        lemma_lex_skip(a@, b@, i as int);
    }
    a.len() < b.len()
}

/// The views of a path list.
pub open spec fn path_views(xs: Seq<Vec<u8>>) -> Seq<Seq<u8>> {
    xs.map_values(|v: Vec<u8>| v@)
}

/// Sort the paths and remove exact duplicates.
///
/// The result is strictly ascending — so duplicate-free — and holds exactly
/// the paths of the input.
#[verifier::loop_isolation(false)]
pub fn sort_dedup_paths(paths: &Vec<Vec<u8>>) -> (r: Vec<Vec<u8>>)
    ensures
        forall|p: int, q: int|
            0 <= p < q < r@.len() ==> lex_lt(#[trigger] r@[p]@, #[trigger] r@[q]@),
        forall|x: Seq<u8>| path_views(r@).contains(x) <==> path_views(paths@).contains(x),
{
    let mut out: Vec<Vec<u8>> = Vec::new();
    let n = paths.len();
    let mut i: usize = 0;
    proof {
        assert(path_views(paths@).take(0) =~= Seq::<Seq<u8>>::empty());
    }
    while i < n
        invariant
            i <= n == paths@.len(),
            forall|p: int, q: int|
                0 <= p < q < out@.len() ==> lex_lt(#[trigger] out@[p]@, #[trigger] out@[q]@),
            forall|x: Seq<u8>|
                path_views(out@).contains(x) <==> path_views(paths@).take(i as int).contains(x),
        decreases n - i,
    {
        let ghost out0 = out@;
        let p = &paths[i];
        proof {
            assert(path_views(paths@)[i as int] == p@);
        }
        let m = out.len();
        let mut k: usize = 0;
        while k < m && bytes_lt(&out[k], p)
            invariant
                k <= m == out@.len(),
                out@ =~= out0,
                forall|q: int| 0 <= q < k ==> lex_lt(#[trigger] out@[q]@, p@),
            decreases m - k,
        {
            k = k + 1;
        }
        let mut duplicate = false;
        if k < m {
            duplicate = bytes_eq(&out[k], p);
        }
        if duplicate {
            proof {
                assert(path_views(out@)[k as int] == p@);
                assert(path_views(out@).contains(p@));
                assert forall|x: Seq<u8>|
                    path_views(out@).contains(x) <==> path_views(paths@).take(
                        i + 1,
                    ).contains(x) by {
                    lemma_take_step_contains(path_views(paths@), i as int, x);
                }
            }
        } else {
            proof {
                if k < out@.len() {
                    lemma_lex_trichotomy(out@[k as int]@, p@);
                    assert(lex_lt(p@, out@[k as int]@));
                }
            }
            let fresh = crate::mapping::copy_bytes(p);
            out.insert(k, fresh);
            proof {
                let prev = out0;
                prev.insert_ensures(k as int, fresh);
                assert(out@ == prev.insert(k as int, fresh));
                assert(out@.len() == prev.len() + 1);
                assert(out@[k as int] == fresh);
                assert forall|w: int| k < w < out@.len() implies out@[w] == prev[w - 1] by {
                    assert(prev.insert(k as int, fresh)[(w - 1) + 1] == prev[w - 1]);
                }
                assert(out@[k as int]@ == p@);
                assert forall|u: int, q: int|
                    0 <= u < q < out@.len() implies lex_lt(
                    #[trigger] out@[u]@,
                    #[trigger] out@[q]@,
                ) by {
                    if q < k {
                        assert(out@[u] == prev[u] && out@[q] == prev[q]);
                    } else if u > k {
                        assert(out@[u] == prev[u - 1] && out@[q] == prev[q - 1]);
                    } else if u < k && q == k {
                        assert(out@[u] == prev[u]);
                        assert(lex_lt(prev[u]@, p@));
                    } else if u == k && q > k {
                        assert(out@[q] == prev[q - 1]);
                        if k < prev.len() {
                            if k <= q - 1 - 1 {
                                assert(lex_lt(prev[k as int]@, prev[q - 1]@));
                                lemma_lex_trans(p@, prev[k as int]@, prev[q - 1]@);
                            } else {
                                assert(q - 1 == k);
                            }
                        }
                    } else if u < k && q > k {
                        assert(out@[u] == prev[u] && out@[q] == prev[q - 1]);
                        assert(lex_lt(prev[u]@, p@));
                        if q - 1 == k {
                            assert(lex_lt(p@, prev[k as int]@));
                        } else {
                            assert(lex_lt(prev[k as int]@, prev[q - 1]@));
                            lemma_lex_trans(p@, prev[k as int]@, prev[q - 1]@);
                        }
                        lemma_lex_trans(prev[u]@, p@, out@[q]@);
                    }
                }
                assert forall|x: Seq<u8>|
                    path_views(out@).contains(x) implies path_views(paths@).take(
                        i + 1,
                    ).contains(x) by {
                    lemma_take_step_contains(path_views(paths@), i as int, x);
                    let w = choose|w: int|
                        0 <= w < path_views(out@).len() && #[trigger] path_views(out@)[w] == x;
                    if w < k {
                        assert(path_views(prev)[w] == x);
                        assert(path_views(prev).contains(x));
                    } else if w == k {
                        assert(x == p@);
                    } else {
                        assert(out@[w] == prev[w - 1]);
                        assert(path_views(prev)[w - 1] == x);
                        assert(path_views(prev).contains(x));
                    }
                }
                assert forall|x: Seq<u8>|
                    path_views(paths@).take(i + 1).contains(x) implies path_views(
                        out@,
                    ).contains(x) by {
                    lemma_take_step_contains(path_views(paths@), i as int, x);
                    if x == p@ {
                        assert(path_views(out@)[k as int] == x);
                        assert(path_views(out@).contains(x));
                    } else {
                        assert(path_views(paths@).take(i as int).contains(x));
                        assert(path_views(prev).contains(x));
                        let w = choose|w: int|
                            0 <= w < path_views(prev).len() && #[trigger] path_views(prev)[w]
                                == x;
                        if w < k {
                            assert(path_views(out@)[w] == x);
                            assert(path_views(out@).contains(x));
                        } else {
                            assert(out@[w + 1] == prev[w]);
                            assert(path_views(out@)[w + 1] == x);
                            assert(path_views(out@).contains(x));
                        }
                    }
                }
            }
        }
        i = i + 1;
    }
    proof {
        assert(path_views(paths@).take(n as int) =~= path_views(paths@));
    }
    out
}

proof fn lemma_take_step_contains(s: Seq<Seq<u8>>, i: int, x: Seq<u8>)
    requires
        0 <= i < s.len(),
    ensures
        s.take(i + 1).contains(x) <==> (s.take(i).contains(x) || x == s[i]),
{
    if s.take(i + 1).contains(x) {
        let w = choose|w: int| 0 <= w < i + 1 && #[trigger] s.take(i + 1)[w] == x;
        if w < i {
            assert(s.take(i)[w] == x);
        } else {
            assert(s[i] == x);
        }
    }
    if s.take(i).contains(x) {
        let w = choose|w: int| 0 <= w < i && #[trigger] s.take(i)[w] == x;
        assert(s.take(i + 1)[w] == x);
    }
    if x == s[i] {
        assert(s.take(i + 1)[i] == x);
    }
}

/// A wallpaper candidate: its listed path and, when resolution succeeded,
/// its resolved symlink-free path.
#[derive(Debug, Clone)]
pub struct Candidate {
    /// The path as listed in its directory.
    pub path: Vec<u8>,
    /// The resolved path, `None` when resolution failed.
    pub canonical: Option<Vec<u8>>,
}

/// Mathematical form of a candidate.
pub struct CandModel {
    pub path: Seq<u8>,
    pub canonical: Option<Seq<u8>>,
}

impl View for Candidate {
    type V = CandModel;

    open spec fn view(&self) -> CandModel {
        CandModel {
            path: self.path@,
            canonical: match &self.canonical {
                Some(c) => Some(c@),
                None => None,
            },
        }
    }
}

/// The views of a candidate list.
pub open spec fn cand_views(xs: Seq<Candidate>) -> Seq<CandModel> {
    xs.map_values(|x: Candidate| x@)
}

/// Position of the first candidate whose resolved path is `cur`.
pub open spec fn find_current(cs: Seq<CandModel>, cur: Seq<u8>) -> Option<int>
    decreases cs.len(),
{
    if cs.len() == 0 {
        None
    } else if cs[0].canonical == Some(cur) {
        Some(0int)
    } else {
        match find_current(cs.skip(1), cur) {
            Some(i) => Some(i + 1),
            None => None,
        }
    }
}

/// The index the rotation picks: the candidate after the current one,
/// wrapping around; the first candidate when no current one is known or
/// none matches.
pub open spec fn spec_pick_next(cs: Seq<CandModel>, cur: Option<Seq<u8>>) -> int
    recommends
        cs.len() > 0,
{
    match cur {
        None => 0,
        Some(c) => match find_current(cs, c) {
            Some(i) => (i + 1) % (cs.len() as int),
            None => 0,
        },
    }
}

proof fn lemma_find_current_at(cs: Seq<CandModel>, cur: Seq<u8>, i: int)
    requires
        0 <= i < cs.len(),
        cs[i].canonical == Some(cur),
        forall|q: int| 0 <= q < i ==> (#[trigger] cs[q]).canonical != Some(cur),
    ensures
        find_current(cs, cur) == Some(i),
    decreases cs.len(),
{
    if i == 0 {
    } else {
        assert forall|q: int| 0 <= q < i - 1 implies (#[trigger] cs.skip(1)[q]).canonical != Some(
            cur,
        ) by {
            assert(cs.skip(1)[q] == cs[q + 1]);
        }
        assert(cs.skip(1)[i - 1] == cs[i]);
        lemma_find_current_at(cs.skip(1), cur, i - 1);
    }
}

proof fn lemma_find_current_none(cs: Seq<CandModel>, cur: Seq<u8>)
    requires
        forall|q: int| 0 <= q < cs.len() ==> (#[trigger] cs[q]).canonical != Some(cur),
    ensures
        find_current(cs, cur) is None,
    decreases cs.len(),
{
    if cs.len() > 0 {
        assert forall|q: int|
            0 <= q < cs.len() - 1 implies (#[trigger] cs.skip(1)[q]).canonical != Some(cur) by {
            assert(cs.skip(1)[q] == cs[q + 1]);
        }
        lemma_find_current_none(cs.skip(1), cur);
    }
}

/// Pick the index of the next wallpaper: the candidate after the one whose
/// resolved path equals `current`, wrapping around; the first candidate
/// when none matches or no current path is known.
#[verifier::loop_isolation(false)]
pub fn pick_next(candidates: &Vec<Candidate>, current: Option<&Vec<u8>>) -> (r: usize)
    requires
        candidates@.len() > 0,
    ensures
        r < candidates@.len(),
        r == spec_pick_next(
            cand_views(candidates@),
            match current {
                Some(c) => Some(c@),
                None => None,
            },
        ),
{
    let ghost cs = cand_views(candidates@);
    match current {
        None => 0,
        Some(cur) => {
            let n = candidates.len();
            let mut i: usize = 0;
            while i < n
                invariant
                    i <= n == candidates@.len(),
                    cs == cand_views(candidates@),
                    forall|q: int| 0 <= q < i ==> (#[trigger] cs[q]).canonical != Some(cur@),
                decreases n - i,
            {
                let cand = &candidates[i];
                proof {
                    assert(cs[i as int] == candidates@[i as int]@);
                }
                let hit: bool;
                match &cand.canonical {
                    Some(c) => {
                        hit = bytes_eq(c, cur);
                        proof {
                            if hit {
                                assert(cand@.canonical == Some(cur@));
                            } else {
                                assert(cand@.canonical != Some(cur@));
                            }
                        }
                    },
                    None => {
                        hit = false;
                        proof {
                            assert(cand@.canonical is None);
                        }
                    },
                }
                if hit {
                    proof {
                        lemma_find_current_at(cs, cur@, i as int);
                        assert(spec_pick_next(cs, Some(cur@)) == (i + 1) % (cs.len() as int));
                    }
                    return (i + 1) % n;
                }
                i = i + 1;
            }
            proof {
                lemma_find_current_none(cs, cur@);
            }
            0
        },
    }
}

} // verus!
