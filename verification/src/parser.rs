//! Template tokenizer: splits template text into literal runs and `{{ key }}`
//! variable references.
//!
//! Parsing is total: an unterminated `{{` or an empty `{{ }}` degrades to
//! literal text instead of failing.

use vstd::prelude::*;

verus! {

/// Byte value of `{`.
pub const OPEN_BYTE: u8 = 123;
/// Byte value of `}`.
pub const CLOSE_BYTE: u8 = 125;
/// Byte value of a space.
pub const SPACE_BYTE: u8 = 32;

/// Mathematical form of a parsed segment.
pub enum SegModel {
    /// Literal bytes emitted verbatim.
    Lit(Seq<u8>),
    /// A variable reference: the trimmed name between `{{` and `}}`.
    Var(Seq<u8>),
}

/// A parsed segment of a template.
#[derive(Debug, Clone, PartialEq)]
pub enum Segment {
    /// Literal bytes to emit verbatim.
    Lit(Vec<u8>),
    /// Variable name (contents between `{{` and `}}`, trimmed).
    Var(Vec<u8>),
}

impl View for Segment {
    type V = SegModel;

    open spec fn view(&self) -> SegModel {
        match self {
            Segment::Lit(t) => SegModel::Lit(t@),
            Segment::Var(k) => SegModel::Var(k@),
        }
    }
}

/// The views of a sequence of segments.
pub open spec fn seg_views(xs: Seq<Segment>) -> Seq<SegModel> {
    xs.map_values(|x: Segment| x@)
}

/// The two bytes `b0 b1` stand at position `i` of `s`.
pub open spec fn is_pair_at(s: Seq<u8>, b0: u8, b1: u8, i: int) -> bool {
    0 <= i && i + 1 < s.len() && s[i] == b0 && s[i + 1] == b1
}

/// Index of the first occurrence of the two-byte marker `b0 b1` in `s`.
pub open spec fn find_pair(s: Seq<u8>, b0: u8, b1: u8) -> Option<int>
    decreases s.len(),
{
    if s.len() < 2 {
        None
    } else if s[0] == b0 && s[1] == b1 {
        Some(0int)
    } else {
        match find_pair(s.skip(1), b0, b1) {
            Some(i) => Some(i + 1),
            None => None,
        }
    }
}

/// `find_pair` returns the least marker position, or `None` when no marker
/// occurs anywhere.
pub proof fn lemma_find_pair(s: Seq<u8>, b0: u8, b1: u8)
    ensures
        match find_pair(s, b0, b1) {
            Some(i) => is_pair_at(s, b0, b1, i) && (forall|j: int|
                0 <= j < i ==> !is_pair_at(s, b0, b1, j)),
            None => forall|j: int| !is_pair_at(s, b0, b1, j),
        },
    decreases s.len(),
{
    if s.len() < 2 {
    } else if s[0] == b0 && s[1] == b1 {
    } else {
        lemma_find_pair(s.skip(1), b0, b1);
        assert forall|j: int| 1 <= j implies #[trigger] is_pair_at(s, b0, b1, j)
            == is_pair_at(s.skip(1), b0, b1, j - 1) by {
            if 0 <= j - 1 && j < s.len() - 1 {
                assert(s.skip(1)[j - 1] == s[j]);
                assert(s.skip(1)[j] == s[j + 1]);
            }
        }
    }
}

/// When `i` is a marker position and no marker stands between `from` and `i`,
/// searching the suffix that starts at `from` finds exactly `i - from`.
proof fn lemma_find_pair_some(s: Seq<u8>, from: int, i: int, b0: u8, b1: u8)
    requires
        0 <= from <= i,
        is_pair_at(s, b0, b1, i),
        forall|j: int| from <= j < i ==> !is_pair_at(s, b0, b1, j),
    ensures
        find_pair(s.skip(from), b0, b1) == Some(i - from),
{
    lemma_find_pair(s.skip(from), b0, b1);
    assert forall|k: int| 0 <= k implies #[trigger] is_pair_at(s.skip(from), b0, b1, k)
        == is_pair_at(s, b0, b1, from + k) by {
        if k + 1 < s.len() - from {
            assert(s.skip(from)[k] == s[from + k]);
            assert(s.skip(from)[k + 1] == s[from + k + 1]);
        }
    }
    assert(is_pair_at(s.skip(from), b0, b1, i - from));
}

/// When no marker stands at or after `from`, searching the suffix that starts
/// at `from` finds nothing.
proof fn lemma_find_pair_none(s: Seq<u8>, from: int, b0: u8, b1: u8)
    requires
        0 <= from <= s.len(),
        forall|j: int| from <= j ==> !is_pair_at(s, b0, b1, j),
    ensures
        find_pair(s.skip(from), b0, b1) is None,
{
    lemma_find_pair(s.skip(from), b0, b1);
    assert forall|k: int| 0 <= k implies !(#[trigger] is_pair_at(s.skip(from), b0, b1, k)) by {
        if k + 1 < s.len() - from {
            assert(s.skip(from)[k] == s[from + k]);
            assert(s.skip(from)[k + 1] == s[from + k + 1]);
            assert(!is_pair_at(s, b0, b1, from + k));
        }
    }
    if find_pair(s.skip(from), b0, b1) is Some {
        let k = find_pair(s.skip(from), b0, b1)->0;
        assert(is_pair_at(s.skip(from), b0, b1, k));
    }
}

/// An ASCII whitespace byte, as the tokenizer trims it from variable names.
pub open spec fn is_ws(b: u8) -> bool {
    b == 32 || b == 9 || b == 10 || b == 11 || b == 12 || b == 13
}

/// `s` without its leading whitespace bytes.
pub open spec fn trim_front(s: Seq<u8>) -> Seq<u8>
    decreases s.len(),
{
    if s.len() > 0 && is_ws(s[0]) {
        trim_front(s.skip(1))
    } else {
        s
    }
}

/// `s` without its trailing whitespace bytes.
pub open spec fn trim_back(s: Seq<u8>) -> Seq<u8>
    decreases s.len(),
{
    if s.len() > 0 && is_ws(s[s.len() - 1]) {
        trim_back(s.take(s.len() - 1))
    } else {
        s
    }
}

/// `s` without leading and trailing whitespace bytes.
pub open spec fn trim_bytes(s: Seq<u8>) -> Seq<u8> {
    trim_back(trim_front(s))
}

proof fn lemma_trim_front_is_skip(s: Seq<u8>, k: int)
    requires
        0 <= k <= s.len(),
        forall|j: int| 0 <= j < k ==> is_ws(#[trigger] s[j]),
        k == s.len() || !is_ws(s[k]),
    ensures
        trim_front(s) == s.skip(k),
    decreases k,
{
    if k == 0 {
        assert(s.skip(0) =~= s);
    } else {
        assert(is_ws(s[0]));
        lemma_trim_front_is_skip(s.skip(1), k - 1);
        assert(s.skip(1).skip(k - 1) =~= s.skip(k));
    }
}

proof fn lemma_trim_back_is_take(s: Seq<u8>, k: int)
    requires
        0 <= k <= s.len(),
        forall|j: int| k <= j < s.len() ==> is_ws(#[trigger] s[j]),
        k == 0 || !is_ws(s[k - 1]),
    ensures
        trim_back(s) == s.take(k),
    decreases s.len() - k,
{
    if k == s.len() {
        assert(s.take(k) =~= s);
    } else {
        assert(is_ws(s[s.len() - 1]));
        lemma_trim_back_is_take(s.take(s.len() - 1), k);
        assert(s.take(s.len() - 1).take(k) =~= s.take(k));
    }
}

/// The segments that parsing `s` produces.
///
/// A literal run stands before each marker; an unterminated `{{` keeps the
/// rest as one literal; an empty reference keeps its whole `{{ ... }}` span
/// as a literal; otherwise the trimmed name becomes a variable reference.
pub open spec fn spec_parse(s: Seq<u8>) -> Seq<SegModel>
    decreases s.len(),
    via spec_parse_decreases
{
    if s.len() == 0 {
        Seq::empty()
    } else {
        match find_pair(s, OPEN_BYTE, OPEN_BYTE) {
            None => seq![SegModel::Lit(s)],
            Some(i) => {
                let pre: Seq<SegModel> = if i > 0 {
                    seq![SegModel::Lit(s.take(i))]
                } else {
                    Seq::empty()
                };
                match find_pair(s.skip(i + 2), CLOSE_BYTE, CLOSE_BYTE) {
                    None => pre + seq![SegModel::Lit(s.skip(i))],
                    Some(j) => {
                        let key = trim_bytes(s.skip(i + 2).take(j));
                        let head = if key.len() == 0 {
                            SegModel::Lit(s.subrange(i, i + 2 + j + 2))
                        } else {
                            SegModel::Var(key)
                        };
                        pre + seq![head] + spec_parse(s.skip(i + 2 + j + 2))
                    }
                }
            }
        }
    }
}

#[via_fn]
proof fn spec_parse_decreases(s: Seq<u8>) {
    if s.len() != 0 {
        lemma_find_pair(s, OPEN_BYTE, OPEN_BYTE);
        match find_pair(s, OPEN_BYTE, OPEN_BYTE) {
            Some(i) => {
                lemma_find_pair(s.skip(i + 2), CLOSE_BYTE, CLOSE_BYTE);
            }
            None => {}
        }
    }
}

/// The canonical `{{ key }}` text of a variable reference.
pub open spec fn marker_of(k: Seq<u8>) -> Seq<u8> {
    seq![OPEN_BYTE, OPEN_BYTE, SPACE_BYTE] + k + seq![SPACE_BYTE, CLOSE_BYTE, CLOSE_BYTE]
}

/// The text a segment stands for: literal text verbatim, the canonical
/// marker for a variable reference.
pub open spec fn seg_text(m: SegModel) -> Seq<u8> {
    match m {
        SegModel::Lit(t) => t,
        SegModel::Var(k) => marker_of(k),
    }
}

/// The text a segment sequence stands for.
pub open spec fn unparse(segs: Seq<SegModel>) -> Seq<u8>
    decreases segs.len(),
{
    if segs.len() == 0 {
        Seq::empty()
    } else {
        seg_text(segs[0]) + unparse(segs.skip(1))
    }
}

proof fn lemma_unparse_app(a: Seq<SegModel>, b: Seq<SegModel>)
    ensures
        unparse(a + b) == unparse(a) + unparse(b),
    decreases a.len(),
{
    if a.len() == 0 {
        assert(a + b =~= b);
        assert(unparse(a) + unparse(b) =~= unparse(b));
    } else {
        assert((a + b)[0] == a[0]);
        assert((a + b).skip(1) =~= a.skip(1) + b);
        lemma_unparse_app(a.skip(1), b);
        assert(seg_text(a[0]) + (unparse(a.skip(1)) + unparse(b)) =~= (seg_text(a[0]) + unparse(
            a.skip(1),
        )) + unparse(b));
    }
}

proof fn lemma_unparse_single(m: SegModel)
    ensures
        unparse(seq![m]) == seg_text(m),
{
    assert(seq![m].len() == 1);
    assert(seq![m][0] == m);
    assert(seq![m].skip(1) =~= Seq::<SegModel>::empty());
    assert(unparse(seq![m].skip(1)) == Seq::<u8>::empty());
    assert(unparse(seq![m]) == seg_text(m) + Seq::<u8>::empty());
    assert(seg_text(m) + Seq::<u8>::empty() =~= seg_text(m));
}

proof fn lemma_trim_front_first(s: Seq<u8>)
    ensures
        trim_front(s).len() > 0 ==> !is_ws(trim_front(s)[0]),
    decreases s.len(),
{
    if s.len() > 0 && is_ws(s[0]) {
        lemma_trim_front_first(s.skip(1));
    }
}

proof fn lemma_trim_back_last(s: Seq<u8>)
    ensures
        trim_back(s).len() > 0 ==> !is_ws(trim_back(s)[trim_back(s).len() - 1]),
    decreases s.len(),
{
    if s.len() > 0 && is_ws(s[s.len() - 1]) {
        lemma_trim_back_last(s.take(s.len() - 1));
    }
}

proof fn lemma_trim_back_first(s: Seq<u8>)
    ensures
        trim_back(s).len() > 0 ==> s.len() > 0 && trim_back(s)[0] == s[0],
    decreases s.len(),
{
    if s.len() > 0 && is_ws(s[s.len() - 1]) {
        lemma_trim_back_first(s.take(s.len() - 1));
        if trim_back(s).len() > 0 {
            assert(s.take(s.len() - 1)[0] == s[0]);
        }
    }
}

/// A nonempty trimmed name neither begins nor ends with whitespace.
proof fn lemma_key_shape(u: Seq<u8>)
    ensures
        trim_bytes(u).len() > 0 ==> !is_ws(trim_bytes(u)[0]) && !is_ws(
            trim_bytes(u)[trim_bytes(u).len() - 1],
        ),
{
    lemma_trim_front_first(u);
    lemma_trim_back_last(trim_front(u));
    lemma_trim_back_first(trim_front(u));
}

/// Trimming the canonical ` key ` body gives the name back.
proof fn lemma_trim_marker_body(key: Seq<u8>)
    requires
        key.len() > 0,
        !is_ws(key[0]),
        !is_ws(key[key.len() - 1]),
    ensures
        trim_bytes(seq![SPACE_BYTE] + key + seq![SPACE_BYTE]) == key,
{
    let w = seq![SPACE_BYTE] + key + seq![SPACE_BYTE];
    assert(is_ws(w[0]));
    assert(w.skip(1) =~= key + seq![SPACE_BYTE]);
    let x = key + seq![SPACE_BYTE];
    assert(x[0] == key[0]);
    assert(trim_front(x) == x);
    assert(trim_front(w) == x);
    assert(is_ws(x[x.len() - 1]));
    assert(x.take(x.len() - 1) =~= key);
    assert(trim_back(key) == key);
    assert(trim_back(x) == trim_back(key));
}

proof fn lemma_trim_front_no_pair(u: Seq<u8>, b0: u8, b1: u8)
    requires
        forall|p: int| !is_pair_at(u, b0, b1, p),
    ensures
        forall|p: int| !is_pair_at(trim_front(u), b0, b1, p),
    decreases u.len(),
{
    if u.len() > 0 && is_ws(u[0]) {
        assert forall|p: int| !(#[trigger] is_pair_at(u.skip(1), b0, b1, p)) by {
            if 0 <= p && p + 1 < u.len() - 1 {
                assert(u.skip(1)[p] == u[p + 1]);
                assert(u.skip(1)[p + 1] == u[p + 2]);
                assert(!is_pair_at(u, b0, b1, p + 1));
            }
        }
        lemma_trim_front_no_pair(u.skip(1), b0, b1);
        assert forall|p: int| !(#[trigger] is_pair_at(trim_front(u), b0, b1, p)) by {
            assert(!is_pair_at(trim_front(u.skip(1)), b0, b1, p));
        }
    }
}

proof fn lemma_trim_back_no_pair(u: Seq<u8>, b0: u8, b1: u8)
    requires
        forall|p: int| !is_pair_at(u, b0, b1, p),
    ensures
        forall|p: int| !is_pair_at(trim_back(u), b0, b1, p),
    decreases u.len(),
{
    if u.len() > 0 && is_ws(u[u.len() - 1]) {
        assert forall|p: int| !(#[trigger] is_pair_at(u.take(u.len() - 1), b0, b1, p)) by {
            if 0 <= p && p + 1 < u.len() - 1 {
                assert(u.take(u.len() - 1)[p] == u[p]);
                assert(u.take(u.len() - 1)[p + 1] == u[p + 1]);
                assert(!is_pair_at(u, b0, b1, p));
            }
        }
        lemma_trim_back_no_pair(u.take(u.len() - 1), b0, b1);
        assert forall|p: int| !(#[trigger] is_pair_at(trim_back(u), b0, b1, p)) by {
            assert(!is_pair_at(trim_back(u.take(u.len() - 1)), b0, b1, p));
        }
    }
}

/// Trimming keeps a name free of `}}` markers.
proof fn lemma_trim_no_pair(u: Seq<u8>, b0: u8, b1: u8)
    requires
        forall|p: int| !is_pair_at(u, b0, b1, p),
    ensures
        forall|p: int| !is_pair_at(trim_bytes(u), b0, b1, p),
{
    lemma_trim_front_no_pair(u, b0, b1);
    lemma_trim_back_no_pair(trim_front(u), b0, b1);
}

/// When the first `{{` of `t` stands at `i` and the first `}}` at or after
/// `i + 2` stands at `c`, parsing `t` yields the literal before `i`, the
/// marker's segment, and then the parse of what follows the `}}`.
proof fn lemma_parse_one_marker(t: Seq<u8>, i: int, c: int)
    requires
        0 <= i,
        i + 2 <= c,
        c + 2 <= t.len(),
        forall|p: int| 0 <= p < i ==> !is_pair_at(t, OPEN_BYTE, OPEN_BYTE, p),
        is_pair_at(t, OPEN_BYTE, OPEN_BYTE, i),
        forall|p: int| i + 2 <= p < c ==> !is_pair_at(t, CLOSE_BYTE, CLOSE_BYTE, p),
        is_pair_at(t, CLOSE_BYTE, CLOSE_BYTE, c),
    ensures
        spec_parse(t) == (if i > 0 {
            seq![SegModel::Lit(t.take(i))]
        } else {
            Seq::<SegModel>::empty()
        }) + seq![
            (if trim_bytes(t.subrange(i + 2, c)).len() == 0 {
                SegModel::Lit(t.subrange(i, c + 2))
            } else {
                SegModel::Var(trim_bytes(t.subrange(i + 2, c)))
            }),
        ] + spec_parse(t.skip(c + 2)),
{
    lemma_find_pair_some(t, 0, i, OPEN_BYTE, OPEN_BYTE);
    assert(t.skip(0) =~= t);
    lemma_find_pair_some(t, i + 2, c, CLOSE_BYTE, CLOSE_BYTE);
    let j = c - (i + 2);
    assert(t.skip(i + 2).take(j) =~= t.subrange(i + 2, c));
    assert(t.skip(i + 2 + j + 2) =~= t.skip(c + 2));
    assert(t.subrange(i, i + 2 + j + 2) =~= t.subrange(i, c + 2));
}

/// Parsing is idempotent under reconstruction: write the parse of any input
/// back out — literal segments verbatim, each variable reference in its
/// canonical `{{ name }}` form — and parsing the reconstruction yields the
/// same segments again.
#[verifier::rlimit(60)]
pub proof fn lemma_parse_round_trip(s: Seq<u8>)
    ensures
        spec_parse(unparse(spec_parse(s))) == spec_parse(s),
    decreases s.len(),
{
    lemma_find_pair(s, OPEN_BYTE, OPEN_BYTE);
    if s.len() == 0 {
    } else {
        match find_pair(s, OPEN_BYTE, OPEN_BYTE) {
            None => {
                lemma_unparse_single(SegModel::Lit(s));
            },
            Some(i) => {
                lemma_find_pair(s.skip(i + 2), CLOSE_BYTE, CLOSE_BYTE);
                let pre: Seq<SegModel> = if i > 0 {
                    seq![SegModel::Lit(s.take(i))]
                } else {
                    Seq::empty()
                };
                if i > 0 {
                    lemma_unparse_single(SegModel::Lit(s.take(i)));
                }
                assert(unparse(pre) =~= s.take(i));
                match find_pair(s.skip(i + 2), CLOSE_BYTE, CLOSE_BYTE) {
                    None => {
                        lemma_unparse_app(pre, seq![SegModel::Lit(s.skip(i))]);
                        lemma_unparse_single(SegModel::Lit(s.skip(i)));
                        assert(unparse(spec_parse(s)) =~= s.take(i) + s.skip(i));
                        assert(s.take(i) + s.skip(i) =~= s);
                        assert(unparse(spec_parse(s)) == s);
                    },
                    Some(j) => {
                        let c = i + 2 + j;
                        let rest = s.skip(c + 2);
                        let u = s.subrange(i + 2, c);
                        assert(s.skip(i + 2).take(j) =~= u);
                        let key = trim_bytes(u);
                        let head: SegModel = if key.len() == 0 {
                            SegModel::Lit(s.subrange(i, c + 2))
                        } else {
                            SegModel::Var(key)
                        };
                        assert(s.skip(i + 2 + j + 2) =~= rest);
                        assert(s.subrange(i, i + 2 + j + 2) =~= s.subrange(i, c + 2));
                        assert(spec_parse(s) == pre + seq![head] + spec_parse(rest));
                        lemma_parse_round_trip(rest);
                        let t_rest = unparse(spec_parse(rest));
                        lemma_unparse_app(pre + seq![head], spec_parse(rest));
                        lemma_unparse_app(pre, seq![head]);
                        lemma_unparse_single(head);
                        assert((pre + seq![head]) + spec_parse(rest) =~= pre + seq![head]
                            + spec_parse(rest));
                        let t = unparse(spec_parse(s));
                        assert(t == (s.take(i) + seg_text(head)) + t_rest);
                        // facts about the close search in `s`
                        assert forall|p: int| i + 2 <= p < c implies !is_pair_at(
                            s,
                            CLOSE_BYTE,
                            CLOSE_BYTE,
                            p,
                        ) by {
                            if p + 1 < s.len() {
                                assert(s.skip(i + 2)[p - i - 2] == s[p]);
                                assert(s.skip(i + 2)[p - i - 1] == s[p + 1]);
                                assert(!is_pair_at(s.skip(i + 2), CLOSE_BYTE, CLOSE_BYTE, p - i
                                    - 2));
                            }
                        }
                        if key.len() == 0 {
                            assert(t =~= s.take(c + 2) + t_rest);
                            assert forall|p: int| 0 <= p < c + 2 implies t[p] == s[p] by {
                                assert(t[p] == s.take(c + 2)[p]);
                            }
                            assert forall|p: int| 0 <= p < i implies !is_pair_at(
                                t,
                                OPEN_BYTE,
                                OPEN_BYTE,
                                p,
                            ) by {
                                assert(!is_pair_at(s, OPEN_BYTE, OPEN_BYTE, p));
                            }
                            assert(is_pair_at(t, OPEN_BYTE, OPEN_BYTE, i));
                            assert forall|p: int| i + 2 <= p < c implies !is_pair_at(
                                t,
                                CLOSE_BYTE,
                                CLOSE_BYTE,
                                p,
                            ) by {
                                assert(!is_pair_at(s, CLOSE_BYTE, CLOSE_BYTE, p));
                            }
                            assert(is_pair_at(t, CLOSE_BYTE, CLOSE_BYTE, c));
                            lemma_parse_one_marker(t, i, c);
                            assert(t.subrange(i + 2, c) =~= u);
                            assert(t.subrange(i, c + 2) =~= s.subrange(i, c + 2));
                            assert(t.take(i) =~= s.take(i));
                            assert(t.skip(c + 2) =~= t_rest);
                            assert(spec_parse(t) == pre + seq![head] + spec_parse(t_rest));
                        } else {
                            lemma_key_shape(u);
                            assert forall|p: int| !(#[trigger] is_pair_at(
                                u,
                                CLOSE_BYTE,
                                CLOSE_BYTE,
                                p,
                            )) by {
                                if 0 <= p && p + 1 < u.len() {
                                    assert(u[p] == s[i + 2 + p]);
                                    assert(u[p + 1] == s[i + 2 + p + 1]);
                                    assert(!is_pair_at(s, CLOSE_BYTE, CLOSE_BYTE, i + 2 + p));
                                }
                            }
                            lemma_trim_no_pair(u, CLOSE_BYTE, CLOSE_BYTE);
                            lemma_trim_marker_body(key);
                            let kl = key.len() as int;
                            let ci = i + 4 + kl;
                            assert(t =~= s.take(i) + marker_of(key) + t_rest);
                            assert forall|p: int| 0 <= p < i implies t[p] == s[p] by {
                                assert(t[p] == s.take(i)[p]);
                            }
                            assert forall|p: int| 0 <= p < 6 + kl implies t[i + p] == marker_of(
                                key,
                            )[p] by {
                                assert(t[i + p] == (s.take(i) + marker_of(key))[i + p]);
                            }
                            assert(t[i] == OPEN_BYTE);
                            assert(t[i + 1] == OPEN_BYTE);
                            assert(t[i + 2] == SPACE_BYTE);
                            assert forall|q: int| 0 <= q < kl implies t[i + 3 + q] == key[q] by {
                                assert(marker_of(key)[3 + q] == key[q]);
                            }
                            assert(t[i + 3 + kl] == SPACE_BYTE);
                            assert(t[ci] == CLOSE_BYTE);
                            assert(t[ci + 1] == CLOSE_BYTE);
                            assert(t.len() >= ci + 2);
                            assert forall|p: int| 0 <= p < i implies !is_pair_at(
                                t,
                                OPEN_BYTE,
                                OPEN_BYTE,
                                p,
                            ) by {
                                if p + 1 < i {
                                    assert(!is_pair_at(s, OPEN_BYTE, OPEN_BYTE, p));
                                } else {
                                    assert(t[p] == s[p]);
                                    assert(t[p + 1] == OPEN_BYTE);
                                    assert(s[i] == OPEN_BYTE);
                                    assert(!is_pair_at(s, OPEN_BYTE, OPEN_BYTE, p));
                                }
                            }
                            assert(is_pair_at(t, OPEN_BYTE, OPEN_BYTE, i));
                            assert(!is_ws(key[0]) && !is_ws(key[kl - 1]));
                            assert forall|p: int| i + 2 <= p < ci implies !is_pair_at(
                                t,
                                CLOSE_BYTE,
                                CLOSE_BYTE,
                                p,
                            ) by {
                                if p == i + 2 {
                                    assert(t[p] == SPACE_BYTE);
                                } else if p + 1 <= i + 2 + kl {
                                    assert(t[p] == key[p - i - 3]);
                                    assert(t[p + 1] == key[p - i - 2]);
                                    assert(!is_pair_at(key, CLOSE_BYTE, CLOSE_BYTE, p - i - 3));
                                } else if p == i + 3 + kl {
                                    assert(t[p] == SPACE_BYTE);
                                } else {
                                    assert(t[p + 1] == SPACE_BYTE);
                                }
                            }
                            assert(is_pair_at(t, CLOSE_BYTE, CLOSE_BYTE, ci));
                            lemma_parse_one_marker(t, i, ci);
                            assert(t.subrange(i + 2, ci) =~= seq![SPACE_BYTE] + key + seq![
                                SPACE_BYTE,
                            ]);
                            assert(trim_bytes(t.subrange(i + 2, ci)) == key);
                            assert(t.take(i) =~= s.take(i));
                            assert(t.skip(ci + 2) =~= t_rest);
                            assert(spec_parse(t) == pre + seq![head] + spec_parse(t_rest));
                        }
                        assert(spec_parse(t) == spec_parse(s));
                    },
                }
            },
        }
    }
}

/// An empty reference stays literal: `{{`, any whitespace, `}}` parses to a
/// single literal segment equal to the whole text.
pub proof fn lemma_empty_reference_is_literal(w: Seq<u8>)
    requires
        forall|q: int| 0 <= q < w.len() ==> is_ws(#[trigger] w[q]),
    ensures
        spec_parse(seq![OPEN_BYTE, OPEN_BYTE] + w + seq![CLOSE_BYTE, CLOSE_BYTE]) == seq![
            SegModel::Lit(seq![OPEN_BYTE, OPEN_BYTE] + w + seq![CLOSE_BYTE, CLOSE_BYTE]),
        ],
{
    let t = seq![OPEN_BYTE, OPEN_BYTE] + w + seq![CLOSE_BYTE, CLOSE_BYTE];
    let wl = w.len() as int;
    let c = 2 + wl;
    assert forall|p: int| 0 <= p < wl implies t[2 + p] == w[p] by {
        assert(t[2 + p] == (seq![OPEN_BYTE, OPEN_BYTE] + w)[2 + p]);
    }
    assert(t[0] == OPEN_BYTE && t[1] == OPEN_BYTE);
    assert(t[c] == CLOSE_BYTE && t[c + 1] == CLOSE_BYTE);
    assert(is_pair_at(t, OPEN_BYTE, OPEN_BYTE, 0));
    assert forall|p: int| 2 <= p < c implies !is_pair_at(t, CLOSE_BYTE, CLOSE_BYTE, p) by {
        assert(t[p] == w[p - 2]);
        assert(is_ws(t[p]));
    }
    assert(is_pair_at(t, CLOSE_BYTE, CLOSE_BYTE, c));
    lemma_parse_one_marker(t, 0, c);
    assert(t.subrange(2, c) =~= w);
    lemma_trim_front_is_skip(w, wl);
    assert(w.skip(wl) =~= Seq::<u8>::empty());
    assert(trim_bytes(w).len() == 0);
    assert(t.subrange(0, c + 2) =~= t);
    assert(t.skip(c + 2) =~= Seq::<u8>::empty());
    assert(Seq::<SegModel>::empty() + seq![SegModel::Lit(t)] + spec_parse(Seq::<u8>::empty())
        =~= seq![SegModel::Lit(t)]);
}

/// Copy of the bytes of `v` in the range `lo .. hi`.
pub fn copy_range(v: &Vec<u8>, lo: usize, hi: usize) -> (r: Vec<u8>)
    requires
        lo <= hi <= v@.len(),
    ensures
        r@ == v@.subrange(lo as int, hi as int),
{
    let mut out: Vec<u8> = Vec::new();
    let mut k = lo;
    while k < hi
        invariant
            lo <= k <= hi <= v@.len(),
            out@ =~= v@.subrange(lo as int, k as int),
        decreases hi - k,
    {
        out.push(v[k]);
        proof {
            assert(out@ =~= v@.subrange(lo as int, k + 1 as int));
        }
        k = k + 1;
    }
    out
}

/// First position `>= from` where the two bytes `b0 b1` stand in `s`.
fn find_pair_from(s: &Vec<u8>, from: usize, b0: u8, b1: u8) -> (r: Option<usize>)
    requires
        from <= s@.len(),
    ensures
        match r {
            Some(i) => from <= i && i + 1 < s@.len()
                && find_pair(s@.skip(from as int), b0, b1) == Some(i - from),
            None => find_pair(s@.skip(from as int), b0, b1) is None,
        },
{
    let n = s.len();
    let mut i = from;
    while n >= 1 && i < n - 1
        invariant
            from <= i <= n == s@.len(),
            forall|j: int| from <= j < i ==> !is_pair_at(s@, b0, b1, j),
        decreases n - i,
    {
        if s[i] == b0 && s[i + 1] == b1 {
            proof {
                lemma_find_pair_some(s@, from as int, i as int, b0, b1);
            }
            return Some(i);
        }
        i = i + 1;
    }
    proof {
        lemma_find_pair_none(s@, from as int, b0, b1);
    }
    None
}

fn is_ws_byte(b: u8) -> (r: bool)
    ensures
        r == is_ws(b),
{
    b == 32 || b == 9 || b == 10 || b == 11 || b == 12 || b == 13
}

/// Bounds of `s[lo0 .. hi0]` with surrounding whitespace removed.
pub fn trim_range(s: &Vec<u8>, lo0: usize, hi0: usize) -> (r: (usize, usize))
    requires
        lo0 <= hi0 <= s@.len(),
    ensures
        ({
            let (lo, hi) = r;
            lo0 <= lo && lo <= hi && hi <= hi0
                && s@.subrange(lo as int, hi as int)
                    == trim_bytes(s@.subrange(lo0 as int, hi0 as int))
        }),
{
    let mut lo = lo0;
    while lo < hi0 && is_ws_byte(s[lo])
        invariant
            lo0 <= lo <= hi0 <= s@.len(),
            forall|j: int| lo0 <= j < lo ==> is_ws(#[trigger] s@[j]),
        decreases hi0 - lo,
    {
        lo = lo + 1;
    }
    let mut hi = hi0;
    while hi > lo && is_ws_byte(s[hi - 1])
        invariant
            lo <= hi <= hi0 <= s@.len(),
            forall|j: int| hi <= j < hi0 ==> is_ws(#[trigger] s@[j]),
        decreases hi,
    {
        hi = hi - 1;
    }
    proof {
        let full = s@.subrange(lo0 as int, hi0 as int);
        assert forall|j: int| 0 <= j < lo - lo0 implies is_ws(#[trigger] full[j]) by {
            assert(full[j] == s@[lo0 + j]);
        }
        if lo < hi0 {
            assert(full[lo - lo0] == s@[lo as int]);
        }
        lemma_trim_front_is_skip(full, lo - lo0);
        let fronted = s@.subrange(lo as int, hi0 as int);
        assert(full.skip(lo - lo0) =~= fronted);
        assert forall|j: int| hi - lo <= j < fronted.len() implies is_ws(#[trigger] fronted[j]) by {
            assert(fronted[j] == s@[lo + j]);
        }
        if hi > lo {
            assert(fronted[hi - lo - 1] == s@[hi - 1]);
        }
        lemma_trim_back_is_take(fronted, hi - lo);
        assert(fronted.take(hi - lo) =~= s@.subrange(lo as int, hi as int));
    }
    (lo, hi)
}

/// Parse a template into a sequence of [`Segment`]s.
///
/// The result's views are exactly `spec_parse` of the input.
pub fn parse(input: &Vec<u8>) -> (r: Vec<Segment>)
    ensures
        seg_views(r@) == spec_parse(input@),
{
    let mut out: Vec<Segment> = Vec::new();
    parse_from(input, 0, &mut out);
    proof {
        assert(input@.skip(0) =~= input@);
        assert(seg_views(Seq::empty()) =~= Seq::<SegModel>::empty());
    }
    out
}

proof fn lemma_seg_views_push(xs: Seq<Segment>, x: Segment)
    ensures
        seg_views(xs.push(x)) =~= seg_views(xs).push(x@),
{
}

fn parse_from(input: &Vec<u8>, pos: usize, out: &mut Vec<Segment>)
    requires
        pos <= input@.len(),
    ensures
        seg_views(final(out)@) == seg_views(old(out)@) + spec_parse(input@.skip(pos as int)),
    decreases input@.len() - pos,
{
    let ghost s = input@;
    let ghost sp = input@.skip(pos as int);
    if pos == input.len() {
        proof {
            assert(seg_views(out@) =~= seg_views(out@) + spec_parse(sp));
        }
        return;
    }
    match find_pair_from(input, pos, OPEN_BYTE, OPEN_BYTE) {
        None => {
            let lit = copy_range(input, pos, input.len());
            out.push(Segment::Lit(lit));
            proof {
                assert(s.subrange(pos as int, s.len() as int) =~= sp);
                lemma_seg_views_push(old(out)@, Segment::Lit(lit));
                assert(seg_views(out@) =~= seg_views(old(out)@) + spec_parse(sp));
            }
        }
        Some(i) => {
            let ghost i0 = i - pos;
            proof {
                assert(sp.take(i0) =~= s.subrange(pos as int, i as int));
            }
            let ghost out_after_pre: Seq<Segment>;
            if i > pos {
                let lit = copy_range(input, pos, i);
                out.push(Segment::Lit(lit));
            }
            proof {
                out_after_pre = out@;
                let pre: Seq<SegModel> = if i0 > 0 {
                    seq![SegModel::Lit(sp.take(i0))]
                } else {
                    Seq::empty()
                };
                assert(seg_views(out_after_pre) =~= seg_views(old(out)@) + pre);
            }
            match find_pair_from(input, i + 2, CLOSE_BYTE, CLOSE_BYTE) {
                None => {
                    let lit = copy_range(input, i, input.len());
                    out.push(Segment::Lit(lit));
                    proof {
                        assert(s.subrange(i as int, s.len() as int) =~= sp.skip(i0));
                        assert(sp.skip(i0 + 2) =~= s.skip(i + 2));
                        let pre: Seq<SegModel> = if i0 > 0 {
                            seq![SegModel::Lit(sp.take(i0))]
                        } else {
                            Seq::empty()
                        };
                        assert(spec_parse(sp) == pre + seq![SegModel::Lit(sp.skip(i0))]);
                        assert(seg_views(out@) =~= seg_views(old(out)@) + spec_parse(sp));
                    }
                }
                Some(j) => {
                    let ghost j0 = j - (i + 2);
                    proof {
                        assert(sp.skip(i0 + 2) =~= s.skip(i + 2));
                        assert(sp.skip(i0 + 2).take(j0) =~= s.subrange(i + 2, j as int));
                    }
                    let (lo, hi) = trim_range(input, i + 2, j);
                    let ghost key = trim_bytes(sp.skip(i0 + 2).take(j0));
                    proof {
                        assert(key == trim_bytes(s.subrange(i + 2, j as int)));
                    }
                    if lo == hi {
                        let lit = copy_range(input, i, j + 2);
                        out.push(Segment::Lit(lit));
                        proof {
                            assert(key.len() == 0) by {
                                assert(s.subrange(lo as int, hi as int).len() == 0);
                            }
                            assert(sp.subrange(i0, i0 + 2 + j0 + 2)
                                =~= s.subrange(i as int, j + 2));
                        }
                    } else {
                        let name = copy_range(input, lo, hi);
                        out.push(Segment::Var(name));
                        proof {
                            assert(name@ == key);
                            assert(key.len() > 0);
                        }
                    }
                    let ghost out_mid = out@;
                    let ghost head: SegModel = if key.len() == 0 {
                        SegModel::Lit(sp.subrange(i0, i0 + 2 + j0 + 2))
                    } else {
                        SegModel::Var(key)
                    };
                    proof {
                        let pre: Seq<SegModel> = if i0 > 0 {
                            seq![SegModel::Lit(sp.take(i0))]
                        } else {
                            Seq::empty()
                        };
                        assert(seg_views(out_mid) =~= seg_views(old(out)@) + pre + seq![head]);
                    }
                    parse_from(input, j + 2, out);
                    proof {
                        let pre: Seq<SegModel> = if i0 > 0 {
                            seq![SegModel::Lit(sp.take(i0))]
                        } else {
                            Seq::empty()
                        };
                        assert(sp.skip(i0 + 2 + j0 + 2) =~= s.skip(j + 2));
                        assert(spec_parse(sp) == pre + seq![head] + spec_parse(sp.skip(i0 + 2 + j0 + 2)));
                        assert(seg_views(out@) =~= seg_views(old(out)@) + spec_parse(sp));
                    }
                }
            }
        }
    }
}

} // verus!
