//! Variable builder: flattens a structured variable document into the flat
//! mapping, and derives extra keys from hex color values.
//!
//! A nested document flattens to underscore-joined keys; scalar leaves are
//! already written as text; array and datetime members are dropped. For a
//! value of the shape `#rrggbb`, `<key>_strip` (the digits without `#`) and
//! `<key>_rgb` (the decimal `r,g,b` triple) are added; the latter is omitted
//! when the stripped digits are not exactly six hex digits.

use vstd::prelude::*;

use crate::errors::ThemeError;
use crate::mapping::Mapping;
use crate::mapping::append_bytes;
use crate::mapping::copy_bytes;
use crate::mapping::model_pairs_map;
use crate::mapping::pair_views;
use crate::parser::copy_range;

verus! {

/// Byte value of `_`.
pub const UNDERSCORE_BYTE: u8 = 95;
/// Byte value of `#`.
pub const HASH_BYTE: u8 = 35;
/// Byte value of `,`.
pub const COMMA_BYTE: u8 = 44;

/// Mathematical form of a variable document.
pub enum DocModel {
    /// A scalar member, written as text.
    Leaf(Seq<u8>),
    /// A nested table: named members in document order.
    Table(Seq<(Seq<u8>, DocModel)>),
    /// A member of a kind the mapping drops (an array, a datetime).
    Other,
}

/// A structured variable document.
///
/// Scalar members (strings, integers, floats, booleans) are held as their
/// text; members of other kinds are kept as [`DocValue::Other`] so that the
/// flattening itself decides to drop them.
pub enum DocValue {
    /// A scalar member, written as text.
    Leaf(Vec<u8>),
    /// A nested table: named members in document order.
    Table(Vec<(Vec<u8>, DocValue)>),
    /// A member of a kind the mapping drops.
    Other,
}

/// The models of a table's entries.
pub open spec fn entry_models(es: Seq<(Vec<u8>, DocValue)>) -> Seq<(Seq<u8>, DocModel)>
    decreases es,
{
    if es.len() == 0 {
        Seq::empty()
    } else {
        seq![(es[0].0@, es[0].1.model())] + entry_models(es.skip(1))
    }
}

impl DocValue {
    /// The model of a document value.
    pub open spec fn model(&self) -> DocModel
        decreases self,
    {
        match self {
            DocValue::Leaf(v) => DocModel::Leaf(v@),
            DocValue::Table(es) => DocModel::Table(entry_models(es@)),
            DocValue::Other => DocModel::Other,
        }
    }
}

impl View for DocValue {
    type V = DocModel;

    open spec fn view(&self) -> DocModel {
        self.model()
    }
}

proof fn lemma_entry_models_len(es: Seq<(Vec<u8>, DocValue)>)
    ensures
        entry_models(es).len() == es.len(),
    decreases es.len(),
{
    if es.len() > 0 {
        lemma_entry_models_len(es.skip(1));
    }
}

proof fn lemma_entry_models_index(es: Seq<(Vec<u8>, DocValue)>, i: int)
    requires
        0 <= i < es.len(),
    ensures
        entry_models(es).len() == es.len(),
        entry_models(es)[i] == (es[i].0@, es[i].1.model()),
    decreases i,
{
    lemma_entry_models_len(es);
    if i == 0 {
    } else {
        lemma_entry_models_index(es.skip(1), i - 1);
    }
}

/// Key of a nested member: the parent key and the member name joined by `_`,
/// or the bare name at the top level.
pub open spec fn join_key(prefix: Seq<u8>, k: Seq<u8>) -> Seq<u8> {
    if prefix.len() == 0 {
        k
    } else {
        prefix + seq![UNDERSCORE_BYTE] + k
    }
}

/// The flat key/value pairs of a document member, in document order.
pub open spec fn spec_flatten(prefix: Seq<u8>, d: DocModel) -> Seq<(Seq<u8>, Seq<u8>)>
    decreases d,
{
    match d {
        DocModel::Leaf(v) => seq![(prefix, v)],
        DocModel::Table(es) => spec_flatten_entries(prefix, es),
        DocModel::Other => Seq::empty(),
    }
}

/// The flat pairs of a table's entries, in document order.
pub open spec fn spec_flatten_entries(prefix: Seq<u8>, es: Seq<(Seq<u8>, DocModel)>) -> Seq<
    (Seq<u8>, Seq<u8>),
>
    decreases es,
{
    if es.len() == 0 {
        Seq::empty()
    } else {
        spec_flatten(join_key(prefix, es[0].0), es[0].1) + spec_flatten_entries(prefix, es.skip(1))
    }
}

proof fn lemma_flatten_entries_unfold(prefix: Seq<u8>, es: Seq<(Seq<u8>, DocModel)>, i: int)
    requires
        0 <= i < es.len(),
    ensures
        spec_flatten_entries(prefix, es.skip(i)) == spec_flatten(
            join_key(prefix, es[i].0),
            es[i].1,
        ) + spec_flatten_entries(prefix, es.skip(i + 1)),
{
    assert(es.skip(i)[0] == es[i]);
    assert(es.skip(i).skip(1) =~= es.skip(i + 1));
}

fn join_key_exec(prefix: &Vec<u8>, k: &Vec<u8>) -> (r: Vec<u8>)
    ensures
        r@ == join_key(prefix@, k@),
{
    if prefix.len() == 0 {
        copy_bytes(k)
    } else {
        let mut out = copy_bytes(prefix);
        out.push(UNDERSCORE_BYTE);
        append_bytes(&mut out, k);
        proof {
            assert(out@ =~= prefix@ + seq![UNDERSCORE_BYTE] + k@);
        }
        out
    }
}

/// Append the flat pairs of `d` under `prefix` to `out`.
#[verifier::loop_isolation(false)]
fn flatten_into(prefix: &Vec<u8>, d: &DocValue, out: &mut Vec<(Vec<u8>, Vec<u8>)>)
    ensures
        pair_views(final(out)@) == pair_views(old(out)@) + spec_flatten(prefix@, d@),
    decreases d,
{
    match d {
        DocValue::Leaf(v) => {
            out.push((copy_bytes(prefix), copy_bytes(v)));
            proof {
                assert(pair_views(out@) =~= pair_views(old(out)@) + spec_flatten(prefix@, d@));
            }
        },
        DocValue::Other => {
            proof {
                assert(pair_views(out@) =~= pair_views(old(out)@) + spec_flatten(prefix@, d@));
            }
        },
        DocValue::Table(es) => {
            let ghost mes = entry_models(es@);
            proof {
                lemma_entry_models_len(es@);
                assert(mes.skip(0) =~= mes);
            }
            let n = es.len();
            let mut i: usize = 0;
            while i < n
                invariant
                    i <= n == es@.len(),
                    mes == entry_models(es@),
                    mes.len() == n,
                    pair_views(old(out)@) + spec_flatten_entries(prefix@, mes) =~= pair_views(
                        out@,
                    ) + spec_flatten_entries(prefix@, mes.skip(i as int)),
                decreases n - i,
            {
                proof {
                    lemma_entry_models_index(es@, i as int);
                    lemma_flatten_entries_unfold(prefix@, mes, i as int);
                    assert(decreases_to!(*d => *es));
                    assert(decreases_to!(*es => es@));
                    assert(decreases_to!(es@ => es@[i as int]));
                    assert(decreases_to!(es@[i as int] => es@[i as int].1));
                }
                let ghost out_before = out@;
                let joined = join_key_exec(prefix, &es[i].0);
                flatten_into(&joined, &es[i].1, out);
                proof {
                    let fi = spec_flatten(join_key(prefix@, mes[i as int].0), mes[i as int].1);
                    assert(pair_views(out_before) + (fi + spec_flatten_entries(
                        prefix@,
                        mes.skip(i + 1),
                    )) =~= (pair_views(out_before) + fi) + spec_flatten_entries(
                        prefix@,
                        mes.skip(i + 1),
                    ));
                }
                i = i + 1;
            }
            proof {
                assert(mes.skip(n as int) =~= Seq::<(Seq<u8>, DocModel)>::empty());
                assert(pair_views(out@) + Seq::<(Seq<u8>, Seq<u8>)>::empty() =~= pair_views(out@));
                assert(pair_views(out@) =~= pair_views(old(out)@) + spec_flatten(prefix@, d@));
            }
        },
    }
}

/// An ASCII hex digit.
pub open spec fn is_hex_digit(b: u8) -> bool {
    (48 <= b && b <= 57) || (65 <= b && b <= 70) || (97 <= b && b <= 102)
}

/// Value of a hex digit.
pub open spec fn hex_val(b: u8) -> u8
    recommends
        is_hex_digit(b),
{
    if 48 <= b && b <= 57 {
        (b - 48) as u8
    } else if 65 <= b && b <= 70 {
        (b - 55) as u8
    } else {
        (b - 87) as u8
    }
}

/// Exactly six hex digits.
pub open spec fn is_hex6(s: Seq<u8>) -> bool {
    s.len() == 6 && forall|i: int| 0 <= i < 6 ==> is_hex_digit(#[trigger] s[i])
}

/// The byte that two hex digits write.
pub open spec fn hex_byte(hi: u8, lo: u8) -> u8
    recommends
        is_hex_digit(hi),
        is_hex_digit(lo),
{
    (hex_val(hi) * 16 + hex_val(lo)) as u8
}

/// Decimal text of a byte, without leading zeros.
pub open spec fn dec_byte(n: u8) -> Seq<u8> {
    if n >= 100 {
        seq![(48 + n / 100) as u8, (48 + (n / 10) % 10) as u8, (48 + n % 10) as u8]
    } else if n >= 10 {
        seq![(48 + n / 10) as u8, (48 + n % 10) as u8]
    } else {
        seq![(48 + n) as u8]
    }
}

/// `s` without its leading `#` bytes.
pub open spec fn strip_hashes(s: Seq<u8>) -> Seq<u8>
    decreases s.len(),
{
    if s.len() > 0 && s[0] == HASH_BYTE {
        strip_hashes(s.skip(1))
    } else {
        s
    }
}

/// The bytes of the `_strip` key suffix.
pub open spec fn strip_suffix() -> Seq<u8> {
    seq![95u8, 115u8, 116u8, 114u8, 105u8, 112u8]
}

/// The bytes of the `_rgb` key suffix.
pub open spec fn rgb_suffix() -> Seq<u8> {
    seq![95u8, 114u8, 103u8, 98u8]
}

/// The decimal `r,g,b` triple of six hex digits, or `None`.
pub open spec fn spec_hex_to_rgb(s: Seq<u8>) -> Option<Seq<u8>> {
    if is_hex6(s) {
        Some(
            dec_byte(hex_byte(s[0], s[1])) + seq![COMMA_BYTE] + dec_byte(hex_byte(s[2], s[3]))
                + seq![COMMA_BYTE] + dec_byte(hex_byte(s[4], s[5])),
        )
    } else {
        None
    }
}

/// The derived pairs of one key/value pair: the stripped digits always, the
/// decimal triple when the digits are a six-digit hex payload.
pub open spec fn spec_derive(key: Seq<u8>, val: Seq<u8>) -> Seq<(Seq<u8>, Seq<u8>)> {
    let bare = strip_hashes(val);
    match spec_hex_to_rgb(bare) {
        Some(rgb) => seq![((key + strip_suffix()), bare), ((key + rgb_suffix()), rgb)],
        None => seq![((key + strip_suffix()), bare)],
    }
}

/// Whether a value is recognized as a color: it starts with `#`.
pub open spec fn starts_hash(v: Seq<u8>) -> bool {
    v.len() > 0 && v[0] == HASH_BYTE
}

/// The derived pairs of a pair list, in order.
pub open spec fn spec_derived_of(ps: Seq<(Seq<u8>, Seq<u8>)>) -> Seq<(Seq<u8>, Seq<u8>)>
    decreases ps.len(),
{
    if ps.len() == 0 {
        Seq::empty()
    } else {
        (if starts_hash(ps[0].1) {
            spec_derive(ps[0].0, ps[0].1)
        } else {
            Seq::empty()
        }) + spec_derived_of(ps.skip(1))
    }
}

/// The full pair list of a document: its flat pairs, then the derived color
/// pairs. A later pair wins when two share a key.
pub open spec fn spec_build_pairs(d: DocModel) -> Seq<(Seq<u8>, Seq<u8>)> {
    spec_flatten(Seq::empty(), d) + spec_derived_of(spec_flatten(Seq::empty(), d))
}

/// Folding a pair list into a map, first to last.
pub open spec fn insert_pairs(
    m: Map<Seq<u8>, Seq<u8>>,
    ps: Seq<(Seq<u8>, Seq<u8>)>,
) -> Map<Seq<u8>, Seq<u8>>
    decreases ps.len(),
{
    if ps.len() == 0 {
        m
    } else {
        insert_pairs(m, ps.drop_last()).insert(ps.last().0, ps.last().1)
    }
}

proof fn lemma_insert_pairs_app(m: Map<Seq<u8>, Seq<u8>>, a: Seq<(Seq<u8>, Seq<u8>)>, b: Seq<(Seq<u8>, Seq<u8>)>)
    ensures
        insert_pairs(m, a + b) == insert_pairs(insert_pairs(m, a), b),
    decreases b.len(),
{
    if b.len() == 0 {
        assert(a + b =~= a);
    } else {
        lemma_insert_pairs_app(m, a, b.drop_last());
        assert((a + b).drop_last() =~= a + b.drop_last());
        assert((a + b).last() == b.last());
    }
}

proof fn lemma_model_pairs_map_is_fold(ps: Seq<(Seq<u8>, Seq<u8>)>)
    ensures
        model_pairs_map(ps) == insert_pairs(Map::empty(), ps),
    decreases ps.len(),
{
    if ps.len() > 0 {
        lemma_model_pairs_map_is_fold(ps.drop_last());
    }
}

fn is_hex_digit_exec(b: u8) -> (r: bool)
    ensures
        r == is_hex_digit(b),
{
    (48 <= b && b <= 57) || (65 <= b && b <= 70) || (97 <= b && b <= 102)
}

fn hex_val_exec(b: u8) -> (r: u8)
    requires
        is_hex_digit(b),
    ensures
        r == hex_val(b),
        r <= 15,
{
    if 48 <= b && b <= 57 {
        b - 48
    } else if 65 <= b && b <= 70 {
        b - 55
    } else {
        b - 87
    }
}

/// Push the decimal text of a byte.
fn push_dec_byte(out: &mut Vec<u8>, n: u8)
    ensures
        final(out)@ == old(out)@ + dec_byte(n),
{
    if n >= 100 {
        out.push(48 + n / 100);
        out.push(48 + (n / 10) % 10);
        out.push(48 + n % 10);
        proof {
            assert(out@ =~= old(out)@ + dec_byte(n));
        }
    } else if n >= 10 {
        out.push(48 + n / 10);
        out.push(48 + n % 10);
        proof {
            assert(out@ =~= old(out)@ + dec_byte(n));
        }
    } else {
        out.push(48 + n);
        proof {
            assert(out@ =~= old(out)@ + dec_byte(n));
        }
    }
}

/// Convert a bare six-digit hex payload to its decimal `r,g,b` text.
pub fn hex_to_rgb(hex: &Vec<u8>) -> (r: Option<Vec<u8>>)
    ensures
        match r {
            Some(v) => spec_hex_to_rgb(hex@) == Some(v@),
            None => spec_hex_to_rgb(hex@) is None,
        },
{
    if hex.len() != 6 {
        return None;
    }
    let mut i: usize = 0;
    while i < 6
        invariant
            i <= 6,
            hex@.len() == 6,
            forall|j: int| 0 <= j < i ==> is_hex_digit(#[trigger] hex@[j]),
        decreases 6 - i,
    {
        if !is_hex_digit_exec(hex[i]) {
            return None;
        }
        i = i + 1;
    }
    assert(is_hex6(hex@));
    let rv = hex_val_exec(hex[0]) * 16 + hex_val_exec(hex[1]);
    let gv = hex_val_exec(hex[2]) * 16 + hex_val_exec(hex[3]);
    let bv = hex_val_exec(hex[4]) * 16 + hex_val_exec(hex[5]);
    let mut out: Vec<u8> = Vec::new();
    push_dec_byte(&mut out, rv);
    out.push(COMMA_BYTE);
    push_dec_byte(&mut out, gv);
    out.push(COMMA_BYTE);
    push_dec_byte(&mut out, bv);
    proof {
        assert(out@ =~= dec_byte(hex_byte(hex@[0], hex@[1])) + seq![COMMA_BYTE] + dec_byte(
            hex_byte(hex@[2], hex@[3]),
        ) + seq![COMMA_BYTE] + dec_byte(hex_byte(hex@[4], hex@[5])));
    }
    Some(out)
}

proof fn lemma_strip_hashes_is_skip(s: Seq<u8>, k: int)
    requires
        0 <= k <= s.len(),
        forall|j: int| 0 <= j < k ==> #[trigger] s[j] == HASH_BYTE,
        k == s.len() || s[k] != HASH_BYTE,
    ensures
        strip_hashes(s) == s.skip(k),
    decreases k,
{
    if k == 0 {
        assert(s.skip(0) =~= s);
    } else {
        lemma_strip_hashes_is_skip(s.skip(1), k - 1);
        assert(s.skip(1).skip(k - 1) =~= s.skip(k));
    }
}

/// The derived pairs of one key and one color value: `<key>_strip` with the
/// digits after the leading `#`s, and `<key>_rgb` with the decimal triple
/// when those digits decode as three byte pairs.
pub fn derive_color_keys(key: &Vec<u8>, val: &Vec<u8>) -> (r: Vec<(Vec<u8>, Vec<u8>)>)
    ensures
        pair_views(r@) == spec_derive(key@, val@),
{
    let mut s: usize = 0;
    while s < val.len() && val[s] == HASH_BYTE
        invariant
            s <= val@.len(),
            forall|j: int| 0 <= j < s ==> #[trigger] val@[j] == HASH_BYTE,
        decreases val@.len() - s,
    {
        s = s + 1;
    }
    proof {
        lemma_strip_hashes_is_skip(val@, s as int);
    }
    let bare = copy_range(val, s, val.len());
    proof {
        assert(bare@ =~= strip_hashes(val@));
    }
    let mut strip_key = copy_bytes(key);
    strip_key.push(95);
    strip_key.push(115);
    strip_key.push(116);
    strip_key.push(114);
    strip_key.push(105);
    strip_key.push(112);
    proof {
        assert(strip_key@ =~= key@ + strip_suffix());
    }
    let rgb = hex_to_rgb(&bare);
    let mut out: Vec<(Vec<u8>, Vec<u8>)> = Vec::new();
    match rgb {
        Some(triple) => {
            let mut rgb_key = copy_bytes(key);
            rgb_key.push(95);
            rgb_key.push(114);
            rgb_key.push(103);
            rgb_key.push(98);
            proof {
                assert(rgb_key@ =~= key@ + rgb_suffix());
            }
            out.push((strip_key, copy_bytes(&bare)));
            out.push((rgb_key, triple));
            proof {
                assert(pair_views(out@) =~= spec_derive(key@, val@));
            }
        },
        None => {
            out.push((strip_key, copy_bytes(&bare)));
            proof {
                assert(pair_views(out@) =~= spec_derive(key@, val@));
            }
        },
    }
    out
}

/// Build the mapping of a document: its flat pairs, then the derived color
/// pairs, inserted in order.
pub fn build_mapping(doc: &DocValue) -> (r: Mapping)
    ensures
        r.wf(),
        r@ == model_pairs_map(spec_build_pairs(doc@)),
{
    let empty_prefix: Vec<u8> = Vec::new();
    let mut base: Vec<(Vec<u8>, Vec<u8>)> = Vec::new();
    flatten_into(&empty_prefix, doc, &mut base);
    let ghost flat = spec_flatten(Seq::empty(), doc@);
    proof {
        assert(Seq::<(Vec<u8>, Vec<u8>)>::empty().map_values(|p: (Vec<u8>, Vec<u8>)| (p.0@, p.1@))
            =~= Seq::<(Seq<u8>, Seq<u8>)>::empty());
        assert(Seq::<(Seq<u8>, Seq<u8>)>::empty() + flat =~= flat);
        assert(pair_views(base@) == flat);
    }
    let mut m = Mapping::new();
    let n = base.len();
    let mut i: usize = 0;
    while i < n
        invariant
            i <= n == base@.len(),
            m.wf(),
            pair_views(base@) == flat,
            m@ == insert_pairs(Map::empty(), flat.take(i as int)),
        decreases n - i,
    {
        let (k, v) = (&base[i].0, &base[i].1);
        m.insert(copy_bytes(k), copy_bytes(v));
        proof {
            assert(flat.take(i + 1).drop_last() =~= flat.take(i as int));
            assert(flat.take(i + 1).last() == flat[i as int]);
        }
        i = i + 1;
    }
    proof {
        assert(flat.take(n as int) =~= flat);
    }
    let ghost der = spec_derived_of(flat);
    proof {
        lemma_insert_pairs_app(Map::empty(), flat, der);
    }
    let mut i2: usize = 0;
    while i2 < n
        invariant
            i2 <= n == base@.len(),
            m.wf(),
            pair_views(base@) == flat,
            insert_pairs(m@, spec_derived_of(flat.skip(i2 as int))) == insert_pairs(
                insert_pairs(Map::empty(), flat),
                der,
            ),
        decreases n - i2,
    {
        let ghost m_before = m@;
        proof {
            assert(flat.skip(i2 as int)[0] == flat[i2 as int]);
            assert(flat.skip(i2 as int).skip(1) =~= flat.skip(i2 + 1));
        }
        let v_is_color = base[i2].1.len() > 0 && base[i2].1[0] == HASH_BYTE;
        if v_is_color {
            let derived = derive_color_keys(&base[i2].0, &base[i2].1);
            let ghost di = spec_derive(flat[i2 as int].0, flat[i2 as int].1);
            let dn = derived.len();
            let mut j: usize = 0;
            while j < dn
                invariant
                    j <= dn == derived@.len(),
                    m.wf(),
                    pair_views(derived@) == di,
                    m@ == insert_pairs(m_before, di.take(j as int)),
                decreases dn - j,
            {
                let (dk, dv) = (&derived[j].0, &derived[j].1);
                m.insert(copy_bytes(dk), copy_bytes(dv));
                proof {
                    assert(di.take(j + 1).drop_last() =~= di.take(j as int));
                    assert(di.take(j + 1).last() == di[j as int]);
                }
                j = j + 1;
            }
            proof {
                assert(di.take(dn as int) =~= di);
                assert(m@ == insert_pairs(m_before, di));
                lemma_insert_pairs_app(m_before, di, spec_derived_of(flat.skip(i2 + 1)));
                assert(di + spec_derived_of(flat.skip(i2 + 1)) =~= spec_derived_of(
                    flat.skip(i2 as int),
                ));
            }
        } else {
            proof {
                assert(!starts_hash(flat[i2 as int].1));
                assert(Seq::<(Seq<u8>, Seq<u8>)>::empty() + spec_derived_of(flat.skip(i2 + 1))
                    =~= spec_derived_of(flat.skip(i2 + 1)));
                assert(spec_derived_of(flat.skip(i2 as int)) == spec_derived_of(flat.skip(i2 + 1)));
            }
        }
        i2 = i2 + 1;
    }
    proof {
        assert(flat.skip(n as int) =~= Seq::<(Seq<u8>, Seq<u8>)>::empty());
        lemma_model_pairs_map_is_fold(spec_build_pairs(doc@));
        lemma_insert_pairs_app(Map::empty(), flat, der);
    }
    m
}

#[verifier::external_type_specification]
#[verifier::external_body]
pub struct ExTomlValue(toml::Value);

/// What parsing a variable document yields: its model when the bytes are a
/// well-formed document, `None` otherwise.
pub uninterp spec fn toml_doc(s: Seq<u8>) -> Option<DocModel>;

/// Relies on toml::Value's variants: each is moved one for one into the
/// library's document type, with scalar members written as their text.
#[verifier::external_body]
fn doc_of_value(v: &toml::Value) -> DocValue {
    match v {
        toml::Value::String(s) => DocValue::Leaf(s.clone().into_bytes()),
        toml::Value::Integer(n) => DocValue::Leaf(n.to_string().into_bytes()),
        toml::Value::Float(x) => DocValue::Leaf(x.to_string().into_bytes()),
        toml::Value::Boolean(b) => DocValue::Leaf(b.to_string().into_bytes()),
        toml::Value::Table(t) => DocValue::Table(
            t.iter().map(|p| (p.0.clone().into_bytes(), doc_of_value(p.1))).collect(),
        ),
        _ => DocValue::Other,
    }
}

/// Relies on toml::from_slice: whether bytes parse as a document, and what
/// they parse to, depends on the bytes alone.
#[verifier::external_body]
fn parse_document(src: &Vec<u8>) -> (r: Option<DocValue>)
    ensures
        match r {
            Some(d) => toml_doc(src@) == Some(d@),
            None => toml_doc(src@) is None,
        },
{
    match toml::from_slice::<toml::Value>(src.as_slice()) {
        Ok(v) => Some(doc_of_value(&v)),
        Err(_) => None,
    }
}

/// Build the variable mapping from the text of a variable document.
///
/// Fails exactly when the text is not a well-formed document; on success the
/// mapping holds the document's flat pairs and the derived color pairs.
pub fn build_vars_from_colors(src: &Vec<u8>) -> (r: Result<Mapping, ThemeError>)
    ensures
        match r {
            Ok(m) => toml_doc(src@) is Some && m.wf() && m@ == model_pairs_map(
                spec_build_pairs(toml_doc(src@).unwrap()),
            ),
            Err(e) => e == ThemeError::ParseError && toml_doc(src@) is None,
        },
{
    match parse_document(src) {
        Some(d) => Ok(build_mapping(&d)),
        None => Err(ThemeError::ParseError),
    }
}

/// A well-formed `#rrggbb` value derives `<key>_strip` holding the six hex
/// digits and `<key>_rgb` holding their decimal `r,g,b` triple.
pub proof fn lemma_hex_color_derivation(key: Seq<u8>, val: Seq<u8>)
    requires
        val.len() == 7,
        val[0] == HASH_BYTE,
        is_hex6(val.skip(1)),
    ensures
        spec_derive(key, val) == seq![
            ((key + strip_suffix()), val.skip(1)),
            (
                (key + rgb_suffix()),
                dec_byte(hex_byte(val[1], val[2])) + seq![COMMA_BYTE] + dec_byte(
                    hex_byte(val[3], val[4]),
                ) + seq![COMMA_BYTE] + dec_byte(hex_byte(val[5], val[6])),
            ),
        ],
{
    let bare = val.skip(1);
    assert(bare[0] == val[1]);
    assert(is_hex_digit(bare[0]));
    assert(bare[0] != HASH_BYTE);
    assert(strip_hashes(bare) == bare);
    assert(strip_hashes(val) == strip_hashes(bare));
    assert(bare[1] == val[2] && bare[2] == val[3] && bare[3] == val[4] && bare[4] == val[5]
        && bare[5] == val[6]);
}

} // verus!
