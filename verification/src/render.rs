//! Template renderer: expands `{{ key }}` references against the variable
//! mapping, and plans the two-tier render of a template tree.
//!
//! The plan implements the override rule: a user template always wins over a
//! bundled template at the same relative path; bundled templates are only a
//! fallback set, never rendered twice.

use vstd::prelude::*;

use crate::errors::ThemeError;
use crate::mapping::Mapping;
use crate::mapping::append_bytes;
use crate::mapping::copy_bytes;
use crate::mapping::pair_views;
use crate::parser::CLOSE_BYTE;
use crate::parser::OPEN_BYTE;
use crate::parser::SPACE_BYTE;
use crate::parser::SegModel;
use crate::parser::Segment;
use crate::parser::copy_range;
use crate::parser::marker_of;
use crate::parser::parse;
use crate::parser::seg_views;
use crate::parser::spec_parse;

verus! {

/// Byte value of `/`.
pub const SLASH_BYTE: u8 = 47;

/// What one segment contributes to the output: literal text itself, a
/// variable's value when the mapping knows the name, and the `{{ name }}`
/// marker when it does not.
pub open spec fn seg_expansion(m: SegModel, vars: Map<Seq<u8>, Seq<u8>>) -> Seq<u8> {
    match m {
        SegModel::Lit(t) => t,
        SegModel::Var(k) => if vars.contains_key(k) {
            vars[k]
        } else {
            marker_of(k)
        },
    }
}

/// The concatenated expansion of a segment sequence.
pub open spec fn spec_expand_segs(segs: Seq<SegModel>, vars: Map<Seq<u8>, Seq<u8>>) -> Seq<u8>
    decreases segs.len(),
{
    if segs.len() == 0 {
        Seq::empty()
    } else {
        seg_expansion(segs[0], vars) + spec_expand_segs(segs.skip(1), vars)
    }
}

/// The rendering of template text against a mapping.
pub open spec fn spec_expand(s: Seq<u8>, vars: Map<Seq<u8>, Seq<u8>>) -> Seq<u8> {
    spec_expand_segs(spec_parse(s), vars)
}

/// Expand `{{ key }}` references in `src` against `vars`.
///
/// Unknown names are kept as `{{ name }}` so that a partial render stays
/// inspectable.
#[verifier::loop_isolation(false)]
pub fn expand(src: &Vec<u8>, vars: &Mapping) -> (r: Vec<u8>)
    requires
        vars.wf(),
    ensures
        r@ == spec_expand(src@, vars@),
{
    let segments = parse(src);
    let ghost sv = seg_views(segments@);
    let mut out: Vec<u8> = Vec::new();
    let n = segments.len();
    let mut i: usize = 0;
    proof {
        assert(sv.skip(0) =~= sv);
    }
    while i < n
        invariant
            i <= n == segments@.len(),
            out@ + spec_expand_segs(sv.skip(i as int), vars@) == spec_expand(src@, vars@),
        decreases n - i,
    {
        proof {
            assert(sv.skip(i as int)[0] == sv[i as int]);
            assert(sv.skip(i as int).skip(1) =~= sv.skip(i + 1));
        }
        let ghost out_before = out@;
        let seg = &segments[i];
        match seg {
            Segment::Lit(t) => {
                append_bytes(&mut out, t);
            },
            Segment::Var(k) => {
                match vars.get(k) {
                    Some(v) => {
                        append_bytes(&mut out, v);
                    },
                    None => {
                        out.push(OPEN_BYTE);
                        out.push(OPEN_BYTE);
                        out.push(SPACE_BYTE);
                        append_bytes(&mut out, k);
                        out.push(SPACE_BYTE);
                        out.push(CLOSE_BYTE);
                        out.push(CLOSE_BYTE);
                        proof {
                            assert(out@ =~= out_before + marker_of(k@));
                        }
                    },
                }
            },
        }
        proof {
            assert(out@ =~= out_before + seg_expansion(sv[i as int], vars@));
            assert(out_before + (seg_expansion(sv[i as int], vars@) + spec_expand_segs(
                sv.skip(i + 1),
                vars@,
            )) =~= (out_before + seg_expansion(sv[i as int], vars@)) + spec_expand_segs(
                sv.skip(i + 1),
                vars@,
            ));
        }
        i = i + 1;
    }
    proof {
        assert(sv.skip(n as int) =~= Seq::<SegModel>::empty());
        assert(out@ + Seq::<u8>::empty() =~= out@);
    }
    out
}

/// The path ends with the `.tpl` template extension.
pub open spec fn ends_with_tpl(p: Seq<u8>) -> bool {
    p.len() >= 4 && p[p.len() - 4] == 46 && p[p.len() - 3] == 116 && p[p.len() - 2] == 112 && p[
        p.len() - 1] == 108
}

/// A path under `dir` that names a renderable template: it lies below the
/// directory, carries the template extension, and the extension does not
/// stand alone as the whole file name.
pub open spec fn is_tpl_under(dir: Seq<u8>, p: Seq<u8>) -> bool {
    &&& p.len() > dir.len() + 5
    &&& p.take(dir.len() as int) == dir
    &&& p[dir.len() as int] == SLASH_BYTE
    &&& ends_with_tpl(p)
    &&& p[p.len() - 5] != SLASH_BYTE
}

/// The path relative to `dir`, without the leading separator.
pub open spec fn rel_under(dir: Seq<u8>, p: Seq<u8>) -> Seq<u8> {
    p.skip(dir.len() as int + 1)
}

/// The template files among walked entries: each kept entry's absolute path
/// and its relative path, in walk order.
pub open spec fn spec_templates_in(dir: Seq<u8>, es: Seq<(Seq<u8>, bool)>) -> Seq<
    (Seq<u8>, Seq<u8>),
>
    decreases es.len(),
{
    if es.len() == 0 {
        Seq::empty()
    } else {
        (if es[0].1 && is_tpl_under(dir, es[0].0) {
            seq![(es[0].0, rel_under(dir, es[0].0))]
        } else {
            Seq::empty()
        }) + spec_templates_in(dir, es.skip(1))
    }
}

/// `p` begins with `dir`.
fn starts_with(p: &Vec<u8>, dir: &Vec<u8>) -> (r: bool)
    ensures
        r == (p@.len() >= dir@.len() && p@.take(dir@.len() as int) == dir@),
{
    if p.len() < dir.len() {
        return false;
    }
    let mut i: usize = 0;
    while i < dir.len()
        invariant
            i <= dir@.len() <= p@.len(),
            forall|j: int| 0 <= j < i ==> p@[j] == dir@[j],
        decreases dir@.len() - i,
    {
        if p[i] != dir[i] {
            proof {
                assert(p@.take(dir@.len() as int)[i as int] == p@[i as int]);
            }
            return false;
        }
        i = i + 1;
    }
    proof {
        assert(p@.take(dir@.len() as int) =~= dir@);
    }
    true
}

/// Select the template files among walked entries and compute their relative
/// paths.
#[verifier::loop_isolation(false)]
pub fn templates_in(dir: &Vec<u8>, entries: &Vec<(Vec<u8>, bool)>) -> (r: Vec<(Vec<u8>, Vec<u8>)>)
    ensures
        pair_views(r@) == spec_templates_in(dir@, entries@.map_values(|e: (Vec<u8>, bool)| (e.0@, e.1))),
{
    let ghost evs = entries@.map_values(|e: (Vec<u8>, bool)| (e.0@, e.1));
    let mut out: Vec<(Vec<u8>, Vec<u8>)> = Vec::new();
    let n = entries.len();
    let mut i: usize = 0;
    proof {
        assert(evs.skip(0) =~= evs);
        assert(pair_views(out@) + spec_templates_in(dir@, evs) =~= spec_templates_in(dir@, evs));
    }
    while i < n
        invariant
            i <= n == entries@.len(),
            pair_views(out@) + spec_templates_in(dir@, evs.skip(i as int)) =~= spec_templates_in(
                dir@,
                evs,
            ),
        decreases n - i,
    {
        proof {
            assert(evs.skip(i as int)[0] == evs[i as int]);
            assert(evs.skip(i as int).skip(1) =~= evs.skip(i + 1));
        }
        let ghost out_before = out@;
        let p = &entries[i].0;
        let keep = entries[i].1 && p.len() > dir.len() && p.len() - dir.len() > 5 && starts_with(
            p,
            dir,
        ) && p[dir.len()]
            == SLASH_BYTE && p[p.len() - 4] == 46 && p[p.len() - 3] == 116 && p[p.len() - 2] == 112
            && p[p.len() - 1] == 108 && p[p.len() - 5] != SLASH_BYTE;
        if keep {
            let rel = copy_range(p, dir.len() + 1, p.len());
            proof {
                assert(rel@ =~= rel_under(dir@, p@));
            }
            out.push((copy_bytes(p), rel));
            proof {
                assert(keep == (evs[i as int].1 && is_tpl_under(dir@, evs[i as int].0)));
                assert(pair_views(out@) =~= out_before.map_values(
                    |q: (Vec<u8>, Vec<u8>)| (q.0@, q.1@),
                ) + seq![(evs[i as int].0, rel_under(dir@, evs[i as int].0))]);
            }
        } else {
            proof {
                assert(keep == (evs[i as int].1 && is_tpl_under(dir@, evs[i as int].0)));
                assert(pair_views(out@) + Seq::<(Seq<u8>, Seq<u8>)>::empty() =~= pair_views(out@));
            }
        }
        proof {
            let head = if evs[i as int].1 && is_tpl_under(dir@, evs[i as int].0) {
                seq![(evs[i as int].0, rel_under(dir@, evs[i as int].0))]
            } else {
                Seq::<(Seq<u8>, Seq<u8>)>::empty()
            };
            assert(pair_views(out_before) + (head + spec_templates_in(dir@, evs.skip(i + 1)))
                =~= (pair_views(out_before) + head) + spec_templates_in(dir@, evs.skip(i + 1)));
        }
        i = i + 1;
    }
    proof {
        assert(evs.skip(n as int) =~= Seq::<(Seq<u8>, bool)>::empty());
        assert(pair_views(out@) + Seq::<(Seq<u8>, Seq<u8>)>::empty() =~= pair_views(out@));
    }
    out
}

/// One planned render: a template file to read, and where its output goes.
pub struct RenderItem {
    /// Absolute path of the template file.
    pub source: Vec<u8>,
    /// Path relative to the template root, extension kept; the override key.
    pub rel: Vec<u8>,
    /// Output path relative to the output root: `rel` without `.tpl`.
    pub out_rel: Vec<u8>,
    /// Whether the template comes from the user tier.
    pub from_user: bool,
}

/// Mathematical form of a planned render.
pub struct RenderItemModel {
    pub source: Seq<u8>,
    pub rel: Seq<u8>,
    pub out_rel: Seq<u8>,
    pub from_user: bool,
}

impl View for RenderItem {
    type V = RenderItemModel;

    open spec fn view(&self) -> RenderItemModel {
        RenderItemModel {
            source: self.source@,
            rel: self.rel@,
            out_rel: self.out_rel@,
            from_user: self.from_user,
        }
    }
}

/// The views of a sequence of planned renders.
pub open spec fn item_views(xs: Seq<RenderItem>) -> Seq<RenderItemModel> {
    xs.map_values(|x: RenderItem| x@)
}

/// `rel` without its trailing `.tpl`.
pub open spec fn strip_tpl(rel: Seq<u8>) -> Seq<u8>
    recommends
        rel.len() >= 4,
{
    rel.take(rel.len() - 4)
}

/// The planned render of one template file.
pub open spec fn item_of(t: (Seq<u8>, Seq<u8>), from_user: bool) -> RenderItemModel {
    RenderItemModel { source: t.0, rel: t.1, out_rel: strip_tpl(t.1), from_user }
}

/// The relative paths of a template list.
pub open spec fn rel_list(ts: Seq<(Seq<u8>, Seq<u8>)>) -> Seq<Seq<u8>> {
    ts.map_values(|t: (Seq<u8>, Seq<u8>)| t.1)
}

/// The bundled-tier part of the plan: every bundled template whose relative
/// path no user template provides.
pub open spec fn spec_plan_bundled(user_rels: Seq<Seq<u8>>, bundled: Seq<(Seq<u8>, Seq<u8>)>) -> Seq<
    RenderItemModel,
>
    decreases bundled.len(),
{
    if bundled.len() == 0 {
        Seq::empty()
    } else {
        (if user_rels.contains(bundled[0].1) {
            Seq::empty()
        } else {
            seq![item_of(bundled[0], false)]
        }) + spec_plan_bundled(user_rels, bundled.skip(1))
    }
}

/// The full plan: every user template, then every bundled template not
/// overridden by a user template at the same relative path.
pub open spec fn spec_plan(user: Seq<(Seq<u8>, Seq<u8>)>, bundled: Seq<(Seq<u8>, Seq<u8>)>) -> Seq<
    RenderItemModel,
> {
    user.map_values(|t: (Seq<u8>, Seq<u8>)| item_of(t, true)) + spec_plan_bundled(
        rel_list(user),
        bundled,
    )
}

/// Whether some user template has the relative path `rel`.
fn user_provides(user: &Vec<(Vec<u8>, Vec<u8>)>, rel: &Vec<u8>) -> (r: bool)
    ensures
        r == rel_list(pair_views(user@)).contains(rel@),
{
    let mut i: usize = 0;
    while i < user.len()
        invariant
            i <= user@.len(),
            forall|j: int| 0 <= j < i ==> rel_list(pair_views(user@))[j] != rel@,
        decreases user@.len() - i,
    {
        if crate::mapping::bytes_eq(&user[i].1, rel) {
            proof {
                assert(rel_list(pair_views(user@))[i as int] == rel@);
            }
            return true;
        }
        i = i + 1;
    }
    proof {
        if rel_list(pair_views(user@)).contains(rel@) {
            let j = choose|j: int|
                0 <= j < rel_list(pair_views(user@)).len() && rel_list(pair_views(user@))[j]
                    == rel@;
            assert(rel_list(pair_views(user@))[j] != rel@);
        }
    }
    false
}

fn make_item(source: &Vec<u8>, rel: &Vec<u8>, from_user: bool) -> (r: RenderItem)
    requires
        rel@.len() >= 4,
    ensures
        r@ == item_of((source@, rel@), from_user),
{
    let out_rel = copy_range(rel, 0, rel.len() - 4);
    proof {
        assert(out_rel@ =~= strip_tpl(rel@));
    }
    RenderItem { source: copy_bytes(source), rel: copy_bytes(rel), out_rel, from_user }
}

/// Plan the two-tier render of the user and bundled template lists.
#[verifier::loop_isolation(false)]
pub fn plan_renders(user: &Vec<(Vec<u8>, Vec<u8>)>, bundled: &Vec<(Vec<u8>, Vec<u8>)>) -> (r: Vec<
    RenderItem,
>)
    requires
        forall|j: int| 0 <= j < user@.len() ==> (#[trigger] user@[j]).1@.len() >= 4,
        forall|j: int| 0 <= j < bundled@.len() ==> (#[trigger] bundled@[j]).1@.len() >= 4,
    ensures
        item_views(r@) == spec_plan(pair_views(user@), pair_views(bundled@)),
{
    let ghost uv = pair_views(user@);
    let ghost bv = pair_views(bundled@);
    let mut out: Vec<RenderItem> = Vec::new();
    let mut i: usize = 0;
    while i < user.len()
        invariant
            i <= user@.len(),
            item_views(out@) =~= uv.take(i as int).map_values(
                |t: (Seq<u8>, Seq<u8>)| item_of(t, true),
            ),
        decreases user@.len() - i,
    {
        proof {
            assert(uv[i as int] == (user@[i as int].0@, user@[i as int].1@));
        }
        let ghost out_before = out@;
        let it = make_item(&user[i].0, &user[i].1, true);
        out.push(it);
        proof {
            assert(item_views(out@) =~= item_views(out_before).push(it@));
            assert(uv.take(i + 1) =~= uv.take(i as int).push(uv[i as int]));
            assert(item_views(out@) =~= uv.take(i + 1).map_values(
                |t: (Seq<u8>, Seq<u8>)| item_of(t, true),
            ));
        }
        i = i + 1;
    }
    proof {
        assert(uv.take(user@.len() as int) =~= uv);
    }
    let ghost user_part = uv.map_values(|t: (Seq<u8>, Seq<u8>)| item_of(t, true));
    let mut k: usize = 0;
    proof {
        assert(bv.skip(0) =~= bv);
    }
    while k < bundled.len()
        invariant
            k <= bundled@.len(),
            item_views(out@) + spec_plan_bundled(rel_list(uv), bv.skip(k as int)) =~= user_part
                + spec_plan_bundled(rel_list(uv), bv),
        decreases bundled@.len() - k,
    {
        proof {
            assert(bv.skip(k as int)[0] == bv[k as int]);
            assert(bv.skip(k as int).skip(1) =~= bv.skip(k + 1));
        }
        let ghost out_before = item_views(out@);
        let ghost head = if rel_list(uv).contains(bv[k as int].1) {
            Seq::<RenderItemModel>::empty()
        } else {
            seq![item_of(bv[k as int], false)]
        };
        if !user_provides(user, &bundled[k].1) {
            let it = make_item(&bundled[k].0, &bundled[k].1, false);
            out.push(it);
            proof {
                assert(item_views(out@) =~= out_before + head);
            }
        } else {
            proof {
                assert(item_views(out@) =~= out_before + head);
            }
        }
        proof {
            assert(out_before + (head + spec_plan_bundled(rel_list(uv), bv.skip(k + 1))) =~= (
            out_before + head) + spec_plan_bundled(rel_list(uv), bv.skip(k + 1)));
        }
        k = k + 1;
    }
    proof {
        assert(bv.skip(bundled@.len() as int) =~= Seq::<(Seq<u8>, Seq<u8>)>::empty());
        assert(item_views(out@) + Seq::<RenderItemModel>::empty() =~= item_views(out@));
    }
    out
}

/// Overriding is correct: when some user template has the relative path `p`,
/// every planned render at `p` comes from the user tier, never from the
/// bundled tier.
pub proof fn lemma_override_correct(
    user: Seq<(Seq<u8>, Seq<u8>)>,
    bundled: Seq<(Seq<u8>, Seq<u8>)>,
    p: Seq<u8>,
)
    requires
        rel_list(user).contains(p),
    ensures
        forall|j: int|
            0 <= j < spec_plan(user, bundled).len() && (#[trigger] spec_plan(user, bundled)[j]).rel
                == p ==> spec_plan(user, bundled)[j].from_user,
{
    let plan = spec_plan(user, bundled);
    let upart = user.map_values(|t: (Seq<u8>, Seq<u8>)| item_of(t, true));
    lemma_plan_bundled_avoids(rel_list(user), bundled, p);
    assert forall|j: int|
        0 <= j < plan.len() && (#[trigger] plan[j]).rel == p implies plan[j].from_user by {
        if j < upart.len() {
            assert(plan[j] == upart[j]);
        } else {
            assert(plan[j] == spec_plan_bundled(rel_list(user), bundled)[j - upart.len()]);
        }
    }
}

proof fn lemma_plan_bundled_avoids(user_rels: Seq<Seq<u8>>, bundled: Seq<(Seq<u8>, Seq<u8>)>, p: Seq<u8>)
    requires
        user_rels.contains(p),
    ensures
        forall|j: int|
            0 <= j < spec_plan_bundled(user_rels, bundled).len() ==> (#[trigger] spec_plan_bundled(
                user_rels,
                bundled,
            )[j]).rel != p,
    decreases bundled.len(),
{
    if bundled.len() > 0 {
        lemma_plan_bundled_avoids(user_rels, bundled.skip(1), p);
        let head = if user_rels.contains(bundled[0].1) {
            Seq::<RenderItemModel>::empty()
        } else {
            seq![item_of(bundled[0], false)]
        };
        let tail = spec_plan_bundled(user_rels, bundled.skip(1));
        assert forall|j: int|
            0 <= j < spec_plan_bundled(user_rels, bundled).len() implies (
        #[trigger] spec_plan_bundled(user_rels, bundled)[j]).rel != p by {
            if j < head.len() {
                assert(spec_plan_bundled(user_rels, bundled)[j] == head[j]);
            } else {
                assert(spec_plan_bundled(user_rels, bundled)[j] == tail[j - head.len()]);
            }
        }
    }
}

/// Relies on walkdir::WalkDir: walks the tree under `dir` and yields each
/// entry's path, which begins with `dir`, and whether it is a regular file;
/// `None` when the root itself cannot be walked.
#[verifier::external_body]
fn walk_tree(dir: &Vec<u8>) -> (r: Option<Vec<(Vec<u8>, bool)>>)
    ensures
        match r {
            Some(es) => forall|i: int|
                0 <= i < es@.len() ==> (#[trigger] es@[i]).0@.len() >= dir@.len() && es@[
                    i].0@.take(dir@.len() as int) == dir@,
            None => true,
        },
{
    let root = match std::str::from_utf8(dir.as_slice()) {
        Ok(s) => s,
        Err(_) => return None,
    };
    let mut out: Vec<(Vec<u8>, bool)> = Vec::new();
    for (n, entry) in walkdir::WalkDir::new(root).into_iter().enumerate() {
        match entry {
            Ok(e) => out.push((e.path().as_os_str().as_encoded_bytes().to_vec(), e.file_type().is_file())),
            Err(_) if n == 0 => return None,
            Err(_) => {},
        }
    }
    Some(out)
}

/// Plan the render of every template under the two roots.
///
/// Fails with `ConfigError` exactly when the bundled templates root cannot be
/// walked; a missing user templates root only leaves the user tier empty.
pub fn render_all(templates_dir: &Vec<u8>, user_templates_dir: &Vec<u8>) -> (r: Result<
    Vec<RenderItem>,
    ThemeError,
>)
    ensures
        match r {
            Ok(items) => exists|u: Seq<(Seq<u8>, bool)>, b: Seq<(Seq<u8>, bool)>|
                item_views(items@) == spec_plan(
                    spec_templates_in(user_templates_dir@, u),
                    spec_templates_in(templates_dir@, b),
                ),
            Err(e) => e == ThemeError::ConfigError,
        },
{
    let bundled_entries = match walk_tree(templates_dir) {
        Some(es) => es,
        None => {
            return Err(ThemeError::ConfigError);
        },
    };
    let user_entries = match walk_tree(user_templates_dir) {
        Some(es) => es,
        None => Vec::new(),
    };
    let bundled = templates_in(templates_dir, &bundled_entries);
    let user = templates_in(user_templates_dir, &user_entries);
    proof {
        let ghost ue = user_entries@.map_values(|e: (Vec<u8>, bool)| (e.0@, e.1));
        let ghost be = bundled_entries@.map_values(|e: (Vec<u8>, bool)| (e.0@, e.1));
        lemma_templates_rel_len(user_templates_dir@, ue);
        lemma_templates_rel_len(templates_dir@, be);
        assert forall|j: int| 0 <= j < user@.len() implies (#[trigger] user@[j]).1@.len() >= 4 by {
            assert(pair_views(user@)[j] == (user@[j].0@, user@[j].1@));
            assert(pair_views(user@)[j].1.len() >= 4);
        }
        assert forall|j: int|
            0 <= j < bundled@.len() implies (#[trigger] bundled@[j]).1@.len() >= 4 by {
            assert(pair_views(bundled@)[j] == (bundled@[j].0@, bundled@[j].1@));
            assert(pair_views(bundled@)[j].1.len() >= 4);
        }
    }
    let plan = plan_renders(&user, &bundled);
    proof {
        let ghost ue = user_entries@.map_values(|e: (Vec<u8>, bool)| (e.0@, e.1));
        let ghost be = bundled_entries@.map_values(|e: (Vec<u8>, bool)| (e.0@, e.1));
        assert(item_views(plan@) == spec_plan(
            spec_templates_in(user_templates_dir@, ue),
            spec_templates_in(templates_dir@, be),
        ));
    }
    Ok(plan)
}

/// Every selected template's relative path carries the four-byte extension.
proof fn lemma_templates_rel_len(dir: Seq<u8>, es: Seq<(Seq<u8>, bool)>)
    ensures
        forall|j: int|
            0 <= j < spec_templates_in(dir, es).len() ==> (#[trigger] spec_templates_in(
                dir,
                es,
            )[j]).1.len() >= 4,
    decreases es.len(),
{
    if es.len() > 0 {
        lemma_templates_rel_len(dir, es.skip(1));
        let head = if es[0].1 && is_tpl_under(dir, es[0].0) {
            seq![(es[0].0, rel_under(dir, es[0].0))]
        } else {
            Seq::<(Seq<u8>, Seq<u8>)>::empty()
        };
        let tail = spec_templates_in(dir, es.skip(1));
        if es[0].1 && is_tpl_under(dir, es[0].0) {
            assert(rel_under(dir, es[0].0).len() == es[0].0.len() - dir.len() - 1);
        }
        assert forall|j: int|
            0 <= j < spec_templates_in(dir, es).len() implies (#[trigger] spec_templates_in(
            dir,
            es,
        )[j]).1.len() >= 4 by {
            if j < head.len() {
                assert(spec_templates_in(dir, es)[j] == head[j]);
            } else {
                assert(spec_templates_in(dir, es)[j] == tail[j - head.len()]);
            }
        }
    }
}

} // verus!
