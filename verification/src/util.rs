//! The filesystem actions the pipeline asks its runner to perform, and the
//! paths each action may touch.
//!
//! The library decides; an unverified runner performs each action with the
//! matching OS call, in order, stopping at the first failure.

use vstd::prelude::*;

use crate::render::SLASH_BYTE;

verus! {

/// One filesystem action, in terms of plain paths.
#[derive(Debug, Clone, PartialEq)]
pub enum FsAction {
    /// Create the directory and any missing ancestors.
    CreateDirAll(Vec<u8>),
    /// Remove the entry: a file or link directly, a directory recursively.
    RemoveAny(Vec<u8>),
    /// Rename the first path onto the second, replacing it in one step.
    Rename(Vec<u8>, Vec<u8>),
    /// Create a symlink at the second path pointing at the first.
    Symlink(Vec<u8>, Vec<u8>),
}

/// Mathematical form of a filesystem action.
pub enum FsActionModel {
    CreateDirAll(Seq<u8>),
    RemoveAny(Seq<u8>),
    Rename(Seq<u8>, Seq<u8>),
    Symlink(Seq<u8>, Seq<u8>),
}

impl View for FsAction {
    type V = FsActionModel;

    open spec fn view(&self) -> FsActionModel {
        match self {
            FsAction::CreateDirAll(p) => FsActionModel::CreateDirAll(p@),
            FsAction::RemoveAny(p) => FsActionModel::RemoveAny(p@),
            FsAction::Rename(f, t) => FsActionModel::Rename(f@, t@),
            FsAction::Symlink(tg, l) => FsActionModel::Symlink(tg@, l@),
        }
    }
}

/// The views of a sequence of actions.
pub open spec fn action_views(xs: Seq<FsAction>) -> Seq<FsActionModel> {
    xs.map_values(|x: FsAction| x@)
}

/// `p` is `root` itself or lies below it.
pub open spec fn path_within(p: Seq<u8>, root: Seq<u8>) -> bool {
    p == root || (p.len() > root.len() && p.take(root.len() as int) == root && p[root.len() as int]
        == SLASH_BYTE)
}

/// Lying below a path is transitive.
pub proof fn lemma_path_within_trans(p: Seq<u8>, mid: Seq<u8>, root: Seq<u8>)
    requires
        path_within(p, mid),
        path_within(mid, root),
    ensures
        path_within(p, root),
{
    if p != mid && mid != root {
        assert(p.take(root.len() as int) =~= p.take(mid.len() as int).take(root.len() as int));
        assert(p[root.len() as int] == p.take(mid.len() as int)[root.len() as int]);
    } else {
    }
}

/// Whether performing the action can change what stands at `p` or below it.
///
/// Creating a directory tree touches only the named directory and its
/// missing ancestors; a removal touches the entry and its subtree; a rename
/// touches both ends; a symlink touches the link path.
pub open spec fn may_touch(a: FsActionModel, p: Seq<u8>) -> bool {
    match a {
        FsActionModel::CreateDirAll(q) => path_within(q, p),
        FsActionModel::RemoveAny(q) => path_within(p, q),
        FsActionModel::Rename(f, t) => path_within(p, f) || path_within(p, t),
        FsActionModel::Symlink(_tg, l) => path_within(p, l),
    }
}

/// Index of the last separator in `p`.
pub open spec fn find_last_slash(p: Seq<u8>) -> Option<int>
    decreases p.len(),
{
    if p.len() == 0 {
        None
    } else if p[p.len() - 1] == SLASH_BYTE {
        Some(p.len() - 1)
    } else {
        find_last_slash(p.take(p.len() - 1))
    }
}

/// The directory that holds `p`, when `p` names one.
pub open spec fn parent_dir(p: Seq<u8>) -> Option<Seq<u8>> {
    match find_last_slash(p) {
        Some(i) => Some(p.take(i)),
        None => None,
    }
}

proof fn lemma_find_last_slash_at(p: Seq<u8>, i: int)
    requires
        0 <= i < p.len(),
        p[i] == SLASH_BYTE,
        forall|j: int| i < j < p.len() ==> p[j] != SLASH_BYTE,
    ensures
        find_last_slash(p) == Some(i),
    decreases p.len(),
{
    if i == p.len() - 1 {
    } else {
        assert(p.take(p.len() - 1)[i] == p[i]);
        lemma_find_last_slash_at(p.take(p.len() - 1), i);
    }
}

proof fn lemma_find_last_slash_none(p: Seq<u8>)
    requires
        forall|j: int| 0 <= j < p.len() ==> p[j] != SLASH_BYTE,
    ensures
        find_last_slash(p) is None,
    decreases p.len(),
{
    if p.len() > 0 {
        lemma_find_last_slash_none(p.take(p.len() - 1));
    }
}

/// The actions that force a symlink into place: make sure the link's parent
/// directory exists, remove whatever stands at the link path, create the
/// link.
pub open spec fn spec_symlink_force(target: Seq<u8>, link: Seq<u8>, link_exists: bool) -> Seq<
    FsActionModel,
> {
    (match parent_dir(link) {
        Some(d) => seq![FsActionModel::CreateDirAll(d)],
        None => Seq::empty(),
    }) + (if link_exists {
        seq![FsActionModel::RemoveAny(link)]
    } else {
        Seq::empty()
    }) + seq![FsActionModel::Symlink(target, link)]
}

/// Plan the forced replacement of a symlink: the parent directory is
/// ensured, any entry at the link path is removed, and the link is created
/// pointing at `target`. `link_exists` says whether anything stands at the
/// link path now.
pub fn symlink_force(target: &Vec<u8>, link: &Vec<u8>, link_exists: bool) -> (r: Vec<FsAction>)
    ensures
        action_views(r@) == spec_symlink_force(target@, link@, link_exists),
{
    let mut out: Vec<FsAction> = Vec::new();
    let mut i: usize = link.len();
    while i > 0 && link[i - 1] != SLASH_BYTE
        invariant
            i <= link@.len(),
            forall|j: int| i <= j < link@.len() ==> link@[j] != SLASH_BYTE,
        decreases i,
    {
        i = i - 1;
    }
    if i == 0 {
        proof {
            lemma_find_last_slash_none(link@);
        }
    } else {
        proof {
            lemma_find_last_slash_at(link@, i - 1);
        }
        let parent = crate::parser::copy_range(link, 0, i - 1);
        out.push(FsAction::CreateDirAll(parent));
    }
    if link_exists {
        out.push(FsAction::RemoveAny(crate::mapping::copy_bytes(link)));
    }
    out.push(FsAction::Symlink(crate::mapping::copy_bytes(target), crate::mapping::copy_bytes(link)));
    proof {
        assert(action_views(out@) =~= spec_symlink_force(target@, link@, link_exists));
    }
    out
}

} // verus!
