//! Atomic publish: stage into a fresh scratch directory, then swap it onto
//! the live tree with one rename.
//!
//! An open transaction owns only its staging directory. Dropping the handle
//! without committing removes that directory and nothing else; `commit`
//! first hands the directory away from automatic removal, so no failure
//! after that point can delete the staged content.

use vstd::prelude::*;

use crate::ctx::Ctx;
use crate::ctx::child_of;
use crate::ctx::live_name;
use crate::errors::ThemeError;
use crate::mapping::copy_bytes;
use crate::render::SLASH_BYTE;
use crate::util::FsAction;
use crate::util::FsActionModel;
use crate::util::action_views;
use crate::util::lemma_path_within_trans;
use crate::util::may_touch;
use crate::util::path_within;
use crate::util::spec_symlink_force;

verus! {

/// Byte value of `.`.
pub const DOT_BYTE: u8 = 46;

#[verifier::external_type_specification]
#[verifier::external_body]
pub struct ExTempDir(tempfile::TempDir);

/// Relies on tempfile::Builder::tempdir_in: creates a fresh directory inside
/// `parent` whose name begins with the `.stage.` prefix and holds no
/// separator; the directory is removed when the handle is dropped. An
/// absolute parent that does not end in a separator is used as given, so
/// the fresh directory's path is the parent, one separator, and the name.
#[verifier::external_body]
fn create_stage_dir(parent: &Vec<u8>) -> (r: Option<(tempfile::TempDir, Vec<u8>)>)
    requires
        parent@.len() > 0,
        parent@[0] == SLASH_BYTE,
        parent@[parent@.len() - 1] != SLASH_BYTE,
    ensures
        match r {
            Some(t) => t.1@.len() > parent@.len() + 1 && t.1@.take(parent@.len() as int) == parent@
                && t.1@[parent@.len() as int] == SLASH_BYTE && t.1@[parent@.len() as int + 1] == DOT_BYTE
                && (forall|j: int| parent@.len() < j < t.1@.len() ==> t.1@[j] != SLASH_BYTE),
            None => true,
        },
{
    let root = match std::str::from_utf8(parent.as_slice()) {
        Ok(s) => s,
        Err(_) => return None,
    };
    let td = match tempfile::Builder::new().prefix(".stage.").tempdir_in(root) {
        Ok(t) => t,
        Err(_) => return None,
    };
    let path = td.path().as_os_str().as_encoded_bytes().to_vec();
    Some((td, path))
}

/// Relies on TempDir::keep: gives the directory up from automatic removal,
/// so no later failure can delete it.
#[verifier::external_body]
fn keep_stage_dir(t: tempfile::TempDir) {
    let _ = t.keep();
}

/// An open publish transaction: a staging directory waiting to be swapped
/// onto the live tree.
pub struct Transaction {
    /// Handle of the staging directory; dropping it removes the directory.
    pub stage_dir: tempfile::TempDir,
    /// Path of the staging directory.
    pub stage_path: Vec<u8>,
    /// Path of the parent scratch directory the staging directory lies in.
    pub parent: Vec<u8>,
    /// Path of the live tree to replace on commit.
    pub live: Vec<u8>,
    /// Path of the alias link to update on commit.
    pub link: Vec<u8>,
}

impl Transaction {
    /// The staging directory lies below the scratch directory under a fresh
    /// dot-prefixed name, the live tree is the scratch directory's `live`
    /// child, and the alias link lies outside the scratch directory.
    pub open spec fn wf(&self) -> bool {
        &&& self.stage_path@.len() > self.parent@.len() + 1
        &&& self.stage_path@.take(self.parent@.len() as int) == self.parent@
        &&& self.stage_path@[self.parent@.len() as int] == SLASH_BYTE
        &&& self.stage_path@[self.parent@.len() as int + 1] == DOT_BYTE
        &&& (forall|j: int|
            self.parent@.len() < j < self.stage_path@.len() ==> self.stage_path@[j] != SLASH_BYTE)
        &&& self.live@ == child_of(self.parent@, live_name())
        &&& !path_within(self.link@, self.parent@)
    }

    /// Open a transaction: create a fresh staging directory inside the
    /// scratch directory. Fails with `IoError` when the directory cannot be
    /// created (for one, when the scratch directory is missing).
    pub fn begin(ctx: &Ctx) -> (r: Result<Transaction, ThemeError>)
        requires
            ctx.wf(),
            ctx.config_dir@.len() > 0,
            ctx.config_dir@[0] == SLASH_BYTE,
        ensures
            match r {
                Ok(t) => t.wf() && t.parent@ == ctx.generated_dir@ && t.live@ == ctx.live_dir@
                    && t.link@ == ctx.current_link@,
                Err(e) => e == ThemeError::IoError,
            },
    {
        proof {
            let g = ctx.generated_dir@;
            assert(g[0] == ctx.config_dir@[0]);
            assert(g[g.len() - 1] == crate::ctx::generated_name()[8]);
        }
        match create_stage_dir(&ctx.generated_dir) {
            Some((stage_dir, stage_path)) => Ok(
                Transaction {
                    stage_dir,
                    stage_path,
                    parent: copy_bytes(&ctx.generated_dir),
                    live: copy_bytes(&ctx.live_dir),
                    link: copy_bytes(&ctx.current_link),
                },
            ),
            None => Err(ThemeError::IoError),
        }
    }

    /// The path callers render and copy into; valid while the transaction is
    /// open.
    pub fn stage(&self) -> (r: &Vec<u8>)
        ensures
            r@ == self.stage_path@,
    {
        &self.stage_path
    }

    /// The actions that commit the transaction: remove the live tree when
    /// one stands there, rename the staging directory onto the live path,
    /// and force the alias link at it.
    pub open spec fn spec_commit(
        stage: Seq<u8>,
        live: Seq<u8>,
        link: Seq<u8>,
        live_exists: bool,
        link_exists: bool,
    ) -> Seq<FsActionModel> {
        (if live_exists {
            seq![FsActionModel::RemoveAny(live)]
        } else {
            Seq::empty()
        }) + seq![FsActionModel::Rename(stage, live)] + spec_symlink_force(live, link, link_exists)
    }

    /// Commit: hand the staging directory away from automatic removal and
    /// return the actions that swap it onto the live tree and update the
    /// alias link. The runner performs them in order; if the rename fails,
    /// the staged content is left in place on purpose rather than deleted.
    ///
    /// `live_exists` and `link_exists` say whether anything stands at the
    /// live path and the link path now.
    pub fn commit(self, live_exists: bool, link_exists: bool) -> (r: Vec<FsAction>)
        ensures
            action_views(r@) == Self::spec_commit(
                self.stage_path@,
                self.live@,
                self.link@,
                live_exists,
                link_exists,
            ),
    {
        let Transaction { stage_dir, stage_path, parent: _, live, link } = self;
        keep_stage_dir(stage_dir);
        let mut out: Vec<FsAction> = Vec::new();
        if live_exists {
            out.push(FsAction::RemoveAny(copy_bytes(&live)));
        }
        out.push(FsAction::Rename(copy_bytes(&stage_path), copy_bytes(&live)));
        let mut tail = crate::util::symlink_force(&live, &link, link_exists);
        let ghost out_head = out@;
        let ghost tail_snap = tail@;
        let n = tail.len();
        let mut i: usize = 0;
        while i < n
            invariant
                i <= n == tail_snap.len(),
                tail@ =~= tail_snap.skip(i as int),
                out@ =~= out_head + tail_snap.take(i as int),
            decreases n - i,
        {
            proof {
                assert(tail_snap.skip(i as int)[0] == tail_snap[i as int]);
            }
            let a = tail.remove(0);
            proof {
                assert(tail@ =~= tail_snap.skip(i + 1));
            }
            out.push(a);
            proof {
                assert(out@ =~= out_head + tail_snap.take(i + 1));
            }
            i = i + 1;
        }
        proof {
            assert(tail_snap.take(n as int) =~= tail_snap);
            assert(action_views(out@) =~= Self::spec_commit(
                stage_path@,
                live@,
                link@,
                live_exists,
                link_exists,
            ));
        }
        out
    }

    /// Abandonment is safe: dropping an open transaction removes only its
    /// staging directory, and neither the live tree nor the alias link lies
    /// at or below that directory — so a run that never commits leaves both
    /// exactly as they were.
    pub proof fn lemma_abandon_untouched(t: Transaction)
        requires
            t.wf(),
        ensures
            !may_touch(FsActionModel::RemoveAny(t.stage_path@), t.live@),
            !may_touch(FsActionModel::RemoveAny(t.stage_path@), t.link@),
    {
        let stage = t.stage_path@;
        let parent = t.parent@;
        let live = t.live@;
        let link = t.link@;
        assert(live.len() == parent.len() + 5);
        assert(live[parent.len() as int + 1] == live_name()[0]);
        if path_within(live, stage) {
            if live == stage {
                assert(live[parent.len() as int + 1] == DOT_BYTE);
            } else {
                assert(live.take(stage.len() as int)[parent.len() as int + 1] == live[parent.len() as int + 1]);
                assert(live[parent.len() as int + 1] == stage[parent.len() as int + 1]);
            }
            assert(false);
        }
        assert(path_within(stage, parent));
        if path_within(link, stage) {
            lemma_path_within_trans(link, stage, parent);
            assert(false);
        }
    }
}

} // verus!
