//! The apply engine's decisions: where each edited copy goes, and the rule
//! that no existing file is ever overwritten.

use vstd::prelude::*;
use crate::error::SyncError;
use crate::paths::{file_name, join_path, PathGroup};

verus! {

/// Where the edited copy of `base` goes inside `dir`.
pub open spec fn output_path(base: Seq<char>, dir: Seq<char>) -> Seq<char> {
    join_path(dir, file_name(base))
}

/// The outcome of a whole apply run over `bases`, in order, against the set
/// of files that already exist: the files that exist afterwards, or the
/// first output path that was already taken.
pub open spec fn run_outcome(bases: Seq<Seq<char>>, dir: Seq<char>, existing: Set<Seq<char>>) -> Result<
    Set<Seq<char>>,
    Seq<char>,
>
    decreases bases.len(),
{
    if bases.len() == 0 {
        Ok(existing)
    } else {
        let out = output_path(bases[0], dir);
        if existing.contains(out) {
            Err(out)
        } else {
            run_outcome(bases.drop_first(), dir, existing.insert(out))
        }
    }
}

/// The output path for the group's file, refused where a file is already
/// there.
pub fn stage_output(paths: &PathGroup, output_dir: &str, output_exists: bool) -> (r: Result<
    String,
    SyncError,
>)
    ensures
        output_exists ==> (r matches Err(SyncError::AlreadyExists(p)) && p@ == output_path(
            paths.base_path(),
            output_dir@,
        )),
        !output_exists ==> (r matches Ok(p) && p@ == output_path(paths.base_path(), output_dir@)),
{
    let out = paths.flac_output(output_dir);
    if output_exists {
        Err(SyncError::AlreadyExists(out))
    } else {
        Ok(out)
    }
}

/// After a run that succeeded, every file that existed before still exists,
/// and so does every output of the run.
pub proof fn lemma_run_creates_outputs(
    bases: Seq<Seq<char>>,
    dir: Seq<char>,
    existing: Set<Seq<char>>,
)
    requires
        run_outcome(bases, dir, existing) is Ok,
    ensures
        existing.subset_of(run_outcome(bases, dir, existing)->Ok_0),
        forall|i: int| 0 <= i < bases.len() ==> run_outcome(bases, dir, existing)->Ok_0.contains(
            output_path(#[trigger] bases[i], dir),
        ),
    decreases bases.len(),
{
    if bases.len() > 0 {
        let out = output_path(bases[0], dir);
        let rest = bases.drop_first();
        lemma_run_creates_outputs(rest, dir, existing.insert(out));
        assert forall|i: int| 0 <= i < bases.len() implies run_outcome(
            bases,
            dir,
            existing,
        )->Ok_0.contains(output_path(#[trigger] bases[i], dir)) by {
            if i > 0 {
                assert(bases[i] == rest[i - 1]);
            }
        }
    }
}

/// Running apply a second time into the same directory with the same
/// inputs stops at its first file, whose output the first run wrote, before
/// anything is copied or written.
pub proof fn lemma_rerun_refused(bases: Seq<Seq<char>>, dir: Seq<char>, existing: Set<Seq<char>>)
    requires
        bases.len() > 0,
        run_outcome(bases, dir, existing) is Ok,
    ensures
        run_outcome(bases, dir, run_outcome(bases, dir, existing)->Ok_0) == Err::<
            Set<Seq<char>>,
            Seq<char>,
        >(output_path(bases[0], dir)),
{
    lemma_run_creates_outputs(bases, dir, existing);
}

} // verus!
