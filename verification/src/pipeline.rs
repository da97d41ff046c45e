//! The run's computation in one piece: from the text of the alias
//! file to the list of files to write, each an output path paired with
//! its full content.

use vstd::prelude::*;

use crate::alias::Alias;
use crate::alias::AliasV;
use crate::alias::spec_parse;
use crate::alias::spec_render;
use crate::alias::views_of;
use crate::errors::ApplicationError;
use crate::locate::output_file_path;
use crate::locate::spec_output_file;

verus! {

/// The write planned for one record: its file path and its content.
pub open spec fn spec_planned_file(dir: Seq<char>, a: AliasV) -> (Seq<char>, Seq<char>) {
    (spec_output_file(dir, a.name), spec_render(a))
}

/// The writes planned for a parsed record sequence, in record order.
pub open spec fn spec_plan(recs: Seq<AliasV>, dir: Seq<char>) -> Seq<(Seq<char>, Seq<char>)> {
    recs.map_values(|a: AliasV| spec_planned_file(dir, a))
}

/// The views of a planned file list.
pub open spec fn views_of_files(v: Seq<(String, String)>) -> Seq<(Seq<char>, Seq<char>)> {
    v.map_values(|f: (String, String)| (f.0@, f.1@))
}

/// Computes everything a run writes: for each alias of `contents`, in
/// order, the output path under `output_dir` and the rendered function
/// block. Fails exactly when parsing fails; touches no file.
pub fn plan(contents: &str, output_dir: &str) -> (r: Result<
    Vec<(String, String)>,
    ApplicationError,
>)
    ensures
        match r {
            Ok(files) => spec_parse(contents@) matches Ok(recs) && views_of_files(files@)
                == spec_plan(recs, output_dir@),
            Err(e) => spec_parse(contents@) == Err::<Seq<AliasV>, ApplicationError>(e),
        },
{
    let aliases = match Alias::parse(String::from_str(contents)) {
        Ok(v) => v,
        Err(e) => {
            return Err(e);
        },
    };
    let ghost recs = views_of(aliases@);
    let mut files: Vec<(String, String)> = Vec::new();
    let mut i: usize = 0;
    proof {
        assert(views_of_files(files@) =~= spec_plan(recs.take(0), output_dir@));
    }
    while i < aliases.len()
        invariant
            i <= aliases.len(),
            files@.len() == i,
            recs == views_of(aliases@),
            recs.len() == aliases.len(),
            spec_parse(contents@) == Ok::<Seq<AliasV>, ApplicationError>(recs),
            views_of_files(files@) == spec_plan(recs.take(i as int), output_dir@),
        decreases aliases.len() - i,
    {
        let a = &aliases[i];
        let path = output_file_path(output_dir, a.name.as_str());
        let text = a.function();
        let ghost fold = files@;
        files.push((path, text));
        proof {
            let m = i as int;
            assert(recs[m] == aliases@[m]@);
            assert(files@ == fold.push((path, text)));
            assert forall|k: int| 0 <= k < m + 1 implies views_of_files(files@)[k] == spec_plan(
                recs.take(m + 1),
                output_dir@,
            )[k] by {
                assert(recs.take(m + 1)[k] == recs[k]);
                if k < m {
                    assert(files@[k] == fold[k]);
                    assert(views_of_files(fold)[k] == spec_plan(recs.take(m), output_dir@)[k]);
                    assert(recs.take(m)[k] == recs[k]);
                } else {
                    assert(files@[k] == (path, text));
                }
            }
            assert(views_of_files(files@) =~= spec_plan(recs.take(m + 1), output_dir@));
        }
        i = i + 1;
    }
    proof {
        assert(recs.take(recs.len() as int) =~= recs);
    }
    Ok(files)
}

/// Byte-for-byte determinism: two runs over the same input text and
/// the same output directory plan the same paths with identical
/// content, so a rerun overwrites every file with exactly the bytes it
/// already holds.
pub proof fn lemma_plan_deterministic(s1: Seq<char>, s2: Seq<char>, d1: Seq<char>, d2: Seq<char>)
    requires
        s1 == s2,
        d1 == d2,
    ensures
        spec_parse(s1) == spec_parse(s2),
        spec_parse(s1) matches Ok(recs) ==> spec_plan(recs, d1) == spec_plan(recs, d2),
{
}

} // verus!
