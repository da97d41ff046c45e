//! Path resolution: where the alias file is read from and where the
//! function files are written.

use vstd::prelude::*;

use crate::errors::ApplicationError;

verus! {

/// The two paths a run works with: the alias file to read and the
/// directory the function files go into.
pub struct Paths {
    pub input: String,
    pub output_dir: String,
}

/// The input path used when none is given explicitly.
pub open spec fn spec_default_input(home: Seq<char>) -> Seq<char> {
    home + "/.alias"@
}

/// The fixed output directory under the home directory. It is assumed
/// to exist; a missing directory surfaces later as a file-creation
/// failure.
pub open spec fn spec_output_dir(home: Seq<char>) -> Seq<char> {
    home + "/.config/fish/functions/"@
}

/// The path of the function file for `name` inside `dir` (which ends
/// with a separator).
pub open spec fn spec_output_file(dir: Seq<char>, name: Seq<char>) -> Seq<char> {
    dir + name + ".fish"@
}

/// Resolves the run's paths from the home directory and the optional
/// explicit input path. Fails with `NoHomeDirectory` exactly when the
/// home directory is unknown, whether or not an explicit input was
/// given. Does not touch the file system.
pub fn locate(home: Option<&str>, explicit_input: Option<&str>) -> (r: Result<
    Paths,
    ApplicationError,
>)
    ensures
        match (r, home) {
            (Ok(p), Some(h)) => p.output_dir@ == spec_output_dir(h@) && p.input@ == (match explicit_input {
                Some(e) => e@,
                None => spec_default_input(h@),
            }),
            (Err(e), None) => e == ApplicationError::NoHomeDirectory,
            _ => false,
        },
{
    match home {
        None => Err(ApplicationError::NoHomeDirectory),
        Some(h) => {
            let input = match explicit_input {
                Some(e) => String::from_str(e),
                None => {
                    let mut t = String::from_str(h);
                    t.append("/.alias");
                    t
                },
            };
            let mut d = String::from_str(h);
            d.append("/.config/fish/functions/");
            Ok(Paths { input, output_dir: d })
        },
    }
}

/// Renders the path of the function file for `name`: `<dir><name>.fish`.
pub fn output_file_path(output_dir: &str, name: &str) -> (r: String)
    ensures
        r@ == spec_output_file(output_dir@, name@),
{
    let mut p = String::from_str(output_dir);
    p.append(name);
    p.append(".fish");
    proof {
        assert(p@ =~= spec_output_file(output_dir@, name@));
    }
    p
}

} // verus!
