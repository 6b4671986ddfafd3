//! The path resolver's pure half: picking the target name out of the
//! argument list and joining it onto the current directory. The actual
//! canonicalization (symbolic links, `.` and `..`) needs the filesystem
//! and stays with the caller.

use vstd::prelude::*;
use vstd::string::StrSliceExecFns;
use vstd::string::StringExecFns;

use crate::error::Error;

verus! {

/// The directory to delete is the first argument after the program
/// name; anything after it is ignored. A missing argument is an error,
/// and so is an empty one: the target must be a non-empty name.
pub fn get_dirname_from_args(args: &Vec<String>) -> (r: Result<String, Error>)
    ensures
        r is Ok <==> args@.len() >= 2 && args@[1]@.len() > 0,
        r matches Ok(d) ==> d@ == args@[1]@,
        r matches Err(e) ==> e == Error::MissingArgument,
{
    if args.len() >= 2 && !args[1].as_str().is_empty() {
        Ok(args[1].clone())
    } else {
        Err(Error::MissingArgument)
    }
}

/// The string handed to canonicalization: the argument alone when it is
/// absolute, otherwise the current directory, a separator and the
/// argument.
pub fn resolve_target(current_dir: &str, dirname: &str) -> (r: String)
    ensures
        dirname@.len() > 0 && dirname@[0] == '/' ==> r@ == dirname@,
        !(dirname@.len() > 0 && dirname@[0] == '/') ==> r@ == current_dir@ + seq!['/']
            + dirname@,
{
    if dirname.unicode_len() > 0 && dirname.get_char(0) == '/' {
        dirname.to_owned()
    } else {
        let mut out = current_dir.to_owned();
        out.append("/");
        out.append(dirname);
        proof {
            reveal_strlit("/");
            assert("/"@ =~= seq!['/']);
            assert(out@ =~= current_dir@ + seq!['/'] + dirname@);
        }
        out
    }
}

} // verus!
