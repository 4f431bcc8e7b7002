//! What stands before the tail of a file where several files are shown.

use vstd::prelude::*;
use vstd::string::StringExecFns;

verus! {

/// Whether the tail of each file is shown under the name of the file:
/// it is where there are several files, unless that is switched off.
pub open spec fn shows_headers(quiet: bool, n_files: nat) -> bool {
    !quiet && n_files > 1
}

/// What stands before the tail of `file`: nothing where no headers are
/// shown, and else the name of the file between arrows, after an empty
/// line if a header was shown before. `need_newline_before` says whether
/// one was, and is set once one is.
pub fn file_header(file: &str, quiet: bool, n_files: usize, need_newline_before: &mut bool) -> (s:
    String)
    ensures
        s@ == if !shows_headers(quiet, n_files as nat) {
            Seq::<char>::empty()
        } else if *old(need_newline_before) {
            "\n==> "@ + file@ + " <==\n"@
        } else {
            "==> "@ + file@ + " <==\n"@
        },
        *final(need_newline_before) == (*old(need_newline_before) || shows_headers(
            quiet,
            n_files as nat,
        )),
{
    if !quiet && n_files > 1 {
        let start = if *need_newline_before {
            "\n==> "
        } else {
            "==> "
        };
        *need_newline_before = true;
        String::from_str(start).concat(file).concat(" <==\n")
    } else {
        String::new()
    }
}

} // verus!
