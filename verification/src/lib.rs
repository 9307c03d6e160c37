use vstd::prelude::*;

pub mod args;
pub mod entries;
pub mod list;

verus! {

/// The error kinds that the library and its callers distinguish.
///
/// `InvalidArgument` comes from command-line parsing; `NotFound`,
/// `PermissionDenied` and `Io` classify filesystem failures (opening the
/// directory, or fetching a file type or timestamps for an entry).
#[derive(Clone, Copy, PartialEq, Eq, Structural, Debug)]
pub enum LsError {
    InvalidArgument,
    NotFound,
    PermissionDenied,
    Io,
}

/// Whether a string equals a given literal, stated over the views.
pub fn str_is(a: &str, lit: &str) -> (r: bool)
    ensures
        r == (a@ == lit@),
{
    let sa: String = a.to_owned();
    let sb: String = lit.to_owned();
    sa == sb
}

} // verus!
