//! What one run of the handler is asked to do, read off its arguments.
//!
//! The arguments are those of the process, the name of the program first.
//! With nothing after the name, or with `-v` or `--version` alone, the usage
//! text is shown.  With one other argument, that argument is the URL to
//! handle.  Every other number of arguments is refused.

use vstd::prelude::*;
use crate::scan::{rows, same_bytes};

verus! {

/// Why the arguments were refused.
#[derive(Clone, Copy, Debug, PartialEq, Eq, Structural)]
pub enum ArgumentError {
    TooManyArgs,
}

/// What to do with the arguments.
#[derive(Clone, Copy, Debug, PartialEq, Eq, Structural)]
pub enum Action {
    /// Print the usage text and succeed.
    ShowUsage,
    /// Decode the second argument and start the player.
    Handle,
    /// Report the error and fail, without decoding anything.
    Reject(ArgumentError),
}

/// The bytes of `-v`.
pub open spec fn short_version_flag() -> Seq<u8> {
    seq![0x2du8, 0x76u8]
}

/// The bytes of `--version`.
pub open spec fn long_version_flag() -> Seq<u8> {
    seq![0x2du8, 0x2du8, 0x76u8, 0x65u8, 0x72u8, 0x73u8, 0x69u8, 0x6fu8, 0x6eu8]
}

/// The argument asks for the version.
pub open spec fn is_version_flag(arg: Seq<u8>) -> bool {
    arg == short_version_flag() || arg == long_version_flag()
}

/// What to do with the arguments `args`.
pub open spec fn spec_decide(args: Seq<Seq<u8>>) -> Action {
    if args.len() == 1 {
        Action::ShowUsage
    } else if args.len() == 2 {
        if is_version_flag(args[1]) {
            Action::ShowUsage
        } else {
            Action::Handle
        }
    } else {
        Action::Reject(ArgumentError::TooManyArgs)
    }
}

/// Tells whether an argument asks for the version.
pub fn version_flag(arg: &[u8]) -> (r: bool)
    ensures
        r == is_version_flag(arg@),
{
    let short: Vec<u8> = vec![0x2du8, 0x76u8];
    let long: Vec<u8> = vec![0x2du8, 0x2du8, 0x76u8, 0x65u8, 0x72u8, 0x73u8, 0x69u8, 0x6fu8, 0x6eu8];
    assert(short@ =~= short_version_flag());
    assert(long@ =~= long_version_flag());
    same_bytes(arg, short.as_slice()) || same_bytes(arg, long.as_slice())
}

/// Decides what to do with the arguments of the process.
pub fn decide(args: &Vec<Vec<u8>>) -> (r: Action)
    ensures
        r == spec_decide(rows(args@)),
        r == Action::Handle ==> args@.len() == 2,
{
    if args.len() == 1 {
        Action::ShowUsage
    } else if args.len() == 2 {
        if version_flag(args[1].as_slice()) {
            Action::ShowUsage
        } else {
            Action::Handle
        }
    } else {
        Action::Reject(ArgumentError::TooManyArgs)
    }
}

} // verus!
