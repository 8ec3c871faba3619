//! The single-file variant of the transfer: its path check, and the place
//! where it writes a received file (the name put after the destination).

use vstd::prelude::*;
use crate::streamer::is_absolute;
use crate::wire::append_bytes;

verus! {

/// Whether `path` names an absolute path (one that starts at the root).
pub fn has_path(path: &str) -> (b: bool)
    ensures
        b == is_absolute(path@),
{
    crate::streamer::has_path(path)
}

/// Where a received file is written: the name after the destination, with
/// a `/` between them unless the destination already ends with one.
pub open spec fn destination_spec(path: Seq<u8>, file_name: Seq<u8>) -> Seq<u8> {
    if path.len() > 0 && path.last() == 0x2f {
        path + file_name
    } else {
        path + seq![0x2fu8] + file_name
    }
}

/// The path a received file is written to, under the destination `path`.
pub fn file_destination(path: &[u8], file_name: &[u8]) -> (out: Vec<u8>)
    ensures
        out@ == destination_spec(path@, file_name@),
{
    let mut out: Vec<u8> = Vec::new();
    append_bytes(&mut out, path);
    if !(path.len() > 0 && path[path.len() - 1] == 0x2fu8) {
        out.push(0x2fu8);
    }
    append_bytes(&mut out, file_name);
    assert(out@ =~= destination_spec(path@, file_name@));
    out
}

} // verus!
