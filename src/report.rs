//! Messages for fatal errors.

use vstd::prelude::*;
use crate::bytes::append_bytes;

verus! {

/// The message for `error`, met while handling the object at `path`:
/// `path='<path>', error=(<error>)`.
pub open spec fn path_error_message(error: Seq<u8>, path: Seq<u8>) -> Seq<u8> {
    seq![112u8, 97, 116, 104, 61, 39] + path + seq![39u8, 44, 32, 101, 114, 114, 111, 114, 61, 40]
        + error + seq![41u8]
}

/// Attaches the path of the object that an error concerns to its message.
pub fn add_path_to_error(error: &[u8], path: &[u8]) -> (r: Vec<u8>)
    ensures
        r@ == path_error_message(error@, path@),
{
    let mut out: Vec<u8> = vec![112u8, 97, 116, 104, 61, 39];
    let ghost head = out@;
    append_bytes(&mut out, path);
    let middle: Vec<u8> = vec![39u8, 44, 32, 101, 114, 114, 111, 114, 61, 40];
    append_bytes(&mut out, middle.as_slice());
    append_bytes(&mut out, error);
    let tail: Vec<u8> = vec![41u8];
    append_bytes(&mut out, tail.as_slice());
    assert(out@ =~= path_error_message(error@, path@));
    out
}

} // verus!
