//! The sending side: which files are sent at all, and the bytes that go out
//! for one.

use crate::error::SendError;
use crate::names::append_bytes;
use crate::wire::encode_header;
use crate::wire::encoding;
use vstd::prelude::*;
use vstd::string::StringSliceAdditionalSpecFns;

verus! {

/// Everything that goes out for a file called `filename` that holds
/// `contents`: the header, then the contents as they are.
pub open spec fn message(filename: Seq<u8>, contents: Seq<u8>) -> Seq<u8> {
    encoding(contents.len() as u64, filename) + contents
}

/// Decides, before any connection is made, whether a path can be sent: it
/// has to name a regular file, and the file has to hold at least one byte.
pub fn check_source(is_regular_file: bool, size: u64) -> (checked: Result<(), SendError>)
    ensures
        checked == (if !is_regular_file {
            Err::<(), SendError>(SendError::NotAFile)
        } else if size == 0 {
            Err::<(), SendError>(SendError::EmptyFile)
        } else {
            Ok::<(), SendError>(())
        }),
{
    if !is_regular_file {
        Err(SendError::NotAFile)
    } else if size == 0 {
        Err(SendError::EmptyFile)
    } else {
        Ok(())
    }
}

/// Builds what goes out for a file called `filename` that holds
/// `contents`. A file without contents is not sent.
pub fn frame(filename: &str, contents: &[u8]) -> (framed: Result<Vec<u8>, SendError>)
    ensures
        match framed {
            Ok(bytes) => contents@.len() > 0 && bytes@ == message(
                filename.spec_bytes(),
                contents@,
            ),
            Err(e) => contents@.len() == 0 && e == SendError::EmptyFile,
        },
{
    if contents.len() == 0 {
        return Err(SendError::EmptyFile);
    }
    let mut bytes = encode_header(contents.len() as u64, filename.as_bytes());
    append_bytes(&mut bytes, contents);
    Ok(bytes)
}

} // verus!
