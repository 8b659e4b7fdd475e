//! The receiving side of one connection, from the first byte to the last:
//! the header is read, the destination name is made free, and the payload
//! is copied to the end of the stream.

use crate::big_endian::lemma_be_digits_len;
use crate::copier::capped;
use crate::copier::completion;
use crate::copier::copy;
use crate::error::ProtocolError;
use crate::error::ResolveError;
use crate::error::TransferError;
use crate::names::texts;
use crate::resolver::get_next_path;
use crate::resolver::resolves_to;
use crate::sender::message;
use crate::wire::decode_header;
use crate::wire::decoding;
use crate::wire::lemma_decoding_of_encoding;
use crate::wire::lemma_encoding_of_decoding;
use crate::wire::HeaderView;
use crate::wire::TransferHeader;
use crate::wire::PREFIX_LEN;
use vstd::prelude::*;
use vstd::slice::slice_subrange;
use vstd::utf8::valid_utf8;

verus! {

/// Why a connection left no file behind.
#[derive(Clone, Copy, Debug, PartialEq, Eq)]
pub enum ReceiveError {
    /// The header could not be read.
    Protocol(ProtocolError),
    /// No destination name could be worked out.
    Resolve(ResolveError),
    /// The payload could not be staged.
    Transfer(TransferError),
}

/// What one connection left behind.
#[derive(Debug, PartialEq, Eq)]
pub struct Reception {
    /// The header as it was read.
    pub header: TransferHeader,
    /// The name that the file was written under.
    pub path: Vec<u8>,
    /// The bytes written to the file: the whole payload, in one piece.
    pub written: Vec<u8>,
    /// Bytes counted, never more than the header announced.
    pub copied: u64,
    /// Whether all that the header announced has arrived.
    pub outcome: Result<(), TransferError>,
}

/// What follows the header in `stream`: the payload.
pub open spec fn payload_of(stream: Seq<u8>) -> Seq<u8>
    recommends
        decoding(stream) is Ok,
{
    stream.skip(decoding(stream)->Ok_0.wire_len() as int)
}

/// Handles one connection whose bytes are `stream`, where the names in
/// `existing` are taken.
///
/// A stream without a whole header gives the header's error. After that the
/// file gets the name in the header, or that name with the first number
/// that is free; everything behind the header is written to it, also where
/// that is less or more than announced; and the outcome says whether it was
/// less.
pub fn receive(stream: &[u8], existing: &Vec<Vec<u8>>) -> (received: Result<
    Reception,
    ReceiveError,
>)
    requires
        existing.len() < u64::MAX - 1,
    ensures
        decoding(stream@) is Ok ==> received is Ok,
        decoding(stream@) matches Err(e) ==> received == Err::<Reception, ReceiveError>(
            ReceiveError::Protocol(e),
        ),
        received matches Ok(reception) ==> {
            &&& decoding(stream@) == Ok::<HeaderView, ProtocolError>(reception.header@)
            &&& resolves_to(reception.header@.filename, texts(existing@), reception.path@)
            &&& !texts(existing@).contains(reception.path@)
            &&& reception.written@ == payload_of(stream@)
            &&& reception.copied == capped(
                reception.written@.len(),
                reception.header@.total_size,
            )
            &&& reception.outcome is Ok <==> reception.written@.len()
                >= reception.header@.total_size
            &&& reception.outcome matches Err(e) ==> e == TransferError::Incomplete
        },
{
    let header = match decode_header(stream) {
        Ok(header) => header,
        Err(e) => {
            return Err(ReceiveError::Protocol(e));
        },
    };
    let path = match get_next_path(header.filename(), existing) {
        Ok(path) => path,
        Err(e) => {
            return Err(ReceiveError::Resolve(e));
        },
    };
    let end: usize = stream.len();
    proof {
        lemma_encoding_of_decoding(stream@);
    }
    let start: usize = PREFIX_LEN + header.filename().len();
    let payload = slice_subrange(stream, start, end);
    let report = match copy(payload, header.total_size()) {
        Ok(report) => report,
        Err(e) => {
            return Err(ReceiveError::Transfer(e));
        },
    };
    let outcome = completion(report.copied, report.declared_total);
    Ok(Reception { header, path, written: report.flushed, copied: report.copied, outcome })
}

/// The files of the receiving directory after one more file was written:
/// the file under `path` is opened for appending, and made where there is
/// none, and `written` goes behind what it held.
pub open spec fn appended(
    files: Map<Seq<u8>, Seq<u8>>,
    path: Seq<u8>,
    written: Seq<u8>,
) -> Map<Seq<u8>, Seq<u8>> {
    let before = if files.dom().contains(path) {
        files[path]
    } else {
        Seq::empty()
    };
    files.insert(path, before + written)
}

/// After a whole run the destination holds the contents of the file that
/// was sent, and nothing else: the name it was given is taken by no file, so
/// nothing stands before the payload, and no other file has changed.
pub proof fn lemma_destination_holds_what_was_sent(
    files: Map<Seq<u8>, Seq<u8>>,
    taken: Seq<Seq<u8>>,
    filename: Seq<u8>,
    contents: Seq<u8>,
    path: Seq<u8>,
)
    requires
        valid_utf8(filename),
        filename.len() <= u64::MAX,
        contents.len() <= u64::MAX,
        forall|name: Seq<u8>| files.dom().contains(name) <==> taken.contains(name),
        resolves_to(filename, taken, path),
    ensures
        !taken.contains(path),
        appended(files, path, payload_of(message(filename, contents)))[path] == contents,
        forall|other: Seq<u8>| #[trigger]
            files.dom().contains(other) ==> appended(
                files,
                path,
                payload_of(message(filename, contents)),
            )[other] == files[other],
{
    lemma_received_is_sent(filename, contents);
    assert(Seq::<u8>::empty() + contents =~= contents);
}

/// What was sent arrives: the stream that goes out for a file decodes to
/// the header of that file, its payload is the contents of the file, byte
/// for byte, and the count reaches the announced size.
pub proof fn lemma_received_is_sent(filename: Seq<u8>, contents: Seq<u8>)
    requires
        valid_utf8(filename),
        filename.len() <= u64::MAX,
        contents.len() <= u64::MAX,
    ensures
        decoding(message(filename, contents)) == Ok::<HeaderView, ProtocolError>(
            HeaderView {
                total_size: contents.len() as u64,
                filename_length: filename.len() as u64,
                filename,
            },
        ),
        payload_of(message(filename, contents)) == contents,
        capped(contents.len(), contents.len() as u64) == contents.len(),
{
    lemma_decoding_of_encoding(contents.len() as u64, filename, contents);
    let stream = message(filename, contents);
    lemma_be_digits_len(contents.len(), 8);
    lemma_be_digits_len(filename.len(), 8);
    assert(stream.skip(16 + filename.len() as int) =~= contents);
}

} // verus!
