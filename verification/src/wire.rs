//! The header that goes before a file on the wire: the size of the file as
//! eight big-endian bytes, the length of its name as eight big-endian bytes,
//! then the name itself. Nothing is padded and nothing is checksummed.

use crate::big_endian::be_value;
use crate::big_endian::get_u64_be;
use crate::big_endian::lemma_bytes_round_trip;
use crate::big_endian::lemma_u64_round_trip;
use crate::big_endian::put_u64_be;
use crate::big_endian::u64_be;
use crate::error::ProtocolError;
use crate::names::append_bytes;
use vstd::prelude::*;
use vstd::slice::slice_subrange;
use vstd::string::StringSliceAdditionalSpecFns;
use vstd::slice::slice_to_vec;
use vstd::utf8::encode_utf8_valid_utf8;
use vstd::utf8::valid_utf8;

verus! {

/// Bytes that the two length fields take up, before the name.
pub const PREFIX_LEN: usize = 16;

/// What a header says, as plain values.
pub ghost struct HeaderView {
    pub total_size: u64,
    pub filename_length: u64,
    pub filename: Seq<u8>,
}

impl HeaderView {
    /// The length field is the length of the name, and the name is UTF-8.
    pub open spec fn wf(self) -> bool {
        &&& self.filename_length == self.filename.len()
        &&& valid_utf8(self.filename)
    }

    /// Bytes that the header takes up on the wire.
    pub open spec fn wire_len(self) -> nat {
        (16 + self.filename_length) as nat
    }
}

/// The bytes of a header for a file of `total_size` bytes called `filename`.
pub open spec fn encoding(total_size: u64, filename: Seq<u8>) -> Seq<u8> {
    u64_be(total_size) + u64_be(filename.len() as u64) + filename
}

/// What the front of `bytes` says as a header, or why it is none.
pub open spec fn decoding(bytes: Seq<u8>) -> Result<HeaderView, ProtocolError> {
    if bytes.len() < 16 {
        Err(ProtocolError::Truncated)
    } else {
        let total_size = be_value(bytes.subrange(0, 8));
        let filename_length = be_value(bytes.subrange(8, 16));
        if bytes.len() - 16 < filename_length {
            Err(ProtocolError::Truncated)
        } else {
            let filename = bytes.subrange(16, 16 + filename_length as int);
            if valid_utf8(filename) {
                Ok(
                    HeaderView {
                        total_size: total_size as u64,
                        filename_length: filename_length as u64,
                        filename,
                    },
                )
            } else {
                Err(ProtocolError::InvalidEncoding)
            }
        }
    }
}

/// Decoding gives back what was encoded, whatever follows the header on the
/// wire.
pub proof fn lemma_decoding_of_encoding(total_size: u64, filename: Seq<u8>, rest: Seq<u8>)
    requires
        filename.len() <= u64::MAX,
        valid_utf8(filename),
    ensures
        decoding(encoding(total_size, filename) + rest) == Ok::<HeaderView, ProtocolError>(
            HeaderView { total_size, filename_length: filename.len() as u64, filename },
        ),
{
    let length = filename.len() as u64;
    let bytes = encoding(total_size, filename) + rest;
    lemma_u64_round_trip(total_size);
    lemma_u64_round_trip(length);
    assert(bytes.subrange(0, 8) =~= u64_be(total_size));
    assert(bytes.subrange(8, 16) =~= u64_be(length));
    assert(bytes.subrange(16, 16 + length) =~= filename);
}

/// What decodes as a header is well formed, and encoding it gives the bytes
/// that it was decoded from.
pub proof fn lemma_encoding_of_decoding(bytes: Seq<u8>)
    requires
        decoding(bytes) is Ok,
    ensures
        decoding(bytes)->Ok_0.wf(),
        decoding(bytes)->Ok_0.wire_len() <= bytes.len(),
        encoding(decoding(bytes)->Ok_0.total_size, decoding(bytes)->Ok_0.filename) == bytes.take(
            decoding(bytes)->Ok_0.wire_len() as int,
        ),
{
    let header = decoding(bytes)->Ok_0;
    lemma_bytes_round_trip(bytes.subrange(0, 8));
    lemma_bytes_round_trip(bytes.subrange(8, 16));
    assert(encoding(header.total_size, header.filename) =~= bytes.take(header.wire_len() as int));
}

/// Calls `std::str::from_utf8` and tells whether it accepted the bytes.
/// Taken on trust: it accepts a byte string exactly when the string is
/// well-formed UTF-8.
#[verifier::external_body]
fn is_utf8(bytes: &[u8]) -> (valid: bool)
    ensures
        valid == valid_utf8(bytes@),
{
    std::str::from_utf8(bytes).is_ok()
}

/// Writes the header for a file of `total_size` bytes called `filename`.
pub fn encode_header(total_size: u64, filename: &[u8]) -> (bytes: Vec<u8>)
    ensures
        bytes@ == encoding(total_size, filename@),
{
    let mut bytes: Vec<u8> = Vec::new();
    put_u64_be(&mut bytes, total_size);
    put_u64_be(&mut bytes, filename.len() as u64);
    append_bytes(&mut bytes, filename);
    assert(bytes@ =~= encoding(total_size, filename@));
    bytes
}

/// Reads the two length fields off the front of `bytes`: the size of the
/// file, then the length of its name.
pub fn decode_lengths(bytes: &[u8]) -> (lengths: Result<(u64, u64), ProtocolError>)
    ensures
        match lengths {
            Ok((total_size, filename_length)) => {
                &&& bytes@.len() >= 16
                &&& total_size == be_value(bytes@.subrange(0, 8))
                &&& filename_length == be_value(bytes@.subrange(8, 16))
            },
            Err(e) => bytes@.len() < 16 && e == ProtocolError::Truncated,
        },
{
    if bytes.len() < PREFIX_LEN {
        return Err(ProtocolError::Truncated);
    }
    Ok((get_u64_be(bytes, 0), get_u64_be(bytes, 8)))
}

/// The header of one transfer.
#[derive(Debug, PartialEq, Eq)]
pub struct TransferHeader {
    total_size: u64,
    filename_length: u64,
    filename: Vec<u8>,
}

impl View for TransferHeader {
    type V = HeaderView;

    closed spec fn view(&self) -> HeaderView {
        HeaderView {
            total_size: self.total_size,
            filename_length: self.filename_length,
            filename: self.filename@,
        }
    }
}

impl TransferHeader {
    #[verifier::type_invariant]
    spec fn well_formed(&self) -> bool {
        self@.wf()
    }

    /// The header for a file of `total_size` bytes called `filename`.
    pub fn new(total_size: u64, filename: &str) -> (header: TransferHeader)
        ensures
            header@.wf(),
            header@.total_size == total_size,
            header@.filename == filename.spec_bytes(),
    {
        broadcast use encode_utf8_valid_utf8;

        let name = filename.as_bytes();
        TransferHeader {
            total_size,
            filename_length: name.len() as u64,
            filename: slice_to_vec(name),
        }
    }

    /// Size of the file in bytes, as announced.
    pub fn total_size(&self) -> (total_size: u64)
        ensures
            total_size == self@.total_size,
    {
        self.total_size
    }

    /// Length of the file name in bytes.
    pub fn filename_length(&self) -> (filename_length: u64)
        ensures
            filename_length == self@.filename_length,
            self@.wf(),
    {
        proof {
            use_type_invariant(self);
        }
        self.filename_length
    }

    /// The file name, as UTF-8.
    pub fn filename(&self) -> (filename: &[u8])
        ensures
            filename@ == self@.filename,
            self@.wf(),
    {
        proof {
            use_type_invariant(self);
        }
        self.filename.as_slice()
    }

    /// The bytes of this header on the wire.
    pub fn encode(&self) -> (bytes: Vec<u8>)
        ensures
            bytes@ == encoding(self@.total_size, self@.filename),
            decoding(bytes@) == Ok::<HeaderView, ProtocolError>(self@),
    {
        proof {
            use_type_invariant(self);
            lemma_decoding_of_encoding(self@.total_size, self@.filename, Seq::empty());
            assert(encoding(self@.total_size, self@.filename) + Seq::<u8>::empty() =~= encoding(
                self@.total_size,
                self@.filename,
            ));
        }
        encode_header(self.total_size, self.filename.as_slice())
    }
}

/// Reads a header off the front of `bytes`. What follows the header is not
/// looked at.
///
/// The header is truncated where `bytes` holds fewer than sixteen bytes, or
/// fewer bytes behind those than the name is long; its encoding is invalid
/// where the name is all there and is not UTF-8.
pub fn decode_header(bytes: &[u8]) -> (decoded: Result<TransferHeader, ProtocolError>)
    ensures
        match decoded {
            Ok(header) => decoding(bytes@) == Ok::<HeaderView, ProtocolError>(header@),
            Err(e) => decoding(bytes@) == Err::<HeaderView, ProtocolError>(e),
        },
{
    let (total_size, filename_length) = match decode_lengths(bytes) {
        Ok(lengths) => lengths,
        Err(e) => {
            return Err(e);
        },
    };
    let behind: usize = bytes.len() - PREFIX_LEN;
    if (behind as u64) < filename_length {
        return Err(ProtocolError::Truncated);
    }
    let name_len: usize = filename_length as usize;
    let name = slice_subrange(bytes, PREFIX_LEN, PREFIX_LEN + name_len);
    if !is_utf8(name) {
        return Err(ProtocolError::InvalidEncoding);
    }
    Ok(TransferHeader { total_size, filename_length, filename: slice_to_vec(name) })
}

} // verus!
