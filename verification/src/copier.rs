//! The streaming copy: a source is read in fills of bounded size into a
//! staging buffer until a fill comes back empty; then everything staged is
//! handed out in one piece. The count of bytes copied never goes past the
//! size that the header announced, whatever arrives.

use crate::error::TransferError;
use tungstenite::buffer::ReadBuffer;
use vstd::prelude::*;
use vstd::slice::slice_subrange;

verus! {

/// `tungstenite::buffer::ReadBuffer`, the staging buffer. It fills itself
/// from a stream a chunk at a time and keeps what it has read until it is
/// asked for it.
#[verifier::external_type_specification]
#[verifier::external_body]
pub struct ExReadBuffer<const CHUNK_SIZE: usize>(tungstenite::buffer::ReadBuffer<CHUNK_SIZE>);

/// Most bytes that one fill takes.
pub const CHUNK_CAPACITY: usize = 1024;

/// The bytes that a staging buffer holds and has not handed out: what
/// `ReadBuffer::into_vec` would give.
pub uninterp spec fn staged(buffer: ReadBuffer<1024>) -> Seq<u8>;

/// The count after a fill of `read` bytes: the sum, held at the announced
/// total.
pub open spec fn clamped(copied: u64, read: nat, declared_total: u64) -> u64 {
    if copied + read <= declared_total {
        (copied + read) as u64
    } else {
        declared_total
    }
}

/// How many bytes one fill takes from a source of `available` bytes: all of
/// them, or a chunk where there are more.
pub open spec fn fill_size(available: nat) -> nat {
    if available < 1024 {
        available
    } else {
        1024
    }
}

/// The bytes that one fill takes from `source`: its front, a chunk long at
/// most.
pub open spec fn taken_by_fill(source: Seq<u8>) -> Seq<u8> {
    source.take(fill_size(source.len()) as int)
}

/// The smaller of a byte count and the announced total.
pub open spec fn capped(received: nat, declared_total: u64) -> u64 {
    if received <= declared_total {
        received as u64
    } else {
        declared_total
    }
}

/// Counting fill by fill comes to the same as capping the sum: a count that
/// is the capped number of bytes received stays so after every fill, and no
/// count goes past the announced total.
pub proof fn lemma_clamped_is_capped(received: nat, read: nat, declared_total: u64)
    ensures
        clamped(capped(received, declared_total), read, declared_total) == capped(
            received + read,
            declared_total,
        ),
        capped(received, declared_total) <= declared_total,
        capped(received, declared_total) <= received,
{
}

/// Calls `ReadBuffer::new`. Taken on trust: the new buffer holds nothing.
#[verifier::external_body]
fn new_buffer() -> (buffer: ReadBuffer<1024>)
    ensures
        staged(buffer) == Seq::<u8>::empty(),
{
    ReadBuffer::new()
}

/// Calls `ReadBuffer::read_from` once, with a byte slice as the stream, and
/// hands back the count it reports, or `None` where it reports a failed
/// read. Taken on trust: reading from a byte slice does not fail; it takes
/// the front of the slice, as much as the buffer's chunk of 1024 bytes
/// holds or all where the slice is shorter; and what it took is staged
/// behind what was staged before.
#[verifier::external_body]
fn fill_from(buffer: &mut ReadBuffer<1024>, source: &[u8]) -> (read: Option<usize>)
    ensures
        read == Some(fill_size(source@.len()) as usize),
        staged(*final(buffer)) == staged(*old(buffer)) + taken_by_fill(source@),
{
    let mut stream = source;
    buffer.read_from(&mut stream).ok()
}

/// Calls `ReadBuffer::into_vec`. Taken on trust: it hands out exactly what
/// the buffer held.
#[verifier::external_body]
fn drain(buffer: ReadBuffer<1024>) -> (bytes: Vec<u8>)
    ensures
        bytes@ == staged(buffer),
{
    buffer.into_vec()
}

/// Adds a fill of `read` bytes to the count `copied`, and holds the result
/// at `declared_total`.
pub fn account(copied: u64, read: usize, declared_total: u64) -> (now: u64)
    ensures
        now == clamped(copied, read as nat, declared_total),
        now <= declared_total,
{
    if copied >= declared_total {
        declared_total
    } else if read as u64 >= declared_total - copied {
        declared_total
    } else {
        copied + read as u64
    }
}

/// Whether a copy that ended with `copied` bytes counted brought all that
/// was announced.
pub fn completion(copied: u64, declared_total: u64) -> (outcome: Result<(), TransferError>)
    ensures
        outcome is Ok <==> copied >= declared_total,
        outcome matches Err(e) ==> e == TransferError::Incomplete,
{
    if copied < declared_total {
        Err(TransferError::Incomplete)
    } else {
        Ok(())
    }
}

/// What a copy leaves behind: the bytes for the sink, and the count.
#[derive(Debug, PartialEq, Eq)]
pub struct CopyReport {
    /// Everything that was staged, in the order of arrival.
    pub flushed: Vec<u8>,
    /// Bytes counted, never more than were announced.
    pub copied: u64,
    /// Bytes announced.
    pub declared_total: u64,
}

/// One copy in progress.
pub struct StreamCopier {
    buffer: ReadBuffer<1024>,
    copied: u64,
    declared_total: u64,
}

impl StreamCopier {
    /// The bytes staged so far.
    pub closed spec fn staged_bytes(&self) -> Seq<u8> {
        staged(self.buffer)
    }

    /// The count so far.
    pub closed spec fn count(&self) -> u64 {
        self.copied
    }

    /// The size that the header announced.
    pub closed spec fn total(&self) -> u64 {
        self.declared_total
    }

    /// Starts a copy of `declared_total` bytes with nothing staged.
    pub fn new(declared_total: u64) -> (copier: StreamCopier)
        ensures
            copier.staged_bytes() == Seq::<u8>::empty(),
            copier.count() == 0,
            copier.total() == declared_total,
    {
        StreamCopier { buffer: new_buffer(), copied: 0, declared_total }
    }

    /// The count so far.
    pub fn copied(&self) -> (copied: u64)
        ensures
            copied == self.count(),
    {
        self.copied
    }

    /// The size that the header announced.
    pub fn declared_total(&self) -> (declared_total: u64)
        ensures
            declared_total == self.total(),
    {
        self.declared_total
    }

    /// One fill: stages bytes from the front of `source` and counts them.
    /// Gives the number of bytes taken: all of `source`, or a chunk where
    /// `source` is longer. It is zero exactly when `source` is empty, which
    /// is how the end of a stream shows.
    pub fn fill(&mut self, source: &[u8]) -> (read: Result<usize, TransferError>)
        ensures
            read matches Ok(n) && n == fill_size(source@.len()),
            final(self).total() == old(self).total(),
            final(self).staged_bytes() == old(self).staged_bytes() + taken_by_fill(source@),
            final(self).count() == clamped(old(self).count(), fill_size(source@.len()), old(self).total()),
            final(self).count() <= final(self).total(),
    {
        match fill_from(&mut self.buffer, source) {
            Some(n) => {
                self.copied = account(self.copied, n, self.declared_total);
                Ok(n)
            },
            None => Err(TransferError::SourceFailed),
        }
    }

    /// Ends the copy: everything staged comes out in one piece, with the
    /// count.
    pub fn finish(self) -> (report: CopyReport)
        ensures
            report.flushed@ == self.staged_bytes(),
            report.copied == self.count(),
            report.declared_total == self.total(),
    {
        let copied = self.copied;
        let declared_total = self.declared_total;
        CopyReport { flushed: drain(self.buffer), copied, declared_total }
    }
}

/// Copies `source` to the end: fill after fill until one comes back empty,
/// then one flush of all that was staged. After every fill `progress` is
/// told the count and the announced total.
///
/// Every byte of `source` is flushed, in order, also where there are more
/// of them than were announced; the count is the length of `source`, held at
/// `declared_total`. None of this depends on what `progress` does with what
/// it is told.
pub fn copy_reporting<F: Fn(u64, u64)>(source: &[u8], declared_total: u64, progress: F) -> (copied:
    Result<CopyReport, TransferError>)
    requires
        forall|count: u64| count <= declared_total ==> call_requires(
            progress,
            (count, declared_total),
        ),
    ensures
        copied is Ok,
        copied matches Ok(report) ==> {
            &&& report.flushed@ == source@
            &&& report.copied == capped(source@.len(), declared_total)
            &&& report.declared_total == declared_total
        },
{
    let mut copier = StreamCopier::new(declared_total);
    let mut offset: usize = 0;
    assert(source@.take(0) =~= Seq::<u8>::empty());
    loop
        invariant_except_break
            offset <= source.len(),
            copier.staged_bytes() == source@.take(offset as int),
            copier.count() == capped(offset as nat, declared_total),
            copier.total() == declared_total,
            forall|count: u64| count <= declared_total ==> call_requires(
                progress,
                (count, declared_total),
            ),
        ensures
            copier.staged_bytes() == source@,
            copier.count() == capped(source@.len(), declared_total),
            copier.total() == declared_total,
        decreases source.len() - offset,
    {
        let rest = slice_subrange(source, offset, source.len());
        match copier.fill(rest) {
            Err(e) => {
                return Err(e);
            },
            Ok(n) => {
                assert(source@.take(offset as int) + rest@.take(n as int) =~= source@.take(
                    offset + n,
                ));
                progress(copier.copied(), declared_total);
                if n == 0 {
                    assert(source@.take(offset as int) =~= source@);
                    break ;
                }
                offset = offset + n;
            },
        }
    }
    Ok(copier.finish())
}

/// Copies `source` to the end and tells nobody of the progress.
pub fn copy(source: &[u8], declared_total: u64) -> (copied: Result<CopyReport, TransferError>)
    ensures
        copied is Ok,
        copied matches Ok(report) ==> {
            &&& report.flushed@ == source@
            &&& report.copied == capped(source@.len(), declared_total)
            &&& report.declared_total == declared_total
        },
{
    copy_reporting(source, declared_total, |_count: u64, _total: u64| {})
}

} // verus!
