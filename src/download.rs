use vstd::prelude::*;

use crate::error::ServeError;

verus! {

/// The most bytes asked of the file in one read.
pub const CHUNK_SIZE: u64 = 4096;

/// The bookkeeping of one download: how many bytes the file had when it was
/// opened, and how many have been read from it and sent on so far.
pub struct Transfer {
    expected: u64,
    read_total: u64,
    sent_total: u64,
    failed: bool,
}

impl Transfer {
    pub closed spec fn expected(&self) -> u64 {
        self.expected
    }

    pub closed spec fn read_total(&self) -> u64 {
        self.read_total
    }

    pub closed spec fn sent_total(&self) -> u64 {
        self.sent_total
    }

    pub closed spec fn failed(&self) -> bool {
        self.failed
    }

    pub closed spec fn wf(&self) -> bool {
        &&& self.read_total <= self.expected
        &&& self.sent_total == self.read_total
    }

    /// Bytes still owed before the transfer is whole.
    pub open spec fn remaining(&self) -> int {
        self.expected() - self.read_total()
    }

    /// A chunk is accepted when the transfer has not failed, the read stayed
    /// within what is owed, made progress while bytes were owed, and was sent
    /// on in full.
    pub open spec fn accepts(&self, read: u64, sent: u64) -> bool {
        &&& !self.failed()
        &&& read <= self.remaining()
        &&& (read > 0 || self.remaining() == 0)
        &&& sent == read
    }

    /// Starts a transfer of a file that had `expected` bytes when it was opened.
    pub fn new(expected: u64) -> (r: Transfer)
        ensures
            r.wf(),
            r.expected() == expected,
            r.read_total() == 0,
            r.sent_total() == 0,
            !r.failed(),
    {
        Transfer { expected, read_total: 0, sent_total: 0, failed: false }
    }

    /// How many bytes to read next: a bounded, non-zero chunk while bytes are
    /// owed, and none once the transfer is whole or has failed.
    pub fn next_request(&self) -> (r: u64)
        requires
            self.wf(),
        ensures
            self.failed() ==> r == 0,
            !self.failed() ==> r == if self.remaining() < CHUNK_SIZE {
                self.remaining()
            } else {
                CHUNK_SIZE as int
            },
    {
        if self.failed {
            return 0;
        }
        let left = self.expected - self.read_total;
        if left < CHUNK_SIZE {
            left
        } else {
            CHUNK_SIZE
        }
    }

    /// Records one chunk: `read` bytes came from the file and `sent` of them
    /// went to the client. A short send, a read past the length seen at open
    /// time, or an end of file while bytes are still owed fails the transfer
    /// for good.
    pub fn record(&mut self, read: u64, sent: u64) -> (r: Result<(), ServeError>)
        requires
            old(self).wf(),
        ensures
            final(self).wf(),
            final(self).expected() == old(self).expected(),
            r is Ok <==> old(self).accepts(read, sent),
            r is Ok ==> final(self).read_total() == old(self).read_total() + read
                && final(self).sent_total() == old(self).sent_total() + sent && !final(self).failed(),
            r is Err ==> r == Err::<(), ServeError>(ServeError::TransferError) && final(self).failed()
                && final(self).read_total() == old(self).read_total() && final(self).sent_total()
                == old(self).sent_total(),
    {
        let left = self.expected - self.read_total;
        if self.failed || read > left || (read == 0 && left > 0) || sent != read {
            self.failed = true;
            return Err(ServeError::TransferError);
        }
        self.read_total = self.read_total + read;
        self.sent_total = self.sent_total + sent;
        Ok(())
    }

    /// Whether every byte owed has been read and sent.
    pub fn is_done(&self) -> (r: bool)
        requires
            self.wf(),
        ensures
            r == (!self.failed() && self.read_total() == self.expected()),
    {
        !self.failed && self.read_total == self.expected
    }

    /// Ends the transfer: succeeds with the byte count only when exactly the
    /// length seen at open time was read and sent.
    pub fn finish(&self) -> (r: Result<u64, ServeError>)
        requires
            self.wf(),
        ensures
            r is Ok <==> !self.failed() && self.read_total() == self.expected(),
            r is Ok ==> r->Ok_0 == self.expected() && self.sent_total() == self.expected()
                && self.read_total() == self.expected(),
            r is Err ==> r == Err::<u64, ServeError>(ServeError::TransferError),
    {
        if self.is_done() {
            Ok(self.expected)
        } else {
            Err(ServeError::TransferError)
        }
    }
}

/// A transfer that reached the end sent the client exactly the bytes that
/// the file held when it was opened: no more, no fewer.
pub proof fn lemma_finished_transfer_is_whole(t: &Transfer)
    requires
        t.wf(),
        !t.failed(),
        t.read_total() == t.expected(),
    ensures
        t.sent_total() == t.expected(),
        t.remaining() == 0,
{
}

} // verus!
