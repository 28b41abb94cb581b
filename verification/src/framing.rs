//! Framing of the funding push stream.
//!
//! The transport delivers arbitrary byte chunks; records are
//! newline-terminated.  The buffer reassembles them so that a record
//! is emitted as soon as its terminator has arrived, wherever the
//! chunk boundaries fall: a terminator in the middle of a chunk ends a
//! record just as one at its end does.  The contract pins the framing
//! down completely: the emitted records, each with its terminator put
//! back, followed by what remains buffered, are exactly the bytes fed
//! in, and neither a record nor the remainder contains a terminator.

use vstd::prelude::*;

verus! {

/// The byte that ends a record.
pub const RECORD_TERMINATOR: u8 = 10;

/// No terminator anywhere.
pub open spec fn terminator_free(s: Seq<u8>) -> bool {
    forall|i: int| 0 <= i < s.len() ==> s[i] != RECORD_TERMINATOR
}

/// The records joined back together, each with its terminator.
pub open spec fn joined(records: Seq<Seq<u8>>) -> Seq<u8>
    decreases records.len(),
{
    if records.len() == 0 {
        Seq::empty()
    } else {
        joined(records.drop_last()) + records.last() + seq![RECORD_TERMINATOR]
    }
}

/// The reassembly buffer: the bytes of the record still in flight.
pub struct RecordBuffer {
    pub buf: Vec<u8>,
}

impl RecordBuffer {
    /// The buffer never holds a terminator: a terminator always
    /// flushes the record it ends.
    pub open spec fn wf(self) -> bool {
        terminator_free(self.buf@)
    }

    /// An empty buffer, ready for the first chunk.
    pub fn new() -> (r: RecordBuffer)
        ensures
            r.wf(),
            r.buf@.len() == 0,
    {
        RecordBuffer { buf: Vec::new() }
    }

    /// Feeds one delivered chunk and returns every record it
    /// completes, in order and without their terminators.
    pub fn push_chunk(&mut self, chunk: &[u8]) -> (records: Vec<Vec<u8>>)
        requires
            old(self).wf(),
        ensures
            final(self).wf(),
            forall|k: int|
                0 <= k < records@.len() ==> terminator_free(#[trigger] records@[k]@),
            joined(records@.map_values(|r: Vec<u8>| r@)) + final(self).buf@ == old(self).buf@
                + chunk@,
    {
        let ghost buf0 = old(self).buf@;
        let mut records: Vec<Vec<u8>> = Vec::new();
        let n = chunk.len();
        let mut i: usize = 0;
        while i < n
            invariant
                i <= n,
                n == chunk@.len(),
                buf0 == old(self).buf@,
                self.wf(),
                forall|k: int|
                    0 <= k < records@.len() ==> terminator_free(#[trigger] records@[k]@),
                joined(records@.map_values(|r: Vec<u8>| r@)) + self.buf@ == buf0 + chunk@.take(
                    i as int,
                ),
            decreases n - i,
        {
            let b = chunk[i];
            let ghost rs_before = records@.map_values(|r: Vec<u8>| r@);
            let ghost buf_before = self.buf@;
            if b == RECORD_TERMINATOR {
                let mut done: Vec<u8> = Vec::new();
                core::mem::swap(&mut done, &mut self.buf);
                records.push(done);
                proof {
                    let rs_after = records@.map_values(|r: Vec<u8>| r@);
                    assert(rs_after =~= rs_before.push(buf_before));
                    assert(rs_after.drop_last() =~= rs_before);
                    assert(joined(rs_after) == joined(rs_before) + buf_before + seq![
                        RECORD_TERMINATOR,
                    ]);
                    assert(chunk@.take(i + 1) =~= chunk@.take(i as int).push(chunk@[i as int]));
                    assert(joined(rs_after) + self.buf@ =~= buf0 + chunk@.take(i + 1));
                }
            } else {
                self.buf.push(b);
                proof {
                    assert(records@.map_values(|r: Vec<u8>| r@) == rs_before);
                    assert(chunk@.take(i + 1) =~= chunk@.take(i as int).push(chunk@[i as int]));
                    assert(self.buf@ == buf_before.push(b));
                    assert(joined(rs_before) + buf_before.push(b) =~= (joined(rs_before)
                        + buf_before).push(b));
                    assert(buf0 + chunk@.take(i as int).push(b) =~= (buf0 + chunk@.take(
                        i as int,
                    )).push(b));
                    assert(joined(rs_before) + self.buf@ =~= buf0 + chunk@.take(i + 1));
                }
            }
            i += 1;
        }
        proof {
            assert(chunk@.take(n as int) =~= chunk@);
        }
        records
    }
}

} // verus!
