use vstd::prelude::*;

use crate::error::BridgeError;
use crate::metrics::I64_MAX_AS_U64;

verus! {

/// The byte cursor of a synchronous reader over a host input stream.
///
/// `pos` is where the next host read starts; `path` names the file in the
/// errors that reads report.
#[derive(Clone, Debug, PartialEq, Eq)]
pub struct ReadCursor {
    pub path: String,
    pub start: u64,
    pub pos: u64,
}

/// What the caller does for a read: nothing (an empty buffer; the read
/// returns 0), or a host read at the given position.
pub open spec fn planned_read(c: ReadCursor, buf_len: usize) -> Result<Option<i64>, BridgeError> {
    if buf_len == 0 {
        Ok(None)
    } else if c.pos > I64_MAX_AS_U64 {
        Err(BridgeError::PositionOutOfRange { path: c.path, pos: c.pos })
    } else {
        Ok(Some(c.pos as i64))
    }
}

/// The cursor and result after a host read into a buffer of `buf_len` bytes
/// came back with `host`: a count, or the host's diagnostic. A count of zero
/// is the end of the stream and leaves the cursor where it is.
pub open spec fn after_host_read(
    c: ReadCursor,
    buf_len: usize,
    host: Result<i32, String>,
) -> (ReadCursor, Result<usize, BridgeError>) {
    match host {
        Err(m) => (c, Err(BridgeError::Read { path: c.path, message: m })),
        Ok(n) => if n < 0 {
            (c, Err(BridgeError::NegativeReadCount { path: c.path, returned: n }))
        } else if n > buf_len {
            (c, Err(BridgeError::ReadOverrun { path: c.path, capacity: buf_len, returned: n }))
        } else if c.pos + n > u64::MAX {
            (c, Err(BridgeError::PositionOutOfRange { path: c.path, pos: c.pos }))
        } else {
            (ReadCursor { pos: (c.pos + n) as u64, ..c }, Ok(n as usize))
        },
    }
}

/// One whole `read`: the host is consulted unless the buffer is empty.
pub open spec fn read_call(
    c: ReadCursor,
    buf_len: usize,
    host: Result<i32, String>,
) -> (ReadCursor, Result<usize, BridgeError>) {
    match planned_read(c, buf_len) {
        Ok(None) => (c, Ok(0)),
        Ok(Some(_)) => after_host_read(c, buf_len, host),
        Err(e) => (c, Err(e)),
    }
}

/// Bytes a read reported to its caller; a failed read reports none.
pub open spec fn returned_count(r: Result<usize, BridgeError>) -> int {
    match r {
        Ok(n) => n as int,
        Err(_) => 0,
    }
}

/// The cursor after a sequence of reads.
pub open spec fn after_reads(
    c: ReadCursor,
    lens: Seq<usize>,
    hosts: Seq<Result<i32, String>>,
) -> ReadCursor
    decreases lens.len(),
{
    if lens.len() == 0 || hosts.len() != lens.len() {
        c
    } else {
        let prev = after_reads(c, lens.drop_last(), hosts.drop_last());
        read_call(prev, lens.last(), hosts.last()).0
    }
}

/// The total that a sequence of reads reported.
pub open spec fn total_returned(
    c: ReadCursor,
    lens: Seq<usize>,
    hosts: Seq<Result<i32, String>>,
) -> int
    decreases lens.len(),
{
    if lens.len() == 0 || hosts.len() != lens.len() {
        0
    } else {
        let prev = after_reads(c, lens.drop_last(), hosts.drop_last());
        total_returned(c, lens.drop_last(), hosts.drop_last()) + returned_count(
            read_call(prev, lens.last(), hosts.last()).1,
        )
    }
}

impl ReadCursor {
    /// A cursor over the file at `path`, positioned at byte `start`.
    pub fn new(path: String, start: u64) -> (r: Self)
        ensures
            r == (ReadCursor { path, start, pos: start }),
    {
        ReadCursor { path, start, pos: start }
    }

    pub fn position(&self) -> (r: u64)
        ensures
            r == self.pos,
    {
        self.pos
    }

    /// Decides whether a read into a buffer of `buf_len` bytes needs the
    /// host, and at which position. Only an empty buffer needs no host call.
    pub fn begin_read(&self, buf_len: usize) -> (r: Result<Option<i64>, BridgeError>)
        ensures
            r == planned_read(*self, buf_len),
    {
        if buf_len == 0 {
            Ok(None)
        } else if self.pos > I64_MAX_AS_U64 {
            Err(BridgeError::PositionOutOfRange { path: self.path.clone(), pos: self.pos })
        } else {
            Ok(Some(self.pos as i64))
        }
    }

    /// Takes in what a host read returned: a count advances the cursor by
    /// that much (zero at the end of the stream), and anything else is an
    /// error tagged with the file's path that leaves the cursor as it was.
    pub fn finish_read(&mut self, buf_len: usize, host: Result<i32, String>) -> (r: Result<
        usize,
        BridgeError,
    >)
        ensures
            (*final(self), r) == after_host_read(*old(self), buf_len, host),
    {
        match host {
            Err(message) => Err(BridgeError::Read { path: self.path.clone(), message }),
            Ok(n) => {
                if n < 0 {
                    Err(BridgeError::NegativeReadCount { path: self.path.clone(), returned: n })
                } else if n as usize > buf_len {
                    Err(
                        BridgeError::ReadOverrun {
                            path: self.path.clone(),
                            capacity: buf_len,
                            returned: n,
                        },
                    )
                } else if self.pos > u64::MAX - n as u64 {
                    Err(BridgeError::PositionOutOfRange { path: self.path.clone(), pos: self.pos })
                } else {
                    self.pos = self.pos + n as u64;
                    Ok(n as usize)
                }
            },
        }
    }
}

/// Reads move the cursor by exactly what they report: after any sequence of
/// reads, the position is the starting position plus the sum of the counts
/// returned. For a fresh cursor that is the offset it was opened at.
pub proof fn lemma_position_is_start_plus_returned(
    c: ReadCursor,
    lens: Seq<usize>,
    hosts: Seq<Result<i32, String>>,
)
    requires
        lens.len() == hosts.len(),
    ensures
        after_reads(c, lens, hosts).pos == c.pos + total_returned(c, lens, hosts),
        after_reads(c, lens, hosts).start == c.start,
        c.pos == c.start ==> after_reads(c, lens, hosts).pos == c.start + total_returned(
            c,
            lens,
            hosts,
        ),
    decreases lens.len(),
{
    if lens.len() > 0 {
        lemma_position_is_start_plus_returned(c, lens.drop_last(), hosts.drop_last());
    }
}

/// A host read of zero bytes into a non-empty buffer is the end of the
/// stream: the read returns zero and the cursor stays where it is, so every
/// later read that the host answers with zero does the same.
pub proof fn lemma_zero_count_keeps_position(c: ReadCursor, buf_len: usize)
    requires
        buf_len > 0,
        c.pos <= I64_MAX_AS_U64,
    ensures
        planned_read(c, buf_len) == Ok::<Option<i64>, BridgeError>(Some(c.pos as i64)),
        read_call(c, buf_len, Ok(0)) == (c, Ok::<usize, BridgeError>(0)),
{
}

/// A read into an empty buffer returns zero without a host call.
pub proof fn lemma_empty_buffer_reads_nothing(c: ReadCursor, host: Result<i32, String>)
    ensures
        planned_read(c, 0) == Ok::<Option<i64>, BridgeError>(None),
        read_call(c, 0, host) == (c, Ok::<usize, BridgeError>(0)),
{
}

} // verus!
