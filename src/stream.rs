use vstd::prelude::*;

verus! {

/// Read-chunk size used until `set_buffer_size` picks another.
pub const DEFAULT_BUFFER_SIZE: usize = 2048;

/// Where a stream is in its life.
#[derive(Clone, Copy, Debug, PartialEq, Eq, Structural)]
pub enum Phase {
    /// Chunks may still come.
    Streaming,
    /// A read returned no bytes: the sequence ended cleanly.
    Ended,
    /// A read failed: the sequence ended with a transfer error.
    Failed,
}

/// What a progress callback is handed after a chunk: the declared total size,
/// the bytes read so far (this chunk included) and the size of this chunk.
#[derive(Clone, Copy, Debug, PartialEq, Eq, Structural)]
pub struct Progress {
    pub total: u64,
    pub sent: u64,
    pub chunk: u64,
}

/// The result of one pull.
#[derive(Debug)]
pub enum Pull<E> {
    /// The bytes of one completed read, and the progress record to report.
    Chunk(Vec<u8>, Progress),
    /// The sequence ended cleanly.
    End,
    /// The read failed; the sequence ends here.
    Failed(E),
    /// A pull after the sequence failed: refused, nothing is read.
    Rejected,
}

/// Refusal of a stream setting.
#[derive(Clone, Copy, Debug, PartialEq, Eq, Structural)]
pub enum ConfigError {
    /// A read of zero bytes could never make progress.
    ZeroBufferSize,
}

/// The state of a body stream over a source of declared size: how much has
/// been read, how much each read asks for, and whether the sequence is over.
#[derive(Debug)]
pub struct TrackableBodyStream {
    file_size: u64,
    cur_read: u64,
    buffer_size: usize,
    phase: Phase,
}

impl TrackableBodyStream {
    /// The declared size of the source.
    pub closed spec fn total(&self) -> u64 {
        self.file_size
    }

    /// The bytes read so far.
    pub closed spec fn read(&self) -> u64 {
        self.cur_read
    }

    /// How many bytes the next read asks for.
    pub closed spec fn chunk_size(&self) -> usize {
        self.buffer_size
    }

    pub closed spec fn phase(&self) -> Phase {
        self.phase
    }

    pub open spec fn wf(&self) -> bool {
        self.chunk_size() > 0
    }

    /// A fresh stream over a source of `file_size` bytes.
    pub fn new(file_size: u64) -> (r: Self)
        ensures
            r.wf(),
            r.total() == file_size,
            r.read() == 0,
            r.chunk_size() == DEFAULT_BUFFER_SIZE,
            r.phase() == Phase::Streaming,
    {
        TrackableBodyStream {
            file_size,
            cur_read: 0,
            buffer_size: DEFAULT_BUFFER_SIZE,
            phase: Phase::Streaming,
        }
    }

    /// Sets how many bytes each later read asks for; zero is refused and
    /// leaves the stream as it was.
    pub fn set_buffer_size(&mut self, buffer_size: usize) -> (r: Result<(), ConfigError>)
        ensures
            buffer_size == 0 ==> r == Err::<(), ConfigError>(ConfigError::ZeroBufferSize)
                && *final(self) == *old(self),
            buffer_size > 0 ==> r is Ok && final(self).chunk_size() == buffer_size
                && final(self).total() == old(self).total()
                && final(self).read() == old(self).read()
                && final(self).phase() == old(self).phase(),
            old(self).wf() ==> final(self).wf(),
    {
        if buffer_size == 0 {
            Err(ConfigError::ZeroBufferSize)
        } else {
            self.buffer_size = buffer_size;
            Ok(())
        }
    }

    /// The declared size as an HTTP content length; a size beyond `i64::MAX`
    /// gives `i64::MAX`.
    pub fn content_length(&self) -> (r: i64)
        ensures
            self.total() <= i64::MAX ==> r == self.total(),
            self.total() > i64::MAX ==> r == i64::MAX,
    {
        if self.file_size <= i64::MAX as u64 {
            self.file_size as i64
        } else {
            i64::MAX
        }
    }

    /// Bounds on the bytes still to come: at least what the declared size
    /// leaves after the bytes read, at most the declared size (each capped to
    /// `usize::MAX`).
    pub fn size_hint(&self) -> (r: (usize, Option<usize>))
        ensures
            r.0 == saturate_usize(remaining(self.total(), self.read())),
            r.1 == Some(saturate_usize(self.total() as nat)),
    {
        let left: u64 = if self.cur_read <= self.file_size {
            self.file_size - self.cur_read
        } else {
            0
        };
        (to_usize_saturating(left), Some(to_usize_saturating(self.file_size)))
    }

    /// The bytes read so far.
    pub fn bytes_read(&self) -> (r: u64)
        ensures
            r == self.read(),
    {
        self.cur_read
    }

    /// Whether the sequence has ended, and how.
    pub fn current_phase(&self) -> (r: Phase)
        ensures
            r == self.phase(),
    {
        self.phase
    }

    /// What the next pull must do: read up to `Ok(n)` bytes from the source,
    /// or, once the sequence is over, return the signal in `Err` without
    /// reading.
    pub fn read_request<E>(&self) -> (r: Result<usize, Pull<E>>)
        ensures
            self.phase() == Phase::Streaming ==> r == Ok::<usize, Pull<E>>(self.chunk_size()),
            self.phase() == Phase::Ended ==> r matches Err(Pull::End),
            self.phase() == Phase::Failed ==> r matches Err(Pull::Rejected),
    {
        match self.phase {
            Phase::Streaming => Ok(self.buffer_size),
            Phase::Ended => Err(Pull::End),
            Phase::Failed => Err(Pull::Rejected),
        }
    }

    /// Turns the outcome of a completed read into the result of the pull.
    ///
    /// While streaming: a failed read ends the sequence with its error; an
    /// empty read ends it cleanly; `n > 0` bytes add `n` to the bytes read
    /// (capped at `u64::MAX`) and come back as a chunk with the progress
    /// record to report. Once the sequence is over the outcome is ignored and
    /// the same terminal signal comes again.
    pub fn complete_read<E>(&mut self, outcome: Result<Vec<u8>, E>) -> (r: Pull<E>)
        ensures
            final(self).total() == old(self).total(),
            final(self).chunk_size() == old(self).chunk_size(),
            old(self).wf() ==> final(self).wf(),
            old(self).phase() == Phase::Ended ==> r is End && *final(self) == *old(self),
            old(self).phase() == Phase::Failed ==> r is Rejected && *final(self) == *old(self),
            old(self).phase() == Phase::Streaming ==> match outcome {
                Err(e) => r == Pull::<E>::Failed(e) && final(self).phase() == Phase::Failed
                    && final(self).read() == old(self).read(),
                Ok(v) => if v.len() == 0 {
                    r is End && final(self).phase() == Phase::Ended
                        && final(self).read() == old(self).read()
                } else {
                    final(self).phase() == Phase::Streaming
                        && final(self).read() == add_capped(old(self).read(), v.len() as nat)
                        && r == Pull::<E>::Chunk(v, Progress {
                            total: old(self).total(),
                            sent: final(self).read(),
                            chunk: v.len() as u64,
                        })
                },
            },
    {
        match self.phase {
            Phase::Ended => Pull::End,
            Phase::Failed => Pull::Rejected,
            Phase::Streaming => match outcome {
                Err(e) => {
                    self.phase = Phase::Failed;
                    Pull::Failed(e)
                },
                Ok(v) => {
                    if v.len() == 0 {
                        self.phase = Phase::Ended;
                        Pull::End
                    } else {
                        let n = v.len() as u64;
                        self.cur_read = self.cur_read.saturating_add(n);
                        let progress = Progress { total: self.file_size, sent: self.cur_read, chunk: n };
                        Pull::Chunk(v, progress)
                    }
                },
            },
        }
    }
}

/// What a declared size leaves after `read` bytes, zero once it is passed.
pub open spec fn remaining(total: u64, read: u64) -> nat {
    if read <= total {
        (total - read) as nat
    } else {
        0
    }
}

pub open spec fn saturate_usize(n: nat) -> usize {
    if n <= usize::MAX {
        n as usize
    } else {
        usize::MAX
    }
}

/// `read + n`, capped at `u64::MAX`.
pub open spec fn add_capped(read: u64, n: nat) -> u64 {
    if read + n <= u64::MAX {
        (read + n) as u64
    } else {
        u64::MAX
    }
}

fn to_usize_saturating(n: u64) -> (r: usize)
    ensures
        r == saturate_usize(n as nat),
{
    if n as u128 <= usize::MAX as u128 {
        n as usize
    } else {
        usize::MAX
    }
}

} // verus!
