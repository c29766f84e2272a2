use vstd::prelude::*;
use crate::chunks::{chunk_at, chunk_end, chunks_from, lemma_offsets_from};
use crate::stream::{add_capped, ConfigError, Phase, Progress, Pull, TrackableBodyStream, DEFAULT_BUFFER_SIZE};

verus! {

/// A body stream over bytes held in memory: each pull reads the next chunk of
/// the slice, so reads never fail.
#[derive(Debug)]
pub struct SliceBodyStream<'a> {
    data: &'a [u8],
    stream: TrackableBodyStream,
}

impl<'a> SliceBodyStream<'a> {
    /// The bytes of the source.
    pub closed spec fn source(&self) -> Seq<u8> {
        self.data@
    }

    /// The pull state over the source.
    pub closed spec fn state(&self) -> TrackableBodyStream {
        self.stream
    }

    /// The bytes read so far are a prefix of the source, and a source in
    /// memory never fails.
    pub open spec fn wf(&self) -> bool {
        &&& self.state().wf()
        &&& self.state().total() == self.source().len()
        &&& self.state().read() <= self.source().len()
        &&& self.state().phase() != Phase::Failed
        &&& self.state().phase() == Phase::Ended ==> self.state().read() == self.source().len()
    }

    /// A stream over `data`, whose declared size is its length.
    pub fn new(data: &'a [u8]) -> (r: Self)
        ensures
            r.wf(),
            r.source() == data@,
            r.state().read() == 0,
            r.state().chunk_size() == DEFAULT_BUFFER_SIZE,
            r.state().phase() == Phase::Streaming,
    {
        SliceBodyStream { data, stream: TrackableBodyStream::new(data.len() as u64) }
    }

    /// The pull state, for its sizes and counters.
    pub fn stream(&self) -> (r: &TrackableBodyStream)
        ensures
            *r == self.state(),
    {
        &self.stream
    }

    /// Sets how many bytes each later pull reads; zero is refused and leaves
    /// the stream as it was.
    pub fn set_buffer_size(&mut self, buffer_size: usize) -> (r: Result<(), ConfigError>)
        requires
            old(self).wf(),
        ensures
            final(self).wf(),
            final(self).source() == old(self).source(),
            buffer_size == 0 ==> r == Err::<(), ConfigError>(ConfigError::ZeroBufferSize)
                && final(self).state() == old(self).state(),
            buffer_size > 0 ==> r is Ok && final(self).state().chunk_size() == buffer_size
                && final(self).state().read() == old(self).state().read()
                && final(self).state().phase() == old(self).state().phase(),
    {
        self.stream.set_buffer_size(buffer_size)
    }

    /// Reads the next chunk: the up to `chunk_size` bytes that follow those
    /// already read, with the progress record to report. Once every byte is
    /// read the pull ends the sequence, and every later pull ends it again
    /// without reading.
    pub fn pull(&mut self) -> (r: Pull<()>)
        requires
            old(self).wf(),
        ensures
            final(self).wf(),
            final(self).source() == old(self).source(),
            final(self).state().chunk_size() == old(self).state().chunk_size(),
            ({
                let data = old(self).source();
                let c = old(self).state().chunk_size() as nat;
                let read = old(self).state().read() as nat;
                let end = chunk_end(data.len(), read, c);
                if old(self).state().phase() == Phase::Ended {
                    r is End && *final(self) == *old(self)
                } else if read == data.len() {
                    r is End && final(self).state().phase() == Phase::Ended
                        && final(self).state().read() == read
                } else {
                    &&& r matches Pull::Chunk(v, p) && v@ == chunk_at(data, read, c)
                        && p == (Progress { total: data.len() as u64, sent: end as u64, chunk: (end - read) as u64 })
                    &&& final(self).state().phase() == Phase::Streaming
                    &&& final(self).state().read() == end
                }
            }),
    {
        match self.stream.read_request::<()>() {
            Err(signal) => signal,
            Ok(n) => {
                let len = self.data.len();
                let read = self.stream.bytes_read();
                assert(read <= len);
                let pos = read as usize;
                let chunk = read_at(self.data, pos, n);
                proof {
                    let end = chunk_end(self.data@.len(), pos as nat, n as nat);
                    assert(add_capped(self.stream.read(), chunk@.len()) == end);
                }
                self.stream.complete_read(Ok(chunk))
            },
        }
    }

    /// Pulls until the sequence ends, and returns the chunks in the order they
    /// came with the progress record reported for each: one record per chunk,
    /// the last one reporting the whole source as sent.
    pub fn drain(&mut self) -> (r: (Vec<Vec<u8>>, Vec<Progress>))
        requires
            old(self).wf(),
        ensures
            final(self).wf(),
            final(self).source() == old(self).source(),
            final(self).state().chunk_size() == old(self).state().chunk_size(),
            final(self).state().phase() == Phase::Ended,
            final(self).state().read() == old(self).source().len(),
            ({
                let data = old(self).source();
                let c = old(self).state().chunk_size() as nat;
                let r0 = old(self).state().read() as nat;
                let s = chunks_from(data, r0, c);
                &&& r.0.len() == s.len()
                &&& r.1.len() == s.len()
                &&& forall|i: int| 0 <= i < s.len() ==> (#[trigger] r.0[i])@ == s[i]
                &&& forall|i: int| 0 <= i < s.len() ==> #[trigger] r.1[i] == (Progress {
                        total: data.len() as u64,
                        sent: chunk_end(data.len(), (r0 + i * c) as nat, c) as u64,
                        chunk: s[i].len() as u64,
                    })
                &&& s.len() > 0 ==> r.1[s.len() - 1].sent == data.len()
            }),
    {
        let ghost data = self.source();
        let ghost c = self.state().chunk_size() as nat;
        let ghost r0 = self.state().read() as nat;
        let ghost s = chunks_from(data, r0, c);
        proof {
            lemma_offsets_from(data, r0, c);
            if self.state().phase() == Phase::Ended {
                assert(s.len() == 0);
            }
        }
        let mut out: Vec<Vec<u8>> = Vec::new();
        let mut records: Vec<Progress> = Vec::new();
        while self.stream.current_phase() == Phase::Streaming
            invariant
                self.wf(),
                self.source() == data,
                self.state().chunk_size() == c,
                c > 0,
                r0 <= data.len(),
                s == chunks_from(data, r0, c),
                out.len() == records.len(),
                out.len() <= s.len(),
                self.state().phase() == Phase::Ended ==> out.len() == s.len(),
                self.state().phase() == Phase::Streaming ==> chunks_from(data, self.state().read() as nat, c)
                    == s.skip(out.len() as int),
                self.state().phase() == Phase::Streaming && self.state().read() < data.len()
                    ==> self.state().read() == r0 + out.len() * c,
                forall|i: int| 0 <= i < out.len() ==> (#[trigger] out[i])@ == s[i],
                forall|i: int| 0 <= i < out.len() ==> #[trigger] records[i] == (Progress {
                        total: data.len() as u64,
                        sent: chunk_end(data.len(), (r0 + i * c) as nat, c) as u64,
                        chunk: s[i].len() as u64,
                    }),
            decreases data.len() - self.state().read() + if self.state().phase() == Phase::Streaming { 1int } else { 0 },
        {
            let ghost read = self.state().read() as nat;
            let ghost k = out.len() as int;
            let pulled = self.pull();
            match pulled {
                Pull::Chunk(v, p) => {
                    proof {
                        let rest = chunks_from(data, read, c);
                        assert(s.skip(k)[0] == s[k]);
                        let next = chunk_end(data.len(), read, c);
                        assert(s.skip(k + 1) =~= rest.skip(1));
                        assert(rest.skip(1) =~= chunks_from(data, read + c, c));
                        if read + c <= data.len() {
                            assert(r0 + (k + 1) * c == r0 + k * c + c) by (nonlinear_arith);
                        } else {
                            assert(chunks_from(data, read + c, c) =~= Seq::<Seq<u8>>::empty());
                            assert(chunks_from(data, next, c) =~= Seq::<Seq<u8>>::empty());
                        }
                    }
                    out.push(v);
                    records.push(p);
                },
                _ => {
                    proof {
                        assert(chunks_from(data, read, c) =~= Seq::<Seq<u8>>::empty());
                        assert(s.skip(k).len() == 0);
                    }
                },
            }
        }
        proof {
            if s.len() > 0 {
                assert(records[s.len() - 1].sent == data.len());
            }
        }
        (out, records)
    }
}

/// Copies the up to `max` bytes of `data` that start at `pos`.
fn read_at(data: &[u8], pos: usize, max: usize) -> (r: Vec<u8>)
    requires
        pos <= data@.len(),
    ensures
        r@ == chunk_at(data@, pos as nat, max as nat),
{
    let left = data.len() - pos;
    let take = if max < left { max } else { left };
    let mut r: Vec<u8> = Vec::with_capacity(take);
    let end = pos + take;
    let mut i: usize = pos;
    while i < end
        invariant
            pos <= i <= end,
            end == pos + take,
            end <= data@.len(),
            take == chunk_end(data@.len(), pos as nat, max as nat) - pos,
            r@ == data@.subrange(pos as int, i as int),
        decreases end - i,
    {
        r.push(data[i]);
        i = i + 1;
    }
    r
}

} // verus!
