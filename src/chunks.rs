use vstd::prelude::*;
use vstd::arithmetic::div_mod::{lemma_basic_div, lemma_div_plus_one};

verus! {

/// Where a chunk that starts at `off` ends, for a source of `len` bytes.
pub open spec fn chunk_end(len: nat, off: nat, c: nat) -> nat {
    if off + c <= len {
        off + c
    } else {
        len
    }
}

/// The bytes that one read of up to `c` bytes yields at offset `off`.
pub open spec fn chunk_at(data: Seq<u8>, off: nat, c: nat) -> Seq<u8> {
    data.subrange(off as int, chunk_end(data.len(), off, c) as int)
}

/// The chunks that reads of up to `c` bytes yield from offset `off` on.
pub open spec fn chunks_from(data: Seq<u8>, off: nat, c: nat) -> Seq<Seq<u8>>
    decreases
            if off < data.len() {
                data.len() - off
            } else {
                0
            },
{
    if c == 0 || off >= data.len() {
        Seq::empty()
    } else {
        seq![chunk_at(data, off, c)] + chunks_from(data, off + c, c)
    }
}

/// The chunks of a whole source read `c` bytes at a time.
pub open spec fn chunks(data: Seq<u8>, c: nat) -> Seq<Seq<u8>> {
    chunks_from(data, 0, c)
}

/// The chunks joined end to end.
pub open spec fn concat(s: Seq<Seq<u8>>) -> Seq<u8>
    decreases s.len(),
{
    if s.len() == 0 {
        Seq::empty()
    } else {
        s[0] + concat(s.drop_first())
    }
}

/// The sum of the chunks' lengths.
pub open spec fn total_len(s: Seq<Seq<u8>>) -> nat
    decreases s.len(),
{
    if s.len() == 0 {
        0
    } else {
        s[0].len() + total_len(s.drop_first())
    }
}

/// `n / c` rounded up.
pub open spec fn ceil_div(n: nat, c: nat) -> nat {
    ((n + c - 1) / (c as int)) as nat
}

proof fn lemma_reassemble_from(data: Seq<u8>, off: nat, c: nat)
    requires
        c > 0,
        off <= data.len(),
    ensures
        concat(chunks_from(data, off, c)) == data.subrange(off as int, data.len() as int),
        total_len(chunks_from(data, off, c)) == data.len() - off,
        forall|i: int| 0 <= i < chunks_from(data, off, c).len() ==> #[trigger] chunks_from(data, off, c)[i].len() > 0,
    decreases data.len() - off,
{
    let s = chunks_from(data, off, c);
    if off < data.len() {
        let next = off + c;
        let end = chunk_end(data.len(), off, c);
        if next <= data.len() {
            lemma_reassemble_from(data, next, c);
        } else {
            assert(chunks_from(data, next, c) =~= Seq::<Seq<u8>>::empty());
        }
        assert(s.drop_first() =~= chunks_from(data, next, c));
        let rest = chunks_from(data, next, c);
        assert(concat(rest) =~= data.subrange(end as int, data.len() as int));
        assert(data.subrange(off as int, data.len() as int) =~= data.subrange(off as int, end as int)
            + data.subrange(end as int, data.len() as int));
        assert forall|i: int| 0 <= i < s.len() implies #[trigger] s[i].len() > 0 by {
            if i > 0 {
                assert(s[i] == rest[i - 1]);
            }
        }
    } else {
        assert(data.subrange(off as int, data.len() as int) =~= Seq::<u8>::empty());
    }
}

proof fn lemma_count_from(data: Seq<u8>, off: nat, c: nat)
    requires
        c > 0,
        off <= data.len(),
    ensures
        chunks_from(data, off, c).len() == ceil_div((data.len() - off) as nat, c),
    decreases data.len() - off,
{
    let l = data.len() - off;
    let s = chunks_from(data, off, c);
    if off < data.len() {
        let next = off + c;
        let rest = chunks_from(data, next, c);
        assert(s.len() == 1 + rest.len());
        lemma_div_plus_one(l - 1, c as int);
        assert(c + (l - 1) == l + c - 1);
        if next <= data.len() {
            lemma_count_from(data, next, c);
            assert(data.len() - next + c - 1 == l - 1);
            assert(rest.len() == (l - 1) / (c as int));
        } else {
            lemma_basic_div(l - 1, c as int);
            assert(rest.len() == 0);
            assert((l - 1) / (c as int) == 0);
        }
    } else {
        lemma_basic_div(c - 1, c as int);
    }
}

pub(crate) proof fn lemma_offsets_from(data: Seq<u8>, off: nat, c: nat)
    requires
        c > 0,
        off <= data.len(),
    ensures
        forall|i: int| 0 <= i < chunks_from(data, off, c).len()
            ==> #[trigger] chunks_from(data, off, c)[i] == chunk_at(data, (off + i * c) as nat, c),
        chunks_from(data, off, c).len() > 0 ==> chunk_end(data.len(),
            (off + (chunks_from(data, off, c).len() - 1) * c) as nat, c) == data.len(),
    decreases data.len() - off,
{
    let s = chunks_from(data, off, c);
    if off < data.len() {
        let next = off + c;
        let rest = chunks_from(data, next, c);
        if next <= data.len() {
            lemma_offsets_from(data, next, c);
        }
        assert forall|i: int| 0 <= i < s.len() implies #[trigger] s[i] == chunk_at(data, (off + i * c) as nat, c) by {
            if i > 0 {
                assert(s[i] == rest[i - 1]);
                assert(next + (i - 1) * c == off + i * c) by (nonlinear_arith)
                    requires
                        next == off + c,
                ;
            }
        }
        if rest.len() > 0 {
            let k = rest.len() as int;
            assert(next + (k - 1) * c == off + k * c) by (nonlinear_arith)
                requires
                    next == off + c,
            ;
        }
    }
}

/// Read `c > 0` bytes at a time, a source comes out whole: its chunks,
/// joined in the order they come, give back the source byte for byte; their
/// lengths add up to the source's size; and no chunk is empty.
pub proof fn lemma_chunks_reassemble(data: Seq<u8>, c: nat)
    requires
        c > 0,
    ensures
        concat(chunks(data, c)) == data,
        total_len(chunks(data, c)) == data.len(),
        forall|i: int| 0 <= i < chunks(data, c).len() ==> #[trigger] chunks(data, c)[i].len() > 0,
{
    lemma_reassemble_from(data, 0, c);
    assert(data.subrange(0, data.len() as int) =~= data);
}

/// A source of `n` bytes read `c > 0` bytes at a time gives `n / c` rounded
/// up chunks: none for an empty source.
pub proof fn lemma_chunk_count(data: Seq<u8>, c: nat)
    requires
        c > 0,
    ensures
        chunks(data, c).len() == ceil_div(data.len(), c),
        data.len() == 0 ==> chunks(data, c).len() == 0,
{
    lemma_count_from(data, 0, c);
}

/// The chunks follow the source in order, without gap or overlap: chunk `i`
/// is what a read at offset `i * c` yields, and the last one ends where the
/// source does.
pub proof fn lemma_chunk_offsets(data: Seq<u8>, c: nat)
    requires
        c > 0,
    ensures
        forall|i: int| 0 <= i < chunks(data, c).len()
            ==> #[trigger] chunks(data, c)[i] == chunk_at(data, (i * c) as nat, c),
        chunks(data, c).len() > 0 ==> chunk_end(data.len(), ((chunks(data, c).len() - 1) * c) as nat, c)
            == data.len(),
{
    lemma_offsets_from(data, 0, c);
}

} // verus!
