//! The encrypt path: plaintext in, sealed chunks out.
use crate::cipher::{seal, KEY_LEN};
use crate::error::StreamError;
use crate::frame::{
    final_part, full_part_len, lemma_div_of_parts, lemma_full_chunks_append,
    lemma_full_chunks_of_prefix, lemma_push_byte, lemma_split_len, seal_chunk, seal_full_chunks,
    valid_chunk_size, MAX_CHUNK_SIZE,
};
use crate::nonce::{derive_nonce, BASE_NONCE_LEN};
use vstd::prelude::*;
use vstd::slice::slice_to_vec;

verus! {

/// What a writer holds, seen as values.
pub struct WriterState {
    pub key: Seq<u8>,
    pub base: Seq<u8>,
    pub chunk_size: nat,
    /// Index of the next chunk to be sealed.
    pub next_index: nat,
    /// Plaintext accepted and not sealed yet.
    pub pending: Seq<u8>,
    pub closed: bool,
}

/// An encryption session. It buffers at most one chunk of plaintext and
/// seals each chunk as soon as it is full.
pub struct ChunkWriter {
    key: Vec<u8>,
    base: [u8; BASE_NONCE_LEN],
    chunk_size: usize,
    next_index: u32,
    buffer: Vec<u8>,
    closed: bool,
}

impl View for ChunkWriter {
    type V = WriterState;

    closed spec fn view(&self) -> WriterState {
        WriterState {
            key: self.key@,
            base: self.base@,
            chunk_size: self.chunk_size as nat,
            next_index: self.next_index as nat,
            pending: self.buffer@,
            closed: self.closed,
        }
    }
}

impl ChunkWriter {
    /// The writer's internal consistency.
    pub closed spec fn wf(&self) -> bool {
        &&& self.key@.len() == KEY_LEN
        &&& self.base@.len() == BASE_NONCE_LEN
        &&& valid_chunk_size(self.chunk_size as nat)
        &&& self.buffer@.len() < self.chunk_size
    }

    /// Opens a session with `key`, the session's `base_nonce` and `chunk_size`
    /// bytes of plaintext per chunk.
    pub fn new(key: &[u8], base_nonce: [u8; BASE_NONCE_LEN], chunk_size: usize) -> (r: Result<ChunkWriter, StreamError>)
        ensures
            key@.len() != KEY_LEN ==> r == Err::<ChunkWriter, StreamError>(StreamError::KeyFormatError),
            key@.len() == KEY_LEN && !valid_chunk_size(chunk_size as nat) ==> r == Err::<ChunkWriter, StreamError>(StreamError::InvalidChunkSize),
            key@.len() == KEY_LEN && valid_chunk_size(chunk_size as nat) ==> (r matches Ok(w) && w.wf() && w@ == (WriterState {
                key: key@,
                base: base_nonce@,
                chunk_size: chunk_size as nat,
                next_index: 0,
                pending: Seq::empty(),
                closed: false,
            })),
    {
        if key.len() != KEY_LEN {
            return Err(StreamError::KeyFormatError);
        }
        if chunk_size == 0 || chunk_size > MAX_CHUNK_SIZE {
            return Err(StreamError::InvalidChunkSize);
        }
        let w = ChunkWriter {
            key: slice_to_vec(key),
            base: base_nonce,
            chunk_size,
            next_index: 0,
            buffer: Vec::new(),
            closed: false,
        };
        proof {
            vstd::array::array_len_matches_n(&base_nonce);
        }
        Ok(w)
    }

    /// Plaintext buffered and not sealed yet.
    pub fn buffered_len(&self) -> (r: usize)
        ensures
            r == self@.pending.len(),
    {
        self.buffer.len()
    }

    /// Takes `data` and appends to `out` every chunk that it completes, sealed
    /// as a chunk that is not the last.
    pub fn write(&mut self, data: &[u8], out: &mut Vec<u8>) -> (r: Result<(), StreamError>)
        requires
            old(self).wf(),
        ensures
            final(self).wf(),
            final(self)@.key == old(self)@.key,
            final(self)@.base == old(self)@.base,
            final(self)@.chunk_size == old(self)@.chunk_size,
            final(self)@.pending.len() < final(self)@.chunk_size,
            old(self)@.closed ==> r == Err::<(), StreamError>(StreamError::SessionClosed) && final(self)@ == old(self)@ && final(out)@ == old(out)@,
            ({
                let s = old(self)@;
                let all = s.pending + data@;
                let n = all.len() / s.chunk_size;
                !s.closed ==> if s.next_index + n > u32::MAX {
                    &&& r == Err::<(), StreamError>(StreamError::CounterExhausted)
                    &&& final(self)@ == (WriterState { closed: true, ..s })
                    &&& final(out)@ == old(out)@
                } else {
                    &&& r == Ok::<(), StreamError>(())
                    &&& final(out)@ == old(out)@ + seal_full_chunks(s.key, s.base, s.next_index, s.chunk_size, all)
                    &&& final(self)@.pending == final_part(s.chunk_size, all)
                    &&& final(self)@.next_index == s.next_index + n
                    &&& !final(self)@.closed
                }
            }),
    {
        if self.closed {
            return Err(StreamError::SessionClosed);
        }
        let ghost s = self@;
        let ghost out0 = out@;
        let ghost all = s.pending + data@;
        let cs = self.chunk_size;
        let carried = self.buffer.len() + data.len() % cs;
        let whole = data.len() / cs;
        proof {
            let q = data@.len() / (cs as nat);
            let rd = data@.len() % (cs as nat);
            lemma_split_len(cs as nat, data@.len());
            lemma_split_len(cs as nat, carried as nat);
            let c = carried as nat;
            let cq = c / (cs as nat);
            let cr = c % (cs as nat);
            assert(all.len() == (q + cq) * cs + cr) by (nonlinear_arith)
                requires
                    all.len() == s.pending.len() + data@.len(),
                    data@.len() == (cs as nat) * q + rd,
                    c == s.pending.len() + rd,
                    c == (cs as nat) * cq + cr,
            {}
            lemma_div_of_parts(cs as nat, q + cq, cr);
            lemma_div_of_parts(cs as nat, 0, s.pending.len());
            assert(s.pending.len() / (cs as nat) == 0);
            assert(s.pending =~= s.pending + data@.take(0));
            assert(final_part(cs as nat, s.pending) =~= s.pending);
            assert(seal_full_chunks(s.key, s.base, s.next_index, cs as nat, s.pending) =~= Seq::<u8>::empty());
            assert(out@ =~= out0 + Seq::<u8>::empty());
        }
        let room = (u32::MAX - self.next_index) as usize;
        if whole > room || carried / cs > room - whole {
            self.closed = true;
            return Err(StreamError::CounterExhausted);
        }
        let mut i: usize = 0;
        while i < data.len()
            invariant
                i <= data@.len(),
                self.key@ == s.key,
                self.base@ == s.base,
                self.chunk_size == cs,
                cs == s.chunk_size,
                valid_chunk_size(cs as nat),
                s.key.len() == KEY_LEN,
                s.base.len() == BASE_NONCE_LEN,
                !self.closed,
                all == s.pending + data@,
                s.next_index + all.len() / (cs as nat) <= u32::MAX,
                ({
                    let pre = s.pending + data@.take(i as int);
                    &&& self.buffer@ == final_part(cs as nat, pre)
                    &&& self.next_index == s.next_index + pre.len() / (cs as nat)
                    &&& out@ == out0 + seal_full_chunks(s.key, s.base, s.next_index, cs as nat, pre)
                }),
            decreases data@.len() - i,
        {
            let ghost pre = s.pending + data@.take(i as int);
            let ghost pre2 = s.pending + data@.take(i + 1);
            proof {
                assert(pre2 =~= pre.push(data@[i as int]));
                lemma_push_byte(s.key, s.base, s.next_index, cs as nat, pre, data@[i as int]);
                lemma_full_chunks_of_prefix(s.key, s.base, s.next_index, cs as nat, pre);
                assert(pre2.len() <= all.len());
                vstd::arithmetic::div_mod::lemma_div_is_ordered(pre2.len() as int, all.len() as int, cs as int);
            }
            self.buffer.push(data[i]);
            if self.buffer.len() == cs {
                let nonce = derive_nonce(&self.base, self.next_index, false);
                let mut sealed = seal(self.key.as_slice(), nonce.as_slice(), self.buffer.as_slice());
                out.append(&mut sealed);
                self.buffer.clear();
                self.next_index = self.next_index + 1;
            }
            i = i + 1;
            proof {
                assert(pre2 == s.pending + data@.take(i as int));
            }
        }
        proof {
            assert(data@.take(data@.len() as int) =~= data@);
            lemma_full_chunks_of_prefix(s.key, s.base, s.next_index, cs as nat, all);
        }
        Ok(())
    }

    /// Seals what is buffered, possibly nothing, as the last chunk, appends it
    /// to `out`, and closes the session.
    pub fn finish(&mut self, out: &mut Vec<u8>) -> (r: Result<(), StreamError>)
        requires
            old(self).wf(),
        ensures
            final(self).wf(),
            old(self)@.closed ==> r == Err::<(), StreamError>(StreamError::SessionClosed) && final(self)@ == old(self)@ && final(out)@ == old(out)@,
            !old(self)@.closed ==> {
                let s = old(self)@;
                &&& r == Ok::<(), StreamError>(())
                &&& final(out)@ == old(out)@ + seal_chunk(s.key, s.base, s.next_index, true, s.pending)
                &&& final(self)@ == (WriterState { closed: true, ..s })
            },
    {
        if self.closed {
            return Err(StreamError::SessionClosed);
        }
        let nonce = derive_nonce(&self.base, self.next_index, true);
        let mut sealed = seal(self.key.as_slice(), nonce.as_slice(), self.buffer.as_slice());
        proof {
            assert(sealed@ =~= seal_chunk(self.key@, self.base@, self.next_index as nat, true, self.buffer@));
        }
        out.append(&mut sealed);
        self.closed = true;
        Ok(())
    }
}

/// Write sizes do not matter: a write of `a` followed by a write of `b`
/// seals the same chunks, and leaves the same plaintext pending, as one write
/// of `a + b`. Here `pending` is what the writer held before the first write
/// and `first` the index of its next chunk.
pub proof fn lemma_split_writes(
    key: Seq<u8>,
    base: Seq<u8>,
    first: nat,
    cs: nat,
    pending: Seq<u8>,
    a: Seq<u8>,
    b: Seq<u8>,
)
    requires
        cs > 0,
    ensures
        ({
            let mid = pending + a;
            let n1 = mid.len() / cs;
            let rest = final_part(cs, mid) + b;
            &&& seal_full_chunks(key, base, first, cs, mid) + seal_full_chunks(key, base, first + n1, cs, rest)
                == seal_full_chunks(key, base, first, cs, pending + a + b)
            &&& final_part(cs, rest) == final_part(cs, pending + a + b)
            &&& n1 + rest.len() / cs == (pending + a + b).len() / cs
        }),
{
    let mid = pending + a;
    let n1 = mid.len() / cs;
    let f = full_part_len(cs, mid.len());
    let head = mid.take(f as int);
    let t = final_part(cs, mid);
    let rest = t + b;
    let all = pending + a + b;
    lemma_full_chunks_of_prefix(key, base, first, cs, mid);
    lemma_split_len(cs, mid.len());
    assert(head.len() == n1 * cs) by {
        vstd::arithmetic::mul::lemma_mul_is_commutative(cs as int, n1 as int);
    }
    assert(all =~= head + rest);
    lemma_full_chunks_append(key, base, first, cs, head, rest, n1);
    lemma_full_chunks_append(key, base, first, cs, head, t, n1);
    assert(seal_full_chunks(key, base, first + n1, cs, t) =~= Seq::<u8>::empty());
    assert(seal_full_chunks(key, base, first, cs, head) + Seq::<u8>::empty() =~= seal_full_chunks(key, base, first, cs, head));
    let n2 = rest.len() / cs;
    lemma_split_len(cs, rest.len());
    lemma_div_of_parts(cs, n1 + n2, rest.len() % cs);
    assert(all.len() == (n1 + n2) * cs + rest.len() % cs) by (nonlinear_arith)
        requires
            all.len() == head.len() + rest.len(),
            head.len() == n1 * cs,
            rest.len() == cs * n2 + rest.len() % cs,
    {}
    assert(full_part_len(cs, all.len()) == head.len() + full_part_len(cs, rest.len())) by (nonlinear_arith)
        requires
            all.len() / cs == n1 + n2,
            head.len() == n1 * cs,
            full_part_len(cs, all.len()) == cs * (all.len() / cs),
            full_part_len(cs, rest.len()) == cs * n2,
    {}
    assert(final_part(cs, rest) =~= final_part(cs, all));
}

} // verus!
