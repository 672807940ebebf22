//! The decrypt path: sealed chunks in, verified plaintext out.
use crate::cipher::{open, seal_limit, KEY_LEN, TAG_LEN};
use crate::error::StreamError;
use crate::frame::{
    lemma_body_chunk, lemma_div_of_parts, lemma_full_chunks_push_chunk, lemma_split_len,
    seal_chunk, seal_full_chunks, sealed_chunk_len, valid_chunk_size, MAX_CHUNK_SIZE,
};
use crate::nonce::{derive_nonce, BASE_NONCE_LEN};
use vstd::prelude::*;
use vstd::slice::slice_to_vec;

verus! {

/// What a reader holds, seen as values.
pub struct ReaderState {
    pub key: Seq<u8>,
    pub base: Seq<u8>,
    pub chunk_size: nat,
    /// Index of the next chunk to be opened.
    pub next_index: nat,
    /// Ciphertext received and not opened yet.
    pub pending: Seq<u8>,
    pub closed: bool,
}

/// A decryption session. It buffers at most one sealed chunk and opens each
/// full chunk as soon as all of its bytes have arrived.
pub struct ChunkReader {
    key: Vec<u8>,
    base: [u8; BASE_NONCE_LEN],
    chunk_size: usize,
    next_index: u32,
    buffer: Vec<u8>,
    closed: bool,
}

impl View for ChunkReader {
    type V = ReaderState;

    closed spec fn view(&self) -> ReaderState {
        ReaderState {
            key: self.key@,
            base: self.base@,
            chunk_size: self.chunk_size as nat,
            next_index: self.next_index as nat,
            pending: self.buffer@,
            closed: self.closed,
        }
    }
}

/// `out` is `before` followed by `added`.
pub open spec fn extends(out: Seq<u8>, before: Seq<u8>, added: Seq<u8>) -> bool {
    out == before + added
}

impl ChunkReader {
    /// The reader's internal consistency.
    pub closed spec fn wf(&self) -> bool {
        &&& self.key@.len() == KEY_LEN
        &&& self.base@.len() == BASE_NONCE_LEN
        &&& valid_chunk_size(self.chunk_size as nat)
        &&& self.buffer@.len() < sealed_chunk_len(self.chunk_size as nat)
    }

    /// Opens a session with `key`, the stream's `base_nonce` and `chunk_size`
    /// bytes of plaintext per chunk.
    pub fn new(key: &[u8], base_nonce: [u8; BASE_NONCE_LEN], chunk_size: usize) -> (r: Result<ChunkReader, StreamError>)
        ensures
            key@.len() != KEY_LEN ==> r == Err::<ChunkReader, StreamError>(StreamError::KeyFormatError),
            key@.len() == KEY_LEN && !valid_chunk_size(chunk_size as nat) ==> r == Err::<ChunkReader, StreamError>(StreamError::InvalidChunkSize),
            key@.len() == KEY_LEN && valid_chunk_size(chunk_size as nat) ==> (r matches Ok(rd) && rd.wf() && rd@ == (ReaderState {
                key: key@,
                base: base_nonce@,
                chunk_size: chunk_size as nat,
                next_index: 0,
                pending: Seq::empty(),
                closed: false,
            })),
    {
        if key.len() != KEY_LEN {
            return Err(StreamError::KeyFormatError);
        }
        if chunk_size == 0 || chunk_size > MAX_CHUNK_SIZE {
            return Err(StreamError::InvalidChunkSize);
        }
        proof {
            vstd::array::array_len_matches_n(&base_nonce);
        }
        Ok(ChunkReader {
            key: slice_to_vec(key),
            base: base_nonce,
            chunk_size,
            next_index: 0,
            buffer: Vec::new(),
            closed: false,
        })
    }

    /// Ciphertext buffered and not opened yet.
    pub fn buffered_len(&self) -> (r: usize)
        ensures
            r == self@.pending.len(),
    {
        self.buffer.len()
    }

    /// Takes one more byte; when it completes a sealed chunk, opens that chunk
    /// as a chunk that is not the last and appends its plaintext to `got`.
    /// Returns false, with `got` unchanged, when the chunk does not verify.
    fn absorb(&mut self, byte: u8, got: &mut Vec<u8>) -> (ok: bool)
        requires
            old(self).wf(),
            !old(self)@.closed,
            old(self)@.pending.len() + 1 == sealed_chunk_len(old(self)@.chunk_size) ==> old(self)@.next_index < u32::MAX,
        ensures
            final(self).wf(),
            ({
                let s = old(self)@;
                let grown = s.pending.push(byte);
                if grown.len() < sealed_chunk_len(s.chunk_size) {
                    &&& ok
                    &&& final(self)@ == (ReaderState { pending: grown, ..s })
                    &&& final(got)@ == old(got)@
                } else {
                    let m = final(got)@.skip(old(got)@.len() as int);
                    &&& ok ==> {
                        &&& extends(final(got)@, old(got)@, m)
                        &&& m.len() == s.chunk_size
                        &&& seal_chunk(s.key, s.base, s.next_index, false, m) == grown
                        &&& final(self)@ == (ReaderState { pending: Seq::empty(), next_index: s.next_index + 1, ..s })
                    }
                    &&& !ok ==> final(got)@ == old(got)@ && final(self)@ == s
                    &&& forall|c: Seq<u8>|
                        c.len() == s.chunk_size && #[trigger] seal_chunk(s.key, s.base, s.next_index, false, c) == grown
                            ==> ok && final(got)@ == old(got)@ + c
                }
            }),
    {
        self.buffer.push(byte);
        if self.buffer.len() < self.chunk_size + TAG_LEN {
            return true;
        }
        let nonce = derive_nonce(&self.base, self.next_index, false);
        let opened = open(self.key.as_slice(), nonce.as_slice(), self.buffer.as_slice());
        proof {
            assert forall|c: Seq<u8>|
                c.len() == self.chunk_size && #[trigger] seal_chunk(self.key@, self.base@, self.next_index as nat, false, c) == self.buffer@
                    implies opened matches Some(v) && v@ == c by {
                assert(c.len() < seal_limit());
            }
        }
        match opened {
            Some(m) => {
                let mut m = m;
                let ghost g0 = got@;
                let ghost mv = m@;
                got.append(&mut m);
                proof {
                    assert(got@.skip(g0.len() as int) =~= mv);
                }
                self.buffer.clear();
                self.next_index = self.next_index + 1;
                proof {
                    assert(self.buffer@ =~= Seq::<u8>::empty());
                }
                true
            },
            None => {
                self.buffer.pop();
                proof {
                    assert(self.buffer@ =~= old(self)@.pending);
                }
                false
            },
        }
    }

    /// Takes `data` and opens every sealed chunk that it completes as a chunk
    /// that is not the last. On success their plaintext is appended to `out`;
    /// on a failure nothing is appended and the session is closed.
    pub fn feed(&mut self, data: &[u8], out: &mut Vec<u8>) -> (r: Result<(), StreamError>)
        requires
            old(self).wf(),
        ensures
            final(self).wf(),
            final(self)@.key == old(self)@.key,
            final(self)@.base == old(self)@.base,
            final(self)@.chunk_size == old(self)@.chunk_size,
            final(self)@.pending.len() < sealed_chunk_len(final(self)@.chunk_size),
            old(self)@.closed ==> r == Err::<(), StreamError>(StreamError::SessionClosed) && final(self)@ == old(self)@ && final(out)@ == old(out)@,
            ({
                let s = old(self)@;
                let w = sealed_chunk_len(s.chunk_size);
                let all = s.pending + data@;
                let n = all.len() / w;
                let body = all.take((n * w) as int);
                !s.closed ==> if s.next_index + n > u32::MAX {
                    &&& r == Err::<(), StreamError>(StreamError::CounterExhausted)
                    &&& final(self)@ == (ReaderState { closed: true, ..s })
                    &&& final(out)@ == old(out)@
                } else {
                    &&& (r is Ok || r == Err::<(), StreamError>(StreamError::AuthenticationFailed))
                    &&& r is Ok ==> {
                        let added = final(out)@.skip(old(out)@.len() as int);
                        &&& extends(final(out)@, old(out)@, added)
                        &&& added.len() == n * s.chunk_size
                        &&& seal_full_chunks(s.key, s.base, s.next_index, s.chunk_size, added) == body
                        &&& final(self)@.pending == all.skip((n * w) as int)
                        &&& final(self)@.next_index == s.next_index + n
                        &&& !final(self)@.closed
                    }
                    &&& r is Err ==> final(self)@.closed && final(out)@ == old(out)@
                    &&& forall|q: Seq<u8>|
                        q.len() == n * s.chunk_size && #[trigger] seal_full_chunks(s.key, s.base, s.next_index, s.chunk_size, q) == body
                            ==> r is Ok && final(out)@ == old(out)@ + q
                }
            }),
    {
        if self.closed {
            return Err(StreamError::SessionClosed);
        }
        let ghost s = self@;
        let ghost all = s.pending + data@;
        let cs = self.chunk_size;
        let w = cs + TAG_LEN;
        let ghost wn = w as nat;
        let ghost n = all.len() / wn;
        let ghost body = all.take((n * wn) as int);
        let carried = self.buffer.len() + data.len() % w;
        let whole = data.len() / w;
        proof {
            let q = data@.len() / wn;
            let rd = data@.len() % wn;
            lemma_split_len(wn, data@.len());
            lemma_split_len(wn, carried as nat);
            let c = carried as nat;
            let cq = c / wn;
            let cr = c % wn;
            assert(all.len() == (q + cq) * wn + cr) by (nonlinear_arith)
                requires
                    all.len() == s.pending.len() + data@.len(),
                    data@.len() == wn * q + rd,
                    c == s.pending.len() + rd,
                    c == wn * cq + cr,
            {}
            lemma_div_of_parts(wn, q + cq, cr);
            assert(s.pending =~= s.pending + data@.take(0));
            assert(s.pending.take(0) =~= Seq::<u8>::empty());
            assert(s.pending.skip(0) =~= s.pending);
            assert(0 * wn == 0 && 0 * cs == 0) by (nonlinear_arith) {}
            assert(n * wn <= all.len()) by {
                lemma_split_len(wn, all.len());
                vstd::arithmetic::mul::lemma_mul_is_commutative(wn as int, n as int);
            }
        }
        let room = (u32::MAX - self.next_index) as usize;
        if whole > room || carried / w > room - whole {
            self.closed = true;
            return Err(StreamError::CounterExhausted);
        }
        let mut got: Vec<u8> = Vec::new();
        let mut i: usize = 0;
        let ghost mut k: nat = 0;
        while i < data.len()
            invariant
                i <= data@.len(),
                s == old(self)@,
                !s.closed,
                out@ == old(out)@,
                self.wf(),
                self@.key == s.key,
                self@.base == s.base,
                self@.chunk_size == cs,
                cs == s.chunk_size,
                wn == cs + TAG_LEN,
                !self@.closed,
                all == s.pending + data@,
                n == all.len() / wn,
                n * wn <= all.len(),
                body == all.take((n * wn) as int),
                s.next_index + n <= u32::MAX,
                ({
                    let pre = s.pending + data@.take(i as int);
                    &&& pre.len() == k * wn + self@.pending.len()
                    &&& self@.pending == pre.skip((k * wn) as int)
                    &&& self@.next_index == s.next_index + k
                    &&& got@.len() == k * cs
                    &&& seal_full_chunks(s.key, s.base, s.next_index, cs as nat, got@) == pre.take((k * wn) as int)
                    &&& forall|q: Seq<u8>|
                        q.len() == n * cs && #[trigger] seal_full_chunks(s.key, s.base, s.next_index, cs as nat, q) == body
                            ==> got@ == q.take((k * cs) as int)
                }),
            decreases data@.len() - i,
        {
            let ghost pre = s.pending + data@.take(i as int);
            let ghost pre2 = s.pending + data@.take(i + 1);
            let ghost g0 = got@;
            let ghost before = self@;
            let ghost grown = before.pending.push(data@[i as int]);
            proof {
                assert(pre2 =~= pre.push(data@[i as int]));
                assert(pre2.len() <= all.len());
                if grown.len() == wn {
                    assert(pre2.len() == (k + 1) * wn) by (nonlinear_arith)
                        requires
                            pre2.len() == k * wn + grown.len(),
                            grown.len() == wn,
                    {}
                    lemma_div_of_parts(wn, k + 1, 0);
                    vstd::arithmetic::div_mod::lemma_div_is_ordered(pre2.len() as int, all.len() as int, wn as int);
                }
            }
            let ok = self.absorb(data[i], &mut got);
            proof {
                if grown.len() == wn {
                    assert(k + 1 <= n);
                    assert(pre2 =~= pre.take((k * wn) as int) + grown);
                    assert(pre2.take(((k + 1) * wn) as int) =~= pre2);
                    assert((k + 1) * wn <= n * wn && (k + 1) * cs <= n * cs && (k + 1) * cs == k * cs + cs) by (nonlinear_arith)
                        requires
                            k + 1 <= n,
                    {}
                    assert(pre2 =~= body.take(pre2.len() as int));
                    assert(pre2.skip((k * wn) as int) =~= grown);
                    assert forall|q: Seq<u8>|
                        q.len() == n * cs && #[trigger] seal_full_chunks(s.key, s.base, s.next_index, cs as nat, q) == body
                            implies ok && got@ == q.take(((k + 1) * cs) as int) by {
                        lemma_body_chunk(s.key, s.base, s.next_index, cs as nat, q, n, k, body, pre2);
                        let qk = q.subrange((k * cs) as int, ((k + 1) * cs) as int);
                        assert(seal_chunk(s.key, s.base, before.next_index, false, qk) == grown);
                        assert(got@ =~= q.take(((k + 1) * cs) as int));
                    }
                    if ok {
                        let m = got@.skip(g0.len() as int);
                        lemma_full_chunks_push_chunk(s.key, s.base, s.next_index, cs as nat, g0, m, k);
                        assert(pre2.skip(((k + 1) * wn) as int) =~= Seq::<u8>::empty());
                    }
                } else {
                    assert(pre2.take((k * wn) as int) =~= pre.take((k * wn) as int));
                    assert(pre2.skip((k * wn) as int) =~= grown);
                }
            }
            if !ok {
                self.closed = true;
                return Err(StreamError::AuthenticationFailed);
            }
            proof {
                if grown.len() == wn {
                    k = k + 1;
                }
            }
            i = i + 1;
            proof {
                assert(pre2 == s.pending + data@.take(i as int));
            }
        }
        proof {
            assert(data@.take(data@.len() as int) =~= data@);
            lemma_div_of_parts(wn, k, self@.pending.len());
            assert(k == n);
        }
        let ghost out0 = out@;
        let ghost gv = got@;
        out.append(&mut got);
        proof {
            assert(out@.skip(out0.len() as int) =~= gv);
            assert(s.pending + data@.take(i as int) == all);
            assert(seal_full_chunks(s.key, s.base, s.next_index, cs as nat, gv) == body);
        }
        Ok(())
    }

    /// Ends the stream: what is buffered is the last chunk, opened under the
    /// last-chunk nonce, and its plaintext is appended to `out`. The session
    /// is closed whatever the outcome.
    pub fn finish(&mut self, out: &mut Vec<u8>) -> (r: Result<(), StreamError>)
        requires
            old(self).wf(),
        ensures
            final(self).wf(),
            old(self)@.closed ==> r == Err::<(), StreamError>(StreamError::SessionClosed) && final(self)@ == old(self)@ && final(out)@ == old(out)@,
            !old(self)@.closed ==> {
                let s = old(self)@;
                &&& final(self)@ == (ReaderState { closed: true, ..s })
                &&& s.pending.len() < TAG_LEN ==> r == Err::<(), StreamError>(StreamError::UnexpectedEndOfStream) && final(out)@ == old(out)@
                &&& s.pending.len() >= TAG_LEN ==> {
                    &&& (r is Ok || r == Err::<(), StreamError>(StreamError::AuthenticationFailed))
                    &&& r is Ok ==> {
                        let added = final(out)@.skip(old(out)@.len() as int);
                        &&& extends(final(out)@, old(out)@, added)
                        &&& seal_chunk(s.key, s.base, s.next_index, true, added) == s.pending
                    }
                    &&& r is Err ==> final(out)@ == old(out)@
                    &&& forall|m: Seq<u8>|
                        #[trigger] seal_chunk(s.key, s.base, s.next_index, true, m) == s.pending
                            ==> r is Ok && final(out)@ == old(out)@ + m
                }
            },
    {
        if self.closed {
            return Err(StreamError::SessionClosed);
        }
        self.closed = true;
        if self.buffer.len() < TAG_LEN {
            return Err(StreamError::UnexpectedEndOfStream);
        }
        let nonce = derive_nonce(&self.base, self.next_index, true);
        let opened = open(self.key.as_slice(), nonce.as_slice(), self.buffer.as_slice());
        proof {
            assert forall|m: Seq<u8>|
                #[trigger] seal_chunk(self.key@, self.base@, self.next_index as nat, true, m) == self.buffer@
                    implies opened matches Some(v) && v@ == m by {
                assert(m.len() < seal_limit());
            }
        }
        match opened {
            Some(m) => {
                let mut m = m;
                let ghost o0 = out@;
                let ghost mv = m@;
                out.append(&mut m);
                proof {
                    assert(out@.skip(o0.len() as int) =~= mv);
                }
                Ok(())
            },
            None => Err(StreamError::AuthenticationFailed),
        }
    }
}

} // verus!
