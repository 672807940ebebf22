//! Whole-buffer encryption and decryption over one session each, and the
//! laws that tie the two together.
use crate::cipher::{KEY_LEN, TAG_LEN};
use crate::error::StreamError;
use crate::frame::{
    chunk_count, counter_fits, encrypted, final_part, full_part_len, lemma_div_of_parts,
    lemma_full_chunks_of_prefix, lemma_split_len, lemma_stream_layout, seal_chunk,
    seal_full_chunks, sealed_chunk_len, valid_chunk_size, MAX_CHUNK_SIZE,
};
use crate::nonce::BASE_NONCE_LEN;
use crate::reader::ChunkReader;
use crate::writer::ChunkWriter;
use vstd::prelude::*;
use vstd::slice::slice_subrange;

verus! {

/// The ciphertext's length splits into the base nonce, whole sealed chunks,
/// and a last sealed chunk that holds at least its tag.
pub open spec fn well_framed(cs: nat, len: nat) -> bool {
    &&& len >= BASE_NONCE_LEN
    &&& (len - BASE_NONCE_LEN) as nat % sealed_chunk_len(cs) >= TAG_LEN
}

/// The last chunk of a ciphertext of `len` bytes gets an index that fits
/// the 32-bit counter.
pub open spec fn stream_counter_fits(cs: nat, len: nat) -> bool {
    (len - BASE_NONCE_LEN) as nat / sealed_chunk_len(cs) <= u32::MAX
}

/// `ct` is a valid stream, under `key` and chunks of `cs` bytes, whose
/// plaintext is `p`; the base nonce is read from the stream's head.
pub open spec fn decrypts_to(key: Seq<u8>, cs: nat, ct: Seq<u8>, p: Seq<u8>) -> bool {
    &&& key.len() == KEY_LEN
    &&& valid_chunk_size(cs)
    &&& well_framed(cs, ct.len())
    &&& stream_counter_fits(cs, ct.len())
    &&& ct == encrypted(key, ct.take(BASE_NONCE_LEN as int), cs, p)
}

/// Encrypts `plaintext` as one stream: the base nonce, then the sealed chunks.
pub fn encrypt(key: &[u8], base_nonce: [u8; BASE_NONCE_LEN], chunk_size: usize, plaintext: &[u8]) -> (r: Result<Vec<u8>, StreamError>)
    ensures
        key@.len() != KEY_LEN ==> r == Err::<Vec<u8>, StreamError>(StreamError::KeyFormatError),
        key@.len() == KEY_LEN && !valid_chunk_size(chunk_size as nat) ==> r == Err::<Vec<u8>, StreamError>(StreamError::InvalidChunkSize),
        key@.len() == KEY_LEN && valid_chunk_size(chunk_size as nat) && !counter_fits(chunk_size as nat, plaintext@.len())
            ==> r == Err::<Vec<u8>, StreamError>(StreamError::CounterExhausted),
        key@.len() == KEY_LEN && valid_chunk_size(chunk_size as nat) && counter_fits(chunk_size as nat, plaintext@.len())
            ==> (r matches Ok(c) && c@ == encrypted(key@, base_nonce@, chunk_size as nat, plaintext@)),
{
    let mut writer = match ChunkWriter::new(key, base_nonce, chunk_size) {
        Ok(w) => w,
        Err(e) => return Err(e),
    };
    let mut out: Vec<u8> = Vec::new();
    let mut i: usize = 0;
    while i < BASE_NONCE_LEN
        invariant
            i <= BASE_NONCE_LEN,
            base_nonce@.len() == BASE_NONCE_LEN,
            out@ == base_nonce@.take(i as int),
        decreases BASE_NONCE_LEN - i,
    {
        out.push(base_nonce[i]);
        i = i + 1;
        proof {
            assert(out@ =~= base_nonce@.take(i as int));
        }
    }
    proof {
        vstd::array::array_len_matches_n(&base_nonce);
        assert(base_nonce@.take(BASE_NONCE_LEN as int) =~= base_nonce@);
        lemma_empty_prefix(plaintext@);
    }
    match writer.write(plaintext, &mut out) {
        Ok(()) => {},
        Err(e) => return Err(e),
    }
    match writer.finish(&mut out) {
        Ok(()) => {},
        Err(e) => return Err(e),
    }
    Ok(out)
}

/// A session starts with nothing pending, so what a single write sees is
/// the plaintext itself.
proof fn lemma_empty_prefix(p: Seq<u8>)
    ensures
        Seq::<u8>::empty() + p == p,
{
    assert(Seq::<u8>::empty() + p =~= p);
}

/// Decrypts a whole stream: reads the base nonce from its head, opens every
/// chunk in order, and returns the plaintext only if every chunk verifies.
pub fn decrypt(key: &[u8], chunk_size: usize, ciphertext: &[u8]) -> (r: Result<Vec<u8>, StreamError>)
    ensures
        key@.len() != KEY_LEN ==> r == Err::<Vec<u8>, StreamError>(StreamError::KeyFormatError),
        key@.len() == KEY_LEN && !valid_chunk_size(chunk_size as nat) ==> r == Err::<Vec<u8>, StreamError>(StreamError::InvalidChunkSize),
        key@.len() == KEY_LEN && valid_chunk_size(chunk_size as nat) && !well_framed(chunk_size as nat, ciphertext@.len())
            ==> r == Err::<Vec<u8>, StreamError>(StreamError::UnexpectedEndOfStream),
        key@.len() == KEY_LEN && valid_chunk_size(chunk_size as nat) && well_framed(chunk_size as nat, ciphertext@.len())
            && !stream_counter_fits(chunk_size as nat, ciphertext@.len())
            ==> r == Err::<Vec<u8>, StreamError>(StreamError::CounterExhausted),
        key@.len() == KEY_LEN && valid_chunk_size(chunk_size as nat) && well_framed(chunk_size as nat, ciphertext@.len())
            && stream_counter_fits(chunk_size as nat, ciphertext@.len())
            ==> r is Ok || r == Err::<Vec<u8>, StreamError>(StreamError::AuthenticationFailed),
        r matches Ok(p) ==> decrypts_to(key@, chunk_size as nat, ciphertext@, p@),
        forall|p: Seq<u8>| #[trigger] decrypts_to(key@, chunk_size as nat, ciphertext@, p) ==> (r matches Ok(v) && v@ == p),
{
    if key.len() != KEY_LEN {
        return Err(StreamError::KeyFormatError);
    }
    if chunk_size == 0 || chunk_size > MAX_CHUNK_SIZE {
        return Err(StreamError::InvalidChunkSize);
    }
    if ciphertext.len() < BASE_NONCE_LEN {
        return Err(StreamError::UnexpectedEndOfStream);
    }
    let w = chunk_size + TAG_LEN;
    let body_len = ciphertext.len() - BASE_NONCE_LEN;
    if body_len % w < TAG_LEN {
        return Err(StreamError::UnexpectedEndOfStream);
    }
    if body_len / w > u32::MAX as usize {
        return Err(StreamError::CounterExhausted);
    }
    let base: [u8; BASE_NONCE_LEN] = [
        ciphertext[0],
        ciphertext[1],
        ciphertext[2],
        ciphertext[3],
        ciphertext[4],
        ciphertext[5],
        ciphertext[6],
    ];
    let body = slice_subrange(ciphertext, BASE_NONCE_LEN, ciphertext.len());
    let ghost ct = ciphertext@;
    let ghost cs = chunk_size as nat;
    let ghost wn = sealed_chunk_len(cs);
    let ghost n = body@.len() / wn;
    proof {
        vstd::array::array_len_matches_n(&base);
        assert(base@ =~= ct.take(BASE_NONCE_LEN as int));
        assert(ct =~= base@ + body@);
        assert(Seq::<u8>::empty() + body@ =~= body@);
    }
    let mut reader = match ChunkReader::new(key, base, chunk_size) {
        Ok(rd) => rd,
        Err(e) => return Err(e),
    };
    let mut out: Vec<u8> = Vec::new();
    let fed = reader.feed(body, &mut out);
    let ghost after_feed = out@;
    let ghost pending = reader@.pending;
    proof {
        lemma_split_len(wn, body@.len());
        vstd::arithmetic::mul::lemma_mul_is_commutative(wn as int, n as int);
        // every plaintext that the stream could carry splits as the reader sees it
        assert forall|p: Seq<u8>| #[trigger] decrypts_to(key@, cs, ct, p) implies {
            let np = p.len() / cs;
            let q = p.take((np * cs) as int);
            let m = final_part(cs, p);
            &&& np == n
            &&& p == q + m
            &&& q.len() == n * cs
            &&& seal_full_chunks(key@, base@, 0, cs, q) == body@.take((n * wn) as int)
            &&& seal_chunk(key@, base@, n, true, m) == body@.skip((n * wn) as int)
        } by {
            let np = p.len() / cs;
            let q = p.take((np * cs) as int);
            let m = final_part(cs, p);
            lemma_full_chunks_of_prefix(key@, base@, 0, cs, p);
            vstd::arithmetic::mul::lemma_mul_is_commutative(cs as int, np as int);
            lemma_split_len(cs, p.len());
            assert(p =~= q + m);
            lemma_stream_layout(key@, base@, cs, q, m, np);
            let sf = seal_full_chunks(key@, base@, 0, cs, q);
            let last = seal_chunk(key@, base@, np, true, m);
            assert(body@ =~= sf + last);
            assert(body@.len() == np * wn + (m.len() + TAG_LEN));
            lemma_div_of_parts(wn, np, (m.len() + TAG_LEN) as nat);
            assert(np == n);
            assert(body@.take((n * wn) as int) =~= sf);
            assert(body@.skip((n * wn) as int) =~= last);
        }
    }
    match fed {
        Ok(()) => {},
        Err(e) => return Err(e),
    }
    let fin = reader.finish(&mut out);
    match fin {
        Ok(()) => {},
        Err(e) => return Err(e),
    }
    proof {
        let q = after_feed;
        let m = out@.skip(q.len() as int);
        assert(out@ == q + m);
        assert(pending == body@.skip((n * wn) as int));
        assert(pending.len() == body@.len() - n * wn);
        assert(m.len() < cs);
        lemma_stream_layout(key@, base@, cs, q, m, n);
        assert(body@ =~= body@.take((n * wn) as int) + pending);
        assert(ct =~= encrypted(key@, base@, cs, out@));
        assert(decrypts_to(key@, cs, ct, out@));
    }
    Ok(out)
}

/// Round trip: the stream that `encrypt` produces for `p` under a valid key,
/// base nonce and chunk size is one that `decrypt` accepts, with plaintext
/// `p`; by `decrypt`'s contract it then returns exactly `p`.
pub proof fn lemma_round_trip(key: Seq<u8>, base: Seq<u8>, cs: nat, p: Seq<u8>)
    requires
        key.len() == KEY_LEN,
        base.len() == BASE_NONCE_LEN,
        valid_chunk_size(cs),
        counter_fits(cs, p.len()),
    ensures
        decrypts_to(key, cs, encrypted(key, base, cs, p), p),
{
    let ct = encrypted(key, base, cs, p);
    let n = p.len() / cs;
    let q = p.take((n * cs) as int);
    let m = final_part(cs, p);
    let wn = sealed_chunk_len(cs);
    lemma_full_chunks_of_prefix(key, base, 0, cs, p);
    vstd::arithmetic::mul::lemma_mul_is_commutative(cs as int, n as int);
    lemma_split_len(cs, p.len());
    assert(p =~= q + m);
    lemma_stream_layout(key, base, cs, q, m, n);
    assert(ct.len() - BASE_NONCE_LEN == n * wn + (m.len() + TAG_LEN));
    lemma_div_of_parts(wn, n, (m.len() + TAG_LEN) as nat);
    assert(ct.take(BASE_NONCE_LEN as int) =~= base);
}

/// A stream whose plaintext fills its chunks exactly ends with a last chunk
/// that is a bare tag; without its final byte the stream is no longer well
/// framed, so `decrypt` rejects it with `UnexpectedEndOfStream`.
pub proof fn lemma_truncated_bare_tag_unframed(key: Seq<u8>, base: Seq<u8>, cs: nat, p: Seq<u8>)
    requires
        key.len() == KEY_LEN,
        base.len() == BASE_NONCE_LEN,
        valid_chunk_size(cs),
        p.len() % cs == 0,
    ensures
        !well_framed(cs, (encrypted(key, base, cs, p).len() - 1) as nat),
{
    let n = p.len() / cs;
    let q = p.take((n * cs) as int);
    let m = final_part(cs, p);
    let wn = sealed_chunk_len(cs);
    lemma_full_chunks_of_prefix(key, base, 0, cs, p);
    vstd::arithmetic::mul::lemma_mul_is_commutative(cs as int, n as int);
    lemma_split_len(cs, p.len());
    assert(p =~= q + m);
    lemma_stream_layout(key, base, cs, q, m, n);
    assert(m.len() == 0);
    let len = (encrypted(key, base, cs, p).len() - 1) as nat;
    assert(len - BASE_NONCE_LEN == n * wn + (TAG_LEN - 1));
    lemma_div_of_parts(wn, n, (TAG_LEN - 1) as nat);
}

/// Plaintexts around one chunk: `0` or `cs - 1` bytes make a lone last
/// chunk; `cs` bytes a full chunk and an empty last chunk; `cs + 1` bytes
/// (for `cs > 1`) a full chunk and a last chunk of one byte. Each of them
/// round-trips.
pub proof fn lemma_chunk_boundaries(key: Seq<u8>, base: Seq<u8>, cs: nat, p: Seq<u8>)
    requires
        key.len() == KEY_LEN,
        base.len() == BASE_NONCE_LEN,
        valid_chunk_size(cs),
        p.len() == 0 || p.len() == cs - 1 || p.len() == cs || p.len() == cs + 1,
    ensures
        decrypts_to(key, cs, encrypted(key, base, cs, p), p),
        p.len() < cs ==> chunk_count(cs, p.len()) == 1 && final_part(cs, p) == p,
        p.len() == cs ==> chunk_count(cs, p.len()) == 2 && final_part(cs, p).len() == 0,
        p.len() == cs + 1 && cs > 1 ==> chunk_count(cs, p.len()) == 2 && final_part(cs, p).len() == 1,
{
    if p.len() < cs {
        lemma_div_of_parts(cs, 0, p.len());
        assert(full_part_len(cs, p.len()) == 0) by (nonlinear_arith)
            requires
                full_part_len(cs, p.len()) == cs * (p.len() / cs),
                p.len() / cs == 0,
        {}
        assert(final_part(cs, p) =~= p);
    } else if p.len() == cs {
        lemma_div_of_parts(cs, 1, 0);
        assert(p.len() / cs == 1);
        assert(full_part_len(cs, p.len()) == cs) by (nonlinear_arith)
            requires
                full_part_len(cs, p.len()) == cs * (p.len() / cs),
                p.len() / cs == 1,
        {}
    } else if cs > 1 {
        lemma_div_of_parts(cs, 1, 1);
        assert(p.len() / cs == 1);
        assert(full_part_len(cs, p.len()) == cs) by (nonlinear_arith)
            requires
                full_part_len(cs, p.len()) == cs * (p.len() / cs),
                p.len() / cs == 1,
        {}
    } else {
        lemma_div_of_parts(cs, 2, 0);
    }
    lemma_round_trip(key, base, cs, p);
}

} // verus!
