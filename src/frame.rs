//! The wire format of a chunked stream, as spec functions, and the lemmas
//! that relate it to how the writer and the reader walk through it.
//!
//! A stream is the base nonce followed by the sealed chunks in order. Each
//! full chunk holds `chunk_size` bytes of plaintext; the last chunk holds the
//! remainder, possibly none, and is sealed under a nonce whose flag marks it
//! as last. No length or index is written: both follow from the position.
use crate::cipher::{sealed, TAG_LEN};
use crate::nonce::chunk_nonce;
use vstd::arithmetic::div_mod::{
    lemma_fundamental_div_mod, lemma_fundamental_div_mod_converse, lemma_mod_bound,
};
use vstd::arithmetic::mul::lemma_mul_is_distributive_add;
use vstd::prelude::*;

verus! {

/// Largest chunk size a session accepts.
pub const MAX_CHUNK_SIZE: usize = 0x4000_0000;

/// A chunk size that a session accepts.
pub open spec fn valid_chunk_size(cs: nat) -> bool {
    0 < cs <= MAX_CHUNK_SIZE
}

/// Chunk `index` sealed under its own nonce.
pub open spec fn seal_chunk(key: Seq<u8>, base: Seq<u8>, index: nat, is_last: bool, pt: Seq<u8>) -> Seq<u8> {
    sealed(key, chunk_nonce(base, index, is_last), pt)
}

/// The full chunks of `data`, numbered from `first`, each sealed as a
/// chunk that is not the last; a remainder shorter than `cs` is left out.
pub open spec fn seal_full_chunks(key: Seq<u8>, base: Seq<u8>, first: nat, cs: nat, data: Seq<u8>) -> Seq<u8>
    decreases data.len(),
{
    if cs == 0 || data.len() < cs {
        Seq::empty()
    } else {
        seal_chunk(key, base, first, false, data.take(cs as int)) + seal_full_chunks(
            key,
            base,
            first + 1,
            cs,
            data.skip(cs as int),
        )
    }
}

/// The bytes of `data` that fill whole chunks of `cs` bytes.
pub open spec fn full_part_len(cs: nat, len: nat) -> nat {
    cs * (len / cs)
}

/// What is left of `data` after its full chunks: the last chunk's plaintext.
pub open spec fn final_part(cs: nat, data: Seq<u8>) -> Seq<u8> {
    data.skip(full_part_len(cs, data.len()) as int)
}

/// The sealed chunks of plaintext `p`: its full chunks, then the last chunk.
pub open spec fn sealed_chunks(key: Seq<u8>, base: Seq<u8>, cs: nat, p: Seq<u8>) -> Seq<u8> {
    seal_full_chunks(key, base, 0, cs, p) + seal_chunk(key, base, p.len() / cs, true, final_part(cs, p))
}

/// The whole ciphertext stream of plaintext `p`: the base nonce, then the
/// sealed chunks.
pub open spec fn encrypted(key: Seq<u8>, base: Seq<u8>, cs: nat, p: Seq<u8>) -> Seq<u8> {
    base + sealed_chunks(key, base, cs, p)
}

/// Number of chunks in the stream of a plaintext of `len` bytes.
pub open spec fn chunk_count(cs: nat, len: nat) -> nat {
    len / cs + 1
}

/// Every chunk of a plaintext of `len` bytes gets an index that fits the
/// 32-bit counter.
pub open spec fn counter_fits(cs: nat, len: nat) -> bool {
    len / cs <= u32::MAX
}

/// `len` split as `q` whole chunks of `cs` bytes and a remainder.
pub proof fn lemma_split_len(cs: nat, len: nat)
    requires
        cs > 0,
    ensures
        full_part_len(cs, len) + len % cs == len,
        len % cs < cs,
        full_part_len(cs, len) <= len,
{
    lemma_fundamental_div_mod(len as int, cs as int);
    lemma_mod_bound(len as int, cs as int);
}

/// Quotient and remainder of `q * cs + r` for `r < cs`.
pub proof fn lemma_div_of_parts(cs: nat, q: nat, r: nat)
    requires
        cs > 0,
        r < cs,
    ensures
        (q * cs + r) / cs == q,
        (q * cs + r) % cs == r,
{
    lemma_fundamental_div_mod_converse((q * cs + r) as int, cs as int, q as int, r as int);
}

/// Sealing the full chunks of `a + b`, where `a` holds exactly `k` chunks,
/// seals those of `a` and then those of `b`, numbered on from `first + k`.
pub proof fn lemma_full_chunks_append(
    key: Seq<u8>,
    base: Seq<u8>,
    first: nat,
    cs: nat,
    a: Seq<u8>,
    b: Seq<u8>,
    k: nat,
)
    requires
        cs > 0,
        a.len() == k * cs,
    ensures
        seal_full_chunks(key, base, first, cs, a + b) == seal_full_chunks(key, base, first, cs, a)
            + seal_full_chunks(key, base, first + k, cs, b),
    decreases k,
{
    if k == 0 {
        assert(a.len() == 0) by (nonlinear_arith)
            requires
                a.len() == k * cs,
                k == 0,
        {}
        assert(a + b =~= b);
        assert(seal_full_chunks(key, base, first, cs, a) =~= Seq::<u8>::empty());
        assert(seal_full_chunks(key, base, first, cs, a + b) =~= seal_full_chunks(key, base, first, cs, a)
            + seal_full_chunks(key, base, first + k, cs, b));
    } else {
        assert(a.len() >= cs) by (nonlinear_arith)
            requires
                a.len() == k * cs,
                k > 0,
        {}
        let rest = a.skip(cs as int);
        assert(rest.len() == (k - 1) * cs) by (nonlinear_arith)
            requires
                a.len() == k * cs,
                k > 0,
                rest.len() == a.len() - cs,
        {}
        lemma_full_chunks_append(key, base, first + 1, cs, rest, b, (k - 1) as nat);
        let head = seal_chunk(key, base, first, false, a.take(cs as int));
        assert((a + b).take(cs as int) =~= a.take(cs as int));
        assert((a + b).skip(cs as int) =~= rest + b);
        assert(seal_full_chunks(key, base, first, cs, a + b) == head + seal_full_chunks(
            key,
            base,
            first + 1,
            cs,
            rest + b,
        ));
        assert(seal_full_chunks(key, base, first, cs, a) == head + seal_full_chunks(
            key,
            base,
            first + 1,
            cs,
            rest,
        ));
        assert(first + 1 + (k - 1) == first + k);
        assert(seal_full_chunks(key, base, first, cs, a + b) =~= seal_full_chunks(key, base, first, cs, a)
            + seal_full_chunks(key, base, first + k, cs, b));
    }
}

/// The full chunks of `x` are the full chunks of its prefix of whole chunks.
pub proof fn lemma_full_chunks_of_prefix(key: Seq<u8>, base: Seq<u8>, first: nat, cs: nat, x: Seq<u8>)
    requires
        cs > 0,
    ensures
        x =~= x.take(full_part_len(cs, x.len()) as int) + final_part(cs, x),
        final_part(cs, x).len() < cs,
        seal_full_chunks(key, base, first, cs, x) == seal_full_chunks(
            key,
            base,
            first,
            cs,
            x.take(full_part_len(cs, x.len()) as int),
        ),
{
    lemma_split_len(cs, x.len());
    let f = full_part_len(cs, x.len());
    let a = x.take(f as int);
    let t = final_part(cs, x);
    assert(x =~= a + t);
    assert(a.len() == (x.len() / cs) * cs) by {
        vstd::arithmetic::mul::lemma_mul_is_commutative(cs as int, (x.len() / cs) as int);
    }
    lemma_full_chunks_append(key, base, first, cs, a, t, x.len() / cs);
    assert(seal_full_chunks(key, base, first + x.len() / cs, cs, t) =~= Seq::<u8>::empty());
    assert(seal_full_chunks(key, base, first, cs, a) + Seq::<u8>::empty() =~= seal_full_chunks(
        key,
        base,
        first,
        cs,
        a,
    ));
}

/// One byte more for a stream whose last part is `final_part(cs, x)`: it
/// either grows that part or completes a chunk, which is then sealed.
pub proof fn lemma_push_byte(key: Seq<u8>, base: Seq<u8>, first: nat, cs: nat, x: Seq<u8>, d: u8)
    requires
        cs > 0,
    ensures
        ({
            let x2 = x.push(d);
            let t = final_part(cs, x);
            if t.len() + 1 < cs {
                &&& final_part(cs, x2) == t.push(d)
                &&& x2.len() / cs == x.len() / cs
                &&& seal_full_chunks(key, base, first, cs, x2) == seal_full_chunks(key, base, first, cs, x)
            } else {
                &&& final_part(cs, x2) == Seq::<u8>::empty()
                &&& x2.len() / cs == x.len() / cs + 1
                &&& seal_full_chunks(key, base, first, cs, x2) == seal_full_chunks(key, base, first, cs, x)
                    + seal_chunk(key, base, first + x.len() / cs, false, t.push(d))
            }
        }),
{
    let x2 = x.push(d);
    let k = x.len() / cs;
    let f = full_part_len(cs, x.len());
    let a = x.take(f as int);
    let t = final_part(cs, x);
    lemma_full_chunks_of_prefix(key, base, first, cs, x);
    lemma_split_len(cs, x.len());
    assert(a.len() == k * cs) by {
        vstd::arithmetic::mul::lemma_mul_is_commutative(cs as int, k as int);
    }
    assert(x2 =~= a + t.push(d));
    lemma_full_chunks_append(key, base, first, cs, a, t, k);
    lemma_full_chunks_append(key, base, first, cs, a, t.push(d), k);
    assert(seal_full_chunks(key, base, first + k, cs, t) =~= Seq::<u8>::empty());
    assert(seal_full_chunks(key, base, first, cs, x) =~= seal_full_chunks(key, base, first, cs, a));
    if t.len() + 1 < cs {
        lemma_div_of_parts(cs, k, (t.len() + 1) as nat);
        assert(x2.len() == k * cs + (t.len() + 1));
        assert(full_part_len(cs, x2.len()) == f) by {
            vstd::arithmetic::mul::lemma_mul_is_commutative(cs as int, k as int);
        }
        assert(final_part(cs, x2) =~= t.push(d));
        assert(seal_full_chunks(key, base, first + k, cs, t.push(d)) =~= Seq::<u8>::empty());
        assert(seal_full_chunks(key, base, first, cs, x2) =~= seal_full_chunks(key, base, first, cs, x));
    } else {
        assert(t.len() + 1 == cs);
        lemma_div_of_parts(cs, k + 1, 0);
        assert(x2.len() == (k + 1) * cs) by {
            lemma_mul_is_distributive_add(cs as int, k as int, 1);
            vstd::arithmetic::mul::lemma_mul_is_commutative(cs as int, k as int);
            vstd::arithmetic::mul::lemma_mul_is_commutative(cs as int, (k + 1) as int);
        }
        assert(full_part_len(cs, x2.len()) == x2.len()) by {
            vstd::arithmetic::mul::lemma_mul_is_commutative(cs as int, (k + 1) as int);
        }
        assert(final_part(cs, x2) =~= Seq::<u8>::empty());
        let td = t.push(d);
        assert(td.take(cs as int) =~= td);
        assert(td.skip(cs as int) =~= Seq::<u8>::empty());
        assert(seal_full_chunks(key, base, first + k + 1, cs, td.skip(cs as int)) =~= Seq::<u8>::empty());
        assert(seal_full_chunks(key, base, first + k, cs, td) =~= seal_chunk(key, base, first + k, false, td));
        assert(seal_full_chunks(key, base, first, cs, x2) =~= seal_full_chunks(key, base, first, cs, x)
            + seal_chunk(key, base, first + k, false, td));
    }
}

/// Bytes of one sealed full chunk.
pub open spec fn sealed_chunk_len(cs: nat) -> nat {
    cs + TAG_LEN as nat
}

/// `k` full chunks seal to `k` sealed chunks of `cs + TAG_LEN` bytes each.
pub proof fn lemma_full_chunks_len(key: Seq<u8>, base: Seq<u8>, first: nat, cs: nat, x: Seq<u8>, k: nat)
    requires
        cs > 0,
        x.len() == k * cs,
    ensures
        seal_full_chunks(key, base, first, cs, x).len() == k * sealed_chunk_len(cs),
    decreases k,
{
    if k == 0 {
        assert(x.len() == 0 && k * sealed_chunk_len(cs) == 0) by (nonlinear_arith)
            requires
                x.len() == k * cs,
                k == 0,
        {}
    } else {
        assert(x.len() >= cs && x.skip(cs as int).len() == (k - 1) * cs) by (nonlinear_arith)
            requires
                x.len() == k * cs,
                k > 0,
                x.skip(cs as int).len() == x.len() - cs || x.len() < cs,
        {}
        lemma_full_chunks_len(key, base, first + 1, cs, x.skip(cs as int), (k - 1) as nat);
        assert(k * sealed_chunk_len(cs) == sealed_chunk_len(cs) + (k - 1) * sealed_chunk_len(cs)) by (nonlinear_arith)
            requires
                k > 0,
        {}
    }
}

/// Sealed chunk `j` of the full chunks of `q` sits at bytes
/// `j * (cs + TAG_LEN) .. (j + 1) * (cs + TAG_LEN)`.
pub proof fn lemma_full_chunk_at(key: Seq<u8>, base: Seq<u8>, first: nat, cs: nat, q: Seq<u8>, n: nat, j: nat)
    requires
        cs > 0,
        q.len() == n * cs,
        j < n,
    ensures
        ({
            let w = sealed_chunk_len(cs);
            let c = seal_full_chunks(key, base, first, cs, q);
            &&& c.len() == n * w
            &&& (j + 1) * w <= n * w
            &&& c.subrange((j * w) as int, ((j + 1) * w) as int) == seal_chunk(
                key,
                base,
                first + j,
                false,
                q.subrange((j * cs) as int, ((j + 1) * cs) as int),
            )
        }),
{
    let w = sealed_chunk_len(cs);
    let jc: int = (j * cs) as int;
    let jw: int = (j * w) as int;
    assert(jc + cs <= n * cs && (j + 1) * w <= n * w && (j + 1) * w == jw + w && (j + 1) * cs == jc + cs && jc >= 0) by (nonlinear_arith)
        requires
            j < n,
            cs > 0,
            w == cs + 16,
            jc == j * cs,
            jw == j * w,
    {}
    let a = q.take(jc);
    let b = q.skip(jc);
    assert(q =~= a + b);
    assert(b.len() >= cs);
    let c = seal_full_chunks(key, base, first, cs, q);
    let front = seal_full_chunks(key, base, first, cs, a);
    let tail = seal_full_chunks(key, base, first + j, cs, b);
    assert(c == front + tail) by {
        lemma_full_chunks_append(key, base, first, cs, a, b, j);
    }
    assert(front.len() == jw) by {
        lemma_full_chunks_len(key, base, first, cs, a, j);
    }
    assert(c.len() == n * w) by {
        lemma_full_chunks_len(key, base, first, cs, q, n);
    }
    let head = seal_chunk(key, base, first + j, false, b.take(cs as int));
    assert(tail.subrange(0, w as int) == head) by {
        let rest = seal_full_chunks(key, base, first + j + 1, cs, b.skip(cs as int));
        assert(tail == head + rest);
        assert(head.len() == w);
        assert(tail.subrange(0, w as int) =~= head);
    }
    assert(b.take(cs as int) =~= q.subrange(jc, jc + cs));
    assert(c.subrange(jw, jw + w) =~= tail.subrange(0, w as int));
}

/// Sealing one more full chunk `m` after `k` full chunks.
pub proof fn lemma_full_chunks_push_chunk(
    key: Seq<u8>,
    base: Seq<u8>,
    first: nat,
    cs: nat,
    got: Seq<u8>,
    m: Seq<u8>,
    k: nat,
)
    requires
        cs > 0,
        got.len() == k * cs,
        m.len() == cs,
    ensures
        seal_full_chunks(key, base, first, cs, got + m) == seal_full_chunks(key, base, first, cs, got)
            + seal_chunk(key, base, first + k, false, m),
        (got + m).len() == (k + 1) * cs,
{
    lemma_full_chunks_append(key, base, first, cs, got, m, k);
    assert(m.take(cs as int) =~= m);
    assert(m.skip(cs as int) =~= Seq::<u8>::empty());
    assert(seal_full_chunks(key, base, first + k + 1, cs, m.skip(cs as int)) =~= Seq::<u8>::empty());
    assert(seal_full_chunks(key, base, first + k, cs, m) =~= seal_chunk(key, base, first + k, false, m));
    assert((got + m).len() == (k + 1) * cs) by (nonlinear_arith)
        requires
            (got + m).len() == got.len() + m.len(),
            got.len() == k * cs,
            m.len() == cs,
    {}
}

/// When the full chunks of `q` seal to `body`, the `k`-th stretch of
/// `cs + TAG_LEN` bytes of `body` is chunk `k` of `q`, sealed.
pub proof fn lemma_body_chunk(
    key: Seq<u8>,
    base: Seq<u8>,
    first: nat,
    cs: nat,
    q: Seq<u8>,
    n: nat,
    k: nat,
    body: Seq<u8>,
    prefix: Seq<u8>,
)
    requires
        cs > 0,
        q.len() == n * cs,
        seal_full_chunks(key, base, first, cs, q) == body,
        prefix.len() == (k + 1) * sealed_chunk_len(cs),
        prefix.len() <= body.len(),
        prefix == body.take(prefix.len() as int),
    ensures
        k < n,
        q.subrange((k * cs) as int, ((k + 1) * cs) as int).len() == cs,
        prefix.skip((k * sealed_chunk_len(cs)) as int) == seal_chunk(
            key,
            base,
            first + k,
            false,
            q.subrange((k * cs) as int, ((k + 1) * cs) as int),
        ),
{
    let w = sealed_chunk_len(cs);
    lemma_full_chunks_len(key, base, first, cs, q, n);
    assert(k < n) by (nonlinear_arith)
        requires
            (k + 1) * w <= n * w,
            w > 0,
    {}
    lemma_full_chunk_at(key, base, first, cs, q, n, k);
    assert(((k + 1) * cs) - (k * cs) == cs && (k + 1) * w == k * w + w) by (nonlinear_arith) {}
    assert(prefix.skip((k * w) as int) =~= body.subrange((k * w) as int, ((k + 1) * w) as int));
}

/// A plaintext made of `n` full chunks `q` and a shorter remainder `m`
/// streams as the sealed full chunks of `q`, then `m` sealed as chunk `n`,
/// the last.
pub proof fn lemma_stream_layout(key: Seq<u8>, base: Seq<u8>, cs: nat, q: Seq<u8>, m: Seq<u8>, n: nat)
    requires
        cs > 0,
        q.len() == n * cs,
        m.len() < cs,
    ensures
        (q + m).len() / cs == n,
        final_part(cs, q + m) == m,
        seal_full_chunks(key, base, 0, cs, q).len() == n * sealed_chunk_len(cs),
        seal_chunk(key, base, n, true, m).len() == m.len() + TAG_LEN,
        encrypted(key, base, cs, q + m) == base + seal_full_chunks(key, base, 0, cs, q) + seal_chunk(
            key,
            base,
            n,
            true,
            m,
        ),
{
    let p = q + m;
    lemma_div_of_parts(cs, n, m.len());
    assert(full_part_len(cs, p.len()) == q.len()) by {
        vstd::arithmetic::mul::lemma_mul_is_commutative(cs as int, n as int);
    }
    assert(final_part(cs, p) =~= m);
    lemma_full_chunks_append(key, base, 0, cs, q, m, n);
    assert(seal_full_chunks(key, base, n, cs, m) =~= Seq::<u8>::empty());
    assert(seal_full_chunks(key, base, 0, cs, p) =~= seal_full_chunks(key, base, 0, cs, q));
    lemma_full_chunks_len(key, base, 0, cs, q, n);
    assert(encrypted(key, base, cs, p) =~= base + seal_full_chunks(key, base, 0, cs, q) + seal_chunk(
        key,
        base,
        n,
        true,
        m,
    ));
}

} // verus!
