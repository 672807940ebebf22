//! The nonce sequencer: one nonce per chunk, from the session's base nonce,
//! the chunk's index and whether it is the last chunk.
use crate::cipher::NONCE_LEN;
use vstd::prelude::*;

verus! {

/// Width of the random part of a nonce, which a session picks once.
pub const BASE_NONCE_LEN: usize = 7;

/// `n` as four big-endian bytes.
pub open spec fn be32(n: nat) -> Seq<u8> {
    seq![
        (n / 0x100_0000 % 0x100) as u8,
        (n / 0x1_0000 % 0x100) as u8,
        (n / 0x100 % 0x100) as u8,
        (n % 0x100) as u8,
    ]
}

/// The flag byte that marks the last chunk of a stream.
pub open spec fn last_flag(is_last: bool) -> u8 {
    if is_last {
        1u8
    } else {
        0u8
    }
}

/// The nonce of chunk `index`: the base nonce, the index as a 32-bit
/// big-endian counter, then the last-chunk flag.
pub open spec fn chunk_nonce(base: Seq<u8>, index: nat, is_last: bool) -> Seq<u8> {
    base + be32(index) + seq![last_flag(is_last)]
}

/// Derives the nonce of chunk `counter`.
pub fn derive_nonce(base: &[u8; BASE_NONCE_LEN], counter: u32, is_last: bool) -> (r: Vec<u8>)
    ensures
        r@ == chunk_nonce(base@, counter as nat, is_last),
        r@.len() == NONCE_LEN,
{
    let mut r: Vec<u8> = Vec::new();
    let mut i: usize = 0;
    while i < BASE_NONCE_LEN
        invariant
            i <= BASE_NONCE_LEN,
            base@.len() == BASE_NONCE_LEN,
            r@ == base@.take(i as int),
        decreases BASE_NONCE_LEN - i,
    {
        r.push(base[i]);
        i = i + 1;
        assert(r@ =~= base@.take(i as int));
    }
    r.push((counter / 0x100_0000 % 0x100) as u8);
    r.push((counter / 0x1_0000 % 0x100) as u8);
    r.push((counter / 0x100 % 0x100) as u8);
    r.push((counter % 0x100) as u8);
    r.push(if is_last { 1u8 } else { 0u8 });
    assert(r@ =~= chunk_nonce(base@, counter as nat, is_last));
    r
}

/// Distinct 32-bit counters have distinct big-endian encodings.
proof fn lemma_be32_injective(x: u32, y: u32)
    requires
        be32(x as nat) == be32(y as nat),
    ensures
        x == y,
{
    assert(be32(x as nat)[0] == be32(y as nat)[0]);
    assert(be32(x as nat)[1] == be32(y as nat)[1]);
    assert(be32(x as nat)[2] == be32(y as nat)[2]);
    assert(be32(x as nat)[3] == be32(y as nat)[3]);
    let a0 = x / 0x100_0000;
    let b0 = y / 0x100_0000;
    let a1 = x / 0x1_0000 % 0x100;
    let b1 = y / 0x1_0000 % 0x100;
    let a2 = x / 0x100 % 0x100;
    let b2 = y / 0x100 % 0x100;
    let a3 = x % 0x100;
    let b3 = y % 0x100;
    assert(a0 == b0 && a1 == b1 && a2 == b2 && a3 == b3);
    assert(x == y) by (bit_vector)
        requires
            x / 0x100_0000 == y / 0x100_0000,
            x / 0x1_0000 % 0x100 == y / 0x1_0000 % 0x100,
            x / 0x100 % 0x100 == y / 0x100 % 0x100,
            x % 0x100 == y % 0x100,
    ;
}

/// Within one session no two chunks share a nonce: chunks with different
/// indices, or one last and one not, get different nonces.
pub proof fn lemma_nonces_distinct(base: Seq<u8>, i: u32, last_i: bool, j: u32, last_j: bool)
    requires
        i != j || last_i != last_j,
    ensures
        chunk_nonce(base, i as nat, last_i) != chunk_nonce(base, j as nat, last_j),
{
    let ni = chunk_nonce(base, i as nat, last_i);
    let nj = chunk_nonce(base, j as nat, last_j);
    let k = base.len() as int;
    if ni == nj {
        if last_i != last_j {
            assert(ni[k + 4] == last_flag(last_i));
            assert(nj[k + 4] == last_flag(last_j));
        } else {
            assert(be32(i as nat) =~= ni.subrange(k, k + 4));
            assert(be32(j as nat) =~= nj.subrange(k, k + 4));
            lemma_be32_injective(i, j);
        }
    }
}

} // verus!
