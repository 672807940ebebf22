use chacha20poly1305::aead::{Aead, KeyInit};
use chacha20poly1305::{ChaCha20Poly1305, Key, Nonce};
use rcli::error::StreamError;
use rcli::nonce::derive_nonce;
use rcli::reader::ChunkReader;
use rcli::session::{decrypt, encrypt};
use rcli::writer::ChunkWriter;

const KEY: &[u8; 32] = b"my very super super secret key!!";
const BASE: [u8; 7] = [9, 8, 7, 6, 5, 4, 3];

fn sample(len: usize) -> Vec<u8> {
    (0..len).map(|i| (i * 31 % 251) as u8).collect()
}

#[test]
fn text_decrypt_encrypt() {
    let key = b"my very super super secret key!!";
    println!("key: {:?}", "my very super super secret key!!".len());
    let plaintext = b"hello world!";
    let ciphertext = encrypt(key, [0u8; 7], 112, plaintext).unwrap();
    let decrypted = decrypt(key, 112, &ciphertext).unwrap();
    println!("decrypted: {:?}", decrypted);
    println!("plaintext: {:?}", plaintext);
    println!("ciphertext: {:?}", ciphertext);
    assert_eq!(decrypted, plaintext);
}

#[test]
fn nonce_layout() {
    let n = derive_nonce(&[1, 2, 3, 4, 5, 6, 7], 0x0102_0304, true);
    assert_eq!(n, vec![1, 2, 3, 4, 5, 6, 7, 1, 2, 3, 4, 1]);
    let n = derive_nonce(&[0; 7], 0xffff_fffe, false);
    assert_eq!(n, vec![0, 0, 0, 0, 0, 0, 0, 0xff, 0xff, 0xff, 0xfe, 0]);
}

#[test]
fn stream_chunks_are_chacha20poly1305_seals() {
    let ct = encrypt(KEY, BASE, 4, b"ABCDEFGHI").unwrap();
    let cipher = ChaCha20Poly1305::new(Key::from_slice(KEY));
    let mut expected = BASE.to_vec();
    let chunks: [(&[u8], u32, u8); 3] = [(b"ABCD", 0, 0), (b"EFGH", 1, 0), (b"I", 2, 1)];
    for (chunk, index, last) in chunks {
        let mut nonce = BASE.to_vec();
        nonce.extend_from_slice(&index.to_be_bytes());
        nonce.push(last);
        expected.extend(cipher.encrypt(Nonce::from_slice(&nonce), chunk).unwrap());
    }
    assert_eq!(ct, expected);
}

#[test]
fn round_trip_many_lengths() {
    for cs in [1usize, 3, 16, 112] {
        for len in [0usize, 1, 2, 15, 16, 17, 100, 224, 225, 1000] {
            let p = sample(len);
            let ct = encrypt(KEY, BASE, cs, &p).unwrap();
            assert_eq!(decrypt(KEY, cs, &ct).unwrap(), p, "cs {} len {}", cs, len);
        }
    }
}

#[test]
fn round_trip_chunk_boundaries() {
    let cs = 16usize;
    for len in [0, cs - 1, cs, cs + 1] {
        let p = sample(len);
        let ct = encrypt(KEY, BASE, cs, &p).unwrap();
        let full = len / cs;
        assert_eq!(ct.len(), 7 + full * (cs + 16) + (len % cs) + 16);
        assert_eq!(decrypt(KEY, cs, &ct).unwrap(), p);
    }
}

#[test]
fn single_final_chunk_scenario() {
    let p = b"hello world!";
    let ct = encrypt(KEY, BASE, 16, p).unwrap();
    assert_eq!(ct.len(), 7 + 12 + 16);
    assert_eq!(&ct[..7], &BASE);
    assert_eq!(decrypt(KEY, 16, &ct).unwrap(), p.to_vec());
}

#[test]
fn two_full_chunks_and_final_scenario() {
    let p = b"ABCDEFGHI";
    let ct = encrypt(KEY, BASE, 4, p).unwrap();
    assert_eq!(ct.len(), 7 + 2 * (4 + 16) + (1 + 16));
    let mut reader = ChunkReader::new(KEY, BASE, 4).unwrap();
    let mut out = Vec::new();
    let body = &ct[7..];
    reader.feed(&body[..20], &mut out).unwrap();
    assert_eq!(out, b"ABCD".to_vec());
    reader.feed(&body[20..39], &mut out).unwrap();
    assert_eq!(out, b"ABCD".to_vec());
    reader.feed(&body[39..], &mut out).unwrap();
    assert_eq!(out, b"ABCDEFGH".to_vec());
    reader.finish(&mut out).unwrap();
    assert_eq!(out, b"ABCDEFGHI".to_vec());
}

#[test]
fn tampering_any_byte_fails_authentication() {
    let p = sample(40);
    let ct = encrypt(KEY, BASE, 16, &p).unwrap();
    for i in 0..ct.len() {
        let mut bad = ct.clone();
        bad[i] ^= 0x01;
        assert_eq!(decrypt(KEY, 16, &bad), Err(StreamError::AuthenticationFailed), "byte {}", i);
    }
}

#[test]
fn wrong_key_fails_authentication() {
    let p = b"secret message".to_vec();
    let ct = encrypt(KEY, BASE, 8, &p).unwrap();
    let mut other = *KEY;
    for i in 0..32 {
        other[i] ^= 0x80;
        assert_eq!(decrypt(&other, 8, &ct), Err(StreamError::AuthenticationFailed));
        other[i] ^= 0x80;
    }
}

#[test]
fn truncated_stream_is_rejected() {
    for len in [0usize, 5, 16, 31, 32, 33] {
        let p = sample(len);
        let ct = encrypt(KEY, BASE, 16, &p).unwrap();
        let r = decrypt(KEY, 16, &ct[..ct.len() - 1]);
        assert!(
            r == Err(StreamError::UnexpectedEndOfStream) || r == Err(StreamError::AuthenticationFailed),
            "len {}: {:?}",
            len,
            r
        );
    }
    let ct = encrypt(KEY, BASE, 16, &sample(32)).unwrap();
    assert_eq!(decrypt(KEY, 16, &ct[..ct.len() - 1]), Err(StreamError::UnexpectedEndOfStream));
}

#[test]
fn dropping_the_final_chunk_is_rejected() {
    let ct = encrypt(KEY, BASE, 4, b"ABCDEFGH").unwrap();
    let without_last = &ct[..ct.len() - 16];
    assert_eq!(decrypt(KEY, 4, without_last), Err(StreamError::UnexpectedEndOfStream));
}

#[test]
fn swapping_chunks_is_rejected() {
    let ct = encrypt(KEY, BASE, 4, b"ABCDEFGHI").unwrap();
    let mut swapped = ct[..7].to_vec();
    swapped.extend_from_slice(&ct[27..47]);
    swapped.extend_from_slice(&ct[7..27]);
    swapped.extend_from_slice(&ct[47..]);
    assert_eq!(decrypt(KEY, 4, &swapped), Err(StreamError::AuthenticationFailed));
}

#[test]
fn streaming_writer_buffers_at_most_one_chunk() {
    let cs = 64usize;
    let p = sample(1 << 20);
    let mut writer = ChunkWriter::new(KEY, BASE, cs).unwrap();
    let mut ct = BASE.to_vec();
    let mut pending_out = Vec::new();
    for piece in p.chunks(1000) {
        writer.write(piece, &mut pending_out).unwrap();
        assert!(writer.buffered_len() < cs);
        assert_eq!(pending_out.len() % (cs + 16), 0);
        ct.extend_from_slice(&pending_out);
        pending_out.clear();
    }
    writer.finish(&mut ct).unwrap();
    assert_eq!(ct, encrypt(KEY, BASE, cs, &p).unwrap());
    let mut reader = ChunkReader::new(KEY, BASE, cs).unwrap();
    let mut out = Vec::new();
    for piece in ct[7..].chunks(777) {
        reader.feed(piece, &mut out).unwrap();
        assert!(reader.buffered_len() < cs + 16);
    }
    reader.finish(&mut out).unwrap();
    assert_eq!(out, p);
}

#[test]
fn bad_key_length_is_rejected() {
    assert!(matches!(ChunkWriter::new(&KEY[..31], BASE, 16), Err(StreamError::KeyFormatError)));
    assert!(matches!(ChunkReader::new(&[0u8; 33], BASE, 16), Err(StreamError::KeyFormatError)));
    assert_eq!(encrypt(&KEY[..31], BASE, 16, b"x"), Err(StreamError::KeyFormatError));
    assert_eq!(decrypt(&KEY[..31], 16, &[0u8; 40]), Err(StreamError::KeyFormatError));
}

#[test]
fn bad_chunk_size_is_rejected() {
    assert_eq!(encrypt(KEY, BASE, 0, b"x"), Err(StreamError::InvalidChunkSize));
    assert_eq!(decrypt(KEY, 0, &[0u8; 40]), Err(StreamError::InvalidChunkSize));
    assert!(matches!(ChunkWriter::new(KEY, BASE, (1 << 30) + 1), Err(StreamError::InvalidChunkSize)));
}

#[test]
fn short_ciphertext_is_unexpected_end() {
    assert_eq!(decrypt(KEY, 16, &[]), Err(StreamError::UnexpectedEndOfStream));
    assert_eq!(decrypt(KEY, 16, &BASE), Err(StreamError::UnexpectedEndOfStream));
    assert_eq!(decrypt(KEY, 16, &[0u8; 7 + 15]), Err(StreamError::UnexpectedEndOfStream));
}

#[test]
fn closed_sessions_refuse_work() {
    let mut writer = ChunkWriter::new(KEY, BASE, 16).unwrap();
    let mut out = Vec::new();
    writer.finish(&mut out).unwrap();
    assert_eq!(writer.write(b"more", &mut out), Err(StreamError::SessionClosed));
    assert_eq!(writer.finish(&mut out), Err(StreamError::SessionClosed));
    let mut reader = ChunkReader::new(KEY, BASE, 16).unwrap();
    assert_eq!(reader.finish(&mut out), Err(StreamError::UnexpectedEndOfStream));
    assert_eq!(reader.feed(b"x", &mut out), Err(StreamError::SessionClosed));
}

#[test]
fn failed_chunk_emits_nothing() {
    let ct = encrypt(KEY, BASE, 4, b"ABCDEFGHI").unwrap();
    let mut bad = ct[7..].to_vec();
    bad[25] ^= 0xff;
    let mut reader = ChunkReader::new(KEY, BASE, 4).unwrap();
    let mut out = Vec::new();
    assert_eq!(reader.feed(&bad, &mut out), Err(StreamError::AuthenticationFailed));
    assert!(out.is_empty());
    assert_eq!(reader.feed(b"", &mut out), Err(StreamError::SessionClosed));
}
