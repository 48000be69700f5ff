//! The ciphers of the pairing exchange: SHA-256, and AES-128 block by block.
use aes::cipher::generic_array::GenericArray;
use aes::cipher::{BlockDecrypt, BlockEncrypt, KeyInit};
use aes::Aes128;
use sha2::{Digest, Sha256};

use vstd::prelude::*;
use vstd::string::*;
use vstd::utf8::encode_utf8;

use crate::bytes::push_slice;
use crate::error::{is_protocol, protocol2, Error};

verus! {

/// The SHA-256 hash of a byte string.
pub uninterp spec fn sha256_of(data: Seq<u8>) -> Seq<u8>;

/// What AES-128 makes of a block under a key.
pub uninterp spec fn aes128_encrypted(key: Seq<u8>, block: Seq<u8>) -> Seq<u8>;

/// What AES-128 makes of a block under a key when it decrypts.
pub uninterp spec fn aes128_decrypted(key: Seq<u8>, block: Seq<u8>) -> Seq<u8>;

/// Hashes a byte string by `sha2::Sha256::digest`. The hash is named, not described.
#[verifier::external_body]
fn sha256_digest(data: &[u8]) -> (r: [u8; 32])
    ensures
        r@ == sha256_of(data@),
{
    Sha256::digest(data).into()
}

/// Encrypts one block by `aes::Aes128::encrypt_block`. The cipher block is named, not described;
/// decrypting it under the same key gives the block back.
#[verifier::external_body]
fn encrypt_block(key: &[u8; 16], block: &[u8; 16]) -> (r: [u8; 16])
    ensures
        r@ == aes128_encrypted(key@, block@),
        aes128_decrypted(key@, r@) == block@,
{
    let cipher = Aes128::new(GenericArray::from_slice(key));
    let mut ga = GenericArray::clone_from_slice(block);
    cipher.encrypt_block(&mut ga);
    ga.into()
}

/// Decrypts one block by `aes::Aes128::decrypt_block`. The result is named, not described;
/// encrypting it under the same key gives the block back.
#[verifier::external_body]
fn decrypt_block(key: &[u8; 16], block: &[u8; 16]) -> (r: [u8; 16])
    ensures
        r@ == aes128_decrypted(key@, block@),
        aes128_encrypted(key@, r@) == block@,
{
    let cipher = Aes128::new(GenericArray::from_slice(key));
    let mut ga = GenericArray::clone_from_slice(block);
    cipher.decrypt_block(&mut ga);
    ga.into()
}

/// Draws bytes from the operating system by `getrandom::getrandom`. Which bytes come, and
/// whether it fails, is not stated; the error is the text of the outside error.
#[verifier::external_body]
fn draw<const N: usize>() -> (r: Result<[u8; N], String>) {
    let mut b = [0u8; N];
    match getrandom::getrandom(&mut b) {
        Ok(()) => Ok(b),
        Err(e) => Err(e.to_string()),
    }
}

/// `parts` in a row.
pub open spec fn concatenated(parts: Seq<&[u8]>, n: nat) -> Seq<u8>
    decreases n,
{
    if n == 0 {
        Seq::empty()
    } else {
        concatenated(parts, (n - 1) as nat) + parts[n - 1]@
    }
}

/// Block `i` of `data`, with zeros past its end.
pub open spec fn block_of(data: Seq<u8>, i: int) -> Seq<u8> {
    Seq::new(
        16,
        |j: int|
            if 16 * i + j < data.len() {
                data[16 * i + j]
            } else {
                0u8
            },
    )
}

/// The number of blocks that `data` takes.
pub open spec fn block_count(data: Seq<u8>) -> nat {
    (data.len() + 15) / 16
}

/// `data` with zeros up to the end of its last block.
pub open spec fn zero_padded(data: Seq<u8>) -> Seq<u8> {
    Seq::new(
        16 * block_count(data),
        |i: int|
            if i < data.len() {
                data[i]
            } else {
                0u8
            },
    )
}

/// The first `n` blocks of `data`, encrypted one by one.
pub open spec fn ecb_encrypted(key: Seq<u8>, data: Seq<u8>, n: nat) -> Seq<u8>
    decreases n,
{
    if n == 0 {
        Seq::empty()
    } else {
        ecb_encrypted(key, data, (n - 1) as nat) + aes128_encrypted(key, block_of(data, n - 1))
    }
}

/// The first `n` blocks of `data`, decrypted one by one.
pub open spec fn ecb_decrypted(key: Seq<u8>, data: Seq<u8>, n: nat) -> Seq<u8>
    decreases n,
{
    if n == 0 {
        Seq::empty()
    } else {
        ecb_decrypted(key, data, (n - 1) as nat) + aes128_decrypted(key, block_of(data, n - 1))
    }
}

/// Only the first `n` blocks count.
proof fn lemma_ecb_same(key: Seq<u8>, a: Seq<u8>, b: Seq<u8>, n: nat)
    requires
        forall|i: int| 0 <= i < n ==> #[trigger] block_of(a, i) == block_of(b, i),
    ensures
        ecb_encrypted(key, a, n) == ecb_encrypted(key, b, n),
        ecb_decrypted(key, a, n) == ecb_decrypted(key, b, n),
    decreases n,
{
    if n > 0 {
        lemma_ecb_same(key, a, b, (n - 1) as nat);
        assert(block_of(a, n - 1) == block_of(b, n - 1));
    }
}

/// SHA-256 of `parts` in a row.
pub fn sha256(parts: &[&[u8]]) -> (r: [u8; 32])
    ensures
        r@ == sha256_of(concatenated(parts@, parts@.len())),
{
    let mut all: Vec<u8> = Vec::new();
    let mut i: usize = 0;
    while i < parts.len()
        invariant
            i <= parts.len(),
            all@ == concatenated(parts@, i as nat),
        decreases parts.len() - i,
    {
        push_slice(&mut all, parts[i]);
        i += 1;
    }
    sha256_digest(&all)
}

/// The first sixteen bytes from `from` on.
pub fn take16(s: &[u8], from: usize) -> (r: [u8; 16])
    requires
        from + 16 <= s.len(),
    ensures
        r@ == s@.subrange(from as int, from + 16),
{
    let mut out = [0u8;16];
    let mut i: usize = 0;
    while i < 16
        invariant
            i <= 16,
            from + 16 <= s.len(),
            forall|j: int| 0 <= j < i ==> #[trigger] out@[j] == s@[from + j],
        decreases 16 - i,
    {
        out[i] = s[from + i];
        i += 1;
    }
    assert(out@ =~= s@.subrange(from as int, from + 16));
    out
}

/// The pairing key: the first half of the hash of the salt and the PIN.
pub fn pin_key(salt: &[u8], pin: &str) -> (r: [u8; 16])
    ensures
        r@ == sha256_of(salt@ + encode_utf8(pin@)).take(16),
{
    let list: [&[u8]; 2] = [salt, pin.as_bytes()];
    proof {
        reveal_with_fuel(concatenated, 3);
        assert(concatenated(list@, 2) =~= salt@ + encode_utf8(pin@));
    }
    let digest: [u8; 32] = sha256(&list);
    let key: [u8; 16] = take16(&digest, 0);
    assert(key@ =~= digest@.take(16));
    key
}

/// Random bytes from the operating system, for salts, challenges and secrets.
pub fn random_bytes<const N: usize>() -> (r: Result<[u8; N], Error>)
    ensures
        r matches Err(e) ==> exists|why: Seq<char>| #[trigger]
            is_protocol(e, "OS RNG: "@ + why),
{
    match draw::<N>() {
        Ok(b) => Ok(b),
        Err(why) => {
            let e = protocol2("OS RNG: ", why.as_str());
            assert(is_protocol(e, "OS RNG: "@ + why@));
            Err(e)
        },
    }
}

/// Encrypt `data` block by block, zeros filling up its last block. Decrypting the result gives
/// the data back, zeros included.
pub fn aes_ecb_encrypt(key: &[u8; 16], data: &[u8]) -> (r: Vec<u8>)
    ensures
        r@ == ecb_encrypted(key@, data@, block_count(data@)),
        r@.len() == 16 * block_count(data@),
        ecb_decrypted(key@, r@, block_count(data@)) == zero_padded(data@),
{
    let mut out: Vec<u8> = Vec::new();
    let mut at: usize = 0;
    let ghost mut n: nat = 0;
    while at < data.len()
        invariant
            at == 16 * n || (at == data.len() && n == block_count(data@)),
            at <= data.len(),
            n <= block_count(data@),
            out@ == ecb_encrypted(key@, data@, n),
            out@.len() == 16 * n,
            ecb_decrypted(key@, out@, n) == zero_padded(data@).take(16 * n as int),
        decreases data.len() - at,
    {
        let mut block = [0u8;16];
        let mut j: usize = 0;
        while j < 16
            invariant
                j <= 16,
                at < data.len(),
                at == 16 * n,
                forall|i: int| 0 <= i < j ==> #[trigger] block@[i] == block_of(data@, n as int)[i],
            decreases 16 - j,
        {
            block[j] = if j < data.len() - at {
                data[at + j]
            } else {
                0
            };
            j += 1;
        }
        assert(block@ =~= block_of(data@, n as int));
        let cipher: [u8; 16] = encrypt_block(key, &block);
        let ghost before = out@;
        push_slice(&mut out, &cipher);
        proof {
            assert forall|i: int| 0 <= i < n implies #[trigger] block_of(out@, i) == block_of(
                before,
                i,
            ) by {
                assert(block_of(out@, i) =~= block_of(before, i));
            }
            lemma_ecb_same(key@, out@, before, n);
            assert(block_of(out@, n as int) =~= cipher@);
            assert(zero_padded(data@).take(16 * (n + 1) as int) =~= zero_padded(data@).take(
                16 * n as int,
            ) + block@);
            n = n + 1;
        }
        if data.len() - at <= 16 {
            at = data.len();
        } else {
            at = at + 16;
        }
    }
    assert(n == block_count(data@));
    assert(zero_padded(data@).take(16 * n as int) =~= zero_padded(data@));
    out
}

/// Decrypt `data` block by block; what follows its last whole block is ignored. Encrypting the
/// result gives the whole blocks back.
pub fn aes_ecb_decrypt(key: &[u8; 16], data: &[u8]) -> (r: Vec<u8>)
    ensures
        r@ == ecb_decrypted(key@, data@, data@.len() / 16),
        r@.len() == 16 * (data@.len() / 16),
        ecb_encrypted(key@, r@, data@.len() / 16) == data@.take(16 * (data@.len() / 16) as int),
{
    let mut out: Vec<u8> = Vec::with_capacity(data.len());
    let mut at: usize = 0;
    let ghost mut n: nat = 0;
    while data.len() - at >= 16
        invariant
            at == 16 * n,
            at <= data.len(),
            out@ == ecb_decrypted(key@, data@, n),
            out@.len() == 16 * n,
            ecb_encrypted(key@, out@, n) == data@.take(16 * n as int),
        decreases data.len() - at,
    {
        let block: [u8; 16] = take16(data, at);
        assert(block@ =~= block_of(data@, n as int));
        let plain: [u8; 16] = decrypt_block(key, &block);
        let ghost before = out@;
        push_slice(&mut out, &plain);
        proof {
            assert forall|i: int| 0 <= i < n implies #[trigger] block_of(out@, i) == block_of(
                before,
                i,
            ) by {
                assert(block_of(out@, i) =~= block_of(before, i));
            }
            lemma_ecb_same(key@, out@, before, n);
            assert(block_of(out@, n as int) =~= plain@);
            assert(data@.take(16 * (n + 1) as int) =~= data@.take(16 * n as int) + block@);
            n = n + 1;
        }
        at = at + 16;
    }
    assert(n == data@.len() / 16);
    out
}

/// The cipher works block by block: block `i` of the result is that of block `i` of the data, and
/// zeros fill up the last one.
pub proof fn law_blocks(key: Seq<u8>, data: Seq<u8>, n: nat, i: int)
    requires
        0 <= i < n,
        forall|block: Seq<u8>| (#[trigger] aes128_encrypted(key, block)).len() == 16,
        forall|block: Seq<u8>| (#[trigger] aes128_decrypted(key, block)).len() == 16,
    ensures
        ({
            let block = Seq::new(
                16,
                |j: int|
                    if 16 * i + j < data.len() {
                        data[16 * i + j]
                    } else {
                        0u8
                    },
            );
            &&& ecb_encrypted(key, data, n).len() == 16 * n
            &&& ecb_decrypted(key, data, n).len() == 16 * n
            &&& ecb_encrypted(key, data, n).subrange(16 * i, 16 * i + 16) == aes128_encrypted(
                key,
                block,
            )
            &&& ecb_decrypted(key, data, n).subrange(16 * i, 16 * i + 16) == aes128_decrypted(
                key,
                block,
            )
        }),
    decreases n,
{
    let m = (n - 1) as nat;
    let block = block_of(data, i);
    assert(block =~= Seq::new(
        16,
        |j: int|
            if 16 * i + j < data.len() {
                data[16 * i + j]
            } else {
                0u8
            },
    ));
    if i < m {
        law_blocks(key, data, m, i);
        assert(ecb_encrypted(key, data, n).subrange(16 * i, 16 * i + 16) =~= ecb_encrypted(
            key,
            data,
            m,
        ).subrange(16 * i, 16 * i + 16));
        assert(ecb_decrypted(key, data, n).subrange(16 * i, 16 * i + 16) =~= ecb_decrypted(
            key,
            data,
            m,
        ).subrange(16 * i, 16 * i + 16));
    } else {
        if m > 0 {
            law_blocks(key, data, m, 0);
        } else {
            assert(ecb_encrypted(key, data, 0).len() == 0 && ecb_decrypted(key, data, 0).len() == 0);
        }
        assert(aes128_encrypted(key, block_of(data, i)).len() == 16);
        assert(aes128_decrypted(key, block_of(data, i)).len() == 16);
        assert(ecb_encrypted(key, data, n).subrange(16 * i, 16 * i + 16) =~= aes128_encrypted(
            key,
            block_of(data, i),
        ));
        assert(ecb_decrypted(key, data, n).subrange(16 * i, 16 * i + 16) =~= aes128_decrypted(
            key,
            block_of(data, i),
        ));
    }
}

/// What is hashed is the parts in a row.
pub proof fn law_concatenated(a: &[u8], b: &[u8], c: &[u8])
    ensures
        concatenated(seq![a], 1) == a@,
        concatenated(seq![a, b], 2) == a@ + b@,
        concatenated(seq![a, b, c], 3) == a@ + b@ + c@,
{
    reveal_with_fuel(concatenated, 4);
    assert(Seq::<u8>::empty() + a@ =~= a@);
}

} // verus!
