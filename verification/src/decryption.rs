use vstd::prelude::*;
use aes::cipher::{BlockCipherDecrypt, BlockCipherEncrypt, KeyInit};
use crate::errors::DecryptError;

verus! {

// ---------------------------------------------------------------------------
// The AES-128 block function, called through the `aes` crate
// ---------------------------------------------------------------------------

pub uninterp spec fn aes128_block_enc(key: Seq<u8>, block: Seq<u8>) -> Seq<u8>;

pub uninterp spec fn aes128_block_dec(key: Seq<u8>, block: Seq<u8>) -> Seq<u8>;

/// Relies on aes::Aes128 (KeyInit::new_from_slice, BlockCipherDecrypt::
/// decrypt_block): deciphers one 16-byte block; the result depends on the
/// key and the block alone.
#[verifier::external_body]
fn aes_decrypt_block(key: &Vec<u8>, block: &Vec<u8>) -> (r: Vec<u8>)
    requires
        key@.len() == 16,
        block@.len() == 16,
    ensures
        r@ == aes128_block_dec(key@, block@),
        r@.len() == 16,
{
    let cipher = aes::Aes128::new_from_slice(key).unwrap();
    let b: [u8; 16] = block.as_slice().try_into().unwrap();
    let mut arr = aes::cipher::Array::from(b);
    cipher.decrypt_block(&mut arr);
    arr.to_vec()
}

/// Relies on aes::Aes128 (KeyInit::new_from_slice, BlockCipherEncrypt::
/// encrypt_block): enciphers one 16-byte block; the crate documents that
/// decrypt_block inverts encrypt_block under the same key.
#[verifier::external_body]
fn aes_encrypt_block(key: &Vec<u8>, block: &Vec<u8>) -> (r: Vec<u8>)
    requires
        key@.len() == 16,
        block@.len() == 16,
    ensures
        r@ == aes128_block_enc(key@, block@),
        r@.len() == 16,
        aes128_block_dec(key@, r@) == block@,
{
    let cipher = aes::Aes128::new_from_slice(key).unwrap();
    let b: [u8; 16] = block.as_slice().try_into().unwrap();
    let mut arr = aes::cipher::Array::from(b);
    cipher.encrypt_block(&mut arr);
    arr.to_vec()
}

// ---------------------------------------------------------------------------
// Cipher-block chaining and byte padding
// ---------------------------------------------------------------------------

pub open spec fn xor_block(a: Seq<u8>, b: Seq<u8>) -> Seq<u8> {
    Seq::new(a.len(), |i: int| a[i] ^ b[i])
}

proof fn lemma_xor_byte_inv(x: u8, y: u8)
    ensures
        ((x ^ y) ^ y) == x,
{
    assert(((x ^ y) ^ y) == x) by (bit_vector);
}

proof fn lemma_xor_block_inv(a: Seq<u8>, b: Seq<u8>)
    requires
        a.len() == b.len(),
    ensures
        xor_block(xor_block(a, b), b) == a,
{
    assert forall|i: int| 0 <= i < a.len() implies xor_block(xor_block(a, b), b)[i] == a[i] by {
        lemma_xor_byte_inv(a[i], b[i]);
    }
    assert(xor_block(xor_block(a, b), b) =~= a);
}

/// CBC decryption of a whole buffer: each block is deciphered and mixed
/// with the previous ciphertext block, the first with `prev` (the IV).
pub open spec fn spec_cbc_decrypt(key: Seq<u8>, prev: Seq<u8>, ct: Seq<u8>) -> Seq<u8>
    decreases ct.len(),
{
    if ct.len() < 16 {
        Seq::empty()
    } else {
        xor_block(aes128_block_dec(key, ct.take(16)), prev) + spec_cbc_decrypt(
            key,
            ct.take(16),
            ct.skip(16),
        )
    }
}

/// CBC encryption of a whole padded buffer: each block is mixed with the
/// previous ciphertext block (the first with `prev`, the IV) and
/// enciphered.
pub open spec fn spec_cbc_encrypt(key: Seq<u8>, prev: Seq<u8>, pt: Seq<u8>) -> Seq<u8>
    decreases pt.len(),
{
    if pt.len() < 16 {
        Seq::empty()
    } else {
        let c = aes128_block_enc(key, xor_block(pt.take(16), prev));
        c + spec_cbc_encrypt(key, c, pt.skip(16))
    }
}

/// Appending one block to the ciphertext appends one deciphered block to
/// the plaintext, mixed with the block before it.
proof fn lemma_cbc_decrypt_snoc(key: Seq<u8>, iv: Seq<u8>, ct: Seq<u8>, i: int)
    requires
        0 <= i,
        i % 16 == 0,
        i + 16 <= ct.len(),
    ensures
        spec_cbc_decrypt(key, iv, ct.take(i + 16)) == spec_cbc_decrypt(key, iv, ct.take(i))
            + xor_block(
            aes128_block_dec(key, ct.subrange(i, i + 16)),
            if i == 0 {
                iv
            } else {
                ct.subrange(i - 16, i)
            },
        ),
    decreases i,
{
    if i == 0 {
        let c16 = ct.take(16);
        assert(c16.len() == 16);
        assert(c16.take(16) =~= ct.subrange(0, 16));
        assert(c16.skip(16) =~= Seq::<u8>::empty());
        assert(ct.take(0) =~= Seq::<u8>::empty());
        assert(spec_cbc_decrypt(key, iv, c16) == xor_block(aes128_block_dec(key, c16.take(16)), iv)
            + spec_cbc_decrypt(key, c16.take(16), c16.skip(16)));
        assert(spec_cbc_decrypt(key, c16.take(16), c16.skip(16)) == Seq::<u8>::empty());
        assert(spec_cbc_decrypt(key, iv, ct.take(0)) == Seq::<u8>::empty());
        assert(spec_cbc_decrypt(key, iv, ct.take(16)) =~= spec_cbc_decrypt(key, iv, ct.take(0))
            + xor_block(aes128_block_dec(key, ct.subrange(0, 16)), iv));
    } else {
        let t = ct.skip(16);
        lemma_cbc_decrypt_snoc(key, ct.take(16), t, i - 16);
        assert(ct.take(i + 16).take(16) =~= ct.take(16));
        assert(ct.take(i + 16).skip(16) =~= t.take(i));
        assert(ct.take(i).take(16) =~= ct.take(16));
        assert(ct.take(i).skip(16) =~= t.take(i - 16));
        assert(t.subrange(i - 16, i) =~= ct.subrange(i, i + 16));
        if i == 16 {
            assert(ct.subrange(i - 16, i) =~= ct.take(16));
        } else {
            assert(t.subrange(i - 32, i - 16) =~= ct.subrange(i - 16, i));
        }
        assert(spec_cbc_decrypt(key, iv, ct.take(i + 16)) =~= spec_cbc_decrypt(key, iv, ct.take(i))
            + xor_block(
            aes128_block_dec(key, ct.subrange(i, i + 16)),
            if i == 0 {
                iv
            } else {
                ct.subrange(i - 16, i)
            },
        ));
    }
}

/// Appends padding bytes so that the length is a positive multiple of 16;
/// each padding byte holds the padding length.
pub open spec fn spec_pkcs7_pad(pt: Seq<u8>) -> Seq<u8> {
    let p = 16 - (pt.len() % 16);
    pt + Seq::new(p as nat, |i: int| p as u8)
}

/// Validates and removes the padding: the last byte gives the padding
/// length, and every padding byte must hold that value.
pub open spec fn spec_pkcs7_unpad(pt: Seq<u8>) -> Option<Seq<u8>> {
    if pt.len() == 0 || pt.len() % 16 != 0 {
        None
    } else {
        let b = pt.last();
        if b == 0 || (b as int) > 16 {
            None
        } else if forall|k: int| pt.len() - b <= k < pt.len() ==> pt[k] == b {
            Some(pt.take(pt.len() - b))
        } else {
            None
        }
    }
}

/// Removing the padding that was appended yields the original buffer.
proof fn lemma_pkcs7_round_trip(pt: Seq<u8>)
    ensures
        spec_pkcs7_unpad(spec_pkcs7_pad(pt)) == Some(pt),
{
    let n = pt.len() as int;
    let p = 16 - n % 16;
    let padded = spec_pkcs7_pad(pt);
    assert(1 <= p <= 16);
    assert(padded.len() == n + p);
    assert((n + p) % 16 == 0) by {
        assert(n % 16 + p == 16);
    }
    assert(padded.last() == p as u8);
    assert(forall|k: int| n + p - p <= k < n + p ==> padded[k] == p as u8);
    assert(padded.take(padded.len() - (p as u8)) =~= pt);
}

// ---------------------------------------------------------------------------
// The cipher
// ---------------------------------------------------------------------------

/// Copies a byte buffer.
fn copy_bytes(v: &Vec<u8>) -> (r: Vec<u8>)
    ensures
        r@ == v@,
{
    let mut out: Vec<u8> = Vec::new();
    let mut i: usize = 0;
    while i < v.len()
        invariant
            i <= v@.len(),
            out@ == v@.take(i as int),
        decreases v@.len() - i,
    {
        out.push(v[i]);
        proof {
            assert(out@ =~= v@.take(i + 1));
        }
        i = i + 1;
    }
    proof {
        assert(v@.take(v@.len() as int) =~= v@);
    }
    out
}

/// Holds the fixed key and IV of one download job. Every segment of the
/// job is an independent CBC unit under this same pair.
pub struct Cipher {
    key: Vec<u8>,
    iv: Vec<u8>,
}

impl View for Cipher {
    type V = (Seq<u8>, Seq<u8>);

    closed spec fn view(&self) -> (Seq<u8>, Seq<u8>) {
        (self.key@, self.iv@)
    }
}

impl Cipher {
    /// The key and the IV are each one cipher block long.
    pub open spec fn well_formed(&self) -> bool {
        self@.0.len() == 16 && self@.1.len() == 16
    }

    /// Takes the key and IV out of a resolved video list.
    pub fn from_list(index: &crate::client::SchoolismVideoList) -> (r: Self)
        ensures
            r@ == (index.key@, index.iv@),
    {
        let key = copy_bytes(&index.key);
        let iv = copy_bytes(&index.iv);
        Self { key, iv }
    }

    /// Decrypts one segment buffer: CBC with this cipher's key and IV,
    /// then padding removal.
    #[verifier::loop_isolation(false)]
    pub fn decrypt(&self, blob: &Vec<u8>) -> (r: Result<Vec<u8>, DecryptError>)
        ensures
            !self.well_formed() ==> r == Err::<Vec<u8>, DecryptError>(
                DecryptError::InvalidKeyIvLength,
            ),
            self.well_formed() && blob@.len() % 16 != 0 ==> r == Err::<Vec<u8>, DecryptError>(
                DecryptError::InvalidCiphertextLength,
            ),
            self.well_formed() && blob@.len() % 16 == 0 ==> match (
                r,
                spec_pkcs7_unpad(spec_cbc_decrypt(self@.0, self@.1, blob@)),
            ) {
                (Ok(v), Some(pt)) => v@ == pt,
                (Err(e), None) => e == DecryptError::InvalidPadding,
                _ => false,
            },
    {
        if self.key.len() != 16 || self.iv.len() != 16 {
            return Err(DecryptError::InvalidKeyIvLength);
        }
        if blob.len() % 16 != 0 {
            return Err(DecryptError::InvalidCiphertextLength);
        }
        let ghost key = self@.0;
        let ghost iv = self@.1;
        let blen = blob.len();
        let mut out: Vec<u8> = Vec::new();
        let mut prev: Vec<u8> = copy_bytes(&self.iv);
        proof {
            assert(blob@.take(0) =~= Seq::<u8>::empty());
            assert(spec_cbc_decrypt(key, iv, blob@.take(0)) == Seq::<u8>::empty());
            assert(out@ =~= Seq::<u8>::empty());
        }
        let mut i: usize = 0;
        while i < blen
            invariant
                i % 16 == 0,
                i <= blen,
                out@.len() == i,
                prev@.len() == 16,
                prev@ == if i == 0 {
                    iv
                } else {
                    blob@.subrange(i - 16, i as int)
                },
                out@ == spec_cbc_decrypt(key, iv, blob@.take(i as int)),
            decreases blen - i,
        {
            let mut block: Vec<u8> = Vec::new();
            let mut j: usize = i;
            while j < i + 16
                invariant
                    i <= j <= i + 16,
                    i + 16 <= blob@.len(),
                    block@ == blob@.subrange(i as int, j as int),
                decreases i + 16 - j,
            {
                block.push(blob[j]);
                proof {
                    assert(block@ =~= blob@.subrange(i as int, j + 1));
                }
                j = j + 1;
            }
            let dec = aes_decrypt_block(&self.key, &block);
            let mut k: usize = 0;
            let ghost pre = out@;
            while k < 16
                invariant
                    k <= 16,
                    dec@.len() == 16,
                    prev@.len() == 16,
                    out@ == pre + xor_block(dec@, prev@).take(k as int),
                decreases 16 - k,
            {
                out.push(dec[k] ^ prev[k]);
                proof {
                    assert(out@ =~= pre + xor_block(dec@, prev@).take(k + 1));
                }
                k = k + 1;
            }
            proof {
                assert(xor_block(dec@, prev@).take(16) =~= xor_block(dec@, prev@));
                lemma_cbc_decrypt_snoc(key, iv, blob@, i as int);
                assert(out@ == spec_cbc_decrypt(key, iv, blob@.take(i + 16)));
            }
            prev = block;
            i = i + 16;
            proof {
                assert(prev@ =~= blob@.subrange(i - 16, i as int));
            }
        }
        proof {
            assert(blob@.take(blob@.len() as int) =~= blob@);
        }
        // remove and validate the padding
        let n = out.len();
        if n == 0 {
            return Err(DecryptError::InvalidPadding);
        }
        let b = out[n - 1];
        if b == 0 || b > 16 {
            return Err(DecryptError::InvalidPadding);
        }
        proof {
            assert(out@.len() == blob@.len());
            assert(out@.len() % 16 == 0);
            assert(out@.len() >= 16);
        }
        let pad = b as usize;
        let mut j: usize = n - pad;
        while j < n
            invariant
                n == out@.len(),
                pad == out@.last() as int,
                1 <= pad <= 16 <= n,
                n - pad <= j <= n,
                forall|k: int| n - pad <= k < j ==> out@[k] == out@.last(),
            decreases n - j,
        {
            if out[j] != b {
                return Err(DecryptError::InvalidPadding);
            }
            j = j + 1;
        }
        out.truncate(n - pad);
        Ok(out)
    }

    /// Encrypts one buffer: padding, then CBC with this cipher's key and
    /// IV. Decrypting the result with the same cipher yields the input
    /// back.
    #[verifier::loop_isolation(false)]
    pub fn encrypt(&self, pt: &Vec<u8>) -> (r: Result<Vec<u8>, DecryptError>)
        requires
            pt@.len() + 16 <= usize::MAX,
        ensures
            !self.well_formed() ==> r == Err::<Vec<u8>, DecryptError>(
                DecryptError::InvalidKeyIvLength,
            ),
            self.well_formed() ==> match r {
                Ok(ct) => {
                    &&& ct@ == spec_cbc_encrypt(self@.0, self@.1, spec_pkcs7_pad(pt@))
                    &&& spec_pkcs7_unpad(spec_cbc_decrypt(self@.0, self@.1, ct@)) == Some(pt@)
                },
                Err(_) => false,
            },
    {
        if self.key.len() != 16 || self.iv.len() != 16 {
            return Err(DecryptError::InvalidKeyIvLength);
        }
        let ghost key = self@.0;
        let ghost iv = self@.1;
        // pad
        let mut padded = copy_bytes(pt);
        let padb: u8 = 16 - (pt.len() % 16) as u8;
        let mut c: usize = 0;
        while c < padb as usize
            invariant
                c <= padb as int,
                padded@ == pt@ + Seq::new(c as nat, |q: int| padb),
            decreases padb as int - c,
        {
            padded.push(padb);
            proof {
                assert(padded@ =~= pt@ + Seq::new((c + 1) as nat, |q: int| padb));
            }
            c = c + 1;
        }
        proof {
            assert(padded@ =~= spec_pkcs7_pad(pt@));
            assert(padded@.len() % 16 == 0) by {
                assert(pt@.len() % 16 + padb == 16);
            }
        }
        let ghost pv = padded@;
        // encrypt block by block
        let plen = padded.len();
        let mut out: Vec<u8> = Vec::new();
        let mut prev: Vec<u8> = copy_bytes(&self.iv);
        proof {
            assert(pv.skip(0) =~= pv);
            assert(out@ =~= Seq::<u8>::empty());
            assert(Seq::<u8>::empty() + spec_cbc_encrypt(key, iv, pv) =~= spec_cbc_encrypt(
                key,
                iv,
                pv,
            ));
            assert(pv.take(0) =~= Seq::<u8>::empty());
            assert(spec_cbc_decrypt(key, iv, Seq::<u8>::empty()) == Seq::<u8>::empty());
        }
        let mut i: usize = 0;
        while i < plen
            invariant
                i % 16 == 0,
                i <= plen,
                prev@.len() == 16,
                out@.len() == i,
                prev@ == if i == 0 {
                    iv
                } else {
                    out@.subrange(i - 16, i as int)
                },
                out@ + spec_cbc_encrypt(key, prev@, pv.skip(i as int)) == spec_cbc_encrypt(
                    key,
                    iv,
                    pv,
                ),
                spec_cbc_decrypt(key, iv, out@) == pv.take(i as int),
            decreases plen - i,
        {
            let mut block: Vec<u8> = Vec::new();
            let mut j: usize = i;
            while j < i + 16
                invariant
                    i <= j <= i + 16,
                    i + 16 <= padded@.len(),
                    block@ == padded@.subrange(i as int, j as int),
                decreases i + 16 - j,
            {
                block.push(padded[j]);
                proof {
                    assert(block@ =~= padded@.subrange(i as int, j + 1));
                }
                j = j + 1;
            }
            // mix with the previous ciphertext block
            let mut mixed: Vec<u8> = Vec::new();
            let mut k: usize = 0;
            while k < 16
                invariant
                    k <= 16,
                    block@.len() == 16,
                    prev@.len() == 16,
                    mixed@ == xor_block(block@, prev@).take(k as int),
                decreases 16 - k,
            {
                mixed.push(block[k] ^ prev[k]);
                proof {
                    assert(mixed@ =~= xor_block(block@, prev@).take(k + 1));
                }
                k = k + 1;
            }
            proof {
                assert(mixed@ =~= xor_block(block@, prev@));
            }
            let enc = aes_encrypt_block(&self.key, &mixed);
            let ghost pre = out@;
            let mut k2: usize = 0;
            while k2 < 16
                invariant
                    k2 <= 16,
                    enc@.len() == 16,
                    out@ == pre + enc@.take(k2 as int),
                decreases 16 - k2,
            {
                out.push(enc[k2]);
                proof {
                    assert(out@ =~= pre + enc@.take(k2 + 1));
                }
                k2 = k2 + 1;
            }
            proof {
                assert(enc@.take(16) =~= enc@);
                assert(out@ =~= pre + enc@);
                // the first ensures clause: one unfold of the suffix form
                assert(pv.skip(i as int).take(16) =~= block@);
                assert(pv.skip(i as int).skip(16) =~= pv.skip(i + 16));
                assert(pre + (enc@ + spec_cbc_encrypt(key, enc@, pv.skip(i + 16))) =~= out@
                    + spec_cbc_encrypt(key, enc@, pv.skip(i + 16)));
                // the round-trip clause: appending this block appends the
                // deciphered mix, which is the padded block itself
                lemma_cbc_decrypt_snoc(key, iv, out@, i as int);
                assert(out@.take(i + 16) =~= out@);
                assert(out@.take(i as int) =~= pre);
                assert(out@.subrange(i as int, i + 16) =~= enc@);
                if i != 0 {
                    assert(out@.subrange(i - 16, i as int) =~= pre.subrange(i - 16, i as int));
                }
                lemma_xor_block_inv(block@, prev@);
                assert(spec_cbc_decrypt(key, iv, out@) =~= pv.take(i as int) + block@);
                assert(pv.take(i as int) + block@ =~= pv.take(i + 16));
            }
            prev = enc;
            i = i + 16;
            proof {
                assert(prev@ =~= out@.subrange(i - 16, i as int));
            }
        }
        proof {
            assert(pv.skip(pv.len() as int) =~= Seq::<u8>::empty());
            assert(spec_cbc_encrypt(key, prev@, pv.skip(pv.len() as int)) =~= Seq::<u8>::empty());
            assert(out@ + Seq::<u8>::empty() =~= out@);
            assert(pv.take(pv.len() as int) =~= pv);
            lemma_pkcs7_round_trip(pt@);
        }
        Ok(out)
    }
}

} // verus!
