use vstd::prelude::*;
use aes::Aes128;
use aes::cipher::{BlockDecrypt, BlockEncrypt, KeyInit};
use aes::cipher::generic_array::GenericArray;
use crypto::digest::Digest;
use crypto::sha3::Sha3;

verus! {

/// The first 16 bytes of the SHAKE128 output for `data`.
pub uninterp spec fn shake128_16(data: Seq<u8>) -> Seq<u8>;

/// AES-128 encryption of one 16-byte block under a 16-byte key.
pub uninterp spec fn aes128_encrypt(key: Seq<u8>, block: Seq<u8>) -> Seq<u8>;

/// AES-128 decryption of one 16-byte block under a 16-byte key.
pub uninterp spec fn aes128_decrypt(key: Seq<u8>, block: Seq<u8>) -> Seq<u8>;

/// Relies on rust-crypto's `Sha3::shake_128`, `input` and `result`: the
/// first 16 bytes that SHAKE128 squeezes out for the data.
#[verifier::external_body]
fn shake128(data: &Vec<u8>) -> (r: Vec<u8>)
    ensures
        r@ == shake128_16(data@),
        r@.len() == 16,
{
    let mut hasher = Sha3::shake_128();
    hasher.input(data);
    let mut out = [0u8; 16];
    hasher.result(&mut out);
    out.to_vec()
}

/// Relies on aes's `Aes128::new` and `encrypt_block`: one block encrypted
/// under the key; a block stays 16 bytes.
#[verifier::external_body]
fn aes_encrypt_block(key: &Vec<u8>, block: &Vec<u8>) -> (r: Vec<u8>)
    requires
        key@.len() == 16,
        block@.len() == 16,
    ensures
        r@ == aes128_encrypt(key@, block@),
        r@.len() == 16,
{
    let cipher = Aes128::new(GenericArray::from_slice(key));
    let mut b = GenericArray::clone_from_slice(block);
    cipher.encrypt_block(&mut b);
    b.to_vec()
}

/// Relies on aes's `Aes128::new` and `decrypt_block`: one block decrypted
/// under the key; a block stays 16 bytes.
#[verifier::external_body]
fn aes_decrypt_block(key: &Vec<u8>, block: &Vec<u8>) -> (r: Vec<u8>)
    requires
        key@.len() == 16,
        block@.len() == 16,
    ensures
        r@ == aes128_decrypt(key@, block@),
        r@.len() == 16,
{
    let cipher = Aes128::new(GenericArray::from_slice(key));
    let mut b = GenericArray::clone_from_slice(block);
    cipher.decrypt_block(&mut b);
    b.to_vec()
}

/// A block of at most 16 bytes, filled up with zeros to 16.
pub open spec fn pad_block(b: Seq<u8>) -> Seq<u8> {
    b + Seq::new((16 - b.len()) as nat, |i: int| 0u8)
}

/// The data encrypted block by block; the last block (or the only one, for
/// empty data) is padded with zeros.
pub open spec fn encrypt_blocks(key: Seq<u8>, data: Seq<u8>) -> Seq<u8>
    decreases data.len(),
{
    if data.len() <= 16 {
        aes128_encrypt(key, pad_block(data))
    } else {
        aes128_encrypt(key, data.take(16)) + encrypt_blocks(key, data.skip(16))
    }
}

/// The data decrypted block by block.
pub open spec fn decrypt_blocks(key: Seq<u8>, data: Seq<u8>) -> Seq<u8>
    decreases data.len(),
{
    if data.len() < 16 {
        Seq::empty()
    } else {
        aes128_decrypt(key, data.take(16)) + decrypt_blocks(key, data.skip(16))
    }
}

/// The symmetric key that protects the wire payload: a 16-byte AES-128 key
/// derived from a raw key with SHAKE128.
pub struct Key {
    key: Vec<u8>,
}

impl Key {
    #[verifier::type_invariant]
    spec fn sized(&self) -> bool {
        self.key@.len() == 16
    }
}

impl View for Key {
    type V = Seq<u8>;

    closed spec fn view(&self) -> Seq<u8> {
        self.key@
    }
}

fn block_at(data: &Vec<u8>, from: usize, to: usize) -> (r: Vec<u8>)
    requires
        from <= to <= data.len(),
    ensures
        r@ == data@.subrange(from as int, to as int),
{
    let mut out: Vec<u8> = Vec::new();
    let mut i = from;
    while i < to
        invariant
            from <= i <= to <= data.len(),
            out@ == data@.subrange(from as int, i as int),
        decreases to - i,
    {
        out.push(data[i]);
        assert(out@ =~= data@.subrange(from as int, i + 1));
        i = i + 1;
    }
    out
}

impl Key {
    /// The key derived from a raw key: its SHAKE128 hash, 16 bytes long.
    pub fn new(key: Vec<u8>) -> (r: Self)
        ensures
            r@ == shake128_16(key@),
            r@.len() == 16,
    {
        Self { key: shake128(&key) }
    }

    /// The 16 key bytes.
    pub fn into_bytes(self) -> (r: Vec<u8>)
        ensures
            r@ == self@,
            r@.len() == 16,
    {
        proof {
            use_type_invariant(&self);
        }
        self.key
    }

    /// Encrypts the bytes with AES-128, block by block; the last block is
    /// padded with zeros, so the output is a positive multiple of 16 bytes.
    pub fn encrypt(&self, bytes: Vec<u8>) -> (r: Vec<u8>)
        ensures
            r@ == encrypt_blocks(self@, bytes@),
    {
        proof {
            use_type_invariant(self);
        }
        let mut output: Vec<u8> = Vec::new();
        let mut at: usize = 0;
        assert(bytes@.skip(0) =~= bytes@);
        assert(output@ + encrypt_blocks(self@, bytes@) =~= encrypt_blocks(self@, bytes@));
        while bytes.len() - at > 16
            invariant
                self@.len() == 16,
                at <= bytes.len(),
                output@ + encrypt_blocks(self@, bytes@.skip(at as int)) == encrypt_blocks(self@, bytes@),
            decreases bytes.len() - at,
        {
            let ghost rest = bytes@.skip(at as int);
            let block = block_at(&bytes, at, at + 16);
            assert(block@ =~= rest.take(16));
            assert(rest.skip(16) =~= bytes@.skip(at + 16));
            let mut enc = aes_encrypt_block(&self.key, &block);
            output.append(&mut enc);
            at = at + 16;
        }
        let ghost rest = bytes@.skip(at as int);
        let mut last = block_at(&bytes, at, bytes.len());
        assert(last@ =~= rest);
        while last.len() < 16
            invariant
                rest.len() <= 16,
                rest.len() <= last@.len() <= 16,
                last@ =~= rest + Seq::new((last@.len() - rest.len()) as nat, |i: int| 0u8),
            decreases 16 - last.len(),
        {
            last.push(0u8);
        }
        assert(last@ =~= pad_block(rest));
        let mut enc = aes_encrypt_block(&self.key, &last);
        output.append(&mut enc);
        assert(output@ =~= encrypt_blocks(self@, bytes@));
        output
    }

    /// Decrypts the bytes with AES-128, block by block; the length must be a
    /// multiple of 16.
    pub fn decrypt(&self, bytes: Vec<u8>) -> (r: Vec<u8>)
        requires
            bytes@.len() % 16 == 0,
        ensures
            r@ == decrypt_blocks(self@, bytes@),
    {
        proof {
            use_type_invariant(self);
        }
        let mut output: Vec<u8> = Vec::new();
        let mut at: usize = 0;
        assert(bytes@.skip(0) =~= bytes@);
        assert(output@ + decrypt_blocks(self@, bytes@) =~= decrypt_blocks(self@, bytes@));
        while at < bytes.len()
            invariant
                self@.len() == 16,
                at <= bytes.len(),
                (bytes.len() - at) % 16 == 0,
                output@ + decrypt_blocks(self@, bytes@.skip(at as int)) == decrypt_blocks(self@, bytes@),
            decreases bytes.len() - at,
        {
            let ghost rest = bytes@.skip(at as int);
            let block = block_at(&bytes, at, at + 16);
            assert(block@ =~= rest.take(16));
            assert(rest.skip(16) =~= bytes@.skip(at + 16));
            let mut dec = aes_decrypt_block(&self.key, &block);
            let ghost prev = output@;
            output.append(&mut dec);
            assert(output@ + decrypt_blocks(self@, bytes@.skip(at + 16)) =~= prev + decrypt_blocks(self@, rest));
            at = at + 16;
        }
        assert(bytes@.skip(at as int) =~= Seq::<u8>::empty());
        assert(output@ =~= output@ + decrypt_blocks(self@, bytes@.skip(at as int)));
        output
    }
}

} // verus!
