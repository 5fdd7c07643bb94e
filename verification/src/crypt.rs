//! The payload transforms: RC4, AES-256-CBC with PKCS padding, or none.
//!
//! The ciphers themselves come from an outside crate and are called through
//! trusted wrappers; the model below states what each call returns, and the
//! direction logic on top of them is verified.
use vstd::prelude::*;
use vstd::utf8::encode_utf8;

use crypto::aes;
use crypto::blockmodes;
use crypto::buffer;
use crypto::buffer::ReadBuffer;
use crypto::buffer::WriteBuffer;
use crypto::rc4;
use crypto::symmetriccipher::SynchronousStreamCipher;

use crate::err::NfError;
use crate::err::NfResult;
use crate::settings::SupportCrypt;

verus! {

/// The keystream that RC4 derives from a key, for a given length. It is a
/// function of the key bytes alone.
pub uninterp spec fn rc4_keystream(key: Seq<u8>, len: int) -> Seq<u8>;

/// The AES-256-CBC ciphertext for a key, an IV, and a plaintext, with PKCS
/// padding. It is a function of those three alone.
pub uninterp spec fn aes_cipher(key: Seq<u8>, iv: Seq<u8>, data: Seq<u8>) -> Seq<u8>;

/// The raw AES-256-CBC decryption of a whole number of blocks under a key
/// and an IV, before any padding is stripped. It is a function of those
/// three alone, and as long as its input.
pub uninterp spec fn aes_raw_inverse(key: Seq<u8>, iv: Seq<u8>, data: Seq<u8>) -> Seq<u8>;

/// The PKCS padding appended to a payload of the given length: between 1
/// and 16 bytes, each holding the number of padding bytes, reaching the
/// next whole block.
pub open spec fn spec_pkcs_pad_bytes(len: int) -> Seq<u8>
    recommends
        len >= 0,
{
    let p = 16 - len % 16;
    Seq::new(p as nat, |i: int| p as u8)
}

/// Strips PKCS padding from a decrypted buffer: the last byte names the
/// padding width, which must be between 1 and 16, fit in the buffer, and
/// fill its own tail. Anything else is invalid padding.
pub open spec fn spec_pkcs_unpad(raw: Seq<u8>) -> Option<Seq<u8>> {
    if raw.len() == 0 {
        None
    } else {
        let p = raw.last() as int;
        if 1 <= p <= 16 && p <= raw.len() && (forall|k: int|
            raw.len() - p <= k < raw.len() ==> raw[k] == raw.last()) {
            Some(raw.subrange(0, raw.len() - p))
        } else {
            None
        }
    }
}

/// What AES-256-CBC decryption with PKCS padding yields: `None` when the
/// ciphertext is not a whole number of blocks, or the raw decryption does
/// not end in valid padding.
pub open spec fn spec_aes_decrypt(key: Seq<u8>, iv: Seq<u8>, data: Seq<u8>) -> Option<Seq<u8>> {
    if data.len() % 16 != 0 {
        None
    } else {
        spec_pkcs_unpad(aes_raw_inverse(key, iv, data))
    }
}

/// Law: stripping the padding that encryption appends restores the data.
pub proof fn lemma_pkcs_unpad_of_padded(data: Seq<u8>)
    ensures
        spec_pkcs_unpad(data + spec_pkcs_pad_bytes(data.len() as int)) == Some(data),
{
    let p = 16 - data.len() % 16;
    let pad = spec_pkcs_pad_bytes(data.len() as int);
    let raw = data + pad;
    assert(pad.len() == p);
    assert(raw.last() == pad[p - 1]);
    assert(raw.last() == p as u8);
    assert forall|k: int| raw.len() - p <= k < raw.len() implies raw[k] == raw.last() by {
        assert(raw[k] == pad[k - data.len()]);
    }
    assert(raw.subrange(0, raw.len() - p) =~= data);
}

/// Law: a ciphertext whose raw decryption is the data followed by its PKCS
/// padding — which each encryption call's contract provides — decrypts to
/// exactly that data.
pub proof fn lemma_aes_round_trip(key: Seq<u8>, iv: Seq<u8>, cipher: Seq<u8>, data: Seq<u8>)
    requires
        cipher.len() % 16 == 0,
        aes_raw_inverse(key, iv, cipher) == data + spec_pkcs_pad_bytes(data.len() as int),
    ensures
        spec_aes_decrypt(key, iv, cipher) == Some(data),
{
    lemma_pkcs_unpad_of_padded(data);
}

/// The byte-wise XOR of `a` with `b`.
pub open spec fn spec_xor_bytes(a: Seq<u8>, b: Seq<u8>) -> Seq<u8> {
    Seq::new(a.len(), |i: int| a[i] ^ b[i])
}

/// What one RC4 pass over `data` under `key` produces: the key-derived
/// keystream XORed into the data.
pub open spec fn spec_rc4_apply(key: Seq<u8>, data: Seq<u8>) -> Seq<u8> {
    spec_xor_bytes(data, rc4_keystream(key, data.len() as int))
}

/// Law: one RC4 pass is its own inverse. Applying the transform twice with
/// the same key restores the original data, whatever the keystream holds.
pub proof fn lemma_rc4_self_inverse(key: Seq<u8>, data: Seq<u8>)
    ensures
        spec_rc4_apply(key, spec_rc4_apply(key, data)) == data,
{
    let ks = rc4_keystream(key, data.len() as int);
    let once = spec_rc4_apply(key, data);
    assert(once.len() == data.len());
    let twice = spec_rc4_apply(key, once);
    assert forall|i: int| 0 <= i < data.len() implies twice[i] == data[i] by {
        let d = data[i];
        let k = ks[i];
        assert((d ^ k) ^ k == d) by (bit_vector);
    }
    assert(twice =~= data);
}

/// Relies on `crypto::rc4::Rc4`: `new` accepts a key of 1 to 256 bytes and
/// builds a state that depends on the key alone; `process` XORs the
/// key-derived keystream into the input, one output byte per input byte.
#[verifier::external_body]
pub fn rc4_encrypt(data: &[u8], key: String) -> (r: NfResult<Vec<u8>>)
    requires
        1 <= encode_utf8(key@).len() <= 256,
    ensures
        r is Ok,
        r matches Ok(v) ==> v@ == spec_xor_bytes(
            data@,
            rc4_keystream(encode_utf8(key@), data@.len() as int),
        ),
{
    let mut cipher = rc4::Rc4::new(key.as_bytes());
    let mut output = vec![0u8; data.len()];
    cipher.process(data, output.as_mut_slice());
    Ok(output)
}

/// Relies on `crypto::rc4::Rc4` exactly as `rc4_encrypt` does: the single
/// XOR pass performs both roles.
#[verifier::external_body]
pub fn rc4_decrypt(data: &[u8], key: String) -> (r: NfResult<Vec<u8>>)
    requires
        1 <= encode_utf8(key@).len() <= 256,
    ensures
        r is Ok,
        r matches Ok(v) ==> v@ == spec_xor_bytes(
            data@,
            rc4_keystream(encode_utf8(key@), data@.len() as int),
        ),
{
    let mut cipher = rc4::Rc4::new(key.as_bytes());
    let mut output = vec![0u8; data.len()];
    cipher.process(data, output.as_mut_slice());
    Ok(output)
}

/// Relies on `crypto::aes::cbc_encryptor` with `PkcsPadding`: a 32-byte
/// key and a 16-byte IV are accepted; encryption of complete input never
/// fails; on non-empty input the padding appends `16 - len % 16` bytes of
/// that same value, reaching the next whole block, and raw CBC decryption
/// under the same key and IV restores the padded plaintext. Empty input
/// never reaches the padding path of this dependency's buffer engine and
/// produces empty output.
#[verifier::external_body]
pub fn aes_encrypt(data: &[u8], key: String, iv: String) -> (r: NfResult<Vec<u8>>)
    requires
        encode_utf8(key@).len() == 32,
        encode_utf8(iv@).len() == 16,
    ensures
        r is Ok,
        r matches Ok(v) ==> v@ == aes_cipher(encode_utf8(key@), encode_utf8(iv@), data@),
        r matches Ok(v) ==> data@.len() > 0 ==> v@.len() == data@.len() + 16 - (data@.len() % 16),
        r matches Ok(v) ==> data@.len() > 0 ==> aes_raw_inverse(
            encode_utf8(key@),
            encode_utf8(iv@),
            v@,
        ) == data@ + spec_pkcs_pad_bytes(data@.len() as int),
        r matches Ok(v) ==> data@.len() == 0 ==> v@ == Seq::<u8>::empty(),
{
    let mut enc = aes::cbc_encryptor(
        aes::KeySize::KeySize256,
        key.as_bytes(),
        iv.as_bytes(),
        blockmodes::PkcsPadding,
    );
    let mut rb = buffer::RefReadBuffer::new(data);
    let mut out = vec![0u8; data.len() + 16];
    let mut wb = buffer::RefWriteBuffer::new(&mut out[..]);
    if enc.encrypt(&mut rb, &mut wb, true).is_err() {
        return Err(NfError::E(format!("aes encrypt error.")));
    }
    let n = wb.take_read_buffer().take_remaining().len();
    out.truncate(n);
    Ok(out)
}

/// Relies on `crypto::aes::cbc_decryptor` with `NoPadding`: a 32-byte key
/// and a 16-byte IV are accepted; a whole number of blocks decrypts, block
/// for block, to a function of the key, the IV and the ciphertext alone,
/// and any other length is rejected. With no padding processor this call
/// neither strips nor inspects the decrypted bytes.
#[verifier::external_body]
fn aes_decrypt_blocks(data: &[u8], key: String, iv: String) -> (r: NfResult<Vec<u8>>)
    requires
        encode_utf8(key@).len() == 32,
        encode_utf8(iv@).len() == 16,
    ensures
        r is Ok <==> data@.len() % 16 == 0,
        r matches Ok(v) ==> v@ == aes_raw_inverse(encode_utf8(key@), encode_utf8(iv@), data@),
        r matches Ok(v) ==> v@.len() == data@.len(),
{
    let mut dec = aes::cbc_decryptor(
        aes::KeySize::KeySize256,
        key.as_bytes(),
        iv.as_bytes(),
        blockmodes::NoPadding,
    );
    let mut rb = buffer::RefReadBuffer::new(data);
    let mut out = vec![0u8; data.len()];
    let mut wb = buffer::RefWriteBuffer::new(&mut out[..]);
    if dec.decrypt(&mut rb, &mut wb, true).is_err() {
        return Err(NfError::E(format!("aes decrypt error.")));
    }
    let n = wb.take_read_buffer().take_remaining().len();
    out.truncate(n);
    Ok(out)
}

/// Decrypts an AES-256-CBC ciphertext and strips its PKCS padding. Fails
/// exactly when the ciphertext is not a whole number of blocks, or the
/// raw decryption does not end in valid padding: a final byte between 1
/// and 16 filling its own tail.
pub fn aes_decrypt(data: &[u8], key: String, iv: String) -> (r: NfResult<Vec<u8>>)
    requires
        encode_utf8(key@).len() == 32,
        encode_utf8(iv@).len() == 16,
    ensures
        r is Ok <==> spec_aes_decrypt(encode_utf8(key@), encode_utf8(iv@), data@) is Some,
        r matches Ok(v) ==> spec_aes_decrypt(encode_utf8(key@), encode_utf8(iv@), data@) == Some(
            v@,
        ),
{
    let raw = match aes_decrypt_blocks(data, key, iv) {
        Ok(v) => v,
        Err(e) => {
            return Err(e);
        },
    };
    let n = raw.len();
    if n == 0 {
        return Err(NfError::E(String::from_str("aes decrypt error.")));
    }
    let pad = raw[n - 1];
    if pad == 0 || pad > 16 {
        return Err(NfError::E(String::from_str("aes decrypt error.")));
    }
    let width = pad as usize;
    assert(width <= n);
    let mut k: usize = n - width;
    #[verifier::loop_isolation(false)]
    while k < n
        invariant
            n == raw@.len(),
            n - width <= k <= n,
            0 < width <= n,
            pad == raw@[n - 1],
            width == pad as int,
            forall|q: int| n - width <= q < k ==> raw@[q] == pad,
        decreases n - k,
    {
        if raw[k] != pad {
            proof {
                assert(raw@[k as int] != raw@.last());
            }
            return Err(NfError::E(String::from_str("aes decrypt error.")));
        }
        k = k + 1;
    }
    let out = crate::json::copy_range(&raw, 0, n - width);
    proof {
        assert(raw@.last() == pad);
        assert(forall|q: int| raw@.len() - width <= q < raw@.len() ==> raw@[q] == raw@.last());
    }
    Ok(out)
}

/// Which way a payload crosses a plain/framed boundary.
#[derive(Debug, Clone, Copy, PartialEq, Eq, Structural)]
pub enum CryptDirection {
    /// Plaintext leaving the plain side, about to enter a frame body:
    /// AES encrypts.
    IntoProtocol,
    /// A frame body about to be delivered to the plain side: AES decrypts.
    OutOfProtocol,
}

/// What the transform produces in the `IntoProtocol` direction.
pub open spec fn spec_in_transform(crypt: SupportCrypt, data: Seq<u8>) -> Seq<u8> {
    match crypt {
        SupportCrypt::Plain => data,
        SupportCrypt::Rc4(p) => spec_rc4_apply(encode_utf8(p.key@), data),
        SupportCrypt::Aes(p) => aes_cipher(encode_utf8(p.key@), encode_utf8(p.iv@), data),
    }
}

/// What the transform produces in the `OutOfProtocol` direction; `None`
/// when AES decryption rejects the bytes.
pub open spec fn spec_out_transform(crypt: SupportCrypt, data: Seq<u8>) -> Option<Seq<u8>> {
    match crypt {
        SupportCrypt::Plain => Some(data),
        SupportCrypt::Rc4(p) => Some(spec_rc4_apply(encode_utf8(p.key@), data)),
        SupportCrypt::Aes(p) => spec_aes_decrypt(encode_utf8(p.key@), encode_utf8(p.iv@), data),
    }
}

/// Law: for the self-inverse transforms, what goes into the protocol comes
/// back out unchanged. For AES the same holds of each encryption call's
/// result through its own contract.
pub proof fn lemma_transform_round_trip(crypt: SupportCrypt, data: Seq<u8>)
    requires
        !(crypt is Aes),
    ensures
        spec_out_transform(crypt, spec_in_transform(crypt, data)) == Some(data),
{
    match crypt {
        SupportCrypt::Plain => {},
        SupportCrypt::Rc4(p) => {
            lemma_rc4_self_inverse(encode_utf8(p.key@), data);
        },
        SupportCrypt::Aes(_) => {},
    }
}

/// Applies the configured transform to one payload in the given direction.
/// Into the protocol every transform succeeds; out of the protocol, AES
/// rejects bytes that are not a validly padded whole number of blocks.
pub fn transform(direction: CryptDirection, crypt: &SupportCrypt, data: &[u8]) -> (r: NfResult<
    Vec<u8>,
>)
    requires
        crypt.wf(),
    ensures
        direction is IntoProtocol ==> (r matches Ok(v) && v@ == spec_in_transform(*crypt, data@)),
        direction is OutOfProtocol ==> (r is Ok <==> spec_out_transform(*crypt, data@) is Some),
        direction is OutOfProtocol ==> (r matches Ok(v) ==> spec_out_transform(*crypt, data@)
            == Some(v@)),
{
    match crypt {
        SupportCrypt::Plain => {
            let mut v: Vec<u8> = Vec::new();
            crate::wire::append_bytes(&mut v, data);
            Ok(v)
        },
        SupportCrypt::Rc4(p) => {
            match rc4_encrypt(data, p.key.clone()) {
                Ok(v) => Ok(v),
                Err(e) => Err(e),
            }
        },
        SupportCrypt::Aes(p) => {
            match direction {
                CryptDirection::IntoProtocol => {
                    match aes_encrypt(data, p.key.clone(), p.iv.clone()) {
                        Ok(v) => Ok(v),
                        Err(e) => Err(e),
                    }
                },
                CryptDirection::OutOfProtocol => {
                    match aes_decrypt(data, p.key.clone(), p.iv.clone()) {
                        Ok(v) => Ok(v),
                        Err(e) => Err(e),
                    }
                },
            }
        },
    }
}

} // verus!
