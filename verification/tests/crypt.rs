use nf_tunnel::crypt::{aes_decrypt, aes_encrypt, rc4_decrypt, rc4_encrypt, transform, CryptDirection};
use nf_tunnel::settings::{AesParam, Rc4Param, SupportCrypt};

#[test]
pub fn test_block_encrypt() {
    let message = "Hello World!";

    let key = "1234567890qwertyuiopasdfghjklzxc".to_string();
    let iv = "qwertyuiopASDFGH".to_string();

    let encrypted_data = aes_encrypt(message.as_bytes(), key.clone(), iv.clone()).unwrap();
    let origin_data = aes_decrypt(&encrypted_data[..], key.clone(), iv.clone()).unwrap();
    assert_eq!(message.as_bytes(), &origin_data[..]);
}

#[test]
pub fn test_stream() {
    let key = "key".to_string();
    let input = "luna";
    let output = rc4_encrypt(input.as_bytes(), key.clone()).unwrap();
    println!("output: {:?}", &output);
    let origin = rc4_decrypt(&output[..], key.clone()).unwrap();
    println!("input: {:?}", &origin);

    assert_eq!(input.as_bytes(), origin);
}

#[test]
fn test_rc4_known_vector() {
    // the classic published RC4 test vector
    let output = rc4_encrypt("pedia".as_bytes(), "Wiki".to_string()).unwrap();
    assert_eq!(output, vec![0x10, 0x21, 0xBF, 0x04, 0x20]);
}

#[test]
fn test_aes_deterministic_and_padded() {
    let key = "1234567890qwertyuiopasdfghjklzxc".to_string();
    let iv = "qwertyuiopASDFGH".to_string();
    let data = b"ping";
    let c1 = aes_encrypt(data, key.clone(), iv.clone()).unwrap();
    let c2 = aes_encrypt(data, key.clone(), iv.clone()).unwrap();
    assert_eq!(c1, c2);
    assert_eq!(c1.len(), data.len() + 16 - (data.len() % 16));
    assert_ne!(&c1[..data.len()], &data[..]);

    // a 16-byte input gains one whole padding block
    let block = [7u8; 16];
    let c3 = aes_encrypt(&block, key.clone(), iv.clone()).unwrap();
    assert_eq!(c3.len(), 32);
}

#[test]
fn test_aes_wrong_key_does_not_restore() {
    let key = "1234567890qwertyuiopasdfghjklzxc".to_string();
    let wrong = "x234567890qwertyuiopasdfghjklzxc".to_string();
    let iv = "qwertyuiopASDFGH".to_string();
    let cipher = aes_encrypt(b"ping", key.clone(), iv.clone()).unwrap();
    match aes_decrypt(&cipher[..], wrong, iv) {
        Ok(garbled) => assert_ne!(garbled, b"ping".to_vec()),
        Err(_) => {},
    }
}

#[test]
fn test_aes_decrypt_rejects_partial_block() {
    let key = "1234567890qwertyuiopasdfghjklzxc".to_string();
    let iv = "qwertyuiopASDFGH".to_string();
    assert!(aes_decrypt(&[1, 2, 3], key.clone(), iv.clone()).is_err());
    // an empty ciphertext has no padding block to strip
    assert!(aes_decrypt(&[], key, iv).is_err());
}

#[test]
fn test_aes_empty_payload_is_not_padded() {
    let key = "1234567890qwertyuiopasdfghjklzxc".to_string();
    let iv = "qwertyuiopASDFGH".to_string();
    // the cipher's buffer engine never pads empty input, so an empty
    // payload encrypts to nothing, which the strict decryption rejects
    let cipher = aes_encrypt(b"", key.clone(), iv.clone()).unwrap();
    assert!(cipher.is_empty());
    assert!(aes_decrypt(&cipher[..], key, iv).is_err());
}

#[test]
fn test_aes_decrypt_never_panics_on_arbitrary_blocks() {
    let key = "1234567890qwertyuiopasdfghjklzxc".to_string();
    let iv = "qwertyuiopASDFGH".to_string();
    // whatever the decrypted padding byte turns out to be, the result is
    // a value, not a crash
    for filler in 0u8..=255 {
        let block = [filler; 16];
        let _ = aes_decrypt(&block, key.clone(), iv.clone());
        let two = [filler; 32];
        let _ = aes_decrypt(&two, key.clone(), iv.clone());
    }
}

#[test]
fn test_transform_plain_is_identity() {
    let crypt = SupportCrypt::Plain;
    let out = transform(CryptDirection::IntoProtocol, &crypt, b"abc").unwrap();
    assert_eq!(out, b"abc".to_vec());
    let back = transform(CryptDirection::OutOfProtocol, &crypt, b"abc").unwrap();
    assert_eq!(back, b"abc".to_vec());
}

#[test]
fn test_transform_rc4_round_trip() {
    let crypt = SupportCrypt::Rc4(Rc4Param { key: "key".to_string() });
    let once = transform(CryptDirection::IntoProtocol, &crypt, b"payload").unwrap();
    assert_ne!(once, b"payload".to_vec());
    let twice = transform(CryptDirection::OutOfProtocol, &crypt, &once[..]).unwrap();
    assert_eq!(twice, b"payload".to_vec());
}

#[test]
fn test_transform_aes_directions() {
    let crypt = SupportCrypt::Aes(AesParam {
        key: "1234567890qwertyuiopasdfghjklzxc".to_string(),
        iv: "qwertyuiopASDFGH".to_string(),
    });
    let cipher = transform(CryptDirection::IntoProtocol, &crypt, b"secret").unwrap();
    assert_ne!(cipher, b"secret".to_vec());
    let plain = transform(CryptDirection::OutOfProtocol, &crypt, &cipher[..]).unwrap();
    assert_eq!(plain, b"secret".to_vec());
}
