use selene::client::SchoolismVideoList;
use selene::decryption::Cipher;
use selene::errors::DecryptError;

fn cipher_with(key: Vec<u8>, iv: Vec<u8>) -> Cipher {
    let list = SchoolismVideoList { key, iv, files: vec![] };
    Cipher::from_list(&list)
}

fn test_cipher() -> Cipher {
    cipher_with((0u8..16).collect(), (100u8..116).collect())
}

#[test]
fn decrypting_the_encryption_round_trips() {
    let cipher = test_cipher();
    // a plaintext whose length is a multiple of the block size
    let plaintext: Vec<u8> = (0u8..32).map(|b| b.wrapping_mul(7)).collect();
    let ciphertext = cipher.encrypt(&plaintext).unwrap();
    assert_eq!(ciphertext.len(), 48); // a whole padding block is appended
    assert_ne!(&ciphertext[..32], &plaintext[..]);
    let decrypted = cipher.decrypt(&ciphertext).unwrap();
    assert_eq!(decrypted, plaintext);
}

#[test]
fn round_trip_for_unaligned_plaintext() {
    let cipher = test_cipher();
    let plaintext: Vec<u8> = b"hello, segment".to_vec();
    let ciphertext = cipher.encrypt(&plaintext).unwrap();
    assert_eq!(ciphertext.len() % 16, 0);
    assert_eq!(cipher.decrypt(&ciphertext).unwrap(), plaintext);
}

#[test]
fn unaligned_ciphertext_is_rejected() {
    let cipher = test_cipher();
    let blob: Vec<u8> = vec![0u8; 10];
    assert_eq!(cipher.decrypt(&blob), Err(DecryptError::InvalidCiphertextLength));
}

#[test]
fn empty_ciphertext_has_no_valid_padding() {
    let cipher = test_cipher();
    let blob: Vec<u8> = vec![];
    assert_eq!(cipher.decrypt(&blob), Err(DecryptError::InvalidPadding));
}

#[test]
fn wrong_key_length_is_rejected() {
    let cipher = cipher_with(vec![1, 2, 3], vec![0u8; 16]);
    let blob: Vec<u8> = vec![0u8; 16];
    assert_eq!(cipher.decrypt(&blob), Err(DecryptError::InvalidKeyIvLength));
    assert_eq!(cipher.encrypt(&blob), Err(DecryptError::InvalidKeyIvLength));
}

#[test]
fn corrupting_the_padding_is_detected() {
    let cipher = test_cipher();
    let plaintext: Vec<u8> = vec![42u8; 16];
    let mut ciphertext = cipher.encrypt(&plaintext).unwrap();
    // strip the padding block entirely: the last plaintext byte (42) is
    // then read as a padding length whose bytes do not all match
    ciphertext.truncate(16);
    assert_eq!(cipher.decrypt(&ciphertext), Err(DecryptError::InvalidPadding));
}

#[test]
fn decryption_uses_key_and_iv() {
    let cipher = test_cipher();
    let plaintext: Vec<u8> = vec![9u8; 16];
    let ciphertext = cipher.encrypt(&plaintext).unwrap();
    let other_key = cipher_with((1u8..17).collect(), (100u8..116).collect());
    // a different key must not quietly yield the same plaintext
    assert_ne!(other_key.decrypt(&ciphertext).ok(), Some(plaintext));
}
