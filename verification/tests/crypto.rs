use ankerstatus::crypto::{aes_cbc_decrypt, aes_cbc_encrypt, pad_iv};

#[test]
fn encrypt_decrypt_roundtrip() {
    let key = [0u8; 16];
    let iv = [0u8; 16];
    let plaintext = b"hello world 1234";
    let ct = aes_cbc_encrypt(&key, &iv, plaintext);
    let pt = aes_cbc_decrypt(&key, &iv, &ct).unwrap();
    assert_eq!(pt, plaintext);
}

#[test]
fn pad_iv_short() {
    let iv = pad_iv(b"ABCD");
    assert_eq!(&iv[..4], b"ABCD");
    assert_eq!(&iv[4..], &[0u8; 12]);
}

#[test]
fn pad_iv_long() {
    let iv = pad_iv(b"ABCDEFGHIJKLMNOPQRSTUVWXYZ");
    assert_eq!(&iv[..16], b"ABCDEFGHIJKLMNOP");
}

#[test]
fn known_ciphertext() {
    let key = [
        0x2b, 0x7e, 0x15, 0x16, 0x28, 0xae, 0xd2, 0xa6, 0xab, 0xf7, 0x15, 0x88, 0x09, 0xcf, 0x4f,
        0x3c,
    ];
    let iv = [0, 1, 2, 3, 4, 5, 6, 7, 8, 9, 10, 11, 12, 13, 14, 15];
    let plaintext = [
        0x6b, 0xc1, 0xbe, 0xe2, 0x2e, 0x40, 0x9f, 0x96, 0xe9, 0x3d, 0x7e, 0x11, 0x73, 0x93, 0x17,
        0x2a,
    ];
    let ciphertext = aes_cbc_encrypt(&key, &iv, &plaintext);
    assert_eq!(ciphertext.len(), 32);
    assert_eq!(
        &ciphertext[..16],
        &[
            0x76, 0x49, 0xab, 0xac, 0x81, 0x19, 0xb2, 0x46, 0xce, 0xe9, 0x8e, 0x9b, 0x12, 0xe9,
            0x19, 0x7d,
        ]
    );
}

#[test]
fn bad_lengths_and_padding_are_errors() {
    let key = [1u8; 16];
    let iv = [2u8; 16];
    assert!(aes_cbc_decrypt(&key, &iv, &[]).is_err());
    assert!(aes_cbc_decrypt(&key, &iv, &[0; 15]).is_err());
    let ciphertext = aes_cbc_encrypt(&key, &iv, b"0123456789abcdef");
    assert!(aes_cbc_decrypt(&key, &iv, &ciphertext[..16]).is_err());
    assert_eq!(aes_cbc_encrypt(&key, &iv, &[]).len(), 16);
    assert_eq!(aes_cbc_decrypt(&key, &iv, &aes_cbc_encrypt(&key, &iv, &[])).unwrap(), b"");
}

#[test]
fn opened_messages_encrypt_to_their_ciphertext() {
    let key = [7u8; 16];
    let iv = [9u8; 16];
    let mut opened = 0;
    for n in 0..=255u8 {
        let ciphertext = [n; 16];
        if let Ok(message) = aes_cbc_decrypt(&key, &iv, &ciphertext) {
            assert_eq!(aes_cbc_encrypt(&key, &iv, &message), ciphertext);
            opened += 1;
        }
    }
    for len in 0..40usize {
        let message = vec![len as u8; len];
        let ciphertext = aes_cbc_encrypt(&key, &iv, &message);
        let again = aes_cbc_decrypt(&key, &iv, &ciphertext).unwrap();
        assert_eq!(aes_cbc_encrypt(&key, &iv, &again), ciphertext);
    }
    assert!(opened < 256);
}
