use rand::{thread_rng, Rng};
use vela::encrypt::{encrypt_to, encrypt_to_vec, random_iv, EncryptionAlgorithm};

#[test]
fn test_encrypt() {
    let mut rng = thread_rng();
    let key = rng.gen::<[u8; 32]>();
    let iv = random_iv();

    let mut src = [0u8; 1024];
    rng.fill(&mut src);

    let mut dst = vec![0u8; 1024];
    assert!(encrypt_to(dst.as_mut_slice(), &src, &key, &iv, EncryptionAlgorithm::Aes).is_ok());

    let act = encrypt_to_vec(dst.as_slice(), &key, &iv, EncryptionAlgorithm::Aes).ok().unwrap();
    assert_eq!(src.clone().to_vec(), act);

    let mut dst = vec![0u8; 1024];
    assert!(encrypt_to(dst.as_mut_slice(), &src, &key, &iv, EncryptionAlgorithm::Unencrypted).is_ok());
    assert_eq!(dst.as_slice(), src.as_ref());

    let act = encrypt_to_vec(dst.as_slice(), &key, &iv, EncryptionAlgorithm::Unencrypted).ok().unwrap();
    assert_eq!(src.clone().to_vec(), act);
}

#[test]
fn encrypt_changes_the_bytes_and_rejects_bad_keys() {
    let key = [7u8; 16];
    let iv = [1u8; 16];
    let src = vec![0u8; 64];
    let enc = encrypt_to_vec(&src, &key, &iv, EncryptionAlgorithm::Aes).ok().unwrap();
    assert_eq!(enc.len(), 64);
    assert_ne!(enc, src);
    // 24- and 32-byte keys work too; 20 bytes do not.
    assert!(encrypt_to_vec(&src, &[3u8; 24], &iv, EncryptionAlgorithm::Aes).is_ok());
    assert!(encrypt_to_vec(&src, &[3u8; 32], &iv, EncryptionAlgorithm::Aes).is_ok());
    assert!(encrypt_to_vec(&src, &[3u8; 20], &iv, EncryptionAlgorithm::Aes).is_err());
    // lengths must agree
    let mut short = vec![0u8; 10];
    assert!(encrypt_to(&mut short, &src, &key, &iv, EncryptionAlgorithm::Aes).is_err());
}
