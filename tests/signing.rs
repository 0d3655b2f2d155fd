use warehouseify::signing::{check_minisign, load_secret_key, sign_file, SigningError};

fn keypair() -> (minisign::SecretKey, String) {
    let kp = minisign::KeyPair::generate_unencrypted_keypair().unwrap();
    (kp.sk, kp.pk.to_base64())
}

#[test]
fn signature_is_not_empty_and_verifies() {
    let (sk, pk) = keypair();
    let signature = sign_file(&pk, &sk, b"binary bytes").unwrap();
    assert!(!signature.is_empty());
    let text = String::from_utf8(signature).unwrap();
    let signature_box = minisign::SignatureBox::from_string(&text).unwrap();
    let public = minisign::PublicKey::from_base64(&pk).unwrap();
    minisign::verify(&public, &signature_box, std::io::Cursor::new(&b"binary bytes"[..]), true, false, false).unwrap();
}

#[test]
fn malformed_public_key_is_refused() {
    let (sk, _) = keypair();
    assert_eq!(sign_file("not base64", &sk, b"data"), Err(SigningError::MalformedPublicKey));
}

#[test]
fn mismatched_public_key_fails_signing() {
    let (sk, _) = keypair();
    let (_, other) = keypair();
    assert_eq!(sign_file(&other, &sk, b"data"), Err(SigningError::SigningFailed));
}

#[test]
fn secret_key_sources() {
    assert_eq!(load_secret_key(None, None, String::new()).err(), Some(SigningError::NoSecretKey));
    assert_eq!(
        load_secret_key(Some("garbage".to_string()), None, String::new()).err(),
        Some(SigningError::InvalidSecretKey)
    );
    let kp = minisign::KeyPair::generate_unencrypted_keypair().unwrap();
    let unencrypted = kp.sk.to_box(None).unwrap().to_string();
    assert_eq!(
        load_secret_key(None, Some(unencrypted), String::new()).err(),
        Some(SigningError::InvalidSecretKey)
    );
}

#[test]
fn encrypted_secret_key_opens_with_its_password() {
    let kp = minisign::KeyPair::generate_encrypted_keypair(Some("hunter2".to_string())).unwrap();
    let text = kp.sk.to_box(None).unwrap().to_string();
    let sk = load_secret_key(None, Some(text.clone()), "hunter2".to_string()).unwrap();
    assert!(!sign_file(&kp.pk.to_base64(), &sk, b"data").unwrap().is_empty());
    assert_eq!(
        load_secret_key(Some("garbage".to_string()), Some(text), "hunter2".to_string()).err(),
        Some(SigningError::InvalidSecretKey)
    );
}

#[test]
fn signing_tool_check() {
    assert!(check_minisign(Some(2)));
    assert!(!check_minisign(Some(0)));
    assert!(!check_minisign(None));
}
