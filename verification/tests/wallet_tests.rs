use pow_chain::wallet::Wallet;

// RFC 8032, section 7.1, test 1.
const SECRET: &str = "9d61b19deffd5a60ba844af492ec2cc44449c5697b326919703bac031cae7f60";
const PUBLIC: &str = "d75a980182b10ab7d54bfed3c964073a0ee172f3daa62325af021a68f707511a";
const EMPTY_SIGNATURE: &str = "e5564300c360ac729086e2cc806e828a84877f1eb8e5d974d873e065224901555fb8821590a33bacc61e39701cf9b46bd25bf5f0595bbe24655141438e7a100b";

fn rfc_wallet() -> Wallet {
    Wallet::from_secret_key(&hex::decode(SECRET).unwrap()).unwrap()
}

#[test]
fn public_key_and_address_of_known_secret() {
    let wallet = rfc_wallet();
    assert_eq!(wallet.public_key_bytes(), hex::decode(PUBLIC).unwrap().as_slice());
    assert_eq!(wallet.secret_key_bytes(), hex::decode(SECRET).unwrap().as_slice());
    assert_eq!(wallet.address(), PUBLIC);
    assert_eq!(wallet.short_address(), "d75a980182b10ab7");
}

#[test]
fn signature_of_known_secret() {
    let wallet = rfc_wallet();
    assert_eq!(hex::encode(wallet.sign(b"")), EMPTY_SIGNATURE);
}

#[test]
fn verify_accepts_own_signature_and_rejects_tampering() {
    let wallet = rfc_wallet();
    let public = hex::decode(PUBLIC).unwrap();
    let signature = wallet.sign(b"hello");
    assert!(Wallet::verify(&public, b"hello", &signature));
    assert!(!Wallet::verify(&public, b"hellp", &signature));
    let mut bad = signature.clone();
    bad[0] ^= 1;
    assert!(!Wallet::verify(&public, b"hello", &bad));
}

#[test]
fn verify_rejects_wrong_lengths() {
    let wallet = rfc_wallet();
    let public = hex::decode(PUBLIC).unwrap();
    let signature = wallet.sign(b"x");
    assert!(!Wallet::verify(&public, b"x", &signature[..63]));
    assert!(!Wallet::verify(&public[..31], b"x", &signature));
    assert!(!Wallet::verify(&[], b"x", &signature));
}

#[test]
fn generated_wallets_sign_verifiably() {
    let wallet = Wallet::generate();
    let other = Wallet::generate();
    assert_ne!(wallet.address(), other.address());
    assert_eq!(wallet.address().len(), 64);
    let signature = wallet.sign(b"data");
    assert!(Wallet::verify(wallet.public_key_bytes(), b"data", &signature));
    assert!(!Wallet::verify(other.public_key_bytes(), b"data", &signature));
}

#[test]
fn from_secret_key_needs_32_bytes() {
    assert!(Wallet::from_secret_key(&[1u8; 31]).is_none());
    assert!(Wallet::from_secret_key(&[1u8; 33]).is_none());
    assert!(Wallet::from_secret_key(&[1u8; 32]).is_some());
}

#[test]
fn from_key_bytes_checks_lengths_and_point() {
    let secret = hex::decode(SECRET).unwrap();
    let public = hex::decode(PUBLIC).unwrap();
    let wallet = Wallet::from_key_bytes(&secret, &public).unwrap();
    assert_eq!(wallet.address(), PUBLIC);
    assert!(Wallet::from_key_bytes(&secret[..31], &public).is_none());
    assert!(Wallet::from_key_bytes(&secret, &public[..31]).is_none());
    // y = 2 is not the y-coordinate of any point of the curve.
    let mut not_a_point = [0u8; 32];
    not_a_point[0] = 2;
    assert!(Wallet::from_key_bytes(&secret, &not_a_point).is_none());
}

#[test]
fn stored_keys_need_not_match() {
    let secret = hex::decode(SECRET).unwrap();
    let other = Wallet::generate();
    let wallet = Wallet::from_key_bytes(&secret, other.public_key_bytes()).unwrap();
    assert_eq!(wallet.address(), other.address());
    // Signing uses the key that belongs to the secret, not the stored one.
    assert_eq!(hex::encode(wallet.sign(b"")), EMPTY_SIGNATURE);
}
