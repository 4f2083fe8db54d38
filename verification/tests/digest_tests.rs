use onvif_client::digest::{compute_digest, encode_digest, encode_nonce, password_digest};

fn counting_nonce() -> [u8; 32] {
    let mut nonce = [0u8; 32];
    for (i, b) in nonce.iter_mut().enumerate() {
        *b = i as u8;
    }
    nonce
}

#[test]
fn digest_of_known_inputs() {
    let digest = compute_digest(&counting_nonce(), "2024-01-02T03:04:05Z", "secret");
    assert_eq!(
        digest,
        [120, 148, 190, 120, 145, 191, 155, 184, 32, 115, 223, 16, 114, 174, 120, 16, 99, 65, 26, 100]
    );
}

#[test]
fn digest_of_empty_texts() {
    let digest = compute_digest(&[0u8; 32], "", "");
    assert_eq!(
        digest,
        [222, 138, 132, 123, 255, 140, 52, 61, 105, 184, 83, 162, 21, 230, 238, 119, 94, 242, 239, 150]
    );
}

#[test]
fn digest_hashes_utf8_bytes_of_secret() {
    let digest = compute_digest(&counting_nonce(), "2024-01-02T03:04:05Z", "pässwörd");
    assert_eq!(
        digest,
        [144, 35, 19, 19, 81, 61, 205, 193, 34, 92, 197, 159, 104, 39, 24, 132, 75, 48, 187, 102]
    );
}

#[test]
fn digest_is_deterministic() {
    let a = compute_digest(&counting_nonce(), "2024-01-02T03:04:05Z", "secret");
    let b = compute_digest(&counting_nonce(), "2024-01-02T03:04:05Z", "secret");
    assert_eq!(a, b);
}

#[test]
fn digest_depends_on_order_of_parts() {
    let a = compute_digest(&counting_nonce(), "2024-01-02T03:04:05Z", "secret");
    let b = compute_digest(&counting_nonce(), "secret", "2024-01-02T03:04:05Z");
    assert_ne!(a, b);
    assert_eq!(
        b,
        [245, 1, 172, 63, 244, 235, 105, 1, 40, 41, 84, 170, 144, 40, 233, 51, 139, 142, 248, 10]
    );
}

#[test]
fn digest_depends_on_nonce() {
    let a = compute_digest(&counting_nonce(), "2024-01-02T03:04:05Z", "secret");
    let b = compute_digest(&[0u8; 32], "2024-01-02T03:04:05Z", "secret");
    assert_ne!(a, b);
}

#[test]
fn password_digest_is_base64_of_digest() {
    let text = password_digest(&counting_nonce(), "2024-01-02T03:04:05Z", "secret");
    assert_eq!(text, "eJS+eJG/m7ggc98Qcq54EGNBGmQ=");
    let digest = compute_digest(&counting_nonce(), "2024-01-02T03:04:05Z", "secret");
    assert_eq!(encode_digest(&digest), text);
}

#[test]
fn nonce_is_embedded_as_base64() {
    assert_eq!(encode_nonce(&counting_nonce()), "AAECAwQFBgcICQoLDA0ODxAREhMUFRYXGBkaGxwdHh8=");
}

#[test]
fn base64_text_stays_in_its_alphabet() {
    let text = encode_nonce(&[0xff; 32]);
    assert_eq!(text, "//////////////////////////////////////////8=");
    assert!(text.chars().all(|c| c.is_ascii_alphanumeric() || c == '+' || c == '/' || c == '='));
}
