use chart_registry::{
    keccak256, string_to_bytes, u64_array_to_bytes, verify_zk_proof, verify_zk_proof_simple,
};
use tiny_keccak::Hasher;

fn reference_digest(input: &[u8]) -> [u8; 32] {
    let mut hasher = tiny_keccak::Keccak::v256();
    let mut out = [0u8; 32];
    hasher.update(input);
    hasher.finalize(&mut out);
    out
}

fn chain_proof(commitment: &str, nonce: &str, positions: &[u64]) -> String {
    let mut challenge_input = commitment.as_bytes().to_vec();
    for p in positions {
        challenge_input.extend_from_slice(&p.to_le_bytes());
    }
    let challenge = hex::encode(reference_digest(&challenge_input));
    let mut proof_input = commitment.as_bytes().to_vec();
    proof_input.extend_from_slice(nonce.as_bytes());
    proof_input.extend_from_slice(challenge.as_bytes());
    hex::encode(reference_digest(&proof_input))
}

const POSITIONS: [u64; 7] = [100, 200, 300, 400, 500, 600, 700];

#[test]
fn test_keccak256() {
    let input = b"test";
    let hash = keccak256(input);
    assert_eq!(hash.len(), 32);
}

#[test]
fn keccak256_known_digests() {
    assert_eq!(
        hex::encode(keccak256(b"")),
        "c5d2460186f7233c927e7db2dcc703c0e500b653ca82273b7bfad8045d85a470"
    );
    assert_eq!(
        hex::encode(keccak256(b"test")),
        "9c22ff5f21f0b81b113e63f7db6da94fedef11b2119b4088b89664fb9a3cb658"
    );
}

#[test]
fn test_verify_zk_proof_simple() {
    let commitment = "a".repeat(40);
    let proof = "b".repeat(40);
    let nonce = "c".repeat(20);
    let positions = vec![100, 200, 300, 400, 500, 600, 700];

    let result = verify_zk_proof_simple(&commitment, &proof, &nonce, &positions);
    assert!(result);
}

#[test]
fn test_verify_zk_proof_invalid_commitment() {
    let commitment = "short";
    let proof = "b".repeat(40);
    let nonce = "c".repeat(20);
    let positions = vec![100, 200, 300, 400, 500, 600, 700];

    let result = verify_zk_proof_simple(&commitment, &proof, &nonce, &positions);
    assert!(!result);
}

#[test]
fn test_verify_zk_proof_invalid_positions() {
    let commitment = "a".repeat(40);
    let proof = "b".repeat(40);
    let nonce = "c".repeat(20);
    let positions = vec![100, 200, 300];

    let result = verify_zk_proof_simple(&commitment, &proof, &nonce, &positions);
    assert!(!result);
}

#[test]
fn test_verify_zk_proof_out_of_range() {
    let commitment = "a".repeat(40);
    let proof = "b".repeat(40);
    let nonce = "c".repeat(20);
    let positions = vec![100, 200, 300, 400, 500, 600, 99999];

    let result = verify_zk_proof_simple(&commitment, &proof, &nonce, &positions);
    assert!(!result);
}

#[test]
fn simple_check_boundaries() {
    let c32 = "a".repeat(32);
    let p32 = "b".repeat(32);
    let n16 = "c".repeat(16);
    let mut positions = POSITIONS.to_vec();
    assert!(verify_zk_proof_simple(&c32, &p32, &n16, &positions));
    assert!(!verify_zk_proof_simple(&"a".repeat(31), &p32, &n16, &positions));
    assert!(!verify_zk_proof_simple(&c32, &"b".repeat(31), &n16, &positions));
    assert!(!verify_zk_proof_simple(&c32, &p32, &"c".repeat(15), &positions));
    positions[6] = 36000;
    assert!(verify_zk_proof_simple(&c32, &p32, &n16, &positions));
    positions[0] = 36001;
    assert!(!verify_zk_proof_simple(&c32, &p32, &n16, &positions));
    assert!(!verify_zk_proof_simple(&c32, &p32, &n16, &POSITIONS[..6]));
}

#[test]
fn chain_proof_is_accepted() {
    let commitment = "a".repeat(40);
    let nonce = "c".repeat(20);
    let proof = chain_proof(&commitment, &nonce, &POSITIONS);
    assert_eq!(proof.len(), 64);
    assert!(verify_zk_proof(&commitment, &proof, &nonce, &POSITIONS));
}

#[test]
fn changed_inputs_are_refused() {
    let commitment = "a".repeat(40);
    let nonce = "c".repeat(20);
    let proof = chain_proof(&commitment, &nonce, &POSITIONS);
    for i in 0..commitment.len() {
        let mut c = commitment.clone().into_bytes();
        c[i] = b'b';
        let c = String::from_utf8(c).unwrap();
        assert!(!verify_zk_proof(&c, &proof, &nonce, &POSITIONS));
    }
    for i in 0..nonce.len() {
        let mut n = nonce.clone().into_bytes();
        n[i] = b'd';
        let n = String::from_utf8(n).unwrap();
        assert!(!verify_zk_proof(&commitment, &proof, &n, &POSITIONS));
    }
    for i in 0..POSITIONS.len() {
        let mut p = POSITIONS;
        p[i] += 1;
        assert!(!verify_zk_proof(&commitment, &proof, &nonce, &p));
    }
    assert!(!verify_zk_proof(&commitment, &proof.to_uppercase(), &nonce, &POSITIONS));
}

#[test]
fn empty_inputs_are_refused() {
    let commitment = "a".repeat(40);
    let nonce = "c".repeat(20);
    let proof = chain_proof(&commitment, &nonce, &POSITIONS);
    assert!(!verify_zk_proof("", &proof, &nonce, &POSITIONS));
    assert!(!verify_zk_proof(&commitment, "", &nonce, &POSITIONS));
    assert!(!verify_zk_proof(&commitment, &proof, "", &POSITIONS));
    assert!(!verify_zk_proof(&commitment, &proof, &nonce, &[]));
}

#[test]
fn byte_conversions() {
    assert_eq!(string_to_bytes("ab\u{20ac}"), vec![0x61, 0x62, 0xe2, 0x82, 0xac]);
    assert_eq!(
        u64_array_to_bytes(&[1, 0x0102030405060708]),
        vec![1, 0, 0, 0, 0, 0, 0, 0, 8, 7, 6, 5, 4, 3, 2, 1]
    );
    assert!(u64_array_to_bytes(&[]).is_empty());
}
