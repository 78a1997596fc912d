//! Challenge-response verification of a chart commitment, and a structural
//! fast-path validator that does no hashing.
use vstd::prelude::*;
use vstd::string::StringSliceAdditionalSpecFns;
use vstd::utf8::encode_utf8;
use tiny_keccak::Hasher;

verus! {

/// The Keccak-256 digest of `data`.
pub uninterp spec fn keccak_of(data: Seq<u8>) -> Seq<u8>;

/// Relies on tiny_keccak's `Keccak::v256` with `update` and `finalize`: the
/// result is the 32-byte Keccak-256 digest of the input, and depends on it alone.
#[verifier::external_body]
fn keccak_v256(input: &[u8]) -> (r: [u8; 32])
    ensures
        r@ == keccak_of(input@),
{
    let mut hasher = tiny_keccak::Keccak::v256();
    let mut output = [0u8; 32];
    hasher.update(input);
    hasher.finalize(&mut output);
    output
}

/// The Keccak-256 digest of `input`.
pub fn keccak256(input: &[u8]) -> (r: [u8; 32])
    ensures
        r@ == keccak_of(input@),
{
    keccak_v256(input)
}

/// The lowercase hexadecimal digit for `n` (below 16).
pub open spec fn hex_digit(n: u8) -> char {
    seq!['0', '1', '2', '3', '4', '5', '6', '7', '8', '9', 'a', 'b', 'c', 'd', 'e', 'f'][n as int]
}

/// Two lowercase hexadecimal digits per byte, high nibble first.
pub open spec fn hex_chars(b: Seq<u8>) -> Seq<char>
    decreases b.len(),
{
    if b.len() == 0 {
        Seq::empty()
    } else {
        hex_chars(b.drop_last()) + seq![hex_digit(b.last() / 16), hex_digit(b.last() % 16)]
    }
}

/// Relies on hex::encode: two lowercase hexadecimal digits for each byte, in order.
#[verifier::external_body]
fn hex_encode(b: &[u8]) -> (r: String)
    ensures
        r@ == hex_chars(b@),
{
    hex::encode(b)
}

/// The eight little-endian bytes of `v`.
pub open spec fn le_bytes_of(v: u64) -> Seq<u8> {
    seq![
        (v % 0x100) as u8,
        (v / 0x100 % 0x100) as u8,
        (v / 0x1_0000 % 0x100) as u8,
        (v / 0x100_0000 % 0x100) as u8,
        (v / 0x1_0000_0000 % 0x100) as u8,
        (v / 0x100_0000_0000 % 0x100) as u8,
        (v / 0x1_0000_0000_0000 % 0x100) as u8,
        (v / 0x100_0000_0000_0000 % 0x100) as u8,
    ]
}

/// The little-endian bytes of each value, concatenated in order.
pub open spec fn le_concat(values: Seq<u64>) -> Seq<u8>
    decreases values.len(),
{
    if values.len() == 0 {
        Seq::empty()
    } else {
        le_concat(values.drop_last()) + le_bytes_of(values.last())
    }
}

/// The UTF-8 bytes of `s`.
pub fn string_to_bytes(s: &str) -> (r: Vec<u8>)
    ensures
        r@ == s.spec_bytes(),
{
    let b = s.as_bytes();
    let mut out: Vec<u8> = Vec::new();
    let mut i: usize = 0;
    while i < b.len()
        invariant
            i <= b@.len(),
            b@ == s.spec_bytes(),
            out@ == b@.subrange(0, i as int),
        decreases b@.len() - i,
    {
        out.push(b[i]);
        i = i + 1;
        assert(out@ =~= b@.subrange(0, i as int));
    }
    assert(b@.subrange(0, b@.len() as int) =~= b@);
    out
}

/// The little-endian bytes of each value, concatenated in order.
pub fn u64_array_to_bytes(values: &[u64]) -> (r: Vec<u8>)
    ensures
        r@ == le_concat(values@),
{
    let mut out: Vec<u8> = Vec::new();
    let mut i: usize = 0;
    while i < values.len()
        invariant
            i <= values@.len(),
            out@ == le_concat(values@.subrange(0, i as int)),
        decreases values@.len() - i,
    {
        let v = values[i];
        let le: [u8; 8] = [
            (v % 0x100) as u8,
            (v / 0x100 % 0x100) as u8,
            (v / 0x1_0000 % 0x100) as u8,
            (v / 0x100_0000 % 0x100) as u8,
            (v / 0x1_0000_0000 % 0x100) as u8,
            (v / 0x100_0000_0000 % 0x100) as u8,
            (v / 0x1_0000_0000_0000 % 0x100) as u8,
            (v / 0x100_0000_0000_0000 % 0x100) as u8,
        ];
        assert(le@ =~= le_bytes_of(v));
        out.extend_from_slice(le.as_slice());
        assert(values@.subrange(0, i + 1).drop_last() =~= values@.subrange(0, i as int));
        i = i + 1;
        assert(out@ =~= le_concat(values@.subrange(0, i as int)));
    }
    assert(values@.subrange(0, values@.len() as int) =~= values@);
    out
}

/// The hex string of the challenge that binds a commitment to chart positions.
pub open spec fn challenge_hex(commitment: Seq<u8>, positions: Seq<u64>) -> Seq<char> {
    hex_chars(keccak_of(commitment + le_concat(positions)))
}

/// The hex string of the proof that a prover holding `nonce` must present.
pub open spec fn expected_proof(commitment: Seq<u8>, nonce: Seq<u8>, positions: Seq<u64>) -> Seq<
    char,
> {
    hex_chars(
        keccak_of(commitment + nonce + encode_utf8(challenge_hex(commitment, positions))),
    )
}

/// Whether `proof` opens `commitment` for `nonce` and `positions`: none of the
/// inputs is empty and `proof` is the expected hex digest.
pub open spec fn zk_proof_valid(
    commitment: &str,
    proof: &str,
    nonce: &str,
    positions: Seq<u64>,
) -> bool {
    commitment@.len() > 0 && proof@.len() > 0 && nonce@.len() > 0 && positions.len() > 0
        && proof@ == expected_proof(commitment.spec_bytes(), nonce.spec_bytes(), positions)
}

/// Checks a challenge-response proof: the challenge is the Keccak-256 digest
/// of the commitment followed by the positions' little-endian bytes, and the
/// proof must be the lowercase hex digest of commitment, nonce and challenge hex.
pub fn verify_zk_proof(
    commitment: &str,
    proof: &str,
    nonce: &str,
    position_values: &[u64],
) -> (r: bool)
    ensures
        r == zk_proof_valid(commitment, proof, nonce, position_values@),
{
    if commitment.is_empty() || proof.is_empty() || nonce.is_empty() {
        return false;
    }
    if position_values.len() == 0 {
        return false;
    }
    let commitment_bytes = string_to_bytes(commitment);

    let mut challenge_input: Vec<u8> = Vec::new();
    challenge_input.extend_from_slice(commitment_bytes.as_slice());
    challenge_input.extend_from_slice(u64_array_to_bytes(position_values).as_slice());
    assert(challenge_input@ =~= commitment.spec_bytes() + le_concat(position_values@));
    let challenge_hash = keccak256(challenge_input.as_slice());
    let challenge = hex_encode(challenge_hash.as_slice());

    let mut proof_input: Vec<u8> = Vec::new();
    proof_input.extend_from_slice(commitment_bytes.as_slice());
    proof_input.extend_from_slice(string_to_bytes(nonce).as_slice());
    proof_input.extend_from_slice(string_to_bytes(challenge.as_str()).as_slice());
    assert(proof_input@ =~= commitment.spec_bytes() + nonce.spec_bytes() + encode_utf8(
        challenge_hex(commitment.spec_bytes(), position_values@),
    ));
    let expected_hash = keccak256(proof_input.as_slice());
    let expected = hex_encode(expected_hash.as_slice());

    let presented = proof.to_owned();
    expected == presented
}

/// A proof built by the two-step hash chain from non-empty inputs is accepted,
/// as long as it is non-empty (a digest's hex string always is).
pub proof fn lemma_chain_proof_accepted(
    commitment: &str,
    proof: &str,
    nonce: &str,
    positions: Seq<u64>,
)
    requires
        commitment@.len() > 0,
        nonce@.len() > 0,
        positions.len() > 0,
        proof@ == expected_proof(commitment.spec_bytes(), nonce.spec_bytes(), positions),
    ensures
        zk_proof_valid(commitment, proof, nonce, positions) == (proof@.len() > 0),
{
}

/// A proof built for one set of inputs is refused for any other inputs whose
/// chain yields a different digest.
pub proof fn lemma_changed_input_refused(
    commitment: &str,
    proof: &str,
    nonce: &str,
    positions: Seq<u64>,
    commitment2: &str,
    nonce2: &str,
    positions2: Seq<u64>,
)
    requires
        proof@ == expected_proof(commitment.spec_bytes(), nonce.spec_bytes(), positions),
        expected_proof(commitment2.spec_bytes(), nonce2.spec_bytes(), positions2) != proof@,
    ensures
        !zk_proof_valid(commitment2, proof, nonce2, positions2),
{
}

/// The structural checks of the fast path: byte lengths of at least 32, 32 and
/// 16, at least seven positions, each at most 36000 (degrees times 100).
pub open spec fn simple_proof_valid(
    commitment: &str,
    proof: &str,
    nonce: &str,
    positions: Seq<u64>,
) -> bool {
    commitment.len() >= 32 && proof.len() >= 32 && nonce.len() >= 16 && positions.len() >= 7 && forall|i: int|
        0 <= i < positions.len() ==> positions[i] <= 36000
}

/// Checks only the shape of the inputs; it hashes nothing and proves nothing
/// about the commitment.
pub fn verify_zk_proof_simple(
    commitment: &str,
    proof: &str,
    nonce: &str,
    position_values: &[u64],
) -> (r: bool)
    ensures
        r == simple_proof_valid(commitment, proof, nonce, position_values@),
{
    if commitment.len() < 32 {
        return false;
    }
    if proof.len() < 32 {
        return false;
    }
    if nonce.len() < 16 {
        return false;
    }
    if position_values.len() < 7 {
        return false;
    }
    let mut i: usize = 0;
    while i < position_values.len()
        invariant
            i <= position_values@.len(),
            forall|k: int| 0 <= k < i ==> position_values@[k] <= 36000,
        decreases position_values@.len() - i,
    {
        if position_values[i] > 36000 {
            return false;
        }
        i = i + 1;
    }
    true
}

} // verus!
