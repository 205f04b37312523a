//! The `validatorL1Stream` vote: its MessagePack action bytes, the EIP-712
//! phantom-agent digest, and the signature over it.

use vstd::prelude::*;
use vstd::string::*;
use vstd::utf8::encode_utf8;
use crate::error::SofrError;

verus! {

/// Keccak-256 digest of `data`.
pub uninterp spec fn keccak256_of(data: Seq<u8>) -> Seq<u8>;

/// The ECDSA (secp256k1) signature `(r, s, y-parity)` that the secret key `key`
/// makes over the 32-byte prehash `digest`, or `None` where the key is refused.
pub uninterp spec fn ecdsa_signature(key: Seq<u8>, digest: Seq<u8>) -> Option<(Seq<u8>, Seq<u8>, bool)>;

/// Relies on alloy's `keccak256`: a 32-byte digest.
#[verifier::external_body]
pub(crate) fn keccak256(data: &[u8]) -> (r: Vec<u8>)
    ensures
        r@ == keccak256_of(data@),
        r@.len() == 32,
{
    alloy::primitives::keccak256(data).to_vec()
}

/// Relies on alloy's `PrivateKeySigner::from_slice` and `SignerSync::sign_hash_sync`
/// (deterministic RFC 6979 signing): `r` and `s` as 32 big-endian bytes each.
#[verifier::external_body]
fn sign_prehash(key: &[u8], digest: &[u8]) -> (r: Option<(Vec<u8>, Vec<u8>, bool)>)
    ensures
        r matches Some(t) ==> ecdsa_signature(key@, digest@) == Some((t.0@, t.1@, t.2))
            && t.0@.len() == 32 && t.1@.len() == 32,
        r is None ==> ecdsa_signature(key@, digest@) is None,
{
    let signer = alloy::signers::local::PrivateKeySigner::from_slice(key).ok()?;
    let hash = alloy::primitives::B256::try_from(digest).ok()?;
    let sig = alloy_signer::SignerSync::sign_hash_sync(&signer, &hash).ok()?;
    Some((sig.r().to_be_bytes::<32>().to_vec(), sig.s().to_be_bytes::<32>().to_vec(), sig.v()))
}

/// The action object `{ type: "validatorL1Stream", riskFreeRate: <rate> }`.
#[derive(Clone, Debug)]
pub struct ValidatorL1StreamAction {
    pub type_string: String,
    pub risk_free_rate: String,
}

impl ValidatorL1StreamAction {
    pub fn new(rate: &str) -> (r: Self)
        ensures
            r.type_string@ == "validatorL1Stream"@,
            r.risk_free_rate@ == rate@,
    {
        ValidatorL1StreamAction {
            type_string: String::from_str("validatorL1Stream"),
            risk_free_rate: String::from_str(rate),
        }
    }
}

/// Encoded wallet signature: `r` and `s` as `0x`-prefixed hex, `v` as 27 or 28.
#[derive(Clone, Debug)]
pub struct SignatureReq {
    pub r: String,
    pub s: String,
    pub v: u64,
}

/// The `/exchange` request body.
#[derive(Clone, Debug)]
pub struct ExchangeRequest {
    pub action: ValidatorL1StreamAction,
    pub nonce: u64,
    pub signature: SignatureReq,
}

/// A produced signature: 32-byte `r` and `s`, and `v` in the 27/28 form.
#[derive(Clone, Debug)]
pub struct Signature {
    pub r: Vec<u8>,
    pub s: Vec<u8>,
    pub v: u64,
}

/// MessagePack string header for a string of `n` bytes (shortest form).
pub open spec fn msgpack_str_header(n: nat) -> Seq<u8> {
    if n < 32 {
        seq![(0xa0 + n) as u8]
    } else if n < 256 {
        seq![0xd9u8, n as u8]
    } else if n < 65536 {
        seq![0xdau8, (n / 256) as u8, (n % 256) as u8]
    } else {
        seq![0xdbu8, (n / 16777216) as u8, ((n / 65536) % 256) as u8, ((n / 256) % 256) as u8, (n % 256) as u8]
    }
}

pub open spec fn msgpack_str(b: Seq<u8>) -> Seq<u8> {
    msgpack_str_header(b.len()) + b
}

/// The eight big-endian bytes of `n`.
pub open spec fn be_u64(n: u64) -> Seq<u8> {
    seq![
        ((n >> 56) % 256) as u8, ((n >> 48) % 256) as u8, ((n >> 40) % 256) as u8,
        ((n >> 32) % 256) as u8, ((n >> 24) % 256) as u8, ((n >> 16) % 256) as u8,
        ((n >> 8) % 256) as u8, (n % 256) as u8,
    ]
}

/// ASCII `type`.
pub open spec fn key_type() -> Seq<u8> {
    seq![0x74u8, 0x79, 0x70, 0x65]
}

/// ASCII `validatorL1Stream`.
pub open spec fn action_type() -> Seq<u8> {
    seq![0x76u8, 0x61, 0x6c, 0x69, 0x64, 0x61, 0x74, 0x6f, 0x72, 0x4c, 0x31, 0x53, 0x74, 0x72, 0x65, 0x61, 0x6d]
}

/// ASCII `riskFreeRate`.
pub open spec fn key_risk_free_rate() -> Seq<u8> {
    seq![0x72u8, 0x69, 0x73, 0x6b, 0x46, 0x72, 0x65, 0x65, 0x52, 0x61, 0x74, 0x65]
}

/// The action object as a MessagePack map with named keys in declaration order
/// (`type`, then `riskFreeRate`).
pub open spec fn action_msgpack(rate: Seq<u8>) -> Seq<u8> {
    seq![0x82u8] + msgpack_str(key_type()) + msgpack_str(action_type()) + msgpack_str(
        key_risk_free_rate(),
    ) + msgpack_str(rate)
}

/// Bytes hashed into the action hash: the action, the nonce (big-endian), and the
/// empty-vault byte.
pub open spec fn action_bytes(rate: Seq<u8>, nonce: u64) -> Seq<u8> {
    action_msgpack(rate) + be_u64(nonce) + seq![0u8]
}

/// Appends `b` to `out`.
pub fn append_bytes(out: &mut Vec<u8>, b: &[u8])
    ensures
        final(out)@ == old(out)@ + b@,
{
    let mut i: usize = 0;
    let ghost start = out@;
    while i < b.len()
        invariant
            i <= b@.len(),
            out@ == start + b@.subrange(0, i as int),
        decreases b.len() - i,
    {
        out.push(b[i]);
        i = i + 1;
        assert(out@ =~= start + b@.subrange(0, i as int));
    }
    assert(b@.subrange(0, b@.len() as int) =~= b@);
}

/// Appends `b` as a MessagePack string.
fn push_msgpack_str(out: &mut Vec<u8>, b: &[u8])
    requires
        b@.len() <= u32::MAX,
    ensures
        final(out)@ == old(out)@ + msgpack_str(b@),
{
    let n = b.len();
    let ghost start = out@;
    if n < 32 {
        out.push((0xa0 + n) as u8);
    } else if n < 256 {
        out.push(0xd9);
        out.push(n as u8);
    } else if n < 65536 {
        out.push(0xda);
        out.push((n / 256) as u8);
        out.push((n % 256) as u8);
    } else {
        out.push(0xdb);
        out.push((n / 16777216) as u8);
        out.push(((n / 65536) % 256) as u8);
        out.push(((n / 256) % 256) as u8);
        out.push((n % 256) as u8);
    }
    assert(out@ =~= start + msgpack_str_header(n as nat));
    append_bytes(out, b);
    assert(out@ =~= start + msgpack_str(b@));
}

/// The bytes of the action hash for `rate` and `nonce`.
pub fn encode_action(rate: &str, nonce: u64) -> (r: Vec<u8>)
    requires
        encode_utf8(rate@).len() <= u32::MAX,
    ensures
        r@ == action_bytes(encode_utf8(rate@), nonce),
{
    let mut out: Vec<u8> = Vec::new();
    out.push(0x82);
    // "type", "validatorL1Stream", "riskFreeRate"
    let k_type: Vec<u8> = vec![0x74, 0x79, 0x70, 0x65];
    let v_type: Vec<u8> = vec![
        0x76, 0x61, 0x6c, 0x69, 0x64, 0x61, 0x74, 0x6f, 0x72, 0x4c, 0x31, 0x53, 0x74, 0x72, 0x65,
        0x61, 0x6d,
    ];
    let k_rate: Vec<u8> = vec![0x72, 0x69, 0x73, 0x6b, 0x46, 0x72, 0x65, 0x65, 0x52, 0x61, 0x74, 0x65];
    assert(k_type@ =~= key_type());
    assert(v_type@ =~= action_type());
    assert(k_rate@ =~= key_risk_free_rate());
    push_msgpack_str(&mut out, k_type.as_slice());
    push_msgpack_str(&mut out, v_type.as_slice());
    push_msgpack_str(&mut out, k_rate.as_slice());
    push_msgpack_str(&mut out, rate.as_bytes());
    let ghost before = out@;
    out.push(((nonce >> 56) % 256) as u8);
    out.push(((nonce >> 48) % 256) as u8);
    out.push(((nonce >> 40) % 256) as u8);
    out.push(((nonce >> 32) % 256) as u8);
    out.push(((nonce >> 24) % 256) as u8);
    out.push(((nonce >> 16) % 256) as u8);
    out.push(((nonce >> 8) % 256) as u8);
    out.push((nonce % 256) as u8);
    out.push(0);
    assert(out@ =~= before + be_u64(nonce) + seq![0u8]);
    assert(before =~= action_msgpack(encode_utf8(rate@)));
    out
}

} // verus!

verus! {

/// The bytes of an ASCII text.
pub open spec fn ascii_seq(s: Seq<char>) -> Seq<u8> {
    s.map_values(|c: char| c as u8)
}

pub open spec fn is_ascii_text(s: Seq<char>) -> bool {
    forall|i: int| 0 <= i < s.len() ==> (#[trigger] s[i] as u32) < 128
}

/// The bytes of an ASCII text.
pub fn ascii_bytes(s: &str) -> (r: Vec<u8>)
    requires
        is_ascii_text(s@),
    ensures
        r@ == ascii_seq(s@),
{
    let n = s.unicode_len();
    let mut out: Vec<u8> = Vec::new();
    let mut i: usize = 0;
    while i < n
        invariant
            n == s@.len(),
            i <= n,
            is_ascii_text(s@),
            out@ == ascii_seq(s@.subrange(0, i as int)),
        decreases n - i,
    {
        let c = s.get_char(i);
        assert((c as u32) < 128);
        out.push(c as u8);
        i = i + 1;
        assert(out@ =~= ascii_seq(s@.subrange(0, i as int)));
    }
    assert(s@.subrange(0, n as int) =~= s@);
    out
}

pub open spec fn domain_type_text() -> Seq<char> {
    "EIP712Domain(string name,string version,uint256 chainId,address verifyingContract)"@
}

pub open spec fn agent_type_text() -> Seq<char> {
    "Agent(string source,bytes32 connectionId)"@
}

pub open spec fn domain_name_text() -> Seq<char> {
    "Exchange"@
}

pub open spec fn domain_version_text() -> Seq<char> {
    "1"@
}

/// The fixed chain id of the exchange's signing domain, as a 32-byte word.
pub open spec fn chain_id_word() -> Seq<u8> {
    Seq::new(30, |i: int| 0u8) + seq![0x05u8, 0x39]
}

/// The zero verifying contract, as a 32-byte word.
pub open spec fn zero_word() -> Seq<u8> {
    Seq::new(32, |i: int| 0u8)
}

/// EIP-712 domain separator of `{name: "Exchange", version: "1", chainId: 1337,
/// verifyingContract: 0x0}`.
pub open spec fn domain_separator() -> Seq<u8> {
    keccak256_of(
        keccak256_of(ascii_seq(domain_type_text())) + keccak256_of(ascii_seq(domain_name_text()))
            + keccak256_of(ascii_seq(domain_version_text())) + chain_id_word() + zero_word(),
    )
}

/// EIP-712 struct hash of `Agent { source, connectionId }`.
pub open spec fn agent_struct_hash(source: Seq<u8>, connection_id: Seq<u8>) -> Seq<u8> {
    keccak256_of(keccak256_of(ascii_seq(agent_type_text())) + keccak256_of(source) + connection_id)
}

/// Phantom-agent source: `a` on mainnet, `b` on testnet.
pub open spec fn phantom_source(is_mainnet: bool) -> Seq<u8> {
    if is_mainnet { seq![0x61u8] } else { seq![0x62u8] }
}

/// The EIP-712 signing hash `keccak256(0x19 0x01 || domainSeparator || structHash(Agent))`.
pub open spec fn l1_digest(is_mainnet: bool, action_hash: Seq<u8>) -> Seq<u8> {
    keccak256_of(seq![0x19u8, 0x01] + domain_separator() + agent_struct_hash(phantom_source(is_mainnet), action_hash))
}

/// The digest a vote for `rate` with `nonce` is signed over.
pub open spec fn vote_digest(rate: Seq<u8>, nonce: u64, is_mainnet: bool) -> Seq<u8> {
    l1_digest(is_mainnet, keccak256_of(action_bytes(rate, nonce)))
}

/// Keccak-256 of the action bytes.
pub fn action_hash(action: &ValidatorL1StreamAction, nonce: u64) -> (r: Vec<u8>)
    requires
        encode_utf8(action.risk_free_rate@).len() <= u32::MAX,
    ensures
        r@ == keccak256_of(action_bytes(encode_utf8(action.risk_free_rate@), nonce)),
{
    let bytes = encode_action(action.risk_free_rate.as_str(), nonce);
    keccak256(bytes.as_slice())
}

/// The EIP-712 signing hash of the phantom agent for `action_hash`.
pub fn l1_payload_hash(action_hash: &Vec<u8>, is_mainnet: bool) -> (r: Vec<u8>)
    ensures
        r@ == l1_digest(is_mainnet, action_hash@),
{
    let domain_type = "EIP712Domain(string name,string version,uint256 chainId,address verifyingContract)";
    let agent_type = "Agent(string source,bytes32 connectionId)";
    let name = "Exchange";
    let version = "1";
    proof {
        reveal_strlit("EIP712Domain(string name,string version,uint256 chainId,address verifyingContract)");
        reveal_strlit("Agent(string source,bytes32 connectionId)");
        reveal_strlit("Exchange");
        reveal_strlit("1");
    }
    let mut domain: Vec<u8> = Vec::new();
    append_bytes(&mut domain, keccak256(ascii_bytes(domain_type).as_slice()).as_slice());
    append_bytes(&mut domain, keccak256(ascii_bytes(name).as_slice()).as_slice());
    append_bytes(&mut domain, keccak256(ascii_bytes(version).as_slice()).as_slice());
    let mut chain_id: Vec<u8> = vec![0u8; 30];
    chain_id.push(0x05);
    chain_id.push(0x39);
    assert(chain_id@ =~= chain_id_word());
    append_bytes(&mut domain, chain_id.as_slice());
    let zero: Vec<u8> = vec![0u8; 32];
    assert(zero@ =~= zero_word());
    append_bytes(&mut domain, zero.as_slice());
    let separator = keccak256(domain.as_slice());
    let mut agent: Vec<u8> = Vec::new();
    append_bytes(&mut agent, keccak256(ascii_bytes(agent_type).as_slice()).as_slice());
    let source: Vec<u8> = if is_mainnet { vec![0x61] } else { vec![0x62] };
    assert(source@ =~= phantom_source(is_mainnet));
    append_bytes(&mut agent, keccak256(source.as_slice()).as_slice());
    append_bytes(&mut agent, action_hash.as_slice());
    let struct_hash = keccak256(agent.as_slice());
    let mut payload: Vec<u8> = vec![0x19, 0x01];
    append_bytes(&mut payload, separator.as_slice());
    append_bytes(&mut payload, struct_hash.as_slice());
    assert(payload@ =~= seq![0x19u8, 0x01] + domain_separator() + agent_struct_hash(
        phantom_source(is_mainnet),
        action_hash@,
    ));
    keccak256(payload.as_slice())
}

} // verus!

verus! {

/// Prepares the `validatorL1Stream` action for `rate` and signs its phantom-agent
/// digest with the secret key `key`.
pub fn get_signed_vote(key: &[u8], is_mainnet: bool, nonce: u64, rate: &str) -> (r: Result<
    (ValidatorL1StreamAction, Signature),
    SofrError,
>)
    requires
        encode_utf8(rate@).len() <= u32::MAX,
    ensures
        r matches Ok((a, sig)) ==> a.type_string@ == "validatorL1Stream"@ && a.risk_free_rate@
            == rate@ && (sig.v == 27 || sig.v == 28) && ecdsa_signature(
            key@,
            vote_digest(encode_utf8(rate@), nonce, is_mainnet),
        ) == Some((sig.r@, sig.s@, sig.v == 28)) && sig.r@.len() == 32 && sig.s@.len() == 32,
        r is Err ==> r == Err::<(ValidatorL1StreamAction, Signature), SofrError>(
            SofrError::SigningFailure,
        ) && ecdsa_signature(key@, vote_digest(encode_utf8(rate@), nonce, is_mainnet)) is None,
{
    let action = ValidatorL1StreamAction::new(rate);
    let hash = action_hash(&action, nonce);
    let digest = l1_payload_hash(&hash, is_mainnet);
    match sign_prehash(key, digest.as_slice()) {
        Some((sr, ss, parity)) => {
            let v: u64 = if parity { 28 } else { 27 };
            Ok((action, Signature { r: sr, s: ss, v }))
        },
        None => Err(SofrError::SigningFailure),
    }
}

/// Lower-case hex digit of `d`.
pub open spec fn hex_char(d: nat) -> char {
    if d < 10 { crate::text::digit_char(d) }
    else if d == 10 { 'a' }
    else if d == 11 { 'b' }
    else if d == 12 { 'c' }
    else if d == 13 { 'd' }
    else if d == 14 { 'e' }
    else { 'f' }
}

/// Lower-case hex text of bytes, two digits each.
pub open spec fn hex_text(b: Seq<u8>) -> Seq<char>
    decreases b.len(),
{
    if b.len() == 0 {
        seq![]
    } else {
        hex_text(b.drop_last()) + seq![hex_char((b.last() / 16) as nat), hex_char((b.last() % 16) as nat)]
    }
}

fn hex_digit(d: u8) -> (c: char)
    requires
        d < 16,
    ensures
        c == hex_char(d as nat),
{
    if d < 10 {
        crate::text::ascii_digit(d as u64)
    } else if d == 10 {
        'a'
    } else if d == 11 {
        'b'
    } else if d == 12 {
        'c'
    } else if d == 13 {
        'd'
    } else if d == 14 {
        'e'
    } else {
        'f'
    }
}

/// `0x` followed by the lower-case hex of `b` (for a 32-byte scalar, 64 digits).
pub fn hex_0x(b: &Vec<u8>) -> (r: String)
    ensures
        r@ == seq!['0', 'x'] + hex_text(b@),
{
    let mut out: Vec<char> = vec!['0', 'x'];
    let mut i: usize = 0;
    while i < b.len()
        invariant
            i <= b@.len(),
            out@ == seq!['0', 'x'] + hex_text(b@.subrange(0, i as int)),
        decreases b.len() - i,
    {
        let x = b[i];
        out.push(hex_digit(x / 16));
        out.push(hex_digit(x % 16));
        assert(b@.subrange(0, i + 1).drop_last() =~= b@.subrange(0, i as int));
        i = i + 1;
        assert(out@ =~= seq!['0', 'x'] + hex_text(b@.subrange(0, i as int)));
    }
    assert(b@.subrange(0, b@.len() as int) =~= b@);
    crate::text::chars_to_string(out)
}

/// The `/exchange` request body for a signed action.
pub fn build_exchange_request(action: ValidatorL1StreamAction, nonce: u64, signature: &Signature) -> (r: ExchangeRequest)
    ensures
        r.action == action,
        r.nonce == nonce,
        r.signature.r@ == seq!['0', 'x'] + hex_text(signature.r@),
        r.signature.s@ == seq!['0', 'x'] + hex_text(signature.s@),
        r.signature.v == signature.v,
{
    ExchangeRequest {
        action,
        nonce,
        signature: SignatureReq { r: hex_0x(&signature.r), s: hex_0x(&signature.s), v: signature.v },
    }
}

/// The bytes hashed for an action depend on the rate text and the nonce alone,
/// with the map keys always in declaration order (`type`, then `riskFreeRate`);
/// nonces that differ give different bytes.
pub proof fn lemma_action_bytes_determined(rate1: Seq<u8>, nonce1: u64, rate2: Seq<u8>, nonce2: u64)
    ensures
        rate1 == rate2 && nonce1 == nonce2 ==> action_bytes(rate1, nonce1) == action_bytes(rate2, nonce2),
        action_bytes(rate1, nonce1).subrange(0, 6) == seq![0x82u8, 0xa4] + key_type(),
        action_bytes(rate1, nonce1).subrange(24, 37) == seq![0xacu8] + key_risk_free_rate(),
        rate1 == rate2 && nonce1 != nonce2 ==> action_bytes(rate1, nonce1) != action_bytes(rate2, nonce2),
{
    let a = action_bytes(rate1, nonce1);
    assert(msgpack_str(key_type()) =~= seq![0xa4u8] + key_type());
    assert(msgpack_str(action_type()) =~= seq![0xb1u8] + action_type());
    assert(msgpack_str(key_risk_free_rate()) =~= seq![0xacu8] + key_risk_free_rate());
    assert(a.subrange(0, 6) =~= seq![0x82u8, 0xa4] + key_type());
    assert(a.subrange(24, 37) =~= seq![0xacu8] + key_risk_free_rate());
    if rate1 == rate2 && nonce1 != nonce2 {
        let b = action_bytes(rate2, nonce2);
        let m = action_msgpack(rate1).len() as int;
        assert(a.subrange(m, m + 8) =~= be_u64(nonce1));
        assert(b.subrange(m, m + 8) =~= be_u64(nonce2));
        if a == b {
            assert(be_u64(nonce1) == be_u64(nonce2));
            assert(be_u64(nonce1)[0] == be_u64(nonce2)[0]);
            assert(be_u64(nonce1)[1] == be_u64(nonce2)[1]);
            assert(be_u64(nonce1)[2] == be_u64(nonce2)[2]);
            assert(be_u64(nonce1)[3] == be_u64(nonce2)[3]);
            assert(be_u64(nonce1)[4] == be_u64(nonce2)[4]);
            assert(be_u64(nonce1)[5] == be_u64(nonce2)[5]);
            assert(be_u64(nonce1)[6] == be_u64(nonce2)[6]);
            assert(be_u64(nonce1)[7] == be_u64(nonce2)[7]);
            assert(nonce1 == nonce2) by (bit_vector)
                requires
                    (nonce1 >> 56) % 256 == (nonce2 >> 56) % 256,
                    (nonce1 >> 48) % 256 == (nonce2 >> 48) % 256,
                    (nonce1 >> 40) % 256 == (nonce2 >> 40) % 256,
                    (nonce1 >> 32) % 256 == (nonce2 >> 32) % 256,
                    (nonce1 >> 24) % 256 == (nonce2 >> 24) % 256,
                    (nonce1 >> 16) % 256 == (nonce2 >> 16) % 256,
                    (nonce1 >> 8) % 256 == (nonce2 >> 8) % 256,
                    nonce1 % 256 == nonce2 % 256,
            ;
        }
    }
}

} // verus!
