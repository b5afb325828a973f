//! Cryptographic primitives taken from the `bitcoin` crate (its
//! re-exported `bitcoin_hashes` and `secp256k1` libraries): the
//! double-SHA256 digest used for transaction ids and sighashes, and
//! BIP-340 Schnorr signing and verification over x-only public keys.
//!
//! Each result is a function of the arguments alone, so it is given a
//! name here; the protocol's contracts speak of these names.

use vstd::prelude::*;

verus! {

/// The 32-byte double-SHA256 digest of a byte string.
pub uninterp spec fn sha256d_of(bytes: Seq<u8>) -> Seq<u8>;

/// Whether a 64-byte BIP-340 signature verifies for a 32-byte message
/// under a 32-byte x-only public key.
pub uninterp spec fn schnorr_valid(sig: Seq<u8>, msg: Seq<u8>, pk: Seq<u8>) -> bool;

/// The 64-byte BIP-340 signature over a 32-byte message by a secret key,
/// with zeroed auxiliary randomness.
pub uninterp spec fn schnorr_sig_of(msg: Seq<u8>, sk: Seq<u8>) -> Seq<u8>;

/// The 32-byte x-only public key of a secret key.
pub uninterp spec fn xonly_pub_of(sk: Seq<u8>) -> Seq<u8>;

/// Whether 32 bytes are a valid secp256k1 secret key (nonzero and below
/// the curve order).
pub uninterp spec fn seckey_valid(sk: Seq<u8>) -> bool;

/// The 32-byte BIP-341 key-spend sighash, `SIGHASH_ALL` over all
/// previous outputs, of a consensus-serialized transaction at an input
/// index; nothing when the transaction or a previous output does not
/// parse, or the previous-output list does not fit the transaction.
pub uninterp spec fn taproot_sighash_of(
    tx: Seq<u8>,
    prevouts: Seq<Seq<u8>>,
    index: usize,
) -> Option<Seq<u8>>;

/// The id of a consensus-serialized transaction; nothing when the
/// bytes do not parse as a transaction.
pub uninterp spec fn consensus_txid_of(tx: Seq<u8>) -> Option<Seq<u8>>;

/// Relies on `bitcoin::hashes::sha256d::Hash::hash`: the digest is a
/// function of the input bytes alone and is 32 bytes long.
#[verifier::external_body]
pub fn sha256d(bytes: &[u8]) -> (r: [u8; 32])
    ensures
        r@ == sha256d_of(bytes@),
{
    let h = <bitcoin::hashes::sha256d::Hash as bitcoin::hashes::Hash>::hash(bytes);
    <bitcoin::hashes::sha256d::Hash as bitcoin::hashes::Hash>::to_byte_array(h)
}

/// Relies on `secp256k1::Secp256k1::verify_schnorr` (BIP-340): whether a
/// signature verifies is a function of the signature, message and key
/// bytes alone. Byte strings that are no valid signature or no valid
/// x-only key never verify.
#[verifier::external_body]
pub fn schnorr_verify(sig: &[u8; 64], msg: &[u8; 32], pk: &[u8; 32]) -> (r: bool)
    ensures
        r == schnorr_valid(sig@, msg@, pk@),
{
    let secp = bitcoin::secp256k1::Secp256k1::verification_only();
    let sig = match bitcoin::secp256k1::schnorr::Signature::from_slice(sig) {
        Ok(s) => s,
        Err(_) => return false,
    };
    let pk = match bitcoin::secp256k1::XOnlyPublicKey::from_slice(pk) {
        Ok(p) => p,
        Err(_) => return false,
    };
    let msg = bitcoin::secp256k1::Message::from_digest(*msg);
    secp.verify_schnorr(&sig, &msg, &pk).is_ok()
}

/// Relies on `secp256k1::Secp256k1::sign_schnorr_no_aux_rand` (BIP-340
/// with zeroed auxiliary randomness, so deterministic in message and
/// key) and on `secp256k1::Keypair::from_seckey_slice`, which fails
/// exactly on an invalid secret key. A produced signature verifies
/// under the signer's x-only public key, as BIP-340 guarantees.
#[verifier::external_body]
pub fn schnorr_sign(msg: &[u8; 32], sk: &[u8; 32]) -> (r: Option<[u8; 64]>)
    ensures
        r is Some <==> seckey_valid(sk@),
        r is Some ==> r.unwrap()@ == schnorr_sig_of(msg@, sk@),
        r is Some ==> schnorr_valid(schnorr_sig_of(msg@, sk@), msg@, xonly_pub_of(sk@)),
{
    let secp = bitcoin::secp256k1::Secp256k1::signing_only();
    let kp = match bitcoin::secp256k1::Keypair::from_seckey_slice(&secp, sk) {
        Ok(kp) => kp,
        Err(_) => return None,
    };
    let msg = bitcoin::secp256k1::Message::from_digest(*msg);
    Some(secp.sign_schnorr_no_aux_rand(&msg, &kp).serialize())
}

/// Relies on `bitcoin::sighash::SighashCache::taproot_key_spend_signature_hash`
/// (the BIP-341 sighash, `SIGHASH_ALL`, over `Prevouts::All`) and
/// `bitcoin::consensus::encode::deserialize`: the sighash is a function
/// of the serialized transaction, the serialized previous outputs, and
/// the input index alone; it fails when something does not parse or
/// that computation reports an error.
#[verifier::external_body]
pub fn taproot_sighash(
    tx: &Vec<u8>,
    prevouts: &Vec<Vec<u8>>,
    index: usize,
) -> (r: Option<[u8; 32]>)
    ensures
        match r {
            Some(h) => taproot_sighash_of(
                tx@, prevouts@.map_values(|p: Vec<u8>| p@), index,
            ) == Some(h@),
            None => taproot_sighash_of(
                tx@, prevouts@.map_values(|p: Vec<u8>| p@), index,
            ) is None,
        },
{
    let parsed: bitcoin::Transaction =
        bitcoin::consensus::encode::deserialize(tx.as_slice()).ok()?;
    let mut outs: Vec<bitcoin::TxOut> = Vec::new();
    for p in prevouts {
        outs.push(bitcoin::consensus::encode::deserialize(p.as_slice()).ok()?);
    }
    let mut cache = bitcoin::sighash::SighashCache::new(&parsed);
    let sighash_type = bitcoin::sighash::TapSighashType::All;
    let h = cache
        .taproot_key_spend_signature_hash(index, &bitcoin::sighash::Prevouts::All(&outs), sighash_type)
        .ok()?;
    Some(<bitcoin::TapSighash as bitcoin::hashes::Hash>::to_byte_array(h))
}

/// Relies on `bitcoin::Transaction::compute_txid` and
/// `bitcoin::consensus::encode::deserialize`: the id is a function of
/// the serialized bytes alone, and witness data never enters it.
#[verifier::external_body]
pub fn consensus_txid(tx: &Vec<u8>) -> (r: Option<[u8; 32]>)
    ensures
        match r {
            Some(h) => consensus_txid_of(tx@) == Some(h@),
            None => consensus_txid_of(tx@) is None,
        },
{
    let parsed: bitcoin::Transaction =
        bitcoin::consensus::encode::deserialize(tx.as_slice()).ok()?;
    Some(<bitcoin::Txid as bitcoin::hashes::Hash>::to_byte_array(parsed.compute_txid()))
}

/// Relies on `secp256k1::Keypair::x_only_public_key` and
/// `secp256k1::Keypair::from_seckey_slice`: the x-only public key is a
/// function of the secret key alone; derivation fails exactly on an
/// invalid secret key.
#[verifier::external_body]
pub fn derive_xonly_pub(sk: &[u8; 32]) -> (r: Option<[u8; 32]>)
    ensures
        r is Some <==> seckey_valid(sk@),
        r is Some ==> r.unwrap()@ == xonly_pub_of(sk@),
{
    let secp = bitcoin::secp256k1::Secp256k1::signing_only();
    match bitcoin::secp256k1::Keypair::from_seckey_slice(&secp, sk) {
        Ok(kp) => Some(kp.x_only_public_key().0.serialize()),
        Err(_) => None,
    }
}

} // verus!
