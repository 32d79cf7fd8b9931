//! Signed transactions: who may send one, how its Ed25519 signature is
//! checked, and how a run that succeeded is recorded against the sender.
use crate::digest::{hex_bytes, hex_decode, is_hex};
use crate::encode::{signing_bytes, state_root, transaction_id};
use crate::error::{err, outcome, Error, ErrorKind, ErrorV};
use crate::json::{Json, JsonV};
use crate::maps::{get, lemma_index_of, put};
use crate::model::{AccountV, Receipt, ReceiptV, Transaction, TransactionV, WorldState, WorldV};
use crate::runtime::{push_event, with_event};
use crate::text::{decimal, str_eq, u64_to_string};
use ed25519_dalek::{Signature, Verifier, VerifyingKey};
use vstd::prelude::*;

verus! {

/// Whether 32 bytes are the compressed form of a point on the curve.
pub uninterp spec fn ed25519_key_decodes(key: Seq<u8>) -> bool;

/// Whether an Ed25519 signature over a message verifies under a public key.
pub uninterp spec fn ed25519_verifies(key: Seq<u8>, message: Seq<u8>, signature: Seq<u8>) -> bool;

/// Trusted: `ed25519_dalek::VerifyingKey::from_bytes` accepts 32 bytes
/// exactly when they decompress to a curve point, which depends on the
/// bytes alone; the contract names that decision.
#[verifier::external_body]
fn verifying_key_decodes(key: &[u8]) -> (r: bool)
    requires
        key@.len() == 32,
    ensures
        r == ed25519_key_decodes(key@),
{
    match <[u8; 32]>::try_from(key) {
        Ok(bytes) => VerifyingKey::from_bytes(&bytes).is_ok(),
        Err(_) => false,
    }
}

/// Trusted: `ed25519_dalek::Signature::from_slice` accepts a slice exactly
/// when it is 64 bytes long (it converts the slice to a 64-byte array).
#[verifier::external_body]
fn signature_parses(bytes: &[u8]) -> (r: bool)
    ensures
        r == (bytes@.len() == 64),
{
    Signature::from_slice(bytes).is_ok()
}

/// Trusted: `VerifyingKey::verify` decides, from the key, the message and
/// the signature alone, whether the signature is valid; the contract names
/// that decision. The key and signature are built from bytes that the
/// `requires` admits.
#[verifier::external_body]
fn signature_verifies(key: &[u8], message: &[u8], signature: &[u8]) -> (r: bool)
    requires
        key@.len() == 32,
        ed25519_key_decodes(key@),
        signature@.len() == 64,
    ensures
        r == ed25519_verifies(key@, message@, signature@),
{
    let bytes: [u8; 32] = match <[u8; 32]>::try_from(key) {
        Ok(bytes) => bytes,
        Err(_) => return false,
    };
    match (VerifyingKey::from_bytes(&bytes), Signature::from_slice(signature)) {
        (Ok(k), Ok(s)) => k.verify(message, &s).is_ok(),
        _ => false,
    }
}

/// The signature error of a transaction signed under a public key, if any:
/// the key must be 32 bytes of hexadecimal and a curve point, the signature
/// 64 bytes of hexadecimal, and it must verify over the signing bytes.
pub open spec fn signature_error(public_key: Seq<char>, signature: Seq<char>, t: TransactionV) -> Option<ErrorV> {
    if !is_hex(public_key) || hex_bytes(public_key).len() != 32 {
        Some(err(ErrorKind::PublicKeyFormat, seq![]))
    } else if !ed25519_key_decodes(hex_bytes(public_key)) {
        Some(err(ErrorKind::InvalidPublicKey, seq![]))
    } else if !is_hex(signature) || hex_bytes(signature).len() != 64 {
        Some(err(ErrorKind::SignatureFormat, seq![]))
    } else if !ed25519_verifies(hex_bytes(public_key), signing_bytes(t), hex_bytes(signature)) {
        Some(err(ErrorKind::InvalidSignature, seq![]))
    } else {
        None
    }
}

/// Checks a transaction's signature against a hexadecimal public key.
pub fn verify_signature(public_key: &str, signature: &str, tx: &Transaction) -> (r: Result<(), Error>)
    ensures
        outcome(signature_error(public_key@, signature@, tx@), r),
{
    let key = match hex_decode(public_key) {
        Some(k) => k,
        None => {
            return Err(Error::plain(ErrorKind::PublicKeyFormat));
        },
    };
    if key.len() != 32 {
        return Err(Error::plain(ErrorKind::PublicKeyFormat));
    }
    if !verifying_key_decodes(key.as_slice()) {
        return Err(Error::plain(ErrorKind::InvalidPublicKey));
    }
    let sig = match hex_decode(signature) {
        Some(s) => s,
        None => {
            return Err(Error::plain(ErrorKind::SignatureFormat));
        },
    };
    if !signature_parses(sig.as_slice()) {
        return Err(Error::plain(ErrorKind::SignatureFormat));
    }
    let payload = tx.signing_bytes();
    if !signature_verifies(key.as_slice(), payload.as_slice(), sig.as_slice()) {
        return Err(Error::plain(ErrorKind::InvalidSignature));
    }
    Ok(())
}

/// The error of a transaction before it runs, if any: its sender exists,
/// its nonce is the sender's, it is signed exactly when the sender has a
/// public key and then validly, and its entity exists and belongs to the
/// sender.
pub open spec fn transaction_error(w: WorldV, t: TransactionV) -> Option<ErrorV> {
    match get(w.accounts, t.from) {
        None => Some(err(ErrorKind::AccountNotFound, seq![t.from])),
        Some(a) => if a.nonce != t.nonce {
            Some(err(ErrorKind::InvalidNonce, seq![decimal(a.nonce as nat), decimal(t.nonce as nat)]))
        } else {
            let signed = match a.public_key {
                Some(pk) => match t.signature {
                    None => Some(err(ErrorKind::SignatureRequired, seq![])),
                    Some(sig) => signature_error(pk, sig, t),
                },
                None => if t.signature is Some {
                    Some(err(ErrorKind::UnexpectedSignature, seq![]))
                } else {
                    None
                },
            };
            if signed is Some {
                signed
            } else {
                match get(w.entities, t.entity_id) {
                    None => Some(err(ErrorKind::EntityNotFound, seq![decimal(t.entity_id as nat)])),
                    Some(e) => if e.owner != t.from {
                        Some(err(ErrorKind::NotEntityOwner, seq![]))
                    } else {
                        None
                    },
                }
            }
        },
    }
}

/// Checks whether a transaction may run against the world.
pub fn check_transaction(state: &WorldState, tx: &Transaction) -> (r: Result<(), Error>)
    ensures
        outcome(transaction_error(state@, tx@), r),
{
    let account = match state.accounts.get(&tx.from) {
        None => {
            return Err(Error::one(ErrorKind::AccountNotFound, tx.from.clone()));
        },
        Some(a) => a,
    };
    if account.nonce != tx.nonce {
        return Err(Error::two(ErrorKind::InvalidNonce, u64_to_string(account.nonce), u64_to_string(tx.nonce)));
    }
    match &account.public_key {
        Some(public_key) => match &tx.signature {
            None => {
                return Err(Error::plain(ErrorKind::SignatureRequired));
            },
            Some(signature) => {
                verify_signature(public_key.as_str(), signature.as_str(), tx)?;
            },
        },
        None => {
            if tx.signature.is_some() {
                return Err(Error::plain(ErrorKind::UnexpectedSignature));
            }
        },
    }
    match state.entities.get(&tx.entity_id) {
        None => Err(Error::one(ErrorKind::EntityNotFound, u64_to_string(tx.entity_id))),
        Some(e) => if !str_eq(e.owner.as_str(), tx.from.as_str()) {
            Err(Error::plain(ErrorKind::NotEntityOwner))
        } else {
            Ok(())
        },
    }
}

/// The payload of a `transaction_executed` event.
pub open spec fn transaction_event_data(tx_id: Seq<char>, from: Seq<char>, nonce: u64) -> JsonV {
    JsonV::Object(seq![("from"@, JsonV::Str(from)), ("nonce"@, JsonV::UInt(nonce)), ("tx_id"@, JsonV::Str(tx_id))])
}

/// Recording a transaction whose command ran: the sender's nonce advances,
/// a `transaction_executed` event is appended, and the receipt names the
/// transaction, its sender and nonce, and the new state root.
pub open spec fn transaction_finish(w: WorldV, t: TransactionV, receipt: ReceiptV) -> Result<(WorldV, ReceiptV), ErrorV> {
    match get(w.accounts, t.from) {
        None => Err(err(ErrorKind::AccountNotFound, seq![t.from])),
        Some(a) => {
            let w1 = WorldV {
                accounts: put::<Seq<char>, AccountV, String>(w.accounts, t.from, AccountV { nonce: (a.nonce + 1) as u64, ..a }),
                ..w
            };
            let id = transaction_id(t);
            let w2 = with_event(w1, "transaction_executed"@, Some(t.entity_id), transaction_event_data(id, t.from, t.nonce));
            Ok((w2, ReceiptV { tx_id: id, from: t.from, nonce: t.nonce, state_root: state_root(w2), ..receipt }))
        },
    }
}

/// Records a transaction whose command has run; returns the completed receipt.
pub fn finish_transaction(state: &mut WorldState, tx: &Transaction, receipt: Receipt) -> (r: Result<Receipt, Error>)
    requires
        old(state).next_event_id < u64::MAX,
        get(old(state)@.accounts, tx@.from) matches Some(a) ==> a.nonce < u64::MAX,
    ensures
        match transaction_finish(old(state)@, tx@, receipt@) {
            Ok((w, rc)) => r matches Ok(x) && x@ == rc && final(state)@ == w,
            Err(e) => r matches Err(x) && x@ == e && final(state)@ == old(state)@,
        },
{
    let at = match state.accounts.find(&tx.from) {
        None => {
            return Err(Error::one(ErrorKind::AccountNotFound, tx.from.clone()));
        },
        Some(i) => i,
    };
    proof {
        lemma_index_of::<Seq<char>, AccountV, String>(state@.accounts, at as int);
    }
    let mut account = crate::maps::DeepCopy::deep_copy(state.accounts.value_at(at));
    account.nonce = account.nonce + 1;
    state.accounts.set_value_at(at, account);
    let mut receipt = receipt;
    receipt.tx_id = tx.id();
    receipt.from = tx.from.clone();
    receipt.nonce = tx.nonce;
    let mut data: Vec<(String, Json)> = Vec::new();
    data.push(("from".to_owned(), Json::string(receipt.from.as_str())));
    data.push(("nonce".to_owned(), Json::UInt(receipt.nonce)));
    data.push(("tx_id".to_owned(), Json::string(receipt.tx_id.as_str())));
    proof {
        crate::json::lemma_members_view(data@);
        assert(crate::json::members_view(data@) =~= seq![
            ("from"@, JsonV::Str(tx@.from)),
            ("nonce"@, JsonV::UInt(tx.nonce)),
            ("tx_id"@, JsonV::Str(transaction_id(tx@))),
        ]);
    }
    push_event(state, "transaction_executed", Some(tx.entity_id), Json::Object(data));
    receipt.state_root = state.root();
    Ok(receipt)
}

/// After a transaction is recorded, sending it again fails: the sender's
/// nonce has moved past it.
pub proof fn lemma_replay_rejected(w: WorldV, t: TransactionV, receipt: ReceiptV)
    requires
        crate::maps::sorted::<Seq<char>, AccountV, String>(w.accounts),
        transaction_error(w, t) is None,
        t.nonce < u64::MAX,
    ensures
        transaction_finish(w, t, receipt) is Ok,
        transaction_error(transaction_finish(w, t, receipt)->Ok_0.0, t) == Some(
            err(ErrorKind::InvalidNonce, seq![decimal((t.nonce + 1) as nat), decimal(t.nonce as nat)]),
        ),
{
    let a = get(w.accounts, t.from)->0;
    crate::maps::lemma_put::<Seq<char>, AccountV, String>(
        w.accounts,
        t.from,
        AccountV { nonce: (a.nonce + 1) as u64, ..a },
    );
    let w2 = transaction_finish(w, t, receipt)->Ok_0.0;
    assert(get(w2.accounts, t.from) == Some(AccountV { nonce: (t.nonce + 1) as u64, ..a }));
}

} // verus!
