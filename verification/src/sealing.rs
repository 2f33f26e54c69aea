//! At-rest sealing of stored values with AES-256-GCM: a sealed value is the
//! 12-byte nonce followed by the ciphertext. A storage tree is plain,
//! encrypted with a data key, or in mismatch mode (the owner's key does not
//! match: reads are empty and writes do nothing).

use vstd::prelude::*;
use vstd::string::StringExecFns;
use crate::error::StorageError;
use aes_gcm::aead::Aead;
use aes_gcm::KeyInit;

verus! {

/// Name for the AES-256-GCM ciphertext (with its tag) of `plaintext` under
/// `key` and `nonce`, no associated data, as the `aes-gcm` crate computes it.
pub uninterp spec fn aes256gcm_seal(key: Seq<u8>, nonce: Seq<u8>, plaintext: Seq<u8>) -> Seq<u8>;

/// Name for what AES-256-GCM decryption of `ciphertext` under `key` and
/// `nonce` gives: the plaintext, or none where the tag does not verify.
pub uninterp spec fn aes256gcm_open(key: Seq<u8>, nonce: Seq<u8>, ciphertext: Seq<u8>) -> Option<Seq<u8>>;

/// The largest plaintext AES-GCM encrypts (2^36 bytes).
pub open spec fn aes_gcm_max_plaintext() -> int {
    68719476736
}

/// `Aes256Gcm::new_from_slice` and `Aead::encrypt` (no associated data).
/// Trusted: the key has the 32 bytes the cipher takes; a plaintext of at most
/// 2^36 bytes encrypts to `aes256gcm_seal(key, nonce, plaintext)`, 16 bytes
/// longer, which decrypts back to the plaintext; a longer one is refused.
#[verifier::external_body]
fn aes_gcm_encrypt(key: &[u8; 32], nonce: &[u8; 12], plaintext: &[u8]) -> (r: Option<Vec<u8>>)
    ensures
        plaintext@.len() <= aes_gcm_max_plaintext() ==> r is Some,
        r matches Some(c) ==> c@ == aes256gcm_seal(key@, nonce@, plaintext@),
        r matches Some(c) ==> c@.len() == plaintext@.len() + 16,
        r matches Some(c) ==> aes256gcm_open(key@, nonce@, c@) == Some(plaintext@),
        plaintext@.len() > aes_gcm_max_plaintext() ==> r is None,
{
    let cipher = aes_gcm::Aes256Gcm::new_from_slice(key).ok()?;
    cipher.encrypt(aes_gcm::Nonce::from_slice(nonce), plaintext).ok()
}

/// `Aes256Gcm::new_from_slice` and `Aead::decrypt` (no associated data).
/// Trusted: the result is `aes256gcm_open(key, nonce, ciphertext)`.
#[verifier::external_body]
fn aes_gcm_decrypt(key: &[u8; 32], nonce: &[u8], ciphertext: &[u8]) -> (r: Option<Vec<u8>>)
    requires
        nonce@.len() == 12,
    ensures
        match r {
            Some(p) => aes256gcm_open(key@, nonce@, ciphertext@) == Some(p@),
            None => aes256gcm_open(key@, nonce@, ciphertext@) is None,
        },
{
    let cipher = aes_gcm::Aes256Gcm::new_from_slice(key).ok()?;
    cipher.decrypt(aes_gcm::Nonce::from_slice(nonce), ciphertext).ok()
}

/// `rand::RngCore::fill_bytes` with the thread's generator: a random nonce.
/// Trusted: nothing is promised of the bytes.
#[verifier::external_body]
fn random_nonce() -> (r: [u8; 12]) {
    let mut n = [0u8; 12];
    rand::RngCore::fill_bytes(&mut rand::thread_rng(), &mut n);
    n
}

/// What unsealing a stored value gives: too short values and values whose tag
/// does not verify give nothing.
pub open spec fn spec_unseal(dek: Seq<u8>, packed: Seq<u8>) -> Option<Seq<u8>> {
    if packed.len() < 12 {
        None
    } else {
        aes256gcm_open(dek, packed.take(12), packed.skip(12))
    }
}

/// Seals a value with the data key under a fresh random nonce.
pub fn seal_value(dek: &[u8; 32], value: &[u8]) -> (r: Result<Vec<u8>, StorageError>)
    ensures
        value@.len() <= aes_gcm_max_plaintext() ==> (r matches Ok(p) && p@.len() == value@.len() + 28
            && spec_unseal(dek@, p@) == Some(value@)),
        value@.len() > aes_gcm_max_plaintext() ==> (r matches Err(StorageError::Encryption(m)) && m@ == "aead::Error"@),
{
    let nonce = random_nonce();
    match aes_gcm_encrypt(dek, &nonce, value) {
        Some(ct) => {
            let mut packed: Vec<u8> = Vec::new();
            let mut i: usize = 0;
            while i < 12
                invariant
                    i <= 12,
                    packed@ == nonce@.take(i as int),
                decreases 12 - i,
            {
                packed.push(nonce[i]);
                proof {
                    assert(nonce@.take(i + 1) =~= nonce@.take(i as int).push(nonce@[i as int]));
                }
                i = i + 1;
            }
            let mut j: usize = 0;
            while j < ct.len()
                invariant
                    j <= ct@.len(),
                    packed@ == nonce@ + ct@.take(j as int),
                decreases ct.len() - j,
            {
                packed.push(ct[j]);
                proof {
                    assert(nonce@ + ct@.take(j + 1) =~= (nonce@ + ct@.take(j as int)).push(ct@[j as int]));
                }
                j = j + 1;
            }
            proof {
                assert(nonce@.take(12) =~= nonce@);
                assert(ct@.take(ct@.len() as int) =~= ct@);
                assert(packed@.take(12) =~= nonce@);
                assert(packed@.skip(12) =~= ct@);
            }
            Ok(packed)
        },
        None => {
            proof {
                reveal_strlit("aead::Error");
            }
            Err(StorageError::Encryption(String::from_str("aead::Error")))
        },
    }
}

/// Unseals a stored value with the data key.
pub fn unseal_value(dek: &[u8; 32], packed: &[u8]) -> (r: Result<Vec<u8>, StorageError>)
    ensures
        packed@.len() < 12 ==> (r matches Err(StorageError::Decryption(m)) && m@ == "encrypted value too short"@),
        packed@.len() >= 12 ==> match spec_unseal(dek@, packed@) {
            Some(v) => (r matches Ok(x) && x@ == v),
            None => (r matches Err(StorageError::Decryption(m)) && m@ == "aead::Error"@),
        },
{
    if packed.len() < 12 {
        proof {
            reveal_strlit("encrypted value too short");
        }
        return Err(StorageError::Decryption(String::from_str("encrypted value too short")));
    }
    let mut nonce: Vec<u8> = Vec::new();
    let mut i: usize = 0;
    while i < 12
        invariant
            i <= 12,
            12 <= packed@.len(),
            nonce@ == packed@.take(i as int),
        decreases 12 - i,
    {
        nonce.push(packed[i]);
        proof {
            assert(packed@.take(i + 1) =~= packed@.take(i as int).push(packed@[i as int]));
        }
        i = i + 1;
    }
    let mut ct: Vec<u8> = Vec::new();
    let mut j: usize = 12;
    while j < packed.len()
        invariant
            12 <= j <= packed@.len(),
            ct@ == packed@.subrange(12, j as int),
        decreases packed.len() - j,
    {
        ct.push(packed[j]);
        proof {
            assert(packed@.subrange(12, j + 1) =~= packed@.subrange(12, j as int).push(packed@[j as int]));
        }
        j = j + 1;
    }
    proof {
        assert(ct@ =~= packed@.skip(12));
    }
    match aes_gcm_decrypt(dek, nonce.as_slice(), ct.as_slice()) {
        Some(v) => Ok(v),
        None => {
            proof {
                reveal_strlit("aead::Error");
            }
            Err(StorageError::Decryption(String::from_str("aead::Error")))
        },
    }
}

/// How a storage tree treats values.
#[derive(Debug, Clone, Copy)]
pub enum TreeMode {
    /// Values are stored as given.
    Plain,
    /// Values are sealed with this data key.
    Encrypted([u8; 32]),
    /// The owner's key does not match: reads are empty and writes do nothing.
    Mismatch,
}

/// The form in which a value is written: `None` where nothing is written.
pub fn stored_form(mode: &TreeMode, value: &[u8]) -> (r: Result<Option<Vec<u8>>, StorageError>)
    ensures
        mode is Mismatch ==> r matches Ok(None),
        mode is Plain ==> (r matches Ok(Some(v)) && v@ == value@),
        mode matches TreeMode::Encrypted(k) ==> (value@.len() <= aes_gcm_max_plaintext() ==> (r matches Ok(Some(v))
            && spec_unseal(k@, v@) == Some(value@))),
        mode matches TreeMode::Encrypted(k) ==> (value@.len() > aes_gcm_max_plaintext() ==> (r matches Err(StorageError::Encryption(m)) && m@ == "aead::Error"@)),
{
    match mode {
        TreeMode::Mismatch => Ok(None),
        TreeMode::Plain => {
            let mut v: Vec<u8> = Vec::new();
            let mut i: usize = 0;
            while i < value.len()
                invariant
                    i <= value@.len(),
                    v@ == value@.take(i as int),
                decreases value.len() - i,
            {
                v.push(value[i]);
                proof {
                    assert(value@.take(i + 1) =~= value@.take(i as int).push(value@[i as int]));
                }
                i = i + 1;
            }
            proof {
                assert(value@.take(value@.len() as int) =~= value@);
            }
            Ok(Some(v))
        },
        TreeMode::Encrypted(k) => match seal_value(k, value) {
            Ok(p) => Ok(Some(p)),
            Err(e) => Err(e),
        },
    }
}

/// The value a read gives back from what is stored (`None` where nothing is).
pub fn read_form(mode: &TreeMode, stored: Option<Vec<u8>>) -> (r: Result<Option<Vec<u8>>, StorageError>)
    ensures
        mode is Mismatch ==> r matches Ok(None),
        stored is None ==> (mode is Mismatch || r matches Ok(None)),
        mode is Plain ==> match stored {
            Some(s) => (r matches Ok(Some(v)) && v@ == s@),
            None => r matches Ok(None),
        },
        mode matches TreeMode::Encrypted(k) ==> match stored {
            Some(s) => match spec_unseal(k@, s@) {
                Some(v) => (r matches Ok(Some(x)) && x@ == v),
                None => r matches Err(StorageError::Decryption(_)),
            },
            None => r matches Ok(None),
        },
{
    match mode {
        TreeMode::Mismatch => Ok(None),
        TreeMode::Plain => Ok(stored),
        TreeMode::Encrypted(k) => match stored {
            None => Ok(None),
            Some(s) => match unseal_value(k, s.as_slice()) {
                Ok(v) => Ok(Some(v)),
                Err(e) => Err(e),
            },
        },
    }
}

/// A value written in a mode reads back as itself in that mode (for values
/// AES-GCM accepts).
pub proof fn lemma_write_then_read(k: [u8; 32], value: Seq<u8>, stored: Seq<u8>)
    requires
        value.len() <= aes_gcm_max_plaintext(),
        spec_unseal(k@, stored) == Some(value),
    ensures
        stored.len() >= 12,
        aes256gcm_open(k@, stored.take(12), stored.skip(12)) == Some(value),
{
}

/// Whether a batch holds an insert that AES-GCM refuses in this mode: a value
/// longer than it encrypts, under an encrypted mode.
pub open spec fn batch_too_long(mode: TreeMode, items: Seq<(Vec<u8>, Option<Vec<u8>>)>) -> bool {
    mode is Encrypted && exists|i: int|
        0 <= i < items.len() && (#[trigger] items[i]).1 is Some && items[i].1->0@.len() > aes_gcm_max_plaintext()
}

/// Whether `out` is the batch that `items` becomes in this mode: each key as
/// is, each removal as is, each insert in its stored form.
pub open spec fn batch_planned(mode: TreeMode, items: Seq<(Vec<u8>, Option<Vec<u8>>)>, out: Seq<(Vec<u8>, Option<Vec<u8>>)>) -> bool {
    &&& out.len() == items.len()
    &&& forall|i: int| 0 <= i < out.len() ==> {
        &&& (#[trigger] out[i]).0@ == items[i].0@
        &&& (items[i].1 is None <==> out[i].1 is None)
        &&& (mode is Plain && items[i].1 is Some ==> out[i].1->0@ == items[i].1->0@)
        &&& (mode matches TreeMode::Encrypted(k) ==> (items[i].1 is Some ==> spec_unseal(k@, out[i].1->0@) == Some(items[i].1->0@)))
    }
}

/// The batch a tree applies: nothing in mismatch mode; otherwise each insert
/// in its stored form (sealed when encrypted) and each removal as is. An
/// insert that cannot be sealed ends the batch with the sealing error.
pub fn batch_items(mode: &TreeMode, items: &Vec<(Vec<u8>, Option<Vec<u8>>)>) -> (r: Result<Option<Vec<(Vec<u8>, Option<Vec<u8>>)>>, StorageError>)
    ensures
        mode is Mismatch ==> r matches Ok(None),
        !(mode is Mismatch) ==> (r is Ok <==> !batch_too_long(*mode, items@)),
        !(mode is Mismatch) && r is Ok ==> (r matches Ok(Some(out)) && batch_planned(*mode, items@, out@)),
        r is Err ==> (r matches Err(StorageError::Encryption(m)) && m@ == "aead::Error"@),
{
    if let TreeMode::Mismatch = mode {
        return Ok(None);
    }
    let mut out: Vec<(Vec<u8>, Option<Vec<u8>>)> = Vec::new();
    let mut i: usize = 0;
    while i < items.len()
        invariant
            i <= items@.len(),
            !(mode is Mismatch),
            out@.len() == i,
            forall|j: int|
                0 <= j < i ==> !(mode is Encrypted && (#[trigger] items@[j]).1 is Some && items@[j].1->0@.len()
                    > aes_gcm_max_plaintext()),
            forall|j: int| 0 <= j < i ==> {
                &&& (#[trigger] out@[j]).0@ == items@[j].0@
                &&& (items@[j].1 is None <==> out@[j].1 is None)
                &&& (mode is Plain && items@[j].1 is Some ==> out@[j].1->0@ == items@[j].1->0@)
                &&& (mode matches TreeMode::Encrypted(k) ==> (items@[j].1 is Some ==> spec_unseal(k@, out@[j].1->0@) == Some(items@[j].1->0@)))
            },
        decreases items.len() - i,
    {
        let key = items[i].0.clone();
        match &items[i].1 {
            None => {
                out.push((key, None));
            },
            Some(v) => {
                match stored_form(mode, v.as_slice()) {
                    Ok(Some(s)) => {
                        out.push((key, Some(s)));
                    },
                    Ok(None) => {
                        out.push((key, None));
                    },
                    Err(e) => {
                        proof {
                            assert(items@[i as int].1 is Some && items@[i as int].1->0@ == v@);
                        }
                        return Err(e);
                    },
                }
            },
        }
        i = i + 1;
    }
    proof {
        assert(!batch_too_long(*mode, items@));
    }
    Ok(Some(out))
}

} // verus!
