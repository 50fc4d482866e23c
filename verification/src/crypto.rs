use vstd::prelude::*;

use crate::bytes::{append_bytes, copy_slice};
use crate::errors::CliperError;
use vstd::string::StringExecFns;

verus! {

/// Stands for sealing under AES-256-GCM with empty associated data: the
/// ciphertext followed by the 16-byte authentication tag. The sealed bytes
/// are a pure function of key, nonce and plaintext; they are only named
/// here, never written out.
pub uninterp spec fn gcm_seal(key: Seq<u8>, nonce: Seq<u8>, plaintext: Seq<u8>) -> Seq<u8>;

/// Stands for opening under AES-256-GCM with empty associated data:
/// `Some(plaintext)` when the authentication tag verifies, `None` when it
/// does not.
pub uninterp spec fn gcm_open(key: Seq<u8>, nonce: Seq<u8>, sealed: Seq<u8>) -> Option<Seq<u8>>;

/// An encrypted blob is laid out as 12-byte nonce, ciphertext, 16-byte tag,
/// so it is never shorter than 28 bytes.
pub open spec fn blob_wellformed(blob: Seq<u8>) -> bool {
    blob.len() >= 28
}

/// What opening a whole blob means: split the 12-byte nonce off the front
/// and open the rest under it.
pub open spec fn open_blob(key: Seq<u8>, blob: Seq<u8>) -> Option<Seq<u8>>
    recommends
        blob_wellformed(blob),
{
    gcm_open(key, blob.subrange(0, 12), blob.subrange(12, blob.len() as int))
}

/// Exactly the blobs that `encrypt` can hand back for `plaintext` under
/// `key`: nonce-prefixed sealed bytes that open back to the plaintext.
pub open spec fn encrypt_produced(key: Seq<u8>, plaintext: Seq<u8>, blob: Seq<u8>) -> bool {
    &&& blob.len() == plaintext.len() + 28
    &&& blob.subrange(12, blob.len() as int) == gcm_seal(key, blob.subrange(0, 12), plaintext)
    &&& open_blob(key, blob) == Some(plaintext)
}

/// What `decrypt` returns for a blob, decided by the blob's shape, the lock
/// state, and what opening the blob under the loaded key gives.
pub open spec fn decrypt_model(km: KeyManager, blob: Seq<u8>) -> Result<Seq<u8>, CliperError> {
    if !blob_wellformed(blob) {
        Err(CliperError::MalformedInput)
    } else if !km.unlocked() {
        Err(CliperError::Locked)
    } else {
        match open_blob(km.key_bytes(), blob) {
            Some(pt) => Ok(pt),
            None => Err(CliperError::Authentication),
        }
    }
}

/// Round trip: every blob that `encrypt` can return for a plaintext opens
/// back to that plaintext under the same key, which is what `decrypt`
/// reports for it.
pub proof fn lemma_encrypt_decrypt_roundtrip(key: Seq<u8>, plaintext: Seq<u8>, blob: Seq<u8>)
    requires
        encrypt_produced(key, plaintext, blob),
    ensures
        blob_wellformed(blob),
        open_blob(key, blob) == Some(plaintext),
{
}

/// A blob shorter than 28 bytes cannot even hold a nonce and a tag:
/// decrypt reports it malformed, whatever the lock state and the key.
pub proof fn lemma_short_blob_malformed(km: KeyManager, blob: Seq<u8>)
    requires
        blob.len() < 28,
    ensures
        decrypt_model(km, blob) == Err::<Seq<u8>, CliperError>(CliperError::MalformedInput),
{
}

/// While locked, no well-formed blob decrypts: the failure is Locked, and
/// `encrypt`'s own contract returns Locked in the same state.
pub proof fn lemma_locked_decrypt_fails(km: KeyManager, blob: Seq<u8>)
    requires
        !km.unlocked(),
        blob_wellformed(blob),
    ensures
        decrypt_model(km, blob) == Err::<Seq<u8>, CliperError>(CliperError::Locked),
{
}

/// Relies on ring::rand::SystemRandom::fill: on success the buffer holds
/// `n` bytes drawn from the system CSPRNG; nothing is said of their values.
#[verifier::external_body]
fn random_bytes(n: usize) -> (r: Option<Vec<u8>>)
    ensures
        r matches Some(b) ==> b@.len() == n as nat,
{
    let rng = ring::rand::SystemRandom::new();
    let mut buf = vec![0u8; n];
    match ring::rand::SecureRandom::fill(&rng, &mut buf) {
        Ok(()) => Some(buf),
        Err(_) => None,
    }
}

/// Relies on ring::aead::LessSafeKey::seal_in_place_append_tag with
/// AES_256_GCM and empty associated data: the result is the ciphertext with
/// the 16-byte tag appended, a pure function of key, nonce and plaintext,
/// and opening it under the same key and nonce returns the plaintext.
/// Sealing fails only beyond the AES-GCM per-nonce length bound, far above
/// the length admitted here, and the key and nonce lengths fit AES-256-GCM,
/// so no call in the body can fail.
#[verifier::external_body]
fn aead_seal(key: &Vec<u8>, nonce: &Vec<u8>, plaintext: &Vec<u8>) -> (r: Vec<u8>)
    requires
        key@.len() == 32,
        nonce@.len() == 12,
        plaintext@.len() < 0x1_0000_0000,
    ensures
        r@ == gcm_seal(key@, nonce@, plaintext@),
        r@.len() == plaintext@.len() + 16,
        gcm_open(key@, nonce@, r@) == Some(plaintext@),
{
    let unbound = ring::aead::UnboundKey::new(&ring::aead::AES_256_GCM, key).unwrap();
    let sealing = ring::aead::LessSafeKey::new(unbound);
    let nonce_arr: [u8; 12] = nonce.as_slice().try_into().unwrap();
    let mut buf = plaintext.clone();
    sealing
        .seal_in_place_append_tag(
            ring::aead::Nonce::assume_unique_for_key(nonce_arr),
            ring::aead::Aad::empty(),
            &mut buf,
        )
        .unwrap();
    buf
}

/// Relies on ring::aead::LessSafeKey::open_in_place with AES_256_GCM and
/// empty associated data: opening is a pure function of key, nonce and
/// sealed bytes; on success it returns the recovered plaintext, and on an
/// authentication failure it returns an error.
#[verifier::external_body]
fn aead_open(key: &Vec<u8>, nonce: &Vec<u8>, sealed: &Vec<u8>) -> (r: Option<Vec<u8>>)
    requires
        key@.len() == 32,
        nonce@.len() == 12,
        sealed@.len() >= 16,
    ensures
        r matches Some(p) ==> gcm_open(key@, nonce@, sealed@) == Some(p@),
        r is None ==> gcm_open(key@, nonce@, sealed@) is None,
{
    let unbound = ring::aead::UnboundKey::new(&ring::aead::AES_256_GCM, key).unwrap();
    let opening = ring::aead::LessSafeKey::new(unbound);
    let nonce_arr: [u8; 12] = nonce.as_slice().try_into().unwrap();
    let mut buf = sealed.clone();
    match opening.open_in_place(
        ring::aead::Nonce::assume_unique_for_key(nonce_arr),
        ring::aead::Aad::empty(),
        &mut buf,
    ) {
        Ok(p) => Some(p.to_vec()),
        Err(_) => None,
    }
}

/// Relies on zeroize::Zeroize for Vec<u8>: overwrites the vector's whole
/// capacity with zeros and leaves it empty.
#[verifier::external_body]
fn wipe(buf: &mut Vec<u8>)
    ensures
        final(buf)@.len() == 0,
{
    zeroize::Zeroize::zeroize(buf);
}

/// Owns the AES-256-GCM master key. The key lives in memory only while
/// unlocked and is wiped on lock. The protected secret store that persists
/// the key across sessions is modeled by the `persisted` slot; the glue
/// that mirrors that slot into an OS credential store stays outside the
/// library.
pub struct KeyManager {
    bundle_id: String,
    persisted: Option<Vec<u8>>,
    key: Option<Vec<u8>>,
}

impl KeyManager {
    /// True while a master key is loaded in memory.
    pub closed spec fn unlocked(&self) -> bool {
        self.key is Some
    }

    /// The in-memory master key bytes.
    pub closed spec fn key_bytes(&self) -> Seq<u8>
        recommends
            self.unlocked(),
    {
        match self.key {
            Some(k) => k@,
            None => Seq::empty(),
        }
    }

    /// The secret held by the protected store slot, if any.
    pub closed spec fn stored_secret(&self) -> Option<Seq<u8>> {
        match self.persisted {
            Some(p) => Some(p@),
            None => None,
        }
    }

    /// Any key held anywhere is exactly 32 bytes.
    pub closed spec fn wf(&self) -> bool {
        &&& (self.key matches Some(k) ==> k@.len() == 32)
        &&& (self.persisted matches Some(p) ==> p@.len() == 32)
    }

    /// A fresh manager: locked, with an empty secret store slot, filing
    /// its secret under the given bundle identifier.
    pub fn new(bundle_id: String) -> (r: KeyManager)
        ensures
            r.wf(),
            !r.unlocked(),
            r.stored_secret() is None,
            r.bundle_id_spec() == bundle_id@,
    {
        KeyManager { bundle_id, persisted: None, key: None }
    }

    /// The name under which the secret store keeps this manager's master
    /// key: the bundle identifier with a fixed suffix. The platform backend
    /// that mirrors the `persisted` slot into an OS credential store files
    /// the secret under this service name.
    pub fn service_name(&self) -> (r: String)
        ensures
            r@ == self.bundle_id_spec() + ".masterkey"@,
    {
        self.bundle_id.clone().concat(".masterkey")
    }

    /// The bundle identifier this manager was created with.
    pub closed spec fn bundle_id_spec(&self) -> Seq<char> {
        self.bundle_id@
    }

    /// Seeds the protected store slot with a secret the platform backend
    /// read back from the OS credential store; `unlock` then reuses it. A
    /// secret of the wrong size is refused and nothing changes. The
    /// in-memory key is untouched either way.
    pub fn seed_secret(&mut self, secret: Vec<u8>) -> (r: Result<(), CliperError>)
        requires
            old(self).wf(),
        ensures
            final(self).wf(),
            final(self).unlocked() == old(self).unlocked(),
            final(self).key_bytes() == old(self).key_bytes(),
            secret@.len() == 32 ==> r == Ok::<(), CliperError>(()) && final(self).stored_secret()
                == Some(secret@),
            secret@.len() != 32 ==> r == Err::<(), CliperError>(CliperError::KeyStore) && final(self).stored_secret() == old(self).stored_secret(),
    {
        if secret.len() != 32 {
            return Err(CliperError::KeyStore);
        }
        self.persisted = Some(secret);
        Ok(())
    }

    /// The secret the protected store slot holds, for the platform backend
    /// to mirror into the OS credential store after `unlock` or
    /// `reset_master_key` made a fresh one.
    pub fn export_secret(&self) -> (r: Option<Vec<u8>>)
        ensures
            r is Some <==> self.stored_secret() is Some,
            r matches Some(v) ==> self.stored_secret() == Some(v@),
    {
        match &self.persisted {
            Some(p) => Some(copy_slice(p.as_slice())),
            None => None,
        }
    }

    pub fn is_unlocked(&self) -> (r: bool)
        ensures
            r == self.unlocked(),
    {
        self.key.is_some()
    }

    /// Wipes the in-memory key and clears the unlocked state; the persisted
    /// secret is untouched. A no-op when already locked.
    pub fn lock(&mut self)
        requires
            old(self).wf(),
        ensures
            final(self).wf(),
            !final(self).unlocked(),
            final(self).stored_secret() == old(self).stored_secret(),
    {
        let prev = self.key.take();
        match prev {
            Some(mut k) => {
                wipe(&mut k);
            }
            None => {}
        }
    }

    /// Loads the master key: reuses the persisted secret when one exists,
    /// otherwise draws 32 fresh CSPRNG bytes, persists them and loads them.
    /// Idempotent. Fails only when fresh randomness was needed and the
    /// randomness source failed.
    pub fn unlock(&mut self) -> (r: Result<(), CliperError>)
        requires
            old(self).wf(),
        ensures
            final(self).wf(),
            r is Ok ==> final(self).unlocked(),
            old(self).stored_secret() matches Some(s) ==> r is Ok
                && final(self).key_bytes() == s
                && final(self).stored_secret() == Some(s),
            old(self).stored_secret() is None && r is Ok ==> final(self).key_bytes().len() == 32
                && final(self).stored_secret() == Some(final(self).key_bytes()),
            r is Err ==> r == Err::<(), CliperError>(CliperError::KeyStore)
                && *final(self) == *old(self),
    {
        match &self.persisted {
            Some(stored) => {
                let k = copy_slice(stored.as_slice());
                self.replace_key(k);
                Ok(())
            }
            None => {
                match random_bytes(32) {
                    Some(fresh) => {
                        let loaded = copy_slice(fresh.as_slice());
                        self.persisted = Some(fresh);
                        self.replace_key(loaded);
                        Ok(())
                    }
                    None => Err(CliperError::KeyStore),
                }
            }
        }
    }

    /// Loads a key, wiping whatever key was in memory before it.
    fn replace_key(&mut self, k: Vec<u8>)
        ensures
            final(self).key == Some(k),
            final(self).persisted == old(self).persisted,
    {
        let prev = self.key.take();
        match prev {
            Some(mut buf) => {
                wipe(&mut buf);
            }
            None => {}
        }
        self.key = Some(k);
    }

    /// Destroys the persisted secret and replaces it with a fresh 32-byte
    /// CSPRNG key, which is also loaded. Ciphertext sealed under the old
    /// key is permanently orphaned; no re-encryption happens. If the
    /// randomness source fails, the old secret is already gone and the
    /// in-memory key is unchanged.
    pub fn reset_master_key(&mut self) -> (r: Result<(), CliperError>)
        requires
            old(self).wf(),
        ensures
            final(self).wf(),
            r is Ok ==> final(self).unlocked()
                && final(self).key_bytes().len() == 32
                && final(self).stored_secret() == Some(final(self).key_bytes()),
            r is Err ==> r == Err::<(), CliperError>(CliperError::KeyStore)
                && final(self).stored_secret() is None
                && final(self).unlocked() == old(self).unlocked()
                && final(self).key_bytes() == old(self).key_bytes(),
    {
        self.persisted = None;
        match random_bytes(32) {
            Some(fresh) => {
                let loaded = copy_slice(fresh.as_slice());
                self.persisted = Some(fresh);
                self.replace_key(loaded);
                Ok(())
            }
            None => Err(CliperError::KeyStore),
        }
    }

    /// Seals `plaintext` under the loaded key with a fresh random 12-byte
    /// nonce: the result is nonce, ciphertext, tag. Fails with `Locked`
    /// when no key is loaded, and with `KeyStore` only when the randomness
    /// source fails.
    pub fn encrypt(&self, plaintext: &[u8]) -> (r: Result<Vec<u8>, CliperError>)
        requires
            self.wf(),
            plaintext@.len() < 0x1_0000_0000,
        ensures
            !self.unlocked() ==> r == Err::<Vec<u8>, CliperError>(CliperError::Locked),
            self.unlocked() ==> match r {
                Ok(blob) => encrypt_produced(self.key_bytes(), plaintext@, blob@),
                Err(e) => e == CliperError::KeyStore,
            },
    {
        let key = match &self.key {
            Some(k) => k,
            None => {
                return Err(CliperError::Locked);
            }
        };
        let nonce = match random_bytes(12) {
            Some(n) => n,
            None => {
                return Err(CliperError::KeyStore);
            }
        };
        let pt = copy_slice(plaintext);
        let sealed = aead_seal(key, &nonce, &pt);
        let mut blob = nonce;
        let ghost nonce_view = blob@;
        append_bytes(&mut blob, &sealed);
        proof {
            assert(blob@.subrange(0, 12) =~= nonce_view);
            assert(blob@.subrange(12, blob@.len() as int) =~= sealed@);
        }
        Ok(blob)
    }

    /// Splits the 12-byte nonce off `blob` and opens the rest under the
    /// loaded key. Fails with `MalformedInput` when the blob cannot even
    /// hold a nonce and a tag, with `Locked` when no key is loaded, and
    /// with `Authentication` when the tag does not verify.
    pub fn decrypt(&self, blob: &[u8]) -> (r: Result<Vec<u8>, CliperError>)
        requires
            self.wf(),
        ensures
            match r {
                Ok(pt) => decrypt_model(*self, blob@) == Ok::<Seq<u8>, CliperError>(pt@),
                Err(e) => decrypt_model(*self, blob@) == Err::<Seq<u8>, CliperError>(e),
            },
    {
        if blob.len() < 28 {
            return Err(CliperError::MalformedInput);
        }
        let key = match &self.key {
            Some(k) => k,
            None => {
                return Err(CliperError::Locked);
            }
        };
        let mut nonce: Vec<u8> = Vec::new();
        let mut i: usize = 0;
        while i < 12
            invariant
                i <= 12,
                blob@.len() >= 28,
                nonce@ == blob@.take(i as int),
            decreases 12 - i,
        {
            nonce.push(blob[i]);
            i = i + 1;
            assert(nonce@ =~= blob@.take(i as int));
        }
        let mut sealed: Vec<u8> = Vec::new();
        let mut j: usize = 12;
        while j < blob.len()
            invariant
                12 <= j <= blob@.len(),
                blob@.len() >= 28,
                sealed@ == blob@.subrange(12, j as int),
            decreases blob@.len() - j,
        {
            sealed.push(blob[j]);
            j = j + 1;
            assert(sealed@ =~= blob@.subrange(12, j as int));
        }
        proof {
            assert(nonce@ =~= blob@.subrange(0, 12));
        }
        match aead_open(key, &nonce, &sealed) {
            Some(pt) => Ok(pt),
            None => Err(CliperError::Authentication),
        }
    }
}

} // verus!
