use vstd::prelude::*;

verus! {

use vstd::utf8::encode_utf8;
use vstd::string::StrSliceExecFns;
use vstd::string::StringExecFns;

/// Key that the password-hashing function derives from a password and a salt.
pub uninterp spec fn derived_key(password: Seq<char>, salt: Seq<u8>) -> Seq<u8>;

/// Ciphertext (with its appended authentication tag) that the authenticated
/// cipher produces for a key, a nonce and a plaintext.
pub uninterp spec fn sealed(key: Seq<u8>, nonce: Seq<u8>, plaintext: Seq<u8>) -> Seq<u8>;

/// The base64 rendering of a byte sequence.
pub uninterp spec fn base64_chars(bytes: Seq<u8>) -> Seq<char>;

/// A password the key-derivation call accepts: its UTF-8 form fits the hash
/// function's input limit.
pub open spec fn password_ok(password: Seq<char>) -> bool {
    encode_utf8(password).len() <= 0xFFFF_FFFF
}

/// A plaintext small enough for the cipher: at most 2^36 bytes once encoded.
pub open spec fn plaintext_ok(plaintext: Seq<char>) -> bool {
    encode_utf8(plaintext).len() <= 0x10_0000_0000
}

/// Whether a password fits the key-derivation input limit: callers test this
/// before deriving a key from untrusted input.
pub fn password_fits(password: &str) -> (r: bool)
    ensures
        r == password_ok(password@),
{
    password.as_bytes().len() <= 0xFFFF_FFFF
}

/// Whether a value is small enough to encrypt: callers test this before
/// handing untrusted input to the cipher.
pub fn plaintext_fits(value: &str) -> (r: bool)
    ensures
        r == plaintext_ok(value@),
{
    value.as_bytes().len() as u64 <= 0x10_0000_0000
}

/// Relies on argon2's `Argon2::hash_password_into` with default parameters:
/// the derived key is a function of the password and salt alone, and the call
/// succeeds whenever the salt is 8 to 2^32 - 1 bytes long and the password's
/// UTF-8 form is at most 2^32 - 1 bytes.
#[verifier::external_body]
pub fn derive_key(password: &str, salt: &[u8]) -> (r: [u8; 32])
    requires
        8 <= salt@.len() <= 0xFFFF_FFFF,
        password_ok(password@),
    ensures
        r@ == derived_key(password@, salt@),
{
    let argon2 = argon2::Argon2::default();
    let mut key = [0u8; 32];
    argon2
        .hash_password_into(password.as_bytes(), salt, &mut key)
        .unwrap();
    key
}

/// Relies on rand's `fill_bytes`: it fills the buffer with random bytes;
/// nothing is promised of the values.
#[verifier::external_body]
pub(crate) fn random_bytes(n: usize) -> (r: Vec<u8>)
    ensures
        r@.len() == n,
{
    let mut v = vec![0u8; n];
    rand::RngCore::fill_bytes(&mut rand::rng(), &mut v);
    v
}

/// Relies on aes_gcm's `Aes256Gcm` encryption (through aead's `Aead` trait):
/// the ciphertext is a function of key, nonce and plaintext alone, and the
/// call succeeds for plaintexts of at most 2^36 bytes.
#[verifier::external_body]
fn aead_seal(key: &[u8; 32], nonce: &[u8], plaintext: &[u8]) -> (r: Vec<u8>)
    requires
        nonce@.len() == 12,
        plaintext@.len() <= 0x10_0000_0000,
    ensures
        r@ == sealed(key@, nonce@, plaintext@),
{
    let cipher = <aes_gcm::Aes256Gcm as aes_gcm::KeyInit>::new(
        aes_gcm::Key::<aes_gcm::Aes256Gcm>::from_slice(key),
    );
    aes_gcm::aead::Aead::encrypt(&cipher, aes_gcm::Nonce::from_slice(nonce), plaintext).unwrap()
}

/// Relies on aes_gcm's `Aes256Gcm` decryption: it inverts sealing — it
/// returns the plaintext whose sealing under the key and nonce is the given
/// ciphertext, and fails when no such plaintext exists (wrong key or nonce,
/// or a tampered ciphertext).
#[verifier::external_body]
fn aead_open(key: &[u8; 32], nonce: &[u8], ciphertext: &[u8]) -> (r: Option<Vec<u8>>)
    requires
        nonce@.len() == 12,
    ensures
        r is Some ==> ciphertext@ == sealed(key@, nonce@, r->0@),
        forall|p: Seq<u8>|
            ciphertext@ == #[trigger] sealed(key@, nonce@, p) ==> r is Some && r->0@ == p,
{
    let cipher = <aes_gcm::Aes256Gcm as aes_gcm::KeyInit>::new(
        aes_gcm::Key::<aes_gcm::Aes256Gcm>::from_slice(key),
    );
    match aes_gcm::aead::Aead::decrypt(&cipher, aes_gcm::Nonce::from_slice(nonce), ciphertext) {
        Ok(p) => Some(p),
        Err(_) => None,
    }
}

/// Relies on base64's `STANDARD` engine encode: the rendering is a function
/// of the bytes alone, drawn from an alphabet that does not contain ':', and
/// no two byte sequences share a rendering (decode inverts it).
#[verifier::external_body]
pub(crate) fn b64_encode(data: &[u8]) -> (r: String)
    ensures
        r@ == base64_chars(data@),
        forall|i: int| 0 <= i < r@.len() ==> r@[i] != ':',
        forall|x: Seq<u8>| r@ == #[trigger] base64_chars(x) ==> x == data@,
{
    base64::Engine::encode(&base64::engine::general_purpose::STANDARD, data)
}

/// Relies on base64's `STANDARD` engine decode, which requires canonical
/// padding: it accepts exactly the strings that encoding produces, and
/// inverts the encoding.
#[verifier::external_body]
pub(crate) fn b64_decode(s: &str) -> (r: Option<Vec<u8>>)
    ensures
        r is Some ==> s@ == base64_chars(r->0@),
        forall|x: Seq<u8>| s@ == #[trigger] base64_chars(x) ==> r is Some && r->0@ == x,
{
    match base64::Engine::decode(&base64::engine::general_purpose::STANDARD, s) {
        Ok(v) => Some(v),
        Err(_) => None,
    }
}

/// Relies on `String::from_utf8`: it accepts exactly the byte sequences that
/// are the UTF-8 encoding of some character sequence, and returns those
/// characters.
#[verifier::external_body]
fn bytes_to_string(v: Vec<u8>) -> (r: Option<String>)
    ensures
        r is Some ==> v@ == encode_utf8(r->0@),
        forall|cs: Seq<char>| v@ == #[trigger] encode_utf8(cs) ==> r is Some && r->0@ == cs,
{
    match String::from_utf8(v) {
        Ok(s) => Some(s),
        Err(_) => None,
    }
}

/// Index of the first ':' in `s`, or -1 when there is none.
pub open spec fn first_colon(s: Seq<char>) -> int
    decreases s.len(),
{
    if s.len() == 0 {
        -1
    } else if s[0] == ':' {
        0
    } else {
        let rest = first_colon(s.skip(1));
        if rest < 0 {
            -1
        } else {
            rest + 1
        }
    }
}

/// What the first-colon index means: a nonnegative index points at a ':' with
/// none before it, and -1 says the sequence holds no ':' at all.
pub proof fn lemma_first_colon(s: Seq<char>)
    ensures
        first_colon(s) < 0 ==> forall|j: int| 0 <= j < s.len() ==> s[j] != ':',
        first_colon(s) >= 0 ==> first_colon(s) < s.len() && s[first_colon(s)] == ':' && forall|
            j: int,
        | 0 <= j < first_colon(s) ==> s[j] != ':',
    decreases s.len(),
{
    if s.len() > 0 && s[0] != ':' {
        lemma_first_colon(s.skip(1));
        let rest = first_colon(s.skip(1));
        if rest < 0 {
            assert forall|j: int| 0 <= j < s.len() implies s[j] != ':' by {
                if j > 0 {
                    assert(s.skip(1)[j - 1] == s[j]);
                }
            }
        } else {
            assert(s[rest + 1] == s.skip(1)[rest]);
            assert forall|j: int| 0 <= j < rest + 1 implies s[j] != ':' by {
                if j > 0 {
                    assert(s.skip(1)[j - 1] == s[j]);
                }
            }
        }
    }
}

/// The first-colon index of a sequence whose position `i` holds its only
/// leading ':' is exactly `i`.
pub proof fn lemma_first_colon_is(s: Seq<char>, i: int)
    requires
        0 <= i < s.len(),
        s[i] == ':',
        forall|j: int| 0 <= j < i ==> s[j] != ':',
    ensures
        first_colon(s) == i,
    decreases i,
{
    if i > 0 {
        assert forall|j: int| 0 <= j < i - 1 implies s.skip(1)[j] != ':' by {
            assert(s.skip(1)[j] == s[j + 1]);
        }
        assert(s.skip(1)[i - 1] == s[i]);
        lemma_first_colon_is(s.skip(1), i - 1);
    }
}

/// Chars of `s` before its first ':'.
pub open spec fn part_before_colon(s: Seq<char>) -> Seq<char> {
    s.take(first_colon(s))
}

/// Chars of `s` after its first ':'.
pub open spec fn part_after_colon(s: Seq<char>) -> Seq<char> {
    s.skip(first_colon(s) + 1)
}

/// `s` is the base64 rendering of some byte sequence.
pub open spec fn is_base64(s: Seq<char>) -> bool {
    exists|x: Seq<u8>| s == #[trigger] base64_chars(x)
}

/// Both parts of `s` around its first ':' are base64 renderings.
pub open spec fn blob_parts_base64(s: Seq<char>) -> bool {
    first_colon(s) >= 0 && is_base64(part_before_colon(s)) && is_base64(part_after_colon(s))
}

/// The part of `s` before the ':' renders a 12-byte nonce.
pub open spec fn blob_nonce_ok(s: Seq<char>) -> bool {
    blob_parts_base64(s) && exists|n: Seq<u8>|
        n.len() == 12 && part_before_colon(s) == #[trigger] base64_chars(n)
}

/// The part of `s` after the ':' renders a ciphertext sealed under `key` and
/// the blob's own nonce.
pub open spec fn blob_authentic(key: Seq<u8>, s: Seq<char>) -> bool {
    first_colon(s) >= 0 && exists|n: Seq<u8>, p: Seq<u8>|
        n.len() == 12 && part_before_colon(s) == base64_chars(n) && part_after_colon(s)
            == base64_chars(#[trigger] sealed(key, n, p))
}

/// `blob` is an encryption of plaintext `m` under `key`: around its first ':'
/// its left part renders a 12-byte nonce, its right part the sealing of `m`'s
/// UTF-8 form under `key` and that nonce.
pub open spec fn blob_for(key: Seq<u8>, blob: Seq<char>, m: Seq<char>) -> bool {
    first_colon(blob) >= 0 && exists|n: Seq<u8>|
        n.len() == 12 && part_before_colon(blob) == #[trigger] base64_chars(n)
            && part_after_colon(blob) == base64_chars(sealed(key, n, encode_utf8(m)))
}

/// Why a blob would not decrypt.
#[derive(PartialEq, Eq, Structural, Clone, Copy, Debug)]
pub enum DecryptError {
    /// The blob holds no ':' delimiter.
    MissingDelimiter,
    /// A part around the ':' is not valid base64.
    InvalidEncoding,
    /// The decoded nonce is not 12 bytes long.
    InvalidNonce,
    /// The ciphertext does not authenticate under the key and nonce.
    AuthFailed,
    /// The decrypted bytes are not valid text.
    InvalidText,
}

/// Encrypts `plaintext` under `key` with a fresh random 12-byte nonce and
/// returns the blob `base64(nonce) + ":" + base64(ciphertext)`.
///
/// The contract, together with `decrypt`'s, states the round trip: the blob
/// decrypts to `plaintext` under the same key.
pub fn encrypt(key: &[u8; 32], plaintext: &str) -> (r: String)
    requires
        plaintext_ok(plaintext@),
    ensures
        blob_for(key@, r@, plaintext@),
{
    let nonce = random_bytes(12);
    let ct = aead_seal(key, nonce.as_slice(), plaintext.as_bytes());
    let mut blob = b64_encode(nonce.as_slice());
    let ghost left = blob@;
    blob.append(":");
    let ct_b64 = b64_encode(ct.as_slice());
    blob.append(ct_b64.as_str());
    proof {
        reveal_strlit(":");
        assert(blob@ =~= left + ":"@ + ct_b64@);
        assert(blob@[left.len() as int] == ':');
        lemma_first_colon_is(blob@, left.len() as int);
        assert(part_before_colon(blob@) =~= left);
        assert(part_after_colon(blob@) =~= ct_b64@);
    }
    blob
}

/// Decrypts a blob of the form `base64(nonce) + ":" + base64(ciphertext)`
/// under `key`. It succeeds exactly on the blobs that an encryption of some
/// plaintext under `key` produces, returns that plaintext, and otherwise
/// reports which of the steps failed.
pub fn decrypt(key: &[u8; 32], s: &str) -> (r: Result<String, DecryptError>)
    ensures
        r matches Ok(m) ==> blob_for(key@, s@, m@),
        forall|m: Seq<char>| blob_for(key@, s@, m) ==> (r matches Ok(p) && p@ == m),
        (r is Err && r->Err_0 == DecryptError::MissingDelimiter) <==> first_colon(s@) < 0,
        (r is Err && r->Err_0 == DecryptError::InvalidEncoding) <==> (first_colon(s@) >= 0
            && !blob_parts_base64(s@)),
        (r is Err && r->Err_0 == DecryptError::InvalidNonce) <==> (blob_parts_base64(s@)
            && !blob_nonce_ok(s@)),
        (r is Err && r->Err_0 == DecryptError::AuthFailed) <==> (blob_nonce_ok(s@)
            && !blob_authentic(key@, s@)),
        (r is Err && r->Err_0 == DecryptError::InvalidText) <==> (blob_authentic(key@, s@)
            && !(exists|m: Seq<char>| blob_for(key@, s@, m))),
{
    proof {
        lemma_first_colon(s@);
    }
    let idx = match find_colon(s) {
        Some(i) => i,
        None => {
            return Err(DecryptError::MissingDelimiter);
        },
    };
    let len = s.unicode_len();
    let left = s.substring_char(0, idx);
    let right = s.substring_char(idx + 1, len);
    proof {
        assert(left@ =~= part_before_colon(s@));
        assert(right@ =~= part_after_colon(s@));
    }
    let nonce = match b64_decode(left) {
        Some(v) => v,
        None => {
            return Err(DecryptError::InvalidEncoding);
        },
    };
    let ct = match b64_decode(right) {
        Some(v) => v,
        None => {
            return Err(DecryptError::InvalidEncoding);
        },
    };
    if nonce.len() != 12 {
        return Err(DecryptError::InvalidNonce);
    }
    let pt = match aead_open(key, nonce.as_slice(), ct.as_slice()) {
        Some(p) => p,
        None => {
            return Err(DecryptError::AuthFailed);
        },
    };
    let ghost ptv = pt@;
    let res = bytes_to_string(pt);
    proof {
        assert(part_after_colon(s@) == base64_chars(sealed(key@, nonce@, ptv)));
        assert(blob_authentic(key@, s@));
    }
    match res {
        Some(m) => {
            proof {
                assert(part_before_colon(s@) == base64_chars(nonce@));
                assert(part_after_colon(s@) == base64_chars(
                    sealed(key@, nonce@, encode_utf8(m@)),
                ));
                assert(blob_for(key@, s@, m@));
            }
            Ok(m)
        },
        None => {
            proof {
                assert forall|m: Seq<char>| !blob_for(key@, s@, m) by {
                    if blob_for(key@, s@, m) {
                        let n2 = choose|n2: Seq<u8>|
                            n2.len() == 12 && part_before_colon(s@) == #[trigger] base64_chars(n2)
                                && part_after_colon(s@) == base64_chars(
                                sealed(key@, n2, encode_utf8(m)),
                            );
                        assert(n2 == nonce@);
                        assert(ct@ == sealed(key@, nonce@, encode_utf8(m)));
                        assert(ptv == encode_utf8(m));
                    }
                }
            }
            Err(DecryptError::InvalidText)
        },
    }
}

/// Index of the first ':' in `s`, or `None` when there is none.
fn find_colon(s: &str) -> (r: Option<usize>)
    ensures
        r matches Some(i) ==> first_colon(s@) == i,
        r is None ==> first_colon(s@) < 0,
{
    let len = s.unicode_len();
    let mut i: usize = 0;
    while i < len
        invariant
            0 <= i <= len,
            len == s@.len(),
            forall|j: int| 0 <= j < i ==> s@[j] != ':',
        decreases len - i,
    {
        if s.get_char(i) == ':' {
            proof {
                lemma_first_colon_is(s@, i as int);
            }
            return Some(i);
        }
        i = i + 1;
    }
    proof {
        lemma_first_colon(s@);
    }
    None
}

/// Round trip: decrypting an encryption of `plaintext` under the same key
/// yields `plaintext` again, whatever nonce the encryption drew.
pub fn encrypt_then_decrypt(key: &[u8; 32], plaintext: &str) -> (r: Result<String, DecryptError>)
    requires
        plaintext_ok(plaintext@),
    ensures
        r matches Ok(m) && m@ == plaintext@,
{
    let blob = encrypt(key, plaintext);
    decrypt(key, blob.as_str())
}

} // verus!
