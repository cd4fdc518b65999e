use vstd::prelude::*;

verus! {

use vstd::utf8::is_ascii_chars;
use vstd::utf8::is_ascii_chars_encode_utf8;
use vstd::string::StrSliceExecFns;
use vstd::pervasive::unreached;
use crate::encryption::base64_chars;
use crate::encryption::blob_for;
use crate::encryption::derived_key;
use crate::encryption::password_ok;
use crate::encryption::plaintext_ok;
use crate::encryption::b64_decode;
use crate::encryption::b64_encode;
use crate::encryption::random_bytes;
use crate::encryption::derive_key;
use crate::encryption::encrypt;
use crate::encryption::decrypt;

/// One object-storage destination. `bucket` and `region` are operational
/// metadata kept in clear; `access_key` and `secret_key` always hold
/// encrypted blobs, never plaintext credentials.
pub struct S3DestinationMeta {
    pub bucket: String,
    pub region: String,
    pub access_key: String,
    pub secret_key: String,
}

/// The vault's fixed header: a base64 salt and the encrypted check string
/// used to verify a candidate password.
pub struct ConfigMeta {
    pub salt: String,
    pub check: String,
}

/// A named destination as the vault stores it.
pub struct DestinationEntry {
    pub name: String,
    pub meta: S3DestinationMeta,
}

/// The password-protected vault: its header, its destinations (names unique),
/// and the resolved master password for this process run, never persisted.
pub struct RsaveConfig {
    pub meta: ConfigMeta,
    pub destinations: Vec<DestinationEntry>,
    pub session_password: Option<String>,
}

/// Ghost image of one destination's fields.
pub struct DestModel {
    pub bucket: Seq<char>,
    pub region: Seq<char>,
    pub access_key: Seq<char>,
    pub secret_key: Seq<char>,
}

/// Ghost image of a stored destination.
pub open spec fn dest_model(meta: S3DestinationMeta) -> DestModel {
    DestModel {
        bucket: meta.bucket@,
        region: meta.region@,
        access_key: meta.access_key@,
        secret_key: meta.secret_key@,
    }
}

/// The mapping from destination name to destination that a sequence of
/// entries represents; a later entry wins over an earlier one of the same
/// name.
pub open spec fn dest_map_of(entries: Seq<DestinationEntry>) -> Map<Seq<char>, DestModel>
    decreases entries.len(),
{
    if entries.len() == 0 {
        Map::empty()
    } else {
        dest_map_of(entries.drop_last()).insert(
            entries.last().name@,
            dest_model(entries.last().meta),
        )
    }
}

/// No two entries share a name.
pub open spec fn names_unique(entries: Seq<DestinationEntry>) -> bool {
    forall|i: int, j: int|
        0 <= i < j < entries.len() ==> (#[trigger] entries[i]).name@ != (#[trigger] entries[j]).name@
}

/// A name is in the represented mapping exactly when some entry carries it.
pub proof fn lemma_dest_map_contains(entries: Seq<DestinationEntry>, k: Seq<char>)
    ensures
        dest_map_of(entries).contains_key(k) <==> exists|i: int|
            0 <= i < entries.len() && (#[trigger] entries[i]).name@ == k,
    decreases entries.len(),
{
    if entries.len() > 0 {
        lemma_dest_map_contains(entries.drop_last(), k);
        if entries.last().name@ == k {
            assert((entries[entries.len() - 1]).name@ == k);
        } else {
            if dest_map_of(entries).contains_key(k) {
                let i = choose|i: int|
                    0 <= i < entries.drop_last().len() && (#[trigger] entries.drop_last()[i]).name@
                        == k;
                assert((entries[i]).name@ == k);
            }
            if exists|i: int| 0 <= i < entries.len() && (#[trigger] entries[i]).name@ == k {
                let i = choose|i: int|
                    0 <= i < entries.len() && (#[trigger] entries[i]).name@ == k;
                assert(i < entries.len() - 1);
                assert((entries.drop_last()[i]).name@ == k);
            }
        }
    }
}

/// With unique names, the entry at index `i` is what the mapping holds under
/// its name.
pub proof fn lemma_dest_map_index(entries: Seq<DestinationEntry>, i: int)
    requires
        names_unique(entries),
        0 <= i < entries.len(),
    ensures
        dest_map_of(entries).contains_key(entries[i].name@),
        dest_map_of(entries)[entries[i].name@] == dest_model(entries[i].meta),
    decreases entries.len(),
{
    lemma_dest_map_contains(entries, entries[i].name@);
    if i < entries.len() - 1 {
        assert(entries[i].name@ != entries.last().name@);
        assert((entries.drop_last()[i]).name@ == entries[i].name@);
        lemma_dest_map_index(entries.drop_last(), i);
    }
}

/// Replacing the entry at `i` by one of the same name updates the mapping at
/// that name alone.
pub proof fn lemma_dest_map_update(entries: Seq<DestinationEntry>, i: int, e: DestinationEntry)
    requires
        names_unique(entries),
        0 <= i < entries.len(),
        e.name@ == entries[i].name@,
    ensures
        dest_map_of(entries.update(i, e)) == dest_map_of(entries).insert(
            e.name@,
            dest_model(e.meta),
        ),
    decreases entries.len(),
{
    let updated = entries.update(i, e);
    if i == entries.len() - 1 {
        assert(updated.drop_last() =~= entries.drop_last());
        assert(updated.last() == e);
        assert(dest_map_of(updated) =~= dest_map_of(entries).insert(e.name@, dest_model(e.meta)));
    } else {
        assert(updated.drop_last() =~= entries.drop_last().update(i, e));
        assert(updated.last() == entries.last());
        assert((entries.drop_last()[i]).name@ == e.name@);
        lemma_dest_map_update(entries.drop_last(), i, e);
        assert(e.name@ != entries.last().name@);
        assert(dest_map_of(updated) =~= dest_map_of(entries).insert(e.name@, dest_model(e.meta)));
    }
}

/// Removing the entry at `i` removes exactly its name from the mapping.
pub proof fn lemma_dest_map_remove(entries: Seq<DestinationEntry>, i: int)
    requires
        names_unique(entries),
        0 <= i < entries.len(),
    ensures
        dest_map_of(entries.remove(i)) == dest_map_of(entries).remove(entries[i].name@),
    decreases entries.len(),
{
    let shrunk = entries.remove(i);
    if i == entries.len() - 1 {
        assert(shrunk =~= entries.drop_last());
        lemma_dest_map_contains(entries.drop_last(), entries[i].name@);
        assert(!dest_map_of(entries.drop_last()).contains_key(entries[i].name@));
        assert(dest_map_of(shrunk) =~= dest_map_of(entries).remove(entries[i].name@));
    } else {
        assert(shrunk.drop_last() =~= entries.drop_last().remove(i));
        assert(shrunk.last() == entries.last());
        lemma_dest_map_remove(entries.drop_last(), i);
        assert(entries[i].name@ != entries.last().name@);
        assert((entries.drop_last()[i]).name@ == entries[i].name@);
        assert(dest_map_of(shrunk) =~= dest_map_of(entries).remove(entries[i].name@));
    }
}

/// Appending an entry with a fresh name inserts exactly it.
pub proof fn lemma_dest_map_push(entries: Seq<DestinationEntry>, e: DestinationEntry)
    ensures
        dest_map_of(entries.push(e)) == dest_map_of(entries).insert(e.name@, dest_model(e.meta)),
{
    assert(entries.push(e).drop_last() =~= entries);
    assert(entries.push(e).last() == e);
}

/// The fixed plaintext whose encryption proves knowledge of the password.
pub open spec fn check_plain() -> Seq<char> {
    "rsave-check"@
}

/// The vault header carries a well-formed salt: the base64 rendering of some
/// 16 random bytes.
pub open spec fn salt_wf_meta(meta: ConfigMeta) -> bool {
    exists|b: Seq<u8>| b.len() == 16 && meta.salt@ == #[trigger] base64_chars(b)
}

/// The 16 salt bytes that the header's base64 field renders.
pub open spec fn salt_bytes_meta(meta: ConfigMeta) -> Seq<u8> {
    choose|b: Seq<u8>| b.len() == 16 && meta.salt@ == #[trigger] base64_chars(b)
}

/// The header's check blob is an encryption of the fixed check string under
/// the key derived from `password` and the header's salt: exactly the
/// condition under which password verification succeeds.
pub open spec fn meta_verifies(meta: ConfigMeta, password: Seq<char>) -> bool {
    blob_for(derived_key(password, salt_bytes_meta(meta)), meta.check@, check_plain())
}

impl RsaveConfig {
    /// The mapping from destination name to destination that the vault holds.
    pub open spec fn dests(self) -> Map<Seq<char>, DestModel> {
        dest_map_of(self.destinations@)
    }

    /// Well-formed vault: a decodable 16-byte salt and unique names.
    pub open spec fn wf(self) -> bool {
        salt_wf_meta(self.meta) && names_unique(self.destinations@)
    }

    /// The resolved master password, as characters.
    pub open spec fn session_password_view(self) -> Seq<char> {
        match self.session_password {
            Some(p) => p@,
            None => Seq::<char>::empty(),
        }
    }

    /// The key all credential encryption in this vault uses: derived from the
    /// resolved password and the vault's salt.
    pub open spec fn current_key_spec(self) -> Seq<u8> {
        derived_key(self.session_password_view(), salt_bytes_meta(self.meta))
    }

    /// `password` verifies against this vault.
    pub open spec fn verifies(self, password: Seq<char>) -> bool {
        meta_verifies(self.meta, password)
    }

    /// Resolves the master password for this run: the vault value with
    /// `session_password` set, everything else unchanged.
    pub fn with_password(self, password: String) -> (r: Self)
        ensures
            r.meta == self.meta,
            r.destinations == self.destinations,
            r.session_password == Some(password),
    {
        RsaveConfig { session_password: Some(password), ..self }
    }

    /// Whether the stored salt is usable: it decodes to exactly 16 bytes.
    /// Callers test this before any operation that derives a key.
    pub fn salt_ok(&self) -> (r: bool)
        ensures
            r == salt_wf_meta(self.meta),
    {
        match b64_decode(self.meta.salt.as_str()) {
            Some(v) => {
                let ok = v.len() == 16;
                proof {
                    if salt_wf_meta(self.meta) {
                        let b = choose|b: Seq<u8>|
                            b.len() == 16 && self.meta.salt@ == #[trigger] base64_chars(b);
                        assert(v@ == b);
                    }
                }
                ok
            },
            None => false,
        }
    }

    /// The decoded salt bytes of a well-formed vault.
    fn decode_salt(&self) -> (r: Vec<u8>)
        requires
            salt_wf_meta(self.meta),
        ensures
            r@ == salt_bytes_meta(self.meta),
            r@.len() == 16,
    {
        match b64_decode(self.meta.salt.as_str()) {
            Some(v) => v,
            None => unreached(),
        }
    }

    /// Key derived from the resolved password and the vault's salt.
    fn current_key(&self) -> (r: [u8; 32])
        requires
            salt_wf_meta(self.meta),
            self.session_password is Some,
            password_ok(self.session_password_view()),
        ensures
            r@ == self.current_key_spec(),
    {
        let salt = self.decode_salt();
        match &self.session_password {
            Some(p) => derive_key(p.as_str(), salt.as_slice()),
            None => unreached(),
        }
    }

    /// First-time initialization: draws a fresh random salt, encrypts the
    /// fixed check string under the key derived from `password`, and returns
    /// the empty vault. The result verifies exactly that password; callers
    /// must not re-initialize a vault whose header already holds a check.
    pub fn init(password: &str) -> (r: Self)
        requires
            password_ok(password@),
        ensures
            r.wf(),
            r.dests() == Map::<Seq<char>, DestModel>::empty(),
            r.verifies(password@),
            r.session_password is None,
    {
        proof {
            reveal_strlit("rsave-check");
            assert(is_ascii_chars("rsave-check"@));
            is_ascii_chars_encode_utf8("rsave-check"@);
        }
        let salt = random_bytes(16);
        let key = derive_key(password, salt.as_slice());
        let check = encrypt(&key, "rsave-check");
        let salt_b64 = b64_encode(salt.as_slice());
        let cfg = RsaveConfig {
            meta: ConfigMeta { salt: salt_b64, check },
            destinations: Vec::new(),
            session_password: None,
        };
        proof {
            assert(salt_wf_meta(cfg.meta));
            assert(salt_bytes_meta(cfg.meta) == salt@);
        }
        cfg
    }

    /// Derives a key from `password` and the stored salt and checks that the
    /// stored blob decrypts to the fixed check string. True exactly when the
    /// vault's check blob is an encryption of that string under `password`'s
    /// key; a wrong password and corrupted data both fail.
    pub fn verify_password(&self, password: &str) -> (r: bool)
        requires
            salt_wf_meta(self.meta),
            password_ok(password@),
        ensures
            r == self.verifies(password@),
    {
        let salt = self.decode_salt();
        let key = derive_key(password, salt.as_slice());
        match decrypt(&key, self.meta.check.as_str()) {
            Ok(v) => str_eq(v.as_str(), "rsave-check"),
            Err(_) => false,
        }
    }

    /// Index of the destination named `name`, if any.
    fn find_destination(&self, name: &str) -> (r: Option<usize>)
        ensures
            r matches Some(i) ==> i < self.destinations@.len() && self.destinations@[i as int].name@
                == name@,
            r is None ==> forall|i: int|
                0 <= i < self.destinations@.len() ==> (#[trigger] self.destinations@[i]).name@
                    != name@,
    {
        let n = self.destinations.len();
        let mut i: usize = 0;
        while i < n
            invariant
                0 <= i <= n,
                n == self.destinations@.len(),
                forall|j: int| 0 <= j < i ==> (#[trigger] self.destinations@[j]).name@ != name@,
            decreases n - i,
        {
            if str_eq(self.destinations[i].name.as_str(), name) {
                return Some(i);
            }
            i = i + 1;
        }
        None
    }

    /// Encrypts the credentials under the vault's current key and inserts or
    /// replaces the destination under `name`, leaving every other entry
    /// unchanged.
    pub fn add_destination_secure(
        &mut self,
        name: &str,
        bucket: &str,
        region: &str,
        access_key: &str,
        secret_key: &str,
    )
        requires
            old(self).wf(),
            old(self).session_password is Some,
            password_ok(old(self).session_password_view()),
            plaintext_ok(access_key@),
            plaintext_ok(secret_key@),
        ensures
            final(self).wf(),
            final(self).meta == old(self).meta,
            final(self).session_password == old(self).session_password,
            final(self).dests() == old(self).dests().insert(name@, final(self).dests()[name@]),
            ({
                let d = final(self).dests()[name@];
                &&& d.bucket == bucket@
                &&& d.region == region@
                &&& blob_for(old(self).current_key_spec(), d.access_key, access_key@)
                &&& blob_for(old(self).current_key_spec(), d.secret_key, secret_key@)
            }),
    {
        let key = self.current_key();
        let entry = DestinationEntry {
            name: name.to_owned(),
            meta: S3DestinationMeta {
                bucket: bucket.to_owned(),
                region: region.to_owned(),
                access_key: encrypt(&key, access_key),
                secret_key: encrypt(&key, secret_key),
            },
        };
        let ghost model = dest_model(entry.meta);
        match self.find_destination(name) {
            Some(i) => {
                proof {
                    lemma_dest_map_update(self.destinations@, i as int, entry);
                }
                self.destinations[i] = entry;
                proof {
                    lemma_dest_map_index(self.destinations@, i as int);
                }
            },
            None => {
                proof {
                    lemma_dest_map_push(self.destinations@, entry);
                }
                self.destinations.push(entry);
                proof {
                    lemma_dest_map_index(self.destinations@, self.destinations@.len() - 1);
                }
            },
        }
        proof {
            assert(self.dests() =~= dest_map_of(old(self).destinations@).insert(
                name@,
                self.dests()[name@],
            ));
        }
    }

    /// Partial update of the destination under `name`: only supplied fields
    /// change, and credentials are re-encrypted under a freshly drawn nonce.
    /// Reports false and leaves the vault unchanged when the name is absent.
    pub fn edit_destination_secure(
        &mut self,
        name: &str,
        bucket: Option<&str>,
        region: Option<&str>,
        access_key: Option<&str>,
        secret_key: Option<&str>,
    ) -> (r: bool)
        requires
            old(self).wf(),
            old(self).session_password is Some,
            password_ok(old(self).session_password_view()),
            access_key matches Some(a) ==> plaintext_ok(a@),
            secret_key matches Some(s) ==> plaintext_ok(s@),
        ensures
            final(self).wf(),
            final(self).meta == old(self).meta,
            final(self).session_password == old(self).session_password,
            r == old(self).dests().contains_key(name@),
            !r ==> *final(self) == *old(self),
            r ==> final(self).dests() == old(self).dests().insert(
                name@,
                final(self).dests()[name@],
            ),
            r ==> ({
                let d0 = old(self).dests()[name@];
                let d = final(self).dests()[name@];
                &&& (match bucket {
                    Some(b) => d.bucket == b@,
                    None => d.bucket == d0.bucket,
                })
                &&& (match region {
                    Some(g) => d.region == g@,
                    None => d.region == d0.region,
                })
                &&& (match access_key {
                    Some(a) => blob_for(old(self).current_key_spec(), d.access_key, a@),
                    None => d.access_key == d0.access_key,
                })
                &&& (match secret_key {
                    Some(s) => blob_for(old(self).current_key_spec(), d.secret_key, s@),
                    None => d.secret_key == d0.secret_key,
                })
            }),
    {
        let idx = match self.find_destination(name) {
            Some(i) => i,
            None => {
                proof {
                    lemma_dest_map_contains(self.destinations@, name@);
                }
                return false;
            },
        };
        let key = self.current_key();
        let new_bucket = match bucket {
            Some(b) => b.to_owned(),
            None => self.destinations[idx].meta.bucket.clone(),
        };
        let new_region = match region {
            Some(g) => g.to_owned(),
            None => self.destinations[idx].meta.region.clone(),
        };
        let new_access = match access_key {
            Some(a) => encrypt(&key, a),
            None => self.destinations[idx].meta.access_key.clone(),
        };
        let new_secret = match secret_key {
            Some(s) => encrypt(&key, s),
            None => self.destinations[idx].meta.secret_key.clone(),
        };
        let entry = DestinationEntry {
            name: self.destinations[idx].name.clone(),
            meta: S3DestinationMeta {
                bucket: new_bucket,
                region: new_region,
                access_key: new_access,
                secret_key: new_secret,
            },
        };
        proof {
            lemma_dest_map_index(self.destinations@, idx as int);
            lemma_dest_map_update(self.destinations@, idx as int, entry);
        }
        self.destinations[idx] = entry;
        proof {
            lemma_dest_map_index(self.destinations@, idx as int);
            assert(self.dests() =~= dest_map_of(old(self).destinations@).insert(
                name@,
                self.dests()[name@],
            ));
        }
        true
    }

    /// Removes the destination under `name` when present and reports whether
    /// it was; an absent name leaves the vault unchanged.
    pub fn delete_destination_secure(&mut self, name: &str) -> (r: bool)
        requires
            old(self).wf(),
        ensures
            final(self).wf(),
            final(self).meta == old(self).meta,
            final(self).session_password == old(self).session_password,
            r == old(self).dests().contains_key(name@),
            final(self).dests() == old(self).dests().remove(name@),
            !r ==> *final(self) == *old(self),
    {
        match self.find_destination(name) {
            Some(i) => {
                proof {
                    lemma_dest_map_index(self.destinations@, i as int);
                    lemma_dest_map_remove(self.destinations@, i as int);
                }
                self.destinations.remove(i);
                proof {
                    assert(names_unique(self.destinations@)) by {
                        assert forall|a: int, b: int|
                            0 <= a < b < self.destinations@.len() implies (#[trigger] self
                            .destinations@[a]).name@ != (#[trigger] self.destinations@[b]).name@ by {
                            assert(self.destinations@[a] == old(self).destinations@[
                            if a < i {
                                a
                            } else {
                                a + 1
                            }]);
                            assert(self.destinations@[b] == old(self).destinations@[
                            if b < i {
                                b
                            } else {
                                b + 1
                            }]);
                        }
                    }
                }
                true
            },
            None => {
                proof {
                    lemma_dest_map_contains(self.destinations@, name@);
                    assert(self.dests().remove(name@) =~= self.dests());
                }
                false
            },
        }
    }

    /// Read-only enumeration of `(name, bucket, region, has_credentials)`,
    /// one row per stored destination, in storage order; nothing is
    /// decrypted.
    pub fn list_destinations(&self) -> (r: Vec<(String, String, String, bool)>)
        ensures
            r@.len() == self.destinations@.len(),
            forall|i: int|
                0 <= i < r@.len() ==> {
                    let e = self.destinations@[i];
                    &&& (#[trigger] r@[i]).0@ == e.name@
                    &&& r@[i].1@ == e.meta.bucket@
                    &&& r@[i].2@ == e.meta.region@
                    &&& r@[i].3 == (e.meta.access_key@.len() > 0 && e.meta.secret_key@.len() > 0)
                },
            forall|i: int| 0 <= i < r@.len() ==> self.dests().contains_key((#[trigger] r@[i]).0@),
    {
        let mut out: Vec<(String, String, String, bool)> = Vec::new();
        let n = self.destinations.len();
        let mut i: usize = 0;
        while i < n
            invariant
                0 <= i <= n,
                n == self.destinations@.len(),
                out@.len() == i,
                forall|j: int|
                    0 <= j < i ==> {
                        let e = self.destinations@[j];
                        &&& (#[trigger] out@[j]).0@ == e.name@
                        &&& out@[j].1@ == e.meta.bucket@
                        &&& out@[j].2@ == e.meta.region@
                        &&& out@[j].3 == (e.meta.access_key@.len() > 0 && e.meta.secret_key@.len()
                            > 0)
                    },
            decreases n - i,
        {
            let e = &self.destinations[i];
            let has = !e.meta.access_key.as_str().is_empty() && !e.meta.secret_key.as_str().is_empty();
            out.push((e.name.clone(), e.meta.bucket.clone(), e.meta.region.clone(), has));
            i = i + 1;
        }
        proof {
            assert forall|j: int| 0 <= j < out@.len() implies self.dests().contains_key(
                (#[trigger] out@[j]).0@,
            ) by {
                lemma_dest_map_contains(self.destinations@, out@[j].0@);
                assert(self.destinations@[j].name@ == out@[j].0@);
            }
        }
        out
    }
}

/// A fresh vault accepts the password it was initialized with: verification
/// right after initialization returns true.
pub fn init_then_verify(password: &str) -> (r: (RsaveConfig, bool))
    requires
        password_ok(password@),
    ensures
        r.1 == true,
        r.0.wf(),
        r.0.verifies(password@),
{
    let vault = RsaveConfig::init(password);
    let ok = vault.verify_password(password);
    (vault, ok)
}

/// Deleting a destination then listing never shows it: when every listed
/// name comes from the mapping the deletion left behind, none of them is the
/// deleted name.
pub proof fn lemma_deleted_never_listed(
    before: Map<Seq<char>, DestModel>,
    name: Seq<char>,
    after: Map<Seq<char>, DestModel>,
    listed: Seq<Seq<char>>,
)
    requires
        after == before.remove(name),
        forall|i: int| 0 <= i < listed.len() ==> after.contains_key(#[trigger] listed[i]),
    ensures
        forall|i: int| 0 <= i < listed.len() ==> listed[i] != name,
{
    assert(!after.contains_key(name));
}

/// True exactly when the two strings hold the same characters.
pub fn str_eq(a: &str, b: &str) -> (r: bool)
    ensures
        r == (a@ == b@),
{
    let la = a.unicode_len();
    let lb = b.unicode_len();
    if la != lb {
        return false;
    }
    let mut i: usize = 0;
    while i < la
        invariant
            0 <= i <= la,
            la == a@.len(),
            la == b@.len(),
            forall|j: int| 0 <= j < i ==> a@[j] == b@[j],
        decreases la - i,
    {
        if a.get_char(i) != b.get_char(i) {
            return false;
        }
        i = i + 1;
    }
    proof {
        assert(a@ =~= b@);
    }
    true
}

} // verus!
