//! Hierarchical, purpose-scoped key derivation from one master secret.
use vstd::prelude::*;
use vstd::string::StringExecFns;
use vstd::utf8::encode_utf8;

use crate::encryption::{copy_key, KEY_LEN};
use crate::random::random_bytes;
use crate::wipe::{wipe_key_bytes, wipe_string};

verus! {

/// BLAKE3 in key-derivation mode: the 32-byte key derived from
/// `key_material` under the context string `context`.
pub uninterp spec fn blake3_derive_key(context: Seq<char>, key_material: Seq<u8>) -> Seq<u8>;

/// Relies on `blake3::derive_key`: the result depends on the context and the
/// key material alone.
#[verifier::external_body]
fn blake3_derive(context: &str, key_material: &[u8]) -> (r: [u8; 32])
    ensures
        r@ == blake3_derive_key(context@, key_material@),
{
    blake3::derive_key(context, key_material)
}

/// `context` and `info` joined by a colon: one step down the key tree.
pub open spec fn child_context(context: Seq<char>, info: Seq<char>) -> Seq<char> {
    context + ":"@ + info
}

/// A new string holding `context`, a colon and `info`.
pub fn join_context(context: &str, info: &str) -> (r: String)
    ensures
        r@ == child_context(context@, info@),
{
    let mut full = String::from_str(context);
    full.append(":");
    full.append(info);
    full
}

/// The decimal digit for a value below 10.
pub open spec fn decimal_digit(d: nat) -> char {
    (('0' as u8) + d) as char
}

/// The decimal representation of `n`, without leading zeros.
pub open spec fn decimal(n: nat) -> Seq<char>
    decreases n,
{
    if n < 10 {
        seq![decimal_digit(n)]
    } else {
        decimal(n / 10).push(decimal_digit(n % 10))
    }
}

/// Appends the decimal representation of `n`.
pub fn push_decimal(s: &mut String, n: u32)
    ensures
        final(s)@ == old(s)@ + decimal(n as nat),
    decreases n,
{
    if n >= 10 {
        push_decimal(s, n / 10);
    }
    let d = (n % 10) as u8;
    s.push((('0' as u8) + d) as char);
    proof {
        assert(final(s)@ =~= old(s)@ + decimal(n as nat));
    }
}

/// The first 32 bytes of `key`, padded with zeros when it is shorter.
pub open spec fn padded_key(key: Seq<u8>) -> Seq<u8> {
    if key.len() >= 32 {
        key.subrange(0, 32)
    } else {
        key + Seq::new((32 - key.len()) as nat, |i: int| 0u8)
    }
}

/// The context of stretching round `i`.
pub open spec fn stretch_context(i: nat) -> Seq<char> {
    "stretch:"@ + decimal(i)
}

/// `key` after `rounds` rounds of re-derivation, round `i` under the context
/// `stretch:i`.
pub open spec fn stretched(key: Seq<u8>, rounds: nat) -> Seq<u8>
    decreases rounds,
{
    if rounds == 0 {
        padded_key(key)
    } else {
        blake3_derive_key(stretch_context((rounds - 1) as nat), stretched(key, (rounds - 1) as nat))
    }
}

/// Deterministic key derivation from passwords and master keys.
pub struct KeyDerivation;

impl KeyDerivation {
    /// Derives a key from the password's UTF-8 bytes followed by the salt.
    pub fn derive_key_from_password(password: &str, salt: &[u8], context: &str) -> (r: [u8; 32])
        ensures
            r@ == blake3_derive_key(context@, encode_utf8(password@) + salt@),
    {
        let mut key_material: Vec<u8> = Vec::new();
        key_material.extend_from_slice(password.as_bytes());
        key_material.extend_from_slice(salt);
        proof {
            assert(key_material@ =~= encode_utf8(password@) + salt@);
        }
        blake3_derive(context, key_material.as_slice())
    }

    /// A salt of `size` bytes from the operating system's secure generator.
    pub fn generate_salt(size: usize) -> (r: Vec<u8>)
        ensures
            r@.len() == size,
    {
        random_bytes(size)
    }

    /// Derives the subkey of `master_key` under `context:info`.
    pub fn derive_subkey(master_key: &[u8], context: &str, info: &str) -> (r: [u8; 32])
        ensures
            r@ == blake3_derive_key(child_context(context@, info@), master_key@),
    {
        let full_context = join_context(context, info);
        blake3_derive(full_context.as_str(), master_key)
    }

    /// Deliberate key stretching: `rounds` rounds of re-derivation starting
    /// from the key cut or zero-padded to 32 bytes.
    pub fn stretch_key(key: &[u8], rounds: u32) -> (r: [u8; 32])
        ensures
            r@ == stretched(key@, rounds as nat),
    {
        let mut result = [0u8; 32];
        let n = if key.len() < KEY_LEN { key.len() } else { KEY_LEN };
        let mut j: usize = 0;
        while j < n
            invariant
                n <= KEY_LEN,
                n <= key@.len(),
                j <= n,
                result@.len() == KEY_LEN,
                forall|k: int| 0 <= k < j ==> result@[k] == key@[k],
                forall|k: int| n <= k < KEY_LEN ==> result@[k] == 0,
            decreases n - j,
        {
            result[j] = key[j];
            j = j + 1;
        }
        proof {
            assert(result@ =~= padded_key(key@));
        }
        let mut i: u32 = 0;
        while i < rounds
            invariant
                i <= rounds,
                result@ == stretched(key@, i as nat),
            decreases rounds - i,
        {
            let mut context = String::from_str("stretch:");
            push_decimal(&mut context, i);
            result = blake3_derive(context.as_str(), &result);
            i = i + 1;
        }
        result
    }
}

/// A derived key paired with the context path that produced it; the key bytes
/// are wiped when it is dropped.
#[derive(Clone)]
pub struct SecureKey {
    key: [u8; 32],
    context: String,
}

impl SecureKey {
    pub closed spec fn bytes(&self) -> Seq<u8> {
        self.key@
    }

    pub closed spec fn spec_context(&self) -> Seq<char> {
        self.context@
    }

    pub fn new(key: [u8; 32], context: String) -> (r: Self)
        ensures
            r.bytes() == key@,
            r.spec_context() == context@,
    {
        SecureKey { key, context }
    }

    pub fn from_password(password: &str, salt: &[u8], context: &str) -> (r: Self)
        ensures
            r.bytes() == blake3_derive_key(context@, encode_utf8(password@) + salt@),
            r.spec_context() == context@,
    {
        let key = KeyDerivation::derive_key_from_password(password, salt, context);
        SecureKey { key, context: String::from_str(context) }
    }

    /// A key from the operating system's secure generator.
    pub fn generate(context: String) -> (r: Self)
        ensures
            r.bytes().len() == KEY_LEN,
            r.spec_context() == context@,
    {
        let bytes = random_bytes(KEY_LEN);
        let key = copy_key(&bytes);
        SecureKey { key, context }
    }

    /// The child key under `info`: its context is this key's context, a colon
    /// and `info`.
    pub fn derive_subkey(&self, info: &str) -> (r: SecureKey)
        ensures
            r.spec_context() == child_context(self.spec_context(), info@),
            r.bytes() == blake3_derive_key(child_context(self.spec_context(), info@), self.bytes()),
    {
        let subkey = KeyDerivation::derive_subkey(&self.key, self.context.as_str(), info);
        let sub_context = join_context(self.context.as_str(), info);
        SecureKey::new(subkey, sub_context)
    }

    pub fn as_bytes(&self) -> (r: &[u8; 32])
        ensures
            r@ == self.bytes(),
    {
        &self.key
    }

    pub fn context(&self) -> (r: &str)
        ensures
            r@ == self.spec_context(),
    {
        self.context.as_str()
    }

    /// The key to store under `storage_context`, derived from this one.
    pub fn export_for_storage(&self, storage_context: &str) -> (r: [u8; 32])
        ensures
            r@ == blake3_derive_key(child_context(self.spec_context(), storage_context@), self.bytes()),
    {
        KeyDerivation::derive_subkey(&self.key, self.context.as_str(), storage_context)
    }

    /// Wipes the key bytes and empties the context.
    pub fn zeroize(&mut self)
        ensures
            final(self).bytes() == Seq::new(32, |i: int| 0u8),
            final(self).spec_context().len() == 0,
    {
        wipe_key_bytes(&mut self.key);
        wipe_string(&mut self.context);
    }
}

impl Drop for SecureKey {
    fn drop(&mut self)
        opens_invariants none
        no_unwind
    {
        wipe_key_bytes(&mut self.key);
    }
}

/// The usage domains of derived keys.
#[derive(Debug, Clone, Copy, PartialEq, Eq, Structural)]
pub enum KeyPurpose {
    FileEncryption,
    DatabaseEncryption,
    UserAuthentication,
    SessionToken,
    ApiKey,
    BackupEncryption,
}

/// The fixed root context of each purpose.
pub open spec fn purpose_root(p: KeyPurpose) -> Seq<char> {
    match p {
        KeyPurpose::FileEncryption => "fileshare.file.encryption"@,
        KeyPurpose::DatabaseEncryption => "fileshare.database.encryption"@,
        KeyPurpose::UserAuthentication => "fileshare.user.auth"@,
        KeyPurpose::SessionToken => "fileshare.session.token"@,
        KeyPurpose::ApiKey => "fileshare.api.key"@,
        KeyPurpose::BackupEncryption => "fileshare.backup.encryption"@,
    }
}

impl KeyPurpose {
    pub fn context(&self) -> (r: &'static str)
        ensures
            r@ == purpose_root(*self),
    {
        match self {
            KeyPurpose::FileEncryption => "fileshare.file.encryption",
            KeyPurpose::DatabaseEncryption => "fileshare.database.encryption",
            KeyPurpose::UserAuthentication => "fileshare.user.auth",
            KeyPurpose::SessionToken => "fileshare.session.token",
            KeyPurpose::ApiKey => "fileshare.api.key",
            KeyPurpose::BackupEncryption => "fileshare.backup.encryption",
        }
    }
}

/// The info segment below the master key for a purpose and an optional object
/// id: the purpose's root, then a colon and the id if there is one.
pub open spec fn purpose_info(purpose: KeyPurpose, id: Option<Seq<char>>) -> Seq<char> {
    match id {
        Some(i) => child_context(purpose_root(purpose), i),
        None => purpose_root(purpose),
    }
}

/// The characters of an optional string.
pub open spec fn text_of(s: Option<&str>) -> Option<Seq<char>> {
    match s {
        Some(t) => Some(t@),
        None => None,
    }
}

/// Context of the master key that a factory derives from a password.
pub const MASTER_CONTEXT: &'static str = "fileshare.master";

/// Binds one master key and derives purpose-scoped keys from it.
pub struct KeyDerivationFactory {
    master_key: SecureKey,
}

impl KeyDerivationFactory {
    pub closed spec fn master(&self) -> SecureKey {
        self.master_key
    }

    pub fn new(master_key: SecureKey) -> (r: Self)
        ensures
            r.master() == master_key,
    {
        KeyDerivationFactory { master_key }
    }

    /// A factory whose master key is derived from the password and salt under
    /// the master context.
    pub fn from_password(password: &str, salt: &[u8]) -> (r: Self)
        ensures
            r.master().bytes() == blake3_derive_key(MASTER_CONTEXT@, encode_utf8(password@) + salt@),
            r.master().spec_context() == MASTER_CONTEXT@,
    {
        let master_key = SecureKey::from_password(password, salt, MASTER_CONTEXT);
        KeyDerivationFactory { master_key }
    }

    /// The key for `purpose`, scoped to `additional_info` when given.
    pub fn derive_key(&self, purpose: KeyPurpose, additional_info: Option<&str>) -> (r: SecureKey)
        ensures
            r.spec_context() == child_context(
                self.master().spec_context(),
                purpose_info(purpose, text_of(additional_info)),
            ),
            r.bytes() == blake3_derive_key(r.spec_context(), self.master().bytes()),
    {
        let info = match additional_info {
            Some(extra) => join_context(purpose.context(), extra),
            None => String::from_str(purpose.context()),
        };
        self.master_key.derive_subkey(info.as_str())
    }

    pub fn derive_user_key(&self, user_id: &str) -> (r: SecureKey)
        ensures
            r.spec_context() == child_context(
                self.master().spec_context(),
                purpose_info(KeyPurpose::UserAuthentication, Some(user_id@)),
            ),
            r.bytes() == blake3_derive_key(r.spec_context(), self.master().bytes()),
    {
        self.derive_key(KeyPurpose::UserAuthentication, Some(user_id))
    }

    pub fn derive_file_key(&self, file_id: &str) -> (r: SecureKey)
        ensures
            r.spec_context() == child_context(
                self.master().spec_context(),
                purpose_info(KeyPurpose::FileEncryption, Some(file_id@)),
            ),
            r.bytes() == blake3_derive_key(r.spec_context(), self.master().bytes()),
    {
        self.derive_key(KeyPurpose::FileEncryption, Some(file_id))
    }

    pub fn derive_api_key(&self, api_key_id: &str) -> (r: SecureKey)
        ensures
            r.spec_context() == child_context(
                self.master().spec_context(),
                purpose_info(KeyPurpose::ApiKey, Some(api_key_id@)),
            ),
            r.bytes() == blake3_derive_key(r.spec_context(), self.master().bytes()),
    {
        self.derive_key(KeyPurpose::ApiKey, Some(api_key_id))
    }
}


/// Derivation is a pure function: the same master key and context give the
/// same key, byte for byte.
pub proof fn lemma_derivation_deterministic(
    master: Seq<u8>,
    context: Seq<char>,
    first: Seq<u8>,
    second: Seq<u8>,
)
    requires
        first == blake3_derive_key(context, master),
        second == blake3_derive_key(context, master),
    ensures
        first == second,
{
}

/// The character in which the purposes' roots first differ.
pub open spec fn purpose_mark(p: KeyPurpose) -> char {
    match p {
        KeyPurpose::FileEncryption => 'f',
        KeyPurpose::DatabaseEncryption => 'd',
        KeyPurpose::UserAuthentication => 'u',
        KeyPurpose::SessionToken => 's',
        KeyPurpose::ApiKey => 'a',
        KeyPurpose::BackupEncryption => 'b',
    }
}

proof fn lemma_purpose_mark(p: KeyPurpose)
    ensures
        purpose_root(p).len() > 10,
        purpose_root(p)[10] == purpose_mark(p),
{
    match p {
        KeyPurpose::FileEncryption => reveal_strlit("fileshare.file.encryption"),
        KeyPurpose::DatabaseEncryption => reveal_strlit("fileshare.database.encryption"),
        KeyPurpose::UserAuthentication => reveal_strlit("fileshare.user.auth"),
        KeyPurpose::SessionToken => reveal_strlit("fileshare.session.token"),
        KeyPurpose::ApiKey => reveal_strlit("fileshare.api.key"),
        KeyPurpose::BackupEncryption => reveal_strlit("fileshare.backup.encryption"),
    }
}

proof fn lemma_child_context_injective(context: Seq<char>, a: Seq<char>, b: Seq<char>)
    requires
        child_context(context, a) == child_context(context, b),
    ensures
        a == b,
{
    let n = context.len() + 1;
    reveal_strlit(":");
    assert(child_context(context, a).subrange(n as int, child_context(context, a).len() as int) =~= a);
    assert(child_context(context, b).subrange(n as int, child_context(context, b).len() as int) =~= b);
}

/// Keys for different purposes, or for different objects of one purpose, sit
/// at different places of the key tree: their context paths differ, even when
/// the object ids coincide.
pub proof fn lemma_purpose_contexts_distinct(
    master_context: Seq<char>,
    purpose_a: KeyPurpose,
    id_a: Option<Seq<char>>,
    purpose_b: KeyPurpose,
    id_b: Option<Seq<char>>,
)
    requires
        purpose_a != purpose_b || id_a != id_b,
    ensures
        child_context(master_context, purpose_info(purpose_a, id_a)) != child_context(
            master_context,
            purpose_info(purpose_b, id_b),
        ),
{
    if child_context(master_context, purpose_info(purpose_a, id_a)) == child_context(
        master_context,
        purpose_info(purpose_b, id_b),
    ) {
        lemma_child_context_injective(master_context, purpose_info(purpose_a, id_a), purpose_info(purpose_b, id_b));
        let info_a = purpose_info(purpose_a, id_a);
        let info_b = purpose_info(purpose_b, id_b);
        lemma_purpose_mark(purpose_a);
        lemma_purpose_mark(purpose_b);
        reveal_strlit(":");
        assert(info_a[10] == purpose_mark(purpose_a));
        assert(info_b[10] == purpose_mark(purpose_b));
        assert(purpose_a == purpose_b);
        let r = purpose_root(purpose_a);
        match (id_a, id_b) {
            (Some(a), Some(b)) => {
                lemma_child_context_injective(r, a, b);
            },
            (Some(a), None) => {
                assert(info_a.len() > info_b.len());
            },
            (None, Some(b)) => {
                assert(info_b.len() > info_a.len());
            },
            (None, None) => {},
        }
    }
}

} // verus!
