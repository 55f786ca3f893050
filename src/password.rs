//! Password hashing and verification with Argon2, strength scoring, and
//! secrets that are wiped on drop.
use argon2::password_hash::{PasswordHash, PasswordHasher, PasswordVerifier, SaltString};
use argon2::Argon2;
use vstd::prelude::*;
use vstd::string::StrSliceExecFns;
use vstd::utf8::{encode_utf8, valid_utf8};

use crate::random::{random_below, random_bytes};
use crate::text::{chars_of, texts};
use crate::wipe::wipe_byte_vec;

verus! {

#[verifier::external_type_specification]
#[verifier::external_body]
pub struct ExArgon2<'key>(Argon2<'key>);

/// Whether `hash` parses as a PHC string.
pub uninterp spec fn phc_parses(hash: Seq<char>) -> bool;

/// Whether Argon2, run with the algorithm, parameters and salt written in the
/// PHC string `hash`, reproduces the hash it holds from `password`.
pub uninterp spec fn argon2_accepts(password: Seq<u8>, hash: Seq<char>) -> bool;

/// Relies on `Argon2::default`: Argon2id with the crate's default parameters.
#[verifier::external_body]
fn argon2_default() -> (r: Argon2<'static>) {
    Argon2::default()
}

/// Relies on `PasswordHasher::hash_password` of `Argon2` with default
/// parameters, given the salt bytes as `SaltString::encode_b64` encodes them.
/// With a salt of 8 to 48 bytes the only check that can fail is the password
/// length (at most `MAX_PASSWORD_LEN` bytes). The PHC string it writes parses
/// again, and verifying the same password against it succeeds.
#[verifier::external_body]
fn argon2_hash(argon2: &Argon2<'static>, password: &[u8], salt: &[u8]) -> (r: Option<String>)
    requires
        MIN_SALT_LEN <= salt@.len() <= MAX_SALT_LEN,
    ensures
        r is Some <==> password@.len() <= MAX_PASSWORD_LEN,
        r matches Some(h) ==> phc_parses(h@) && argon2_accepts(password@, h@),
{
    let salt = match SaltString::encode_b64(salt) {
        Ok(s) => s,
        Err(_) => return None,
    };
    match argon2.hash_password(password, &salt) {
        Ok(hash) => Some(hash.to_string()),
        Err(_) => None,
    }
}

/// Longest password Argon2 accepts, in bytes.
pub const MAX_PASSWORD_LEN: u64 = 0xFFFF_FFFF;

/// Shortest salt Argon2 accepts, in bytes.
pub const MIN_SALT_LEN: usize = 8;

/// Longest salt whose base64 form fits a PHC salt field, in bytes.
pub const MAX_SALT_LEN: usize = 48;

/// Length of the random salt drawn for each hash, in bytes.
pub const SALT_LEN: usize = 16;

/// Relies on `PasswordVerifier::verify_password` of `Argon2`, given the PHC
/// string as `PasswordHash::new` parses it; `None` when it does not parse.
/// A PHC string begins with `$`: one that does not never parses.
#[verifier::external_body]
fn argon2_verify(argon2: &Argon2<'static>, password: &[u8], hash: &str) -> (r: Option<bool>)
    ensures
        r is Some <==> phc_parses(hash@),
        (hash@.len() == 0 || hash@[0] != '$') ==> r is None,
        r matches Some(ok) ==> ok == argon2_accepts(password@, hash@),
{
    match PasswordHash::new(hash) {
        Ok(parsed) => Some(argon2.verify_password(password, &parsed).is_ok()),
        Err(_) => None,
    }
}

/// Whether the character has the Unicode `Uppercase` property.
pub uninterp spec fn char_is_uppercase(c: char) -> bool;

/// Whether the character has the Unicode `Lowercase` property.
pub uninterp spec fn char_is_lowercase(c: char) -> bool;

/// Whether the character is in a Unicode numeric category.
pub uninterp spec fn char_is_numeric(c: char) -> bool;

/// Whether the character is alphabetic or numeric in Unicode's sense.
pub uninterp spec fn char_is_alphanumeric(c: char) -> bool;

/// The Unicode lowercase mapping of a string.
pub uninterp spec fn lowercase_of(s: Seq<char>) -> Seq<char>;

/// Relies on `char::is_uppercase`.
pub assume_specification[ char::is_uppercase ](c: char) -> (r: bool)
    ensures
        r == char_is_uppercase(c),
;

/// Relies on `char::is_lowercase`.
pub assume_specification[ char::is_lowercase ](c: char) -> (r: bool)
    ensures
        r == char_is_lowercase(c),
;

/// Relies on `char::is_numeric`.
pub assume_specification[ char::is_numeric ](c: char) -> (r: bool)
    ensures
        r == char_is_numeric(c),
;

/// Relies on `char::is_alphanumeric`.
pub assume_specification[ char::is_alphanumeric ](c: char) -> (r: bool)
    ensures
        r == char_is_alphanumeric(c),
;

/// Relies on `str::to_lowercase`: the result depends on the characters alone.
pub assume_specification[ str::to_lowercase ](s: &str) -> (r: String)
    ensures
        r@ == lowercase_of(s@),
;

/// Failures of password hashing and verification.
#[derive(Debug, Clone, Copy, PartialEq, Eq, Structural)]
pub enum PasswordError {
    HashingFailed,
    InvalidHash,
    VerificationFailed,
}

/// What verifying `password` against the stored string `hash` gives.
pub open spec fn verification(password: Seq<u8>, hash: Seq<char>) -> Result<bool, PasswordError> {
    if phc_parses(hash) {
        Ok(argon2_accepts(password, hash))
    } else {
        Err(PasswordError::InvalidHash)
    }
}

/// A stored hash that `hash_password` may have written for `password`.
pub open spec fn hash_of_password(hash: Seq<char>, password: Seq<u8>) -> bool {
    phc_parses(hash) && argon2_accepts(password, hash)
}

/// Verifying a password against a hash written for it succeeds.
pub proof fn lemma_verify_own_hash(password: Seq<u8>, hash: Seq<char>)
    requires
        hash_of_password(hash, password),
    ensures
        verification(password, hash) == Ok::<bool, PasswordError>(true),
{
}

/// Characters drawn for generated passwords.
pub const PASSWORD_CHARSET: &'static str = "ABCDEFGHIJKLMNOPQRSTUVWXYZabcdefghijklmnopqrstuvwxyz0123456789!@#$%^&*";

/// Memory-hard password hashing with self-describing PHC strings.
pub struct PasswordManager {
    argon2: Argon2<'static>,
}

impl PasswordManager {
    pub fn new() -> (r: Self) {
        PasswordManager { argon2: argon2_default() }
    }

    /// Hashes the password's UTF-8 bytes under a fresh random salt. The string
    /// embeds algorithm, parameters and salt.
    pub fn hash_password(&self, password: &str) -> (r: Result<String, PasswordError>)
        ensures
            r is Ok <==> encode_utf8(password@).len() <= MAX_PASSWORD_LEN,
            r matches Ok(h) ==> hash_of_password(h@, encode_utf8(password@)),
            r matches Err(e) ==> e == PasswordError::HashingFailed,
    {
        let salt = random_bytes(SALT_LEN);
        match argon2_hash(&self.argon2, password.as_bytes(), salt.as_slice()) {
            Some(hash) => Ok(hash),
            None => Err(PasswordError::HashingFailed),
        }
    }

    /// Checks a password against a stored string; a string that does not
    /// parse is `InvalidHash`, never a crash.
    pub fn verify_password(&self, password: &str, hash: &str) -> (r: Result<bool, PasswordError>)
        ensures
            r == verification(encode_utf8(password@), hash@),
            (hash@.len() == 0 || hash@[0] != '$') ==> r == Err::<bool, PasswordError>(PasswordError::InvalidHash),
    {
        match argon2_verify(&self.argon2, password.as_bytes(), hash) {
            Some(ok) => Ok(ok),
            None => Err(PasswordError::InvalidHash),
        }
    }

    /// A random password of `length` characters from the password charset.
    pub fn generate_secure_password(length: usize) -> (r: String)
        ensures
            r@.len() == length,
            forall|i: int| 0 <= i < length ==> PASSWORD_CHARSET@.contains(#[trigger] r@[i]),
    {
        let mut out = String::new();
        let n = PASSWORD_CHARSET.unicode_len();
        proof {
            reveal_strlit("ABCDEFGHIJKLMNOPQRSTUVWXYZabcdefghijklmnopqrstuvwxyz0123456789!@#$%^&*");
        }
        let mut i: usize = 0;
        while i < length
            invariant
                n == PASSWORD_CHARSET@.len(),
                n > 0,
                i <= length,
                out@.len() == i,
                forall|k: int| 0 <= k < i ==> PASSWORD_CHARSET@.contains(#[trigger] out@[k]),
            decreases length - i,
        {
            let idx = random_below(n);
            let c = PASSWORD_CHARSET.get_char(idx);
            out.push(c);
            proof {
                assert(PASSWORD_CHARSET@[idx as int] == c);
            }
            i = i + 1;
        }
        out
    }
}

/// Qualitative strength of a password.
#[derive(Debug, Clone, Copy, PartialEq, Eq, Structural)]
pub enum PasswordStrengthLevel {
    Weak,
    Medium,
    Strong,
    VeryStrong,
}

/// Advisory assessment of a password: a level, the points behind it, and
/// what would improve it.
#[derive(Debug, Clone)]
pub struct PasswordStrength {
    pub level: PasswordStrengthLevel,
    pub score: i32,
    pub feedback: Vec<String>,
}

/// The character classes that strength scoring looks for.
pub enum CharClass {
    Uppercase,
    Lowercase,
    Numeric,
    Special,
}

pub open spec fn in_class(class: CharClass, c: char) -> bool {
    match class {
        CharClass::Uppercase => char_is_uppercase(c),
        CharClass::Lowercase => char_is_lowercase(c),
        CharClass::Numeric => char_is_numeric(c),
        CharClass::Special => !char_is_alphanumeric(c),
    }
}

/// Whether some character of `s` is in `class`.
pub open spec fn has_class(s: Seq<char>, class: CharClass) -> bool {
    exists|i: int| 0 <= i < s.len() && in_class(class, #[trigger] s[i])
}

fn char_in_class(class: &CharClass, c: char) -> (r: bool)
    ensures
        r == in_class(*class, c),
{
    match class {
        CharClass::Uppercase => c.is_uppercase(),
        CharClass::Lowercase => c.is_lowercase(),
        CharClass::Numeric => c.is_numeric(),
        CharClass::Special => !c.is_alphanumeric(),
    }
}

/// Whether some character of `chars` is in `class`.
pub fn any_in_class(chars: &Vec<char>, class: CharClass) -> (r: bool)
    ensures
        r == has_class(chars@, class),
{
    let mut i: usize = 0;
    while i < chars.len()
        invariant
            i <= chars@.len(),
            forall|k: int| 0 <= k < i ==> !in_class(class, #[trigger] chars@[k]),
        decreases chars@.len() - i,
    {
        if char_in_class(&class, chars[i]) {
            return true;
        }
        i = i + 1;
    }
    false
}

/// Whether `needle` occurs in `hay` as a contiguous run.
pub open spec fn occurs_in(needle: Seq<char>, hay: Seq<char>) -> bool {
    exists|i: int| 0 <= i && i + needle.len() <= hay.len() && #[trigger] hay.subrange(i, i + needle.len()) == needle
}

/// Whether `needle` occurs in `hay` as a contiguous run.
pub fn contains_run(hay: &Vec<char>, needle: &Vec<char>) -> (r: bool)
    ensures
        r == occurs_in(needle@, hay@),
{
    if needle.len() > hay.len() {
        return false;
    }
    let hay_len = hay.len();
    let last = hay_len - needle.len();
    let mut i: usize = 0;
    while i <= last
        invariant
            needle@.len() <= hay@.len(),
            hay@.len() == hay_len,
            last == hay@.len() - needle@.len(),
            i <= last,
            forall|k: int| 0 <= k < i ==> #[trigger] hay@.subrange(k, k + needle@.len()) != needle@,
        decreases last - i,
    {
        let mut j: usize = 0;
        let mut same = true;
        while j < needle.len()
            invariant
                needle@.len() <= hay@.len(),
                hay@.len() == last + needle@.len(),
                hay@.len() == hay_len,
                i <= last,
                j <= needle@.len(),
                same == (forall|m: int| 0 <= m < j ==> hay@[i + m] == needle@[m]),
            decreases needle@.len() - j,
        {
            if hay[i + j] != needle[j] {
                same = false;
            }
            j = j + 1;
        }
        if same {
            proof {
                assert(hay@.subrange(i as int, i + needle@.len()) =~= needle@);
            }
            return true;
        }
        proof {
            let m = choose|m: int| 0 <= m < needle@.len() && hay@[i + m] != needle@[m];
            assert(hay@.subrange(i as int, i + needle@.len())[m] != needle@[m]);
        }
        if i == last {
            return false;
        }
        i = i + 1;
    }
    false
}

/// Substrings that mark a password as common.
pub open spec fn common_patterns() -> Seq<Seq<char>> {
    seq![
        "123456"@,
        "password"@,
        "qwerty"@,
        "abc123"@,
        "admin"@,
        "letmein"@,
        "welcome"@,
        "monkey"@,
        "dragon"@,
        "password123"@,
    ]
}

/// Whether the lowercased password contains a common pattern.
pub open spec fn has_common_pattern(password: Seq<char>) -> bool {
    exists|k: int| 0 <= k < common_patterns().len() && occurs_in(#[trigger] common_patterns()[k], lowercase_of(password))
}

/// The byte length of the password's UTF-8 encoding.
pub open spec fn byte_len(password: Seq<char>) -> int {
    encode_utf8(password).len() as int
}

pub open spec fn length_points(password: Seq<char>) -> int {
    if byte_len(password) >= 12 {
        2
    } else if byte_len(password) >= 8 {
        1
    } else {
        0
    }
}

pub open spec fn point(b: bool) -> int {
    if b {
        1
    } else {
        0
    }
}

/// Points for length and character variety, minus one for a common pattern.
pub open spec fn strength_score(password: Seq<char>) -> int {
    length_points(password) + point(has_class(password, CharClass::Uppercase)) + point(
        has_class(password, CharClass::Lowercase),
    ) + point(has_class(password, CharClass::Numeric)) + point(has_class(password, CharClass::Special))
        - point(has_common_pattern(password))
}

/// The level for a score: up to 2 weak, up to 4 medium, up to 6 strong, and
/// very strong otherwise.
pub open spec fn strength_level(score: int) -> PasswordStrengthLevel {
    if 0 <= score <= 2 {
        PasswordStrengthLevel::Weak
    } else if 3 <= score <= 4 {
        PasswordStrengthLevel::Medium
    } else if 5 <= score <= 6 {
        PasswordStrengthLevel::Strong
    } else {
        PasswordStrengthLevel::VeryStrong
    }
}

pub open spec fn note(missing: bool, message: Seq<char>) -> Seq<Seq<char>> {
    if missing {
        seq![message]
    } else {
        Seq::empty()
    }
}

/// The advice for a password, in the order the checks run.
pub open spec fn strength_feedback(password: Seq<char>) -> Seq<Seq<char>> {
    note(byte_len(password) < 8, "Password should be at least 8 characters long"@) + note(
        !has_class(password, CharClass::Uppercase),
        "Include uppercase letters"@,
    ) + note(!has_class(password, CharClass::Lowercase), "Include lowercase letters"@) + note(
        !has_class(password, CharClass::Numeric),
        "Include numbers"@,
    ) + note(!has_class(password, CharClass::Special), "Include special characters"@) + note(
        has_common_pattern(password),
        "Avoid common patterns"@,
    )
}

fn add_note(feedback: &mut Vec<String>, missing: bool, message: &str)
    ensures
        texts(final(feedback)@) == texts(old(feedback)@) + note(missing, message@),
{
    let ghost before = texts(feedback@);
    if missing {
        feedback.push(message.to_string());
        proof {
            assert(texts(feedback@) =~= before + seq![message@]);
        }
    } else {
        proof {
            assert(texts(feedback@) =~= before + Seq::<Seq<char>>::empty());
        }
    }
}

impl PasswordManager {
    /// Advisory strength scoring: points for length and character classes,
    /// minus a point for a common pattern, mapped to a level, with advice for
    /// each missing element.
    pub fn check_password_strength(password: &str) -> (r: PasswordStrength)
        ensures
            r.score == strength_score(password@),
            r.level == strength_level(strength_score(password@)),
            texts(r.feedback@) == strength_feedback(password@),
    {
        let len = password.as_bytes().len();
        let chars = chars_of(password);
        let mut feedback: Vec<String> = Vec::new();
        let mut score: i32 = 0;
        if len >= 12 {
            score = score + 2;
        } else if len >= 8 {
            score = score + 1;
        }
        add_note(&mut feedback, len < 8, "Password should be at least 8 characters long");
        let upper = any_in_class(&chars, CharClass::Uppercase);
        if upper {
            score = score + 1;
        }
        add_note(&mut feedback, !upper, "Include uppercase letters");
        let lower = any_in_class(&chars, CharClass::Lowercase);
        if lower {
            score = score + 1;
        }
        add_note(&mut feedback, !lower, "Include lowercase letters");
        let numeric = any_in_class(&chars, CharClass::Numeric);
        if numeric {
            score = score + 1;
        }
        add_note(&mut feedback, !numeric, "Include numbers");
        let special = any_in_class(&chars, CharClass::Special);
        if special {
            score = score + 1;
        }
        add_note(&mut feedback, !special, "Include special characters");
        let common = Self::contains_common_patterns(password);
        if common {
            score = score - 1;
        }
        add_note(&mut feedback, common, "Avoid common patterns");
        proof {
            assert(texts(Seq::<String>::empty()) =~= Seq::<Seq<char>>::empty());
            assert(texts(feedback@) =~= strength_feedback(password@));
        }
        let level = if 0 <= score && score <= 2 {
            PasswordStrengthLevel::Weak
        } else if 3 <= score && score <= 4 {
            PasswordStrengthLevel::Medium
        } else if 5 <= score && score <= 6 {
            PasswordStrengthLevel::Strong
        } else {
            PasswordStrengthLevel::VeryStrong
        };
        PasswordStrength { level, score, feedback }
    }

    /// Whether the lowercased password contains one of the common patterns.
    pub fn contains_common_patterns(password: &str) -> (r: bool)
        ensures
            r == has_common_pattern(password@),
    {
        let lower = password.to_lowercase();
        let hay = chars_of(lower.as_str());
        let patterns: [&str; 10] = [
            "123456",
            "password",
            "qwerty",
            "abc123",
            "admin",
            "letmein",
            "welcome",
            "monkey",
            "dragon",
            "password123",
        ];
        proof {
            assert(patterns@.map_values(|p: &str| p@) =~= common_patterns());
        }
        let mut k: usize = 0;
        while k < 10
            invariant
                k <= 10,
                hay@ == lowercase_of(password@),
                patterns@.map_values(|p: &str| p@) == common_patterns(),
                forall|m: int| 0 <= m < k ==> !occurs_in(#[trigger] common_patterns()[m], lowercase_of(password@)),
            decreases 10 - k,
        {
            let needle = chars_of(patterns[k]);
            proof {
                assert(needle@ == common_patterns()[k as int]);
            }
            if contains_run(&hay, &needle) {
                return true;
            }
            k = k + 1;
        }
        false
    }
}

#[verifier::external_type_specification]
#[verifier::external_body]
pub struct ExUtf8Error(core::str::Utf8Error);

/// Relies on `String::into_bytes`: the string's UTF-8 bytes, without copying.
pub assume_specification[ String::into_bytes ](s: String) -> (r: Vec<u8>)
    ensures
        r@ == encode_utf8(s@),
;

/// Relies on `core::str::from_utf8`: it succeeds exactly on valid UTF-8, and
/// the string it returns is those bytes.
pub assume_specification[ core::str::from_utf8 ](v: &[u8]) -> (r: Result<&str, core::str::Utf8Error>)
    ensures
        r is Ok <==> valid_utf8(v@),
        r matches Ok(s) ==> encode_utf8(s@) == v@,
;

/// Secret bytes, wiped when they are dropped.
#[derive(Debug, Clone)]
pub struct SecureString {
    data: Vec<u8>,
}

impl SecureString {
    pub closed spec fn bytes(&self) -> Seq<u8> {
        self.data@
    }

    /// Takes over the string's buffer.
    pub fn new(s: String) -> (r: Self)
        ensures
            r.bytes() == encode_utf8(s@),
    {
        SecureString { data: s.into_bytes() }
    }

    pub fn from_bytes(bytes: Vec<u8>) -> (r: Self)
        ensures
            r.bytes() == bytes@,
    {
        SecureString { data: bytes }
    }

    /// The secret as text, when it is valid UTF-8.
    pub fn as_str(&self) -> (r: Result<&str, core::str::Utf8Error>)
        ensures
            r is Ok <==> valid_utf8(self.bytes()),
            r matches Ok(s) ==> encode_utf8(s@) == self.bytes(),
    {
        core::str::from_utf8(self.data.as_slice())
    }

    pub fn as_bytes(&self) -> (r: &[u8])
        ensures
            r@ == self.bytes(),
    {
        self.data.as_slice()
    }

    pub fn len(&self) -> (r: usize)
        ensures
            r == self.bytes().len(),
    {
        self.data.len()
    }

    pub fn is_empty(&self) -> (r: bool)
        ensures
            r == (self.bytes().len() == 0),
    {
        self.data.len() == 0
    }

    /// Wipes the bytes and empties the secret.
    pub fn zeroize(&mut self)
        ensures
            final(self).bytes().len() == 0,
    {
        wipe_byte_vec(&mut self.data);
    }
}

impl Drop for SecureString {
    fn drop(&mut self)
        opens_invariants none
        no_unwind
    {
        wipe_byte_vec(&mut self.data);
    }
}

impl Default for PasswordManager {
    fn default() -> (r: Self) {
        Self::new()
    }
}

} // verus!
