//! Credential store: registration and login against salted hashes. The
//! hashing itself is an external collaborator, reached through trusted
//! wrappers.
use vstd::prelude::*;
use vstd::utf8::encode_utf8;
use crate::types::{UserEntry, UserEntryV, users_wf};
use crate::text::eq_str;

verus! {

#[verifier::external_type_specification]
#[verifier::external_body]
pub struct ExBcryptError(bcrypt::BcryptError);

/// What bcrypt's verification returns for a password against a stored hash:
/// a function of the two arguments alone. `None` stands for a hash the
/// scheme cannot parse.
pub uninterp spec fn bcrypt_check(password: Seq<char>, hash: Seq<char>) -> Option<bool>;

/// Relies on bcrypt::verify: deterministic in password and hash; an error
/// comes only from a malformed stored hash.
#[verifier::external_body]
fn bcrypt_verify(password: &str, hash: &str) -> (r: Result<bool, bcrypt::BcryptError>)
    ensures
        match r {
            Ok(b) => bcrypt_check(password@, hash@) == Some(b),
            Err(_) => bcrypt_check(password@, hash@) is None,
        },
{
    bcrypt::verify(password, hash)
}

/// Relies on bcrypt::hash: a salted hash drawn with fresh randomness, 60
/// characters long on success, and one that bcrypt's own verification
/// accepts against the hashed password.
#[verifier::external_body]
fn bcrypt_hash(password: &str) -> (r: Result<String, bcrypt::BcryptError>)
    ensures
        r matches Ok(h) ==> h@.len() == 60 && bcrypt_check(password@, h@) == Some(true),
{
    bcrypt::hash(password, bcrypt::DEFAULT_COST)
}

/// Why a registration was refused.
pub enum RegisterError {
    /// The username is already taken.
    Duplicate,
    /// The password hash could not be produced.
    HashFailure,
}

impl RegisterError {
    /// The wording each refusal carries in replies.
    pub fn message(&self) -> (r: String)
        ensures
            *self is Duplicate ==> r@ == "username already exists"@,
            *self is HashFailure ==> r@ == "hash error"@,
    {
        match self {
            RegisterError::Duplicate => "username already exists".to_owned(),
            RegisterError::HashFailure => "hash error".to_owned(),
        }
    }
}

/// Whether an account with this username exists.
pub open spec fn has_user(us: Seq<UserEntryV>, name: Seq<char>) -> bool {
    exists|i: int| 0 <= i < us.len() && us[i].username == name
}

/// The stored password hash of an account.
pub open spec fn user_hash(us: Seq<UserEntryV>, name: Seq<char>) -> Seq<char> {
    us[choose|i: int| 0 <= i < us.len() && us[i].username == name].password_hash
}

/// Locates an account by exact username.
fn find_user(users: &Vec<UserEntry>, username: &str) -> (r: Option<usize>)
    ensures
        match r {
            Some(i) => i < users@.len() && users.deep_view()[i as int].username == username@,
            None => !has_user(users.deep_view(), username@),
        },
{
    let mut i: usize = 0;
    while i < users.len()
        invariant
            0 <= i <= users@.len(),
            forall|j: int| 0 <= j < i ==> users.deep_view()[j].username != username@,
        decreases users@.len() - i,
    {
        if eq_str(users[i].username.as_str(), username) {
            return Some(i);
        }
        i = i + 1;
    }
    proof {
        if has_user(users.deep_view(), username@) {
            let j = choose|j: int|
                0 <= j < users.deep_view().len() && users.deep_view()[j].username == username@;
            assert(false);
        }
    }
    None
}

/// Registers a new account: refused exactly when the username is taken;
/// otherwise a fresh salted hash is stored under it, unless the hasher
/// itself fails, in which case nothing changes.
pub fn register_user(users: &mut Vec<UserEntry>, username: &str, password: &str) -> (r: Result<
    (),
    RegisterError,
>)
    requires
        users_wf(old(users).deep_view()),
    ensures
        users_wf(final(users).deep_view()),
        has_user(old(users).deep_view(), username@) <==> r == Result::<(), RegisterError>::Err(
            RegisterError::Duplicate,
        ),
        r is Err ==> final(users).deep_view() == old(users).deep_view(),
        r is Ok ==> (exists|h: Seq<char>|
            h.len() == 60 && bcrypt_check(password@, h) == Some(true)
                && final(users).deep_view() == old(users).deep_view().push(
                UserEntryV { username: username@, password_hash: h },
            )),
        // so a registered account verifies: the stored hash accepts the
        // password that registered it
        r is Ok ==> has_user(final(users).deep_view(), username@) && bcrypt_check(
            password@,
            user_hash(final(users).deep_view(), username@),
        ) == Some(true),
{
    let ghost oldv = users.deep_view();
    if find_user(users, username).is_some() {
        return Err(RegisterError::Duplicate);
    }
    match bcrypt_hash(password) {
        Ok(hashed) => {
            let ghost h = hashed@;
            users.push(UserEntry { username: username.to_owned(), password_hash: hashed });
            proof {
                let us2 = users.deep_view();
                assert(us2 =~~= oldv.push(
                    UserEntryV { username: username@, password_hash: h },
                ));
                assert(forall|i: int|
                    0 <= i < oldv.len() ==> us2[i] == (#[trigger] oldv[i]));
                assert(us2[us2.len() - 1].username == username@);
                assert(has_user(us2, username@));
                let j = choose|j: int| 0 <= j < us2.len() && us2[j].username == username@;
                assert(j == us2.len() - 1) by {
                    if j < us2.len() - 1 {
                        assert(oldv[j].username == username@);
                        assert(has_user(oldv, username@));
                    }
                }
                assert(user_hash(us2, username@) == h);
            }
            Ok(())
        },
        Err(_) => Err(RegisterError::HashFailure),
    }
}

/// Verifies a login: true exactly when the account exists and bcrypt
/// accepts the password against its stored hash.
pub fn verify_login(users: &Vec<UserEntry>, username: &str, password: &str) -> (r: bool)
    requires
        users_wf(users.deep_view()),
    ensures
        r == (has_user(users.deep_view(), username@) && bcrypt_check(
            password@,
            user_hash(users.deep_view(), username@),
        ) == Some(true)),
{
    let ghost us = users.deep_view();
    match find_user(users, username) {
        Some(i) => {
            proof {
                let j = choose|j: int| 0 <= j < us.len() && us[j].username == username@;
                assert(j == i) by {
                    if j < i {
                        assert(us[j].username != us[i as int].username);
                    } else if j > i {
                        assert(us[i as int].username != us[j].username);
                    }
                }
            }
            match bcrypt_verify(password, users[i].password_hash.as_str()) {
                Ok(valid) => valid,
                Err(_) => false,
            }
        },
        None => false,
    }
}

/// What SHA-256 digests to: a function of the input bytes alone.
pub uninterp spec fn sha256_of(data: Seq<u8>) -> Seq<u8>;

/// Relies on sha2::Sha256::digest: 32 bytes, a function of the input alone.
#[verifier::external_body]
fn sha256(data: &[u8]) -> (r: Vec<u8>)
    ensures
        r@ == sha256_of(data@),
        r@.len() == 32,
{
    <sha2::Sha256 as sha2::Digest>::digest(data).to_vec()
}

/// The character for one hexadecimal digit, lowercase.
pub open spec fn hex_digit(d: u8) -> char
    recommends
        d < 16,
{
    if d == 0 { '0' }
    else if d == 1 { '1' }
    else if d == 2 { '2' }
    else if d == 3 { '3' }
    else if d == 4 { '4' }
    else if d == 5 { '5' }
    else if d == 6 { '6' }
    else if d == 7 { '7' }
    else if d == 8 { '8' }
    else if d == 9 { '9' }
    else if d == 10 { 'a' }
    else if d == 11 { 'b' }
    else if d == 12 { 'c' }
    else if d == 13 { 'd' }
    else if d == 14 { 'e' }
    else { 'f' }
}

/// Lowercase hexadecimal rendering: two digits per byte, in order.
pub open spec fn hex_of(data: Seq<u8>) -> Seq<char>
    decreases data.len(),
{
    if data.len() == 0 {
        Seq::empty()
    } else {
        hex_of(data.drop_last()) + seq![
            hex_digit(data.last() / 16),
            hex_digit(data.last() % 16),
        ]
    }
}

/// Relies on hex::encode: exactly the lowercase two-digit rendering of each
/// byte, in order.
#[verifier::external_body]
fn hex_encode(data: &[u8]) -> (r: String)
    ensures
        r@ == hex_of(data@),
{
    hex::encode(data)
}

/// The bytes the salted digest is taken over: username, a colon, password.
pub open spec fn salted_input(username: Seq<char>, password: Seq<char>) -> Seq<u8> {
    encode_utf8(username) + seq![58u8] + encode_utf8(password)
}

/// Salted digest-based credential hash, hex-encoded: the lowercase
/// rendering of SHA-256 over `username:password`.
pub fn hash_password(username: &str, password: &str) -> (r: String)
    ensures
        r@ == hex_of(sha256_of(salted_input(username@, password@))),
{
    let mut v = username.as_bytes_vec();
    // 58 is the UTF-8 byte of ':'
    v.push(58);
    let mut p = password.as_bytes_vec();
    v.append(&mut p);
    proof {
        assert(v@ =~= salted_input(username@, password@));
    }
    let digest = sha256(v.as_slice());
    hex_encode(digest.as_slice())
}

} // verus!
