//! Users and the hashing of their passwords.

use vstd::prelude::*;
use vstd::utf8::encode_utf8;

verus! {

/// The MD5 digest of a sequence of bytes, as the `md5` crate computes it.
pub uninterp spec fn md5_digest(data: Seq<u8>) -> Seq<u8>;

/// The sixteen digits of lower-case hexadecimal notation.
pub open spec fn hex_digits() -> Seq<char> {
    seq!['0', '1', '2', '3', '4', '5', '6', '7', '8', '9', 'a', 'b', 'c', 'd', 'e', 'f']
}

/// The bytes in lower-case hexadecimal notation, two digits for each byte,
/// the high half first.
pub open spec fn hex_lower(bytes: Seq<u8>) -> Seq<char> {
    Seq::new(
        2 * bytes.len(),
        |i: int|
            if i % 2 == 0 {
                hex_digits()[bytes[i / 2] as int / 16]
            } else {
                hex_digits()[bytes[i / 2] as int % 16]
            },
    )
}

/// What is stored in place of a password: the MD5 digest of its UTF-8 bytes
/// in lower-case hexadecimal notation.
pub open spec fn password_hash(password: Seq<char>) -> Seq<char> {
    hex_lower(md5_digest(encode_utf8(password)))
}

/// `md5::compute`: the digest of the data, which is a function of the data
/// alone and sixteen bytes long.
#[verifier::external_body]
fn digest(data: &[u8]) -> (sum: [u8; 16])
    ensures
        sum@ == md5_digest(data@),
{
    md5::compute(data).0
}

/// The `LowerHex` formatting of `md5::Digest`: each of the sixteen bytes in
/// turn as two lower-case hexadecimal digits.
#[verifier::external_body]
fn lower_hex(sum: [u8; 16]) -> (text: String)
    ensures
        text@ == hex_lower(sum@),
{
    format!("{:x}", md5::Digest(sum))
}

/// A user: a login and the hash of a password.
pub struct User {
    login: String,
    password_hash: String,
}

/// What a user holds.
pub struct UserView {
    pub login: Seq<char>,
    pub password_hash: Seq<char>,
}

/// The line that stores a user: the login, a semicolon, the password's hash.
pub open spec fn user_line(user: UserView) -> Seq<char> {
    user.login + seq![';'] + user.password_hash
}

impl View for User {
    type V = UserView;

    closed spec fn view(&self) -> UserView {
        UserView { login: self.login@, password_hash: self.password_hash@ }
    }
}

impl User {
    /// A user with the given login, whose password is `password`.
    pub fn new(login: String, password: String) -> (user: User)
        ensures
            user@ == (UserView { login: login@, password_hash: password_hash(password@) }),
    {
        User { login, password_hash: User::hash(&password) }
    }

    /// A user with the given login and the hash of a password as it was stored.
    pub fn fill(login: String, password_hash: String) -> (user: User)
        ensures
            user@ == (UserView { login: login@, password_hash: password_hash@ }),
    {
        User { login, password_hash }
    }

    /// The line that stores this user.
    pub fn format(&self) -> (line: String)
        ensures
            line@ == user_line(self@),
    {
        proof {
            reveal_strlit(";");
        }
        assert(";"@ =~= seq![';']);
        let mut line = self.login.clone();
        line.append(";");
        line.append(self.password_hash.as_str());
        line
    }

    /// Whether `password` is this user's password.
    pub fn auth(&self, password: String) -> (ok: bool)
        ensures
            ok == (self@.password_hash == password_hash(password@)),
    {
        self.password_hash == User::hash(&password)
    }

    /// The hash of a password.
    fn hash(string: &String) -> (hash: String)
        ensures
            hash@ == password_hash(string@),
    {
        lower_hex(digest(string.as_str().as_bytes()))
    }
}

} // verus!
