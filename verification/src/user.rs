//! Users, the credentials they submit, and the digest that stands for a
//! password.

use std::collections::hash_map::DefaultHasher;
use std::hash::Hasher;
use vstd::prelude::*;
use vstd::std_specs::hash::*;
use vstd::string::*;
use vstd::utf8::*;

verus! {

/// The 64-bit hash of a text: the text's UTF-8 bytes and one closing byte
/// `0xff`, fed in that order to a fresh `DefaultHasher`.
pub open spec fn spec_hash(text: Seq<char>) -> u64 {
    DefaultHasher::spec_finish(seq![encode_utf8(text), seq![0xffu8]])
}

/// The digest stored for a password: the hash of the password followed by
/// the user's name, which salts it.
pub open spec fn spec_digest(name: Seq<char>, password: Seq<char>) -> u64 {
    spec_hash(password + name)
}

/// Hashes a text with a fresh `DefaultHasher`.
pub fn hash_text(text: &str) -> (h: u64)
    ensures
        h == spec_hash(text@),
{
    let mut hasher = DefaultHasher::new();
    hasher.write(text.as_bytes());
    let end: Vec<u8> = vec![0xffu8];
    assert(end@ =~= seq![0xffu8]);
    hasher.write(end.as_slice());
    assert(hasher@ =~= seq![encode_utf8(text@), seq![0xffu8]]);
    hasher.finish()
}

/// Computes the digest of a password salted with the user's name.
pub fn digest(name: &str, password: &str) -> (h: u64)
    ensures
        h == spec_digest(name@, password@),
{
    let salted = String::from_str(password).concat(name);
    hash_text(salted.as_str())
}

/// A registered user: a unique name and the digest of the password.
#[derive(Debug)]
pub struct User {
    pub name: String,
    pub hash: u64,
}

/// What a user is to the contracts.
pub struct UserView {
    pub name: Seq<char>,
    pub hash: u64,
}

impl View for User {
    type V = UserView;

    open spec fn view(&self) -> UserView {
        UserView { name: self.name@, hash: self.hash }
    }
}

impl Clone for User {
    fn clone(&self) -> (r: Self)
        ensures
            r@ == self@,
    {
        User { name: self.name.clone(), hash: self.hash }
    }
}

impl User {
    /// The user's name, which also names the directory of the user's files.
    pub fn get_name(&self) -> (r: &str)
        ensures
            r@ == self@.name,
    {
        self.name.as_str()
    }
}

/// The user that a name and a password describe.
pub open spec fn user_of(name: Seq<char>, password: Seq<char>) -> UserView {
    UserView { name, hash: spec_digest(name, password) }
}

/// Name and password as a client submits them.
pub struct LoginData {
    pub name: String,
    pub password: String,
}

impl LoginData {
    pub fn new(name: String, password: String) -> (r: LoginData)
        ensures
            r.name == name,
            r.password == password,
    {
        LoginData { name, password }
    }

    /// The user these credentials describe; the password itself is not kept.
    pub fn to_user(&self) -> (u: User)
        ensures
            u@ == user_of(self.name@, self.password@),
    {
        User { name: self.name.clone(), hash: digest(self.name.as_str(), self.password.as_str()) }
    }
}

/// The same name and password always describe the same user, so the digest
/// made at registration is the one made at any later login.
pub proof fn law_digest_deterministic(a: LoginData, b: LoginData)
    requires
        a.name@ == b.name@,
        a.password@ == b.password@,
    ensures
        user_of(a.name@, a.password@) == user_of(b.name@, b.password@),
{
}

} // verus!
