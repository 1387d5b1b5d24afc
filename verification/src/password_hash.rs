use vstd::prelude::*;
use vstd::string::*;
use vstd::utf8::encode_utf8;

use crate::digest::{sha256_digest, sha256_hex};
use crate::encode::{put, str_layout, Encode, EncodeError, Primitive};

verus! {

/// The hash of a bank's password.
#[derive(Debug, Eq, Hash)]
pub struct PasswordHash {
    hash: String,
}

/// The hash that `from_password` derives: the digest of the seed's digest, a
/// dash and the password's digest.
pub open spec fn password_digest(seed: Seq<char>, password: Seq<char>) -> Seq<char> {
    sha256_hex(
        encode_utf8(
            sha256_hex(encode_utf8(seed)) + seq!['-'] + sha256_hex(encode_utf8(password)),
        ),
    )
}

impl View for PasswordHash {
    type V = Seq<char>;

    closed spec fn view(&self) -> Seq<char> {
        self.hash@
    }
}

impl Clone for PasswordHash {
    fn clone(&self) -> (r: Self)
        ensures
            r == *self,
    {
        PasswordHash { hash: self.hash.clone() }
    }
}

impl PartialEq for PasswordHash {
    fn eq(&self, other: &Self) -> (r: bool) {
        self.hash == other.hash
    }
}

impl vstd::std_specs::cmp::PartialEqSpecImpl for PasswordHash {
    open spec fn obeys_eq_spec() -> bool {
        true
    }

    open spec fn eq_spec(&self, other: &Self) -> bool {
        self@ == other@
    }
}

impl PasswordHash {
    pub fn from_password(seed: &str, password: &str) -> (r: PasswordHash)
        ensures
            r@ == password_digest(seed@, password@),
    {
        let part1 = sha256_digest(seed.as_bytes());
        let part2 = sha256_digest(password.as_bytes());
        let mut parts = String::new();
        parts.append(part1.as_str());
        parts.append("-");
        parts.append(part2.as_str());
        proof {
            reveal_strlit("-");
        }
        assert(parts@ =~= part1@ + seq!['-'] + part2@);
        let hash = sha256_digest(parts.as_str().as_bytes());
        PasswordHash { hash }
    }

    /// The hash exactly as it was stored.
    pub fn from_stored_hash(hash: String) -> (r: PasswordHash)
        ensures
            r@ == hash@,
    {
        PasswordHash { hash }
    }

    pub fn as_str(&self) -> (r: &str)
        ensures
            r@ == self@,
    {
        self.hash.as_str()
    }

    /// The hash in brackets, as it is displayed.
    pub fn to_string(&self) -> (r: String)
        ensures
            r@ == seq!['('] + self@ + seq![')'],
    {
        let mut s = String::from_str("(");
        s.append(self.hash.as_str());
        s.append(")");
        proof {
            reveal_strlit("(");
            reveal_strlit(")");
        }
        assert(s@ =~= seq!['('] + self@ + seq![')']);
        s
    }
}

impl Encode for PasswordHash {
    open spec fn layout(&self) -> Seq<u8> {
        str_layout(self@)
    }

    fn encode_into(&self, out: &mut Vec<u8>) -> (r: Result<(), EncodeError>) {
        put(out, Primitive::Str(self.hash.as_str()))
    }
}

} // verus!
