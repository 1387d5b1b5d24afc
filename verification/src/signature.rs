use vstd::prelude::*;

use crate::digest::{sha256_digest, sha256_hex};
use crate::encode::{put, Encode, EncodeError, Primitive, str_layout};
use crate::random::random_array;

verus! {

/// A signature: the hex digest of a secret followed by the layout of a value.
#[derive(Debug, Eq, Hash)]
pub struct LedgerSignature {
    pub hash: String,
}

impl View for LedgerSignature {
    type V = Seq<char>;

    open spec fn view(&self) -> Seq<char> {
        self.hash@
    }
}

impl Clone for LedgerSignature {
    fn clone(&self) -> (r: Self)
        ensures
            r == *self,
    {
        LedgerSignature { hash: self.hash.clone() }
    }
}

impl PartialEq for LedgerSignature {
    fn eq(&self, other: &Self) -> (r: bool) {
        self.hash == other.hash
    }
}

impl vstd::std_specs::cmp::PartialEqSpecImpl for LedgerSignature {
    open spec fn obeys_eq_spec() -> bool {
        true
    }

    open spec fn eq_spec(&self, other: &Self) -> bool {
        self@ == other@
    }
}

impl LedgerSignature {
    /// The signature of an empty ledger: the empty text.
    pub fn zero() -> (r: LedgerSignature)
        ensures
            r.hash@ == Seq::<char>::empty(),
    {
        LedgerSignature { hash: String::new() }
    }

    /// A signature over 256 random bytes.
    pub fn random() -> (r: LedgerSignature)
        ensures
            exists|d: Seq<u8>| d.len() == 256 && r.hash@ == sha256_hex(d),
    {
        let data: [u8; 256] = random_array();
        let hash = sha256_digest(data.as_slice());
        LedgerSignature { hash }
    }

    /// The text that the signature is displayed as: its digest.
    pub fn to_string(&self) -> (r: String)
        ensures
            r@ == self.hash@,
    {
        self.hash.clone()
    }
}

impl Encode for LedgerSignature {
    open spec fn layout(&self) -> Seq<u8> {
        str_layout(self.hash@)
    }

    fn encode_into(&self, out: &mut Vec<u8>) -> (r: Result<(), EncodeError>) {
        put(out, Primitive::Str(self.hash.as_str()))
    }
}

} // verus!
