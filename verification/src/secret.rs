use vstd::prelude::*;

use crate::base64_array::{base64_standard, encode_block};
use crate::digest::{sha256_digest, sha256_hex};
use crate::encode::{put, str_layout, Encode, EncodeError, Primitive};
use crate::random::random_array;
use crate::signature::LedgerSignature;

verus! {

/// A signing secret: four blocks of 32 bytes.
#[derive(Debug, Clone, Copy, Eq, Hash)]
pub struct LedgerSecret {
    data1: [u8; 32],
    data2: [u8; 32],
    data3: [u8; 32],
    data4: [u8; 32],
}

/// The digest that `secret` gives to the bytes `data`: the SHA-256 hex digest
/// of the secret's 128 bytes followed by `data`.
pub open spec fn signature_hash(
    secret: (Seq<u8>, Seq<u8>, Seq<u8>, Seq<u8>),
    data: Seq<u8>,
) -> Seq<char> {
    sha256_hex(key_bytes(secret) + data)
}

/// Appends a block of 32 bytes to `out`.
fn push_block(out: &mut Vec<u8>, block: &[u8; 32])
    ensures
        final(out)@ == old(out)@ + block@,
{
    let mut i: usize = 0;
    while i < 32
        invariant
            0 <= i <= 32,
            out@ == old(out)@ + block@.subrange(0, i as int),
        decreases 32 - i,
    {
        out.push(block[i]);
        i = i + 1;
        assert(out@ =~= old(out)@ + block@.subrange(0, i as int));
    }
    assert(block@.subrange(0, 32) =~= block@);
}

/// Whether two blocks hold the same bytes.
fn same_block(a: &[u8; 32], b: &[u8; 32]) -> (r: bool)
    ensures
        r == (a@ == b@),
{
    let mut i: usize = 0;
    while i < 32
        invariant
            0 <= i <= 32,
            forall|j: int| 0 <= j < i ==> a@[j] == b@[j],
        decreases 32 - i,
    {
        if a[i] != b[i] {
            return false;
        }
        i = i + 1;
    }
    assert(a@ =~= b@);
    true
}

impl PartialEq for LedgerSecret {
    fn eq(&self, other: &Self) -> (r: bool) {
        same_block(&self.data1, &other.data1) && same_block(&self.data2, &other.data2)
            && same_block(&self.data3, &other.data3) && same_block(&self.data4, &other.data4)
    }
}

impl vstd::std_specs::cmp::PartialEqSpecImpl for LedgerSecret {
    open spec fn obeys_eq_spec() -> bool {
        true
    }

    open spec fn eq_spec(&self, other: &Self) -> bool {
        self@ == other@
    }
}

impl View for LedgerSecret {
    type V = (Seq<u8>, Seq<u8>, Seq<u8>, Seq<u8>);

    closed spec fn view(&self) -> (Seq<u8>, Seq<u8>, Seq<u8>, Seq<u8>) {
        (self.data1@, self.data2@, self.data3@, self.data4@)
    }
}

/// The bytes of a secret's blocks in order.
pub open spec fn key_bytes(k: (Seq<u8>, Seq<u8>, Seq<u8>, Seq<u8>)) -> Seq<u8> {
    k.0 + k.1 + k.2 + k.3
}

/// The layout of a secret: each block as standard base64 text.
pub open spec fn secret_layout(k: (Seq<u8>, Seq<u8>, Seq<u8>, Seq<u8>)) -> Seq<u8> {
    str_layout(base64_standard(k.0)) + str_layout(base64_standard(k.1)) + str_layout(
        base64_standard(k.2),
    ) + str_layout(base64_standard(k.3))
}

impl LedgerSecret {
    /// A fresh secret drawn from the random number generator.
    pub fn new() -> (r: LedgerSecret)
        ensures
            key_bytes(r@).len() == 128,
    {
        let mut ret = LedgerSecret {
            data1: [0u8; 32],
            data2: [0u8; 32],
            data3: [0u8; 32],
            data4: [0u8; 32],
        };
        ret.data1 = random_array();
        ret.data2 = random_array();
        ret.data3 = random_array();
        ret.data4 = random_array();
        ret
    }

    /// A secret made of the given blocks.
    pub fn from_static(data1: [u8; 32], data2: [u8; 32], data3: [u8; 32], data4: [u8; 32]) -> (r:
        LedgerSecret)
        ensures
            r@ == (data1@, data2@, data3@, data4@),
    {
        LedgerSecret { data1, data2, data3, data4 }
    }

    /// The four blocks, for writing the secret out.
    pub fn blocks(&self) -> (r: ([u8; 32], [u8; 32], [u8; 32], [u8; 32]))
        ensures
            (r.0@, r.1@, r.2@, r.3@) == self@,
    {
        (self.data1, self.data2, self.data3, self.data4)
    }

    /// Signs a value; should its layout fail, a random signature is returned.
    pub fn sign<W: Encode>(&self, what: &W) -> (r: LedgerSignature)
        ensures
            r.hash@ == signature_hash(self@, what.layout()),
    {
        match self.sign_internal(what) {
            Ok(s) => s,
            Err(_) => LedgerSignature::random(),
        }
    }

    /// Signs two values laid out one after the other; should a layout fail, a
    /// random signature is returned.
    pub fn sign_ext<W: Encode, W2: Encode>(&self, what: &W, other: &W2) -> (r: LedgerSignature)
        ensures
            r.hash@ == signature_hash(self@, what.layout() + other.layout()),
    {
        match self.sign_ext_internal(what, other) {
            Ok(s) => s,
            Err(_) => LedgerSignature::random(),
        }
    }

    fn sign_internal<W: Encode>(&self, what: &W) -> (r: Result<LedgerSignature, EncodeError>)
        ensures
            r is Ok,
            r.unwrap().hash@ == signature_hash(self@, what.layout()),
    {
        let mut what_data: Vec<u8> = Vec::new();
        what.encode_into(&mut what_data)?;
        let mut cat_data: Vec<u8> = Vec::new();
        push_block(&mut cat_data, &self.data1);
        push_block(&mut cat_data, &self.data2);
        push_block(&mut cat_data, &self.data3);
        push_block(&mut cat_data, &self.data4);
        cat_data.append(&mut what_data);
        assert(cat_data@ =~= key_bytes(self@) + what.layout());
        Ok(LedgerSignature { hash: sha256_digest(cat_data.as_slice()) })
    }

    fn sign_ext_internal<W: Encode, W2: Encode>(&self, what: &W, other: &W2) -> (r: Result<
        LedgerSignature,
        EncodeError,
    >)
        ensures
            r is Ok,
            r.unwrap().hash@ == signature_hash(self@, what.layout() + other.layout()),
    {
        let mut what_data: Vec<u8> = Vec::new();
        what.encode_into(&mut what_data)?;
        let mut other_data: Vec<u8> = Vec::new();
        other.encode_into(&mut other_data)?;
        let mut cat_data: Vec<u8> = Vec::new();
        push_block(&mut cat_data, &self.data1);
        push_block(&mut cat_data, &self.data2);
        push_block(&mut cat_data, &self.data3);
        push_block(&mut cat_data, &self.data4);
        cat_data.append(&mut what_data);
        cat_data.append(&mut other_data);
        assert(cat_data@ =~= key_bytes(self@) + (what.layout() + other.layout()));
        Ok(LedgerSignature { hash: sha256_digest(cat_data.as_slice()) })
    }
}

impl Encode for LedgerSecret {
    open spec fn layout(&self) -> Seq<u8> {
        secret_layout(self@)
    }

    fn encode_into(&self, out: &mut Vec<u8>) -> (r: Result<(), EncodeError>) {
        let t1 = encode_block(&self.data1);
        let t2 = encode_block(&self.data2);
        let t3 = encode_block(&self.data3);
        let t4 = encode_block(&self.data4);
        put(out, Primitive::Str(t1.as_str()))?;
        put(out, Primitive::Str(t2.as_str()))?;
        put(out, Primitive::Str(t3.as_str()))?;
        put(out, Primitive::Str(t4.as_str()))?;
        assert(out@ =~= old(out)@ + self.layout());
        Ok(())
    }
}

} // verus!
