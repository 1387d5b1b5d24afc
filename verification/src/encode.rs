//! The byte layout that bank entries are signed over: the layout `bincode`
//! gives a value with its default options (little-endian, fixed-width integers,
//! strings and sequences prefixed by their length as a `u64`), and that serde's
//! derived `Serialize` gives a struct (its fields in order) or an enum (its
//! variant index as a `u32`, then its fields).
use vstd::prelude::*;
use vstd::utf8::encode_utf8;

verus! {

/// The error type of `bincode`.
#[verifier::external_type_specification]
#[verifier::external_body]
pub struct ExBincodeErrorKind(bincode::ErrorKind);

/// Failure to lay out a value for signing.
#[derive(Debug, Clone, Copy, PartialEq, Eq, Structural)]
pub enum EncodeError {
    Serialize,
}

/// A value that `bincode` can lay out on its own.
pub enum Primitive<'a> {
    U32(u32),
    U64(u64),
    Str(&'a str),
}

/// The little-endian bytes of a `u32`.
pub open spec fn le_u32(v: u32) -> Seq<u8> {
    seq![
        (v % 0x100) as u8,
        ((v / 0x100) % 0x100) as u8,
        ((v / 0x10000) % 0x100) as u8,
        ((v / 0x1000000) % 0x100) as u8,
    ]
}

/// The little-endian bytes of a `u64`.
pub open spec fn le_u64(v: u64) -> Seq<u8> {
    seq![
        (v % 0x100) as u8,
        ((v / 0x100) % 0x100) as u8,
        ((v / 0x10000) % 0x100) as u8,
        ((v / 0x1000000) % 0x100) as u8,
        ((v / 0x100000000) % 0x100) as u8,
        ((v / 0x10000000000) % 0x100) as u8,
        ((v / 0x1000000000000) % 0x100) as u8,
        ((v / 0x100000000000000) % 0x100) as u8,
    ]
}

/// A string's layout: its UTF-8 byte length as a `u64`, then its UTF-8 bytes.
pub open spec fn str_layout(s: Seq<char>) -> Seq<u8> {
    le_u64(encode_utf8(s).len() as u64) + encode_utf8(s)
}

impl<'a> Primitive<'a> {
    pub open spec fn layout(self) -> Seq<u8> {
        match self {
            Primitive::U32(v) => le_u32(v),
            Primitive::U64(v) => le_u64(v),
            Primitive::Str(s) => str_layout(s@),
        }
    }
}

/// Calls `bincode::serialize` on a `u32`, a `u64` or a `str`.
///
/// Trusted: with its default options `bincode::serialize` writes integers as
/// fixed-width little-endian bytes and a string as its byte length (a `u64`)
/// followed by its bytes, into a growing `Vec` with no size limit; its source
/// has no error path for these three types, so the result is always `Ok`.
#[verifier::external_body]
pub(crate) fn bincode_serialize(v: Primitive) -> (r: Result<Vec<u8>, Box<bincode::ErrorKind>>)
    ensures
        r is Ok,
        r.unwrap()@ == v.layout(),
{
    match v {
        Primitive::U32(x) => bincode::serialize(&x),
        Primitive::U64(x) => bincode::serialize(&x),
        Primitive::Str(s) => bincode::serialize(s),
    }
}

/// Appends the layout of a primitive to `out`.
pub fn put(out: &mut Vec<u8>, v: Primitive) -> (r: Result<(), EncodeError>)
    ensures
        r is Ok,
        final(out)@ == old(out)@ + v.layout(),
{
    let ghost expected = v.layout();
    match bincode_serialize(v) {
        Ok(mut bytes) => {
            out.append(&mut bytes);
            assert(final(out)@ =~= old(out)@ + expected);
            Ok(())
        },
        Err(_) => Err(EncodeError::Serialize),
    }
}

/// A value with a signing layout.
pub trait Encode {
    spec fn layout(&self) -> Seq<u8>;

    /// Appends the value's layout to `out`.
    fn encode_into(&self, out: &mut Vec<u8>) -> (r: Result<(), EncodeError>)
        ensures
            r is Ok,
            final(out)@ == old(out)@ + self.layout(),
    ;
}

} // verus!
