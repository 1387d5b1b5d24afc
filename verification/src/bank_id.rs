use vstd::prelude::*;
use vstd::string::*;

use crate::encode::{put, str_layout, Encode, EncodeError, Primitive};

verus! {

/// The lowercase form of a text, as `str::to_lowercase` gives it.
pub uninterp spec fn lowercase(s: Seq<char>) -> Seq<char>;

/// Calls `str::to_lowercase`.
///
/// Trusted: the returned text is the one that the name `lowercase` gives to
/// the input; the Unicode case mapping itself is not stated.
#[verifier::external_body]
pub(crate) fn str_to_lowercase(s: &str) -> (r: String)
    ensures
        r@ == lowercase(s@),
{
    s.to_lowercase()
}

/// The name of a bank.
#[derive(Debug, Eq, Hash)]
pub struct BankId {
    name: String,
}

impl View for BankId {
    type V = Seq<char>;

    closed spec fn view(&self) -> Seq<char> {
        self.name@
    }
}

impl Clone for BankId {
    fn clone(&self) -> (r: Self)
        ensures
            r == *self,
    {
        BankId { name: self.name.clone() }
    }
}

impl PartialEq for BankId {
    fn eq(&self, other: &Self) -> (r: bool) {
        self.name == other.name
    }
}

impl vstd::std_specs::cmp::PartialEqSpecImpl for BankId {
    open spec fn obeys_eq_spec() -> bool {
        true
    }

    open spec fn eq_spec(&self, other: &Self) -> bool {
        self@ == other@
    }
}

impl Default for BankId {
    fn default() -> (r: Self)
        ensures
            r@ == Seq::<char>::empty(),
    {
        BankId { name: String::new() }
    }
}

impl BankId {
    /// The bank named by `value`, in lowercase.
    pub fn from_name(value: &str) -> (r: BankId)
        ensures
            r@ == lowercase(value@),
    {
        BankId { name: str_to_lowercase(value) }
    }

    /// The bank named exactly `name`, as it was stored.
    pub fn from_stored_name(name: String) -> (r: BankId)
        ensures
            r@ == name@,
    {
        BankId { name }
    }

    pub fn as_str(&self) -> (r: &str)
        ensures
            r@ == self@,
    {
        self.name.as_str()
    }

    /// The name in brackets, as the bank is displayed.
    pub fn to_string(&self) -> (r: String)
        ensures
            r@ == seq!['('] + self@ + seq![')'],
    {
        let mut s = String::from_str("(");
        s.append(self.name.as_str());
        s.append(")");
        proof {
            reveal_strlit("(");
            reveal_strlit(")");
        }
        assert(s@ =~= seq!['('] + self@ + seq![')']);
        s
    }
}

impl Encode for BankId {
    open spec fn layout(&self) -> Seq<u8> {
        str_layout(self@)
    }

    fn encode_into(&self, out: &mut Vec<u8>) -> (r: Result<(), EncodeError>) {
        put(out, Primitive::Str(self.name.as_str()))
    }
}

} // verus!
