use vstd::prelude::*;
use vstd::string::*;

use crate::bank::Bank;

verus! {

/// The answer to a request to open a bank.
#[derive(Debug)]
pub enum ResponseCreateBank {
    Created { bank: Bank },
    AlreadyExists { err_msg: String },
}

impl ResponseCreateBank {
    /// The text the answer is displayed as.
    pub open spec fn text(&self) -> Seq<char> {
        match self {
            ResponseCreateBank::Created { bank } => "ResponseCreateBank::Created ("@ + seq!['(']
                + bank.owner@ + seq![')'] + seq![')'],
            ResponseCreateBank::AlreadyExists { err_msg } => "ResposneCreateBank::AlreadyExists("@
                + err_msg@ + seq![')'],
        }
    }

    pub fn to_string(&self) -> (r: String)
        ensures
            r@ == self.text(),
    {
        let mut s = match self {
            ResponseCreateBank::Created { bank } => {
                let mut s = String::from_str("ResponseCreateBank::Created (");
                let o = bank.owner.to_string();
                s.append(o.as_str());
                s
            },
            ResponseCreateBank::AlreadyExists { err_msg } => {
                let mut s = String::from_str("ResposneCreateBank::AlreadyExists(");
                s.append(err_msg.as_str());
                s
            },
        };
        s.append(")");
        proof {
            reveal_strlit(")");
        }
        assert(s@ =~= self.text());
        s
    }
}

} // verus!
