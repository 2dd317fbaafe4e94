//! A rendered in-memory table name: a prefix stamped with the clock,
//! kept as one string.

use vstd::prelude::*;
use vstd::string::*;

use crate::utils::text::dec_str;

verus! {

/// A rendered table name of the form `prefix-time`.
#[derive(Debug, Clone)]
pub struct TableName(pub String);

impl TableName {
    /// A fresh rendered name: the prefix stamped with the clock's
    /// current reading.
    pub fn new(name: &str) -> (r: Self)
        ensures
            exists|t: u64| r.0@ == name@ + seq!['-'] + dec_str(t as int),
    {
        proof {
            reveal_strlit("-");
        }
        let time = crate::utils::time_utils::now() as u64;
        let digits = crate::utils::text::u64_to_string(time);
        let s = String::from_str(name).concat("-").concat(digits.as_str());
        proof {
            assert(s@ =~= name@ + seq!['-'] + dec_str(time as int));
        }
        TableName(s)
    }
}

} // verus!
