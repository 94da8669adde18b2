//! What the user is told while the proof of work for an event is found.

use vstd::prelude::*;
use vstd::string::StringExecFns;
use crate::text::{decimal, decimal_text, joined};

verus! {

/// What the user is told when `work` bits of work have been found and
/// `powint` are wanted.
pub open spec fn work_message(work: u8, powint: u8) -> Seq<char> {
    if work >= powint {
        "Message sent with "@ + decimal_text(powint as nat) + " bits of work computed."@
    } else {
        "PoW: "@ + decimal_text(work as nat) + "/"@ + decimal_text(powint as nat)
    }
}

/// What the user is told when `work` bits of work have been found and
/// `powint` are wanted, and whether that is the end: it is when as many
/// bits have been found as are wanted. More do not count for more, the
/// target having been declared.
pub fn work_status(work: u8, powint: u8) -> (r: (String, bool))
    ensures
        r.0@ == work_message(work, powint),
        r.1 == (work >= powint),
{
    let wanted = decimal(powint as u32);
    if work >= powint {
        let mut s = joined("Message sent with ", wanted.as_str());
        s.append(" bits of work computed.");
        (s, true)
    } else {
        let found = decimal(work as u32);
        let mut s = joined("PoW: ", found.as_str());
        s.append("/");
        s.append(wanted.as_str());
        (s, false)
    }
}

} // verus!
