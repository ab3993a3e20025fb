//! The decision of the send prompt.
//!
//! The prompt loop itself reads lines from the terminal and repeats until
//! it has an answer; each line's interpretation is decided here: `y` sends,
//! `n` does not, anything else asks again.

use vstd::prelude::*;
use vstd::string::StringExecFns;

verus! {

/// Interprets one line of the send prompt, already trimmed and lowercased:
/// `y` is consent, `n` is refusal, anything else is no answer.
pub fn parse_yes_no(answer: &str) -> (r: Option<bool>)
    ensures
        answer@ == "y"@ ==> r == Option::Some(true),
        answer@ == "n"@ ==> r == Option::Some(false),
        answer@ != "y"@ && answer@ != "n"@ ==> r is None,
{
    proof {
        reveal_strlit("y");
        reveal_strlit("n");
        assert("y"@ != "n"@) by {
            if "y"@ == "n"@ {
                assert("y"@[0] == "n"@[0]);
            }
        }
    }
    let a = String::from_str(answer);
    if a == String::from_str("y") {
        Option::Some(true)
    } else if a == String::from_str("n") {
        Option::Some(false)
    } else {
        Option::None
    }
}

} // verus!
