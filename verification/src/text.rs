//! Lines of text with numbers in them.

use vstd::prelude::*;
use vstd::string::{to_string_from_display_ensures, StringExecFns};

verus! {

/// Whether `digits` is `number` in print.
pub open spec fn reads_as(number: u128, digits: Seq<char>) -> bool {
    exists|printed: String| printed@ == digits && to_string_from_display_ensures::<u128>(&number, printed)
}

/// Whether `line` is `text`, then `number` in print, then `more`.
pub open spec fn is_numbered(line: Seq<char>, text: Seq<char>, number: u128, more: Seq<char>) -> bool {
    exists|digits: Seq<char>| reads_as(number, digits) && line == text + digits + more
}

/// `text`, then `number` in print, then `more`.
pub fn numbered(text: &str, number: u128, more: &str) -> (line: String)
    ensures
        is_numbered(line@, text@, number, more@),
{
    let mut line = String::from_str(text);
    let digits = number.to_string();
    line.append(digits.as_str());
    line.append(more);
    proof {
        assert(reads_as(number, digits@));
        assert(line@ == text@ + digits@ + more@);
    }
    line
}

} // verus!
