//! Log-file housekeeping decisions: which archive a rotated log file belongs
//! to is read off its name.  A rotated file is named `sparrow.<date>.log`;
//! the date part is accepted when it has the ten characters and two hyphens
//! of a calendar date.  The directory walking and the archiving itself stay
//! with the caller.

use vstd::prelude::*;

use crate::text::chars_of;
use crate::text::count_char_in;
use crate::text::spec_split;
use crate::text::split_chars;
use crate::text::string_from;
use crate::text::vec_eq;
use crate::text::vecs_of;
use crate::text::count_char;

verus! {

/// The date part of a rotated log file's name: the piece between the first
/// two dots, provided the name has at least three dot-separated pieces, the
/// first is `sparrow`, and the piece is shaped like a calendar date (ten
/// characters, two hyphens).
pub open spec fn spec_extract_date(filename: Seq<char>) -> Option<Seq<char>> {
    let parts = spec_split(filename, "."@);
    if parts.len() >= 3 && parts[0] == "sparrow"@ && parts[1].len() == 10 && count_char(
        parts[1],
        '-',
    ) == 2 {
        Some(parts[1])
    } else {
        None
    }
}

/// Reads the date out of a rotated log file's name, if the name has one.
pub fn extract_date_from_filename(filename: &str) -> (r: Option<String>)
    ensures
        match r {
            Some(s) => spec_extract_date(filename@) == Some(s@),
            None => spec_extract_date(filename@) is None,
        },
{
    let v = chars_of(filename);
    let dot = chars_of(".");
    proof {
        reveal_strlit(".");
        assert("."@.len() == 1);
    }
    let parts = split_chars(&v, &dot);
    proof {
        assert(forall|k: int|
            0 <= k < parts@.len() ==> vecs_of(parts@)[k] == #[trigger] parts@[k]@);
    }
    if parts.len() >= 3 {
        let sparrow = chars_of("sparrow");
        if vec_eq(&parts[0], &sparrow) {
            let date = &parts[1];
            if date.len() == 10 && count_char_in(date, '-') == 2 {
                return Some(string_from(date));
            }
        }
    }
    None
}

} // verus!
