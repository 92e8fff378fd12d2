//! Display formatting for sessions: a chat title derived from the first user
//! message, and content truncation for retrieval context.  Both work on
//! characters: a long text is cut at a word boundary where a reasonable one
//! exists, and an ellipsis marks the cut.

use vstd::prelude::*;

use crate::text::chars_of;
use crate::text::lemma_rfind_sound;
use crate::text::str_eq;
use crate::text::rfind_in;
use crate::text::spec_rfind;
use crate::text::spec_trim;
use crate::text::string_from;
use crate::text::subvec;
use crate::text::trim_chars;
use crate::text::upper_first_of;
use crate::text::uppercase_char;

verus! {

/// The ellipsis is three full-stop characters.
proof fn ellipsis_chars()
    ensures
        "..."@ =~= seq!['.', '.', '.'],
        " "@ =~= seq![' '],
{
    reveal_strlit("...");
    reveal_strlit(" ");
}

/// Where a long title breaks: at the last space inside the first 60
/// characters when that space sits past position 40, else hard at 60.
pub open spec fn spec_break_point(cleaned: Seq<char>) -> int {
    match spec_rfind(cleaned.take(60), " "@) {
        Some(sp) => if sp > 40 {
            sp
        } else {
            60
        },
        None => 60,
    }
}

/// The title before capitalization: the trimmed text itself when it fits in
/// 60 characters, else its head up to the break point with an ellipsis.
pub open spec fn spec_raw_title(cleaned: Seq<char>) -> Seq<char> {
    if cleaned.len() <= 60 {
        cleaned
    } else {
        cleaned.take(spec_break_point(cleaned)) + "..."@
    }
}

/// The text with its first character upper-cased.
pub open spec fn spec_capitalized(t: Seq<char>) -> Seq<char> {
    if t.len() == 0 {
        t
    } else {
        seq![upper_first_of(t[0])] + t.drop_first()
    }
}

/// The punctuation stripped just before a trailing ellipsis.
pub open spec fn is_title_punct(c: char) -> bool {
    c == '.' || c == ',' || c == '!' || c == '?' || c == ';' || c == ':'
}

/// `s` without its trailing punctuation.
pub open spec fn spec_strip_punct(s: Seq<char>) -> Seq<char>
    decreases s.len(),
{
    if s.len() > 0 && is_title_punct(s.last()) {
        spec_strip_punct(s.drop_last())
    } else {
        s
    }
}

/// Whether the text ends with an ellipsis.
pub open spec fn spec_ends_ellipsis(s: Seq<char>) -> bool {
    s.len() >= 3 && s.subrange(s.len() - 3, s.len() as int) == "..."@
}

/// The generated title: the message trimmed, broken near 60 characters with
/// an ellipsis when long, its first character upper-cased, and punctuation
/// cleaned away just before a trailing ellipsis.
pub open spec fn spec_title(content: Seq<char>) -> Seq<char> {
    let t = spec_capitalized(spec_raw_title(spec_trim(content)));
    if spec_ends_ellipsis(t) {
        spec_strip_punct(t.take(t.len() - 3)) + "..."@
    } else {
        t
    }
}

/// Derives a session title from the first user message.
pub fn generate_chat_title(content: &str) -> (r: String)
    ensures
        r@ == spec_title(content@),
{
    proof {
        ellipsis_chars();
    }
    let chars = chars_of(content);
    let cleaned = trim_chars(&chars);
    let n = cleaned.len();
    let mut title: Vec<char>;
    if n <= 60 {
        title = cleaned;
    } else {
        let head = subvec(&cleaned, 0, 60);
        let space = chars_of(" ");
        let bp: usize = match rfind_in(&head, &space) {
            Some(sp) => {
                proof {
                    lemma_rfind_sound(head@, " "@, head@.len() - 1);
                }
                if sp > 40 {
                    sp
                } else {
                    60
                }
            },
            None => 60,
        };
        proof {
            assert(cleaned@.subrange(0, bp as int) =~= cleaned@.take(spec_break_point(cleaned@)));
        }
        title = subvec(&cleaned, 0, bp);
        title.push('.');
        title.push('.');
        title.push('.');
        proof {
            assert(title@ =~= cleaned@.take(spec_break_point(cleaned@)) + "..."@);
        }
    }
    if title.len() > 0 {
        let up = uppercase_char(title[0]);
        let ghost before = title@;
        title.set(0, up);
        proof {
            assert(title@ =~= seq![upper_first_of(before[0])] + before.drop_first());
        }
    }
    let ghost capped = spec_capitalized(spec_raw_title(spec_trim(content@)));
    proof {
        assert(title@ == capped);
    }
    let m = title.len();
    let ends_ellipsis = m >= 3 && title[m - 1] == '.' && title[m - 2] == '.' && title[m - 3] == '.';
    proof {
        if ends_ellipsis {
            assert(title@.subrange(m - 3, m as int) =~= "..."@);
        } else if m >= 3 {
            if title@[m - 1] != '.' {
                assert(title@.subrange(m - 3, m as int)[2] != "..."@[2]);
            } else if title@[m - 2] != '.' {
                assert(title@.subrange(m - 3, m as int)[1] != "..."@[1]);
            } else {
                assert(title@.subrange(m - 3, m as int)[0] != "..."@[0]);
            }
        }
        assert(ends_ellipsis == spec_ends_ellipsis(capped));
    }
    if ends_ellipsis {
        let mut core = subvec(&title, 0, m - 3);
        proof {
            assert(core@ =~= capped.take(capped.len() - 3));
        }
        let ghost core0 = core@;
        while core.len() > 0 && is_punct_char(core[core.len() - 1])
            invariant
                spec_strip_punct(core0) == spec_strip_punct(core@),
                core0 == capped.take(capped.len() - 3),
            decreases core@.len(),
        {
            let ghost before_pop = core@;
            core.pop();
            proof {
                assert(before_pop.drop_last() =~= core@);
            }
        }
        proof {
            assert(spec_strip_punct(core@) =~= core@);
        }
        let mut r = string_from(&core);
        r.append("...");
        r
    } else {
        string_from(&title)
    }
}

/// The session title after a message is added: the first user message of a
/// freshly created session names the session, anything else leaves the
/// title as it is.
pub open spec fn spec_next_title(title: Seq<char>, role: Seq<char>, content: Seq<char>) -> Seq<
    char,
> {
    if title == "New Chat"@ && role == "user"@ {
        spec_title(content)
    } else {
        title
    }
}

/// Updates a session's title when a message is added.
pub fn next_session_title(title: &str, role: &str, content: &str) -> (r: String)
    ensures
        r@ == spec_next_title(title@, role@, content@),
{
    if str_eq(title, "New Chat") && str_eq(role, "user") {
        generate_chat_title(content)
    } else {
        String::from_str(title)
    }
}

/// Whether `c` is stripped before a trailing ellipsis, executably.
fn is_punct_char(c: char) -> (r: bool)
    ensures
        r == is_title_punct(c),
{
    c == '.' || c == ',' || c == '!' || c == '?' || c == ';' || c == ':'
}

/// Retrieval context shown to the model is cut to `max_length` characters:
/// text that fits is kept whole, longer text is cut back to the last space
/// inside the limit when there is one, and an ellipsis marks the cut.
pub open spec fn spec_truncate(content: Seq<char>, max_length: int) -> Seq<char> {
    if content.len() <= max_length {
        content
    } else {
        let head = content.take(max_length);
        match spec_rfind(head, " "@) {
            Some(sp) => head.take(sp) + "..."@,
            None => head + "..."@,
        }
    }
}

/// Cuts content to at most `max_length` characters plus an ellipsis.
pub fn truncate_content(content: &str, max_length: usize) -> (r: String)
    ensures
        r@ == spec_truncate(content@, max_length as int),
{
    proof {
        ellipsis_chars();
    }
    let chars = chars_of(content);
    let n = chars.len();
    if n <= max_length {
        return string_from(&chars);
    }
    let head = subvec(&chars, 0, max_length);
    let space = chars_of(" ");
    let kept: Vec<char> = match rfind_in(&head, &space) {
        Some(sp) => {
            proof {
                lemma_rfind_sound(head@, " "@, head@.len() - 1);
            }
            subvec(&head, 0, sp)
        },
        None => head,
    };
    let mut r = string_from(&kept);
    r.append("...");
    proof {
        assert(kept@ + "..."@ =~= spec_truncate(content@, max_length as int));
    }
    r
}

} // verus!
