//! Document ingestion's one piece of logic: cutting extracted text into
//! overlapping chunks for embedding.  Reading the files and producing the
//! embeddings stay with the caller.

use vstd::prelude::*;

use crate::text::chars_of;
use crate::text::spec_trim;
use crate::text::string_from;
use crate::text::strs_of;
use crate::text::subvec;
use crate::text::trim_chars;

verus! {

/// The chunks taken from `start` on: each window is `size` characters (the
/// last one shorter), consecutive windows overlap by `overlap`, and a window
/// of nothing but whitespace is dropped.
pub open spec fn spec_chunks_from(chars: Seq<char>, size: int, overlap: int, start: int) -> Seq<
    Seq<char>,
>
    decreases chars.len() - start,
{
    if !(0 <= start < chars.len()) || size <= overlap || overlap < 0 {
        Seq::empty()
    } else {
        let end = if start + size < chars.len() {
            start + size
        } else {
            chars.len() as int
        };
        let chunk = chars.subrange(start, end);
        let this = if spec_trim(chunk).len() == 0 {
            Seq::<Seq<char>>::empty()
        } else {
            seq![chunk]
        };
        if end == chars.len() {
            this
        } else {
            this + spec_chunks_from(chars, size, overlap, start + (size - overlap))
        }
    }
}

/// All chunks of the text.
pub open spec fn spec_chunks(text: Seq<char>, size: int, overlap: int) -> Seq<Seq<char>> {
    spec_chunks_from(text, size, overlap, 0)
}

/// Cuts text into chunks of at most `chunk_size` characters, consecutive
/// chunks sharing `overlap` characters, dropping whitespace-only chunks.
pub fn chunk_text(text: &str, chunk_size: usize, overlap: usize) -> (chunks: Vec<String>)
    requires
        overlap < chunk_size,
    ensures
        strs_of(chunks@) == spec_chunks(text@, chunk_size as int, overlap as int),
{
    let chars = chars_of(text);
    let n = chars.len();
    let mut chunks: Vec<String> = Vec::new();
    if n == 0 {
        proof {
            assert(strs_of(chunks@) =~= spec_chunks(text@, chunk_size as int, overlap as int));
        }
        return chunks;
    }
    let mut start: usize = 0;
    proof {
        assert(strs_of(chunks@) + spec_chunks_from(
            chars@,
            chunk_size as int,
            overlap as int,
            0,
        ) =~= spec_chunks_from(chars@, chunk_size as int, overlap as int, 0));
    }
    loop
        invariant_except_break
            start < n,
            n == chars@.len(),
            chars@ == text@,
            overlap < chunk_size,
            strs_of(chunks@) + spec_chunks_from(
                chars@,
                chunk_size as int,
                overlap as int,
                start as int,
            ) == spec_chunks_from(chars@, chunk_size as int, overlap as int, 0),
        ensures
            strs_of(chunks@) == spec_chunks(text@, chunk_size as int, overlap as int),
        decreases n - start,
    {
        let end = if chunk_size < n - start {
            start + chunk_size
        } else {
            n
        };
        let chunk = subvec(&chars, start, end);
        let trimmed = trim_chars(&chunk);
        let ghost here = spec_chunks_from(chars@, chunk_size as int, overlap as int, start as int);
        let ghost this = if spec_trim(chunk@).len() == 0 {
            Seq::<Seq<char>>::empty()
        } else {
            seq![chunk@]
        };
        let ghost before = chunks@;
        if trimmed.len() > 0 {
            chunks.push(string_from(&chunk));
            proof {
                assert(strs_of(chunks@) =~= strs_of(before) + this);
            }
        } else {
            proof {
                assert(strs_of(chunks@) =~= strs_of(before) + this);
            }
        }
        if end == n {
            proof {
                assert(here == this);
                assert(strs_of(chunks@) =~= spec_chunks_from(
                    chars@,
                    chunk_size as int,
                    overlap as int,
                    0,
                ));
            }
            break;
        }
        proof {
            assert(here == this + spec_chunks_from(
                chars@,
                chunk_size as int,
                overlap as int,
                start + (chunk_size - overlap) as int,
            ));
            assert(strs_of(chunks@) + spec_chunks_from(
                chars@,
                chunk_size as int,
                overlap as int,
                start + (chunk_size - overlap) as int,
            ) =~= strs_of(before) + (this + spec_chunks_from(
                chars@,
                chunk_size as int,
                overlap as int,
                start + (chunk_size - overlap) as int,
            )));
        }
        start = start + (chunk_size - overlap);
    }
    chunks
}

} // verus!
