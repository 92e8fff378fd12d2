//! The tag scanner: finds every complete `<tool_call>…</tool_call>` block in
//! a buffer, left to right, and parses each block's body as a tool-call
//! directive.  Blocks whose body does not parse are dropped silently; a
//! trailing opening tag with no closing tag after it is reported as an
//! incomplete call.

use vstd::prelude::*;

use crate::json::tool_call_fields;
use crate::json::parse_tool_call_body;
use crate::text::chars_of;
use crate::text::find_from;
use crate::text::lemma_find_complete;
use crate::text::lemma_find_sound;
use crate::text::match_at;
use crate::text::rfind_in;
use crate::text::spec_contains;
use crate::text::spec_find;
use crate::text::spec_rfind;
use crate::text::string_from;
use crate::text::subvec;

verus! {

/// The tag that opens a tool-call block.
pub open spec fn open_tag() -> Seq<char> {
    "<tool_call>"@
}

/// The tag that closes a tool-call block.
pub open spec fn close_tag() -> Seq<char> {
    "</tool_call>"@
}

/// The tag that opens a spliced tool-response block.
pub open spec fn response_tag() -> Seq<char> {
    "<tool_response>"@
}

/// The lengths of the three tags, and where the angle bracket sits in the
/// two that the scanner matches: only at their head.
pub proof fn tag_facts()
    ensures
        open_tag().len() == 11,
        close_tag().len() == 12,
        response_tag().len() == 15,
        open_tag()[0] == '<',
        close_tag()[0] == '<',
        forall|k: int| 1 <= k < 11 ==> open_tag()[k] != '<',
        forall|k: int| 1 <= k < 12 ==> close_tag()[k] != '<',
{
    reveal_strlit("<tool_call>");
    reveal_strlit("</tool_call>");
    reveal_strlit("<tool_response>");
}

/// The (name, arguments) pairs of all complete tool-call blocks at or after
/// `from`, in document order.  Each block is the region between the first
/// opening tag and the first closing tag after it; a region whose body does
/// not parse contributes nothing, and scanning continues past it.
pub open spec fn scan_from(t: Seq<char>, from: int) -> Seq<(Seq<char>, Seq<char>)>
    decreases t.len() - from + 1,
    via scan_from_decreases
{
    match spec_find(t, open_tag(), from) {
        None => Seq::empty(),
        Some(o) => match spec_find(t, close_tag(), o + open_tag().len()) {
            None => Seq::empty(),
            Some(c) => {
                let region = t.subrange(o + open_tag().len(), c);
                let rest = scan_from(t, c + close_tag().len());
                match tool_call_fields(region) {
                    Some(f) => seq![f] + rest,
                    None => rest,
                }
            },
        },
    }
}

#[via_fn]
proof fn scan_from_decreases(t: Seq<char>, from: int) {
    tag_facts();
    match spec_find(t, open_tag(), from) {
        None => {},
        Some(o) => {
            lemma_find_sound(t, open_tag(), from);
            match spec_find(t, close_tag(), o + open_tag().len()) {
                None => {},
                Some(c) => {
                    lemma_find_sound(t, close_tag(), o + open_tag().len());
                },
            }
        },
    }
}

/// A parsed tool-call directive: the tool's qualified name and the compact
/// JSON text of its arguments object.
pub struct ToolCall {
    pub name: String,
    pub arguments: String,
}

/// The mathematical content of a parsed directive.
pub open spec fn call_pair(c: ToolCall) -> (Seq<char>, Seq<char>) {
    (c.name@, c.arguments@)
}

/// The mathematical content of a list of parsed directives.
pub open spec fn pairs_of(calls: Seq<ToolCall>) -> Seq<(Seq<char>, Seq<char>)> {
    calls.map_values(|c: ToolCall| call_pair(c))
}

/// Every complete, well-formed tool-call block in `text`, in document order.
pub fn extract_all_tool_calls_from_xml(text: &str) -> (calls: Vec<ToolCall>)
    ensures
        pairs_of(calls@) == scan_from(text@, 0),
{
    let t = chars_of(text);
    let open = chars_of("<tool_call>");
    let close = chars_of("</tool_call>");
    let mut out: Vec<ToolCall> = Vec::new();
    let mut from: usize = 0;
    proof {
        assert(pairs_of(out@) + scan_from(t@, 0) =~= scan_from(t@, 0));
    }
    loop
        invariant_except_break
            t@ == text@,
            open@ == open_tag(),
            close@ == close_tag(),
            from <= t@.len(),
            pairs_of(out@) + scan_from(t@, from as int) == scan_from(t@, 0),
        ensures
            pairs_of(out@) == scan_from(text@, 0),
        decreases t@.len() - from,
    {
        proof {
            tag_facts();
        }
        let n = t.len();
        let o = match find_from(&t, &open, from) {
            Some(o) => o,
            None => {
                proof {
                    assert(scan_from(t@, from as int) =~= Seq::<(Seq<char>, Seq<char>)>::empty());
                    assert(pairs_of(out@) =~= scan_from(t@, 0));
                }
                break;
            },
        };
        proof {
            lemma_find_sound(t@, open_tag(), from as int);
            assert(o + 11 <= n);
        }
        let c = match find_from(&t, &close, o + 11) {
            Some(c) => c,
            None => {
                proof {
                    assert(scan_from(t@, from as int) =~= Seq::<(Seq<char>, Seq<char>)>::empty());
                    assert(pairs_of(out@) =~= scan_from(t@, 0));
                }
                break;
            },
        };
        proof {
            lemma_find_sound(t@, close_tag(), o + 11);
            assert(c + 12 <= n);
        }
        let region_chars = subvec(&t, o + 11, c);
        let region = string_from(&region_chars);
        let ghost scan_here = scan_from(t@, from as int);
        let ghost rest = scan_from(t@, c + close_tag().len());
        match parse_tool_call_body(region.as_str()) {
            Some(p) => {
                let ghost old_out = out@;
                out.push(ToolCall { name: p.0, arguments: p.1 });
                proof {
                    assert(scan_here == seq![tool_call_fields(region@)->0] + rest);
                    assert(pairs_of(out@) =~= pairs_of(old_out) + seq![
                        tool_call_fields(region@)->0,
                    ]);
                    assert(pairs_of(out@) + rest =~= scan_from(t@, 0));
                }
            },
            None => {
                proof {
                    assert(scan_here == rest);
                    assert(pairs_of(out@) + rest =~= scan_from(t@, 0));
                }
            },
        }
        from = c + 12;
    }
    out
}

/// Appending text changes no search result that lies inside the existing
/// text: the first occurrence found in `t` is still the first found in
/// `t + u`.
proof fn lemma_find_stable(t: Seq<char>, u: Seq<char>, p: Seq<char>, from: int)
    requires
        0 <= from,
        spec_find(t, p, from) is Some,
    ensures
        spec_find(t + u, p, from) == spec_find(t, p, from),
{
    let i = spec_find(t, p, from)->0;
    lemma_find_sound(t, p, from);
    assert((t + u).subrange(i, i + p.len()) =~= t.subrange(i, i + p.len()));
    assert(match_at(t + u, p, i));
    lemma_find_complete(t + u, p, from, i);
    let j = spec_find(t + u, p, from)->0;
    lemma_find_sound(t + u, p, from);
    if j < i {
        assert((t + u).subrange(j, j + p.len()) =~= t.subrange(j, j + p.len()));
        assert(match_at(t, p, j));
    }
}

/// Appending text only ever adds directives: the scan of a buffer is a
/// prefix of the scan of that buffer extended.  This is what makes
/// rescanning the growing buffer sound: a directive once seen is seen at the
/// same place, with the same content, on every later scan.
pub proof fn lemma_scan_prefix(t: Seq<char>, u: Seq<char>, from: int)
    requires
        0 <= from,
    ensures
        scan_from(t, from).is_prefix_of(scan_from(t + u, from)),
    decreases t.len() - from + 1,
{
    tag_facts();
    let e = t + u;
    match spec_find(t, open_tag(), from) {
        None => {
            assert(scan_from(t, from) =~= scan_from(e, from).subrange(0, 0));
        },
        Some(o) => {
            lemma_find_sound(t, open_tag(), from);
            lemma_find_stable(t, u, open_tag(), from);
            match spec_find(t, close_tag(), o + open_tag().len()) {
                None => {
                    assert(scan_from(t, from) =~= Seq::<(Seq<char>, Seq<char>)>::empty());
                    assert(scan_from(t, from) =~= scan_from(e, from).subrange(0, 0));
                },
                Some(c) => {
                    lemma_find_sound(t, close_tag(), o + open_tag().len());
                    lemma_find_stable(t, u, close_tag(), o + open_tag().len());
                    assert(e.subrange(o + open_tag().len(), c) =~= t.subrange(
                        o + open_tag().len(),
                        c,
                    ));
                    lemma_scan_prefix(t, u, c + close_tag().len());
                    let rest_t = scan_from(t, c + close_tag().len());
                    let rest_e = scan_from(e, c + close_tag().len());
                    let region = t.subrange(o + open_tag().len(), c);
                    match tool_call_fields(region) {
                        Some(f) => {
                            assert(scan_from(t, from) == seq![f] + rest_t);
                            assert(scan_from(e, from) == seq![f] + rest_e);
                            assert((seq![f] + rest_t) =~= (seq![f] + rest_e).subrange(
                                0,
                                (seq![f] + rest_t).len() as int,
                            ));
                        },
                        None => {
                            assert(scan_from(t, from) == rest_t);
                            assert(scan_from(e, from) == rest_e);
                        },
                    }
                },
            }
        },
    }
}

/// Scanning past a fixed prefix is scanning the rest: positions shift by the
/// prefix's length and the directives found are the same.
proof fn lemma_scan_shift(x: Seq<char>, y: Seq<char>, k: int)
    requires
        0 <= k,
    ensures
        scan_from(x + y, x.len() + k) == scan_from(y, k),
    decreases y.len() - k + 1,
{
    tag_facts();
    let t = x + y;
    assert(t.skip(x.len() as int) =~= y);
    crate::text::lemma_find_shift(t, open_tag(), x.len() as int, k);
    match spec_find(y, open_tag(), k) {
        None => {},
        Some(o) => {
            lemma_find_sound(y, open_tag(), k);
            crate::text::lemma_find_shift(t, close_tag(), x.len() as int, o + open_tag().len());
            match spec_find(y, close_tag(), o + open_tag().len()) {
                None => {},
                Some(c) => {
                    lemma_find_sound(y, close_tag(), o + open_tag().len());
                    assert(t.subrange(x.len() + o + open_tag().len(), x.len() + c) =~= y.subrange(
                        o + open_tag().len(),
                        c,
                    ));
                    lemma_scan_shift(x, y, c + close_tag().len());
                },
            }
        },
    }
}

/// A complete tool-call block around a region.
pub open spec fn wrapped(region: Seq<char>) -> Seq<char> {
    open_tag() + region + close_tag()
}

/// Text in which no tag can start: it has no angle bracket at all.
pub open spec fn no_tag_start(s: Seq<char>) -> bool {
    forall|i: int| 0 <= i < s.len() ==> s[i] != '<'
}

/// A buffer of `regions.len()` complete blocks with filler text around them:
/// `fillers[0]`, the first block, `fillers[1]`, the second block, …, ending
/// in the last filler.
pub open spec fn interleave(fillers: Seq<Seq<char>>, regions: Seq<Seq<char>>) -> Seq<char>
    recommends
        fillers.len() == regions.len() + 1,
    decreases regions.len(),
{
    if regions.len() == 0 {
        fillers[0]
    } else {
        fillers[0] + wrapped(regions[0]) + interleave(fillers.drop_first(), regions.drop_first())
    }
}

/// Tag-free text holds no directive at all.
proof fn lemma_scan_tag_free(s: Seq<char>)
    requires
        no_tag_start(s),
    ensures
        scan_from(s, 0) == Seq::<(Seq<char>, Seq<char>)>::empty(),
{
    tag_facts();
    if spec_find(s, open_tag(), 0) is Some {
        lemma_find_sound(s, open_tag(), 0);
        let i = spec_find(s, open_tag(), 0)->0;
        assert(s.subrange(i, i + open_tag().len())[0] == open_tag()[0]);
        assert(false);
    }
}

/// Law: a buffer holding exactly N well-formed `<tool_call>` blocks — each
/// region parseable and bracket-free, with bracket-free filler text between,
/// before and after them — scans to exactly those N directives, in document
/// order.
pub proof fn lemma_scan_counts_blocks(fillers: Seq<Seq<char>>, regions: Seq<Seq<char>>)
    requires
        fillers.len() == regions.len() + 1,
        forall|i: int| 0 <= i < fillers.len() ==> no_tag_start(#[trigger] fillers[i]),
        forall|i: int| 0 <= i < regions.len() ==> no_tag_start(#[trigger] regions[i]),
        forall|i: int| 0 <= i < regions.len() ==> tool_call_fields(#[trigger] regions[i]) is Some,
    ensures
        scan_from(interleave(fillers, regions), 0) == regions.map_values(
            |r: Seq<char>| tool_call_fields(r)->0,
        ),
    decreases regions.len(),
{
    tag_facts();
    let t = interleave(fillers, regions);
    if regions.len() == 0 {
        assert(t == fillers[0]);
        lemma_scan_tag_free(t);
        assert(regions.map_values(|r: Seq<char>| tool_call_fields(r)->0) =~= Seq::<
            (Seq<char>, Seq<char>),
        >::empty());
    } else {
        let f0 = fillers[0];
        let r0 = regions[0];
        let rest = interleave(fillers.drop_first(), regions.drop_first());
        let a = f0.len() as int;
        let c = a + open_tag().len() + r0.len();
        // The first opening tag sits right after the first filler.
        assert(t.subrange(a, a + open_tag().len()) =~= open_tag());
        assert(match_at(t, open_tag(), a));
        lemma_find_complete(t, open_tag(), 0, a);
        lemma_find_sound(t, open_tag(), 0);
        let j = spec_find(t, open_tag(), 0)->0;
        if j < a {
            assert(t.subrange(j, j + open_tag().len())[0] == open_tag()[0]);
            assert(t[j] == f0[j]);
            assert(false);
        }
        assert(spec_find(t, open_tag(), 0) == Some(a));
        // The first closing tag after it sits right after the region.
        assert(t.subrange(c, c + close_tag().len()) =~= close_tag());
        assert(match_at(t, close_tag(), c));
        lemma_find_complete(t, close_tag(), a + open_tag().len(), c);
        lemma_find_sound(t, close_tag(), a + open_tag().len());
        let j2 = spec_find(t, close_tag(), a + open_tag().len())->0;
        if j2 < c {
            assert(t.subrange(j2, j2 + close_tag().len())[0] == close_tag()[0]);
            assert(t[j2] == r0[j2 - a - open_tag().len()]);
            assert(false);
        }
        assert(spec_find(t, close_tag(), a + open_tag().len()) == Some(c));
        // The region between the tags is the first region itself.
        assert(t.subrange(a + open_tag().len(), c) =~= r0);
        // Scanning on from the end of the block is scanning the rest.
        let x = f0 + wrapped(r0);
        assert(t =~= x + rest);
        assert(c + close_tag().len() == x.len());
        lemma_scan_shift(x, rest, 0);
        assert(scan_from(t, c + close_tag().len()) == scan_from(rest, 0));
        // The tail is the remaining blocks, by induction.
        assert(forall|i: int|
            0 <= i < fillers.drop_first().len() ==> #[trigger] fillers.drop_first()[i]
                == fillers[i + 1]);
        assert(forall|i: int|
            0 <= i < regions.drop_first().len() ==> #[trigger] regions.drop_first()[i]
                == regions[i + 1]);
        lemma_scan_counts_blocks(fillers.drop_first(), regions.drop_first());
        assert(scan_from(t, 0) == seq![tool_call_fields(r0)->0] + scan_from(rest, 0));
        assert(regions.map_values(|r: Seq<char>| tool_call_fields(r)->0) =~= seq![
            tool_call_fields(r0)->0,
        ] + regions.drop_first().map_values(|r: Seq<char>| tool_call_fields(r)->0));
    }
}

/// When the extended buffer has no directive, the shorter one had none
/// either.
pub proof fn lemma_scan_empty_prefix(t: Seq<char>, u: Seq<char>)
    requires
        scan_from(t + u, 0) == Seq::<(Seq<char>, Seq<char>)>::empty(),
    ensures
        scan_from(t, 0) == Seq::<(Seq<char>, Seq<char>)>::empty(),
{
    lemma_scan_prefix(t, u, 0);
    assert(scan_from(t, 0) =~= Seq::<(Seq<char>, Seq<char>)>::empty());
}

/// Whether the buffer ends in an opened tool call that was never closed:
/// true exactly when the last opening tag has no closing tag after it.
pub open spec fn spec_has_incomplete(t: Seq<char>) -> bool {
    match spec_rfind(t, open_tag()) {
        None => false,
        Some(o) => spec_find(t, close_tag(), o) is None,
    }
}

/// Whether the buffer's last opening tag is still waiting for its closing tag.
pub fn has_incomplete_tool_call(text: &str) -> (r: bool)
    ensures
        r == spec_has_incomplete(text@),
{
    let t = chars_of(text);
    let open = chars_of("<tool_call>");
    let close = chars_of("</tool_call>");
    match rfind_in(&t, &open) {
        None => false,
        Some(o) => match find_from(&t, &close, o) {
            None => true,
            Some(_) => false,
        },
    }
}

/// Whether the buffer holds a spliced tool response, which is what makes a
/// follow-up completion round necessary.
pub fn check_if_continuation_needed(text: &str) -> (r: bool)
    ensures
        r == spec_contains(text@, response_tag()),
{
    let t = chars_of(text);
    let resp = chars_of("<tool_response>");
    match find_from(&t, &resp, 0) {
        None => false,
        Some(_) => true,
    }
}

} // verus!
