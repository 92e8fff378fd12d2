//! Per-turn state: the append-only buffer, the set of already-dispatched
//! call signatures, and the continuation flags.  The surrounding driver owns
//! the transport; it feeds stream deltas and tool results into these
//! functions and performs the actions they hand back.  A signature is
//! dispatched at most once per turn, the buffer only ever grows, and the
//! follow-up completion round begins at most once.

use vstd::prelude::*;

use crate::json::strip_nulls;
use crate::json::strip_null_arguments;
use crate::scanner::ToolCall;
use crate::scanner::call_pair;
use crate::scanner::check_if_continuation_needed;
use crate::scanner::extract_all_tool_calls_from_xml;
use crate::scanner::has_incomplete_tool_call;
use crate::scanner::pairs_of;
use crate::scanner::response_tag;
use crate::scanner::scan_from;
use crate::scanner::spec_has_incomplete;
use crate::text::spec_contains;

verus! {

/// The dedup key of a directive: its name and arguments text, joined by `:`.
pub open spec fn sig_of(name: Seq<char>, args: Seq<char>) -> Seq<char> {
    name + ":"@ + args
}

/// The signature texts of a list of recorded signatures.
pub open spec fn sigs_of(v: Seq<String>) -> Seq<Seq<char>> {
    v.map_values(|s: String| s@)
}

/// Walks the scanned directives in document order, dropping every one whose
/// signature was already executed and recording the signature of every one
/// that is kept; yields the directives to dispatch and the grown signature
/// list.
pub open spec fn dedup_calls(
    pairs: Seq<(Seq<char>, Seq<char>)>,
    executed: Seq<Seq<char>>,
) -> (Seq<(Seq<char>, Seq<char>)>, Seq<Seq<char>>)
    decreases pairs.len(),
{
    if pairs.len() == 0 {
        (Seq::empty(), executed)
    } else {
        let sig = sig_of(pairs[0].0, pairs[0].1);
        if executed.contains(sig) {
            dedup_calls(pairs.drop_first(), executed)
        } else {
            let rest = dedup_calls(pairs.drop_first(), executed.push(sig));
            (seq![pairs[0]] + rest.0, rest.1)
        }
    }
}

/// The block spliced into the buffer after a successful tool call.
pub open spec fn response_block(result: Seq<char>) -> Seq<char> {
    "\n<tool_response>\n"@ + result + "\n</tool_response>"@
}

/// The block spliced into the buffer after a failed tool call.
pub open spec fn error_block(message: Seq<char>) -> Seq<char> {
    "\n<tool_response>\nError: "@ + message + "\n</tool_response>"@
}

/// The inline annotation appended when the follow-up round's transport fails.
pub open spec fn continuation_error_note(message: Seq<char>) -> Seq<char> {
    "\n\n[Continuation Error: "@ + message + "]"@
}

/// The state of one turn.  Created when the turn starts, discarded when it
/// ends; never shared between turns.
pub struct TurnState {
    /// Everything produced so far: streamed tokens, spliced tool-response
    /// blocks, and, at the end, the follow-up round's output.  Append-only.
    pub buffer: String,
    /// Signatures of the directives already dispatched this turn.
    pub executed: Vec<String>,
    /// Whether a tool response was spliced in, so a follow-up round is owed.
    pub continuation_needed: bool,
    /// Whether the single permitted follow-up round has begun.
    pub continuation_started: bool,
    /// Whether the primary stream ended inside an unclosed tool-call block.
    pub incomplete_on_finish: bool,
}

impl TurnState {
    /// A fresh turn: empty buffer, nothing dispatched, no follow-up owed.
    pub fn new() -> (s: TurnState)
        ensures
            s.buffer@ == Seq::<char>::empty(),
            s.executed@ == Seq::<String>::empty(),
            !s.continuation_needed,
            !s.continuation_started,
            !s.incomplete_on_finish,
    {
        TurnState {
            buffer: String::new(),
            executed: Vec::new(),
            continuation_needed: false,
            continuation_started: false,
            incomplete_on_finish: false,
        }
    }

    /// Appends one stream delta to the buffer.  The caller forwards the raw
    /// token to its sink before scanning, so the delta goes in unchanged.
    pub fn append_delta(&mut self, delta: &str)
        ensures
            final(self).buffer@ == old(self).buffer@ + delta@,
            final(self).executed == old(self).executed,
            final(self).continuation_needed == old(self).continuation_needed,
            final(self).continuation_started == old(self).continuation_started,
            final(self).incomplete_on_finish == old(self).incomplete_on_finish,
    {
        self.buffer.append(delta);
    }

    /// Scans the whole buffer and hands back every complete directive that
    /// was not dispatched before, in document order, marking each one
    /// executed before it is handed out.
    pub fn take_new_calls(&mut self) -> (calls: Vec<ToolCall>)
        ensures
            final(self).buffer == old(self).buffer,
            final(self).continuation_needed == old(self).continuation_needed,
            final(self).continuation_started == old(self).continuation_started,
            final(self).incomplete_on_finish == old(self).incomplete_on_finish,
            pairs_of(calls@) == dedup_calls(
                scan_from(old(self).buffer@, 0),
                sigs_of(old(self).executed@),
            ).0,
            sigs_of(final(self).executed@) == dedup_calls(
                scan_from(old(self).buffer@, 0),
                sigs_of(old(self).executed@),
            ).1,
    {
        let extracted = extract_all_tool_calls_from_xml(self.buffer.as_str());
        let ghost full = pairs_of(extracted@);
        let n = extracted.len();
        let mut result: Vec<ToolCall> = Vec::new();
        let mut i: usize = 0;
        proof {
            assert(full.skip(0) =~= full);
            assert(pairs_of(result@) + dedup_calls(full, sigs_of(self.executed@)).0 =~= dedup_calls(
                full,
                sigs_of(self.executed@),
            ).0);
        }
        while i < n
            invariant
                i <= n,
                n == extracted@.len(),
                full == pairs_of(extracted@),
                full == scan_from(old(self).buffer@, 0),
                self.buffer == old(self).buffer,
                self.continuation_needed == old(self).continuation_needed,
                self.continuation_started == old(self).continuation_started,
                self.incomplete_on_finish == old(self).incomplete_on_finish,
                dedup_calls(full, sigs_of(old(self).executed@)).0 == pairs_of(result@)
                    + dedup_calls(full.skip(i as int), sigs_of(self.executed@)).0,
                dedup_calls(full, sigs_of(old(self).executed@)).1 == dedup_calls(
                    full.skip(i as int),
                    sigs_of(self.executed@),
                ).1,
            decreases n - i,
        {
            proof {
                assert(full.skip(i as int) =~= seq![full[i as int]] + full.skip(i as int + 1));
                assert((seq![full[i as int]] + full.skip(i as int + 1)).drop_first() =~= full.skip(
                    i as int + 1,
                ));
                assert(full[i as int] == call_pair(extracted@[i as int]));
            }
            let sig = signature_of(&extracted[i]);
            let ghost before = sigs_of(self.executed@);
            if !contains_string(&self.executed, &sig) {
                let ghost old_result = result@;
                self.executed.push(sig);
                result.push(
                    ToolCall {
                        name: extracted[i].name.clone(),
                        arguments: extracted[i].arguments.clone(),
                    },
                );
                proof {
                    assert(sigs_of(self.executed@) =~= before.push(sig@));
                    assert(pairs_of(result@) =~= pairs_of(old_result) + seq![full[i as int]]);
                    assert(pairs_of(result@) + dedup_calls(
                        full.skip(i as int + 1),
                        sigs_of(self.executed@),
                    ).0 =~= pairs_of(old_result) + (seq![full[i as int]] + dedup_calls(
                        full.skip(i as int + 1),
                        sigs_of(self.executed@),
                    ).0));
                }
            }
            i = i + 1;
        }
        proof {
            assert(full.skip(n as int) =~= Seq::<(Seq<char>, Seq<char>)>::empty());
            assert(pairs_of(result@) + Seq::<(Seq<char>, Seq<char>)>::empty() =~= pairs_of(
                result@,
            ));
        }
        result
    }

    /// Splices a successful tool result into the buffer and marks the
    /// follow-up round owed; hands back the spliced block so the caller can
    /// forward it to its sink.
    pub fn record_tool_success(&mut self, result: &str) -> (block: String)
        ensures
            block@ == response_block(result@),
            final(self).buffer@ == old(self).buffer@ + response_block(result@),
            final(self).executed == old(self).executed,
            final(self).continuation_needed,
            final(self).continuation_started == old(self).continuation_started,
            final(self).incomplete_on_finish == old(self).incomplete_on_finish,
    {
        let mut block = String::from_str("\n<tool_response>\n");
        block.append(result);
        block.append("\n</tool_response>");
        self.buffer.append(block.as_str());
        self.continuation_needed = true;
        block
    }

    /// Splices a failed tool call's error into the buffer, in the same block
    /// form, and still marks the follow-up round owed: failures are shown,
    /// never swallowed, and never abort the turn.
    pub fn record_tool_error(&mut self, message: &str) -> (block: String)
        ensures
            block@ == error_block(message@),
            final(self).buffer@ == old(self).buffer@ + error_block(message@),
            final(self).executed == old(self).executed,
            final(self).continuation_needed,
            final(self).continuation_started == old(self).continuation_started,
            final(self).incomplete_on_finish == old(self).incomplete_on_finish,
    {
        let mut block = String::from_str("\n<tool_response>\nError: ");
        block.append(message);
        block.append("\n</tool_response>");
        self.buffer.append(block.as_str());
        self.continuation_needed = true;
        block
    }

    /// Records, when the primary stream ends, whether it stopped inside an
    /// unclosed tool-call block.  This flags the turn; it never fails it.
    pub fn note_stream_finished(&mut self)
        ensures
            final(self).buffer == old(self).buffer,
            final(self).executed == old(self).executed,
            final(self).continuation_needed == old(self).continuation_needed,
            final(self).continuation_started == old(self).continuation_started,
            final(self).incomplete_on_finish == spec_has_incomplete(old(self).buffer@),
    {
        let inc = has_incomplete_tool_call(self.buffer.as_str());
        self.incomplete_on_finish = inc;
    }

    /// Decides whether the single follow-up round starts now: only when a
    /// tool response was spliced in, the buffer really holds one, and no
    /// follow-up round has begun before.  Marks the round begun when it says
    /// yes, so a second ask is always answered no.
    pub fn begin_continuation(&mut self) -> (go: bool)
        ensures
            go == (old(self).continuation_needed && spec_contains(
                old(self).buffer@,
                response_tag(),
            ) && !old(self).continuation_started),
            final(self).buffer == old(self).buffer,
            final(self).executed == old(self).executed,
            final(self).continuation_needed == old(self).continuation_needed,
            final(self).continuation_started == (old(self).continuation_started || go),
            final(self).incomplete_on_finish == old(self).incomplete_on_finish,
    {
        if self.continuation_needed && !self.continuation_started && check_if_continuation_needed(
            self.buffer.as_str(),
        ) {
            self.continuation_started = true;
            true
        } else {
            false
        }
    }

    /// Appends the follow-up round's output.  It is never rescanned for tool
    /// calls: directives inside a continuation are not dispatched.
    pub fn append_continuation(&mut self, text: &str)
        ensures
            final(self).buffer@ == old(self).buffer@ + text@,
            final(self).executed == old(self).executed,
            final(self).continuation_needed == old(self).continuation_needed,
            final(self).continuation_started == old(self).continuation_started,
            final(self).incomplete_on_finish == old(self).incomplete_on_finish,
    {
        self.buffer.append(text);
    }

    /// Renders a follow-up transport failure as an inline annotation and
    /// appends it; the content produced before the failure stays valid.
    pub fn record_continuation_error(&mut self, message: &str) -> (note: String)
        ensures
            note@ == continuation_error_note(message@),
            final(self).buffer@ == old(self).buffer@ + continuation_error_note(message@),
            final(self).executed == old(self).executed,
            final(self).continuation_needed == old(self).continuation_needed,
            final(self).continuation_started == old(self).continuation_started,
            final(self).incomplete_on_finish == old(self).incomplete_on_finish,
    {
        let mut note = String::from_str("\n\n[Continuation Error: ");
        note.append(message);
        note.append("]");
        self.buffer.append(note.as_str());
        note
    }

    /// The full turn output produced so far.
    pub fn response_text(&self) -> (r: String)
        ensures
            r@ == self.buffer@,
    {
        self.buffer.clone()
    }
}

/// Law: a directive whose signature was executed before is never handed out
/// again, and no two directives handed out in one scan share a signature —
/// a block repeated in the buffer is detected but dispatched only once.
pub proof fn lemma_dispatch_at_most_once(
    pairs: Seq<(Seq<char>, Seq<char>)>,
    executed: Seq<Seq<char>>,
)
    ensures
        forall|k: int|
            0 <= k < dedup_calls(pairs, executed).0.len() ==> !executed.contains(
                sig_of(
                    #[trigger] dedup_calls(pairs, executed).0[k].0,
                    dedup_calls(pairs, executed).0[k].1,
                ),
            ),
        forall|k1: int, k2: int|
            0 <= k1 < k2 < dedup_calls(pairs, executed).0.len() ==> sig_of(
                #[trigger] dedup_calls(pairs, executed).0[k1].0,
                dedup_calls(pairs, executed).0[k1].1,
            ) != sig_of(
                #[trigger] dedup_calls(pairs, executed).0[k2].0,
                dedup_calls(pairs, executed).0[k2].1,
            ),
    decreases pairs.len(),
{
    if pairs.len() == 0 {
    } else {
        let sig = sig_of(pairs[0].0, pairs[0].1);
        if executed.contains(sig) {
            lemma_dispatch_at_most_once(pairs.drop_first(), executed);
            let r0 = dedup_calls(pairs.drop_first(), executed).0;
            let out = dedup_calls(pairs, executed).0;
            assert(out == r0);
            assert forall|k: int| 0 <= k < out.len() implies !executed.contains(
                sig_of(#[trigger] out[k].0, out[k].1),
            ) by {
                assert(out[k] == r0[k]);
            }
            assert forall|k1: int, k2: int| 0 <= k1 < k2 < out.len() implies sig_of(
                #[trigger] out[k1].0,
                out[k1].1,
            ) != sig_of(#[trigger] out[k2].0, out[k2].1) by {
                assert(out[k1] == r0[k1]);
                assert(out[k2] == r0[k2]);
            }
        } else {
            lemma_dispatch_at_most_once(pairs.drop_first(), executed.push(sig));
            let rest = dedup_calls(pairs.drop_first(), executed.push(sig)).0;
            let out = dedup_calls(pairs, executed).0;
            assert(out =~= seq![pairs[0]] + rest);
            assert forall|x: Seq<char>| executed.push(sig).contains(x) implies executed.contains(x)
                || x == sig by {
                let w = choose|w: int| 0 <= w < executed.push(sig).len() && executed.push(sig)[w]
                    == x;
                if w < executed.len() {
                    assert(executed[w] == x);
                }
            }
            assert forall|x: Seq<char>| executed.contains(x) implies executed.push(sig).contains(
                x,
            ) by {
                let w = choose|w: int| 0 <= w < executed.len() && executed[w] == x;
                assert(executed.push(sig)[w] == x);
            }
            assert(executed.push(sig).contains(sig)) by {
                assert(executed.push(sig)[executed.len() as int] == sig);
            }
            assert forall|k: int| 0 <= k < out.len() implies !executed.contains(
                sig_of(#[trigger] out[k].0, out[k].1),
            ) by {
                if k > 0 {
                    assert(out[k] == rest[k - 1]);
                }
            }
            assert forall|k1: int, k2: int| 0 <= k1 < k2 < out.len() implies sig_of(
                #[trigger] out[k1].0,
                out[k1].1,
            ) != sig_of(#[trigger] out[k2].0, out[k2].1) by {
                assert(out[k2] == rest[k2 - 1]);
                if k1 == 0 {
                    assert(!executed.push(sig).contains(sig_of(rest[k2 - 1].0, rest[k2 - 1].1)));
                } else {
                    assert(out[k1] == rest[k1 - 1]);
                }
            }
        }
    }
}

/// After one scan, the recorded signatures cover everything that was in the
/// buffer: the old signatures are all still there, and every scanned
/// directive's signature is there too.
proof fn lemma_dedup_covers(pairs: Seq<(Seq<char>, Seq<char>)>, executed: Seq<Seq<char>>)
    ensures
        forall|x: Seq<char>|
            executed.contains(x) ==> #[trigger] dedup_calls(pairs, executed).1.contains(x),
        forall|k: int|
            0 <= k < pairs.len() ==> dedup_calls(pairs, executed).1.contains(
                sig_of(#[trigger] pairs[k].0, pairs[k].1),
            ),
    decreases pairs.len(),
{
    if pairs.len() == 0 {
    } else {
        let sig = sig_of(pairs[0].0, pairs[0].1);
        assert forall|x: Seq<char>| executed.contains(x) implies executed.push(sig).contains(
            x,
        ) by {
            let w = choose|w: int| 0 <= w < executed.len() && executed[w] == x;
            assert(executed.push(sig)[w] == x);
        }
        assert(executed.push(sig).contains(sig)) by {
            assert(executed.push(sig)[executed.len() as int] == sig);
        }
        if executed.contains(sig) {
            lemma_dedup_covers(pairs.drop_first(), executed);
            let r1 = dedup_calls(pairs.drop_first(), executed).1;
            assert(dedup_calls(pairs, executed).1 == r1);
            assert(r1.contains(sig));
            assert forall|k: int| 0 <= k < pairs.len() implies dedup_calls(
                pairs,
                executed,
            ).1.contains(sig_of(#[trigger] pairs[k].0, pairs[k].1)) by {
                if k > 0 {
                    assert(pairs[k] == pairs.drop_first()[k - 1]);
                    assert(r1.contains(
                        sig_of(pairs.drop_first()[k - 1].0, pairs.drop_first()[k - 1].1),
                    ));
                }
            }
        } else {
            lemma_dedup_covers(pairs.drop_first(), executed.push(sig));
            let r1 = dedup_calls(pairs.drop_first(), executed.push(sig)).1;
            assert(dedup_calls(pairs, executed).1 == r1);
            assert(r1.contains(sig));
            assert forall|x: Seq<char>| executed.contains(x) implies r1.contains(x) by {
                assert(executed.push(sig).contains(x));
            }
            assert forall|k: int| 0 <= k < pairs.len() implies dedup_calls(
                pairs,
                executed,
            ).1.contains(sig_of(#[trigger] pairs[k].0, pairs[k].1)) by {
                if k > 0 {
                    assert(pairs[k] == pairs.drop_first()[k - 1]);
                    assert(r1.contains(
                        sig_of(pairs.drop_first()[k - 1].0, pairs.drop_first()[k - 1].1),
                    ));
                }
            }
        }
    }
}

/// With every directive's signature already recorded, a scan hands out
/// nothing.
proof fn lemma_dedup_all_known(pairs: Seq<(Seq<char>, Seq<char>)>, executed: Seq<Seq<char>>)
    requires
        forall|k: int|
            0 <= k < pairs.len() ==> executed.contains(sig_of(#[trigger] pairs[k].0, pairs[k].1)),
    ensures
        dedup_calls(pairs, executed).0 == Seq::<(Seq<char>, Seq<char>)>::empty(),
        dedup_calls(pairs, executed).1 == executed,
    decreases pairs.len(),
{
    if pairs.len() > 0 {
        assert(executed.contains(sig_of(pairs[0].0, pairs[0].1)));
        assert(forall|k: int|
            0 <= k < pairs.drop_first().len() ==> pairs.drop_first()[k] == pairs[k + 1]);
        lemma_dedup_all_known(pairs.drop_first(), executed);
    }
}

/// Law: scanning the same buffer a second time dispatches nothing — the
/// first scan recorded every signature the buffer holds.
pub proof fn lemma_rescan_dispatches_nothing(
    pairs: Seq<(Seq<char>, Seq<char>)>,
    executed: Seq<Seq<char>>,
)
    ensures
        dedup_calls(pairs, dedup_calls(pairs, executed).1).0 == Seq::<(Seq<char>, Seq<char>)>::empty(),
{
    lemma_dedup_covers(pairs, executed);
    lemma_dedup_all_known(pairs, dedup_calls(pairs, executed).1);
}

/// The concatenation of a stream's deltas, in arrival order.
pub open spec fn concat_deltas(deltas: Seq<Seq<char>>) -> Seq<char>
    decreases deltas.len(),
{
    if deltas.len() == 0 {
        Seq::empty()
    } else {
        deltas[0] + concat_deltas(deltas.drop_first())
    }
}

/// The consumer's whole primary stream, run over the model: each delta is
/// appended to the buffer, the buffer is rescanned, and the directives not
/// seen before are dispatched.  Yields the final buffer, the recorded
/// signatures, and everything dispatched, in order.
pub open spec fn spec_run_stream(
    buffer: Seq<char>,
    executed: Seq<Seq<char>>,
    deltas: Seq<Seq<char>>,
) -> (Seq<char>, Seq<Seq<char>>, Seq<(Seq<char>, Seq<char>)>)
    decreases deltas.len(),
{
    if deltas.len() == 0 {
        (buffer, executed, Seq::empty())
    } else {
        let b = buffer + deltas[0];
        let d = dedup_calls(scan_from(b, 0), executed);
        let rest = spec_run_stream(b, d.1, deltas.drop_first());
        (rest.0, rest.1, d.0 + rest.2)
    }
}

/// Every directive a scan hands out has its signature recorded by that scan.
proof fn lemma_dedup_dispatched_recorded(
    pairs: Seq<(Seq<char>, Seq<char>)>,
    executed: Seq<Seq<char>>,
)
    ensures
        forall|k: int|
            0 <= k < dedup_calls(pairs, executed).0.len() ==> dedup_calls(
                pairs,
                executed,
            ).1.contains(
                sig_of(
                    #[trigger] dedup_calls(pairs, executed).0[k].0,
                    dedup_calls(pairs, executed).0[k].1,
                ),
            ),
    decreases pairs.len(),
{
    if pairs.len() == 0 {
    } else {
        let sig = sig_of(pairs[0].0, pairs[0].1);
        if executed.contains(sig) {
            lemma_dedup_dispatched_recorded(pairs.drop_first(), executed);
            let r = dedup_calls(pairs.drop_first(), executed);
            let out = dedup_calls(pairs, executed);
            assert(out == r);
            assert forall|k: int| 0 <= k < out.0.len() implies out.1.contains(
                sig_of(#[trigger] out.0[k].0, out.0[k].1),
            ) by {
                assert(out.0[k] == r.0[k]);
            }
        } else {
            lemma_dedup_dispatched_recorded(pairs.drop_first(), executed.push(sig));
            lemma_dedup_covers(pairs.drop_first(), executed.push(sig));
            let r = dedup_calls(pairs.drop_first(), executed.push(sig));
            let out = dedup_calls(pairs, executed);
            assert(out.0 =~= seq![pairs[0]] + r.0);
            assert(out.1 == r.1);
            assert(executed.push(sig).contains(sig)) by {
                assert(executed.push(sig)[executed.len() as int] == sig);
            }
            assert(r.1.contains(sig));
            assert forall|k: int| 0 <= k < out.0.len() implies out.1.contains(
                sig_of(#[trigger] out.0[k].0, out.0[k].1),
            ) by {
                if k > 0 {
                    assert(out.0[k] == r.0[k - 1]);
                    assert(r.1.contains(sig_of(r.0[k - 1].0, r.0[k - 1].1)));
                }
            }
        }
    }
}

/// The per-run dispatch facts, carried through the whole stream: recorded
/// signatures only grow, everything dispatched was new when it was
/// dispatched and is recorded afterwards, and no signature is dispatched
/// twice.
proof fn lemma_run_stream_dispatch(
    buffer: Seq<char>,
    executed: Seq<Seq<char>>,
    deltas: Seq<Seq<char>>,
)
    ensures
        forall|x: Seq<char>|
            executed.contains(x) ==> #[trigger] spec_run_stream(
                buffer,
                executed,
                deltas,
            ).1.contains(x),
        forall|k: int|
            0 <= k < spec_run_stream(buffer, executed, deltas).2.len() ==> !executed.contains(
                sig_of(
                    #[trigger] spec_run_stream(buffer, executed, deltas).2[k].0,
                    spec_run_stream(buffer, executed, deltas).2[k].1,
                ),
            ),
        forall|k: int|
            0 <= k < spec_run_stream(buffer, executed, deltas).2.len() ==> spec_run_stream(
                buffer,
                executed,
                deltas,
            ).1.contains(
                sig_of(
                    #[trigger] spec_run_stream(buffer, executed, deltas).2[k].0,
                    spec_run_stream(buffer, executed, deltas).2[k].1,
                ),
            ),
        forall|k1: int, k2: int|
            0 <= k1 < k2 < spec_run_stream(buffer, executed, deltas).2.len() ==> sig_of(
                #[trigger] spec_run_stream(buffer, executed, deltas).2[k1].0,
                spec_run_stream(buffer, executed, deltas).2[k1].1,
            ) != sig_of(
                #[trigger] spec_run_stream(buffer, executed, deltas).2[k2].0,
                spec_run_stream(buffer, executed, deltas).2[k2].1,
            ),
    decreases deltas.len(),
{
    if deltas.len() == 0 {
    } else {
        let b = buffer + deltas[0];
        let pairs = scan_from(b, 0);
        let d = dedup_calls(pairs, executed);
        let run = spec_run_stream(buffer, executed, deltas);
        let rest = spec_run_stream(b, d.1, deltas.drop_first());
        lemma_dispatch_at_most_once(pairs, executed);
        lemma_dedup_covers(pairs, executed);
        lemma_dedup_dispatched_recorded(pairs, executed);
        lemma_run_stream_dispatch(b, d.1, deltas.drop_first());
        assert(run.1 == rest.1);
        assert(run.2 =~= d.0 + rest.2);
        // Recorded signatures only grow across the step and the rest.
        assert forall|x: Seq<char>| executed.contains(x) implies #[trigger] run.1.contains(x) by {
            assert(d.1.contains(x));
            assert(rest.1.contains(x));
        }
        // Everything dispatched this step is recorded from `d.1` on; nothing
        // dispatched later collides with it.
        assert forall|k: int| 0 <= k < run.2.len() implies !executed.contains(
            sig_of(#[trigger] run.2[k].0, run.2[k].1),
        ) by {
            if k < d.0.len() {
                assert(run.2[k] == d.0[k]);
            } else {
                assert(run.2[k] == rest.2[k - d.0.len()]);
                let s = sig_of(rest.2[k - d.0.len()].0, rest.2[k - d.0.len()].1);
                assert(!d.1.contains(s));
                if executed.contains(s) {
                    assert(d.1.contains(s));
                }
            }
        }
        assert forall|k: int| 0 <= k < run.2.len() implies run.1.contains(
            sig_of(#[trigger] run.2[k].0, run.2[k].1),
        ) by {
            if k < d.0.len() {
                assert(run.2[k] == d.0[k]);
                assert(d.1.contains(sig_of(d.0[k].0, d.0[k].1)));
                assert(rest.1.contains(sig_of(d.0[k].0, d.0[k].1)));
            } else {
                assert(run.2[k] == rest.2[k - d.0.len()]);
                assert(rest.1.contains(
                    sig_of(rest.2[k - d.0.len()].0, rest.2[k - d.0.len()].1),
                ));
            }
        }
        assert forall|k1: int, k2: int| 0 <= k1 < k2 < run.2.len() implies sig_of(
            #[trigger] run.2[k1].0,
            run.2[k1].1,
        ) != sig_of(#[trigger] run.2[k2].0, run.2[k2].1) by {
            if k2 < d.0.len() {
                assert(run.2[k1] == d.0[k1]);
                assert(run.2[k2] == d.0[k2]);
            } else if k1 >= d.0.len() {
                assert(run.2[k1] == rest.2[k1 - d.0.len()]);
                assert(run.2[k2] == rest.2[k2 - d.0.len()]);
            } else {
                // One dispatched this step, one later: the later one's
                // signature was not yet recorded, the earlier one's was.
                assert(run.2[k1] == d.0[k1]);
                assert(run.2[k2] == rest.2[k2 - d.0.len()]);
                let s1 = sig_of(d.0[k1].0, d.0[k1].1);
                let s2 = sig_of(rest.2[k2 - d.0.len()].0, rest.2[k2 - d.0.len()].1);
                assert(d.1.contains(s1));
                assert(!d.1.contains(s2));
            }
        }
    }
}

/// Law: over a whole turn's stream, a signature is dispatched at most once —
/// everything ever handed out for invocation is pairwise distinct by
/// signature, however the deltas arrive and however often blocks repeat.
pub proof fn lemma_turn_dispatches_at_most_once(deltas: Seq<Seq<char>>)
    ensures
        forall|k1: int, k2: int|
            0 <= k1 < k2 < spec_run_stream(Seq::empty(), Seq::empty(), deltas).2.len() ==> sig_of(
                #[trigger] spec_run_stream(Seq::empty(), Seq::empty(), deltas).2[k1].0,
                spec_run_stream(Seq::empty(), Seq::empty(), deltas).2[k1].1,
            ) != sig_of(
                #[trigger] spec_run_stream(Seq::empty(), Seq::empty(), deltas).2[k2].0,
                spec_run_stream(Seq::empty(), Seq::empty(), deltas).2[k2].1,
            ),
{
    lemma_run_stream_dispatch(Seq::empty(), Seq::empty(), deltas);
}

/// Generalization of the quiet-stream law over a running state.
proof fn lemma_run_stream_quiet(
    buffer: Seq<char>,
    executed: Seq<Seq<char>>,
    deltas: Seq<Seq<char>>,
)
    requires
        scan_from(buffer + concat_deltas(deltas), 0) == Seq::<(Seq<char>, Seq<char>)>::empty(),
    ensures
        spec_run_stream(buffer, executed, deltas).0 == buffer + concat_deltas(deltas),
        spec_run_stream(buffer, executed, deltas).1 == executed,
        spec_run_stream(buffer, executed, deltas).2 == Seq::<(Seq<char>, Seq<char>)>::empty(),
    decreases deltas.len(),
{
    if deltas.len() == 0 {
        assert(buffer + concat_deltas(deltas) =~= buffer);
    } else {
        let b = buffer + deltas[0];
        assert(b + concat_deltas(deltas.drop_first()) =~= buffer + concat_deltas(deltas));
        crate::scanner::lemma_scan_empty_prefix(b, concat_deltas(deltas.drop_first()));
        assert(dedup_calls(scan_from(b, 0), executed).0 =~= Seq::<(Seq<char>, Seq<char>)>::empty());
        assert(dedup_calls(scan_from(b, 0), executed).1 == executed);
        lemma_run_stream_quiet(b, executed, deltas.drop_first());
        assert(dedup_calls(scan_from(b, 0), executed).0 + spec_run_stream(
            b,
            executed,
            deltas.drop_first(),
        ).2 =~= Seq::<(Seq<char>, Seq<char>)>::empty());
    }
}

/// Law: a stream whose text never contains a complete tool-call block
/// dispatches nothing — so nothing ever marks a continuation needed — and
/// the turn's text is exactly the concatenation of its deltas, in order.
pub proof fn lemma_stream_without_calls(deltas: Seq<Seq<char>>)
    requires
        scan_from(concat_deltas(deltas), 0) == Seq::<(Seq<char>, Seq<char>)>::empty(),
    ensures
        spec_run_stream(Seq::empty(), Seq::empty(), deltas).0 == concat_deltas(deltas),
        spec_run_stream(Seq::empty(), Seq::empty(), deltas).1 == Seq::<Seq<char>>::empty(),
        spec_run_stream(Seq::empty(), Seq::empty(), deltas).2 == Seq::<(Seq<char>, Seq<char>)>::empty(),
{
    assert(Seq::<char>::empty() + concat_deltas(deltas) =~= concat_deltas(deltas));
    lemma_run_stream_quiet(Seq::empty(), Seq::empty(), deltas);
}

/// The dedup key of a directive, as the dispatcher computes it.
pub fn signature_of(call: &ToolCall) -> (s: String)
    ensures
        s@ == sig_of(call.name@, call.arguments@),
{
    let mut s = call.name.clone();
    s.append(":");
    s.append(call.arguments.as_str());
    s
}

/// The arguments text handed to the tool invoker: the directive's arguments
/// with null-valued keys removed, since the invoker does not accept nulls,
/// or the empty object when the text does not parse — argument validity is
/// the invoker's concern, not a reason to skip the call.
pub fn invocation_arguments(call: &ToolCall) -> (r: String)
    ensures
        r@ == strip_nulls(call.arguments@),
{
    strip_null_arguments(call.arguments.as_str())
}

/// Whether `s` is one of the strings in `v`.
fn contains_string(v: &Vec<String>, s: &String) -> (r: bool)
    ensures
        r == sigs_of(v@).contains(s@),
{
    let n = v.len();
    let mut i: usize = 0;
    while i < n
        invariant
            i <= n,
            n == v@.len(),
            forall|j: int| 0 <= j < i ==> v@[j]@ != s@,
        decreases n - i,
    {
        if *s == v[i] {
            proof {
                assert(sigs_of(v@)[i as int] == s@);
            }
            return true;
        }
        i = i + 1;
    }
    proof {
        assert forall|k: int| 0 <= k < sigs_of(v@).len() implies sigs_of(v@)[k] != s@ by {
            assert(sigs_of(v@)[k] == v@[k]@);
        }
    }
    false
}

} // verus!
