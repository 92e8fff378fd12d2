//! The request assembler: builds the ordered message list for a completion
//! round — the system directive with its rendered tool-documentation block,
//! the trimmed conversation history, and the current user message — and the
//! follow-up round's list, which replays the same context plus one assistant
//! message holding the whole tool-augmented buffer.

use vstd::prelude::*;

use crate::text::str_eq;

verus! {

/// A message role as the completion backend understands it.
#[derive(Clone, Copy, PartialEq, Eq, Structural, Debug)]
pub enum Role {
    System,
    User,
    Assistant,
}

/// One message of a completion request.
pub struct Message {
    pub role: Role,
    pub text: String,
}

/// A prior conversation entry as the history provider hands it over: the
/// role is free-form text and may name roles the backend does not know.
pub struct HistoryEntry {
    pub role: String,
    pub text: String,
}

/// One tool's documentation, rendered into the system message: its
/// qualified name, its JSON-schema parameters as text, and a description.
pub struct ToolDoc {
    pub name: String,
    pub parameters: String,
    pub description: String,
}

/// The mathematical content of a message.
pub open spec fn msg_view(m: Message) -> (Role, Seq<char>) {
    (m.role, m.text@)
}

/// The mathematical content of a message list.
pub open spec fn msg_views(msgs: Seq<Message>) -> Seq<(Role, Seq<char>)> {
    msgs.map_values(|m: Message| msg_view(m))
}

/// Whether a history entry carries the user role.
pub open spec fn is_user(e: HistoryEntry) -> bool {
    e.role@ == "user"@
}

/// Whether a history entry carries the assistant role.
pub open spec fn is_assistant(e: HistoryEntry) -> bool {
    e.role@ == "assistant"@
}

/// The history entries the backend can replay: user and assistant turns,
/// in order; entries with any other role are dropped.
pub open spec fn spec_filtered(h: Seq<HistoryEntry>) -> Seq<HistoryEntry>
    decreases h.len(),
{
    if h.len() == 0 {
        Seq::empty()
    } else {
        let rest = spec_filtered(h.drop_first());
        if is_user(h[0]) || is_assistant(h[0]) {
            seq![h[0]] + rest
        } else {
            rest
        }
    }
}

/// Drops a trailing history entry that repeats the current user message,
/// so the message does not appear twice in the request.
pub open spec fn spec_drop_dup_tail(h: Seq<HistoryEntry>, msg: Seq<char>) -> Seq<HistoryEntry> {
    if h.len() > 0 && is_user(h.last()) && h.last().text@ == msg {
        h.drop_last()
    } else {
        h
    }
}

/// Every entry the filter keeps carries the user or the assistant role.
proof fn lemma_filtered_kept(h: Seq<HistoryEntry>)
    ensures
        forall|k: int|
            0 <= k < spec_filtered(h).len() ==> is_user(#[trigger] spec_filtered(h)[k])
                || is_assistant(spec_filtered(h)[k]),
    decreases h.len(),
{
    if h.len() > 0 {
        lemma_filtered_kept(h.drop_first());
        let fr = spec_filtered(h.drop_first());
        if is_user(h[0]) || is_assistant(h[0]) {
            assert forall|k: int| 0 <= k < spec_filtered(h).len() implies is_user(
                #[trigger] spec_filtered(h)[k],
            ) || is_assistant(spec_filtered(h)[k]) by {
                if k == 0 {
                    assert(spec_filtered(h)[0] == h[0]);
                } else {
                    assert(spec_filtered(h)[k] == fr[k - 1]);
                }
            }
        } else {
            assert forall|k: int| 0 <= k < spec_filtered(h).len() implies is_user(
                #[trigger] spec_filtered(h)[k],
            ) || is_assistant(spec_filtered(h)[k]) by {
                assert(spec_filtered(h)[k] == fr[k]);
            }
        }
    }
}

/// The message a kept history entry becomes.
pub open spec fn entry_view(e: HistoryEntry) -> (Role, Seq<char>) {
    if is_user(e) {
        (Role::User, e.text@)
    } else {
        (Role::Assistant, e.text@)
    }
}

/// The full primary request: system directive, usable history with a
/// duplicated tail suppressed, then the current user message.
pub open spec fn spec_assemble(
    system_text: Seq<char>,
    h: Seq<HistoryEntry>,
    user_message: Seq<char>,
) -> Seq<(Role, Seq<char>)> {
    seq![(Role::System, system_text)] + spec_drop_dup_tail(
        spec_filtered(h),
        user_message,
    ).map_values(|e: HistoryEntry| entry_view(e)) + seq![(Role::User, user_message)]
}

/// Builds the primary request's message list.
pub fn assemble_request(
    system_text: &str,
    history: &Vec<HistoryEntry>,
    user_message: &str,
) -> (msgs: Vec<Message>)
    ensures
        msg_views(msgs@) == spec_assemble(system_text@, history@, user_message@),
{
    let mut kept: Vec<HistoryEntry> = Vec::new();
    let n = history.len();
    let mut i: usize = 0;
    proof {
        assert(history@.skip(0) =~= history@);
        assert(kept@ + spec_filtered(history@) =~= spec_filtered(history@));
    }
    while i < n
        invariant
            i <= n,
            n == history@.len(),
            spec_filtered(history@) == kept@ + spec_filtered(history@.skip(i as int)),
        decreases n - i,
    {
        proof {
            assert(history@.skip(i as int) =~= seq![history@[i as int]] + history@.skip(
                i as int + 1,
            ));
            assert((seq![history@[i as int]] + history@.skip(i as int + 1)).drop_first()
                =~= history@.skip(i as int + 1));
        }
        let entry = &history[i];
        if str_eq(entry.role.as_str(), "user") || str_eq(entry.role.as_str(), "assistant") {
            let ghost before = kept@;
            kept.push(HistoryEntry { role: entry.role.clone(), text: entry.text.clone() });
            proof {
                assert(kept@[before.len() as int] == history@[i as int]);
                assert(kept@ =~= before.push(history@[i as int]));
                assert(kept@ + spec_filtered(history@.skip(i as int + 1)) =~= before + (seq![
                    history@[i as int],
                ] + spec_filtered(history@.skip(i as int + 1))));
            }
        }
        i = i + 1;
    }
    proof {
        assert(history@.skip(n as int) =~= Seq::<HistoryEntry>::empty());
        assert(kept@ + Seq::<HistoryEntry>::empty() =~= kept@);
        assert(kept@ == spec_filtered(history@));
    }
    if kept.len() > 0 {
        let last = &kept[kept.len() - 1];
        if str_eq(last.role.as_str(), "user") && str_eq(last.text.as_str(), user_message) {
            let ghost before_pop = kept@;
            kept.pop();
            proof {
                assert(kept@ =~= before_pop.drop_last());
            }
        }
    }
    let ghost processed = spec_drop_dup_tail(spec_filtered(history@), user_message@);
    proof {
        lemma_filtered_kept(history@);
        assert(kept@ == processed);
    }
    let mut msgs: Vec<Message> = Vec::new();
    msgs.push(Message { role: Role::System, text: String::from_str(system_text) });
    let m = kept.len();
    let mut j: usize = 0;
    while j < m
        invariant
            j <= m,
            m == kept@.len(),
            kept@ == processed,
            forall|k: int|
                0 <= k < kept@.len() ==> is_user(kept@[k]) || is_assistant(#[trigger] kept@[k]),
            msg_views(msgs@) =~= seq![(Role::System, system_text@)] + processed.map_values(
                |e: HistoryEntry| entry_view(e),
            ).take(j as int),
        decreases m - j,
    {
        let entry = &kept[j];
        let role = if str_eq(entry.role.as_str(), "user") {
            Role::User
        } else {
            Role::Assistant
        };
        let ghost before = msgs@;
        msgs.push(Message { role, text: entry.text.clone() });
        proof {
            assert(msg_view(msgs@.last()) == entry_view(kept@[j as int]));
            assert(msg_views(msgs@) =~= msg_views(before).push(entry_view(kept@[j as int])));
            assert(msg_views(msgs@) =~= seq![(Role::System, system_text@)]
                + processed.map_values(|e: HistoryEntry| entry_view(e)).take(j as int + 1));
        }
        j = j + 1;
    }
    proof {
        assert(processed.map_values(|e: HistoryEntry| entry_view(e)).take(m as int)
            =~= processed.map_values(|e: HistoryEntry| entry_view(e)));
    }
    let ghost before_user = msgs@;
    msgs.push(Message { role: Role::User, text: String::from_str(user_message) });
    proof {
        assert(msg_views(msgs@) =~= msg_views(before_user).push((Role::User, user_message@)));
        assert(msg_views(msgs@) =~= spec_assemble(system_text@, history@, user_message@));
    }
    msgs
}

/// The follow-up request: the same system directive, the prior messages
/// after it, then one assistant message holding the whole tool-augmented
/// buffer, so the model sees what it emitted and what the tools returned.
pub open spec fn spec_assemble_continuation(
    system_text: Seq<char>,
    previous: Seq<Message>,
    buffer_text: Seq<char>,
) -> Seq<(Role, Seq<char>)> {
    seq![(Role::System, system_text)] + msg_views(previous).skip(1) + seq![
        (Role::Assistant, buffer_text),
    ]
}

/// Builds the follow-up request's message list from the primary request's
/// messages (whose head is the system message) and the buffer.
pub fn assemble_continuation(
    system_text: &str,
    previous: &Vec<Message>,
    buffer_text: &str,
) -> (msgs: Vec<Message>)
    requires
        previous@.len() >= 1,
    ensures
        msg_views(msgs@) == spec_assemble_continuation(system_text@, previous@, buffer_text@),
{
    let mut msgs: Vec<Message> = Vec::new();
    msgs.push(Message { role: Role::System, text: String::from_str(system_text) });
    let n = previous.len();
    let mut i: usize = 1;
    proof {
        assert(msg_views(msgs@) =~= seq![(Role::System, system_text@)] + msg_views(
            previous@,
        ).subrange(1, 1));
    }
    while i < n
        invariant
            1 <= i <= n,
            n == previous@.len(),
            msg_views(msgs@) =~= seq![(Role::System, system_text@)] + msg_views(
                previous@,
            ).subrange(1, i as int),
        decreases n - i,
    {
        let entry = &previous[i];
        let ghost before = msgs@;
        msgs.push(Message { role: entry.role, text: entry.text.clone() });
        proof {
            assert(msg_view(msgs@.last()) == msg_views(previous@)[i as int]);
            assert(msg_views(msgs@) =~= msg_views(before).push(msg_views(previous@)[i as int]));
            assert(msg_views(msgs@) =~= seq![(Role::System, system_text@)] + msg_views(
                previous@,
            ).subrange(1, i as int + 1));
        }
        i = i + 1;
    }
    let ghost before_tail = msgs@;
    msgs.push(Message { role: Role::Assistant, text: String::from_str(buffer_text) });
    proof {
        assert(msg_views(previous@).subrange(1, n as int) =~= msg_views(previous@).skip(1));
        assert(msg_views(msgs@) =~= msg_views(before_tail).push((Role::Assistant, buffer_text@)));
        assert(msg_views(msgs@) =~= spec_assemble_continuation(
            system_text@,
            previous@,
            buffer_text@,
        ));
    }
    msgs
}

/// One tool's documentation line: `name(parameters) - description`.
pub open spec fn spec_tool_line(t: ToolDoc) -> Seq<char> {
    t.name@ + "("@ + t.parameters@ + ") - "@ + t.description@
}

/// All documentation lines, joined by newlines.
pub open spec fn spec_tool_lines(ts: Seq<ToolDoc>) -> Seq<char>
    decreases ts.len(),
{
    if ts.len() == 0 {
        Seq::empty()
    } else if ts.len() == 1 {
        spec_tool_line(ts[0])
    } else {
        spec_tool_line(ts[0]) + "\n"@ + spec_tool_lines(ts.drop_first())
    }
}

/// What precedes the documentation lines in the tools block.
pub open spec fn tools_block_head() -> Seq<char> {
    "\n\n# Tools\n\nYou may call one or more functions to assist with the user query.\n\nYou are provided with function signatures within <tools></tools> XML tags:\n<tools>\n"@
}

/// What follows the documentation lines in the tools block.
pub open spec fn tools_block_tail() -> Seq<char> {
    "\n</tools>\n\nFor each function call, return a json object with function name and arguments within <tool_call></tool_call> XML tags:\n<tool_call>\n{\"name\": <function-name>, \"arguments\": <args-json-object>}\n</tool_call>"@
}

/// The tool-documentation block appended to the system directive: empty when
/// there are no tools, else the template around the joined lines.
pub open spec fn spec_tools_block(ts: Seq<ToolDoc>) -> Seq<char> {
    if ts.len() == 0 {
        Seq::empty()
    } else {
        tools_block_head() + spec_tool_lines(ts) + tools_block_tail()
    }
}

/// Renders one tool's documentation line.
fn render_tool_line(t: &ToolDoc) -> (r: String)
    ensures
        r@ == spec_tool_line(*t),
{
    let mut r = t.name.clone();
    r.append("(");
    r.append(t.parameters.as_str());
    r.append(") - ");
    r.append(t.description.as_str());
    r
}

/// Splitting off the first line: the joined lines are the first tool's line
/// followed by the newline-prefixed lines of the rest.
proof fn lemma_tool_lines_join(ts: Seq<ToolDoc>)
    requires
        ts.len() >= 1,
    ensures
        spec_tool_lines(ts) == spec_tool_line(ts[0]) + spec_join_tail(ts.drop_first()),
    decreases ts.len(),
{
    if ts.len() == 1 {
        assert(spec_tool_line(ts[0]) + spec_join_tail(ts.drop_first()) =~= spec_tool_line(ts[0]));
    } else {
        lemma_tool_lines_join(ts.drop_first());
        assert(spec_tool_line(ts[0]) + "\n"@ + (spec_tool_line(ts.drop_first()[0]) + spec_join_tail(
            ts.drop_first().drop_first(),
        )) =~= spec_tool_line(ts[0]) + ("\n"@ + spec_tool_line(ts.drop_first()[0]) + spec_join_tail(
            ts.drop_first().drop_first(),
        )));
    }
}

/// Renders the tool-documentation block for the system message.
pub fn render_tools_block(tools: &Vec<ToolDoc>) -> (r: String)
    ensures
        r@ == spec_tools_block(tools@),
{
    if tools.len() == 0 {
        return String::new();
    }
    let mut lines = render_tool_line(&tools[0]);
    let n = tools.len();
    let mut i: usize = 1;
    proof {
        lemma_tool_lines_join(tools@);
        assert(tools@.skip(1) =~= tools@.drop_first());
    }
    while i < n
        invariant
            1 <= i <= n,
            n == tools@.len(),
            spec_tool_lines(tools@) == lines@ + spec_join_tail(tools@.skip(i as int)),
        decreases n - i,
    {
        let ghost lines_before = lines@;
        lines.append("\n");
        let line = render_tool_line(&tools[i]);
        lines.append(line.as_str());
        proof {
            assert(tools@.skip(i as int) =~= seq![tools@[i as int]] + tools@.skip(i as int + 1));
            assert((seq![tools@[i as int]] + tools@.skip(i as int + 1)).drop_first() =~= tools@.skip(
                i as int + 1,
            ));
            assert(spec_join_tail(tools@.skip(i as int)) == "\n"@ + spec_tool_line(tools@[i as int])
                + spec_join_tail(tools@.skip(i as int + 1)));
            assert(lines_before + ("\n"@ + spec_tool_line(tools@[i as int]) + spec_join_tail(
                tools@.skip(i as int + 1),
            )) =~= lines@ + spec_join_tail(tools@.skip(i as int + 1)));
        }
        i = i + 1;
    }
    proof {
        assert(tools@.skip(n as int) =~= Seq::<ToolDoc>::empty());
        assert(lines@ + spec_join_tail(tools@.skip(n as int)) =~= lines@);
    }
    let mut r = String::from_str("\n\n# Tools\n\nYou may call one or more functions to assist with the user query.\n\nYou are provided with function signatures within <tools></tools> XML tags:\n<tools>\n");
    r.append(lines.as_str());
    r.append("\n</tools>\n\nFor each function call, return a json object with function name and arguments within <tool_call></tool_call> XML tags:\n<tool_call>\n{\"name\": <function-name>, \"arguments\": <args-json-object>}\n</tool_call>");
    r
}

/// The lines still owed after the first tool: a newline and a line for each
/// remaining tool.
pub open spec fn spec_join_tail(ts: Seq<ToolDoc>) -> Seq<char>
    decreases ts.len(),
{
    if ts.len() == 0 {
        Seq::empty()
    } else {
        "\n"@ + spec_tool_line(ts[0]) + spec_join_tail(ts.drop_first())
    }
}

/// The system directive used when the caller supplies none.
pub fn default_system_prompt() -> (r: String)
    ensures
        r@
            == "You are a helpful AI assistant with access to various functions/tools. \n        You MUST use the available tools when they are relevant to answer the user's request.\n\n        IMPORTANT RULES:\n        1. NEVER make up or guess information that could be obtained from a function call\n        2. If you have a tool that can answer the question, USE IT\n\n        Available tools should be called whenever relevant to provide accurate, up-to-date information."@,
{
    String::from_str(
        "You are a helpful AI assistant with access to various functions/tools. \n        You MUST use the available tools when they are relevant to answer the user's request.\n\n        IMPORTANT RULES:\n        1. NEVER make up or guess information that could be obtained from a function call\n        2. If you have a tool that can answer the question, USE IT\n\n        Available tools should be called whenever relevant to provide accurate, up-to-date information.",
    )
}

/// The system message actually sent: the directive with the tools block
/// appended, whether the directive was supplied or the default.
pub fn system_message(base: &str, tools_block: &str) -> (r: String)
    ensures
        r@ == base@ + tools_block@,
{
    let mut r = String::from_str(base);
    r.append(tools_block);
    r
}

/// Clamps an optional token budget the way the request builder does: a
/// missing value defaults to 1000, and anything below 100 is raised to 100.
pub fn effective_max_tokens(max_tokens: Option<u32>) -> (r: u32)
    ensures
        r == spec_effective_max_tokens(max_tokens),
{
    let base = match max_tokens {
        Some(v) => v,
        None => 1000,
    };
    if base < 100 {
        100
    } else {
        base
    }
}

/// The token budget actually sent: the requested value (default 1000),
/// floored at 100 so a tool-calling turn is never starved.
pub open spec fn spec_effective_max_tokens(max_tokens: Option<u32>) -> u32 {
    let base = match max_tokens {
        Some(v) => v,
        None => 1000u32,
    };
    if base < 100 {
        100u32
    } else {
        base
    }
}

} // verus!
