//! One whole turn, driven the way a caller drives the library: request
//! assembly, a scripted primary stream with a tool call, the dispatch round
//! trip, and the single continuation round.

use tool_turn::request::HistoryEntry;
use tool_turn::request::Role;
use tool_turn::request::assemble_continuation;
use tool_turn::request::assemble_request;
use tool_turn::turn::TurnState;
use tool_turn::turn::invocation_arguments;

#[test]
fn test_time_question_end_to_end() {
    let history: Vec<HistoryEntry> = Vec::new();
    let system = "sys";
    let user_message = "What time is it?";
    let request = assemble_request(system, &history, user_message);
    assert_eq!(request.len(), 2);

    // The primary stream arrives in chunks; the directive spans two of them.
    let chunks = [
        "Let me look that up.\n<tool_call>{\"name\": \"time_get_current_time\",",
        " \"arguments\": {}}</tool_call>",
    ];
    let mut turn = TurnState::new();
    let mut invoked: Vec<(String, String)> = Vec::new();
    for chunk in chunks {
        turn.append_delta(chunk);
        for call in turn.take_new_calls() {
            let args = invocation_arguments(&call);
            invoked.push((call.name.clone(), args));
            // The scripted invoker answers with a timestamp.
            turn.record_tool_success("2024-01-01T00:00:00Z");
        }
    }
    turn.note_stream_finished();
    assert!(!turn.incomplete_on_finish);
    assert_eq!(invoked.len(), 1);
    assert_eq!(invoked[0].0, "time_get_current_time");
    assert_eq!(invoked[0].1, "{}");
    assert!(turn.response_text().contains("<tool_response>\n2024-01-01T00:00:00Z\n</tool_response>"));

    // Exactly one continuation round runs, seeded with the whole buffer.
    assert!(turn.begin_continuation());
    let cont_request = assemble_continuation(system, &request, turn.response_text().as_str());
    assert!(cont_request[cont_request.len() - 1].role == Role::Assistant);
    turn.append_continuation("The current time is 2024-01-01T00:00:00Z.");
    assert!(!turn.begin_continuation());

    let answer = turn.response_text();
    assert!(answer.ends_with("The current time is 2024-01-01T00:00:00Z."));
    assert!(answer.contains("2024-01-01T00:00:00Z"));
}
