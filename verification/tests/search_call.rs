use codex_logic::search_call::max_output_tokens;
use codex_logic::search_call::start_search_call;
use codex_logic::search_call::step_search_call;
use codex_logic::search_call::SearchCallAction;
use codex_logic::search_call::SearchCallEvent;
use codex_logic::search_call::SearchCallState;
use codex_logic::web_search::FunctionCallError;
use codex_logic::web_search::SearchCommands;
use codex_logic::web_search::SearchQuery;
use codex_logic::web_search::WebSearchAction;

fn commands() -> SearchCommands {
    SearchCommands {
        search_query: Some(vec![SearchQuery { q: "rust verus".to_string(), recency: None, domains: None }]),
        ..SearchCommands::default()
    }
}

#[test]
fn successful_call_runs_through_all_steps() {
    let (state, action) = start_search_call("session-1", "call-1", Ok(commands()), 5000);
    assert!(matches!(action, SearchCallAction::ResolveProvider));
    let (state, action) = step_search_call(state, SearchCallEvent::ProviderResolved(Ok(())));
    assert!(matches!(action, SearchCallAction::ResolveAuth));
    let (state, action) = step_search_call(state, SearchCallEvent::AuthResolved(Ok(())));
    match action {
        SearchCallAction::AnnounceStarted(item) => {
            assert_eq!(item.id, "call-1");
            assert_eq!(item.action, WebSearchAction::Other);
        }
        _ => panic!("expected the start announcement"),
    }
    let (state, action) = step_search_call(state, SearchCallEvent::StartAnnounced);
    match action {
        SearchCallAction::RunSearch { request_id, commands: run, max_output_tokens } => {
            assert_eq!(request_id, "session-1");
            assert_eq!(run, commands());
            assert_eq!(max_output_tokens, 5000);
        }
        _ => panic!("expected the search"),
    }
    let (state, action) = step_search_call(state, SearchCallEvent::SearchDone(Ok(())));
    match action {
        SearchCallAction::AnnounceCompleted(item) => {
            assert_eq!(item.id, "call-1");
            assert_eq!(
                item.action,
                WebSearchAction::Search { query: Some("rust verus".to_string()), queries: None }
            );
        }
        _ => panic!("expected the completion announcement"),
    }
    let (state, action) = step_search_call(state, SearchCallEvent::CompletionAnnounced);
    assert!(matches!(action, SearchCallAction::Finish(Ok(()))));
    assert!(matches!(state, SearchCallState::Finished));
}

#[test]
fn refused_commands_finish_at_once() {
    let error = FunctionCallError::RespondToModel("refused".to_string());
    let (state, action) = start_search_call("s", "c", Err(error.clone()), 1);
    assert!(matches!(state, SearchCallState::Finished));
    match action {
        SearchCallAction::Finish(Err(e)) => assert_eq!(e, error),
        _ => panic!("expected the refusal"),
    }
}

#[test]
fn failures_are_fatal() {
    let (state, _) = start_search_call("s", "c", Ok(commands()), 1);
    let (state, action) = step_search_call(state, SearchCallEvent::ProviderResolved(Err("no provider".to_string())));
    assert!(matches!(state, SearchCallState::Finished));
    match action {
        SearchCallAction::Finish(Err(e)) => assert_eq!(e, FunctionCallError::Fatal("no provider".to_string())),
        _ => panic!("expected a fatal error"),
    }

    let (state, _) = start_search_call("s", "c", Ok(commands()), 1);
    let (state, _) = step_search_call(state, SearchCallEvent::ProviderResolved(Ok(())));
    let (state, _) = step_search_call(state, SearchCallEvent::AuthResolved(Ok(())));
    let (state, _) = step_search_call(state, SearchCallEvent::StartAnnounced);
    let (_, action) = step_search_call(state, SearchCallEvent::SearchDone(Err("timeout".to_string())));
    match action {
        SearchCallAction::Finish(Err(e)) => assert_eq!(e.to_string(), "Fatal error: timeout"),
        _ => panic!("expected a fatal error"),
    }
}

#[test]
fn unexpected_events_are_ignored() {
    let (state, _) = start_search_call("s", "c", Ok(commands()), 1);
    let (state, action) = step_search_call(state, SearchCallEvent::StartAnnounced);
    assert!(matches!(action, SearchCallAction::Ignore));
    assert!(matches!(state, SearchCallState::ResolvingProvider(_)));
    let (_, action) = step_search_call(SearchCallState::Finished, SearchCallEvent::CompletionAnnounced);
    assert!(matches!(action, SearchCallAction::Ignore));
}

#[test]
fn output_token_budget() {
    assert_eq!(max_output_tokens(0), 0);
    assert_eq!(max_output_tokens(usize::MAX), usize::MAX as u64);
}
