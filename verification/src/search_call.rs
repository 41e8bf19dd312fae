//! The decisions of one web-search tool call, as a state machine. The caller
//! performs each action (resolving the provider and its credentials,
//! announcing the call, running the search) and reports the outcome back.

use vstd::prelude::*;
use crate::web_search::{command_action, spec_command_action, FunctionCallError, SearchCommands, WebSearchAction, WebSearchItem};

verus! {

/// What a call whose commands were accepted is about to do.
pub struct SearchPlan {
    pub session_id: String,
    pub call_id: String,
    pub commands: SearchCommands,
    pub action: WebSearchAction,
    pub max_output_tokens: u64,
}

pub enum SearchCallState {
    ResolvingProvider(SearchPlan),
    ResolvingAuth(SearchPlan),
    AnnouncingStart(SearchPlan),
    Searching { call_id: String, action: WebSearchAction },
    AnnouncingCompletion,
    Finished,
}

/// The outcome of the last action. Failures carry the failure's message.
pub enum SearchCallEvent {
    ProviderResolved(Result<(), String>),
    AuthResolved(Result<(), String>),
    StartAnnounced,
    SearchDone(Result<(), String>),
    CompletionAnnounced,
}

pub enum SearchCallAction {
    ResolveProvider,
    ResolveAuth,
    AnnounceStarted(WebSearchItem),
    RunSearch { request_id: String, commands: SearchCommands, max_output_tokens: u64 },
    AnnounceCompleted(WebSearchItem),
    /// The call ends: `Ok` with the search's output, or with the error.
    Finish(Result<(), FunctionCallError>),
    /// The event does not belong to the state; nothing to do.
    Ignore,
}

/// The token budget of a search response: the call's budget as a `u64`
/// (a `usize` always fits).
pub fn max_output_tokens(token_budget: usize) -> (r: u64)
    ensures
        r == token_budget,
{
    token_budget as u64
}

/// Starts a call from its parsed commands: a refused command set ends the
/// call with that error; otherwise the provider is resolved first.
pub fn start_search_call(
    session_id: &str,
    call_id: &str,
    commands: Result<SearchCommands, FunctionCallError>,
    token_budget: usize,
) -> (r: (SearchCallState, SearchCallAction))
    ensures
        match commands {
            Err(e) => r == (SearchCallState::Finished, SearchCallAction::Finish(Err(e))),
            Ok(c) => {
                &&& r.1 is ResolveProvider
                &&& r.0 matches SearchCallState::ResolvingProvider(p)
                &&& p.session_id@ == session_id@
                &&& p.call_id@ == call_id@
                &&& p.commands == c
                &&& p.action@ == spec_command_action(c)
                &&& p.max_output_tokens == token_budget
            },
        },
{
    match commands {
        Err(e) => (SearchCallState::Finished, SearchCallAction::Finish(Err(e))),
        Ok(c) => {
            let action = command_action(&c);
            let plan = SearchPlan {
                session_id: session_id.to_owned(),
                call_id: call_id.to_owned(),
                commands: c,
                action,
                max_output_tokens: max_output_tokens(token_budget),
            };
            (SearchCallState::ResolvingProvider(plan), SearchCallAction::ResolveProvider)
        },
    }
}

pub open spec fn spec_step(state: SearchCallState, event: SearchCallEvent) -> (SearchCallState, SearchCallAction) {
    match (state, event) {
        (SearchCallState::ResolvingProvider(p), SearchCallEvent::ProviderResolved(Ok(()))) =>
            (SearchCallState::ResolvingAuth(p), SearchCallAction::ResolveAuth),
        (SearchCallState::ResolvingProvider(p), SearchCallEvent::ProviderResolved(Err(m))) =>
            (SearchCallState::Finished, SearchCallAction::Finish(Err(FunctionCallError::Fatal(m)))),
        (SearchCallState::ResolvingAuth(p), SearchCallEvent::AuthResolved(Ok(()))) => (
            SearchCallState::AnnouncingStart(p),
            SearchCallAction::AnnounceStarted(WebSearchItem { id: p.call_id, action: WebSearchAction::Other }),
        ),
        (SearchCallState::ResolvingAuth(p), SearchCallEvent::AuthResolved(Err(m))) =>
            (SearchCallState::Finished, SearchCallAction::Finish(Err(FunctionCallError::Fatal(m)))),
        (SearchCallState::AnnouncingStart(p), SearchCallEvent::StartAnnounced) => (
            SearchCallState::Searching { call_id: p.call_id, action: p.action },
            SearchCallAction::RunSearch {
                request_id: p.session_id,
                commands: p.commands,
                max_output_tokens: p.max_output_tokens,
            },
        ),
        (SearchCallState::Searching { call_id, action }, SearchCallEvent::SearchDone(Ok(()))) => (
            SearchCallState::AnnouncingCompletion,
            SearchCallAction::AnnounceCompleted(WebSearchItem { id: call_id, action }),
        ),
        (SearchCallState::Searching { call_id, action }, SearchCallEvent::SearchDone(Err(m))) =>
            (SearchCallState::Finished, SearchCallAction::Finish(Err(FunctionCallError::Fatal(m)))),
        (SearchCallState::AnnouncingCompletion, SearchCallEvent::CompletionAnnounced) =>
            (SearchCallState::Finished, SearchCallAction::Finish(Ok(()))),
        (s, _) => (s, SearchCallAction::Ignore),
    }
}

/// Advances a call by the outcome of its last action.
pub fn step_search_call(state: SearchCallState, event: SearchCallEvent) -> (r: (SearchCallState, SearchCallAction))
    ensures
        r == spec_step(state, event),
{
    match state {
        SearchCallState::ResolvingProvider(p) => match event {
            SearchCallEvent::ProviderResolved(Ok(())) => (SearchCallState::ResolvingAuth(p), SearchCallAction::ResolveAuth),
            SearchCallEvent::ProviderResolved(Err(m)) =>
                (SearchCallState::Finished, SearchCallAction::Finish(Err(FunctionCallError::Fatal(m)))),
            _ => (SearchCallState::ResolvingProvider(p), SearchCallAction::Ignore),
        },
        SearchCallState::ResolvingAuth(p) => match event {
            SearchCallEvent::AuthResolved(Ok(())) => {
                let item = WebSearchItem { id: p.call_id.clone(), action: WebSearchAction::Other };
                (SearchCallState::AnnouncingStart(p), SearchCallAction::AnnounceStarted(item))
            },
            SearchCallEvent::AuthResolved(Err(m)) =>
                (SearchCallState::Finished, SearchCallAction::Finish(Err(FunctionCallError::Fatal(m)))),
            _ => (SearchCallState::ResolvingAuth(p), SearchCallAction::Ignore),
        },
        SearchCallState::AnnouncingStart(p) => match event {
            SearchCallEvent::StartAnnounced => (
                SearchCallState::Searching { call_id: p.call_id, action: p.action },
                SearchCallAction::RunSearch {
                    request_id: p.session_id,
                    commands: p.commands,
                    max_output_tokens: p.max_output_tokens,
                },
            ),
            _ => (SearchCallState::AnnouncingStart(p), SearchCallAction::Ignore),
        },
        SearchCallState::Searching { call_id, action } => match event {
            SearchCallEvent::SearchDone(Ok(())) =>
                (SearchCallState::AnnouncingCompletion, SearchCallAction::AnnounceCompleted(WebSearchItem { id: call_id, action })),
            SearchCallEvent::SearchDone(Err(m)) =>
                (SearchCallState::Finished, SearchCallAction::Finish(Err(FunctionCallError::Fatal(m)))),
            _ => (SearchCallState::Searching { call_id, action }, SearchCallAction::Ignore),
        },
        SearchCallState::AnnouncingCompletion => match event {
            SearchCallEvent::CompletionAnnounced => (SearchCallState::Finished, SearchCallAction::Finish(Ok(()))),
            _ => (SearchCallState::AnnouncingCompletion, SearchCallAction::Ignore),
        },
        SearchCallState::Finished => (SearchCallState::Finished, SearchCallAction::Ignore),
    }
}

/// A call whose every step succeeds announces itself as `Other`, runs the
/// search with its session id, commands and budget, announces the action its
/// commands stand for, and finishes successfully.
pub proof fn law_successful_call_reports_its_action(p: SearchPlan)
    ensures
        ({
            let s1 = spec_step(SearchCallState::ResolvingProvider(p), SearchCallEvent::ProviderResolved(Ok(())));
            let s2 = spec_step(s1.0, SearchCallEvent::AuthResolved(Ok(())));
            let s3 = spec_step(s2.0, SearchCallEvent::StartAnnounced);
            let s4 = spec_step(s3.0, SearchCallEvent::SearchDone(Ok(())));
            let s5 = spec_step(s4.0, SearchCallEvent::CompletionAnnounced);
            &&& s1.1 is ResolveAuth
            &&& s2.1 == SearchCallAction::AnnounceStarted(WebSearchItem { id: p.call_id, action: WebSearchAction::Other })
            &&& s3.1 == (SearchCallAction::RunSearch {
                request_id: p.session_id,
                commands: p.commands,
                max_output_tokens: p.max_output_tokens,
            })
            &&& s4.1 == SearchCallAction::AnnounceCompleted(WebSearchItem { id: p.call_id, action: p.action })
            &&& s5.0 is Finished
            &&& s5.1 == SearchCallAction::Finish(Ok(()))
        }),
{
}

/// A failure of the provider, of the credentials or of the search ends the
/// call with a fatal error that carries the failure's message.
pub proof fn law_failures_are_fatal(p: SearchPlan, call_id: String, action: WebSearchAction, m: String)
    ensures
        spec_step(SearchCallState::ResolvingProvider(p), SearchCallEvent::ProviderResolved(Err(m)))
            == (SearchCallState::Finished, SearchCallAction::Finish(Err(FunctionCallError::Fatal(m)))),
        spec_step(SearchCallState::ResolvingAuth(p), SearchCallEvent::AuthResolved(Err(m)))
            == (SearchCallState::Finished, SearchCallAction::Finish(Err(FunctionCallError::Fatal(m)))),
        spec_step(SearchCallState::Searching { call_id, action }, SearchCallEvent::SearchDone(Err(m)))
            == (SearchCallState::Finished, SearchCallAction::Finish(Err(FunctionCallError::Fatal(m)))),
{
}

/// A finished call stays finished and asks for nothing more.
pub proof fn law_finished_is_final(e: SearchCallEvent)
    ensures
        spec_step(SearchCallState::Finished, e) == (SearchCallState::Finished, SearchCallAction::Ignore),
{
}

} // verus!
