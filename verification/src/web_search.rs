//! The web-search tool's command handling: which commands a deployment
//! accepts, and how a command set is summarised as a web-search action.

use vstd::prelude::*;
use crate::text::{is_blank, is_blank_text};

verus! {

/// One query of a `search_query` or `image_query` command.
#[derive(Clone, Debug, PartialEq)]
pub struct SearchQuery {
    pub q: String,
    pub recency: Option<u64>,
    pub domains: Option<Vec<String>>,
}

#[derive(Clone, Copy, Debug, PartialEq, Eq, Structural)]
pub enum SearchResponseLength {
    Short,
    Medium,
    Long,
}

/// One page to open.
#[derive(Clone, Debug, PartialEq)]
pub struct OpenOperation {
    pub ref_id: String,
    pub lineno: Option<u64>,
}

/// One pattern to find in a page.
#[derive(Clone, Debug, PartialEq)]
pub struct FindOperation {
    pub ref_id: String,
    pub pattern: String,
}

/// The commands of one `web.run` call. Commands that this library never
/// inspects are kept as raw JSON values.
#[derive(Clone, Debug, PartialEq)]
pub struct SearchCommands {
    pub search_query: Option<Vec<SearchQuery>>,
    pub image_query: Option<Vec<SearchQuery>>,
    pub open: Option<Vec<OpenOperation>>,
    pub click: Option<Vec<serde_json::Value>>,
    pub find: Option<Vec<FindOperation>>,
    pub screenshot: Option<Vec<serde_json::Value>>,
    pub finance: Option<Vec<serde_json::Value>>,
    pub weather: Option<Vec<serde_json::Value>>,
    pub sports: Option<Vec<serde_json::Value>>,
    pub time: Option<Vec<serde_json::Value>>,
    pub response_length: Option<SearchResponseLength>,
}

/// A command set with no command at all.
pub open spec fn no_commands() -> SearchCommands {
    SearchCommands {
        search_query: None,
        image_query: None,
        open: None,
        click: None,
        find: None,
        screenshot: None,
        finance: None,
        weather: None,
        sports: None,
        time: None,
        response_length: None,
    }
}

impl Default for SearchCommands {
    fn default() -> (r: SearchCommands)
        ensures
            r == no_commands(),
    {
        SearchCommands {
            search_query: None,
            image_query: None,
            open: None,
            click: None,
            find: None,
            screenshot: None,
            finance: None,
            weather: None,
            sports: None,
            time: None,
            response_length: None,
        }
    }
}

/// The error a tool call ends with.
#[derive(Clone, Debug, PartialEq)]
pub enum FunctionCallError {
    /// Reported back to the model, which may retry.
    RespondToModel(String),
    /// Ends the turn.
    Fatal(String),
}

impl FunctionCallError {
    /// The error's message: the text itself for `RespondToModel`, and the text
    /// after `Fatal error: ` for `Fatal`.
    pub fn to_string(&self) -> (r: String)
        ensures
            match self {
                FunctionCallError::RespondToModel(m) => r@ == m@,
                FunctionCallError::Fatal(m) => r@ == "Fatal error: "@ + m@,
            },
    {
        match self {
            FunctionCallError::RespondToModel(m) => m.clone(),
            FunctionCallError::Fatal(m) => {
                let mut s = "Fatal error: ".to_owned();
                s.append(m.as_str());
                s
            },
        }
    }
}

/// The text that refuses a command set without a search query.
pub open spec fn unsupported_commands_text() -> Seq<char> {
    "This deployment only supports web.run search_query. Retry with a search_query request; do not use other web.run commands, shell commands, curl, browser scraping, or an external browser."@
}

fn unsupported_commands_message() -> (r: String)
    ensures
        r@ == unsupported_commands_text(),
{
    "This deployment only supports web.run search_query. Retry with a search_query request; do not use other web.run commands, shell commands, curl, browser scraping, or an external browser.".to_owned()
}

/// The commands with everything but `search_query` and `response_length` removed.
pub open spec fn kept_commands(c: SearchCommands) -> SearchCommands {
    SearchCommands {
        search_query: c.search_query,
        image_query: None,
        open: None,
        click: None,
        find: None,
        screenshot: None,
        finance: None,
        weather: None,
        sports: None,
        time: None,
        response_length: c.response_length,
    }
}

/// Every command other than `search_query` and `response_length` is absent.
pub open spec fn only_search_commands(c: SearchCommands) -> bool {
    &&& c.image_query is None
    &&& c.open is None
    &&& c.click is None
    &&& c.find is None
    &&& c.screenshot is None
    &&& c.finance is None
    &&& c.weather is None
    &&& c.sports is None
    &&& c.time is None
}

/// Cutting a command set down removes every command other than
/// `search_query` and `response_length`, and keeps those two as they were.
pub proof fn law_cut_down_keeps_only_search(c: SearchCommands)
    ensures
        only_search_commands(kept_commands(c)),
        kept_commands(c).search_query == c.search_query,
        kept_commands(c).response_length == c.response_length,
{
}

/// A command set is served when it holds a non-empty `search_query` or asks
/// for a response length.
pub open spec fn commands_accepted(c: SearchCommands) -> bool {
    (c.search_query matches Some(v) && v@.len() > 0) || c.response_length is Some
}

/// Removes every command but `search_query` and `response_length`, and
/// refuses the set (with a message for the model) when nothing servable is left.
pub fn keep_search_query_commands_only(commands: &mut SearchCommands) -> (r: Result<(), FunctionCallError>)
    ensures
        *final(commands) == kept_commands(*old(commands)),
        only_search_commands(*final(commands)),
        final(commands).search_query == old(commands).search_query,
        final(commands).response_length == old(commands).response_length,
        r is Ok == commands_accepted(*old(commands)),
        r matches Err(e) ==> (e matches FunctionCallError::RespondToModel(m) && m@ == unsupported_commands_text()),
{
    let has_search_query = match &commands.search_query {
        Some(queries) => queries.len() > 0,
        None => false,
    };
    commands.image_query = None;
    commands.open = None;
    commands.click = None;
    commands.find = None;
    commands.screenshot = None;
    commands.finance = None;
    commands.weather = None;
    commands.sports = None;
    commands.time = None;
    if has_search_query || commands.response_length.is_some() {
        return Ok(());
    }
    Err(FunctionCallError::RespondToModel(unsupported_commands_message()))
}

/// Turns the arguments of a `web.run` call into the commands to run. Blank
/// arguments mean no commands; otherwise `parsed` is what the JSON parse of
/// the arguments gave (the commands, or the parser's message), and the parsed
/// commands are cut down by `keep_search_query_commands_only`.
pub fn parse_commands(arguments: &str, parsed: Result<SearchCommands, String>) -> (r: Result<SearchCommands, FunctionCallError>)
    ensures
        is_blank_text(arguments@) ==> r == Ok::<SearchCommands, FunctionCallError>(no_commands()),
        !is_blank_text(arguments@) ==> match parsed {
            Err(m) => r matches Err(e) && e matches FunctionCallError::RespondToModel(t) && t@ == m@,
            Ok(c) => {
                &&& r is Ok == commands_accepted(c)
                &&& r matches Ok(d) ==> d == kept_commands(c)
                &&& r matches Ok(d) ==> only_search_commands(d) && d.search_query == c.search_query
                    && d.response_length == c.response_length
                &&& r matches Err(e) ==> (e matches FunctionCallError::RespondToModel(t) && t@ == unsupported_commands_text())
            },
        },
{
    if is_blank(arguments) {
        return Ok(SearchCommands::default());
    }
    match parsed {
        Err(message) => Err(FunctionCallError::RespondToModel(message)),
        Ok(commands) => {
            let mut commands = commands;
            match keep_search_query_commands_only(&mut commands) {
                Ok(()) => Ok(commands),
                Err(e) => Err(e),
            }
        },
    }
}

/// What a web-search call is reported as doing.
#[derive(Clone, Debug, PartialEq, Eq)]
pub enum WebSearchAction {
    Search { query: Option<String>, queries: Option<Vec<String>> },
    OpenPage { url: Option<String> },
    FindInPage { url: Option<String>, pattern: Option<String> },
    Other,
}

/// The abstract value of a `WebSearchAction`.
pub enum ActionModel {
    Search(Option<Seq<char>>, Option<Seq<Seq<char>>>),
    OpenPage(Option<Seq<char>>),
    FindInPage(Option<Seq<char>>, Option<Seq<char>>),
    Other,
}

pub open spec fn opt_text(s: Option<String>) -> Option<Seq<char>> {
    match s {
        Some(x) => Some(x@),
        None => None,
    }
}

pub open spec fn texts(v: Seq<String>) -> Seq<Seq<char>> {
    v.map_values(|s: String| s@)
}

impl View for WebSearchAction {
    type V = ActionModel;

    open spec fn view(&self) -> ActionModel {
        match self {
            WebSearchAction::Search { query, queries } => ActionModel::Search(
                opt_text(*query),
                match queries {
                    Some(v) => Some(texts(v@)),
                    None => None,
                },
            ),
            WebSearchAction::OpenPage { url } => ActionModel::OpenPage(opt_text(*url)),
            WebSearchAction::FindInPage { url, pattern } => ActionModel::FindInPage(opt_text(*url), opt_text(*pattern)),
            WebSearchAction::Other => ActionModel::Other,
        }
    }
}

pub open spec fn opt_action_view(a: Option<WebSearchAction>) -> Option<ActionModel> {
    match a {
        Some(x) => Some(x@),
        None => None,
    }
}

pub open spec fn query_texts(qs: Seq<SearchQuery>) -> Seq<Seq<char>> {
    qs.map_values(|q: SearchQuery| q.q@)
}

/// No queries: no action; one query: a search for it; several: a search for all of them.
pub open spec fn spec_query_action(qs: Seq<Seq<char>>) -> Option<ActionModel> {
    if qs.len() == 0 {
        None
    } else if qs.len() == 1 {
        Some(ActionModel::Search(Some(qs[0]), None))
    } else {
        Some(ActionModel::Search(None, Some(qs)))
    }
}

/// The search action that a list of queries stands for.
pub fn query_action(queries: &[SearchQuery]) -> (r: Option<WebSearchAction>)
    ensures
        opt_action_view(r) == spec_query_action(query_texts(queries@)),
{
    if queries.len() == 0 {
        None
    } else if queries.len() == 1 {
        Some(WebSearchAction::Search { query: Some(queries[0].q.clone()), queries: None })
    } else {
        let mut all: Vec<String> = Vec::new();
        let mut i: usize = 0;
        while i < queries.len()
            invariant
                i <= queries@.len(),
                texts(all@) == query_texts(queries@).take(i as int),
            decreases queries@.len() - i,
        {
            let ghost before = all@;
            all.push(queries[i].q.clone());
            assert(texts(all@) =~= texts(before).push(queries@[i as int].q@));
            assert(query_texts(queries@).take(i + 1) =~= query_texts(queries@).take(i as int).push(queries@[i as int].q@));
            i = i + 1;
        }
        assert(query_texts(queries@).take(queries@.len() as int) =~= query_texts(queries@));
        Some(WebSearchAction::Search { query: None, queries: Some(all) })
    }
}

/// What `url::Url::parse` decides for `text`: whether it is an absolute URL.
pub uninterp spec fn url_parses(text: Seq<char>) -> bool;

/// Calls `url::Url::parse` and keeps only whether it succeeded. Claimed: the
/// answer is `url_parses` of the text.
#[verifier::external_body]
fn parses_as_url(text: &str) -> (r: bool)
    ensures
        r == url_parses(text@),
{
    url::Url::parse(text).is_ok()
}

pub open spec fn spec_literal_url(ref_id: Seq<char>) -> Option<Seq<char>> {
    if url_parses(ref_id) { Some(ref_id) } else { None }
}

/// A page reference as a URL, when it is one (rather than, say, a reference
/// to an earlier search result).
pub fn literal_url(ref_id: &str) -> (r: Option<String>)
    ensures
        opt_text(r) == spec_literal_url(ref_id@),
{
    if parses_as_url(ref_id) {
        Some(ref_id.to_owned())
    } else {
        None
    }
}

pub open spec fn search_action_of(queries: Option<Vec<SearchQuery>>) -> Option<ActionModel> {
    match queries {
        Some(v) => spec_query_action(query_texts(v@)),
        None => None,
    }
}

pub open spec fn open_action_of(open: Option<Vec<OpenOperation>>) -> Option<ActionModel> {
    match open {
        Some(v) => if v@.len() > 0 && url_parses(v@[0].ref_id@) {
            Some(ActionModel::OpenPage(Some(v@[0].ref_id@)))
        } else {
            None
        },
        None => None,
    }
}

pub open spec fn find_action_of(find: Option<Vec<FindOperation>>) -> Option<ActionModel> {
    match find {
        Some(v) => if v@.len() > 0 {
            Some(ActionModel::FindInPage(spec_literal_url(v@[0].ref_id@), Some(v@[0].pattern@)))
        } else {
            None
        },
        None => None,
    }
}

/// The action a command set is reported as: its search queries, else its
/// image queries, else opening its first page when that is a URL, else
/// finding in its first page, else `Other`.
pub open spec fn spec_command_action(c: SearchCommands) -> ActionModel {
    if let Some(a) = search_action_of(c.search_query) {
        a
    } else if let Some(a) = search_action_of(c.image_query) {
        a
    } else if let Some(a) = open_action_of(c.open) {
        a
    } else if let Some(a) = find_action_of(c.find) {
        a
    } else {
        ActionModel::Other
    }
}

/// No query in the list (absent or empty).
pub open spec fn no_queries(queries: Option<Vec<SearchQuery>>) -> bool {
    match queries {
        Some(v) => v@.len() == 0,
        None => true,
    }
}

/// No page to open whose reference is a URL.
pub open spec fn no_url_to_open(open: Option<Vec<OpenOperation>>) -> bool {
    match open {
        Some(v) => v@.len() == 0 || !url_parses(v@[0].ref_id@),
        None => true,
    }
}

/// The reported action follows the commands in this order, each taken from
/// its first element: one search query is searched for, several are all
/// searched for; the same for image queries when there is no search query;
/// then the first page to open, when its reference is a URL; then the first
/// find operation, with its reference as URL when it is one, and its
/// pattern; otherwise `Other`.
pub proof fn law_command_action_order(c: SearchCommands)
    ensures
        c.search_query is Some && c.search_query->0@.len() == 1 ==>
            spec_command_action(c) == ActionModel::Search(Some(c.search_query->0@[0].q@), None),
        c.search_query is Some && c.search_query->0@.len() > 1 ==>
            spec_command_action(c) == ActionModel::Search(None, Some(c.search_query->0@.map_values(|q: SearchQuery| q.q@))),
        no_queries(c.search_query) && c.image_query is Some && c.image_query->0@.len() == 1 ==>
            spec_command_action(c) == ActionModel::Search(Some(c.image_query->0@[0].q@), None),
        no_queries(c.search_query) && c.image_query is Some && c.image_query->0@.len() > 1 ==>
            spec_command_action(c) == ActionModel::Search(None, Some(c.image_query->0@.map_values(|q: SearchQuery| q.q@))),
        no_queries(c.search_query) && no_queries(c.image_query) && !no_url_to_open(c.open) ==>
            spec_command_action(c) == ActionModel::OpenPage(Some(c.open->0@[0].ref_id@)),
        no_queries(c.search_query) && no_queries(c.image_query) && no_url_to_open(c.open) && c.find is Some
            && c.find->0@.len() > 0 && url_parses(c.find->0@[0].ref_id@) ==>
            spec_command_action(c) == ActionModel::FindInPage(Some(c.find->0@[0].ref_id@), Some(c.find->0@[0].pattern@)),
        no_queries(c.search_query) && no_queries(c.image_query) && no_url_to_open(c.open) && c.find is Some
            && c.find->0@.len() > 0 && !url_parses(c.find->0@[0].ref_id@) ==>
            spec_command_action(c) == ActionModel::FindInPage(None, Some(c.find->0@[0].pattern@)),
        no_queries(c.search_query) && no_queries(c.image_query) && no_url_to_open(c.open)
            && (c.find is None || c.find->0@.len() == 0) ==> spec_command_action(c) == ActionModel::Other,
{
}

/// Summarises a command set as the web-search action shown for the call.
pub fn command_action(commands: &SearchCommands) -> (r: WebSearchAction)
    ensures
        r@ == spec_command_action(*commands),
{
    if let Some(queries) = &commands.search_query {
        if let Some(action) = query_action(queries.as_slice()) {
            return action;
        }
    }
    if let Some(queries) = &commands.image_query {
        if let Some(action) = query_action(queries.as_slice()) {
            return action;
        }
    }
    if let Some(operations) = &commands.open {
        if operations.len() > 0 {
            if let Some(url) = literal_url(operations[0].ref_id.as_str()) {
                return WebSearchAction::OpenPage { url: Some(url) };
            }
        }
    }
    if let Some(operations) = &commands.find {
        if operations.len() > 0 {
            return WebSearchAction::FindInPage {
                url: literal_url(operations[0].ref_id.as_str()),
                pattern: Some(operations[0].pattern.clone()),
            };
        }
    }
    WebSearchAction::Other
}

/// The turn item that reports a web-search call.
#[derive(Clone, Debug, PartialEq, Eq)]
pub struct WebSearchItem {
    pub id: String,
    pub action: WebSearchAction,
}

/// The item for call `call_id` doing `action`.
pub fn web_search_item(call_id: &str, action: WebSearchAction) -> (r: WebSearchItem)
    ensures
        r.id@ == call_id@,
        r.action == action,
{
    WebSearchItem { id: call_id.to_owned(), action }
}

/// Cutting a command set down twice changes nothing more, and does not change
/// whether the set is served.
pub proof fn law_keep_is_idempotent(c: SearchCommands)
    ensures
        kept_commands(kept_commands(c)) == kept_commands(c),
        commands_accepted(kept_commands(c)) == commands_accepted(c),
{
}

/// Once cut down, a command set is reported as its search, or as `Other`
/// when it has no query.
pub proof fn law_kept_commands_report_search_or_other(c: SearchCommands)
    ensures
        spec_command_action(kept_commands(c)) == match search_action_of(c.search_query) {
            Some(a) => a,
            None => ActionModel::Other,
        },
{
}

/// A tool's name, within a namespace when it has one.
#[derive(Clone, Debug, PartialEq, Eq)]
pub struct ToolName {
    pub namespace: Option<String>,
    pub name: String,
}

/// The web-search tool of a session.
pub struct WebSearchTool {
    pub session_id: String,
}

impl WebSearchTool {
    /// The tool is `run` in the `web` namespace.
    pub fn tool_name(&self) -> (r: ToolName)
        ensures
            r.namespace matches Some(n) && n@ == "web"@,
            r.name@ == "run"@,
    {
        ToolName { namespace: Some("web".to_owned()), name: "run".to_owned() }
    }

    /// Calls of the tool may run in parallel with other tool calls.
    pub fn supports_parallel_tool_calls(&self) -> (r: bool)
        ensures
            r,
    {
        true
    }
}

} // verus!
