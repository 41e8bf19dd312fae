use codex_logic::web_search::command_action;
use codex_logic::web_search::keep_search_query_commands_only;
use codex_logic::web_search::literal_url;
use codex_logic::web_search::parse_commands;
use codex_logic::web_search::query_action;
use codex_logic::web_search::web_search_item;
use codex_logic::web_search::FindOperation;
use codex_logic::web_search::FunctionCallError;
use codex_logic::web_search::OpenOperation;
use codex_logic::web_search::SearchCommands;
use codex_logic::web_search::SearchQuery;
use codex_logic::web_search::SearchResponseLength;
use codex_logic::web_search::WebSearchAction;
use codex_logic::web_search::WebSearchTool;

fn query(q: &str) -> SearchQuery {
    SearchQuery { q: q.to_string(), recency: None, domains: None }
}

fn json(text: &str) -> serde_json::Value {
    serde_json::from_str(text).expect("valid JSON")
}

#[test]
fn command_action_reports_queries_and_navigation_detail() {
    let cases = [
        (
            SearchCommands {
                image_query: Some(vec![query("waterfalls"), query("mountains")]),
                ..SearchCommands::default()
            },
            WebSearchAction::Search {
                query: None,
                queries: Some(vec!["waterfalls".to_string(), "mountains".to_string()]),
            },
        ),
        (
            SearchCommands {
                open: Some(vec![OpenOperation { ref_id: "https://example.com/docs".to_string(), lineno: None }]),
                ..SearchCommands::default()
            },
            WebSearchAction::OpenPage { url: Some("https://example.com/docs".to_string()) },
        ),
        (
            SearchCommands {
                find: Some(vec![FindOperation {
                    ref_id: "https://example.com/docs".to_string(),
                    pattern: "install".to_string(),
                }]),
                ..SearchCommands::default()
            },
            WebSearchAction::FindInPage {
                url: Some("https://example.com/docs".to_string()),
                pattern: Some("install".to_string()),
            },
        ),
        (
            SearchCommands {
                find: Some(vec![FindOperation { ref_id: "turn0search0".to_string(), pattern: "install".to_string() }]),
                ..SearchCommands::default()
            },
            WebSearchAction::FindInPage { url: None, pattern: Some("install".to_string()) },
        ),
        (
            SearchCommands {
                open: Some(vec![OpenOperation { ref_id: "turn0search0".to_string(), lineno: None }]),
                ..SearchCommands::default()
            },
            WebSearchAction::Other,
        ),
    ];

    for (commands, expected) in cases {
        assert_eq!(command_action(&commands), expected);
    }
}

#[test]
fn keep_search_query_commands_only_strips_unsupported_mixed_commands() {
    let mut commands = SearchCommands {
        finance: Some(vec![json(r#"{"ticker":"BTC","type":"crypto","market":""}"#)]),
        sports: Some(vec![json(r#"{"fn":"standings","league":"ipl"}"#)]),
        search_query: Some(vec![SearchQuery {
            q: "FIFA World Cup latest news".to_string(),
            recency: Some(7),
            domains: None,
        }]),
        response_length: Some(SearchResponseLength::Short),
        ..SearchCommands::default()
    };

    keep_search_query_commands_only(&mut commands).expect("search query should be preserved");

    assert!(commands.search_query.is_some());
    assert_eq!(commands.response_length, Some(SearchResponseLength::Short));
    assert!(commands.finance.is_none());
    assert!(commands.sports.is_none());
}

#[test]
fn keep_search_query_commands_only_rejects_unsupported_without_query() {
    let mut commands = SearchCommands {
        finance: Some(vec![json(r#"{"ticker":"BTC","type":"crypto","market":""}"#)]),
        ..SearchCommands::default()
    };

    let error = keep_search_query_commands_only(&mut commands)
        .expect_err("unsupported commands without search_query should fail");

    assert!(error.to_string().contains("only supports web.run search_query"));
}

#[test]
fn response_length_alone_is_accepted_and_empty_query_list_is_not() {
    let mut commands = SearchCommands {
        response_length: Some(SearchResponseLength::Long),
        open: Some(vec![OpenOperation { ref_id: "https://example.com".to_string(), lineno: Some(3) }]),
        ..SearchCommands::default()
    };
    assert!(keep_search_query_commands_only(&mut commands).is_ok());
    assert!(commands.open.is_none());

    let mut commands = SearchCommands { search_query: Some(vec![]), ..SearchCommands::default() };
    assert!(matches!(
        keep_search_query_commands_only(&mut commands),
        Err(FunctionCallError::RespondToModel(_))
    ));
}

#[test]
fn query_action_by_number_of_queries() {
    assert_eq!(query_action(&[]), None);
    assert_eq!(
        query_action(&[query("rust")]),
        Some(WebSearchAction::Search { query: Some("rust".to_string()), queries: None })
    );
    assert_eq!(
        query_action(&[query("a"), query("b"), query("c")]),
        Some(WebSearchAction::Search {
            query: None,
            queries: Some(vec!["a".to_string(), "b".to_string(), "c".to_string()]),
        })
    );
}

#[test]
fn search_query_takes_precedence_over_other_commands() {
    let commands = SearchCommands {
        search_query: Some(vec![query("news")]),
        image_query: Some(vec![query("cats")]),
        open: Some(vec![OpenOperation { ref_id: "https://example.com".to_string(), lineno: None }]),
        ..SearchCommands::default()
    };
    assert_eq!(
        command_action(&commands),
        WebSearchAction::Search { query: Some("news".to_string()), queries: None }
    );
    let empty_search = SearchCommands {
        search_query: Some(vec![]),
        open: Some(vec![OpenOperation { ref_id: "https://example.com".to_string(), lineno: None }]),
        ..SearchCommands::default()
    };
    assert_eq!(
        command_action(&empty_search),
        WebSearchAction::OpenPage { url: Some("https://example.com".to_string()) }
    );
    assert_eq!(command_action(&SearchCommands::default()), WebSearchAction::Other);
}

#[test]
fn literal_url_keeps_only_absolute_urls() {
    assert_eq!(literal_url("https://example.com/a?b=c"), Some("https://example.com/a?b=c".to_string()));
    assert_eq!(literal_url("turn0search0"), None);
    assert_eq!(literal_url(""), None);
}

#[test]
fn parse_commands_handles_blank_errors_and_unsupported() {
    let blank = parse_commands("  \n ", Err("EOF while parsing".to_string())).expect("blank is fine");
    assert_eq!(blank, SearchCommands::default());

    let error = parse_commands("{", Err("EOF while parsing an object".to_string())).expect_err("bad JSON");
    assert_eq!(error, FunctionCallError::RespondToModel("EOF while parsing an object".to_string()));

    let parsed = SearchCommands {
        search_query: Some(vec![query("weather in Oslo")]),
        time: Some(vec![json(r#"{"utc_offset":"+01:00"}"#)]),
        ..SearchCommands::default()
    };
    let commands = parse_commands("{...}", Ok(parsed)).expect("search query accepted");
    assert!(commands.time.is_none());
    assert_eq!(commands.search_query, Some(vec![query("weather in Oslo")]));

    let refused = parse_commands(
        "{...}",
        Ok(SearchCommands { weather: Some(vec![json("{}")]), ..SearchCommands::default() }),
    );
    assert!(refused.unwrap_err().to_string().starts_with("This deployment only supports web.run search_query."));
}

#[test]
fn fatal_error_message() {
    assert_eq!(FunctionCallError::Fatal("boom".to_string()).to_string(), "Fatal error: boom");
    assert_eq!(FunctionCallError::RespondToModel("retry".to_string()).to_string(), "retry");
}

#[test]
fn item_and_tool_name() {
    let item = web_search_item("call-9", WebSearchAction::Other);
    assert_eq!(item.id, "call-9");
    assert_eq!(item.action, WebSearchAction::Other);
    let tool = WebSearchTool { session_id: "session".to_string() };
    let name = tool.tool_name();
    assert_eq!(name.namespace.as_deref(), Some("web"));
    assert_eq!(name.name, "run");
    assert!(tool.supports_parallel_tool_calls());
}

#[test]
fn tab_only_arguments_mean_no_commands() {
    let commands = parse_commands("\t", Err("expected value".to_string())).expect("blank arguments");
    assert_eq!(commands, SearchCommands::default());
}
