use std::collections::HashSet;

use lsp_word::dispatch::{
    classify_notification, classify_request, Action, Event, NotificationKind, Phase, RequestKind,
    Server,
};
use lsp_word::engine::{complete, CompletionCandidate};
use lsp_word::store::DocumentStore;

fn labels(items: Vec<CompletionCandidate>) -> HashSet<String> {
    items.into_iter().map(|c| c.label).collect()
}

fn expect_completion(action: Action<i32>, id: i32) -> Vec<CompletionCandidate> {
    if let Action::SendCompletion { id: rid, items } = action {
        assert_eq!(rid, id);
        items
    } else {
        panic!("Expected a response message");
    }
}

#[test]
fn test_create_completion_response() {
    let uri = "file:///test".to_string();
    let mut server: Server = Server::new();
    server.handle::<i32>(Event::DidOpen {
        uri: uri.clone(),
        text: "fn main() { let test = 1; }".to_string(),
    });

    let kind = classify_request(&"textDocument/completion".to_string());
    assert!(matches!(kind, RequestKind::Completion));
    let action = server.handle(Event::CompletionRequest { id: 1, uri });
    let items = expect_completion(action, 1);
    assert!(!items.is_empty());
}

#[test]
fn upsert_then_get_returns_last_written_text() {
    let uri = "file:///doc".to_string();
    let mut docs = DocumentStore::new();
    docs.upsert(uri.clone(), "first version".to_string());
    docs.upsert(uri.clone(), "second version".to_string());
    assert_eq!(docs.get(&uri), Some(&"second version".to_string()));
}

#[test]
fn never_opened_document_is_not_found() {
    let docs = DocumentStore::new();
    let uri = "file:///never".to_string();
    assert_eq!(docs.get(&uri), None);
    assert!(complete(&uri, &docs).is_empty());
}

#[test]
fn completion_after_open() {
    let uri = "file:///scenario_a".to_string();
    let mut server: Server = Server::new();
    server.handle::<i32>(Event::DidOpen {
        uri: uri.clone(),
        text: "fn main() { let test = 1; }".to_string(),
    });
    let items = expect_completion(server.handle(Event::CompletionRequest { id: 7, uri }), 7);
    let expected: HashSet<String> =
        ["fn", "main", "let", "test"].iter().cloned().map(String::from).collect();
    assert_eq!(labels(items), expected);
}

#[test]
fn completion_skips_numbers_and_punctuation() {
    let uri = "file:///scenario_b".to_string();
    let mut server: Server = Server::new();
    server.handle::<i32>(Event::DidOpen {
        uri: uri.clone(),
        text: "let x1 = 42; // @#$%".to_string(),
    });
    let items = expect_completion(server.handle(Event::CompletionRequest { id: 2, uri }), 2);
    let expected: HashSet<String> = ["let", "x1"].iter().cloned().map(String::from).collect();
    assert_eq!(labels(items), expected);
}

#[test]
fn change_replaces_the_whole_text() {
    let uri = "file:///scenario_c".to_string();
    let mut server: Server = Server::new();
    server.handle::<i32>(Event::DidOpen {
        uri: uri.clone(),
        text: "alpha beta".to_string(),
    });
    server.handle::<i32>(Event::DidChange {
        uri: uri.clone(),
        text: "gamma delta".to_string(),
    });
    let items = expect_completion(server.handle(Event::CompletionRequest { id: 3, uri }), 3);
    let expected: HashSet<String> =
        ["gamma", "delta"].iter().cloned().map(String::from).collect();
    assert_eq!(labels(items), expected);
}

#[test]
fn completion_for_unknown_document_is_an_empty_response() {
    let mut server: Server = Server::new();
    let action = server.handle(Event::CompletionRequest {
        id: 4,
        uri: "file:///scenario_d".to_string(),
    });
    let items = expect_completion(action, 4);
    assert!(items.is_empty());
}

#[test]
fn shutdown_then_exit() {
    let mut server: Server = Server::new();
    assert_eq!(server.phase(), Phase::Serving);
    let action = server.handle::<i32>(Event::ShutdownRequest { id: 9 });
    assert!(matches!(action, Action::AcknowledgeShutdown { id: 9 }));
    assert_eq!(server.phase(), Phase::ShuttingDown);
    let action = server.handle::<i32>(Event::Exit);
    assert!(matches!(action, Action::Stop));
    assert_eq!(server.phase(), Phase::Exited);
}

#[test]
fn unrecognized_messages_are_ignored() {
    let mut server: Server = Server::new();
    let action = server.handle::<i32>(Event::Unrecognized);
    assert!(matches!(action, Action::Proceed));
    assert_eq!(server.phase(), Phase::Serving);
}

#[test]
fn method_names_are_classified_exactly() {
    assert!(matches!(
        classify_request(&"textDocument/completion".to_string()),
        RequestKind::Completion
    ));
    assert!(matches!(classify_request(&"shutdown".to_string()), RequestKind::Shutdown));
    assert!(matches!(
        classify_request(&"textDocument/didOpen".to_string()),
        RequestKind::Unrecognized
    ));
    assert!(matches!(
        classify_notification(&"textDocument/didOpen".to_string()),
        NotificationKind::DidOpen
    ));
    assert!(matches!(
        classify_notification(&"textDocument/didChange".to_string()),
        NotificationKind::DidChange
    ));
    assert!(matches!(classify_notification(&"exit".to_string()), NotificationKind::Exit));
    assert!(matches!(
        classify_notification(&"window/logMessage".to_string()),
        NotificationKind::Unrecognized
    ));
}
