use llmcord::cancel::authorize_cancel;
use llmcord::render::{RemoteAction, RenderSession, Terminal, CANCELLED_NOTICE};
use llmcord::session::Token;

fn cancel_flags(session: &RenderSession) -> Vec<bool> {
    session.messages.iter().map(|m| m.has_cancel).collect()
}

#[test]
fn new_session_attaches_cancel_to_placeholder() {
    let (session, plan) = RenderSession::new(42, 1001, "Generating...", 1000, 1500, 0);
    assert_eq!(plan.len(), 1);
    assert!(matches!(&plan[0], RemoteAction::AddCancel { index: 0, button_id } if button_id == "cancel#1001#42"));
    assert_eq!(session.button_id, "cancel#1001#42");
    assert_eq!(session.terminal, Terminal::Active);
    assert_eq!(cancel_flags(&session), vec![true]);
    assert_eq!(session.chunks, vec!["Generating..."]);
}

#[test]
fn sync_twice_issues_nothing_the_second_time() {
    let (mut session, _) = RenderSession::new(1, 2, "Generating...", 0, 5, 0);
    session.chunks = vec!["one".to_string(), "two".to_string(), "three".to_string()];
    let first = session.sync_messages_with_chunks();
    assert_eq!(first.len(), 5);
    assert!(matches!(&first[0], RemoteAction::Edit { index: 0, content } if content == "one"));
    assert!(matches!(&first[1], RemoteAction::RemoveCancel { index: 0 }));
    assert!(matches!(&first[2], RemoteAction::Reply { content } if content == "two"));
    assert!(matches!(&first[3], RemoteAction::Reply { content } if content == "three"));
    assert!(matches!(&first[4], RemoteAction::AddCancel { index: 2, .. }));
    let second = session.sync_messages_with_chunks();
    assert!(second.is_empty());
    assert_eq!(cancel_flags(&session), vec![false, false, true]);
}

#[test]
fn shrinking_text_deletes_trailing_messages() {
    let (mut session, _) = RenderSession::new(1, 2, "x", 0, 3, 0);
    session.update("aaa bbb ccc", 1);
    assert_eq!(session.messages.len(), 3);
    let plan = session.update("aaa", 2);
    assert_eq!(plan.len(), 3);
    assert!(matches!(&plan[0], RemoteAction::Delete { index: 2 }));
    assert!(matches!(&plan[1], RemoteAction::Delete { index: 1 }));
    assert!(matches!(&plan[2], RemoteAction::AddCancel { index: 0, .. }));
    assert_eq!(session.messages.len(), 1);
    assert_eq!(cancel_flags(&session), vec![true]);
}

#[test]
fn cancel_sits_on_last_message_only_while_active() {
    let (mut session, _) = RenderSession::new(1, 2, "x", 0, 4, 0);
    session.update("aaaa bbbb cccc", 1);
    assert_eq!(cancel_flags(&session), vec![false, false, true]);
    session.update("aaaa bbbb cccc dddd", 2);
    assert_eq!(cancel_flags(&session), vec![false, false, false, true]);
    session.finish();
    assert_eq!(session.terminal, Terminal::Finished);
    assert_eq!(cancel_flags(&session), vec![false, false, false, false]);
}

#[test]
fn finish_strips_cancel_then_flushes() {
    let (mut session, _) = RenderSession::new(1, 2, "Generating...", 1000, 1500, 0);
    session.update("final answer", 10);
    let plan = session.finish();
    assert_eq!(plan.len(), 2);
    assert!(matches!(&plan[0], RemoteAction::RemoveCancel { index: 0 }));
    assert!(matches!(&plan[1], RemoteAction::Edit { index: 0, content } if content == "final answer"));
    assert!(session.finish().is_empty());
    assert!(session.update("more", 5000).is_empty());
}

#[test]
fn error_strikes_through_and_replies() {
    let (mut session, _) = RenderSession::new(1, 2, "x", 0, 4, 0);
    session.update("aaaa bbbb", 1);
    let plan = session.error("boom");
    assert_eq!(plan.len(), 3);
    assert!(matches!(&plan[0], RemoteAction::StrikeThrough { index: 0, content } if content == "~~aaaa~~"));
    assert!(matches!(&plan[1], RemoteAction::StrikeThrough { index: 1, content } if content == "~~bbbb~~"));
    assert!(matches!(&plan[2], RemoteAction::Notice { content } if content == "boom"));
    assert_eq!(session.terminal, Terminal::Errored);
    assert_eq!(cancel_flags(&session), vec![false, false]);
    assert!(session.cancelled().is_empty());
    assert_eq!(session.terminal, Terminal::Errored);
}

#[test]
fn many_cancel_signals_cancel_once() {
    let (mut session, _) = RenderSession::new(9, 77, "x", 0, 10, 0);
    let plan = session.poll_cancel(&vec![5, 77, 77, 77]);
    assert_eq!(session.terminal, Terminal::Cancelled);
    let notices = plan.iter().filter(|a| matches!(a, RemoteAction::Notice { .. })).count();
    assert_eq!(notices, 1);
    assert!(matches!(plan.last(), Some(RemoteAction::Notice { content }) if content == CANCELLED_NOTICE));
    assert!(session.poll_cancel(&vec![77, 77]).is_empty());
    assert_eq!(session.terminal, Terminal::Cancelled);
}

#[test]
fn signals_for_other_sessions_do_nothing() {
    let (mut session, _) = RenderSession::new(9, 77, "x", 0, 10, 0);
    assert!(session.poll_cancel(&vec![1, 2, 3]).is_empty());
    assert_eq!(session.terminal, Terminal::Active);
}

#[test]
fn only_the_requester_may_cancel() {
    assert_eq!(authorize_cancel("cancel#77#9", 9), Some(77));
    assert_eq!(authorize_cancel("cancel#77#9", 10), None);
    assert_eq!(authorize_cancel("nope#77#9", 9), None);
}

#[test]
fn cancel_between_deltas_stops_the_render() {
    let (mut session, _) = RenderSession::new(9, 77, "x", 0, 1500, 0);
    session.on_token(&vec![], Token::Data("Hello".to_string()), 1);
    assert_eq!(session.messages[0].content, "Hello");
    let plan = session.on_token(&vec![77], Token::Data("Hello world".to_string()), 2);
    assert_eq!(session.terminal, Terminal::Cancelled);
    assert_eq!(session.chunks, vec!["Hello"]);
    assert!(matches!(&plan[0], RemoteAction::StrikeThrough { index: 0, content } if content == "~~Hello~~"));
    assert!(session.on_token(&vec![], Token::Data("Hello world again".to_string()), 3).is_empty());
    assert_eq!(session.chunks, vec!["Hello"]);
}

#[test]
fn error_token_ends_the_render() {
    let (mut session, _) = RenderSession::new(9, 77, "x", 0, 1500, 0);
    let plan = session.on_token(&vec![], Token::Error("model failed".to_string()), 1);
    assert_eq!(session.terminal, Terminal::Errored);
    assert!(matches!(plan.last(), Some(RemoteAction::Notice { content }) if content == "model failed"));
}
