use llmcord::chunk::{chunk_message, MESSAGE_CHUNK_SIZE};
use llmcord::render::{RemoteAction, RenderSession};

#[test]
fn growing_buffer_packs_into_three_chunks() {
    let text = "Hello world, this is a test.";
    let (mut session, _) = RenderSession::new(7, 5, "Generating...", 0, 10, 0);
    let mut now = 0;
    let mut buffer = String::new();
    for c in text.chars() {
        buffer.push(c);
        now += 1;
        session.update(&buffer, now);
    }
    let chunks: Vec<&str> = session.chunks.iter().map(|c| c.as_str()).collect();
    assert_eq!(chunks, vec!["Hello", "world, this", "is a test."]);
    let contents: Vec<&str> = session.messages.iter().map(|m| m.content.as_str()).collect();
    assert_eq!(contents, vec!["Hello", "world, this", "is a test."]);
}

#[test]
fn chunk_message_scenario() {
    assert_eq!(
        chunk_message("Hello world, this is a test.", 10),
        vec!["Hello", "world, this", "is a test."]
    );
}

#[test]
fn rejoined_chunks_normalize_spaces() {
    let text = "  alpha   beta gamma  delta epsilon   ";
    let chunks = chunk_message(text, 8);
    assert_eq!(chunks.join(" "), "alpha beta gamma delta epsilon");
    assert!(chunks.len() > 1);
}

#[test]
fn line_breaks_stay_inside_words() {
    let chunks = chunk_message("**q** (*m*)\nanswer here", 1500);
    assert_eq!(chunks, vec!["**q** (*m*)\nanswer here"]);
}

#[test]
fn oversized_word_is_a_chunk_of_its_own() {
    let chunks = chunk_message("ab abcdefghijkl cd", 5);
    assert_eq!(chunks, vec!["ab", "abcdefghijkl", "cd"]);
}

#[test]
fn chunk_bound_counts_word_characters() {
    for chunk in chunk_message("aa bb cc dd ee ff gg hh ii", 4) {
        let letters: usize = chunk.split(' ').map(|w| w.chars().count()).sum();
        assert!(letters <= 4);
    }
}

#[test]
fn text_without_words_gives_one_empty_chunk() {
    assert_eq!(chunk_message("", 10), vec![""]);
    assert_eq!(chunk_message("    ", 10), vec![""]);
}

#[test]
fn exact_fit_stays_in_one_chunk() {
    assert_eq!(chunk_message("abcde fghij", 10), vec!["abcde fghij"]);
    assert_eq!(chunk_message("abcde fghijk", 10), vec!["abcde", "fghijk"]);
}

#[test]
fn default_chunk_size_splits_long_text() {
    let word = "abcdefghij";
    let text = vec![word; 200].join(" ");
    let chunks = chunk_message(&text, MESSAGE_CHUNK_SIZE);
    assert_eq!(chunks.len(), 2);
    assert_eq!(chunks[0], vec![word; 150].join(" "));
    assert_eq!(chunks[1], vec![word; 50].join(" "));
}

#[test]
fn update_before_interval_does_not_sync() {
    let (mut session, _) = RenderSession::new(1, 2, "Generating...", 1000, 10, 0);
    let plan = session.update("some text", 500);
    assert!(plan.is_empty());
    assert_eq!(session.chunks, vec!["some text"]);
    assert_eq!(session.messages[0].content, "Generating...");
    let plan = session.update("some text", 1001);
    assert_eq!(plan.len(), 1);
    assert!(matches!(&plan[0], RemoteAction::Edit { index: 0, content } if content == "some text"));
    assert_eq!(session.last_sync_ms, 1001);
}

#[test]
fn chunks_keep_every_letter_in_order() {
    let text = " the  quick\nbrown   fox jumps over the lazy dog ";
    let chunks = chunk_message(text, 7);
    let joined: String = chunks.concat().chars().filter(|c| *c != ' ').collect();
    let expected: String = text.chars().filter(|c| *c != ' ').collect();
    assert_eq!(joined, expected);
}
