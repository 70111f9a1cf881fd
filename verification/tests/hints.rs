use std::path::PathBuf;

use chat_prompt::completion::{ChatCompleter, CompletionStep};
use chat_prompt::hint::{hint_from_found, ChatHinter};
use rustyline::history::{DefaultHistory, History, MemHistory};
use rustyline::Context;

fn hinter(history: bool) -> ChatHinter {
    ChatHinter::new(history, PathBuf::from("/tmp/history"), vec!["/agent", "/agent list", "/ébène"])
}

fn history(lines: &[&str]) -> DefaultHistory {
    let mut history = DefaultHistory::new();
    for line in lines {
        history.add(line).unwrap();
    }
    history
}

#[test]
fn history_path_is_kept() {
    assert_eq!(hinter(true).get_history_path(), PathBuf::from("/tmp/history"));
}

#[test]
fn empty_line_has_no_hint() {
    let history = history(&["hello"]);
    assert_eq!(hinter(true).hint("", 0, &Context::new(&history)), None);
}

#[test]
fn command_hint_is_rest_of_first_command() {
    let history = history(&["/agent delete"]);
    let ctx = Context::new(&history);
    assert_eq!(hinter(true).hint("/a", 2, &ctx), Some("gent".to_string()));
    assert_eq!(hinter(true).hint("/agent l", 8, &ctx), Some("ist".to_string()));
    assert_eq!(hinter(true).hint("/agent", 6, &ctx), Some("".to_string()));
    assert_eq!(hinter(true).hint("/agent d", 8, &ctx), None);
    assert_eq!(hinter(true).hint("/é", 3, &ctx), Some("bène".to_string()));
}

#[test]
fn hint_needs_cursor_at_end_in_bytes() {
    let history = history(&["état"]);
    let ctx = Context::new(&history);
    assert_eq!(hinter(true).hint("é", 1, &ctx), None);
    assert_eq!(hinter(true).hint("é", 2, &ctx), Some("tat".to_string()));
    assert_eq!(hinter(true).hint("é", 9, &ctx), Some("tat".to_string()));
}

#[test]
fn hint_at_end_is_what_is_found() {
    let history = history(&["how are you", "/agent delete"]);
    let ctx = Context::new(&history);
    for on in [true, false] {
        for line in ["", "h", "how", "how are you", "what", "/", "/agent", "/agent d", "/é"] {
            let found = hinter(on).find_hint(line, &ctx);
            assert_eq!(hinter(on).hint(line, line.len(), &ctx), found);
            assert_eq!(hinter(on).hint(line, line.len() + 1, &ctx), found);
        }
    }
    assert_eq!(hinter(true).find_hint("how", &ctx), Some(" are you".to_string()));
    assert_eq!(hinter(false).find_hint("how", &ctx), None);
}

#[test]
fn history_hint_is_rest_of_newest_entry() {
    let history = history(&["how old", "how are you", "what", "hello"]);
    let ctx = Context::new(&history);
    assert_eq!(hinter(true).hint("how", 3, &ctx), Some(" are you".to_string()));
    assert_eq!(hinter(true).hint("h", 1, &ctx), Some("ello".to_string()));
    assert_eq!(hinter(true).hint("how o", 5, &ctx), Some("ld".to_string()));
    assert_eq!(hinter(true).hint("ow", 2, &ctx), None);
    assert_eq!(hinter(true).hint("How", 3, &ctx), None);
}

#[test]
fn newest_entry_that_equals_line_gives_no_hint() {
    let history = history(&["hello there", "hello"]);
    assert_eq!(hinter(true).hint("hello", 5, &Context::new(&history)), None);
}

#[test]
fn history_in_memory_gives_hints() {
    let mut history = MemHistory::new();
    history.add("first line").unwrap();
    assert_eq!(hinter(true).hint("fi", 2, &Context::new(&history)), Some("rst line".to_string()));
}

#[test]
fn empty_history_gives_no_hint() {
    let history = history(&[]);
    assert_eq!(hinter(true).hint("hello", 5, &Context::new(&history)), None);
}

#[test]
fn history_hints_can_be_switched_off() {
    let history = history(&["hello there"]);
    let ctx = Context::new(&history);
    assert_eq!(hinter(false).find_hint("hello", &ctx), None);
    assert_eq!(hinter(true).find_hint("hello", &ctx), Some(" there".to_string()));
    assert_eq!(hinter(false).find_hint("/ag", &ctx), Some("ent".to_string()));
}

#[test]
fn accepted_hint_makes_entry() {
    let lines = ["write a poem", "write a test", "read"];
    let history = history(&lines);
    let ctx = Context::new(&history);
    let hint = hinter(true).find_hint("write", &ctx).unwrap();
    assert_eq!(format!("write{}", hint), lines[1]);
}

#[test]
fn entry_is_cut_by_bytes() {
    let found = |entry: &str| Ok(Some(entry.to_string()));
    assert_eq!(hint_from_found("ab", found("xyz")), Some("z".to_string()));
    assert_eq!(hint_from_found("é", found("xyz")), Some("z".to_string()));
    assert_eq!(hint_from_found("é", found("xy")), None);
    assert_eq!(hint_from_found("é", Ok(None)), None);
    assert_eq!(hint_from_found("é", Err(())), None);
}

#[test]
fn hint_agrees_with_completion() {
    let commands = vec!["/tools", "/tools trust", "/agent"];
    let history = history(&[]);
    let ctx = Context::new(&history);
    for line in ["/", "/t", "/tools", "/a", "/x"] {
        let hint = ChatHinter::new(false, PathBuf::new(), commands.clone()).hint(line, line.len(), &ctx);
        match ChatCompleter::new(commands.clone()).complete(line, line.len()) {
            CompletionStep::Done { start, completions } => {
                assert_eq!(start, 0);
                assert_eq!(hint.map(|h| format!("{}{}", line, h)), completions.first().cloned());
            },
            _ => panic!("a command"),
        }
    }
}
