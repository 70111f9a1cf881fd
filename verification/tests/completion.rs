use chat_prompt::commands::{complete_command, get_available_commands, COMMANDS};
use chat_prompt::completion::{
    ChatCompleter, CompletionStep, Pair, PathCompleter, PromptAction, PromptCompleter, PromptError, PromptQuery,
    PromptQueryResult, MAX_ATTEMPTS,
};
use chat_prompt::settings::Os;

fn os_with(experiment_commands: Vec<&'static str>) -> Os {
    Os {
        experiment_commands,
        delegate_enabled: false,
        chat_edit_mode: None,
        chat_enable_history_hints: None,
        delegate_mode_key: None,
        autocompletion_key: None,
        tangent_mode_key: None,
    }
}

fn completer() -> ChatCompleter {
    ChatCompleter::new(get_available_commands(&os_with(vec![])))
}

fn done(step: CompletionStep) -> (usize, Vec<String>) {
    match step {
        CompletionStep::Done { start, completions } => (start, completions),
        _ => panic!("not done"),
    }
}

fn paths_start(step: CompletionStep) -> usize {
    match step {
        CompletionStep::AskPaths { start } => start,
        _ => panic!("paths are not next"),
    }
}

fn finish(action: PromptAction) -> Result<Vec<String>, String> {
    match action {
        PromptAction::Finish(Ok(completions)) => Ok(completions),
        PromptAction::Finish(Err(e)) => Err(e.message()),
        PromptAction::Pause(_) => panic!("another attempt is due"),
    }
}

#[test]
fn available_commands_are_sorted_as_strings() {
    let commands = get_available_commands(&os_with(vec!["/zoo", "/Zoo", "/éclair", "/a"]));
    let mut expected: Vec<&'static str> = COMMANDS.to_vec();
    expected.extend(["/zoo", "/Zoo", "/éclair", "/a"]);
    expected.sort();
    assert_eq!(commands, expected);
    assert_eq!(commands.len(), 50);
    assert_eq!(commands[0], "/Zoo");
    assert_eq!(commands[49], "/éclair");
}

#[test]
fn available_commands_do_not_depend_on_experiment_order() {
    let one = get_available_commands(&os_with(vec!["/todos", "/knowledge", "/tangent"]));
    let other = get_available_commands(&os_with(vec!["/tangent", "/todos", "/knowledge"]));
    assert_eq!(one, other);
}

#[test]
fn available_commands_keep_doubles() {
    let commands = get_available_commands(&os_with(vec!["/help"]));
    assert_eq!(commands.iter().filter(|c| **c == "/help").count(), 2);
}

#[test]
fn complete_command_filters_in_order() {
    let commands = vec!["/tools", "/tools trust", "/help", "/tools reset"];
    assert_eq!(
        complete_command(&commands, "/tools ", 7),
        (7, vec!["/tools trust".to_string(), "/tools reset".to_string()])
    );
    assert_eq!(complete_command(&commands, "/toolss", 0), (0, vec![]));
    assert_eq!(complete_command(&commands, "", 3).1.len(), 4);
    assert_eq!(complete_command(&commands, "/HELP", 3).1.len(), 0);
}

#[test]
fn typing_on_narrows_completions() {
    let commands = get_available_commands(&os_with(vec![]));
    let (_, wide) = complete_command(&commands, "/c", 0);
    let (_, narrow) = complete_command(&commands, "/context s", 0);
    let kept: Vec<String> = wide.into_iter().filter(|c| c.starts_with("/context s")).collect();
    assert_eq!(narrow, kept);
    assert_eq!(narrow, vec!["/context show".to_string(), "/context show --expand".to_string()]);
}

#[test]
fn word_starts_behind_last_space_or_tab() {
    assert_eq!(done(completer().complete("run /he", 7)), (4, vec!["/help".to_string()]));
    assert_eq!(done(completer().complete("run\t/he", 7)), (4, vec!["/help".to_string()]));
    assert_eq!(done(completer().complete("é /he", 6)), (3, vec!["/help".to_string()]));
    assert_eq!(done(completer().complete("a\\ /he", 6)), (3, vec!["/help".to_string()]));
    assert_eq!(done(completer().complete("/tools trust", 6)).0, 0);
}

#[test]
fn word_ends_at_cursor() {
    assert_eq!(done(completer().complete("/help me", 3)), (0, vec!["/help".to_string()]));
    assert_eq!(paths_start(completer().complete("/help me", 8)), 6);
    assert_eq!(paths_start(completer().complete("/help ", 0)), 0);
}

#[test]
fn line_break_does_not_break_words() {
    assert_eq!(paths_start(completer().complete("x\n/he", 5)), 0);
}

#[test]
fn empty_line_asks_paths() {
    assert_eq!(paths_start(completer().complete("", 0)), 0);
}

#[test]
fn at_sign_asks_prompts_for_rest_of_line() {
    for (line, pos, search, at) in [("@", 1, "", 0), ("@code re", 8, "code re", 6), ("@é", 0, "é", 0)] {
        match completer().complete(line, pos) {
            CompletionStep::AskPrompts { start, search: word } => {
                assert_eq!(word, search);
                assert_eq!(start, at);
            },
            _ => panic!("prompts are next"),
        }
    }
}

#[test]
fn slash_goes_before_at_sign() {
    assert_eq!(done(completer().complete("@x /he", 6)), (3, vec!["/help".to_string()]));
}

#[test]
fn at_sign_within_line_asks_paths() {
    assert_eq!(paths_start(completer().complete("see @x", 6)), 4);
}

#[test]
fn found_prompts_replace_line() {
    let found: Result<Vec<String>, PromptError> = Ok(vec!["@a".to_string(), "@b".to_string()]);
    assert_eq!(
        done(completer().after_prompts(6, found)),
        (0, vec!["@a".to_string(), "@b".to_string()])
    );
}

#[test]
fn paths_follow_without_prompts() {
    let none: Result<Vec<String>, PromptError> = Ok(vec![]);
    assert_eq!(paths_start(completer().after_prompts(6, none)), 6);
    let failed: Result<Vec<String>, PromptError> = Err(PromptError::WrongReply);
    assert_eq!(paths_start(completer().after_prompts(6, failed)), 6);
}

#[test]
fn paths_are_last() {
    let found: Result<(usize, Vec<String>), ()> = Ok((2, vec!["src/".to_string()]));
    assert_eq!(completer().after_paths(5, found), (2, vec!["src/".to_string()]));
    let none: Result<(usize, Vec<String>), ()> = Ok((2, vec![]));
    assert_eq!(completer().after_paths(5, none), (5, vec![]));
    let failed: Result<(usize, Vec<String>), ()> = Err(());
    assert_eq!(completer().after_paths(5, failed), (5, vec![]));
}

#[test]
fn complete_path_takes_replacements() {
    let pairs = vec![
        Pair { display: "a/".to_string(), replacement: "dir/a/".to_string() },
        Pair { display: "b c".to_string(), replacement: "dir/b\\ c".to_string() },
    ];
    let found: Result<(usize, Vec<Pair>), String> = Ok((3, pairs));
    assert_eq!(
        PathCompleter::new().complete_path(found),
        Ok((3, vec!["dir/a/".to_string(), "dir/b\\ c".to_string()]))
    );
}

#[test]
fn complete_path_keeps_failure() {
    let found: Result<(usize, Vec<Pair>), String> = Err("denied".to_string());
    assert_eq!(PathCompleter::new().complete_path(found), Err("denied".to_string()));
}

#[test]
fn prompt_query_searches_word() {
    match PromptCompleter::new().query("code") {
        PromptQuery::Search(word) => assert_eq!(word, Some("code".to_string())),
        PromptQuery::List => panic!("a search"),
    }
    match PromptCompleter::new().query("") {
        PromptQuery::Search(word) => assert_eq!(word, None),
        PromptQuery::List => panic!("a search"),
    }
}

#[test]
fn refused_question_ends_search() {
    match PromptCompleter::new().sent(Err("channel closed".to_string())) {
        Err(e) => {
            assert!(matches!(e, PromptError::Send(_)));
            assert_eq!(e.message(), "channel closed");
        },
        Ok(_) => panic!("the question was refused"),
    }
}

#[test]
fn prompt_names_get_at_sign() {
    let mut poll = PromptCompleter::new().sent(Ok(())).ok().unwrap();
    let reply = Ok(PromptQueryResult::<()>::Search(vec!["review".to_string(), "é".to_string()]));
    assert_eq!(finish(poll.poll(reply)), Ok(vec!["@review".to_string(), "@é".to_string()]));
}

#[test]
fn answer_counts_until_last_attempt() {
    for failures in 0..MAX_ATTEMPTS {
        let mut poll = PromptCompleter::new().sent(Ok(())).ok().unwrap();
        for _ in 0..failures {
            assert!(matches!(poll.poll::<()>(Err("Empty".to_string())), PromptAction::Pause(100)));
        }
        let reply = Ok(PromptQueryResult::<()>::Search(vec!["x".to_string()]));
        assert_eq!(finish(poll.poll(reply)), Ok(vec!["@x".to_string()]));
    }
}

#[test]
fn search_is_given_up_after_five_attempts() {
    let mut poll = PromptCompleter::new().sent(Ok(())).ok().unwrap();
    for _ in 0..4 {
        assert!(matches!(poll.poll::<()>(Err("Empty".to_string())), PromptAction::Pause(100)));
    }
    assert_eq!(
        finish(poll.poll::<()>(Err("Closed".to_string()))),
        Err("Failed to receive prompt info from complete prompt after 5 attempts: Closed".to_string())
    );
}

#[test]
fn answer_to_other_question_is_refused() {
    let mut poll = PromptCompleter::new().sent(Ok(())).ok().unwrap();
    assert_eq!(
        finish(poll.poll(Ok(PromptQueryResult::List(vec!["review"])))),
        Err("Wrong query response type received".to_string())
    );
}
