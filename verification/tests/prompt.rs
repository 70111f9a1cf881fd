use std::path::PathBuf;

use chat_prompt::commands::get_available_commands;
use chat_prompt::completion::{ChatCompleter, CompletionStep};
use chat_prompt::editor::{rl, KeyCommand, KeyPress};
use chat_prompt::helper::ChatHelper;
use chat_prompt::highlight::PromptComponents;
use chat_prompt::hint::ChatHinter;
use chat_prompt::settings::Os;
use chat_prompt::validate::MultiLineValidator;
use crossterm::style::Stylize;
use rustyline::history::DefaultHistory;
use rustyline::{Context, KeyCode, KeyEvent, Modifiers};

fn new_os() -> Os {
    Os {
        experiment_commands: vec![],
        delegate_enabled: false,
        chat_edit_mode: None,
        chat_enable_history_hints: None,
        delegate_mode_key: None,
        autocompletion_key: None,
        tangent_mode_key: None,
    }
}

fn new_helper() -> ChatHelper {
    let os = new_os();
    ChatHelper {
        completer: ChatCompleter::new(get_available_commands(&os)),
        hinter: ChatHinter::new(true, PathBuf::new(), get_available_commands(&os)),
        validator: MultiLineValidator,
    }
}

fn components(profile: Option<&str>, tangent_mode: bool, warning: bool) -> Option<PromptComponents> {
    Some(PromptComponents {
        delegate_notifier: None,
        profile: profile.map(|p| p.to_string()),
        usage_percentage: None,
        tangent_mode,
        warning,
    })
}

#[test]
fn test_chat_completer_command_completion() {
    let completer = ChatCompleter::new(get_available_commands(&new_os()));
    let line = "/h";
    let pos = 2;
    match completer.complete(line, pos) {
        CompletionStep::Done { start, completions } => {
            assert_eq!(start, 0);
            assert!(completions.contains(&"/help".to_string()));
        },
        _ => panic!("commands need no outside search"),
    }
}

#[test]
fn test_chat_completer_no_completion() {
    let completer = ChatCompleter::new(get_available_commands(&new_os()));
    let line = "Hello, how are you?";
    let pos = line.len();
    match completer.complete(line, pos) {
        CompletionStep::AskPaths { start } => {
            let found: Result<(usize, Vec<String>), ()> = Ok((15, vec![]));
            let (_, completions) = completer.after_paths(start, found);
            assert!(completions.is_empty());
        },
        _ => panic!("plain text is looked up among the paths"),
    }
}

#[test]
fn test_highlight_prompt_basic() {
    let highlighted = new_helper().highlight_prompt("> ", components(None, false, false));
    assert_eq!(highlighted, "> ".magenta().to_string());
}

#[test]
fn test_highlight_prompt_with_warning() {
    let highlighted = new_helper().highlight_prompt("!> ", components(None, false, true));
    assert_eq!(highlighted, format!("{}{}", "!".red(), "> ".magenta()));
}

#[test]
fn test_highlight_prompt_with_profile() {
    let highlighted =
        new_helper().highlight_prompt("[test-profile] > ", components(Some("test-profile"), false, false));
    assert_eq!(highlighted, format!("{}{}", "[test-profile] ".cyan(), "> ".magenta()));
}

#[test]
fn test_highlight_prompt_with_profile_and_warning() {
    let highlighted = new_helper().highlight_prompt("[dev] !> ", components(Some("dev"), false, true));
    assert_eq!(
        highlighted,
        format!("{}{}{}", "[dev] ".cyan(), "!".red(), "> ".magenta())
    );
}

#[test]
fn test_highlight_prompt_invalid_format() {
    let invalid_prompt = "invalid prompt format";
    let highlighted = new_helper().highlight_prompt(invalid_prompt, None);
    assert_eq!(highlighted, invalid_prompt);
}

#[test]
fn test_highlight_prompt_tangent_mode() {
    let highlighted = new_helper().highlight_prompt("↯ > ", components(None, true, false));
    assert_eq!(highlighted, format!("{}{}", "↯ ".yellow(), "> ".magenta()));
}

#[test]
fn test_highlight_prompt_tangent_mode_with_warning() {
    let highlighted = new_helper().highlight_prompt("↯ !> ", components(None, true, true));
    assert_eq!(highlighted, format!("{}{}{}", "↯ ".yellow(), "!".red(), "> ".magenta()));
}

#[test]
fn test_highlight_prompt_profile_with_tangent_mode() {
    let highlighted = new_helper().highlight_prompt("[dev] ↯ > ", components(Some("dev"), true, false));
    assert_eq!(
        highlighted,
        format!("{}{}{}", "[dev] ".cyan(), "↯ ".yellow(), "> ".magenta())
    );
}

#[test]
fn test_chat_hinter_command_hint() {
    let hinter = ChatHinter::new(true, PathBuf::new(), get_available_commands(&new_os()));

    let line = "/he";
    let pos = line.len();
    let empty_history = DefaultHistory::new();
    let ctx = Context::new(&empty_history);

    let hint = hinter.hint(line, pos, &ctx);
    assert_eq!(hint, Some("lp".to_string()));

    let hint = hinter.hint(line, 1, &ctx);
    assert_eq!(hint, None);

    let line = "/xyz";
    let pos = line.len();
    let hint = hinter.hint(line, pos, &ctx);
    assert_eq!(hint, None);

    let line = "/abcd\nefg";
    let pos = line.len();
    let hint = hinter.hint(line, pos, &ctx);
    assert_eq!(hint, None);
}

#[test]
fn test_chat_hinter_history_hint_disabled() {
    let hinter = ChatHinter::new(false, PathBuf::new(), get_available_commands(&new_os()));

    let line = "How";
    let pos = line.len();
    let empty_history = DefaultHistory::new();
    let ctx = Context::new(&empty_history);

    let hint = hinter.hint(line, pos, &ctx);
    assert_eq!(hint, None);
}

/// The event that a key is bound under.
fn event(key: KeyPress) -> KeyEvent {
    KeyEvent::normalize(match key {
        KeyPress::Ctrl(c) => KeyEvent(KeyCode::Char(c), Modifiers::CTRL),
        KeyPress::AltEnter => KeyEvent(KeyCode::Enter, Modifiers::ALT),
    })
}

#[test]
fn test_no_emacs_keybindings_overridden() {
    let setup = rl(&new_os(), PathBuf::new());
    let reserved_keys = ['a', 'e', 'f', 'b', 'k'];
    for &key in &reserved_keys {
        for binding in &setup.bindings {
            if event(binding.key) == event(KeyPress::Ctrl(key)) {
                panic!("Ctrl+{} appears to be overridden (found existing binding)", key);
            }
        }
    }
}

#[test]
fn test_experiment_based_command_completion() {
    let groups: [(&'static str, &'static str); 4] = [
        ("/knowledge", "/knowledge help"),
        ("/checkpoint", "/checkpoint help"),
        ("/todos", "/todos help"),
        ("/tangent", "/tangent tail"),
    ];
    for enabled in 0..16 {
        let mut os = new_os();
        for (i, (command, sub)) in groups.iter().enumerate() {
            if enabled & (1 << i) != 0 {
                os.experiment_commands.push(command);
                os.experiment_commands.push(sub);
            }
        }
        let available_commands = get_available_commands(&os);
        for (i, (command, sub)) in groups.iter().enumerate() {
            if enabled & (1 << i) != 0 {
                assert!(available_commands.contains(command));
                assert!(available_commands.contains(sub));
            } else {
                assert!(!available_commands.contains(command));
            }
        }
        assert!(available_commands.contains(&"/help"));
        assert!(available_commands.contains(&"/clear"));
        assert!(available_commands.contains(&"/quit"));
    }
}

#[test]
fn test_delegate_key_binding_skips_d() {
    let delegate_keys = |key: &str| -> Vec<KeyPress> {
        let mut os = new_os();
        os.delegate_enabled = true;
        os.delegate_mode_key = Some(key.to_string());
        let mut keys = vec![];
        for binding in &rl(&os, PathBuf::new()).bindings {
            if matches!(&binding.command, KeyCommand::Insert(1, text) if text == "/delegate ") {
                keys.push(binding.key);
            }
        }
        keys
    };
    assert_eq!(delegate_keys("d"), vec![]);
    assert_eq!(delegate_keys("D"), vec![]);
    assert_eq!(delegate_keys("l"), vec![KeyPress::Ctrl('l')]);
}
