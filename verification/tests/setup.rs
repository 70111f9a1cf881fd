use std::path::PathBuf;

use chat_prompt::editor::{
    edit_mode, history_warning, key_bindings, key_of, rl, CompletionType, EditMode, KeyCommand, KeyPress, LoadFailure,
};
use chat_prompt::settings::Os;
use rustyline::history::{DefaultHistory, History};
use rustyline::{Context, KeyCode, KeyEvent, Modifiers};

fn os() -> Os {
    Os {
        experiment_commands: vec![],
        delegate_enabled: false,
        chat_edit_mode: None,
        chat_enable_history_hints: None,
        delegate_mode_key: None,
        autocompletion_key: None,
        tangent_mode_key: None,
    }
}

fn bound(os: &Os) -> Vec<(KeyPress, String)> {
    key_bindings(os)
        .into_iter()
        .map(|b| match b.command {
            KeyCommand::Insert(count, text) => {
                assert_eq!(count, 1);
                (b.key, text)
            },
            KeyCommand::CompleteHint => (b.key, "<hint>".to_string()),
        })
        .collect()
}

fn some(text: &str) -> Option<String> {
    Some(text.to_string())
}

#[test]
fn edit_mode_is_vi_under_two_names() {
    assert_eq!(edit_mode(&some("vi")), EditMode::Vi);
    assert_eq!(edit_mode(&some("vim")), EditMode::Vi);
    assert_eq!(edit_mode(&some("Vi")), EditMode::Emacs);
    assert_eq!(edit_mode(&some("vimm")), EditMode::Emacs);
    assert_eq!(edit_mode(&some("v")), EditMode::Emacs);
    assert_eq!(edit_mode(&some("")), EditMode::Emacs);
    assert_eq!(edit_mode(&some("emacs")), EditMode::Emacs);
    assert_eq!(edit_mode(&None), EditMode::Emacs);
}

#[test]
fn key_is_one_ascii_character() {
    assert_eq!(key_of(&some("x")), Some('x'));
    assert_eq!(key_of(&some(" ")), Some(' '));
    assert_eq!(key_of(&some("")), None);
    assert_eq!(key_of(&some("xy")), None);
    assert_eq!(key_of(&some("é")), None);
    assert_eq!(key_of(&None), None);
}

#[test]
fn default_bindings() {
    assert_eq!(
        bound(&os()),
        vec![
            (KeyPress::AltEnter, "\n".to_string()),
            (KeyPress::Ctrl('j'), "\n".to_string()),
            (KeyPress::Ctrl('g'), "<hint>".to_string()),
            (KeyPress::Ctrl('t'), "/tangent".to_string()),
        ]
    );
}

#[test]
fn configured_bindings() {
    let mut os = os();
    os.delegate_enabled = true;
    os.delegate_mode_key = some("l");
    os.autocompletion_key = some("y");
    os.tangent_mode_key = some("too long");
    assert_eq!(
        bound(&os),
        vec![
            (KeyPress::Ctrl('l'), "/delegate ".to_string()),
            (KeyPress::AltEnter, "\n".to_string()),
            (KeyPress::Ctrl('j'), "\n".to_string()),
            (KeyPress::Ctrl('y'), "<hint>".to_string()),
            (KeyPress::Ctrl('t'), "/tangent".to_string()),
        ]
    );
}

#[test]
fn delegate_key_needs_experiment_and_key() {
    let mut off = os();
    off.delegate_mode_key = some("l");
    assert_eq!(bound(&off).len(), 4);
    let mut unset = os();
    unset.delegate_enabled = true;
    assert_eq!(bound(&unset).len(), 4);
    unset.delegate_mode_key = some("ll");
    assert_eq!(bound(&unset).len(), 4);
}

/// The event that a key is bound under.
fn event(key: KeyPress) -> KeyEvent {
    KeyEvent::normalize(match key {
        KeyPress::Ctrl(c) => KeyEvent(KeyCode::Char(c), Modifiers::CTRL),
        KeyPress::AltEnter => KeyEvent(KeyCode::Enter, Modifiers::ALT),
    })
}

/// What a key does: the last binding under its event counts.
fn done_by(os: &Os, key: KeyPress) -> Option<String> {
    bound(os).into_iter().rev().find(|(bound, _)| event(*bound) == event(key)).map(|(_, command)| command)
}

#[test]
fn delegate_command_spares_end_of_input() {
    for c in 0u8..128 {
        let mut os = os();
        os.delegate_enabled = true;
        os.delegate_mode_key = Some(char::from(c).to_string());
        let expected = if c == 4 { some("/delegate ") } else { None };
        assert_eq!(done_by(&os, KeyPress::Ctrl('d')), expected);
    }
}

#[test]
fn control_character_is_key_of_its_letter() {
    let mut os = os();
    os.autocompletion_key = some("\n");
    assert_eq!(bound(&os)[2], (KeyPress::Ctrl('\n'), "<hint>".to_string()));
    assert_eq!(done_by(&os, KeyPress::Ctrl('j')), some("<hint>"));
    assert_eq!(done_by(&os, KeyPress::Ctrl('J')), some("<hint>"));
    assert_eq!(done_by(&os, KeyPress::AltEnter), some("\n"));
    os.tangent_mode_key = some("J");
    assert_eq!(done_by(&os, KeyPress::Ctrl('\n')), some("/tangent"));
}

#[test]
fn other_keys_stay_free() {
    for c in 0u8..128 {
        let free = !"jJ\ngG\x07tT\x14".contains(char::from(c));
        assert_eq!(done_by(&os(), KeyPress::Ctrl(char::from(c))).is_none(), free);
    }
}

#[test]
fn setup_has_options_and_helper() {
    let mut os = os();
    os.chat_edit_mode = some("vim");
    os.experiment_commands = vec!["/todos"];
    let setup = rl(&os, PathBuf::from("/tmp/h"));
    assert!(setup.config.history_ignore_space);
    assert_eq!(setup.config.completion_type, CompletionType::List);
    assert_eq!(setup.config.edit_mode, EditMode::Vi);
    assert_eq!(setup.helper.get_history_path(), PathBuf::from("/tmp/h"));
    let history = DefaultHistory::new();
    let ctx = Context::new(&history);
    assert_eq!(setup.helper.hint("/to", 3, &ctx), some("dos"));
}

#[test]
fn history_hints_are_off_unless_switched_on() {
    let mut history = DefaultHistory::new();
    history.add("hello").unwrap();
    let ctx = Context::new(&history);
    for (setting, hint) in [(None, None), (Some(false), None), (Some(true), some("llo"))] {
        let mut os = os();
        os.chat_enable_history_hints = setting;
        assert_eq!(rl(&os, PathBuf::new()).helper.hint("he", 2, &ctx), hint);
    }
}

#[test]
fn missing_history_is_no_warning() {
    let missing = LoadFailure { not_found: true, message: "no such file".to_string() };
    assert_eq!(history_warning(&missing), None);
    let broken = LoadFailure { not_found: false, message: "denied".to_string() };
    assert_eq!(history_warning(&broken), some("Warning: Failed to load history: denied"));
}
