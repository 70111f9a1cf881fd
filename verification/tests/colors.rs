use std::path::PathBuf;

use chat_prompt::completion::ChatCompleter;
use chat_prompt::helper::ChatHelper;
use chat_prompt::highlight::{prompt_segments, Color, PromptComponents, Usage};
use chat_prompt::hint::ChatHinter;
use chat_prompt::validate::{MultiLineValidator, ValidationResult};
use crossterm::style::Stylize;

fn helper() -> ChatHelper {
    ChatHelper {
        completer: ChatCompleter::new(vec!["/help"]),
        hinter: ChatHinter::new(true, PathBuf::from("h"), vec!["/help"]),
        validator: MultiLineValidator,
    }
}

fn usage(usage: Usage) -> PromptComponents {
    PromptComponents {
        delegate_notifier: None,
        profile: None,
        usage_percentage: Some(usage),
        tangent_mode: false,
        warning: false,
    }
}

fn full() -> PromptComponents {
    PromptComponents {
        delegate_notifier: Some("TASK".to_string()),
        profile: Some("dev".to_string()),
        usage_percentage: Some(Usage::Percent(6)),
        tangent_mode: true,
        warning: true,
    }
}

#[test]
fn segments_stand_in_order() {
    let found: Vec<(String, Color)> = prompt_segments(&full()).into_iter().map(|s| (s.text, s.color)).collect();
    let expected = vec![
        ("[TASK]\n".to_string(), Color::Blue),
        ("[dev] ".to_string(), Color::Cyan),
        ("6% ".to_string(), Color::Green),
        ("↯ ".to_string(), Color::Yellow),
        ("!".to_string(), Color::Red),
        ("> ".to_string(), Color::Magenta),
    ];
    assert_eq!(found, expected);
}

#[test]
fn full_prompt_is_painted() {
    assert_eq!(
        helper().highlight_prompt("anything", Some(full())),
        format!(
            "{}{}{}{}{}{}",
            "[TASK]\n".blue(),
            "[dev] ".cyan(),
            "6% ".green(),
            "↯ ".yellow(),
            "!".red(),
            "> ".magenta()
        )
    );
}

#[test]
fn usage_is_colored_by_level() {
    for (share, text, color) in [
        (Usage::Percent(0), "0% ", Color::Green),
        (Usage::Percent(49), "49% ", Color::Green),
        (Usage::Percent(50), "50% ", Color::Yellow),
        (Usage::Percent(89), "89% ", Color::Yellow),
        (Usage::Percent(90), "90% ", Color::Red),
        (Usage::Percent(100), "100% ", Color::Red),
        (Usage::Percent(u32::MAX), "4294967295% ", Color::Red),
        (Usage::NotANumber, "0% ", Color::Red),
    ] {
        let segments = prompt_segments(&usage(share));
        assert_eq!(segments.len(), 2);
        assert_eq!(segments[0].text, text);
        assert_eq!(segments[0].color, color);
    }
}

#[test]
fn hint_is_grey() {
    assert_eq!(helper().highlight_hint("lp"), "\x1b[38;5;240mlp\x1b[m");
    assert_eq!(helper().highlight_hint(""), "\x1b[38;5;240m\x1b[m");
}

#[test]
fn typed_line_has_no_colors() {
    assert_eq!(helper().highlight("/help me", 3), "/help me");
    assert!(!helper().highlight_char("/help me", 3));
}

#[test]
fn helper_hands_on() {
    assert_eq!(helper().get_history_path(), PathBuf::from("h"));
    assert!(matches!(helper().validate("```"), ValidationResult::Incomplete));
    assert!(matches!(helper().validate("done"), ValidationResult::Valid(None)));
}
