use std::path::PathBuf;

use chat_prompt::completion::ChatCompleter;
use chat_prompt::helper::ChatHelper;
use chat_prompt::highlight::{paint_segment, Color, PromptComponents, Segment, Usage};
use chat_prompt::hint::ChatHinter;
use chat_prompt::validate::MultiLineValidator;

fn helper() -> ChatHelper {
    ChatHelper {
        completer: ChatCompleter::new(vec!["/help"]),
        hinter: ChatHinter::new(true, PathBuf::from("h"), vec!["/help"]),
        validator: MultiLineValidator,
    }
}

fn full() -> PromptComponents {
    PromptComponents {
        delegate_notifier: Some("TASK".to_string()),
        profile: Some("dev".to_string()),
        usage_percentage: Some(Usage::Percent(6)),
        tangent_mode: true,
        warning: true,
    }
}

fn without_escapes(s: &str) -> String {
    let mut shown = String::new();
    let mut inside = false;
    for c in s.chars() {
        if inside {
            inside = c != 'm';
        } else if c == '\x1b' {
            inside = true;
        } else {
            shown.push(c);
        }
    }
    shown
}

fn assert_reads_plain() {
    let prompt = helper().highlight_prompt("", Some(full()));
    assert_eq!(without_escapes(&prompt), "[TASK]\n[dev] 6% ↯ !> ");
    assert_eq!(without_escapes(&helper().highlight_hint("mm")), "mm");
}

// The switch is one for the whole process, so this test is alone in its file.
#[test]
fn colors_can_be_switched() {
    crossterm::style::force_color_output(true);
    for (color, code) in [
        (Color::Blue, 12),
        (Color::Cyan, 14),
        (Color::Green, 10),
        (Color::Yellow, 11),
        (Color::Red, 9),
        (Color::Magenta, 13),
    ] {
        let segment = Segment { text: "x".to_string(), color };
        assert_eq!(paint_segment(&segment), format!("\x1b[38;5;{}mx\x1b[39m", code));
    }
    assert_reads_plain();

    crossterm::style::force_color_output(false);
    let segment = Segment { text: "x".to_string(), color: Color::Red };
    assert_eq!(paint_segment(&segment), "\x1b[mx\x1b[m");
    assert_reads_plain();
}
