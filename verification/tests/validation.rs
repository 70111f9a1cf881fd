use chat_prompt::validate::{count_fences, MultiLineValidator, ValidationResult};

fn is_incomplete(input: &str) -> bool {
    match MultiLineValidator.validate(input) {
        ValidationResult::Incomplete => true,
        ValidationResult::Valid(message) => {
            assert_eq!(message, None);
            false
        },
    }
}

#[test]
fn plain_input_is_complete() {
    assert!(!is_incomplete(""));
    assert!(!is_incomplete("hello"));
    assert!(!is_incomplete("a `b` and ``c``"));
    assert!(!is_incomplete("two\nlines"));
}

#[test]
fn open_code_block_goes_on() {
    assert!(is_incomplete("```"));
    assert!(is_incomplete("see ```rust\nfn main() {}"));
    assert!(is_incomplete("```a``` ```b"));
}

#[test]
fn closed_code_block_is_complete() {
    assert!(!is_incomplete("```rust\nfn main() {}\n```"));
    assert!(!is_incomplete("``````"));
}

#[test]
fn backslash_at_end_goes_on() {
    assert!(is_incomplete("one \\"));
    assert!(is_incomplete("\\"));
    assert!(is_incomplete("```a```\\"));
    assert!(!is_incomplete("one \\ two"));
    assert!(!is_incomplete("one \\\n"));
}

#[test]
fn fences_do_not_overlap() {
    for (input, count) in [("``", 0), ("````", 1), ("`````", 1), ("``````", 2), ("``x```y`", 1), ("é```é", 1)] {
        assert_eq!(count_fences(input), count);
        assert_eq!(count_fences(input), input.matches("```").count());
    }
}

#[test]
fn fence_on_own_line_toggles() {
    for input in ["", "a", "```", "```a```", "``", "x\\"] {
        assert_eq!(is_incomplete(&format!("{}\n```", input)), count_fences(input) % 2 == 0);
    }
}
