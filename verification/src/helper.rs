//! The helper of the line editor: completion, hints, validation and colors in one place.

use std::path::PathBuf;

use rustyline::Context;
use vstd::prelude::*;

use crate::commands;
use crate::completion;
use crate::completion::{ChatCompleter, CompletionStep};
use crate::highlight;
use crate::highlight::PromptComponents;
use crate::hint;
use crate::hint::ChatHinter;
use crate::history;
use crate::text;
use crate::validate;
use crate::validate::{MultiLineValidator, ValidationResult};
use crate::words;

verus! {

/// What the line editor asks while a chat line is edited.
pub struct ChatHelper {
    pub completer: ChatCompleter,
    pub hinter: ChatHinter,
    pub validator: MultiLineValidator,
}

impl ChatHelper {
    /// The file that keeps the history.
    pub fn get_history_path(&self) -> (r: PathBuf)
        ensures
            call_ensures(ChatHinter::get_history_path, (&self.hinter,), r),
            r == self.hinter.path(),
    {
        self.hinter.get_history_path()
    }

    /// Starts to complete `line` with the cursor at byte offset `pos`.
    pub fn complete(&self, line: &str, pos: usize) -> (r: CompletionStep)
        requires
            text::is_boundary(line@, pos as int),
        ensures
            call_ensures(ChatCompleter::complete, (&self.completer, line, pos), r),
            r@ == completion::first_step(self.completer.commands(), line@, pos as int),
    {
        self.completer.complete(line, pos)
    }

    /// The hint for `line` with the cursor at byte offset `pos`, as the hinter gives it: none before the
    /// end of the line.
    pub fn hint(&self, line: &str, pos: usize, ctx: &Context<'_>) -> (r: Option<String>)
        ensures
            call_ensures(ChatHinter::hint, (&self.hinter, line, pos, ctx), r),
            pos < text::bytes(line@).len() ==> r is None,
            pos >= text::bytes(line@).len() ==> {
                &&& !self.hinter.asks_history(line@) ==> text::opt_text(r)
                    == self.hinter.hint_for(line@, Seq::empty())
                &&& history::recorded(ctx) matches Some(entries) ==> text::opt_text(r)
                    == self.hinter.hint_for(line@, entries)
                &&& self.hinter.asks_history(line@) ==> hint::is_history_hint(ctx, line@, text::opt_text(r))
                &&& self.hinter.asks_history(line@) ==> (r matches Some(hint) ==> hint@.len() > 0)
            },
    {
        self.hinter.hint(line, pos, ctx)
    }

    /// Whether `input` may be handed over.
    pub fn validate(&self, input: &str) -> (r: ValidationResult)
        ensures
            call_ensures(MultiLineValidator::validate, (&self.validator, input), r),
            r == (if validate::is_incomplete(input@) {
                ValidationResult::Incomplete
            } else {
                ValidationResult::Valid(None)
            }),
    {
        self.validator.validate(input)
    }

    /// The hint in grey.
    pub fn highlight_hint(&self, hint: &str) -> (r: String)
        ensures
            r@ == highlight::grey(hint@),
    {
        let mut result = "\x1b[38;5;240m".to_owned();
        result.append(hint);
        result.append("\x1b[m");
        result
    }

    /// The line as it is: what is typed has no colors.
    pub fn highlight<'l>(&self, line: &'l str, _pos: usize) -> (r: &'l str)
        ensures
            r == line,
    {
        line
    }

    /// Whether a change at the cursor changes colors: never.
    pub fn highlight_char(&self, _line: &str, _pos: usize) -> (r: bool)
        ensures
            !r,
    {
        false
    }

    /// The prompt in its colors; one that could not be told apart into components stays as it is.
    pub fn highlight_prompt(&self, prompt: &str, components: Option<PromptComponents>) -> (r: String)
        ensures
            match components {
                Some(components) => highlight::is_rendered(components.all_pieces(), r@),
                None => r@ == prompt@,
            },
    {
        match components {
            Some(components) => {
                let segments = highlight::prompt_segments(&components);
                highlight::join(&highlight::paint_segments(&segments))
            },
            None => prompt.to_owned(),
        }
    }
}

/// On a line that is one word with a slash, hint and completion agree: completion offers the
/// commands that begin with the line, to be put at its start, and the hint is the rest of the first
/// of them; where completion offers nothing, there is no hint.
pub proof fn law_hint_agrees_with_completion(
    known: Seq<Seq<char>>,
    line: Seq<char>,
    prompts: Option<Seq<Seq<char>>>,
    paths: Option<(int, Seq<Seq<char>>)>,
)
    requires
        line.len() > 0,
        line[0] == '/',
        forall|i: int| 0 <= i < line.len() ==> !words::is_break(#[trigger] line[i]),
    ensures
        ({
            let (start, offered) = completion::completion(
                known,
                line,
                text::bytes(line).len() as int,
                prompts,
                paths,
            );
            &&& start == 0
            &&& offered == commands::matching(known, line)
            &&& hint::command_hint(known, line) == (if offered.len() > 0 {
                Some(offered[0].skip(line.len() as int))
            } else {
                None
            })
        }),
{
    let pos = text::bytes(line).len() as int;
    text::lemma_split_at_prefix(line, line);
    assert(text::head_at(line, pos) == line);
    words::lemma_word_start(line);
    if words::word_start(line) > 0 {
        assert(words::is_break(line[words::word_start(line) - 1]));
    }
    assert(words::leading(line, pos) =~= Seq::empty());
    assert(words::word_at(line, pos) =~= line);
    hint::law_command_hint_is_first_completion(known, line);
}

/// The helper completes, hints and validates as its parts do.
pub proof fn law_helper_hands_on(
    helper: &ChatHelper,
    line: &str,
    pos: usize,
    ctx: &Context<'_>,
    step: CompletionStep,
    hint: Option<String>,
    verdict: ValidationResult,
)
    requires
        call_ensures(ChatHelper::complete, (helper, line, pos), step),
        call_ensures(ChatHelper::hint, (helper, line, pos, ctx), hint),
        call_ensures(ChatHelper::validate, (helper, line), verdict),
    ensures
        call_ensures(ChatCompleter::complete, (&helper.completer, line, pos), step),
        call_ensures(ChatHinter::hint, (&helper.hinter, line, pos, ctx), hint),
        call_ensures(MultiLineValidator::validate, (&helper.validator, line), verdict),
{
}

/// A hint is shown as it is between the escape sequence for the grey with number 240 and the one that ends it.
pub proof fn law_hint_is_grey(helper: &ChatHelper, hint: &str, r: String)
    requires
        call_ensures(ChatHelper::highlight_hint, (helper, hint), r),
    ensures
        r@ == seq!['\x1b', '[', '3', '8', ';', '5', ';', '2', '4', '0', 'm'] + hint@ + seq!['\x1b', '[', 'm'],
{
    reveal_strlit("\x1b[38;5;240m");
    reveal_strlit("\x1b[m");
}

/// What is typed stays as it is, wherever the cursor stands, and no change at the cursor changes colors.
pub proof fn law_typed_line_stays(helper: &ChatHelper, line: &str, pos: usize, shown: &str, changed: bool)
    requires
        call_ensures(ChatHelper::highlight, (helper, line, pos), shown),
        call_ensures(ChatHelper::highlight_char, (helper, line, pos), changed),
    ensures
        shown@ == line@,
        !changed,
{
}

/// A prompt whose parts are known looks like its parts, each in its color, one behind the other; any other prompt
/// stays as it is.
pub proof fn law_prompt_looks_like_its_parts(
    helper: &ChatHelper,
    prompt: &str,
    components: Option<PromptComponents>,
    r: String,
)
    requires
        call_ensures(ChatHelper::highlight_prompt, (helper, prompt, components), r),
    ensures
        match components {
            Some(components) => exists|parts: Seq<Seq<char>>|
                r@ == parts[0] + parts[1] + parts[2] + parts[3] + parts[4] + parts[5]
                    && #[trigger] highlight::are_prompt_parts(&components, parts),
            None => r@ == prompt@,
        },
{
    if let Some(components) = components {
        highlight::lemma_prompt_parts(&components, r@);
    }
}

} // verus!
