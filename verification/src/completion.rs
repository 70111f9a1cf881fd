//! Completion: what the tab key offers.

use vstd::prelude::*;

use crate::commands;
use crate::text;
use crate::words;

verus! {

// ---------------------------------------------------------------------------------------------
// Paths
// ---------------------------------------------------------------------------------------------

/// A candidate of the file name completer: what to show and what to insert.
pub struct Pair {
    pub display: String,
    pub replacement: String,
}

/// The texts that a list of candidates inserts.
pub open spec fn replacements(pairs: Seq<Pair>) -> Seq<Seq<char>> {
    Seq::new(pairs.len(), |i: int| pairs[i].replacement@)
}

/// Turns what the file name completer found into completions.
pub struct PathCompleter;

impl PathCompleter {
    /// A path completer.
    pub fn new() -> (r: Self)
        ensures
            r == PathCompleter,
    {
        PathCompleter
    }

    /// The completions for what the file name completer found; a failure stays as it is.
    pub fn complete_path<E>(&self, found: Result<(usize, Vec<Pair>), E>) -> (r: Result<
        (usize, Vec<String>),
        E,
    >)
        ensures
            match found {
                Ok((pos, pairs)) => r matches Ok((start, completions)) && start == pos
                    && text::owned_texts(completions@) == replacements(pairs@),
                Err(e) => r == Err::<(usize, Vec<String>), E>(e),
            },
    {
        match found {
            Ok((pos, pairs)) => {
                let mut completions: Vec<String> = Vec::new();
                let mut i: usize = 0;
                while i < pairs.len()
                    invariant
                        i <= pairs.len(),
                        text::owned_texts(completions@) == replacements(pairs@).take(i as int),
                    decreases pairs.len() - i,
                {
                    let ghost before = text::owned_texts(completions@);
                    completions.push(pairs[i].replacement.clone());
                    assert(text::owned_texts(completions@) =~= before.push(
                        pairs@[i as int].replacement@,
                    ));
                    assert(replacements(pairs@).take(i + 1) =~= before.push(
                        replacements(pairs@)[i as int],
                    ));
                    i += 1;
                }
                assert(replacements(pairs@).take(i as int) =~= replacements(pairs@));
                Ok((pos, completions))
            },
            Err(e) => Err(e),
        }
    }
}

// ---------------------------------------------------------------------------------------------
// Prompts
// ---------------------------------------------------------------------------------------------

/// A question to the keeper of the prompts.
#[derive(Clone, Debug)]
pub enum PromptQuery {
    /// All prompts.
    List,
    /// The prompts that fit a word; without a word, those that fit any.
    Search(Option<String>),
}

/// An answer of the keeper of the prompts, which lists all prompts as an `L`.
#[derive(Clone, Debug)]
pub enum PromptQueryResult<L> {
    /// The answer to [`PromptQuery::List`].
    List(L),
    /// The names of the prompts that fit.
    Search(Vec<String>),
}

/// Why prompts could not be completed.
#[derive(Debug)]
pub enum PromptError {
    /// The question could not be sent, with what the channel says of it.
    Send(String),
    /// No answer came, with what the channel says of the last attempt to get one.
    NoReply(String),
    /// The answer was to another question.
    WrongReply,
}

/// How often an answer is asked for before it is given up.
pub const MAX_ATTEMPTS: u32 = 5;

/// How long to wait before the next attempt, in milliseconds.
pub const PAUSE_MILLIS: u64 = 100;

/// A prompt error as contracts speak of it.
pub enum ErrorText {
    Send(Seq<char>),
    NoReply(Seq<char>),
    WrongReply,
}

impl View for PromptError {
    type V = ErrorText;

    open spec fn view(&self) -> ErrorText {
        match self {
            PromptError::Send(e) => ErrorText::Send(e@),
            PromptError::NoReply(e) => ErrorText::NoReply(e@),
            PromptError::WrongReply => ErrorText::WrongReply,
        }
    }
}

impl ErrorText {
    /// What is said of the error.
    pub open spec fn message(self) -> Seq<char> {
        match self {
            ErrorText::Send(e) => e,
            ErrorText::NoReply(e) => "Failed to receive prompt info from complete prompt after "@
                + text::decimal(MAX_ATTEMPTS as nat) + " attempts: "@ + e,
            ErrorText::WrongReply => "Wrong query response type received"@,
        }
    }
}

impl PromptError {
    /// What is said of the error.
    pub fn message(&self) -> (r: String)
        ensures
            r@ == self@.message(),
    {
        match self {
            PromptError::Send(e) => e.clone(),
            PromptError::NoReply(e) => {
                let mut message = "Failed to receive prompt info from complete prompt after ".to_owned();
                text::push_decimal(&mut message, MAX_ATTEMPTS);
                message.append(" attempts: ");
                message.append(e.as_str());
                message
            },
            PromptError::WrongReply => "Wrong query response type received".to_owned(),
        }
    }
}

/// What one attempt to get an answer gave, as contracts speak of it: the names of the prompts, an
/// answer to another question, or what the channel says of its failure.
pub enum ReplyText {
    Names(Seq<Seq<char>>),
    Other,
    Nothing(Seq<char>),
}

/// What one attempt to get an answer gave.
pub open spec fn reply_text<L>(reply: Result<PromptQueryResult<L>, String>) -> ReplyText {
    match reply {
        Ok(PromptQueryResult::Search(names)) => ReplyText::Names(text::owned_texts(names@)),
        Ok(PromptQueryResult::List(_)) => ReplyText::Other,
        Err(e) => ReplyText::Nothing(e@),
    }
}

/// The completions for the names of prompts: each with an at sign in front.
pub open spec fn mentions(names: Seq<Seq<char>>) -> Seq<Seq<char>> {
    Seq::new(names.len(), |i: int| seq!['@'] + names[i])
}

/// What to do after an attempt to get an answer.
pub enum PromptAction {
    /// Wait for so many milliseconds, then try again.
    Pause(u64),
    /// Stop with this outcome.
    Finish(Result<Vec<String>, PromptError>),
}

/// What to do after an attempt, as contracts speak of it.
pub enum ActionText {
    Pause(u64),
    Finish(Result<Seq<Seq<char>>, ErrorText>),
}

impl View for PromptAction {
    type V = ActionText;

    open spec fn view(&self) -> ActionText {
        match self {
            PromptAction::Pause(millis) => ActionText::Pause(*millis),
            PromptAction::Finish(Ok(completions)) => ActionText::Finish(
                Ok(text::owned_texts(completions@)),
            ),
            PromptAction::Finish(Err(e)) => ActionText::Finish(Err(e@)),
        }
    }
}

/// What to do when an attempt gave `reply` after `failed` attempts that gave nothing.
pub open spec fn action_for(failed: nat, reply: ReplyText) -> ActionText {
    match reply {
        ReplyText::Names(names) => ActionText::Finish(Ok(mentions(names))),
        ReplyText::Other => ActionText::Finish(Err(ErrorText::WrongReply)),
        ReplyText::Nothing(e) => if failed < MAX_ATTEMPTS - 1 {
            ActionText::Pause(PAUSE_MILLIS)
        } else {
            ActionText::Finish(Err(ErrorText::NoReply(e)))
        },
    }
}

/// The attempts to get an answer so far.
pub struct PromptPoll {
    attempts: u32,
}

impl PromptPoll {
    #[verifier::type_invariant]
    spec fn attempts_left(&self) -> bool {
        self.attempts < MAX_ATTEMPTS
    }

    /// How many attempts gave nothing.
    pub closed spec fn failed(&self) -> nat {
        self.attempts as nat
    }

    /// Takes what an attempt gave, and says what to do next.
    pub fn poll<L>(&mut self, reply: Result<PromptQueryResult<L>, String>) -> (r: PromptAction)
        ensures
            r@ == action_for(old(self).failed(), reply_text(reply)),
            final(self).failed() == old(self).failed() + (if r is Pause {
                1nat
            } else {
                0nat
            }),
    {
        proof {
            use_type_invariant(&*self);
        }
        match reply {
            Ok(PromptQueryResult::Search(names)) => {
                let mut completions: Vec<String> = Vec::new();
                let mut i: usize = 0;
                proof {
                    reveal_strlit("@");
                }
                while i < names.len()
                    invariant
                        i <= names.len(),
                        "@"@ == seq!['@'],
                        text::owned_texts(completions@) == mentions(text::owned_texts(names@)).take(
                            i as int,
                        ),
                    decreases names.len() - i,
                {
                    let ghost before = text::owned_texts(completions@);
                    let ghost all = mentions(text::owned_texts(names@));
                    let mut mention = "@".to_owned();
                    mention.append(names[i].as_str());
                    completions.push(mention);
                    assert(text::owned_texts(completions@) =~= before.push(mention@));
                    assert(all.take(i + 1) =~= before.push(all[i as int]));
                    i += 1;
                }
                assert(mentions(text::owned_texts(names@)).take(i as int) =~= mentions(
                    text::owned_texts(names@),
                ));
                PromptAction::Finish(Ok(completions))
            },
            Ok(PromptQueryResult::List(_)) => PromptAction::Finish(Err(PromptError::WrongReply)),
            Err(e) => if self.attempts < MAX_ATTEMPTS - 1 {
                self.attempts = self.attempts + 1;
                PromptAction::Pause(PAUSE_MILLIS)
            } else {
                PromptAction::Finish(Err(PromptError::NoReply(e)))
            },
        }
    }
}

/// The names of prompts are offered one for one, each behind an at sign.
pub proof fn law_names_behind_at_sign<L>(poll: &mut PromptPoll, names: Vec<String>, r: PromptAction)
    requires
        call_ensures(PromptPoll::poll::<L>, (poll, Ok(PromptQueryResult::<L>::Search(names))), r),
    ensures
        r matches PromptAction::Finish(Ok(completions)) && completions.len() == names.len() && forall|i: int|
            0 <= i < names.len() ==> (#[trigger] completions[i]@)[0] == '@' && completions[i]@.drop_first()
                == names[i]@,
{
    if let PromptAction::Finish(Ok(completions)) = r {
        assert(text::owned_texts(completions@).len() == mentions(text::owned_texts(names@)).len());
        assert forall|i: int| 0 <= i < names.len() implies (#[trigger] completions[i]@)[0] == '@'
            && completions[i]@.drop_first() == names[i]@ by {
            assert(text::owned_texts(completions@)[i] == mentions(text::owned_texts(names@))[i]);
            assert(completions[i]@.drop_first() =~= names[i]@);
        }
    }
}

/// An answer to another question ends the search with an error.
pub proof fn law_other_answer_is_refused<L>(poll: &mut PromptPoll, list: L, r: PromptAction)
    requires
        call_ensures(PromptPoll::poll::<L>, (poll, Ok(PromptQueryResult::<L>::List(list))), r),
    ensures
        r matches PromptAction::Finish(Err(e)) && e is WrongReply,
{
}

/// An attempt that gives nothing is made again after a tenth of a second, four times over; the fifth
/// ends the search with what the channel said of it.
pub proof fn law_five_attempts<L>(poll: &mut PromptPoll, e: String, r: PromptAction)
    requires
        call_ensures(PromptPoll::poll::<L>, (poll, Err(e)), r),
    ensures
        old(poll).failed() < 4 ==> r == PromptAction::Pause(100) && final(poll).failed() == old(
            poll,
        ).failed() + 1,
        old(poll).failed() >= 4 ==> (r matches PromptAction::Finish(Err(PromptError::NoReply(said))) && said@
            == e@),
{
}

/// Asks the keeper of the prompts for those that fit a word.
pub struct PromptCompleter;

impl PromptCompleter {
    /// A prompt completer.
    pub fn new() -> (r: Self)
        ensures
            r == PromptCompleter,
    {
        PromptCompleter
    }

    /// The question to send for `word`.
    pub fn query(&self, word: &str) -> (r: PromptQuery)
        ensures
            r matches PromptQuery::Search(search) && match search {
                Some(search) => word@.len() > 0 && search@ == word@,
                None => word@.len() == 0,
            },
    {
        if word.is_empty() {
            PromptQuery::Search(None)
        } else {
            PromptQuery::Search(Some(word.to_owned()))
        }
    }

    /// What follows the attempt to send the question: attempts to get an answer, or the end where
    /// the channel refused the question.
    pub fn sent(&self, outcome: Result<(), String>) -> (r: Result<PromptPoll, PromptError>)
        ensures
            match outcome {
                Ok(_) => r matches Ok(poll) && poll.failed() == 0,
                Err(e) => r matches Err(error) && error@ == ErrorText::Send(e@),
            },
    {
        match outcome {
            Ok(_) => Ok(PromptPoll { attempts: 0 }),
            Err(e) => Err(PromptError::Send(e)),
        }
    }
}

/// The outcome of attempts that give `replies` one after the other, after `failed` that gave
/// nothing; none while another attempt is due.
pub open spec fn outcome(failed: nat, replies: Seq<ReplyText>) -> Option<
    Result<Seq<Seq<char>>, ErrorText>,
>
    decreases replies.len(),
{
    if replies.len() == 0 {
        None
    } else {
        match action_for(failed, replies[0]) {
            ActionText::Pause(_) => outcome(failed + 1, replies.drop_first()),
            ActionText::Finish(result) => Some(result),
        }
    }
}

/// Whether an attempt gave nothing.
pub open spec fn gave_nothing(reply: ReplyText) -> bool {
    reply is Nothing
}

proof fn lemma_outcome(failed: nat, replies: Seq<ReplyText>, n: int)
    requires
        0 <= n < replies.len(),
        failed + n < MAX_ATTEMPTS,
        forall|i: int| 0 <= i < n ==> gave_nothing(#[trigger] replies[i]),
        !gave_nothing(replies[n]) || failed + n == MAX_ATTEMPTS - 1,
    ensures
        Some(outcome(failed, replies)->0) == outcome(failed, replies),
        ActionText::Finish(outcome(failed, replies)->0) == action_for((failed + n) as nat, replies[n]),
    decreases n,
{
    if n > 0 {
        let rest = replies.drop_first();
        assert(gave_nothing(replies[0]));
        assert forall|i: int| 0 <= i < n - 1 implies gave_nothing(#[trigger] rest[i]) by {
            assert(rest[i] == replies[i + 1]);
        }
        assert(rest[n - 1] == replies[n]);
        lemma_outcome(failed + 1, rest, n - 1);
    }
}

/// The first answer decides, where it comes within the attempts that are made: the names of
/// prompts are offered, each with an at sign in front, and an answer to another question is an
/// error.
pub proof fn law_first_answer_decides(replies: Seq<ReplyText>, n: int)
    requires
        0 <= n < replies.len(),
        n < MAX_ATTEMPTS,
        forall|i: int| 0 <= i < n ==> gave_nothing(#[trigger] replies[i]),
        !gave_nothing(replies[n]),
    ensures
        outcome(0, replies) == Some(
            match replies[n] {
                ReplyText::Names(names) => Ok(mentions(names)),
                _ => Err(ErrorText::WrongReply),
            },
        ),
{
    lemma_outcome(0, replies, n);
}

/// Where no attempt gives an answer, the last one ends the search with an error that tells what the
/// channel said of it; another attempt is due until then.
pub proof fn law_gives_up_after_last_attempt(replies: Seq<ReplyText>)
    requires
        forall|i: int| 0 <= i < replies.len() ==> gave_nothing(#[trigger] replies[i]),
    ensures
        replies.len() < MAX_ATTEMPTS ==> outcome(0, replies) is None,
        replies.len() >= MAX_ATTEMPTS ==> outcome(0, replies) == Some(
            Err::<Seq<Seq<char>>, ErrorText>(
                ErrorText::NoReply(replies[MAX_ATTEMPTS - 1]->Nothing_0),
            ),
        ),
{
    if replies.len() >= MAX_ATTEMPTS {
        assert(gave_nothing(replies[MAX_ATTEMPTS - 1]));
        lemma_outcome(0, replies, MAX_ATTEMPTS - 1);
    } else {
        lemma_still_due(0, replies);
    }
}

proof fn lemma_still_due(failed: nat, replies: Seq<ReplyText>)
    requires
        failed + replies.len() < MAX_ATTEMPTS,
        forall|i: int| 0 <= i < replies.len() ==> gave_nothing(#[trigger] replies[i]),
    ensures
        outcome(failed, replies) is None,
    decreases replies.len(),
{
    if replies.len() > 0 {
        assert(gave_nothing(replies[0]));
        let rest = replies.drop_first();
        assert forall|i: int| 0 <= i < rest.len() implies gave_nothing(#[trigger] rest[i]) by {
            assert(rest[i] == replies[i + 1]);
        }
        lemma_still_due(failed + 1, rest);
    }
}

// ---------------------------------------------------------------------------------------------
// The chat line
// ---------------------------------------------------------------------------------------------

/// What completing a chat line takes next. `start` is the byte offset of the word at the cursor.
pub enum CompletionStep {
    /// Offer these, to be put at the byte offset `start`.
    Done { start: usize, completions: Vec<String> },
    /// Ask the prompt completer for `search`, then go on with [`ChatCompleter::after_prompts`].
    AskPrompts { start: usize, search: String },
    /// Ask the path completer, then go on with [`ChatCompleter::after_paths`].
    AskPaths { start: usize },
}

/// What completing a chat line takes next, as contracts speak of it.
pub enum StepText {
    Done(int, Seq<Seq<char>>),
    AskPrompts(int, Seq<char>),
    AskPaths(int),
}

impl View for CompletionStep {
    type V = StepText;

    open spec fn view(&self) -> StepText {
        match self {
            CompletionStep::Done { start, completions } => StepText::Done(
                *start as int,
                text::owned_texts(completions@),
            ),
            CompletionStep::AskPrompts { start, search } => StepText::AskPrompts(
                *start as int,
                search@,
            ),
            CompletionStep::AskPaths { start } => StepText::AskPaths(*start as int),
        }
    }
}

/// The byte offset at which the word at the cursor starts.
pub open spec fn start_at(line: Seq<char>, pos: int) -> int {
    text::bytes(words::leading(line, pos)).len() as int
}

/// Whether the word at the cursor begins with a slash.
pub open spec fn completes_command(line: Seq<char>, pos: int) -> bool {
    words::word_at(line, pos).len() > 0 && words::word_at(line, pos)[0] == '/'
}

/// Whether `line` begins with an at sign.
pub open spec fn mentions_prompt(line: Seq<char>) -> bool {
    line.len() > 0 && line[0] == '@'
}

/// The first step: a word with a slash is completed to commands; a line with an at sign is first
/// looked up among the prompts; anything else among the paths.
pub open spec fn first_step(known: Seq<Seq<char>>, line: Seq<char>, pos: int) -> StepText {
    if completes_command(line, pos) {
        StepText::Done(
            start_at(line, pos),
            commands::matching(known, words::word_at(line, pos)),
        )
    } else if mentions_prompt(line) {
        StepText::AskPrompts(start_at(line, pos), line.drop_first())
    } else {
        StepText::AskPaths(start_at(line, pos))
    }
}

/// The step after the prompts: those that were found replace the line; where none were, or the
/// search failed, the paths are next.
pub open spec fn step_after_prompts(start: int, found: Option<Seq<Seq<char>>>) -> StepText {
    match found {
        Some(completions) if completions.len() > 0 => StepText::Done(0, completions),
        _ => StepText::AskPaths(start),
    }
}

/// The end: the paths that were found; where none were, or the search failed, nothing.
pub open spec fn result_after_paths(start: int, found: Option<(int, Seq<Seq<char>>)>) -> (
    int,
    Seq<Seq<char>>,
) {
    match found {
        Some((pos, completions)) if completions.len() > 0 => (pos, completions),
        _ => (start, Seq::empty()),
    }
}

/// All steps together: what is offered where the prompt completer would find `prompts` and the
/// path completer `paths`, each `None` where its search fails.
pub open spec fn completion(
    known: Seq<Seq<char>>,
    line: Seq<char>,
    pos: int,
    prompts: Option<Seq<Seq<char>>>,
    paths: Option<(int, Seq<Seq<char>>)>,
) -> (int, Seq<Seq<char>>) {
    match first_step(known, line, pos) {
        StepText::Done(start, completions) => (start, completions),
        StepText::AskPrompts(start, _) => match step_after_prompts(start, prompts) {
            StepText::Done(start, completions) => (start, completions),
            _ => result_after_paths(start, paths),
        },
        StepText::AskPaths(start) => result_after_paths(start, paths),
    }
}

/// The texts of completions that a search gave, where it did not fail.
pub open spec fn found_texts<E>(found: Result<Vec<String>, E>) -> Option<Seq<Seq<char>>> {
    match found {
        Ok(completions) => Some(text::owned_texts(completions@)),
        Err(_) => None,
    }
}

/// The place and the texts of completions that a search gave, where it did not fail.
pub open spec fn found_texts_at<E>(found: Result<(usize, Vec<String>), E>) -> Option<
    (int, Seq<Seq<char>>),
> {
    match found {
        Ok((pos, completions)) => Some((pos as int, text::owned_texts(completions@))),
        Err(_) => None,
    }
}

/// Completes a chat line to commands, prompts or paths.
pub struct ChatCompleter {
    available_commands: Vec<&'static str>,
}

impl ChatCompleter {
    /// The commands that are offered.
    pub closed spec fn commands(&self) -> Seq<Seq<char>> {
        text::texts(self.available_commands@)
    }

    /// A completer that offers `available_commands`.
    pub fn new(available_commands: Vec<&'static str>) -> (r: Self)
        ensures
            r.commands() == text::texts(available_commands@),
    {
        ChatCompleter { available_commands }
    }

    /// Starts to complete `line` with the cursor at byte offset `pos`.
    pub fn complete(&self, line: &str, pos: usize) -> (r: CompletionStep)
        requires
            text::is_boundary(line@, pos as int),
        ensures
            r@ == first_step(self.commands(), line@, pos as int),
    {
        let (start, word) = words::extract_word(line, pos);
        if text::begins_with(word, '/') {
            let (start, completions) = commands::complete_command(
                &self.available_commands,
                word,
                start,
            );
            return CompletionStep::Done { start, completions };
        }
        if text::begins_with(line, '@') {
            let search = text::text_after_first(line);
            return CompletionStep::AskPrompts { start, search };
        }
        CompletionStep::AskPaths { start }
    }

    /// Goes on with what the prompt completer found.
    pub fn after_prompts<E>(&self, start: usize, found: Result<Vec<String>, E>) -> (r: CompletionStep)
        ensures
            r@ == step_after_prompts(start as int, found_texts(found)),
    {
        if let Ok(completions) = found {
            if !completions.is_empty() {
                return CompletionStep::Done { start: 0, completions };
            }
        }
        CompletionStep::AskPaths { start }
    }

    /// Ends with what the path completer found.
    pub fn after_paths<E>(&self, start: usize, found: Result<(usize, Vec<String>), E>) -> (r: (
        usize,
        Vec<String>,
    ))
        ensures
            (r.0 as int, text::owned_texts(r.1@)) == result_after_paths(
                start as int,
                found_texts_at(found),
            ),
    {
        if let Ok((pos, completions)) = found {
            if !completions.is_empty() {
                return (pos, completions);
            }
        }
        let none: Vec<String> = Vec::new();
        assert(text::owned_texts(none@) =~= Seq::empty());
        (start, none)
    }
}

/// A word with a slash is completed to commands alone: neither prompts nor paths are looked at, and
/// every completion is a command that begins with the word.
pub proof fn law_slash_offers_commands(
    known: Seq<Seq<char>>,
    line: Seq<char>,
    pos: int,
    prompts: Option<Seq<Seq<char>>>,
    paths: Option<(int, Seq<Seq<char>>)>,
)
    requires
        completes_command(line, pos),
    ensures
        completion(known, line, pos, prompts, paths).0 == start_at(line, pos),
        forall|c: Seq<char>| #[trigger]
            completion(known, line, pos, prompts, paths).1.contains(c) <==> known.contains(c)
                && words::word_at(line, pos).is_prefix_of(c),
{
    commands::law_matching(known, words::word_at(line, pos));
}

/// Prompts go before paths, and paths are the last resort: without a slash, what the prompts give a
/// line with an at sign replaces the whole line; otherwise the paths decide; and where neither gives
/// anything, nothing is offered and the start of the word stays.
pub proof fn law_order_of_sources(
    known: Seq<Seq<char>>,
    line: Seq<char>,
    pos: int,
    prompts: Option<Seq<Seq<char>>>,
    paths: Option<(int, Seq<Seq<char>>)>,
)
    requires
        !completes_command(line, pos),
    ensures
        ({
            let r = completion(known, line, pos, prompts, paths);
            let by_prompts = mentions_prompt(line) && prompts is Some && prompts->0.len() > 0;
            let by_paths = paths is Some && (paths->0).1.len() > 0;
            &&& by_prompts ==> r == (0int, prompts->0)
            &&& !by_prompts && by_paths ==> r == paths->0
            &&& !by_prompts && !by_paths ==> r == (start_at(line, pos), Seq::<Seq<char>>::empty())
        }),
{
}

/// The word at the cursor ends at the cursor: where it starts and what it holds make up what stands
/// before the cursor, and it holds no break.
pub proof fn law_word_at_cursor(line: Seq<char>, pos: int)
    requires
        text::is_boundary(line, pos),
    ensures
        0 <= start_at(line, pos) <= pos,
        text::head_at(line, pos) == words::leading(line, pos) + words::word_at(line, pos),
        start_at(line, pos) + text::bytes(words::word_at(line, pos)).len() == pos,
        forall|i: int|
            0 <= i < words::word_at(line, pos).len() ==> !words::is_break(
                #[trigger] words::word_at(line, pos)[i],
            ),
{
    let head = text::head_at(line, pos);
    words::lemma_word_start(head);
    text::lemma_split_at_boundary(line, pos);
    assert(head =~= words::leading(line, pos) + words::word_at(line, pos));
    text::lemma_bytes_concat(words::leading(line, pos), words::word_at(line, pos));
    assert forall|i: int| 0 <= i < words::word_at(line, pos).len() implies !words::is_break(
        #[trigger] words::word_at(line, pos)[i],
    ) by {
        assert(words::word_at(line, pos)[i] == head[words::word_start(head) + i]);
    }
}

// ---------------------------------------------------------------------------------------------
// What holds of all calls
// ---------------------------------------------------------------------------------------------

/// A word at the cursor whose first character is a slash is completed at once: each command that begins
/// with it is offered, and no other, to be put where the word starts.
pub proof fn law_complete_slash_word(
    available: Vec<&'static str>,
    completer: ChatCompleter,
    line: &str,
    pos: usize,
    r: CompletionStep,
    before: Seq<char>,
    word: Seq<char>,
    after: Seq<char>,
)
    requires
        call_ensures(ChatCompleter::new, (available,), completer),
        call_ensures(ChatCompleter::complete, (&completer, line, pos), r),
        line@ == before + word + after,
        pos == text::bytes(before + word).len(),
        forall|i: int| 0 <= i < word.len() ==> word[i] != ' ' && word[i] != '\t',
        before.len() > 0 ==> before.last() == ' ' || before.last() == '\t',
        word.len() > 0,
        word[0] == '/',
    ensures
        r matches CompletionStep::Done { start, completions } && start == text::bytes(before).len() && exists|
            at: Seq<int>,
        |
            commands::are_places(at, available@, word, completions@),
{
    words::lemma_word_of(line@, pos as int, before, word, after);
    if let CompletionStep::Done { start, completions } = r {
        commands::lemma_offered(available@, word, completions@);
    }
}

/// Where the word at the cursor begins with no slash, a line whose first character is an at sign is looked
/// up among the prompts, all of it that follows the sign.
pub proof fn law_complete_at_sign(
    completer: ChatCompleter,
    line: &str,
    pos: usize,
    r: CompletionStep,
    before: Seq<char>,
    word: Seq<char>,
    after: Seq<char>,
)
    requires
        call_ensures(ChatCompleter::complete, (&completer, line, pos), r),
        line@ == before + word + after,
        pos == text::bytes(before + word).len(),
        forall|i: int| 0 <= i < word.len() ==> word[i] != ' ' && word[i] != '\t',
        before.len() > 0 ==> before.last() == ' ' || before.last() == '\t',
        word.len() == 0 || word[0] != '/',
        line@.len() > 0,
        line@[0] == '@',
    ensures
        r matches CompletionStep::AskPrompts { start, search } && start == text::bytes(before).len() && line@
            == seq!['@'] + search@,
{
    words::lemma_word_of(line@, pos as int, before, word, after);
    assert(line@ =~= seq!['@'] + line@.drop_first());
}

/// Where the word at the cursor begins with no slash and the line with no at sign, the paths are asked.
pub proof fn law_complete_other_word(
    completer: ChatCompleter,
    line: &str,
    pos: usize,
    r: CompletionStep,
    before: Seq<char>,
    word: Seq<char>,
    after: Seq<char>,
)
    requires
        call_ensures(ChatCompleter::complete, (&completer, line, pos), r),
        line@ == before + word + after,
        pos == text::bytes(before + word).len(),
        forall|i: int| 0 <= i < word.len() ==> word[i] != ' ' && word[i] != '\t',
        before.len() > 0 ==> before.last() == ' ' || before.last() == '\t',
        word.len() == 0 || word[0] != '/',
        line@.len() == 0 || line@[0] != '@',
    ensures
        r matches CompletionStep::AskPaths { start } && start == text::bytes(before).len(),
{
    words::lemma_word_of(line@, pos as int, before, word, after);
}

/// Prompts that were found replace the line from its start on; where none were, or the search failed, the
/// paths are asked for the same word.
pub proof fn law_after_prompts<E>(
    completer: &ChatCompleter,
    start: usize,
    found: Result<Vec<String>, E>,
    r: CompletionStep,
)
    requires
        call_ensures(ChatCompleter::after_prompts::<E>, (completer, start, found), r),
    ensures
        match found {
            Ok(prompts) => prompts.len() > 0 ==> (r matches CompletionStep::Done { start: at, completions } && at
                == 0 && completions.len() == prompts.len() && forall|i: int|
                0 <= i < prompts.len() ==> (#[trigger] completions[i])@ == prompts[i]@),
            Err(_) => true,
        },
        !(found matches Ok(prompts) && prompts.len() > 0) ==> r == (CompletionStep::AskPaths { start }),
{
    if let Ok(prompts) = found {
        if let CompletionStep::Done { start: at, completions } = r {
            assert(text::owned_texts(completions@).len() == text::owned_texts(prompts@).len());
            assert forall|i: int| 0 <= i < prompts.len() implies (#[trigger] completions[i])@ == prompts[i]@ by {
                assert(text::owned_texts(completions@)[i] == text::owned_texts(prompts@)[i]);
            }
        }
    }
}

/// Paths that were found are offered where the search says; where none were, or the search failed, nothing
/// is offered, and the word keeps its place.
pub proof fn law_after_paths<E>(
    completer: &ChatCompleter,
    start: usize,
    found: Result<(usize, Vec<String>), E>,
    r: (usize, Vec<String>),
)
    requires
        call_ensures(ChatCompleter::after_paths::<E>, (completer, start, found), r),
    ensures
        match found {
            Ok((at, paths)) => paths.len() > 0 ==> r.0 == at && r.1.len() == paths.len() && forall|i: int|
                0 <= i < paths.len() ==> (#[trigger] r.1[i])@ == paths[i]@,
            Err(_) => true,
        },
        !(found matches Ok((_, paths)) && paths.len() > 0) ==> r.0 == start && r.1.len() == 0,
{
    assert(text::owned_texts(r.1@).len() == r.1.len());
    if let Ok((at, paths)) = found {
        assert(text::owned_texts(paths@).len() == paths.len());
        if paths.len() > 0 {
            assert forall|i: int| 0 <= i < paths.len() implies (#[trigger] r.1[i])@ == paths[i]@ by {
                assert(text::owned_texts(r.1@)[i] == text::owned_texts(paths@)[i]);
            }
        }
    }
}

/// The candidates of the file name completer are offered one for one, by what they insert, at the place that
/// it gives; its failure is handed through.
pub proof fn law_paths_one_for_one<E>(
    completer: &PathCompleter,
    found: Result<(usize, Vec<Pair>), E>,
    r: Result<(usize, Vec<String>), E>,
)
    requires
        call_ensures(PathCompleter::complete_path::<E>, (completer, found), r),
    ensures
        match (found, r) {
            (Ok((pos, pairs)), Ok((start, completions))) => start == pos && completions.len() == pairs.len()
                && forall|i: int|
                0 <= i < pairs.len() ==> (#[trigger] completions[i])@ == pairs[i].replacement@,
            (Err(e), Err(same)) => e == same,
            _ => false,
        },
{
    if let (Ok((pos, pairs)), Ok((start, completions))) = (found, r) {
        assert(text::owned_texts(completions@).len() == replacements(pairs@).len());
        assert forall|i: int| 0 <= i < pairs.len() implies (#[trigger] completions[i])@
            == pairs[i].replacement@ by {
            assert(text::owned_texts(completions@)[i] == replacements(pairs@)[i]);
        }
    }
}

/// The keeper of the prompts is asked for what fits the whole word; for an empty word it is asked without
/// one.
pub proof fn law_question(completer: &PromptCompleter, word: &str, r: PromptQuery)
    requires
        call_ensures(PromptCompleter::query, (completer, word), r),
    ensures
        word@.len() == 0 ==> r == PromptQuery::Search(None),
        word@.len() > 0 ==> (r matches PromptQuery::Search(Some(search)) && search@ == word@),
{
}

/// Once the question is sent, all attempts lie ahead; a channel that refuses it ends the search, with what it
/// says.
pub proof fn law_sent(
    completer: &PromptCompleter,
    outcome: Result<(), String>,
    r: Result<PromptPoll, PromptError>,
)
    requires
        call_ensures(PromptCompleter::sent, (completer, outcome), r),
    ensures
        match outcome {
            Ok(_) => r matches Ok(poll) && poll.failed() == 0,
            Err(e) => r matches Err(PromptError::Send(said)) && said@ == e@,
        },
{
}

/// What is said of an error: of a refused question what the channel says; of an answer that did not come,
/// after how many attempts and what the channel says; of an answer to another question that it was.
pub proof fn law_error_messages(error: &PromptError, r: String)
    requires
        call_ensures(PromptError::message, (error,), r),
    ensures
        match error {
            PromptError::Send(e) => r@ == e@,
            PromptError::NoReply(e) => r@
                == "Failed to receive prompt info from complete prompt after 5 attempts: "@ + e@,
            PromptError::WrongReply => r@ == "Wrong query response type received"@,
        },
{
    reveal_strlit("Failed to receive prompt info from complete prompt after ");
    reveal_strlit(" attempts: ");
    reveal_strlit("Failed to receive prompt info from complete prompt after 5 attempts: ");
    assert(text::decimal(5) == seq!['5']);
    assert("Failed to receive prompt info from complete prompt after 5 attempts: "@
        =~= "Failed to receive prompt info from complete prompt after "@ + seq!['5'] + " attempts: "@);
}

} // verus!
