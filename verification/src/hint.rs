//! Hints: the text shown behind the cursor that the user may accept.

use std::path::PathBuf;

use rustyline::Context;
use vstd::prelude::*;

use crate::commands;
use crate::history;
use crate::text;

verus! {

/// `PathBuf` of the standard library.
#[verifier::external_type_specification]
#[verifier::external_body]
pub struct ExPathBuf(std::path::PathBuf);

/// `Clone::clone` of `PathBuf`: the copy is the same path.
pub assume_specification[ <PathBuf as Clone>::clone ](path: &PathBuf) -> (r: PathBuf)
    ensures
        r == *path,
;

/// What is left of the first command that begins with `line`.
pub open spec fn command_hint(commands: Seq<Seq<char>>, line: Seq<char>) -> Option<Seq<char>>
    decreases commands.len(),
{
    if commands.len() == 0 {
        None
    } else if line.is_prefix_of(commands[0]) {
        Some(commands[0].skip(line.len() as int))
    } else {
        command_hint(commands.drop_first(), line)
    }
}

/// What is left of the newest entry that begins with `line`, if anything is.
pub open spec fn history_hint(entries: Seq<Seq<char>>, line: Seq<char>) -> Option<Seq<char>> {
    match history::newest_match(entries, line, entries.len() as int) {
        Some(entry) => if entry.len() > line.len() {
            Some(entry.skip(line.len() as int))
        } else {
            None
        },
        None => None,
    }
}

/// What is left of `entry` behind as many bytes as `line` has, if anything is.
pub open spec fn remainder(line: Seq<char>, entry: Seq<char>) -> Option<Seq<char>> {
    if text::bytes(entry).len() > text::bytes(line).len() {
        Some(text::tail_at(entry, text::bytes(line).len() as int))
    } else {
        None
    }
}

/// Whether `entry` can be cut behind as many bytes as `line` has.
pub open spec fn can_cut(line: Seq<char>, entry: Seq<char>) -> bool {
    text::bytes(entry).len() > text::bytes(line).len() ==> text::is_boundary(
        entry,
        text::bytes(line).len() as int,
    )
}

/// Whether an entry that was found can be cut behind as many bytes as `line` has.
pub open spec fn can_cut_found(line: Seq<char>, found: Result<Option<String>, ()>) -> bool {
    match found {
        Ok(Some(entry)) => can_cut(line, entry@),
        _ => true,
    }
}

fn found_can_be_cut(line: &str, found: &Result<Option<String>, ()>) -> (r: bool)
    ensures
        r == can_cut_found(line@, *found),
{
    match found {
        Ok(Some(entry)) => {
            let cut = text::byte_len(line);
            text::byte_len(entry.as_str()) <= cut || entry.as_str().is_char_boundary(cut)
        },
        _ => true,
    }
}

/// The hint for `line` from what a search of the history for it gave: what is left of the entry that
/// was found, if anything is; none where nothing was found or the search failed.
pub open spec fn found_hint(line: Seq<char>, found: Result<Option<String>, ()>) -> Option<Seq<char>> {
    match found {
        Ok(Some(entry)) => remainder(line, entry@),
        _ => None,
    }
}

/// Whether `hint` is what the history of the context gives for `line`: the history is asked for its
/// length, and one that is not empty for the newest entry that begins with `line`. That ties `hint` to
/// what these two calls may answer, whatever sort of history it is.
pub closed spec fn is_history_hint(ctx: &Context<'_>, line: Seq<char>, hint: Option<Seq<char>>) -> bool {
    exists|len: usize| #[trigger] call_ensures(history::history_len, (ctx,), len) && if len == 0 {
        hint is None
    } else {
        exists|term: &str, found: Result<Option<String>, ()>| #[trigger]
            call_ensures(history::history_starts_with, (ctx, term, (len - 1) as usize), found) && term@
                == line && hint == (if can_cut_found(line, found) {
                found_hint(line, found)
            } else {
                None
            })
    }
}

/// The [`found_hint`] for `line`.
pub fn hint_from_found(line: &str, found: Result<Option<String>, ()>) -> (r: Option<String>)
    requires
        can_cut_found(line@, found),
    ensures
        text::opt_text(r) == found_hint(line@, found),
        r matches Some(rest) ==> rest@.len() > 0,
{
    if let Ok(Some(entry)) = found {
        let cut = text::byte_len(line);
        if text::byte_len(entry.as_str()) > cut {
            proof {
                text::lemma_split_at_boundary(entry@, cut as int);
                if text::tail_at(entry@, cut as int).len() == 0 {
                    assert(entry@ =~= text::head_at(entry@, cut as int));
                }
            }
            return Some(text::text_from(entry.as_str(), cut));
        }
    }
    None
}

/// An entry that begins with the line can be cut behind it; what is left is the rest of the entry.
proof fn lemma_remainder_of_prefix(line: Seq<char>, entry: Seq<char>)
    requires
        line.is_prefix_of(entry),
    ensures
        can_cut(line, entry),
        remainder(line, entry) == (if entry.len() > line.len() {
            Some(entry.skip(line.len() as int))
        } else {
            None
        }),
{
    let rest = entry.skip(line.len() as int);
    text::lemma_split_at_prefix(entry, line);
    text::lemma_bytes_len(rest);
    if entry.len() == line.len() {
        assert(rest =~= Seq::empty());
    }
}

/// Offers shadow text behind the cursor: the rest of a command, or of a line entered before.
pub struct ChatHinter {
    history_hints_enabled: bool,
    history_path: PathBuf,
    available_commands: Vec<&'static str>,
}

impl ChatHinter {
    /// Whether lines entered before are offered.
    pub closed spec fn offers_history(&self) -> bool {
        self.history_hints_enabled
    }

    /// The file that keeps the history.
    pub closed spec fn path(&self) -> PathBuf {
        self.history_path
    }

    /// The commands that are offered, in the order in which they are tried.
    pub closed spec fn commands(&self) -> Seq<Seq<char>> {
        text::texts(self.available_commands@)
    }

    /// The hint for `line`, with the cursor at its end and `entries` in the history.
    pub open spec fn hint_for(&self, line: Seq<char>, entries: Seq<Seq<char>>) -> Option<Seq<char>> {
        if line.len() == 0 {
            None
        } else if line[0] == '/' {
            command_hint(self.commands(), line)
        } else if self.offers_history() {
            history_hint(entries, line)
        } else {
            None
        }
    }

    /// Whether the history has a say in the hint for `line`.
    pub open spec fn asks_history(&self, line: Seq<char>) -> bool {
        line.len() > 0 && line[0] != '/' && self.offers_history()
    }

    /// A hinter that offers `available_commands` and, where `history_hints_enabled`, lines entered
    /// before.
    pub fn new(
        history_hints_enabled: bool,
        history_path: PathBuf,
        available_commands: Vec<&'static str>,
    ) -> (r: Self)
        ensures
            r.offers_history() == history_hints_enabled,
            r.path() == history_path,
            r.commands() == text::texts(available_commands@),
    {
        ChatHinter { history_hints_enabled, history_path, available_commands }
    }

    /// The file that keeps the history.
    pub fn get_history_path(&self) -> (r: PathBuf)
        ensures
            r == self.path(),
    {
        self.history_path.clone()
    }

    /// The rest of the first command that begins with `line`.
    fn find_command(&self, line: &str) -> (r: Option<String>)
        ensures
            text::opt_text(r) == command_hint(self.commands(), line@),
    {
        let mut i: usize = 0;
        assert(self.commands().skip(0) =~= self.commands());
        while i < self.available_commands.len()
            invariant
                i <= self.available_commands.len(),
                self.commands() == text::texts(self.available_commands@),
                command_hint(self.commands(), line@) == command_hint(
                    self.commands().skip(i as int),
                    line@,
                ),
            decreases self.available_commands.len() - i,
        {
            let command = self.available_commands[i];
            assert(self.commands().skip(i as int)[0] == command@);
            if text::has_prefix(command, line) {
                proof {
                    text::lemma_split_at_prefix(command@, line@);
                }
                return Some(text::text_from(command, text::byte_len(line)));
            }
            assert(self.commands().skip(i as int).drop_first() =~= self.commands().skip(i + 1));
            i += 1;
        }
        None
    }

    /// The hint for `line`, with the cursor at its end. An entry that can not be cut behind as many
    /// bytes as `line` has, which no history in memory finds, gives none.
    pub fn find_hint(&self, line: &str, ctx: &Context<'_>) -> (r: Option<String>)
        ensures
            !self.asks_history(line@) ==> text::opt_text(r) == self.hint_for(line@, Seq::empty()),
            history::recorded(ctx) matches Some(entries) ==> text::opt_text(r) == self.hint_for(line@, entries),
            self.asks_history(line@) ==> is_history_hint(ctx, line@, text::opt_text(r)),
            self.asks_history(line@) ==> (r matches Some(hint) ==> hint@.len() > 0),
    {
        if line.is_empty() {
            return None;
        }
        if text::begins_with(line, '/') {
            return self.find_command(line);
        }
        if self.history_hints_enabled {
            let len = history::history_len(ctx);
            if len == 0 {
                return None;
            }
            let found = history::history_starts_with(ctx, line, len - 1);
            proof {
                if let Some(entries) = history::recorded(ctx) {
                    history::lemma_newest_match(entries, line@, entries.len() as int);
                    if let Some(entry) = history::newest_match(entries, line@, entries.len() as int) {
                        lemma_remainder_of_prefix(line@, entry);
                    }
                }
            }
            if found_can_be_cut(line, &found) {
                return hint_from_found(line, found);
            }
        }
        None
    }

    /// The hint for `line` with the cursor at byte offset `pos`: none before the end of the line, and
    /// what [`ChatHinter::find_hint`] gives from there on.
    pub fn hint(&self, line: &str, pos: usize, ctx: &Context<'_>) -> (r: Option<String>)
        ensures
            pos < text::bytes(line@).len() ==> r is None,
            pos >= text::bytes(line@).len() ==> call_ensures(ChatHinter::find_hint, (self, line, ctx), r),
            pos >= text::bytes(line@).len() ==> {
                &&& !self.asks_history(line@) ==> text::opt_text(r) == self.hint_for(line@, Seq::empty())
                &&& history::recorded(ctx) matches Some(entries) ==> text::opt_text(r) == self.hint_for(
                    line@,
                    entries,
                )
                &&& self.asks_history(line@) ==> is_history_hint(ctx, line@, text::opt_text(r))
                &&& self.asks_history(line@) ==> (r matches Some(hint) ==> hint@.len() > 0)
            },
    {
        if pos < text::byte_len(line) {
            return None;
        }
        self.find_hint(line, ctx)
    }
}

/// The hint for the start of a command completes it to the first command that completion offers, and
/// there is a hint exactly where completion offers one.
pub proof fn law_command_hint_is_first_completion(known: Seq<Seq<char>>, line: Seq<char>)
    ensures
        command_hint(known, line) == (if commands::matching(known, line).len() > 0 {
            Some(commands::matching(known, line)[0].skip(line.len() as int))
        } else {
            None
        }),
    decreases known.len(),
{
    if known.len() > 0 {
        law_command_hint_is_first_completion(known.drop_first(), line);
        lemma_matching_first(known, line);
    } else {
        reveal(Seq::filter);
    }
}

/// What matches in a list is its first command, where that one matches, and then what matches in
/// the others.
proof fn lemma_matching_first(known: Seq<Seq<char>>, line: Seq<char>)
    requires
        known.len() > 0,
    ensures
        commands::matching(known, line) == (if line.is_prefix_of(known[0]) {
            seq![known[0]]
        } else {
            Seq::empty()
        }) + commands::matching(known.drop_first(), line),
    decreases known.len(),
{
    reveal(Seq::filter);
    let rest = known.drop_first();
    if known.len() == 1 {
        assert(known.drop_last().len() == 0);
        assert(commands::matching(known.drop_last(), line).len() == 0);
        assert(commands::matching(rest, line).len() == 0);
        assert(known.last() == known[0]);
    } else {
        lemma_matching_first(known.drop_last(), line);
        assert(known.drop_last().drop_first() =~= rest.drop_last());
        assert(known.last() == rest.last());
    }
    assert(commands::matching(known, line) =~= (if line.is_prefix_of(known[0]) {
        seq![known[0]]
    } else {
        Seq::empty()
    }) + commands::matching(rest, line));
}

/// Accepting the hint for the start of a command makes the line a command.
pub proof fn law_accepted_command_hint(known: Seq<Seq<char>>, line: Seq<char>)
    ensures
        command_hint(known, line) matches Some(hint) ==> known.contains(line + hint),
        command_hint(known, line) is None ==> forall|i: int|
            0 <= i < known.len() ==> !line.is_prefix_of(#[trigger] known[i]),
    decreases known.len(),
{
    if known.len() > 0 {
        let rest = known.drop_first();
        if line.is_prefix_of(known[0]) {
            assert(line + known[0].skip(line.len() as int) =~= known[0]);
        } else {
            law_accepted_command_hint(rest, line);
            if command_hint(rest, line) is Some {
                let whole = line + command_hint(rest, line)->0;
                let i = choose|i: int| 0 <= i < rest.len() && rest[i] == whole;
                assert(known[i + 1] == whole);
            } else {
                assert forall|i: int| 0 <= i < known.len() implies !line.is_prefix_of(
                    #[trigger] known[i],
                ) by {
                    if i > 0 {
                        assert(rest[i - 1] == known[i]);
                    }
                }
            }
        }
    }
}

/// Accepting a hint from the history makes the line an entry of it, and no newer entry begins with
/// what was typed; the hint is never empty.
pub proof fn law_accepted_history_hint(entries: Seq<Seq<char>>, line: Seq<char>)
    ensures
        history_hint(entries, line) matches Some(hint) ==> {
            &&& hint.len() > 0
            &&& exists|i: int|
                0 <= i < entries.len() && #[trigger] entries[i] == line + hint && forall|j: int|
                    i < j < entries.len() ==> !line.is_prefix_of(#[trigger] entries[j])
        },
{
    let n = entries.len() as int;
    history::lemma_newest_match(entries, line, n);
    if history_hint(entries, line) is Some {
        let entry = history::newest_match(entries, line, n)->0;
        assert(line + entry.skip(line.len() as int) =~= entry);
    }
}

/// With the cursor at the end of the line, or behind it, `hint` and `find_hint` give the same hint
/// wherever the history has no say in it or is kept in memory. (A history of another sort may find
/// something else when it is asked again.)
pub proof fn law_hint_is_find_hint(
    hinter: &ChatHinter,
    line: &str,
    pos: usize,
    ctx: &Context<'_>,
    hinted: Option<String>,
    found: Option<String>,
)
    requires
        pos >= text::bytes(line@).len(),
        !hinter.asks_history(line@) || history::recorded(ctx) is Some,
        call_ensures(ChatHinter::hint, (hinter, line, pos, ctx), hinted),
        call_ensures(ChatHinter::find_hint, (hinter, line, ctx), found),
    ensures
        text::opt_text(hinted) == text::opt_text(found),
{
}

/// The history has no say in the hint for a command, nor while hints from it are switched off.
pub proof fn law_history_not_consulted(
    hinter: &ChatHinter,
    line: Seq<char>,
    a: Seq<Seq<char>>,
    b: Seq<Seq<char>>,
)
    requires
        !hinter.asks_history(line),
    ensures
        hinter.hint_for(line, a) == hinter.hint_for(line, b),
{
}

// ---------------------------------------------------------------------------------------------
// What holds of all calls
// ---------------------------------------------------------------------------------------------

/// The first command that begins with the line, where there is one, is the line and the hint.
proof fn lemma_first_command(known: Seq<Seq<char>>, line: Seq<char>)
    ensures
        match command_hint(known, line) {
            Some(hint) => exists|i: int|
                0 <= i < known.len() && #[trigger] known[i] == line + hint && forall|j: int|
                    0 <= j < i ==> !line.is_prefix_of(#[trigger] known[j]),
            None => forall|j: int| 0 <= j < known.len() ==> !line.is_prefix_of(#[trigger] known[j]),
        },
    decreases known.len(),
{
    if known.len() > 0 {
        let rest = known.drop_first();
        if line.is_prefix_of(known[0]) {
            assert(known[0] =~= line + known[0].skip(line.len() as int));
        } else {
            lemma_first_command(rest, line);
            if let Some(hint) = command_hint(rest, line) {
                let i = choose|i: int|
                    0 <= i < rest.len() && #[trigger] rest[i] == line + hint && forall|j: int|
                        0 <= j < i ==> !line.is_prefix_of(#[trigger] rest[j]);
                assert(known[i + 1] == line + hint);
                assert forall|j: int| 0 <= j < i + 1 implies !line.is_prefix_of(#[trigger] known[j]) by {
                    if j > 0 {
                        assert(rest[j - 1] == known[j]);
                    }
                }
            } else {
                assert forall|j: int| 0 <= j < known.len() implies !line.is_prefix_of(
                    #[trigger] known[j],
                ) by {
                    if j > 0 {
                        assert(rest[j - 1] == known[j]);
                    }
                }
            }
        }
    }
}

/// For a line whose first character is a slash there is a hint if and only if a command begins with the line,
/// and the line and the hint are the first such command.
pub proof fn law_hint_completes_first_command(
    enabled: bool,
    path: PathBuf,
    available: Vec<&'static str>,
    hinter: ChatHinter,
    line: &str,
    ctx: &Context<'_>,
    r: Option<String>,
)
    requires
        call_ensures(ChatHinter::new, (enabled, path, available), hinter),
        line@.len() > 0,
        line@[0] == '/',
        call_ensures(ChatHinter::find_hint, (&hinter, line, ctx), r),
    ensures
        match r {
            Some(hint) => exists|i: int|
                0 <= i < available.len() && (#[trigger] available[i])@ == line@ + hint@ && forall|j: int|
                    0 <= j < i ==> !line@.is_prefix_of((#[trigger] available[j])@),
            None => forall|j: int|
                0 <= j < available.len() ==> !line@.is_prefix_of((#[trigger] available[j])@),
        },
{
    let known = text::texts(available@);
    lemma_first_command(known, line@);
    if let Some(hint) = r {
        let i = choose|i: int|
            0 <= i < known.len() && #[trigger] known[i] == line@ + hint@ && forall|j: int|
                0 <= j < i ==> !line@.is_prefix_of(#[trigger] known[j]);
        assert(available[i]@ == line@ + hint@);
        assert forall|j: int| 0 <= j < i implies !line@.is_prefix_of((#[trigger] available[j])@) by {
            assert(known[j] == available[j]@);
        }
    } else {
        assert forall|j: int| 0 <= j < available.len() implies !line@.is_prefix_of(
            (#[trigger] available[j])@,
        ) by {
            assert(known[j] == available[j]@);
        }
    }
}

/// The newest entry that begins with the line, where there is one, is the line and the hint, or the line alone.
pub proof fn lemma_newest_entry(entries: Seq<Seq<char>>, line: Seq<char>)
    ensures
        match history_hint(entries, line) {
            Some(hint) => hint.len() > 0 && exists|i: int|
                0 <= i < entries.len() && #[trigger] entries[i] == line + hint && forall|j: int|
                    i < j < entries.len() ==> !line.is_prefix_of(#[trigger] entries[j]),
            None => (forall|j: int| 0 <= j < entries.len() ==> !line.is_prefix_of(#[trigger] entries[j]))
                || exists|i: int|
                0 <= i < entries.len() && #[trigger] entries[i] == line && forall|j: int|
                    i < j < entries.len() ==> !line.is_prefix_of(#[trigger] entries[j]),
        },
{
    let n = entries.len() as int;
    history::lemma_newest_match(entries, line, n);
    if let Some(entry) = history::newest_match(entries, line, n) {
        let i = choose|i: int|
            0 <= i < n && #[trigger] entries[i] == entry && forall|j: int|
                i < j < n ==> !line.is_prefix_of(#[trigger] entries[j]);
        if entry.len() > line.len() {
            assert(entry =~= line + entry.skip(line.len() as int));
            assert(entries[i] == line + entry.skip(line.len() as int));
        } else {
            assert(entry =~= line);
            assert(entries[i] == line);
        }
    }
}

/// While hints from the history are switched on and it is kept in memory, a line without a slash in front and its
/// hint are the newest entry that begins with the line; there is no hint where no entry does, nor where the newest
/// that does is the line itself.
pub proof fn law_hint_completes_newest_entry(
    enabled: bool,
    path: PathBuf,
    available: Vec<&'static str>,
    hinter: ChatHinter,
    line: &str,
    entries: Seq<Seq<char>>,
    ctx: &Context<'_>,
    r: Option<String>,
)
    requires
        call_ensures(ChatHinter::new, (enabled, path, available), hinter),
        enabled,
        line@.len() > 0,
        line@[0] != '/',
        history::recorded(ctx) == Some(entries),
        call_ensures(ChatHinter::find_hint, (&hinter, line, ctx), r),
    ensures
        match r {
            Some(hint) => hint@.len() > 0 && exists|i: int|
                0 <= i < entries.len() && #[trigger] entries[i] == line@ + hint@ && forall|j: int|
                    i < j < entries.len() ==> !line@.is_prefix_of(#[trigger] entries[j]),
            None => (forall|j: int| 0 <= j < entries.len() ==> !line@.is_prefix_of(#[trigger] entries[j]))
                || exists|i: int|
                0 <= i < entries.len() && #[trigger] entries[i] == line@ && forall|j: int|
                    i < j < entries.len() ==> !line@.is_prefix_of(#[trigger] entries[j]),
        },
{
    lemma_newest_entry(entries, line@);
}

/// There is no hint for an empty line, nor, while hints from the history are switched off, for one without a slash
/// in front.
pub proof fn law_no_hint(
    enabled: bool,
    path: PathBuf,
    available: Vec<&'static str>,
    hinter: ChatHinter,
    line: &str,
    ctx: &Context<'_>,
    r: Option<String>,
)
    requires
        call_ensures(ChatHinter::new, (enabled, path, available), hinter),
        call_ensures(ChatHinter::find_hint, (&hinter, line, ctx), r),
    ensures
        line@.len() == 0 ==> r is None,
        !enabled && line@.len() > 0 && line@[0] != '/' ==> r is None,
{
}

/// Before the end of the line there is no hint; at its end and behind it the hint is the one that is found for the
/// line.
pub proof fn law_hint_at_end_of_line(
    hinter: &ChatHinter,
    line: &str,
    pos: usize,
    ctx: &Context<'_>,
    r: Option<String>,
)
    requires
        call_ensures(ChatHinter::hint, (hinter, line, pos, ctx), r),
    ensures
        pos < text::bytes(line@).len() ==> r is None,
        pos >= text::bytes(line@).len() ==> call_ensures(ChatHinter::find_hint, (hinter, line, ctx), r),
{
}

/// With the cursor at the end of a line whose first character is a slash, the hint shows the rest of the first
/// command that begins with the line, and there is one if and only if a command does.
pub proof fn law_hint_shows_rest_of_command(
    enabled: bool,
    path: PathBuf,
    available: Vec<&'static str>,
    hinter: ChatHinter,
    line: &str,
    pos: usize,
    ctx: &Context<'_>,
    r: Option<String>,
)
    requires
        call_ensures(ChatHinter::new, (enabled, path, available), hinter),
        pos >= text::bytes(line@).len(),
        line@.len() > 0,
        line@[0] == '/',
        call_ensures(ChatHinter::hint, (&hinter, line, pos, ctx), r),
    ensures
        match r {
            Some(hint) => exists|i: int|
                0 <= i < available.len() && (#[trigger] available[i])@ == line@ + hint@ && forall|j: int|
                    0 <= j < i ==> !line@.is_prefix_of((#[trigger] available[j])@),
            None => forall|j: int|
                0 <= j < available.len() ==> !line@.is_prefix_of((#[trigger] available[j])@),
        },
{
    law_hint_completes_first_command(enabled, path, available, hinter, line, ctx, r);
}

/// With the cursor at the end of a line without a slash in front, the hint shows the rest of the newest entry that
/// begins with the line, while hints from the history are switched on and it is kept in memory.
pub proof fn law_hint_shows_rest_of_entry(
    enabled: bool,
    path: PathBuf,
    available: Vec<&'static str>,
    hinter: ChatHinter,
    line: &str,
    pos: usize,
    entries: Seq<Seq<char>>,
    ctx: &Context<'_>,
    r: Option<String>,
)
    requires
        call_ensures(ChatHinter::new, (enabled, path, available), hinter),
        pos >= text::bytes(line@).len(),
        enabled,
        line@.len() > 0,
        line@[0] != '/',
        history::recorded(ctx) == Some(entries),
        call_ensures(ChatHinter::hint, (&hinter, line, pos, ctx), r),
    ensures
        match r {
            Some(hint) => hint@.len() > 0 && exists|i: int|
                0 <= i < entries.len() && #[trigger] entries[i] == line@ + hint@ && forall|j: int|
                    i < j < entries.len() ==> !line@.is_prefix_of(#[trigger] entries[j]),
            None => (forall|j: int| 0 <= j < entries.len() ==> !line@.is_prefix_of(#[trigger] entries[j]))
                || exists|i: int|
                0 <= i < entries.len() && #[trigger] entries[i] == line@ && forall|j: int|
                    i < j < entries.len() ==> !line@.is_prefix_of(#[trigger] entries[j]),
        },
{
    law_hint_completes_newest_entry(enabled, path, available, hinter, line, entries, ctx, r);
}

/// What is left of an entry that was found, behind as many bytes as the line has, is the hint where it is not
/// empty; there is none where nothing was found or the search failed.
pub proof fn law_hint_from_found(
    line: &str,
    found: Result<Option<String>, ()>,
    r: Option<String>,
    head: Seq<char>,
    tail: Seq<char>,
)
    requires
        call_ensures(hint_from_found, (line, found), r),
        found matches Ok(Some(entry)) ==> entry@ == head + tail && text::bytes(head).len() == text::bytes(
            line@,
        ).len(),
    ensures
        found matches Ok(Some(_)) && tail.len() > 0 ==> (r matches Some(hint) && hint@ == tail),
        !(found matches Ok(Some(_)) && tail.len() > 0) ==> r is None,
{
    if let Ok(Some(entry)) = found {
        assert(entry@.subrange(0, head.len() as int) =~= head);
        text::lemma_split_at_prefix(entry@, head);
        assert(entry@.skip(head.len() as int) =~= tail);
        text::lemma_bytes_len(tail);
        if tail.len() == 0 {
            assert(tail =~= Seq::empty());
            assert(text::bytes(tail).len() == 0);
        }
    }
}

/// A hinter keeps the file of the history that it was made with.
pub proof fn law_history_path_is_kept(
    enabled: bool,
    path: PathBuf,
    available: Vec<&'static str>,
    hinter: ChatHinter,
    r: PathBuf,
)
    requires
        call_ensures(ChatHinter::new, (enabled, path, available), hinter),
        call_ensures(ChatHinter::get_history_path, (&hinter,), r),
    ensures
        r == path,
{
}

} // verus!
