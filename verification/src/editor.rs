//! How the line editor is set up: its mode, its keys and its helper.

use std::path::PathBuf;

use rustyline::Context;
use vstd::prelude::*;

use crate::commands;
use crate::commands::get_available_commands;
use crate::commands::COMMANDS;
use crate::completion::ChatCompleter;
use crate::completion::CompletionStep;
use crate::helper::ChatHelper;
use crate::hint;
use crate::hint::ChatHinter;
use crate::history;
use crate::settings::Os;
use crate::text;
use crate::validate::MultiLineValidator;
use crate::words;

verus! {

/// The two ways to edit a line.
#[derive(Clone, Copy, Debug, PartialEq, Eq, Structural)]
pub enum EditMode {
    Emacs,
    Vi,
}

/// How several completions are offered.
#[derive(Clone, Copy, Debug, PartialEq, Eq, Structural)]
pub enum CompletionType {
    Circular,
    List,
}

/// The options of the line editor.
#[derive(Clone, Copy, Debug, PartialEq, Eq, Structural)]
pub struct EditorConfig {
    /// Whether lines that begin with a space stay out of the history.
    pub history_ignore_space: bool,
    pub completion_type: CompletionType,
    pub edit_mode: EditMode,
}

/// A key together with the key that is held down.
#[derive(Clone, Copy, Debug, PartialEq, Eq, Structural)]
pub enum KeyPress {
    /// A character while the control key is held down.
    Ctrl(char),
    /// The enter key while the alt key is held down.
    AltEnter,
}

/// What a key does.
#[derive(Clone, Debug)]
pub enum KeyCommand {
    /// Insert a text so many times.
    Insert(usize, String),
    /// Accept the hint.
    CompleteHint,
}

/// What a key does, as contracts speak of it.
pub enum CommandText {
    Insert(int, Seq<char>),
    CompleteHint,
}

impl View for KeyCommand {
    type V = CommandText;

    open spec fn view(&self) -> CommandText {
        match self {
            KeyCommand::Insert(count, text) => CommandText::Insert(*count as int, text@),
            KeyCommand::CompleteHint => CommandText::CompleteHint,
        }
    }
}

/// A key and what it does.
#[derive(Clone, Debug)]
pub struct KeyBinding {
    pub key: KeyPress,
    pub command: KeyCommand,
}

/// A key and what it does, as contracts speak of it.
pub type BindingText = (KeyPress, CommandText);

/// The bindings that a list holds.
pub open spec fn binding_texts(bindings: Seq<KeyBinding>) -> Seq<BindingText> {
    Seq::new(bindings.len(), |i: int| (bindings[i].key, bindings[i].command@))
}

/// The key that a setting names: its only character, which has to be an ASCII character.
pub open spec fn named_key(setting: Option<Seq<char>>) -> Option<char> {
    match setting {
        Some(name) => if name.len() == 1 && name[0] <= '\x7f' {
            Some(name[0])
        } else {
            None
        },
        None => None,
    }
}

/// The key that a setting names; `default` where it names none.
pub open spec fn key_or(setting: Option<Seq<char>>, default: char) -> char {
    match named_key(setting) {
        Some(key) => key,
        None => default,
    }
}

/// The edit mode that a setting names: vi under either of its names, emacs otherwise.
pub open spec fn mode_for(setting: Option<Seq<char>>) -> EditMode {
    match setting {
        Some(mode) => if mode == "vi"@ || mode == "vim"@ {
            EditMode::Vi
        } else {
            EditMode::Emacs
        },
        None => EditMode::Emacs,
    }
}

/// The key that accepts a hint.
pub open spec fn autocompletion_key(os: &Os) -> char {
    key_or(text::opt_text(os.autocompletion_key), 'g')
}

/// The key that toggles tangent mode.
pub open spec fn tangent_key(os: &Os) -> char {
    key_or(text::opt_text(os.tangent_mode_key), 't')
}

/// The key that starts a delegate command: while the experiment is switched on, the key that the
/// setting names, unless that is the key that ends the input.
pub open spec fn delegate_key(os: &Os) -> Option<char> {
    match named_key(text::opt_text(os.delegate_mode_key)) {
        Some(key) => if os.delegate_enabled && key != 'd' && key != 'D' {
            Some(key)
        } else {
            None
        },
        None => None,
    }
}

/// The binding that starts a delegate command, where there is one.
pub open spec fn delegate_bindings(os: &Os) -> Seq<BindingText> {
    match delegate_key(os) {
        Some(key) => seq![(KeyPress::Ctrl(key), CommandText::Insert(1, "/delegate "@))],
        None => Seq::empty(),
    }
}

/// The bindings that are always there: two for a line break, one to accept a hint and one to toggle
/// tangent mode.
pub open spec fn standing_bindings(os: &Os) -> Seq<BindingText> {
    seq![
        (KeyPress::AltEnter, CommandText::Insert(1, "\n"@)),
        (KeyPress::Ctrl('j'), CommandText::Insert(1, "\n"@)),
        (KeyPress::Ctrl(autocompletion_key(os)), CommandText::CompleteHint),
        (KeyPress::Ctrl(tangent_key(os)), CommandText::Insert(1, "/tangent"@)),
    ]
}

/// The bindings that are made, in the order in which they are made.
pub open spec fn bindings_for(os: &Os) -> Seq<BindingText> {
    delegate_bindings(os) + standing_bindings(os)
}

/// The key that `c` stands for together with the control key, by a number of its own. Either case of
/// a letter stands for the key of that letter, and so does its control character, which is its place in
/// the alphabet; the control characters around the letters stand for the characters in the same place
/// after `@`. Four of them stand for keys that are no letters, the keys for backspace (which the last
/// character of ASCII stands for as well), tab, enter and escape; of these, terminals on Windows read the
/// first three as the letters H, I and M, which is not stated here.
pub open spec fn key_code(c: char) -> int {
    let n = c as int;
    if 'a' <= c <= 'z' {
        n - 32
    } else if n == 8 {
        127
    } else if n < 32 && n != 9 && n != 13 && n != 27 {
        n + 64
    } else {
        n
    }
}

/// Whether `a` and `b` are the same key.
pub open spec fn same_key(a: KeyPress, b: KeyPress) -> bool {
    match (a, b) {
        (KeyPress::Ctrl(x), KeyPress::Ctrl(y)) => key_code(x) == key_code(y),
        (KeyPress::AltEnter, KeyPress::AltEnter) => true,
        _ => false,
    }
}

/// What `key` does under `bindings`, where it is bound: a later binding replaces an earlier one.
pub open spec fn bound_to(bindings: Seq<BindingText>, key: KeyPress) -> Option<CommandText>
    decreases bindings.len(),
{
    if bindings.len() == 0 {
        None
    } else if same_key(bindings.last().0, key) {
        Some(bindings.last().1)
    } else {
        bound_to(bindings.drop_last(), key)
    }
}

/// All that the line editor is set up with.
pub struct EditorSetup {
    pub config: EditorConfig,
    pub helper: ChatHelper,
    /// The bindings, in the order in which they are to be made.
    pub bindings: Vec<KeyBinding>,
}

/// A character takes one byte if and only if it is an ASCII character.
proof fn lemma_one_byte_char(c: char)
    ensures
        vstd::utf8::encode_scalar(c as u32).len() == 1 <==> c <= '\x7f',
{
}

/// A text of one byte is one ASCII character, and the other way round.
proof fn lemma_one_byte(s: Seq<char>)
    ensures
        text::bytes(s).len() == 1 <==> s.len() == 1 && s[0] <= '\x7f',
{
    text::lemma_bytes_len(s);
    if s.len() == 1 {
        lemma_one_byte_char(s[0]);
        assert(text::bytes(s.drop_first()).len() == 0);
        assert(text::bytes(s) =~= vstd::utf8::encode_scalar(s[0] as u32));
    }
}

/// The key that a setting names.
pub fn key_of(setting: &Option<String>) -> (r: Option<char>)
    ensures
        r == named_key(text::opt_text(*setting)),
{
    match setting {
        Some(name) => {
            let name = name.as_str();
            proof {
                lemma_one_byte(name@);
            }
            if text::byte_len(name) == 1 {
                Some(name.get_char(0))
            } else {
                None
            }
        },
        None => None,
    }
}

/// The edit mode that a setting names.
pub fn edit_mode(setting: &Option<String>) -> (r: EditMode)
    ensures
        r == mode_for(text::opt_text(*setting)),
{
    match setting {
        Some(mode) => if text::is_same(mode.as_str(), "vi") || text::is_same(mode.as_str(), "vim") {
            EditMode::Vi
        } else {
            EditMode::Emacs
        },
        None => EditMode::Emacs,
    }
}

fn bind(bindings: &mut Vec<KeyBinding>, key: KeyPress, command: KeyCommand)
    ensures
        binding_texts(final(bindings)@) == binding_texts(old(bindings)@).push((key, command@)),
{
    bindings.push(KeyBinding { key, command });
    assert(binding_texts(bindings@) =~= binding_texts(old(bindings)@).push((key, command@)));
}

/// The bindings that are made, in the order in which they are made.
pub fn key_bindings(os: &Os) -> (r: Vec<KeyBinding>)
    ensures
        binding_texts(r@) == bindings_for(os),
{
    let mut bindings: Vec<KeyBinding> = Vec::new();
    assert(binding_texts(bindings@) =~= Seq::empty());
    if os.delegate_enabled {
        if let Some(key) = key_of(&os.delegate_mode_key) {
            if key != 'd' && key != 'D' {
                bind(
                    &mut bindings,
                    KeyPress::Ctrl(key),
                    KeyCommand::Insert(1, "/delegate ".to_owned()),
                );
            }
        }
    }
    assert(binding_texts(bindings@) =~= delegate_bindings(os));
    bind(&mut bindings, KeyPress::AltEnter, KeyCommand::Insert(1, "\n".to_owned()));
    bind(&mut bindings, KeyPress::Ctrl('j'), KeyCommand::Insert(1, "\n".to_owned()));
    let autocompletion: char = match key_of(&os.autocompletion_key) {
        Some(key) => key,
        None => 'g',
    };
    bind(&mut bindings, KeyPress::Ctrl(autocompletion), KeyCommand::CompleteHint);
    let tangent: char = match key_of(&os.tangent_mode_key) {
        Some(key) => key,
        None => 't',
    };
    bind(
        &mut bindings,
        KeyPress::Ctrl(tangent),
        KeyCommand::Insert(1, "/tangent".to_owned()),
    );
    assert(binding_texts(bindings@) =~= bindings_for(os));
    bindings
}

fn copy_of(list: &Vec<&'static str>) -> (r: Vec<&'static str>)
    ensures
        r@ == list@,
{
    let mut copy: Vec<&'static str> = Vec::new();
    let mut i: usize = 0;
    while i < list.len()
        invariant
            i <= list.len(),
            copy@ == list@.take(i as int),
        decreases list.len() - i,
    {
        copy.push(list[i]);
        assert(list@.take(i + 1) =~= list@.take(i as int).push(list@[i as int]));
        i += 1;
    }
    assert(list@.take(i as int) =~= list@);
    copy
}

/// What the line editor is set up with, with its history in the file `history_path`.
pub fn rl(os: &Os, history_path: PathBuf) -> (r: EditorSetup)
    ensures
        r.config.history_ignore_space,
        r.config.completion_type == CompletionType::List,
        r.config.edit_mode == mode_for(text::opt_text(os.chat_edit_mode)),
        commands::lists_commands(r.helper.completer.commands(), os),
        r.helper.hinter.commands() == r.helper.completer.commands(),
        r.helper.hinter.offers_history() == (os.chat_enable_history_hints == Some(true)),
        r.helper.hinter.path() == history_path,
        binding_texts(r.bindings@) == bindings_for(os),
        call_ensures(edit_mode, (&os.chat_edit_mode,), r.config.edit_mode),
        call_ensures(key_bindings, (os,), r.bindings),
{
    let config = EditorConfig {
        history_ignore_space: true,
        completion_type: CompletionType::List,
        edit_mode: edit_mode(&os.chat_edit_mode),
    };
    let history_hints_enabled: bool = match os.chat_enable_history_hints {
        Some(enabled) => enabled,
        None => false,
    };
    let available_commands = get_available_commands(os);
    let helper = ChatHelper {
        completer: ChatCompleter::new(copy_of(&available_commands)),
        hinter: ChatHinter::new(history_hints_enabled, history_path, available_commands),
        validator: MultiLineValidator,
    };
    EditorSetup { config, helper, bindings: key_bindings(os) }
}

/// Why the history could not be loaded.
pub struct LoadFailure {
    /// Whether the file is not there.
    pub not_found: bool,
    /// What is said of the failure.
    pub message: String,
}

/// The warning for a history that could not be loaded. There is none for a file that is not there:
/// the first session has no history yet.
pub fn history_warning(failure: &LoadFailure) -> (r: Option<String>)
    ensures
        match r {
            Some(warning) => !failure.not_found && warning@ == "Warning: Failed to load history: "@
                + failure.message@,
            None => failure.not_found,
        },
{
    if failure.not_found {
        None
    } else {
        let mut warning = "Warning: Failed to load history: ".to_owned();
        warning.append(failure.message.as_str());
        Some(warning)
    }
}

proof fn lemma_delegate_binding(os: &Os, key: char)
    requires
        delegate_key(os) == Some(key),
    ensures
        delegate_bindings(os).len() == 1,
        delegate_bindings(os)[0].0 == KeyPress::Ctrl(key),
        delegate_bindings(os)[0].1 == CommandText::Insert(1, "/delegate "@),
{
}

/// Each binding is the one for the delegate command or one of those that are always there, which
/// insert other texts.
proof fn lemma_bindings(os: &Os, i: int)
    requires
        0 <= i < bindings_for(os).len(),
    ensures
        bindings_for(os)[i].1 == CommandText::Insert(1, "/delegate "@) <==> (delegate_key(os) is Some && i
            == 0),
        delegate_key(os) is Some && i == 0 ==> bindings_for(os)[i].0 == KeyPress::Ctrl(
            delegate_key(os)->0,
        ),
        !(delegate_key(os) is Some && i == 0) ==> {
            ||| bindings_for(os)[i].0 == KeyPress::AltEnter
            ||| bindings_for(os)[i].0 == KeyPress::Ctrl('j')
            ||| bindings_for(os)[i].0 == KeyPress::Ctrl(autocompletion_key(os))
            ||| bindings_for(os)[i].0 == KeyPress::Ctrl(tangent_key(os))
        },
{
    reveal_strlit("/delegate ");
    reveal_strlit("\n");
    reveal_strlit("/tangent");
    assert("\n"@.len() != "/delegate "@.len());
    assert("/tangent"@.len() != "/delegate "@.len());
    let n = delegate_bindings(os).len();
    if let Some(key) = delegate_key(os) {
        lemma_delegate_binding(os, key);
    }
    if i < n {
        assert(bindings_for(os)[i] == delegate_bindings(os)[i]);
    } else {
        let standing = standing_bindings(os);
        assert(bindings_for(os)[i] == standing[i - n]);
        assert(standing[0] == (KeyPress::AltEnter, CommandText::Insert(1, "\n"@)));
        assert(standing[1] == (KeyPress::Ctrl('j'), CommandText::Insert(1, "\n"@)));
        assert(standing[2].0 == KeyPress::Ctrl(autocompletion_key(os)));
        assert(standing[2].1 == CommandText::CompleteHint);
        assert(standing[3].0 == KeyPress::Ctrl(tangent_key(os)));
        assert(standing[3].1 == CommandText::Insert(1, "/tangent"@));
        assert(i - n == 0 || i - n == 1 || i - n == 2 || i - n == 3);
    }
}

/// The delegate command is not bound to the letter D, which ends the input with the control key, unless
/// its setting is the control character of D itself: that one is not held against the letter.
pub proof fn law_delegate_spares_end_of_input(os: &Os, i: int)
    requires
        delegate_key(os) != Some('\x04'),
        0 <= i < bindings_for(os).len(),
        same_key(bindings_for(os)[i].0, KeyPress::Ctrl('d')),
    ensures
        bindings_for(os)[i].1 != CommandText::Insert(1, "/delegate "@),
{
    lemma_bindings(os, i);
}

/// While the delegate experiment is switched off, or its setting names no key, no key starts a
/// delegate command.
pub proof fn law_no_delegate_key(os: &Os, i: int)
    requires
        !os.delegate_enabled || named_key(text::opt_text(os.delegate_mode_key)) is None,
        0 <= i < bindings_for(os).len(),
    ensures
        bindings_for(os)[i].1 != CommandText::Insert(1, "/delegate "@),
{
    lemma_bindings(os, i);
}

/// A letter other than J is bound only where a setting names it for a key, in either case or by its
/// control character, or it is the default of one. So without settings the letters A, E, F, B and K, which editing a line rests on, stay
/// free.
pub proof fn law_other_keys_stay_free(os: &Os, key: char)
    requires
        !same_key(KeyPress::Ctrl('j'), KeyPress::Ctrl(key)),
        !same_key(KeyPress::Ctrl(autocompletion_key(os)), KeyPress::Ctrl(key)),
        !same_key(KeyPress::Ctrl(tangent_key(os)), KeyPress::Ctrl(key)),
        delegate_key(os) matches Some(delegate) ==> !same_key(
            KeyPress::Ctrl(delegate),
            KeyPress::Ctrl(key),
        ),
    ensures
        bound_to(bindings_for(os), KeyPress::Ctrl(key)) is None,
{
    let bindings = bindings_for(os);
    assert forall|i: int| 0 <= i < bindings.len() implies !same_key(
        #[trigger] bindings[i].0,
        KeyPress::Ctrl(key),
    ) by {
        lemma_bindings(os, i);
    }
    lemma_unbound(bindings, KeyPress::Ctrl(key));
}

proof fn lemma_unbound(bindings: Seq<BindingText>, key: KeyPress)
    requires
        forall|i: int| 0 <= i < bindings.len() ==> !same_key(#[trigger] bindings[i].0, key),
    ensures
        bound_to(bindings, key) is None,
    decreases bindings.len(),
{
    if bindings.len() > 0 {
        assert(bindings.last() == bindings[bindings.len() - 1]);
        let rest = bindings.drop_last();
        assert forall|i: int| 0 <= i < rest.len() implies !same_key(#[trigger] rest[i].0, key) by {
            assert(rest[i] == bindings[i]);
        }
        lemma_unbound(rest, key);
    }
}

/// A line break can always be typed: whatever the settings, alt and enter insert one, and so does
/// the letter J with the control key, unless the key for hints or for tangent mode is the same.
pub proof fn law_line_break_keys(os: &Os)
    ensures
        bound_to(bindings_for(os), KeyPress::AltEnter) == Some(CommandText::Insert(1, "\n"@)),
        !same_key(KeyPress::Ctrl(autocompletion_key(os)), KeyPress::Ctrl('j')) && !same_key(
            KeyPress::Ctrl(tangent_key(os)),
            KeyPress::Ctrl('j'),
        ) ==> bound_to(bindings_for(os), KeyPress::Ctrl('j')) == Some(CommandText::Insert(1, "\n"@)),
{
    lemma_bound_to(os, KeyPress::AltEnter);
    lemma_bound_to(os, KeyPress::Ctrl('j'));
}

/// What the bindings come to, from the one that is made last to the one that is made first.
proof fn lemma_bound_to(os: &Os, key: KeyPress)
    ensures
        bound_to(bindings_for(os), key) == (if same_key(KeyPress::Ctrl(tangent_key(os)), key) {
            Some(CommandText::Insert(1, "/tangent"@))
        } else if same_key(KeyPress::Ctrl(autocompletion_key(os)), key) {
            Some(CommandText::CompleteHint)
        } else if same_key(KeyPress::Ctrl('j'), key) || key == KeyPress::AltEnter {
            Some(CommandText::Insert(1, "\n"@))
        } else {
            bound_to(delegate_bindings(os), key)
        }),
{
    let all = bindings_for(os);
    let first = delegate_bindings(os);
    let b1 = (KeyPress::AltEnter, CommandText::Insert(1, "\n"@));
    let b2 = (KeyPress::Ctrl('j'), CommandText::Insert(1, "\n"@));
    let b3 = (KeyPress::Ctrl(autocompletion_key(os)), CommandText::CompleteHint);
    let b4 = (KeyPress::Ctrl(tangent_key(os)), CommandText::Insert(1, "/tangent"@));
    assert(all =~= first.push(b1).push(b2).push(b3).push(b4));
    assert(first.push(b1).push(b2).push(b3).push(b4).drop_last() =~= first.push(b1).push(b2).push(b3));
    assert(first.push(b1).push(b2).push(b3).drop_last() =~= first.push(b1).push(b2));
    assert(first.push(b1).push(b2).drop_last() =~= first.push(b1));
    assert(first.push(b1).drop_last() =~= first);
    reveal_with_fuel(bound_to, 5);
}

/// The key for hints accepts the hint unless tangent mode has the same key, and the key for tangent
/// mode always toggles it; a setting that names no key leaves the letters G and T.
pub proof fn law_configured_keys(os: &Os)
    ensures
        bound_to(bindings_for(os), KeyPress::Ctrl(tangent_key(os))) == Some(
            CommandText::Insert(1, "/tangent"@),
        ),
        !same_key(
            KeyPress::Ctrl(tangent_key(os)),
            KeyPress::Ctrl(autocompletion_key(os)),
        ) ==> bound_to(
            bindings_for(os),
            KeyPress::Ctrl(autocompletion_key(os)),
        ) == Some(CommandText::CompleteHint),
        named_key(text::opt_text(os.autocompletion_key)) is None ==> autocompletion_key(os) == 'g',
        named_key(text::opt_text(os.tangent_mode_key)) is None ==> tangent_key(os) == 't',
{
    lemma_bound_to(os, KeyPress::Ctrl(tangent_key(os)));
    lemma_bound_to(os, KeyPress::Ctrl(autocompletion_key(os)));
}

// ---------------------------------------------------------------------------------------------
// What holds of all calls
// ---------------------------------------------------------------------------------------------

/// A setting names a key if and only if it is one ASCII character, and then it names that character.
pub proof fn law_key_of_setting(setting: &Option<String>, r: Option<char>)
    requires
        call_ensures(key_of, (setting,), r),
    ensures
        match setting {
            Some(name) => if name@.len() == 1 && name@[0] as int <= 127 {
                r == Some(name@[0])
            } else {
                r is None
            },
            None => r is None,
        },
{
}

/// The edit mode is vi if and only if the setting is one of its two names, letter for letter.
pub proof fn law_vi_under_two_names(setting: &Option<String>, r: EditMode)
    requires
        call_ensures(edit_mode, (setting,), r),
    ensures
        r == EditMode::Vi <==> (setting matches Some(mode) && (mode@ == seq!['v', 'i'] || mode@ == seq!['v', 'i', 'm'])),
{
    reveal_strlit("vi");
    reveal_strlit("vim");
    assert("vi"@ =~= seq!['v', 'i']);
    assert("vim"@ =~= seq!['v', 'i', 'm']);
}

proof fn lemma_list_of_bindings(os: &Os, bindings: Seq<KeyBinding>)
    requires
        binding_texts(bindings) == bindings_for(os),
    ensures
        4 <= bindings.len() <= 5,
        bindings[bindings.len() - 4].key == KeyPress::AltEnter,
        bindings[bindings.len() - 4].command matches KeyCommand::Insert(count, text) && count == 1 && text@
            == seq!['\n'],
        bindings[bindings.len() - 3].key == KeyPress::Ctrl('j'),
        bindings[bindings.len() - 3].command matches KeyCommand::Insert(count, text) && count == 1 && text@
            == seq!['\n'],
        bindings[bindings.len() - 2].command is CompleteHint,
        match os.autocompletion_key {
            Some(name) => if name@.len() == 1 && name@[0] as int <= 127 {
                bindings[bindings.len() - 2].key == KeyPress::Ctrl(name@[0])
            } else {
                bindings[bindings.len() - 2].key == KeyPress::Ctrl('g')
            },
            None => bindings[bindings.len() - 2].key == KeyPress::Ctrl('g'),
        },
        bindings[bindings.len() - 1].command matches KeyCommand::Insert(count, text) && count == 1 && text@
            == "/tangent"@,
        match os.tangent_mode_key {
            Some(name) => if name@.len() == 1 && name@[0] as int <= 127 {
                bindings[bindings.len() - 1].key == KeyPress::Ctrl(name@[0])
            } else {
                bindings[bindings.len() - 1].key == KeyPress::Ctrl('t')
            },
            None => bindings[bindings.len() - 1].key == KeyPress::Ctrl('t'),
        },
        match os.delegate_mode_key {
            Some(name) => if os.delegate_enabled && name@.len() == 1 && name@[0] as int <= 127 && name@[0] != 'd'
                && name@[0] != 'D' {
                &&& bindings.len() == 5
                &&& bindings[0].key == KeyPress::Ctrl(name@[0])
                &&& bindings[0].command matches KeyCommand::Insert(count, text) && count == 1 && text@
                    == "/delegate "@
            } else {
                bindings.len() == 4
            },
            None => bindings.len() == 4,
        },
{
    reveal_strlit("\n");
    assert("\n"@ =~= seq!['\n']);
    let all = binding_texts(bindings);
    let first = delegate_bindings(os);
    let n = first.len() as int;
    if let Some(key) = delegate_key(os) {
        lemma_delegate_binding(os, key);
        assert(all[0] == first[0]);
        assert(all[0] == (bindings[0].key, bindings[0].command@));
    }
    assert(all.len() == n + 4);
    assert(all.len() == bindings.len());
    let standing = standing_bindings(os);
    assert forall|k: int| 0 <= k < 4 implies all[n + k] == #[trigger] standing[k] by {}
    assert forall|k: int| 0 <= k < 4 implies all[n + k] == (
        (#[trigger] bindings[n + k]).key,
        bindings[n + k].command@,
    ) by {}
    assert(all[n] == standing[0]);
    assert(all[n + 1] == standing[1]);
    assert(all[n + 2] == standing[2]);
    assert(all[n + 3] == standing[3]);
    assert(bindings[n].command@ == standing[0].1);
    assert(bindings[n + 1].command@ == standing[1].1);
    assert(bindings[n + 2].command@ == standing[2].1);
    assert(bindings[n + 3].command@ == standing[3].1);
}

/// In the order in which they are made, the last four bindings are those for a line break, under two keys, for
/// accepting a hint and for tangent mode; the latter two are under the key that a setting of one ASCII character
/// names, and otherwise under G and T. Before them stands, while the experiment is switched on and its setting is
/// one ASCII character other than the letter D, the binding that starts a delegate command, under that character.
pub proof fn law_key_bindings(os: &Os, bindings: Vec<KeyBinding>)
    requires
        call_ensures(key_bindings, (os,), bindings),
    ensures
        4 <= bindings.len() <= 5,
        bindings[bindings.len() - 4].key == KeyPress::AltEnter,
        bindings[bindings.len() - 4].command matches KeyCommand::Insert(count, text) && count == 1 && text@
            == seq!['\n'],
        bindings[bindings.len() - 3].key == KeyPress::Ctrl('j'),
        bindings[bindings.len() - 3].command matches KeyCommand::Insert(count, text) && count == 1 && text@
            == seq!['\n'],
        bindings[bindings.len() - 2].command is CompleteHint,
        match os.autocompletion_key {
            Some(name) => if name@.len() == 1 && name@[0] as int <= 127 {
                bindings[bindings.len() - 2].key == KeyPress::Ctrl(name@[0])
            } else {
                bindings[bindings.len() - 2].key == KeyPress::Ctrl('g')
            },
            None => bindings[bindings.len() - 2].key == KeyPress::Ctrl('g'),
        },
        bindings[bindings.len() - 1].command matches KeyCommand::Insert(count, text) && count == 1 && text@
            == "/tangent"@,
        match os.tangent_mode_key {
            Some(name) => if name@.len() == 1 && name@[0] as int <= 127 {
                bindings[bindings.len() - 1].key == KeyPress::Ctrl(name@[0])
            } else {
                bindings[bindings.len() - 1].key == KeyPress::Ctrl('t')
            },
            None => bindings[bindings.len() - 1].key == KeyPress::Ctrl('t'),
        },
        match os.delegate_mode_key {
            Some(name) => if os.delegate_enabled && name@.len() == 1 && name@[0] as int <= 127 && name@[0] != 'd'
                && name@[0] != 'D' {
                &&& bindings.len() == 5
                &&& bindings[0].key == KeyPress::Ctrl(name@[0])
                &&& bindings[0].command matches KeyCommand::Insert(count, text) && count == 1 && text@
                    == "/delegate "@
            } else {
                bindings.len() == 4
            },
            None => bindings.len() == 4,
        },
{
    lemma_list_of_bindings(os, bindings@);
}

/// The line editor keeps lines with a space in front out of the history, lists completions, edits in the mode that
/// the setting names, and is set up with the key bindings that the settings give.
pub proof fn law_editor_options(os: &Os, path: PathBuf, setup: EditorSetup)
    requires
        call_ensures(rl, (os, path), setup),
    ensures
        setup.config.history_ignore_space,
        setup.config.completion_type is List,
        call_ensures(edit_mode, (&os.chat_edit_mode,), setup.config.edit_mode),
        call_ensures(key_bindings, (os,), setup.bindings),
{
}

/// The helper that the line editor is set up with keeps the file of the history.
pub proof fn law_editor_history_path(os: &Os, path: PathBuf, setup: EditorSetup, r: PathBuf)
    requires
        call_ensures(rl, (os, path), setup),
        call_ensures(ChatHelper::get_history_path, (&setup.helper,), r),
    ensures
        r == path,
{
}

/// A command that is there: one that always is, or one that an experiment brings.
proof fn lemma_known_command(list: Seq<Seq<char>>, os: &Os, command: Seq<char>)
    requires
        commands::lists_commands(list, os),
    ensures
        list.contains(command) <==> (exists|i: int|
            0 <= i < COMMANDS@.len() && (#[trigger] COMMANDS@[i])@ == command) || (exists|i: int|
            0 <= i < os.experiment_commands.len() && (#[trigger] os.experiment_commands[i])@ == command),
{
    commands::law_available_commands(list, os, command);
    let base = text::texts(COMMANDS@);
    let more = text::texts(os.experiment_commands@);
    if base.contains(command) {
        let i = choose|i: int| 0 <= i < base.len() && base[i] == command;
        assert(COMMANDS@[i]@ == command);
    }
    if more.contains(command) {
        let i = choose|i: int| 0 <= i < more.len() && more[i] == command;
        assert(os.experiment_commands[i]@ == command);
    }
    if exists|i: int| 0 <= i < COMMANDS@.len() && (#[trigger] COMMANDS@[i])@ == command {
        let i = choose|i: int| 0 <= i < COMMANDS@.len() && (#[trigger] COMMANDS@[i])@ == command;
        assert(base[i] == command);
    }
    if exists|i: int|
        0 <= i < os.experiment_commands.len() && (#[trigger] os.experiment_commands[i])@ == command {
        let i = choose|i: int|
            0 <= i < os.experiment_commands.len() && (#[trigger] os.experiment_commands[i])@ == command;
        assert(more[i] == command);
    }
}

/// With the line editor as it is set up, a word at the cursor whose first character is a slash is completed to
/// those commands that begin with it, of the commands that are always there and those of the experiments that are
/// switched on, to be put where the word starts.
pub proof fn law_editor_completes_commands(
    os: &Os,
    path: PathBuf,
    setup: EditorSetup,
    line: &str,
    pos: usize,
    r: CompletionStep,
    before: Seq<char>,
    word: Seq<char>,
    after: Seq<char>,
    command: Seq<char>,
)
    requires
        call_ensures(rl, (os, path), setup),
        call_ensures(ChatHelper::complete, (&setup.helper, line, pos), r),
        line@ == before + word + after,
        pos == text::bytes(before + word).len(),
        forall|i: int| 0 <= i < word.len() ==> word[i] != ' ' && word[i] != '\t',
        before.len() > 0 ==> before.last() == ' ' || before.last() == '\t',
        word.len() > 0,
        word[0] == '/',
    ensures
        r matches CompletionStep::Done { start, completions } && start == text::bytes(before).len() && ((exists|
            k: int,
        |
            0 <= k < completions.len() && (#[trigger] completions[k])@ == command) <==> word.is_prefix_of(command)
            && ((exists|i: int| 0 <= i < COMMANDS@.len() && (#[trigger] COMMANDS@[i])@ == command) || (exists|
            i: int,
        |
            0 <= i < os.experiment_commands.len() && (#[trigger] os.experiment_commands[i])@ == command))),
{
    words::lemma_word_of(line@, pos as int, before, word, after);
    let known = setup.helper.completer.commands();
    if let CompletionStep::Done { start, completions } = r {
        let offered = text::owned_texts(completions@);
        commands::law_matching(known, word);
        lemma_known_command(known, os, command);
        assert(offered.contains(command) <==> known.contains(command) && word.is_prefix_of(command));
        if offered.contains(command) {
            let k = choose|k: int| 0 <= k < offered.len() && offered[k] == command;
            assert(completions[k]@ == command);
        }
        if exists|k: int| 0 <= k < completions.len() && (#[trigger] completions[k])@ == command {
            let k = choose|k: int| 0 <= k < completions.len() && (#[trigger] completions[k])@ == command;
            assert(offered[k] == command);
        }
    }
}

/// With the line editor as it is set up, there is no hint for a line without a slash in front unless the setting
/// switches hints from the history on; then the line and its hint are the newest entry that begins with the line.
pub proof fn law_editor_history_hints_are_opt_in(
    os: &Os,
    path: PathBuf,
    setup: EditorSetup,
    line: &str,
    pos: usize,
    ctx: &Context<'_>,
    entries: Seq<Seq<char>>,
    r: Option<String>,
)
    requires
        call_ensures(rl, (os, path), setup),
        call_ensures(ChatHelper::hint, (&setup.helper, line, pos, ctx), r),
        line@.len() == 0 || line@[0] != '/',
    ensures
        os.chat_enable_history_hints != Some(true) ==> r is None,
        os.chat_enable_history_hints == Some(true) && line@.len() > 0 && pos >= text::bytes(line@).len()
            && history::recorded(ctx) == Some(entries) ==> match r {
            Some(hint) => hint@.len() > 0 && exists|i: int|
                0 <= i < entries.len() && #[trigger] entries[i] == line@ + hint@ && forall|j: int|
                    i < j < entries.len() ==> !line@.is_prefix_of(#[trigger] entries[j]),
            None => (forall|j: int| 0 <= j < entries.len() ==> !line@.is_prefix_of(#[trigger] entries[j]))
                || exists|i: int|
                0 <= i < entries.len() && #[trigger] entries[i] == line@ && forall|j: int|
                    i < j < entries.len() ==> !line@.is_prefix_of(#[trigger] entries[j]),
        },
{
    hint::lemma_newest_entry(entries, line@);
}

/// With the line editor as it is set up, the hint for a line with a slash in front makes it a command that is
/// there, and there is a hint if and only if such a command begins with the line.
pub proof fn law_editor_hints_commands(
    os: &Os,
    path: PathBuf,
    setup: EditorSetup,
    line: &str,
    pos: usize,
    ctx: &Context<'_>,
    command: Seq<char>,
    r: Option<String>,
)
    requires
        call_ensures(rl, (os, path), setup),
        call_ensures(ChatHelper::hint, (&setup.helper, line, pos, ctx), r),
        line@.len() > 0,
        line@[0] == '/',
        pos >= text::bytes(line@).len(),
    ensures
        r matches Some(hint) ==> (exists|i: int|
            0 <= i < COMMANDS@.len() && (#[trigger] COMMANDS@[i])@ == line@ + hint@) || (exists|i: int|
            0 <= i < os.experiment_commands.len() && (#[trigger] os.experiment_commands[i])@ == line@ + hint@),
        line@.is_prefix_of(command) && ((exists|i: int|
            0 <= i < COMMANDS@.len() && (#[trigger] COMMANDS@[i])@ == command) || (exists|i: int|
            0 <= i < os.experiment_commands.len() && (#[trigger] os.experiment_commands[i])@ == command)) ==> r is Some,
{
    let known = setup.helper.hinter.commands();
    hint::law_accepted_command_hint(known, line@);
    lemma_known_command(known, os, command);
    if let Some(hint) = r {
        lemma_known_command(known, os, line@ + hint@);
    }
    if known.contains(command) {
        let i = choose|i: int| 0 <= i < known.len() && known[i] == command;
        assert(known[i] == command);
    }
}

/// A history that could not be loaded gives a warning with what is said of the failure, unless its file is not
/// there.
pub proof fn law_history_warning(failure: &LoadFailure, r: Option<String>)
    requires
        call_ensures(history_warning, (failure,), r),
    ensures
        failure.not_found ==> r is None,
        !failure.not_found ==> (r matches Some(warning) && warning@ == "Warning: Failed to load history: "@
            + failure.message@),
{
}

} // verus!
