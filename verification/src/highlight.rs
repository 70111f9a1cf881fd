//! Colors: how the prompt and the hints look.

use crossterm::style::Stylize;
use vstd::prelude::*;

use crate::text;

verus! {

/// The colors of the prompt.
#[derive(Clone, Copy, Debug, PartialEq, Eq, Structural)]
pub enum Color {
    Blue,
    Cyan,
    Green,
    Yellow,
    Red,
    Magenta,
}

impl Color {
    /// The number of the color among the terminal's colors.
    pub open spec fn code(self) -> nat {
        match self {
            Color::Blue => 12,
            Color::Cyan => 14,
            Color::Green => 10,
            Color::Yellow => 11,
            Color::Red => 9,
            Color::Magenta => 13,
        }
    }
}

/// How much of the context is used.
#[derive(Clone, Copy, Debug, PartialEq, Eq, Structural)]
pub enum Usage {
    /// So many percent, cut to a whole number.
    Percent(u32),
    /// A share that is not a number.
    NotANumber,
}

impl Usage {
    /// The number that is shown.
    pub open spec fn shown(self) -> nat {
        match self {
            Usage::Percent(percent) => percent as nat,
            Usage::NotANumber => 0,
        }
    }

    /// The color by level: below a half, below nine tenths, above.
    pub open spec fn color(self) -> Color {
        match self {
            Usage::Percent(percent) => if percent < 50 {
                Color::Green
            } else if percent < 90 {
                Color::Yellow
            } else {
                Color::Red
            },
            Usage::NotANumber => Color::Red,
        }
    }
}

/// The parts of a prompt.
pub struct PromptComponents {
    /// Word of a delegated task.
    pub delegate_notifier: Option<String>,
    /// The name of the profile.
    pub profile: Option<String>,
    /// How much of the context is used.
    pub usage_percentage: Option<Usage>,
    /// Whether tangent mode is on.
    pub tangent_mode: bool,
    /// Whether there is something to warn of.
    pub warning: bool,
}

/// A piece of the prompt in one color.
pub struct Segment {
    pub text: String,
    pub color: Color,
}

/// A piece of the prompt as contracts speak of it.
pub type Piece = (Seq<char>, Color);

/// The pieces that a list of segments holds.
pub open spec fn pieces(segments: Seq<Segment>) -> Seq<Piece> {
    Seq::new(segments.len(), |i: int| (segments[i].text@, segments[i].color))
}

impl PromptComponents {
    /// The notifier on a line of its own, in blue.
    pub open spec fn notifier_pieces(&self) -> Seq<Piece> {
        match self.delegate_notifier {
            Some(notifier) => seq![("["@ + notifier@ + "]\n"@, Color::Blue)],
            None => Seq::empty(),
        }
    }

    /// The profile, in cyan.
    pub open spec fn profile_pieces(&self) -> Seq<Piece> {
        match self.profile {
            Some(profile) => seq![("["@ + profile@ + "] "@, Color::Cyan)],
            None => Seq::empty(),
        }
    }

    /// The share of the context that is used, colored by its level.
    pub open spec fn usage_pieces(&self) -> Seq<Piece> {
        match self.usage_percentage {
            Some(usage) => seq![(text::decimal(usage.shown()) + "% "@, usage.color())],
            None => Seq::empty(),
        }
    }

    /// The mark of tangent mode, in yellow.
    pub open spec fn tangent_pieces(&self) -> Seq<Piece> {
        if self.tangent_mode {
            seq![("↯ "@, Color::Yellow)]
        } else {
            Seq::empty()
        }
    }

    /// The warning, in red.
    pub open spec fn warning_pieces(&self) -> Seq<Piece> {
        if self.warning {
            seq![("!"@, Color::Red)]
        } else {
            Seq::empty()
        }
    }

    /// The pieces of the prompt, in the order in which they stand; its sign, in magenta, is last and
    /// always there.
    pub open spec fn all_pieces(&self) -> Seq<Piece> {
        self.notifier_pieces() + self.profile_pieces() + self.usage_pieces() + self.tangent_pieces()
            + self.warning_pieces() + seq![("> "@, Color::Magenta)]
    }
}

// ---------------------------------------------------------------------------------------------
// Painting
// ---------------------------------------------------------------------------------------------

/// `text` in the color with number `code`: between an escape sequence that sets the color and one
/// that takes it back. An escape sequence that is written while colors are switched off is empty.
pub open spec fn paint(text: Seq<char>, code: nat, set: bool, reset: bool) -> Seq<char> {
    (if set {
        "\x1b[38;5;"@ + text::decimal(code) + "m"@
    } else {
        "\x1b[m"@
    }) + text + (if reset {
        "\x1b[39m"@
    } else {
        "\x1b[m"@
    })
}

/// Whether `out` is `text` in the color with number `code`, colors being switched on or off.
pub open spec fn is_painted(text: Seq<char>, code: nat, out: Seq<char>) -> bool {
    exists|set: bool, reset: bool| out == #[trigger] paint(text, code, set, reset)
}

/// Calls `blue` of crossterm's `Stylize` and writes the styled text out. The text stands between
/// the escape sequences of [`paint`]; which of them are empty depends on whether the process has
/// colors switched off (the `NO_COLOR` variable) at the time of the call, and is not stated. Stated
/// for systems other than Windows, where some consoles are painted by other means than escape
/// sequences.
#[verifier::external_body]
fn blue(text: &str) -> (r: String)
    ensures
        is_painted(text@, 12, r@),
{
    text.blue().to_string()
}

/// Calls `cyan` of crossterm's `Stylize` and writes the styled text out, as [`blue`] does.
#[verifier::external_body]
fn cyan(text: &str) -> (r: String)
    ensures
        is_painted(text@, 14, r@),
{
    text.cyan().to_string()
}

/// Calls `green` of crossterm's `Stylize` and writes the styled text out, as [`blue`] does.
#[verifier::external_body]
fn green(text: &str) -> (r: String)
    ensures
        is_painted(text@, 10, r@),
{
    text.green().to_string()
}

/// Calls `yellow` of crossterm's `Stylize` and writes the styled text out, as [`blue`] does.
#[verifier::external_body]
fn yellow(text: &str) -> (r: String)
    ensures
        is_painted(text@, 11, r@),
{
    text.yellow().to_string()
}

/// Calls `red` of crossterm's `Stylize` and writes the styled text out, as [`blue`] does.
#[verifier::external_body]
fn red(text: &str) -> (r: String)
    ensures
        is_painted(text@, 9, r@),
{
    text.red().to_string()
}

/// Calls `magenta` of crossterm's `Stylize` and writes the styled text out, as [`blue`] does.
#[verifier::external_body]
fn magenta(text: &str) -> (r: String)
    ensures
        is_painted(text@, 13, r@),
{
    text.magenta().to_string()
}

/// Whether `out` is what a call of crossterm for `color` may give back on `text`. That ties `out` to the
/// call, whether it finds colors switched on or off.
pub closed spec fn is_styled(text: Seq<char>, color: Color, out: Seq<char>) -> bool {
    match color {
        Color::Blue => exists|t: &str, r: String| #[trigger]
            call_ensures(blue, (t,), r) && t@ == text && r@ == out,
        Color::Cyan => exists|t: &str, r: String| #[trigger]
            call_ensures(cyan, (t,), r) && t@ == text && r@ == out,
        Color::Green => exists|t: &str, r: String| #[trigger]
            call_ensures(green, (t,), r) && t@ == text && r@ == out,
        Color::Yellow => exists|t: &str, r: String| #[trigger]
            call_ensures(yellow, (t,), r) && t@ == text && r@ == out,
        Color::Red => exists|t: &str, r: String| #[trigger]
            call_ensures(red, (t,), r) && t@ == text && r@ == out,
        Color::Magenta => exists|t: &str, r: String| #[trigger]
            call_ensures(magenta, (t,), r) && t@ == text && r@ == out,
    }
}

/// `segment.text` in `segment.color`, as crossterm gives it back.
pub fn paint_segment(segment: &Segment) -> (r: String)
    ensures
        is_styled(segment.text@, segment.color, r@),
        is_painted(segment.text@, segment.color.code(), r@),
{
    let text = segment.text.as_str();
    match segment.color {
        Color::Blue => blue(text),
        Color::Cyan => cyan(text),
        Color::Green => green(text),
        Color::Yellow => yellow(text),
        Color::Red => red(text),
        Color::Magenta => magenta(text),
    }
}

/// Texts one after the other.
pub open spec fn joined(parts: Seq<Seq<char>>) -> Seq<char>
    decreases parts.len(),
{
    if parts.len() == 0 {
        Seq::empty()
    } else {
        parts[0] + joined(parts.drop_first())
    }
}

/// Whether `parts` are the pieces, each in its color as crossterm gives it back, colors being switched
/// on or off.
pub open spec fn are_painted(pieces: Seq<Piece>, parts: Seq<Seq<char>>) -> bool {
    &&& parts.len() == pieces.len()
    &&& forall|i: int|
        0 <= i < parts.len() ==> is_painted(pieces[i].0, pieces[i].1.code(), #[trigger] parts[i])
    &&& forall|i: int|
        0 <= i < parts.len() ==> is_styled(pieces[i].0, pieces[i].1, #[trigger] parts[i])
}

/// Whether `out` is the pieces one after the other, each in its color, colors being switched on or
/// off.
pub open spec fn is_rendered(pieces: Seq<Piece>, out: Seq<char>) -> bool {
    exists|parts: Seq<Seq<char>>| are_painted(pieces, parts) && out == #[trigger] joined(parts)
}

/// The segments, each in its color.
pub fn paint_segments(segments: &Vec<Segment>) -> (r: Vec<String>)
    ensures
        are_painted(pieces(segments@), text::owned_texts(r@)),
{
    let mut parts: Vec<String> = Vec::new();
    let mut i: usize = 0;
    while i < segments.len()
        invariant
            i <= segments.len(),
            parts.len() == i,
            forall|k: int|
                0 <= k < i ==> is_painted(
                    segments[k].text@,
                    segments[k].color.code(),
                    #[trigger] parts[k]@,
                ),
            forall|k: int|
                0 <= k < i ==> is_styled(
                    segments[k].text@,
                    segments[k].color,
                    #[trigger] parts[k]@,
                ),
        decreases segments.len() - i,
    {
        parts.push(paint_segment(&segments[i]));
        i += 1;
    }
    parts
}

proof fn lemma_joined_push(parts: Seq<Seq<char>>, part: Seq<char>)
    ensures
        joined(parts.push(part)) == joined(parts) + part,
    decreases parts.len(),
{
    if parts.len() == 0 {
        reveal_with_fuel(joined, 2);
        assert(parts.push(part).drop_first() =~= Seq::empty());
        assert(joined(parts.push(part)) =~= joined(parts) + part);
    } else {
        assert(parts.push(part).drop_first() =~= parts.drop_first().push(part));
        lemma_joined_push(parts.drop_first(), part);
        assert(joined(parts.push(part)) =~= joined(parts) + part);
    }
}

/// Texts one after the other.
pub fn join(parts: &Vec<String>) -> (r: String)
    ensures
        r@ == joined(text::owned_texts(parts@)),
{
    let mut result = String::new();
    let ghost all = text::owned_texts(parts@);
    let mut i: usize = 0;
    while i < parts.len()
        invariant
            i <= parts.len(),
            all == text::owned_texts(parts@),
            result@ == joined(all.take(i as int)),
        decreases parts.len() - i,
    {
        result.append(parts[i].as_str());
        proof {
            lemma_joined_push(all.take(i as int), all[i as int]);
            assert(all.take(i + 1) =~= all.take(i as int).push(all[i as int]));
        }
        i += 1;
    }
    assert(all.take(i as int) =~= all);
    result
}

fn bracketed(name: &str, end: &str) -> (r: String)
    ensures
        r@ == "["@ + name@ + end@,
{
    let mut text = "[".to_owned();
    text.append(name);
    text.append(end);
    text
}

fn push_segment(segments: &mut Vec<Segment>, text: String, color: Color)
    ensures
        pieces(final(segments)@) == pieces(old(segments)@).push((text@, color)),
{
    segments.push(Segment { text, color });
    assert(pieces(segments@) =~= pieces(old(segments)@).push((text@, color)));
}

/// The segments of a prompt, in the order in which they stand.
pub fn prompt_segments(components: &PromptComponents) -> (r: Vec<Segment>)
    ensures
        pieces(r@) == components.all_pieces(),
{
    let mut segments: Vec<Segment> = Vec::new();
    assert(pieces(segments@) =~= Seq::empty());
    if let Some(notifier) = &components.delegate_notifier {
        push_segment(&mut segments, bracketed(notifier.as_str(), "]\n"), Color::Blue);
    }
    assert(pieces(segments@) =~= components.notifier_pieces());
    if let Some(profile) = &components.profile {
        push_segment(&mut segments, bracketed(profile.as_str(), "] "), Color::Cyan);
    }
    assert(pieces(segments@) =~= components.notifier_pieces() + components.profile_pieces());
    if let Some(usage) = &components.usage_percentage {
        let (percent, color): (u32, Color) = match usage {
            Usage::Percent(percent) => if *percent < 50 {
                (*percent, Color::Green)
            } else if *percent < 90 {
                (*percent, Color::Yellow)
            } else {
                (*percent, Color::Red)
            },
            Usage::NotANumber => (0, Color::Red),
        };
        let mut text = String::new();
        text::push_decimal(&mut text, percent);
        text.append("% ");
        assert(text@ =~= text::decimal(usage.shown()) + "% "@);
        push_segment(&mut segments, text, color);
    }
    assert(pieces(segments@) =~= components.notifier_pieces() + components.profile_pieces()
        + components.usage_pieces());
    if components.tangent_mode {
        push_segment(&mut segments, "↯ ".to_owned(), Color::Yellow);
    }
    assert(pieces(segments@) =~= components.notifier_pieces() + components.profile_pieces()
        + components.usage_pieces() + components.tangent_pieces());
    if components.warning {
        push_segment(&mut segments, "!".to_owned(), Color::Red);
    }
    assert(pieces(segments@) =~= components.notifier_pieces() + components.profile_pieces()
        + components.usage_pieces() + components.tangent_pieces() + components.warning_pieces());
    push_segment(&mut segments, "> ".to_owned(), Color::Magenta);
    assert(pieces(segments@) =~= components.all_pieces());
    segments
}

/// What a hint looks like: grey.
pub open spec fn grey(hint: Seq<char>) -> Seq<char> {
    "\x1b[38;5;240m"@ + hint + "\x1b[m"@
}

// ---------------------------------------------------------------------------------------------
// What is read of it
// ---------------------------------------------------------------------------------------------

/// What a terminal shows of `s`: all but its escape sequences, each of which runs from the escape
/// character to the next `m`. `inside` tells whether `s` begins within one.
pub open spec fn shown(s: Seq<char>, inside: bool) -> Seq<char>
    decreases s.len(),
{
    if s.len() == 0 {
        Seq::empty()
    } else if inside {
        shown(s.drop_first(), s[0] != 'm')
    } else if s[0] == '\x1b' {
        shown(s.drop_first(), true)
    } else {
        seq![s[0]] + shown(s.drop_first(), false)
    }
}

/// What a terminal shows of `s`.
pub open spec fn visible(s: Seq<char>) -> Seq<char> {
    shown(s, false)
}

/// Whether `s` holds no escape character.
pub open spec fn is_plain(s: Seq<char>) -> bool {
    forall|i: int| 0 <= i < s.len() ==> s[i] != '\x1b'
}

/// Whether no piece holds an escape character.
pub open spec fn all_plain(pieces: Seq<Piece>) -> bool {
    forall|i: int| 0 <= i < pieces.len() ==> is_plain(#[trigger] pieces[i].0)
}

/// The text of pieces one after the other.
pub open spec fn plain(pieces: Seq<Piece>) -> Seq<char>
    decreases pieces.len(),
{
    if pieces.len() == 0 {
        Seq::empty()
    } else {
        pieces[0].0 + plain(pieces.drop_first())
    }
}

impl PromptComponents {
    /// The prompt without colors.
    pub open spec fn plain_text(&self) -> Seq<char> {
        (match self.delegate_notifier {
            Some(notifier) => "["@ + notifier@ + "]\n"@,
            None => Seq::empty(),
        }) + (match self.profile {
            Some(profile) => "["@ + profile@ + "] "@,
            None => Seq::empty(),
        }) + (match self.usage_percentage {
            Some(usage) => text::decimal(usage.shown()) + "% "@,
            None => Seq::empty(),
        }) + (if self.tangent_mode {
            "↯ "@
        } else {
            Seq::empty()
        }) + (if self.warning {
            "!"@
        } else {
            Seq::empty()
        }) + "> "@
    }

    /// Whether neither the notifier nor the profile holds an escape character.
    pub open spec fn has_plain_names(&self) -> bool {
        &&& self.delegate_notifier matches Some(notifier) ==> is_plain(notifier@)
        &&& self.profile matches Some(profile) ==> is_plain(profile@)
    }
}

proof fn lemma_shown_plain(s: Seq<char>, rest: Seq<char>)
    requires
        is_plain(s),
    ensures
        shown(s + rest, false) == s + shown(rest, false),
    decreases s.len(),
{
    if s.len() == 0 {
        assert(s + rest =~= rest);
        assert(s + shown(rest, false) =~= shown(rest, false));
    } else {
        assert((s + rest).drop_first() =~= s.drop_first() + rest);
        lemma_shown_plain(s.drop_first(), rest);
        assert(shown(s + rest, false) =~= s + shown(rest, false));
    }
}

proof fn lemma_shown_escape(body: Seq<char>, rest: Seq<char>)
    requires
        forall|i: int| 0 <= i < body.len() ==> body[i] != 'm',
    ensures
        shown(body + seq!['m'] + rest, true) == shown(rest, false),
    decreases body.len(),
{
    let s = body + seq!['m'] + rest;
    if body.len() == 0 {
        assert(s.drop_first() =~= rest);
    } else {
        assert(s.drop_first() =~= body.drop_first() + seq!['m'] + rest);
        lemma_shown_escape(body.drop_first(), rest);
    }
}

/// An escape sequence leaves nothing to see.
proof fn lemma_visible_escape(body: Seq<char>, rest: Seq<char>)
    requires
        forall|i: int| 0 <= i < body.len() ==> body[i] != 'm',
    ensures
        visible(seq!['\x1b'] + body + seq!['m'] + rest) == visible(rest),
{
    let s = seq!['\x1b'] + body + seq!['m'] + rest;
    assert(s.drop_first() =~= body + seq!['m'] + rest);
    lemma_shown_escape(body, rest);
}

spec fn digit_of(n: nat) -> char {
    text::digit(n % 10)
}

/// A numeral holds digits only.
proof fn lemma_decimal_digits(n: nat)
    ensures
        forall|i: int|
            0 <= i < text::decimal(n).len() ==> '0' <= #[trigger] text::decimal(n)[i] <= '9',
    decreases n,
{
    let d = digit_of(n);
    assert('0' <= d <= '9');
    if n >= 10 {
        lemma_decimal_digits(n / 10);
        assert(text::decimal(n) == text::decimal(n / 10).push(d));
    } else {
        assert(text::decimal(n) == seq![d]);
    }
}

proof fn lemma_visible_paint(s: Seq<char>, code: nat, set: bool, reset: bool, rest: Seq<char>)
    requires
        is_plain(s),
    ensures
        visible(paint(s, code, set, reset) + rest) == s + visible(rest),
{
    reveal_strlit("\x1b[38;5;");
    reveal_strlit("m");
    reveal_strlit("\x1b[m");
    reveal_strlit("\x1b[39m");
    lemma_decimal_digits(code);
    let closing = if reset {
        seq!['[', '3', '9']
    } else {
        seq!['[']
    };
    let end = seq!['\x1b'] + closing + seq!['m'] + rest;
    lemma_visible_escape(closing, rest);
    lemma_shown_plain(s, end);
    let opening = if set {
        seq!['[', '3', '8', ';', '5', ';'] + text::decimal(code)
    } else {
        seq!['[']
    };
    lemma_visible_escape(opening, s + end);
    assert(paint(s, code, set, reset) + rest =~= seq!['\x1b'] + opening + seq!['m'] + (s + end));
}

/// Colors change nothing of what is read: whether they are switched on or off, the terminal shows
/// the text of the pieces.
pub proof fn law_colors_keep_text(pieces: Seq<Piece>, out: Seq<char>)
    requires
        is_rendered(pieces, out),
        all_plain(pieces),
    ensures
        visible(out) == plain(pieces),
{
    let parts = choose|parts: Seq<Seq<char>>|
        are_painted(pieces, parts) && out == #[trigger] joined(parts);
    lemma_visible_parts(pieces, parts);
}

proof fn lemma_visible_parts(pieces: Seq<Piece>, parts: Seq<Seq<char>>)
    requires
        are_painted(pieces, parts),
        all_plain(pieces),
    ensures
        visible(joined(parts)) == plain(pieces),
    decreases pieces.len(),
{
    if pieces.len() > 0 {
        let piece = pieces[0];
        let rest = pieces.drop_first();
        let others = parts.drop_first();
        assert forall|i: int| 0 <= i < rest.len() implies is_plain(#[trigger] rest[i].0) by {
            assert(rest[i] == pieces[i + 1]);
        }
        assert forall|i: int| 0 <= i < others.len() implies is_painted(
            rest[i].0,
            rest[i].1.code(),
            #[trigger] others[i],
        ) by {
            assert(others[i] == parts[i + 1]);
            assert(rest[i] == pieces[i + 1]);
        }
        lemma_visible_parts(rest, others);
        assert(is_painted(piece.0, piece.1.code(), parts[0]));
        let (set, reset) = choose|set: bool, reset: bool|
            parts[0] == #[trigger] paint(piece.0, piece.1.code(), set, reset);
        lemma_visible_paint(piece.0, piece.1.code(), set, reset, joined(others));
    }
}

proof fn lemma_plain_concat(a: Seq<Piece>, b: Seq<Piece>)
    ensures
        plain(a + b) == plain(a) + plain(b),
        all_plain(a) && all_plain(b) ==> all_plain(a + b),
    decreases a.len(),
{
    if a.len() == 0 {
        assert(a + b =~= b);
        assert(plain(a) + plain(b) =~= plain(b));
    } else {
        assert((a + b).drop_first() =~= a.drop_first() + b);
        lemma_plain_concat(a.drop_first(), b);
        assert(plain(a + b) =~= plain(a) + plain(b));
    }
    if all_plain(a) && all_plain(b) {
        assert forall|i: int| 0 <= i < (a + b).len() implies is_plain(#[trigger] (a + b)[i].0) by {
            if i < a.len() {
                assert((a + b)[i] == a[i]);
            } else {
                assert((a + b)[i] == b[i - a.len()]);
            }
        }
    }
}

proof fn lemma_plain_one(piece: Piece)
    ensures
        plain(seq![piece]) == piece.0,
        is_plain(piece.0) ==> all_plain(seq![piece]),
{
    assert(seq![piece].drop_first() =~= Seq::empty());
    assert(plain(Seq::<Piece>::empty()) =~= Seq::empty());
    assert(plain(seq![piece]) =~= piece.0);
}

proof fn lemma_plain_brackets(name: Seq<char>)
    requires
        is_plain(name),
    ensures
        is_plain("["@ + name + "]\n"@),
        is_plain("["@ + name + "] "@),
{
    reveal_strlit("[");
    reveal_strlit("]\n");
    reveal_strlit("] ");
}

proof fn lemma_plain_signs(n: nat)
    ensures
        is_plain(text::decimal(n) + "% "@),
        is_plain("↯ "@),
        is_plain("!"@),
        is_plain("> "@),
{
    reveal_strlit("% ");
    reveal_strlit("↯ ");
    reveal_strlit("!");
    reveal_strlit("> ");
    lemma_decimal_digits(n);
}

/// The highlighted prompt reads as the prompt without colors.
pub proof fn law_highlighted_prompt_reads_plain(components: &PromptComponents, out: Seq<char>)
    requires
        is_rendered(components.all_pieces(), out),
        components.has_plain_names(),
    ensures
        visible(out) == components.plain_text(),
{
    let c = components;
    let p1 = c.notifier_pieces();
    let p2 = c.profile_pieces();
    let p3 = c.usage_pieces();
    let p4 = c.tangent_pieces();
    let p5 = c.warning_pieces();
    let p6 = seq![("> "@, Color::Magenta)];
    if let Some(notifier) = c.delegate_notifier {
        lemma_plain_brackets(notifier@);
        lemma_plain_one(("["@ + notifier@ + "]\n"@, Color::Blue));
    }
    if let Some(profile) = c.profile {
        lemma_plain_brackets(profile@);
        lemma_plain_one(("["@ + profile@ + "] "@, Color::Cyan));
    }
    if let Some(usage) = c.usage_percentage {
        lemma_plain_signs(usage.shown());
        lemma_plain_one((text::decimal(usage.shown()) + "% "@, usage.color()));
    }
    lemma_plain_signs(0);
    lemma_plain_one(("↯ "@, Color::Yellow));
    lemma_plain_one(("!"@, Color::Red));
    lemma_plain_one(("> "@, Color::Magenta));
    lemma_plain_concat(p1, p2);
    lemma_plain_concat(p1 + p2, p3);
    lemma_plain_concat(p1 + p2 + p3, p4);
    lemma_plain_concat(p1 + p2 + p3 + p4, p5);
    lemma_plain_concat(p1 + p2 + p3 + p4 + p5, p6);
    law_colors_keep_text(c.all_pieces(), out);
}

/// The highlighted hint reads as the hint.
pub proof fn law_highlighted_hint_reads_plain(hint: Seq<char>)
    requires
        is_plain(hint),
    ensures
        visible(grey(hint)) == hint,
{
    reveal_strlit("\x1b[38;5;240m");
    reveal_strlit("\x1b[m");
    let empty = Seq::<char>::empty();
    let end = seq!['\x1b'] + seq!['['] + seq!['m'] + empty;
    let opening = seq!['[', '3', '8', ';', '5', ';', '2', '4', '0'];
    lemma_visible_escape(seq!['['], empty);
    lemma_shown_plain(hint, end);
    lemma_visible_escape(opening, hint + end);
    assert(grey(hint) =~= seq!['\x1b'] + opening + seq!['m'] + (hint + end));
    assert(hint + visible(empty) =~= hint);
}

// ---------------------------------------------------------------------------------------------
// What holds of all calls
// ---------------------------------------------------------------------------------------------

/// Whether `out` is `text` between two escape sequences: the first sets the terminal's color with number
/// `code` or is empty, and the second takes the color back or is empty.
pub open spec fn in_color(out: Seq<char>, text: Seq<char>, code: Seq<char>) -> bool {
    let on = seq!['\x1b', '[', '3', '8', ';', '5', ';'] + code + seq!['m'];
    let back = seq!['\x1b', '[', '3', '9', 'm'];
    let empty = seq!['\x1b', '[', 'm'];
    ||| out == on + text + back
    ||| out == on + text + empty
    ||| out == empty + text + back
    ||| out == empty + text + empty
}

/// The numbers of the terminal's colors, in digits.
spec fn color_digits(color: Color) -> Seq<char> {
    match color {
        Color::Blue => seq!['1', '2'],
        Color::Cyan => seq!['1', '4'],
        Color::Green => seq!['1', '0'],
        Color::Yellow => seq!['1', '1'],
        Color::Red => seq!['9'],
        Color::Magenta => seq!['1', '3'],
    }
}

proof fn lemma_in_color(text: Seq<char>, color: Color, out: Seq<char>)
    requires
        is_painted(text, color.code(), out),
    ensures
        in_color(out, text, color_digits(color)),
{
    reveal_strlit("\x1b[38;5;");
    reveal_strlit("m");
    reveal_strlit("\x1b[m");
    reveal_strlit("\x1b[39m");
    reveal_with_fuel(text::decimal, 3);
    let code = color_digits(color);
    assert(text::decimal(color.code()) =~= code);
    let on = seq!['\x1b', '[', '3', '8', ';', '5', ';'] + code + seq!['m'];
    assert("\x1b[38;5;"@ + text::decimal(color.code()) + "m"@ =~= on);
    assert("\x1b[39m"@ =~= seq!['\x1b', '[', '3', '9', 'm']);
    assert("\x1b[m"@ =~= seq!['\x1b', '[', 'm']);
    let (set, reset) = choose|set: bool, reset: bool| out == #[trigger] paint(text, color.code(), set, reset);
}

/// A segment is painted in its own color: its text stands as it is between the escape sequence for the number
/// of that color and the one that takes it back.
pub proof fn law_painted_segment(segment: &Segment, r: String)
    requires
        call_ensures(paint_segment, (segment,), r),
    ensures
        match segment.color {
            Color::Blue => in_color(r@, segment.text@, seq!['1', '2']),
            Color::Cyan => in_color(r@, segment.text@, seq!['1', '4']),
            Color::Green => in_color(r@, segment.text@, seq!['1', '0']),
            Color::Yellow => in_color(r@, segment.text@, seq!['1', '1']),
            Color::Red => in_color(r@, segment.text@, seq!['9']),
            Color::Magenta => in_color(r@, segment.text@, seq!['1', '3']),
        },
{
    lemma_in_color(segment.text@, segment.color, r@);
}

/// Segments are painted one for one, each in its own color.
pub proof fn law_painted_segments(segments: &Vec<Segment>, r: Vec<String>, i: int)
    requires
        call_ensures(paint_segments, (segments,), r),
        0 <= i < segments.len(),
    ensures
        r.len() == segments.len(),
        match segments[i].color {
            Color::Blue => in_color(r[i]@, segments[i].text@, seq!['1', '2']),
            Color::Cyan => in_color(r[i]@, segments[i].text@, seq!['1', '4']),
            Color::Green => in_color(r[i]@, segments[i].text@, seq!['1', '0']),
            Color::Yellow => in_color(r[i]@, segments[i].text@, seq!['1', '1']),
            Color::Red => in_color(r[i]@, segments[i].text@, seq!['9']),
            Color::Magenta => in_color(r[i]@, segments[i].text@, seq!['1', '3']),
        },
{
    let parts = text::owned_texts(r@);
    assert(parts.len() == pieces(segments@).len());
    assert(parts[i] == r[i]@);
    assert(pieces(segments@)[i] == (segments[i].text@, segments[i].color));
    lemma_in_color(segments[i].text@, segments[i].color, r[i]@);
}

/// No texts make an empty text, and one text more stands behind the others.
pub proof fn law_texts_are_joined(parts: &Vec<String>, more: &Vec<String>, last: String, r: String, longer: String)
    requires
        more@ == parts@.push(last),
        call_ensures(join, (parts,), r),
        call_ensures(join, (more,), longer),
    ensures
        parts.len() == 0 ==> r@.len() == 0,
        longer@ == r@ + last@,
{
    assert(text::owned_texts(more@) =~= text::owned_texts(parts@).push(last@));
    lemma_joined_push(text::owned_texts(parts@), last@);
}

/// One where a part of the prompt is there.
pub open spec fn one_if(present: bool) -> int {
    if present {
        1
    } else {
        0
    }
}

/// The segments of a prompt: the notifier in brackets on a line of its own, in blue; the profile in brackets, in
/// cyan; the share of the context that is used, in percent, in green below 50, in yellow from there to below 90
/// and in red from 90 on; the mark of tangent mode, in yellow; the warning, in red; each where it is there, one
/// behind the other, and behind them, always, the sign in magenta.
pub proof fn law_prompt_segments(components: &PromptComponents, r: Vec<Segment>)
    requires
        call_ensures(prompt_segments, (components,), r),
    ensures
        ({
            let n = one_if(components.delegate_notifier is Some);
            let p = n + one_if(components.profile is Some);
            let u = p + one_if(components.usage_percentage is Some);
            let t = u + one_if(components.tangent_mode);
            let w = t + one_if(components.warning);
            &&& r.len() == w + 1
            &&& components.delegate_notifier matches Some(notifier) ==> r[0].text@ == seq!['['] + notifier@ + seq![
                ']',
                '\n',
            ] && r[0].color is Blue
            &&& components.profile matches Some(profile) ==> r[n].text@ == seq!['['] + profile@ + seq![']', ' ']
                && r[n].color is Cyan
            &&& components.usage_percentage matches Some(Usage::Percent(percent)) ==> (exists|digits: Seq<char>|
                r[p].text@ == digits + seq!['%', ' '] && #[trigger] text::is_numeral(digits, percent as int)) && (
            r[p].color is Green <==> percent < 50) && (r[p].color is Yellow <==> 50 <= percent < 90) && (
            r[p].color is Red <==> percent >= 90)
            &&& components.usage_percentage matches Some(Usage::NotANumber) ==> r[p].text@ == seq!['0', '%', ' ']
                && r[p].color is Red
            &&& components.tangent_mode ==> r[u].text@ == seq!['↯', ' '] && r[u].color is Yellow
            &&& components.warning ==> r[t].text@ == seq!['!'] && r[t].color is Red
            &&& r[w].text@ == seq!['>', ' '] && r[w].color is Magenta
        }),
{
    let c = components;
    let p1 = c.notifier_pieces();
    let p2 = c.profile_pieces();
    let p3 = c.usage_pieces();
    let p4 = c.tangent_pieces();
    let p5 = c.warning_pieces();
    let p6 = seq![("> "@, Color::Magenta)];
    let n = one_if(components.delegate_notifier is Some);
    let p = n + one_if(components.profile is Some);
    let u = p + one_if(components.usage_percentage is Some);
    let t = u + one_if(components.tangent_mode);
    let w = t + one_if(components.warning);
    let all = c.all_pieces();
    lemma_signs();
    assert(p1.len() == n && p2.len() == p - n && p3.len() == u - p && p4.len() == t - u && p5.len() == w - t);
    assert(pieces(r@).len() == r.len());
    assert forall|k: int| 0 <= k < r.len() implies all[k] == ((#[trigger] r[k]).text@, r[k].color) by {
        assert(pieces(r@)[k] == (r[k].text@, r[k].color));
    }
    if let Some(notifier) = c.delegate_notifier {
        assert(all[0] == p1[0]);
        assert(all[0] == (r[0].text@, r[0].color));
        assert("["@ + notifier@ + "]\n"@ =~= seq!['['] + notifier@ + seq![']', '\n']);
    }
    if let Some(profile) = c.profile {
        assert(all[n] == p2[0]);
        assert(all[n] == (r[n].text@, r[n].color));
    }
    if let Some(usage) = c.usage_percentage {
        assert(all[p] == p3[0]);
        assert(all[p] == (r[p].text@, r[p].color));
        text::law_decimal(usage.shown());
        assert(r[p].text@ == text::decimal(usage.shown()) + seq!['%', ' ']);
        if usage is NotANumber {
            assert(text::decimal(0) =~= seq!['0']);
            assert(r[p].text@ =~= seq!['0', '%', ' ']);
        }
    }
    if c.tangent_mode {
        assert(all[u] == p4[0]);
        assert(all[u] == (r[u].text@, r[u].color));
    }
    if c.warning {
        assert(all[t] == p5[0]);
        assert(all[t] == (r[t].text@, r[t].color));
    }
    assert(all[w] == p6[0]);
    assert(all[w] == (r[w].text@, r[w].color));
}

proof fn lemma_signs()
    ensures
        "["@ == seq!['['],
        "]\n"@ == seq![']', '\n'],
        "] "@ == seq![']', ' '],
        "% "@ == seq!['%', ' '],
        "↯ "@ == seq!['↯', ' '],
        "!"@ == seq!['!'],
        "> "@ == seq!['>', ' '],
{
    reveal_strlit("[");
    reveal_strlit("]\n");
    reveal_strlit("] ");
    reveal_strlit("% ");
    reveal_strlit("↯ ");
    reveal_strlit("!");
    reveal_strlit("> ");
}

/// The color of the share of the context that is used never falls from a higher level to a lower one as the share
/// grows.
pub proof fn law_level_grows(
    components: &PromptComponents,
    more: &PromptComponents,
    percent: u32,
    greater: u32,
    r: Vec<Segment>,
    s: Vec<Segment>,
)
    requires
        components.usage_percentage == Some(Usage::Percent(percent)),
        more.usage_percentage == Some(Usage::Percent(greater)),
        percent <= greater,
        call_ensures(prompt_segments, (components,), r),
        call_ensures(prompt_segments, (more,), s),
    ensures
        ({
            let i = one_if(components.delegate_notifier is Some) + one_if(components.profile is Some);
            let j = one_if(more.delegate_notifier is Some) + one_if(more.profile is Some);
            &&& r[i].color is Yellow ==> s[j].color is Yellow || s[j].color is Red
            &&& r[i].color is Red ==> s[j].color is Red
            &&& s[j].color is Green ==> r[i].color is Green
        }),
{
    law_prompt_segments(components, r);
    law_prompt_segments(more, s);
}

/// Whether `parts` are the six parts of the prompt as they look, empty where they are not there: the notifier, the
/// profile, the share of the context that is used, the mark of tangent mode, the warning and the sign.
pub open spec fn are_prompt_parts(components: &PromptComponents, parts: Seq<Seq<char>>) -> bool {
    &&& parts.len() == 6
    &&& match components.delegate_notifier {
        Some(notifier) => in_color(parts[0], seq!['['] + notifier@ + seq![']', '\n'], seq!['1', '2']),
        None => parts[0].len() == 0,
    }
    &&& match components.profile {
        Some(profile) => in_color(parts[1], seq!['['] + profile@ + seq![']', ' '], seq!['1', '4']),
        None => parts[1].len() == 0,
    }
    &&& match components.usage_percentage {
        Some(Usage::Percent(percent)) => exists|digits: Seq<char>| #[trigger]
            text::is_numeral(digits, percent as int) && in_color(
                parts[2],
                digits + seq!['%', ' '],
                if percent < 50 {
                    seq!['1', '0']
                } else if percent < 90 {
                    seq!['1', '1']
                } else {
                    seq!['9']
                },
            ),
        Some(Usage::NotANumber) => in_color(parts[2], seq!['0', '%', ' '], seq!['9']),
        None => parts[2].len() == 0,
    }
    &&& if components.tangent_mode {
        in_color(parts[3], seq!['↯', ' '], seq!['1', '1'])
    } else {
        parts[3].len() == 0
    }
    &&& if components.warning {
        in_color(parts[4], seq!['!'], seq!['9'])
    } else {
        parts[4].len() == 0
    }
    &&& in_color(parts[5], seq!['>', ' '], seq!['1', '3'])
}

proof fn lemma_joined_concat(a: Seq<Seq<char>>, b: Seq<Seq<char>>)
    ensures
        joined(a + b) == joined(a) + joined(b),
    decreases a.len(),
{
    if a.len() == 0 {
        assert(a + b =~= b);
        assert(joined(a) + joined(b) =~= joined(b));
    } else {
        assert((a + b).drop_first() =~= a.drop_first() + b);
        lemma_joined_concat(a.drop_first(), b);
        assert(joined(a + b) =~= joined(a) + joined(b));
    }
}

/// What is rendered of two lists of pieces splits into what is rendered of each.
proof fn lemma_rendered_concat(a: Seq<Piece>, b: Seq<Piece>, out: Seq<char>) -> (r: (Seq<char>, Seq<char>))
    requires
        is_rendered(a + b, out),
    ensures
        out == r.0 + r.1,
        is_rendered(a, r.0),
        is_rendered(b, r.1),
{
    let parts = choose|parts: Seq<Seq<char>>| are_painted(a + b, parts) && out == #[trigger] joined(parts);
    let n = a.len() as int;
    let x = parts.take(n);
    let y = parts.skip(n);
    assert(parts =~= x + y);
    lemma_joined_concat(x, y);
    assert(are_painted(a, x)) by {
        assert forall|i: int| 0 <= i < x.len() implies is_painted(a[i].0, a[i].1.code(), #[trigger] x[i])
            && is_styled(a[i].0, a[i].1, x[i]) by {
            assert(x[i] == parts[i]);
            assert((a + b)[i] == a[i]);
        }
    }
    assert(are_painted(b, y)) by {
        assert forall|i: int| 0 <= i < y.len() implies is_painted(b[i].0, b[i].1.code(), #[trigger] y[i])
            && is_styled(b[i].0, b[i].1, y[i]) by {
            assert(y[i] == parts[n + i]);
            assert((a + b)[n + i] == b[i]);
        }
    }
    (joined(x), joined(y))
}

proof fn lemma_rendered_few(list: Seq<Piece>, out: Seq<char>)
    requires
        is_rendered(list, out),
        list.len() <= 1,
    ensures
        list.len() == 0 ==> out.len() == 0,
        list.len() == 1 ==> in_color(out, list[0].0, color_digits(list[0].1)),
{
    let parts = choose|parts: Seq<Seq<char>>| are_painted(list, parts) && out == #[trigger] joined(parts);
    if list.len() == 1 {
        assert(joined(parts.drop_first()) =~= Seq::empty());
        assert(out =~= parts[0]);
        lemma_in_color(list[0].0, list[0].1, out);
    }
}

/// The prompt as it looks, by its parts.
pub proof fn lemma_prompt_parts(components: &PromptComponents, out: Seq<char>)
    requires
        is_rendered(components.all_pieces(), out),
    ensures
        exists|parts: Seq<Seq<char>>|
            out == parts[0] + parts[1] + parts[2] + parts[3] + parts[4] + parts[5] && #[trigger] are_prompt_parts(
                components,
                parts,
            ),
{
    let c = components;
    let p1 = c.notifier_pieces();
    let p2 = c.profile_pieces();
    let p3 = c.usage_pieces();
    let p4 = c.tangent_pieces();
    let p5 = c.warning_pieces();
    let p6 = seq![("> "@, Color::Magenta)];
    lemma_signs();
    let (o5, s) = lemma_rendered_concat(p1 + p2 + p3 + p4 + p5, p6, out);
    let (o4, w) = lemma_rendered_concat(p1 + p2 + p3 + p4, p5, o5);
    let (o3, t) = lemma_rendered_concat(p1 + p2 + p3, p4, o4);
    let (o2, u) = lemma_rendered_concat(p1 + p2, p3, o3);
    let (n, p) = lemma_rendered_concat(p1, p2, o2);
    lemma_rendered_few(p1, n);
    lemma_rendered_few(p2, p);
    lemma_rendered_few(p3, u);
    lemma_rendered_few(p4, t);
    lemma_rendered_few(p5, w);
    lemma_rendered_few(p6, s);
    if let Some(usage) = c.usage_percentage {
        text::law_decimal(usage.shown());
        assert(p3[0].0 == text::decimal(usage.shown()) + seq!['%', ' ']);
        if usage is NotANumber {
            assert(text::decimal(0) =~= seq!['0']);
            assert(p3[0].0 =~= seq!['0', '%', ' ']);
        }
    }
    let parts = seq![n, p, u, t, w, s];
    assert(are_prompt_parts(c, parts));
    assert(out =~= parts[0] + parts[1] + parts[2] + parts[3] + parts[4] + parts[5]);
}

} // verus!
