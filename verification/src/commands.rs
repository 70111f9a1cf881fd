//! The slash commands that a prompt knows.

use vstd::prelude::*;

use crate::settings::Os;
use crate::text;

verus! {

/// The commands that are always there.
pub const COMMANDS: [&'static str; 46] = [
    "/clear",
    "/help",
    "/editor",
    "/reply",
    "/issue",
    "/quit",
    "/tools",
    "/tools trust",
    "/tools untrust",
    "/tools trust-all",
    "/tools reset",
    "/mcp",
    "/model",
    "/experiment",
    "/agent",
    "/agent help",
    "/agent list",
    "/agent create",
    "/agent delete",
    "/agent rename",
    "/agent set",
    "/agent schema",
    "/agent generate",
    "/prompts",
    "/context",
    "/context help",
    "/context show",
    "/context show --expand",
    "/context add",
    "/context rm",
    "/context clear",
    "/hooks",
    "/hooks help",
    "/hooks add",
    "/hooks rm",
    "/hooks enable",
    "/hooks disable",
    "/hooks enable-all",
    "/hooks disable-all",
    "/compact",
    "/compact help",
    "/usage",
    "/changelog",
    "/save",
    "/load",
    "/subscribe",
];

/// The commands of `commands` that begin with `word`, in the order in which they stand there.
pub open spec fn matching(commands: Seq<Seq<char>>, word: Seq<char>) -> Seq<Seq<char>> {
    commands.filter(|command: Seq<char>| word.is_prefix_of(command))
}

/// Whether `list` is the commands that are there for `os`: those that always are and those of the
/// experiments that are switched on, in the order of strings.
pub open spec fn lists_commands(list: Seq<Seq<char>>, os: &Os) -> bool {
    &&& text::in_order(list)
    &&& list.to_multiset() == text::texts(COMMANDS@ + os.experiment_commands@).to_multiset()
}

/// Puts `item` into `list` behind all that come before it.
fn insert_in_order(list: &mut Vec<&'static str>, item: &'static str)
    requires
        text::in_order(text::texts(old(list)@)),
    ensures
        text::in_order(text::texts(final(list)@)),
        text::texts(final(list)@).to_multiset() == text::texts(old(list)@).to_multiset().insert(item@),
{
    let ghost before = text::texts(list@);
    let mut at: usize = list.len();
    while at > 0 && !text::is_not_after(list[at - 1], item)
        invariant
            at <= list.len(),
            text::texts(list@) == before,
            text::in_order(before),
            forall|j: int| at <= j < before.len() ==> text::not_after(item@, #[trigger] before[j]),
        decreases at,
    {
        proof {
            text::lemma_not_after_total(before[at - 1], item@);
        }
        at -= 1;
    }
    list.insert(at, item);
    proof {
        let after = text::texts(list@);
        assert(after =~= before.insert(at as int, item@));
        assert(after.remove(at as int) =~= before);
        broadcast use vstd::seq_lib::group_to_multiset_ensures;
        assert(after.to_multiset().remove(item@) == before.to_multiset());
        assert(after[at as int] == item@);
        assert(after.contains(item@));
        assert(after.to_multiset() =~= before.to_multiset().insert(item@));
        assert forall|i: int, j: int| 0 <= i <= j < after.len() implies text::not_after(
            #[trigger] after[i],
            #[trigger] after[j],
        ) by {
            if i == j {
                text::lemma_not_after_reflexive(after[i]);
            } else if j < at {
                assert(after[i] == before[i] && after[j] == before[j]);
            } else if i > at {
                assert(after[i] == before[i - 1] && after[j] == before[j - 1]);
            } else if i == at {
                assert(after[j] == before[j - 1]);
            } else {
                assert(after[i] == before[i]);
                assert(before[at - 1] == before[at - 1]);
                text::lemma_not_after_transitive(before[i], before[at - 1], item@);
                if j > at {
                    assert(after[j] == before[j - 1]);
                    text::lemma_not_after_transitive(before[i], item@, before[j - 1]);
                }
            }
        }
    }
}

/// The commands that are there: those that always are and those of the experiments that are
/// switched on, in the order of strings.
pub fn get_available_commands(os: &Os) -> (r: Vec<&'static str>)
    ensures
        lists_commands(text::texts(r@), os),
{
    let mut commands: Vec<&'static str> = Vec::new();
    let ghost all = COMMANDS@ + os.experiment_commands@;
    let mut i: usize = 0;
    assert(text::texts(commands@) =~= text::texts(all.take(0)));
    while i < COMMANDS.len()
        invariant
            i <= COMMANDS@.len(),
            all == COMMANDS@ + os.experiment_commands@,
            text::in_order(text::texts(commands@)),
            text::texts(commands@).to_multiset() == text::texts(all.take(i as int)).to_multiset(),
        decreases COMMANDS@.len() - i,
    {
        insert_in_order(&mut commands, COMMANDS[i]);
        proof {
            let done = text::texts(all.take(i as int));
            assert(text::texts(all.take(i + 1)) =~= done.push(all[i as int]@));
            vstd::seq_lib::to_multiset_build(done, all[i as int]@);
        }
        i += 1;
    }
    let ghost base = i;
    let mut k: usize = 0;
    while k < os.experiment_commands.len()
        invariant
            k <= os.experiment_commands.len(),
            base == COMMANDS@.len(),
            all == COMMANDS@ + os.experiment_commands@,
            text::in_order(text::texts(commands@)),
            text::texts(commands@).to_multiset() == text::texts(all.take(base + k)).to_multiset(),
        decreases os.experiment_commands.len() - k,
    {
        insert_in_order(&mut commands, os.experiment_commands[k]);
        proof {
            let done = text::texts(all.take(base + k));
            assert(text::texts(all.take(base + k + 1)) =~= done.push(all[base + k]@));
            vstd::seq_lib::to_multiset_build(done, all[base + k]@);
        }
        k += 1;
    }
    assert(all.take(base + k) =~= all);
    commands
}

/// The commands that begin with `word`, to be put where `word` starts.
pub fn complete_command(commands: &Vec<&'static str>, word: &str, start: usize) -> (r: (usize, Vec<String>))
    ensures
        r.0 == start,
        text::owned_texts(r.1@) == matching(text::texts(commands@), word@),
{
    let mut completions: Vec<String> = Vec::new();
    let ghost all = text::texts(commands@);
    let mut i: usize = 0;
    reveal(Seq::filter);
    assert(text::owned_texts(completions@) =~= matching(all.take(0), word@));
    while i < commands.len()
        invariant
            i <= commands.len(),
            all == text::texts(commands@),
            text::owned_texts(completions@) == matching(all.take(i as int), word@),
        decreases commands.len() - i,
    {
        let ghost before = completions@;
        reveal(Seq::filter);
        assert(all.take(i + 1).drop_last() =~= all.take(i as int));
        if text::has_prefix(commands[i], word) {
            completions.push(commands[i].to_owned());
            assert(text::owned_texts(completions@) =~= text::owned_texts(before).push(all[i as int]));
        }
        i += 1;
    }
    assert(all.take(i as int) =~= all);
    (start, completions)
}

/// A command is there if and only if it always is or an experiment that is switched on brings it:
/// the experiments hide no command, and bring none while they are switched off.
pub proof fn law_available_commands(list: Seq<Seq<char>>, os: &Os, command: Seq<char>)
    requires
        lists_commands(list, os),
    ensures
        list.contains(command) <==> text::texts(COMMANDS@).contains(command) || text::texts(
            os.experiment_commands@,
        ).contains(command),
{
    broadcast use vstd::seq_lib::group_to_multiset_ensures;

    let base = text::texts(COMMANDS@);
    let more = text::texts(os.experiment_commands@);
    let all = text::texts(COMMANDS@ + os.experiment_commands@);
    assert(all =~= base + more);
    assert(list.contains(command) <==> list.to_multiset().count(command) > 0);
    assert(all.contains(command) <==> all.to_multiset().count(command) > 0);
    if base.contains(command) {
        let i = choose|i: int| 0 <= i < base.len() && base[i] == command;
        assert(all[i] == command);
    }
    if more.contains(command) {
        let i = choose|i: int| 0 <= i < more.len() && more[i] == command;
        assert(all[base.len() + i] == command);
    }
    if all.contains(command) {
        let i = choose|i: int| 0 <= i < all.len() && all[i] == command;
        if i < base.len() {
            assert(base[i] == command);
        } else {
            assert(more[i - base.len()] == command);
        }
    }
}

/// What the experiments bring decides the list of commands, whatever the order in which they bring
/// it.
pub proof fn law_one_command_list(a: Seq<Seq<char>>, os_a: &Os, b: Seq<Seq<char>>, os_b: &Os)
    requires
        lists_commands(a, os_a),
        lists_commands(b, os_b),
        text::texts(os_a.experiment_commands@).to_multiset() == text::texts(
            os_b.experiment_commands@,
        ).to_multiset(),
    ensures
        a == b,
{
    let base = text::texts(COMMANDS@);
    let more_a = text::texts(os_a.experiment_commands@);
    let more_b = text::texts(os_b.experiment_commands@);
    assert(text::texts(COMMANDS@ + os_a.experiment_commands@) =~= base + more_a);
    assert(text::texts(COMMANDS@ + os_b.experiment_commands@) =~= base + more_b);
    vstd::seq_lib::lemma_multiset_commutative(base, more_a);
    vstd::seq_lib::lemma_multiset_commutative(base, more_b);
    let leq = |x: Seq<char>, y: Seq<char>| text::not_after(x, y);
    assert(vstd::relations::total_ordering(leq)) by {
        assert forall|x: Seq<char>| #[trigger] leq(x, x) by {
            text::lemma_not_after_reflexive(x);
        }
        assert forall|x: Seq<char>, y: Seq<char>| #[trigger]
            leq(x, y) && #[trigger] leq(y, x) implies x == y by {
            text::lemma_not_after_antisymmetric(x, y);
        }
        assert forall|x: Seq<char>, y: Seq<char>, z: Seq<char>| #[trigger]
            leq(x, y) && #[trigger] leq(y, z) implies leq(x, z) by {
            text::lemma_not_after_transitive(x, y, z);
        }
        assert forall|x: Seq<char>, y: Seq<char>| #[trigger] leq(x, y) || #[trigger] leq(y, x) by {
            text::lemma_not_after_total(x, y);
        }
    }
    assert(vstd::relations::sorted_by(a, leq));
    assert(vstd::relations::sorted_by(b, leq));
    vstd::seq_lib::lemma_sorted_unique(a, b, leq);
}

/// The commands offered for a word are those that begin with it, and no others; they keep the
/// order of the list.
pub proof fn law_matching(commands: Seq<Seq<char>>, word: Seq<char>)
    ensures
        forall|command: Seq<char>| #[trigger]
            matching(commands, word).contains(command) <==> commands.contains(command)
                && word.is_prefix_of(command),
        text::in_order(commands) ==> text::in_order(matching(commands, word)),
    decreases commands.len(),
{
    reveal(Seq::filter);
    let kept = matching(commands, word);
    if commands.len() > 0 {
        let last = commands.last();
        let rest = commands.drop_last();
        law_matching(rest, word);
        let before = matching(rest, word);
        assert forall|command: Seq<char>| #[trigger] kept.contains(command) <==> commands.contains(
            command,
        ) && word.is_prefix_of(command) by {
            assert(before.contains(command) <==> rest.contains(command) && word.is_prefix_of(command));
            if commands.contains(command) {
                let i = choose|i: int| 0 <= i < commands.len() && commands[i] == command;
                if i < rest.len() {
                    assert(rest[i] == command);
                }
            }
            if rest.contains(command) {
                let i = choose|i: int| 0 <= i < rest.len() && rest[i] == command;
                assert(commands[i] == command);
            }
            assert(commands[commands.len() - 1] == last);
            if word.is_prefix_of(last) {
                assert(kept == before.push(last));
                assert(kept[before.len() as int] == last);
                if before.contains(command) {
                    let i = choose|i: int| 0 <= i < before.len() && before[i] == command;
                    assert(kept[i] == command);
                }
                if kept.contains(command) {
                    let i = choose|i: int| 0 <= i < kept.len() && kept[i] == command;
                    if i < before.len() {
                        assert(before[i] == command);
                    }
                }
            }
        }
        if text::in_order(commands) {
            assert forall|i: int, j: int| 0 <= i <= j < rest.len() implies text::not_after(
                #[trigger] rest[i],
                #[trigger] rest[j],
            ) by {
                assert(rest[i] == commands[i] && rest[j] == commands[j]);
            }
            assert forall|i: int, j: int| 0 <= i <= j < kept.len() implies text::not_after(
                #[trigger] kept[i],
                #[trigger] kept[j],
            ) by {
                if word.is_prefix_of(last) {
                    if j < before.len() {
                        assert(kept[i] == before[i] && kept[j] == before[j]);
                    } else if i < before.len() {
                        assert(before.contains(before[i]));
                        let k = choose|k: int| 0 <= k < rest.len() && rest[k] == before[i];
                        assert(commands[k] == kept[i]);
                        assert(commands[commands.len() - 1] == kept[j]);
                    } else {
                        text::lemma_not_after_reflexive(kept[i]);
                    }
                }
            }
        }
    }
}

/// Typing on only narrows what is offered: the longer word picks from what the shorter one offered.
pub proof fn law_matching_narrows(commands: Seq<Seq<char>>, word: Seq<char>, longer: Seq<char>)
    requires
        word.is_prefix_of(longer),
    ensures
        matching(matching(commands, word), longer) == matching(commands, longer),
    decreases commands.len(),
{
    reveal(Seq::filter);
    if commands.len() > 0 {
        let last = commands.last();
        let rest = commands.drop_last();
        law_matching_narrows(rest, word, longer);
        if longer.is_prefix_of(last) {
            assert(word =~= last.subrange(0, word.len() as int)) by {
                assert forall|i: int| 0 <= i < word.len() implies word[i] == last[i] by {
                    assert(word[i] == longer.subrange(0, word.len() as int)[i]);
                    assert(longer[i] == last.subrange(0, longer.len() as int)[i]);
                }
            }
        }
        if word.is_prefix_of(last) {
            let kept = matching(rest, word).push(last);
            assert(kept.drop_last() =~= matching(rest, word));
        }
    }
}

/// Whether `at` are the places in `commands` of the texts in `offered`: those of the commands that begin
/// with `word`, from the first to the last.
pub open spec fn are_places(
    at: Seq<int>,
    commands: Seq<&'static str>,
    word: Seq<char>,
    offered: Seq<String>,
) -> bool {
    &&& at.len() == offered.len()
    &&& forall|k: int|
        0 <= k < at.len() ==> 0 <= #[trigger] at[k] < commands.len() && offered[k]@ == commands[at[k]]@
    &&& forall|k: int, l: int| 0 <= k < l < at.len() ==> #[trigger] at[k] < #[trigger] at[l]
    &&& forall|i: int|
        0 <= i < commands.len() ==> (word.is_prefix_of((#[trigger] commands[i])@) <==> at.contains(i))
}

/// The places of the commands that match.
proof fn lemma_matching_places(commands: Seq<Seq<char>>, word: Seq<char>) -> (at: Seq<int>)
    ensures
        at.len() == matching(commands, word).len(),
        forall|k: int|
            0 <= k < at.len() ==> 0 <= #[trigger] at[k] < commands.len() && matching(commands, word)[k]
                == commands[at[k]],
        forall|k: int, l: int| 0 <= k < l < at.len() ==> #[trigger] at[k] < #[trigger] at[l],
        forall|i: int|
            0 <= i < commands.len() ==> (word.is_prefix_of(#[trigger] commands[i]) <==> at.contains(i)),
    decreases commands.len(),
{
    reveal(Seq::filter);
    if commands.len() == 0 {
        Seq::empty()
    } else {
        let rest = commands.drop_last();
        let n = rest.len() as int;
        let before = lemma_matching_places(rest, word);
        let at = if word.is_prefix_of(commands.last()) {
            before.push(n)
        } else {
            before
        };
        assert forall|i: int| 0 <= i < commands.len() implies (word.is_prefix_of(#[trigger] commands[i])
            <==> at.contains(i)) by {
            if i < n {
                assert(rest[i] == commands[i]);
                if before.contains(i) {
                    let k = choose|k: int| 0 <= k < before.len() && before[k] == i;
                    assert(at[k] == i);
                }
                if at.contains(i) {
                    let k = choose|k: int| 0 <= k < at.len() && at[k] == i;
                    assert(before[k] == i);
                }
            } else {
                if word.is_prefix_of(commands.last()) {
                    assert(at[before.len() as int] == n);
                } else if at.contains(n) {
                    let k = choose|k: int| 0 <= k < before.len() && before[k] == n;
                    assert(before[k] < rest.len());
                }
            }
        }
        at
    }
}

/// The commands offered, by their places.
pub proof fn lemma_offered(commands: Seq<&'static str>, word: Seq<char>, offered: Seq<String>)
    requires
        text::owned_texts(offered) == matching(text::texts(commands), word),
    ensures
        exists|at: Seq<int>| are_places(at, commands, word, offered),
{
    let known = text::texts(commands);
    let at = lemma_matching_places(known, word);
    assert(text::owned_texts(offered).len() == at.len());
    assert forall|k: int| 0 <= k < at.len() implies 0 <= #[trigger] at[k] < commands.len() && offered[k]@
        == commands[at[k]]@ by {
        assert(text::owned_texts(offered)[k] == known[at[k]]);
    }
    assert forall|i: int| 0 <= i < commands.len() implies (word.is_prefix_of(
        (#[trigger] commands[i])@,
    ) <==> at.contains(i)) by {
        assert(known[i] == commands[i]@);
    }
    assert(are_places(at, commands, word, offered));
}

/// Each command that begins with the word is offered, each time that it is there, and no other; they keep
/// their order, and the place at which to put them is handed through.
pub proof fn law_offered_commands(
    commands: &Vec<&'static str>,
    word: &str,
    start: usize,
    r: (usize, Vec<String>),
)
    requires
        call_ensures(complete_command, (commands, word, start), r),
    ensures
        r.0 == start,
        exists|at: Seq<int>| are_places(at, commands@, word@, r.1@),
{
    lemma_offered(commands@, word@, r.1@);
}

/// The list of commands is in the order of a dictionary over code points: of two commands one of which
/// begins the other the shorter stands first, and otherwise the first place at which they differ decides.
pub proof fn law_commands_are_sorted(os: &Os, r: Vec<&'static str>, i: int, j: int)
    requires
        call_ensures(get_available_commands, (os,), r),
        0 <= i < j < r.len(),
    ensures
        r[i]@.is_prefix_of(r[j]@) || exists|k: int|
            0 <= k < r[i]@.len() && k < r[j]@.len() && r[i]@.take(k) == r[j]@.take(k) && #[trigger] r[i]@[k]
                < r[j]@[k],
{
    assert(text::not_after(text::texts(r@)[i], text::texts(r@)[j]));
    text::lemma_first_difference(r[i]@, r[j]@);
}

/// The list of commands holds what is always there and what the experiments bring, each as often as it
/// comes.
pub proof fn law_commands_are_counted(os: &Os, r: Vec<&'static str>)
    requires
        call_ensures(get_available_commands, (os,), r),
    ensures
        r.len() == 46 + os.experiment_commands.len(),
        r@.map_values(|command: &'static str| command@).to_multiset() == (COMMANDS@
            + os.experiment_commands@).map_values(|command: &'static str| command@).to_multiset(),
{
    let all = COMMANDS@ + os.experiment_commands@;
    assert(r@.map_values(|command: &'static str| command@) =~= text::texts(r@));
    assert(all.map_values(|command: &'static str| command@) =~= text::texts(all));
    text::texts(r@).to_multiset_ensures();
    text::texts(all).to_multiset_ensures();
}

/// Whatever the experiments, these commands are there.
pub proof fn law_base_commands(os: &Os, r: Vec<&'static str>, i: int)
    requires
        call_ensures(get_available_commands, (os,), r),
        0 <= i < 46,
    ensures
        exists|k: int| 0 <= k < r.len() && (#[trigger] r[k])@ == seq![
            "/clear"@,
            "/help"@,
            "/editor"@,
            "/reply"@,
            "/issue"@,
            "/quit"@,
            "/tools"@,
            "/tools trust"@,
            "/tools untrust"@,
            "/tools trust-all"@,
            "/tools reset"@,
            "/mcp"@,
            "/model"@,
            "/experiment"@,
            "/agent"@,
            "/agent help"@,
            "/agent list"@,
            "/agent create"@,
            "/agent delete"@,
            "/agent rename"@,
            "/agent set"@,
            "/agent schema"@,
            "/agent generate"@,
            "/prompts"@,
            "/context"@,
            "/context help"@,
            "/context show"@,
            "/context show --expand"@,
            "/context add"@,
            "/context rm"@,
            "/context clear"@,
            "/hooks"@,
            "/hooks help"@,
            "/hooks add"@,
            "/hooks rm"@,
            "/hooks enable"@,
            "/hooks disable"@,
            "/hooks enable-all"@,
            "/hooks disable-all"@,
            "/compact"@,
            "/compact help"@,
            "/usage"@,
            "/changelog"@,
            "/save"@,
            "/load"@,
            "/subscribe"@,
        ][i],
{
    law_available_commands(text::texts(r@), os, text::texts(COMMANDS@)[i]);
    assert(text::texts(COMMANDS@).contains(text::texts(COMMANDS@)[i]));
    let k = choose|k: int| 0 <= k < r.len() && text::texts(r@)[k] == text::texts(COMMANDS@)[i];
    assert(r[k]@ == COMMANDS@[i]@);
}

} // verus!
