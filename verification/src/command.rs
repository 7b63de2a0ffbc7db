//! The command line of a tuner: a template whose placeholders are filled in for a channel.

use crate::config::{ChannelConfig, ChannelModel};
use crate::shell::shell_quote;
use crate::text::{decimal_text, replace_all};
use vstd::prelude::*;

verus! {

/// The placeholder of a name: the name between angle brackets.
pub open spec fn placeholder(name: Seq<char>) -> Seq<char> {
    seq!['<'] + name + seq!['>']
}

/// What the placeholders stand for on a channel, in the order in which they are filled in: its
/// type and number quoted, its service number if it has one, and its variables quoted.
pub open spec fn assignments(channel: ChannelModel) -> Seq<(Seq<char>, Seq<char>)> {
    seq![
        ("type"@, crate::shell::quoted(channel.channel_type)),
        ("channel"@, crate::shell::quoted(channel.channel)),
    ] + match channel.service_id {
        Some(id) => seq![("serviceId"@, crate::text::decimal(id as nat))],
        None => Seq::empty(),
    } + Seq::new(
        channel.command_vars.len(),
        |i: int|
            (channel.command_vars[i].0, crate::shell::quoted(channel.command_vars[i].1)),
    )
}

/// `text` with each assignment's placeholder exchanged for its value, one assignment after the
/// other.
pub open spec fn filled(text: Seq<char>, assigned: Seq<(Seq<char>, Seq<char>)>) -> Seq<char>
    decreases assigned.len(),
{
    if assigned.len() == 0 {
        text
    } else {
        crate::text::replaced(
            filled(text, assigned.drop_last()),
            placeholder(assigned.last().0),
            assigned.last().1,
        )
    }
}

/// The command line for a channel.
pub open spec fn rendered(template: Seq<char>, channel: ChannelModel) -> Seq<char> {
    filled(template, assignments(channel))
}

/// Fills in one placeholder.
fn fill(text: &str, name: &str, value: &str) -> (result: String)
    ensures
        result@ == crate::text::replaced(text@, placeholder(name@), value@),
{
    let mut pattern = String::new();
    pattern.push('<');
    pattern.append(name);
    pattern.push('>');
    assert(pattern@ =~= placeholder(name@));
    replace_all(text, pattern.as_str(), value)
}

/// Renders the command line for a channel.
pub fn render_command(template: &str, channel: &ChannelConfig) -> (result: String)
    ensures
        result@ == rendered(template@, channel@),
{
    let ghost all = assignments(channel@);
    let mut command = template.to_owned();
    let channel_type = shell_quote(channel.channel_type.as_str());
    command = fill(command.as_str(), "type", channel_type.as_str());
    assert(command@ == filled(template@, all.take(1))) by {
        assert(all.take(1).drop_last() =~= all.take(0));
        assert(filled(template@, all.take(0)) == template@);
    }
    let number = shell_quote(channel.channel.as_str());
    command = fill(command.as_str(), "channel", number.as_str());
    assert(command@ == filled(template@, all.take(2))) by {
        assert(all.take(2).drop_last() =~= all.take(1));
    }
    let ghost mut count: int = 2;
    if let Some(id) = channel.service_id {
        let service = decimal_text(id as u64);
        command = fill(command.as_str(), "serviceId", service.as_str());
        proof {
            assert(all.take(3).drop_last() =~= all.take(2));
            count = 3;
        }
    }
    let mut i: usize = 0;
    while i < channel.command_vars.len()
        invariant
            i <= channel@.command_vars.len(),
            all == assignments(channel@),
            count == if channel.service_id is Some { 3int } else { 2 },
            all.len() == count + channel@.command_vars.len(),
            command@ == filled(template@, all.take(count + i)),
        decreases channel@.command_vars.len() - i,
    {
        let var = channel.command_vars.get(i);
        let value = shell_quote(var.value.as_str());
        command = fill(command.as_str(), var.key.as_str(), value.as_str());
        proof {
            assert(all[count + i] == (var.key@, crate::shell::quoted(var.value@)));
            assert(all.take(count + i + 1).drop_last() =~= all.take(count + i));
        }
        i += 1;
    }
    assert(all.take(all.len() as int) =~= all);
    command
}

/// A part of a template: text as it stands, or the placeholder of a name.
pub enum Piece {
    Text(Seq<char>),
    Name(Seq<char>),
}

/// Whether `text` reads, from `at` on, as the placeholder of `name`, as far as both go.
pub open spec fn begins(text: Seq<char>, name: Seq<char>, at: int) -> bool {
    forall|k: int|
        0 <= k < placeholder(name).len() && at + k < text.len() ==> text[at + k]
            == #[trigger] placeholder(name)[k]
}

/// Whether `text` nowhere holds the placeholder of `name` and does not end in the beginning of
/// one.
pub open spec fn calm(text: Seq<char>, name: Seq<char>) -> bool {
    forall|at: int| 0 <= at < text.len() ==> !#[trigger] begins(text, name, at)
}

/// Whether `c` occurs nowhere in `text`.
pub open spec fn lacks(text: Seq<char>, c: char) -> bool {
    forall|i: int| 0 <= i < text.len() ==> #[trigger] text[i] != c
}

impl Piece {
    /// How the piece is written in a template.
    pub open spec fn written(self) -> Seq<char> {
        match self {
            Piece::Text(text) => text,
            Piece::Name(name) => placeholder(name),
        }
    }

    /// Whether the piece can be told apart from the placeholder of `name`: a text is calm, and a
    /// name has no brackets of its own.
    pub open spec fn apart(self, name: Seq<char>) -> bool {
        match self {
            Piece::Text(text) => calm(text, name),
            Piece::Name(other) => lacks(other, '<') && lacks(other, '>'),
        }
    }

    /// The piece with the value of its name in its place, where it has one.
    pub open spec fn resolved(self, assigned: Seq<(Seq<char>, Seq<char>)>) -> Piece {
        match self {
            Piece::Text(text) => self,
            Piece::Name(name) => match crate::vars::value_of(assigned, name) {
                Some(value) => Piece::Text(value),
                None => self,
            },
        }
    }
}

/// The template that the pieces make up.
pub open spec fn template_of(pieces: Seq<Piece>) -> Seq<char>
    decreases pieces.len(),
{
    if pieces.len() == 0 {
        Seq::empty()
    } else {
        pieces[0].written() + template_of(pieces.skip(1))
    }
}

/// Whether all pieces can be told apart from the placeholder of `name`.
pub open spec fn all_apart(pieces: Seq<Piece>, name: Seq<char>) -> bool {
    forall|i: int| 0 <= i < pieces.len() ==> (#[trigger] pieces[i]).apart(name)
}

/// All pieces with the values of their names.
pub open spec fn all_resolved(
    pieces: Seq<Piece>,
    assigned: Seq<(Seq<char>, Seq<char>)>,
) -> Seq<Piece> {
    Seq::new(pieces.len(), |i: int| pieces[i].resolved(assigned))
}

/// Whether no value disturbs a placeholder that is filled in after it, and no bracket closes in
/// a name.
pub open spec fn independent(assigned: Seq<(Seq<char>, Seq<char>)>) -> bool {
    &&& forall|i: int| 0 <= i < assigned.len() ==> lacks((#[trigger] assigned[i]).0, '>')
    &&& forall|i: int, j: int|
        0 <= i < j < assigned.len() ==> calm(
            (#[trigger] assigned[i]).1,
            (#[trigger] assigned[j]).0,
        )
}

/// A text in which no bracket opens is calm.
proof fn lacks_is_calm(text: Seq<char>, name: Seq<char>)
    requires
        lacks(text, '<'),
    ensures
        calm(text, name),
{
    assert forall|at: int| 0 <= at < text.len() implies !#[trigger] begins(text, name, at) by {
        if begins(text, name, at) {
            assert(text[at + 0] == placeholder(name)[0]);
        }
    }
}

/// A calm text is left as it is, and what follows it is filled in on its own.
proof fn replaced_after_text(text: Seq<char>, rest: Seq<char>, name: Seq<char>, value: Seq<char>)
    requires
        calm(text, name),
    ensures
        crate::text::replaced(text + rest, placeholder(name), value) == text
            + crate::text::replaced(rest, placeholder(name), value),
    decreases text.len(),
{
    let pattern = placeholder(name);
    let whole = text + rest;
    if text.len() == 0 {
        assert(whole =~= rest);
        assert(text + crate::text::replaced(rest, pattern, value) =~= crate::text::replaced(
            rest,
            pattern,
            value,
        ));
    } else {
        let tail = text.skip(1);
        assert(!crate::text::occurs_at(whole, pattern, 0)) by {
            if crate::text::occurs_at(whole, pattern, 0) {
                let start = whole.subrange(0, pattern.len() as int);
                assert forall|k: int| 0 <= k < pattern.len() && 0 + k < text.len() implies text[0
                    + k] == #[trigger] pattern[k] by {
                    assert(start[k] == whole[k]);
                }
                assert(begins(text, name, 0));
            }
        }
        assert forall|at: int| 0 <= at < tail.len() implies !#[trigger] begins(tail, name, at) by {
            if begins(tail, name, at) {
                assert forall|k: int|
                    0 <= k < pattern.len() && at + 1 + k < text.len() implies text[at + 1 + k]
                    == #[trigger] pattern[k] by {
                    assert(tail[at + k] == pattern[k]);
                }
                assert(begins(text, name, at + 1));
            }
        }
        assert(whole.skip(1) =~= tail + rest);
        replaced_after_text(tail, rest, name, value);
        assert(seq![whole[0]] + (tail + crate::text::replaced(rest, pattern, value)) =~= text
            + crate::text::replaced(rest, pattern, value));
    }
}

/// A placeholder is exchanged where it is that of the name, and is left as it is where it is
/// that of another.
proof fn replaced_after_name(
    other: Seq<char>,
    rest: Seq<char>,
    name: Seq<char>,
    value: Seq<char>,
)
    requires
        lacks(other, '<'),
        lacks(other, '>'),
        lacks(name, '>'),
    ensures
        crate::text::replaced(placeholder(other) + rest, placeholder(name), value) == (
        if other == name {
            value
        } else {
            placeholder(other)
        }) + crate::text::replaced(rest, placeholder(name), value),
{
    let pattern = placeholder(name);
    let whole = placeholder(other) + rest;
    let tail = other + seq!['>'];
    if other == name {
        assert(whole.subrange(0, pattern.len() as int) =~= pattern);
        assert(whole.skip(pattern.len() as int) =~= rest);
    } else {
        assert(!crate::text::occurs_at(whole, pattern, 0)) by {
            if crate::text::occurs_at(whole, pattern, 0) {
                let start = whole.subrange(0, pattern.len() as int);
                assert(start == pattern);
                assert(forall|k: int| 0 <= k < pattern.len() ==> whole[k] == #[trigger] pattern[k]);
                if other.len() < name.len() {
                    assert(whole[(other.len() + 1) as int] == '>');
                    assert(pattern[(other.len() + 1) as int] == name[other.len() as int]);
                } else if name.len() < other.len() {
                    assert(pattern[(name.len() + 1) as int] == '>');
                    assert(whole[(name.len() + 1) as int] == other[name.len() as int]);
                } else {
                    assert forall|k: int| 0 <= k < name.len() implies other[k] == name[k] by {
                        assert(pattern[k + 1] == name[k]);
                        assert(whole[k + 1] == other[k]);
                    }
                    assert(other =~= name);
                }
            }
        }
        assert(whole.skip(1) =~= tail + rest);
        assert(lacks(tail, '<'));
        lacks_is_calm(tail, name);
        replaced_after_text(tail, rest, name, value);
        assert(seq![whole[0]] + (tail + crate::text::replaced(rest, pattern, value))
            =~= placeholder(other) + crate::text::replaced(rest, pattern, value));
    }
}

/// Filling in one name fills in its placeholders and nothing else.
proof fn replaced_in_template(pieces: Seq<Piece>, name: Seq<char>, value: Seq<char>)
    requires
        all_apart(pieces, name),
        lacks(name, '>'),
    ensures
        crate::text::replaced(template_of(pieces), placeholder(name), value) == template_of(
            all_resolved(pieces, seq![(name, value)]),
        ),
    decreases pieces.len(),
{
    let assigned = seq![(name, value)];
    let after = all_resolved(pieces, assigned);
    if pieces.len() > 0 {
        let rest = template_of(pieces.skip(1));
        assert(assigned.drop_last() =~= Seq::empty());
        reveal_with_fuel(crate::vars::value_of, 2);
        assert(pieces[0].apart(name));
        assert forall|i: int| 0 <= i < pieces.skip(1).len() implies (
        #[trigger] pieces.skip(1)[i]).apart(name) by {
            assert(pieces[i + 1].apart(name));
        }
        replaced_in_template(pieces.skip(1), name, value);
        assert(after.skip(1) =~= all_resolved(pieces.skip(1), assigned));
        match pieces[0] {
            Piece::Text(text) => replaced_after_text(text, rest, name, value),
            Piece::Name(other) => replaced_after_name(other, rest, name, value),
        }
    }
}

/// Filling in one name after the other comes to resolving every name once, where no value
/// disturbs a placeholder.
proof fn filled_template(pieces: Seq<Piece>, assigned: Seq<(Seq<char>, Seq<char>)>)
    requires
        forall|i: int| 0 <= i < assigned.len() ==> all_apart(pieces, (#[trigger] assigned[i]).0),
        independent(assigned),
    ensures
        filled(template_of(pieces), assigned) == template_of(all_resolved(pieces, assigned)),
    decreases assigned.len(),
{
    let after = all_resolved(pieces, assigned);
    if assigned.len() == 0 {
        assert(after =~= pieces);
    } else {
        let earlier = assigned.drop_last();
        let before = all_resolved(pieces, earlier);
        let (name, value) = assigned.last();
        let at = assigned.len() - 1;
        let last = seq![(name, value)];
        assert(assigned[at] == (name, value));
        assert(forall|i: int| 0 <= i < earlier.len() ==> earlier[i] == assigned[i]);
        filled_template(pieces, earlier);
        assert forall|i: int| 0 <= i < before.len() implies (#[trigger] before[i]).apart(name) by {
            assert(all_apart(pieces, assigned[at].0));
            assert(pieces[i].apart(name));
            if pieces[i] is Name && before[i] is Text {
                let j = value_of_source(earlier, pieces[i]->Name_0);
                assert(calm(assigned[j].1, assigned[at].0));
            }
        }
        replaced_in_template(before, name, value);
        assert(last.drop_last() =~= Seq::empty());
        reveal_with_fuel(crate::vars::value_of, 2);
        assert(after =~= all_resolved(before, last));
    }
}

/// Where the value of a name comes from.
proof fn value_of_source(assigned: Seq<(Seq<char>, Seq<char>)>, name: Seq<char>) -> (at: int)
    requires
        crate::vars::value_of(assigned, name) is Some,
    ensures
        0 <= at < assigned.len(),
        crate::vars::value_of(assigned, name) == Some(assigned[at].1),
    decreases assigned.len(),
{
    if crate::vars::value_of(assigned.drop_last(), name) is Some {
        value_of_source(assigned.drop_last(), name)
    } else {
        assigned.len() - 1
    }
}

/// Where no value disturbs a placeholder, the command line is the template with every name that
/// has a value exchanged for it and all else as it stands: the order in which the placeholders
/// are filled in makes no difference, but that a name which is given twice has its first value.
pub proof fn rendered_template(pieces: Seq<Piece>, channel: ChannelModel)
    requires
        forall|i: int|
            0 <= i < assignments(channel).len() ==> all_apart(
                pieces,
                (#[trigger] assignments(channel)[i]).0,
            ),
        independent(assignments(channel)),
    ensures
        rendered(template_of(pieces), channel) == template_of(
            all_resolved(pieces, assignments(channel)),
        ),
{
    filled_template(pieces, assignments(channel));
}

/// Quoting opens no bracket where the value opens none.
proof fn quoted_lacks(value: Seq<char>)
    requires
        lacks(value, '<'),
    ensures
        lacks(crate::shell::quoted(value), '<'),
{
    escaped_lacks(value);
}

proof fn escaped_lacks(value: Seq<char>)
    requires
        lacks(value, '<'),
    ensures
        lacks(crate::text::replaced(value, seq!['\''], crate::shell::escaped_mark()), '<'),
    decreases value.len(),
{
    if value.len() > 0 {
        escaped_lacks(value.skip(1));
    }
}

/// No value disturbs a placeholder where neither the channel's type and number nor its variables
/// open a bracket and no variable's name closes one.
pub proof fn plain_values_are_independent(channel: ChannelModel)
    requires
        lacks(channel.channel_type, '<'),
        lacks(channel.channel, '<'),
        forall|i: int|
            0 <= i < channel.command_vars.len() ==> lacks(
                (#[trigger] channel.command_vars[i]).0,
                '>',
            ) && lacks(channel.command_vars[i].1, '<'),
    ensures
        independent(assignments(channel)),
{
    let assigned = assignments(channel);
    reveal_strlit("type");
    reveal_strlit("channel");
    reveal_strlit("serviceId");
    quoted_lacks(channel.channel_type);
    quoted_lacks(channel.channel);
    assert forall|i: int| 0 <= i < assigned.len() implies lacks((#[trigger] assigned[i]).0, '>')
        && lacks(assigned[i].1, '<') by {
        let fixed: int = if channel.service_id is Some {
            3
        } else {
            2
        };
        if i >= fixed {
            assert(assigned[i].0 == channel.command_vars[i - fixed].0);
            quoted_lacks(channel.command_vars[i - fixed].1);
        } else if i == 2 {
            crate::text::decimal_is_digits(channel.service_id->0 as nat);
        }
    }
    assert forall|i: int, j: int| 0 <= i < j < assigned.len() implies calm(
        (#[trigger] assigned[i]).1,
        (#[trigger] assigned[j]).0,
    ) by {
        lacks_is_calm(assigned[i].1, assigned[j].0);
    }
}

/// A template in which no bracket opens is the command line for every channel.
pub proof fn rendered_without_placeholders(template: Seq<char>, channel: ChannelModel)
    requires
        lacks(template, '<'),
    ensures
        rendered(template, channel) == template,
{
    filled_without_placeholders(template, assignments(channel));
}

proof fn filled_without_placeholders(text: Seq<char>, assigned: Seq<(Seq<char>, Seq<char>)>)
    requires
        lacks(text, '<'),
    ensures
        filled(text, assigned) == text,
    decreases assigned.len(),
{
    if assigned.len() > 0 {
        let name = assigned.last().0;
        filled_without_placeholders(text, assigned.drop_last());
        lacks_is_calm(text, name);
        replaced_after_text(text, Seq::empty(), name, assigned.last().1);
        assert(text + Seq::empty() =~= text);
    }
}

/// Whether nothing that a channel puts into a command opens a bracket, and no name of a variable
/// closes one.
pub open spec fn is_plain(channel: ChannelModel) -> bool {
    &&& lacks(channel.channel_type, '<')
    &&& lacks(channel.channel, '<')
    &&& forall|i: int|
        0 <= i < channel.command_vars.len() ==> lacks((#[trigger] channel.command_vars[i]).0, '>')
            && lacks(channel.command_vars[i].1, '<')
}

/// The names that are filled in on a channel, and where its variables begin among them.
proof fn names_filled_in(channel: ChannelModel) -> (fixed: int)
    ensures
        fixed == if channel.service_id is Some {
            3int
        } else {
            2
        },
        assignments(channel).len() == fixed + channel.command_vars.len(),
        assignments(channel)[0] == ("type"@, crate::shell::quoted(channel.channel_type)),
        assignments(channel)[1] == ("channel"@, crate::shell::quoted(channel.channel)),
        channel.service_id matches Some(id) ==> assignments(channel)[2] == (
            "serviceId"@,
            crate::text::decimal(id as nat),
        ),
        forall|i: int|
            0 <= i < channel.command_vars.len() ==> #[trigger] assignments(channel)[fixed + i] == (
                channel.command_vars[i].0,
                crate::shell::quoted(channel.command_vars[i].1),
            ),
        "type"@ != "channel"@,
        "type"@ != "serviceId"@,
        "channel"@ != "serviceId"@,
        lacks("type"@, '<') && lacks("type"@, '>'),
        lacks("channel"@, '<') && lacks("channel"@, '>'),
        lacks("serviceId"@, '<') && lacks("serviceId"@, '>'),
{
    reveal_strlit("type");
    reveal_strlit("channel");
    reveal_strlit("serviceId");
    assert("type"@.len() != "channel"@.len());
    assert("type"@.len() != "serviceId"@.len());
    assert("channel"@.len() != "serviceId"@.len());
    if channel.service_id is Some {
        3
    } else {
        2
    }
}

/// One placeholder between two texts in which no bracket opens.
proof fn rendered_between(
    before: Seq<char>,
    name: Seq<char>,
    after: Seq<char>,
    channel: ChannelModel,
)
    requires
        is_plain(channel),
        lacks(before, '<'),
        lacks(after, '<'),
        lacks(name, '<'),
        lacks(name, '>'),
    ensures
        rendered(before + placeholder(name) + after, channel) == before + (
        match crate::vars::value_of(assignments(channel), name) {
            Some(value) => value,
            None => placeholder(name),
        }) + after,
{
    let pieces = seq![Piece::Text(before), Piece::Name(name), Piece::Text(after)];
    let assigned = assignments(channel);
    let done = all_resolved(pieces, assigned);
    plain_values_are_independent(channel);
    assert forall|i: int| 0 <= i < assigned.len() implies all_apart(
        pieces,
        (#[trigger] assigned[i]).0,
    ) by {
        lacks_is_calm(before, assigned[i].0);
        lacks_is_calm(after, assigned[i].0);
    }
    rendered_template(pieces, channel);
    three_pieces(pieces);
    three_pieces(done);
}

proof fn three_pieces(pieces: Seq<Piece>)
    requires
        pieces.len() == 3,
    ensures
        template_of(pieces) == pieces[0].written() + pieces[1].written() + pieces[2].written(),
{
    reveal_with_fuel(template_of, 4);
    assert(pieces.skip(1).skip(1)[0] == pieces[2]);
    assert(template_of(pieces) =~= pieces[0].written() + pieces[1].written()
        + pieces[2].written());
}

/// On a channel whose variables have names of their own, the placeholder of each variable is
/// exchanged for the quoted value of that same variable, whatever stands around it.
pub proof fn each_variable_has_its_own_value(
    before: Seq<char>,
    i: int,
    after: Seq<char>,
    channel: ChannelModel,
)
    requires
        is_plain(channel),
        lacks(before, '<'),
        lacks(after, '<'),
        0 <= i < channel.command_vars.len(),
        lacks(channel.command_vars[i].0, '<'),
        channel.command_vars[i].0 != "type"@,
        channel.command_vars[i].0 != "channel"@,
        channel.command_vars[i].0 != "serviceId"@,
        forall|j: int|
            0 <= j < i ==> (#[trigger] channel.command_vars[j]).0 != channel.command_vars[i].0,
    ensures
        rendered(before + seq!['<'] + channel.command_vars[i].0 + seq!['>'] + after, channel)
            == before + crate::shell::quoted(channel.command_vars[i].1) + after,
{
    let assigned = assignments(channel);
    let name = channel.command_vars[i].0;
    let fixed = names_filled_in(channel);
    assert(assigned[fixed + i].0 == name);
    assert forall|k: int| 0 <= k < fixed + i implies (#[trigger] assigned[k]).0 != assigned[fixed
        + i].0 by {
        if k >= fixed {
            assert(assigned[fixed + (k - fixed)].0 == channel.command_vars[k - fixed].0);
        }
    }
    crate::vars::first_pair_gives_the_value(assigned, fixed + i);
    rendered_between(before, name, after, channel);
    assert(before + seq!['<'] + name + seq!['>'] + after =~= before + placeholder(name) + after);
}

/// The placeholders of the type and the number are exchanged for the channel's own type and
/// number, quoted, whatever its variables are called.
pub proof fn type_and_channel_are_filled_in(
    before: Seq<char>,
    after: Seq<char>,
    channel: ChannelModel,
)
    requires
        is_plain(channel),
        lacks(before, '<'),
        lacks(after, '<'),
    ensures
        rendered(before + "<type>"@ + after, channel) == before + crate::shell::quoted(
            channel.channel_type,
        ) + after,
        rendered(before + "<channel>"@ + after, channel) == before + crate::shell::quoted(
            channel.channel,
        ) + after,
{
    let assigned = assignments(channel);
    let fixed = names_filled_in(channel);
    crate::vars::first_pair_gives_the_value(assigned, 0);
    crate::vars::first_pair_gives_the_value(assigned, 1);
    rendered_between(before, "type"@, after, channel);
    rendered_between(before, "channel"@, after, channel);
    reveal_strlit("type");
    reveal_strlit("channel");
    reveal_strlit("<type>");
    reveal_strlit("<channel>");
    assert("<type>"@ =~= placeholder("type"@));
    assert("<channel>"@ =~= placeholder("channel"@));
}

/// The placeholder of the service number is exchanged for the digits of the channel's own number,
/// without quotes; where the channel has none and no variable of that name, it stays as it is.
pub proof fn service_number_is_filled_in(
    before: Seq<char>,
    after: Seq<char>,
    channel: ChannelModel,
) -> (digits: Seq<char>)
    requires
        is_plain(channel),
        lacks(before, '<'),
        lacks(after, '<'),
    ensures
        channel.service_id matches Some(id) ==> {
            &&& rendered(before + "<serviceId>"@ + after, channel) == before + digits + after
            &&& crate::text::denoted(digits) == id
            &&& digits.len() > 0
            &&& digits.len() > 1 ==> digits[0] != '0'
            &&& forall|k: int|
                0 <= k < digits.len() ==> '0' as int <= #[trigger] digits[k] as int <= '9' as int
        },
        channel.service_id is None && (forall|i: int|
            0 <= i < channel.command_vars.len() ==> (#[trigger] channel.command_vars[i]).0
                != "serviceId"@) ==> rendered(before + "<serviceId>"@ + after, channel) == before
            + "<serviceId>"@ + after,
{
    let assigned = assignments(channel);
    let fixed = names_filled_in(channel);
    rendered_between(before, "serviceId"@, after, channel);
    reveal_strlit("serviceId");
    reveal_strlit("<serviceId>");
    assert("<serviceId>"@ =~= placeholder("serviceId"@));
    match channel.service_id {
        Some(id) => {
            crate::vars::first_pair_gives_the_value(assigned, 2);
            crate::text::numerals_denote_their_numbers(id as nat);
            crate::text::decimal(id as nat)
        },
        None => {
            if forall|i: int|
                0 <= i < channel.command_vars.len() ==> (#[trigger] channel.command_vars[i]).0
                    != "serviceId"@ {
                assert forall|k: int| 0 <= k < assigned.len() implies (#[trigger] assigned[k]).0
                    != "serviceId"@ by {
                    if k >= 2 {
                        assert(assigned[fixed + (k - 2)].0 == channel.command_vars[k - 2].0);
                    }
                }
                crate::vars::other_keys_have_no_value(assigned, "serviceId"@);
            }
            Seq::empty()
        },
    }
}

/// A placeholder whose name the channel does not know stays as it is.
pub proof fn unknown_names_stay(
    before: Seq<char>,
    name: Seq<char>,
    after: Seq<char>,
    channel: ChannelModel,
)
    requires
        is_plain(channel),
        lacks(before, '<'),
        lacks(after, '<'),
        lacks(name, '<'),
        lacks(name, '>'),
        name != "type"@,
        name != "channel"@,
        name != "serviceId"@,
        forall|i: int|
            0 <= i < channel.command_vars.len() ==> (#[trigger] channel.command_vars[i]).0 != name,
    ensures
        rendered(before + seq!['<'] + name + seq!['>'] + after, channel) == before + seq!['<']
            + name + seq!['>'] + after,
{
    let assigned = assignments(channel);
    let fixed = names_filled_in(channel);
    assert forall|k: int| 0 <= k < assigned.len() implies (#[trigger] assigned[k]).0 != name by {
        if k >= fixed {
            assert(assigned[fixed + (k - fixed)].0 == channel.command_vars[k - fixed].0);
        }
    }
    crate::vars::other_keys_have_no_value(assigned, name);
    rendered_between(before, name, after, channel);
    assert(before + seq!['<'] + name + seq!['>'] + after =~= before + placeholder(name) + after);
}

/// A template that is made up of two is filled in part by part: what stands in one part makes no
/// difference to the other.
pub proof fn parts_are_filled_in_apart(left: Seq<Piece>, right: Seq<Piece>, channel: ChannelModel)
    requires
        forall|i: int|
            0 <= i < assignments(channel).len() ==> all_apart(
                left,
                (#[trigger] assignments(channel)[i]).0,
            ) && all_apart(right, assignments(channel)[i].0),
        independent(assignments(channel)),
    ensures
        rendered(template_of(left) + template_of(right), channel) == rendered(
            template_of(left),
            channel,
        ) + rendered(template_of(right), channel),
{
    let assigned = assignments(channel);
    let both = left + right;
    assert forall|i: int| 0 <= i < assigned.len() implies all_apart(
        both,
        (#[trigger] assigned[i]).0,
    ) by {
        assert(all_apart(left, assigned[i].0));
        assert(all_apart(right, assigned[i].0));
    }
    rendered_template(left, channel);
    rendered_template(right, channel);
    rendered_template(both, channel);
    template_of_both(left, right);
    template_of_both(all_resolved(left, assigned), all_resolved(right, assigned));
    assert(all_resolved(both, assigned) =~= all_resolved(left, assigned) + all_resolved(
        right,
        assigned,
    ));
}

proof fn template_of_both(left: Seq<Piece>, right: Seq<Piece>)
    ensures
        template_of(left + right) == template_of(left) + template_of(right),
    decreases left.len(),
{
    if left.len() == 0 {
        assert(left + right =~= right);
        assert(template_of(left) + template_of(right) =~= template_of(right));
    } else {
        assert((left + right).skip(1) =~= left.skip(1) + right);
        template_of_both(left.skip(1), right);
        assert(left[0].written() + (template_of(left.skip(1)) + template_of(right))
            =~= template_of(left) + template_of(right));
    }
}

/// One more variable, after all others, is filled in last: its placeholders are looked for in the
/// command line that the channel has without it, the values that were filled in before included.
pub proof fn last_variable_is_filled_in_last(
    template: Seq<char>,
    channel: ChannelModel,
    name: Seq<char>,
    value: Seq<char>,
)
    ensures
        rendered(
            template,
            (ChannelModel { command_vars: channel.command_vars.push((name, value)), ..channel }),
        ) == crate::text::replaced(
            rendered(template, channel),
            seq!['<'] + name + seq!['>'],
            crate::shell::quoted(value),
        ),
{
    let longer = ChannelModel {
        command_vars: channel.command_vars.push((name, value)),
        ..channel
    };
    assert(assignments(longer).drop_last() =~= assignments(channel));
    assert(assignments(longer).last() == (name, crate::shell::quoted(value)));
}

/// On a channel without variables the type is filled in first, then the number, and then the
/// service number, each in what the one before it has left.
pub proof fn fixed_names_are_filled_in_order(template: Seq<char>, channel: ChannelModel)
    requires
        channel.command_vars.len() == 0,
    ensures
        channel.service_id is None ==> rendered(template, channel) == crate::text::replaced(
            crate::text::replaced(
                template,
                "<type>"@,
                crate::shell::quoted(channel.channel_type),
            ),
            "<channel>"@,
            crate::shell::quoted(channel.channel),
        ),
        channel.service_id matches Some(id) ==> rendered(template, channel)
            == crate::text::replaced(
            rendered(template, (ChannelModel { service_id: None, ..channel })),
            "<serviceId>"@,
            crate::text::decimal(id as nat),
        ),
{
    let bare = ChannelModel { service_id: None, ..channel };
    let assigned = assignments(channel);
    let fixed = names_filled_in(channel);
    let fewer = names_filled_in(bare);
    reveal_strlit("type");
    reveal_strlit("channel");
    reveal_strlit("serviceId");
    reveal_strlit("<type>");
    reveal_strlit("<channel>");
    reveal_strlit("<serviceId>");
    assert("<type>"@ =~= placeholder("type"@));
    assert("<channel>"@ =~= placeholder("channel"@));
    assert("<serviceId>"@ =~= placeholder("serviceId"@));
    if channel.service_id is Some {
        assert(assigned.drop_last() =~= assignments(bare));
        assert(assigned.last() == assigned[2]);
    } else {
        reveal_with_fuel(filled, 3);
        assert(assigned.drop_last().drop_last() =~= Seq::empty());
        assert(assigned.drop_last().last() == assigned[0]);
        assert(assigned.last() == assigned[1]);
    }
}

} // verus!
