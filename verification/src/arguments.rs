//! What was typed on the command line.
use vstd::prelude::*;
use vstd::string::*;

use crate::order::pairs;
use crate::text::{cut, lemma_find_char, same, split_once, starts_with, texts};

verus! {

/// What was typed, taken apart.
#[derive(Debug)]
pub struct Arguments {
    pub command: String,
    /// The words after a command that takes them: `plugin new <name>`.
    pub words: Vec<String>,
    pub flags: Vec<(String, String)>,
    pub switches: Vec<String>,
}

/// The texts of what was typed.
pub struct Given {
    pub command: Seq<char>,
    pub words: Seq<Seq<char>>,
    pub flags: Seq<(Seq<char>, Seq<char>)>,
    pub switches: Seq<Seq<char>>,
}

impl View for Arguments {
    type V = Given;

    open spec fn view(&self) -> Given {
        Given {
            command: self.command@,
            words: texts(self.words@),
            flags: pairs(self.flags@),
            switches: texts(self.switches@),
        }
    }
}

/// The commands that take words. Anywhere else a stray one is refused rather
/// than ignored.
pub open spec fn takes_words(command: Seq<char>) -> bool {
    command == "plugin"@ || command == "connect"@ || command == "sign-out"@
}

/// The flags that take a value, so a switch is never read as one.
pub open spec fn takes_a_value(flag: Seq<char>) -> bool {
    ||| flag == "--into"@
    ||| flag == "--deployment"@
    ||| flag == "--dir"@
    ||| flag == "--instance"@
    ||| flag == "-n"@
    ||| flag == "--namespace"@
    ||| flag == "--platform"@
    ||| flag == "--image"@
    ||| flag == "--release"@
    ||| flag == "--chart"@
    ||| flag == "--chart-version"@
    ||| flag == "--id"@
    ||| flag == "--enrolment-code"@
    ||| flag == "-p"@
    ||| flag == "--params"@
    ||| flag == "--first-run-code"@
    ||| flag == "--port"@
    ||| flag == "-f"@
    ||| flag == "--values"@
    ||| flag == "--timeout"@
}

/// Everything else, which takes no value. An unknown one is refused rather
/// than ignored: a misspelled `--no-doctor` that is quietly dropped installs
/// something the person asked not to have checked.
pub open spec fn is_switch(switch: Seq<char>) -> bool {
    switch == "--no-doctor"@ || switch == "--yes"@ || switch == "-h"@ || switch == "--help"@
        || switch == "-v"@
}

/// What is typed so far, with the rest of what was typed taken apart.
///
/// A flag is read in both spellings, because `--params=x` is what a script
/// writes and `--params x` is what a person types. A flag that a switch comes
/// after has no value, and what is spelled with an equals sign has to be a flag
/// that takes one.
pub open spec fn parsed_on(given: Given, rest: Seq<Seq<char>>) -> Result<Given, Seq<char>>
    decreases rest.len(),
{
    if rest.len() == 0 {
        Ok(given)
    } else {
        let argument = rest[0];
        if !"-"@.is_prefix_of(argument) {
            if takes_words(given.command) {
                parsed_on(Given { words: given.words.push(argument), ..given }, rest.skip(1))
            } else {
                Err(argument + " is not an option this takes"@)
            }
        } else {
            match split_once(argument, "="@) {
                Some((flag, value)) => if takes_a_value(flag) {
                    parsed_on(
                        Given { flags: given.flags.push((flag, value)), ..given },
                        rest.skip(1),
                    )
                } else {
                    Err(argument + " is not an option this takes"@)
                },
                None => if takes_a_value(argument) {
                    if rest.len() < 2 || is_switch(rest[1]) {
                        Err(argument + " needs a value"@)
                    } else {
                        parsed_on(
                            Given { flags: given.flags.push((argument, rest[1])), ..given },
                            rest.skip(2),
                        )
                    }
                } else if is_switch(argument) {
                    parsed_on(
                        Given { switches: given.switches.push(argument), ..given },
                        rest.skip(1),
                    )
                } else {
                    Err(argument + " is not an option this takes"@)
                },
            }
        }
    }
}

/// What was typed, taken apart, or why it cannot be.
pub open spec fn parsed(said: Seq<Seq<char>>) -> Result<Given, Seq<char>> {
    parsed_on(
        Given {
            command: if said.len() == 0 {
                Seq::empty()
            } else {
                said[0]
            },
            words: Seq::empty(),
            flags: Seq::empty(),
            switches: Seq::empty(),
        },
        if said.len() == 0 {
            said
        } else {
            said.skip(1)
        },
    )
}

/// What parsing came to.
pub open spec fn parsing(r: Result<Arguments, String>) -> Result<Given, Seq<char>> {
    match r {
        Ok(arguments) => Ok(arguments@),
        Err(why) => Err(why@),
    }
}

fn word_command(command: &str) -> (r: bool)
    ensures
        r == takes_words(command@),
{
    same(command, "plugin") || same(command, "connect") || same(command, "sign-out")
}

fn value_flag(flag: &str) -> (r: bool)
    ensures
        r == takes_a_value(flag@),
{
    same(flag, "--into") || same(flag, "--deployment") || same(flag, "--dir") || same(
        flag,
        "--instance",
    ) || same(flag, "-n") || same(flag, "--namespace") || same(flag, "--platform") || same(
        flag,
        "--image",
    ) || same(flag, "--release") || same(flag, "--chart") || same(flag, "--chart-version")
        || same(flag, "--id") || same(flag, "--enrolment-code") || same(flag, "-p") || same(
        flag,
        "--params",
    ) || same(flag, "--first-run-code") || same(flag, "--port") || same(flag, "-f") || same(
        flag,
        "--values",
    ) || same(flag, "--timeout")
}

fn switch_word(switch: &str) -> (r: bool)
    ensures
        r == is_switch(switch@),
{
    same(switch, "--no-doctor") || same(switch, "--yes") || same(switch, "-h") || same(
        switch,
        "--help",
    ) || same(switch, "-v")
}

fn with_end(said: &str, end: &str) -> (out: String)
    ensures
        out@ == said@ + end@,
{
    let mut out = said.to_owned();
    out.append(end);
    out
}

/// What was typed, taken apart, or why it cannot be.
pub fn parse(said: Vec<String>) -> (r: Result<Arguments, String>)
    ensures
        parsing(r) == parsed(texts(said@)),
{
    let n: usize = said.len();
    let command = if n == 0 {
        String::new()
    } else {
        said[0].clone()
    };
    let mut given = Arguments {
        command,
        words: Vec::new(),
        flags: Vec::new(),
        switches: Vec::new(),
    };
    let ghost all = texts(said@);
    let ghost whole = parsed(all);
    let mut i: usize = if n == 0 {
        0
    } else {
        1
    };
    proof {
        assert(given@.words =~= Seq::<Seq<char>>::empty());
        assert(given@.flags =~= Seq::<(Seq<char>, Seq<char>)>::empty());
        assert(given@.switches =~= Seq::<Seq<char>>::empty());
        assert(all.skip(0) =~= all);
    }
    while i < n
        invariant
            i <= n,
            n == said@.len(),
            all == texts(said@),
            whole == parsed(all),
            whole == parsed_on(given@, all.skip(i as int)),
        decreases n - i,
    {
        let ghost rest = all.skip(i as int);
        let ghost before = given@;
        assert(rest[0] == said@[i as int]@);
        assert(rest.skip(1) =~= all.skip(i + 1));
        let argument = &said[i];
        if !starts_with(argument.as_str(), "-") {
            if !word_command(given.command.as_str()) {
                return Err(with_end(argument.as_str(), " is not an option this takes"));
            }
            given.words.push(argument.clone());
            assert(given@.words =~= before.words.push(argument@));
            i += 1;
        } else if let Some((flag, value)) = cut(argument.as_str(), "=") {
            if !value_flag(flag.as_str()) {
                return Err(with_end(argument.as_str(), " is not an option this takes"));
            }
            let ghost pair = (flag@, value@);
            given.flags.push((flag, value));
            assert(given@.flags =~= before.flags.push(pair));
            i += 1;
        } else if value_flag(argument.as_str()) {
            if n - i < 2 {
                return Err(with_end(argument.as_str(), " needs a value"));
            }
            assert(rest[1] == said@[i + 1]@);
            if switch_word(said[i + 1].as_str()) {
                return Err(with_end(argument.as_str(), " needs a value"));
            }
            assert(rest.skip(2) =~= all.skip(i + 2));
            given.flags.push((argument.clone(), said[i + 1].clone()));
            assert(given@.flags =~= before.flags.push((argument@, said@[i + 1]@)));
            i += 2;
        } else if switch_word(argument.as_str()) {
            given.switches.push(argument.clone());
            assert(given@.switches =~= before.switches.push(argument@));
            i += 1;
        } else {
            return Err(with_end(argument.as_str(), " is not an option this takes"));
        }
    }
    Ok(given)
}

/// Both spellings of a flag are the same flag: a flag that takes a value is
/// read the same with the value after it and with the value behind an equals
/// sign, whatever comes before and after. A value that is spelled as a switch
/// can stand behind an equals sign alone.
pub proof fn both_spellings_of_a_flag_are_the_same_flag(
    given: Given,
    flag: Seq<char>,
    value: Seq<char>,
    rest: Seq<Seq<char>>,
)
    requires
        takes_a_value(flag),
        !is_switch(value),
    ensures
        parsed_on(given, seq![flag, value] + rest) == parsed_on(
            given,
            seq![flag + "="@ + value] + rest,
        ),
{
    lemma_flags(flag);
    reveal_strlit("=");
    reveal_strlit("-");
    assert("="@ =~= seq!['=']);
    assert("-"@ =~= seq!['-']);
    let typed = seq![flag, value] + rest;
    let scripted = seq![flag + "="@ + value] + rest;
    let one = flag + "="@ + value;
    assert(typed.skip(2) =~= rest);
    assert(scripted.skip(1) =~= rest);
    assert("-"@.is_prefix_of(flag));
    assert("-"@.is_prefix_of(one));
    assert forall|j: int| 0 <= j < flag.len() implies one[j] != '=' by {
        assert(flag[j] != '=');
    }
    lemma_find_char(one, '=', flag.len() as int);
    assert(one.take(flag.len() as int) =~= flag);
    assert(one.skip(flag.len() as int + 1) =~= value);
    assert(split_once(flag, "="@) is None) by {
        crate::text::lemma_holds_char(flag, '=');
        if flag.contains('=') {
            let k = choose|k: int| 0 <= k < flag.len() && flag[k] == '=';
        }
        crate::text::lemma_find(flag, "="@);
    }
}

/// The switches among what was typed, in order.
pub open spec fn switches_in(rest: Seq<Seq<char>>) -> Seq<Seq<char>>
    decreases rest.len(),
{
    if rest.len() == 0 {
        Seq::empty()
    } else if is_switch(rest[0]) {
        seq![rest[0]] + switches_in(rest.skip(1))
    } else {
        switches_in(rest.skip(1))
    }
}

/// A switch is never read as a flag's value, and never lost: the switches of
/// what is accepted are those that were typed, in order.
pub proof fn a_switch_is_never_read_as_a_flags_value(given: Given, rest: Seq<Seq<char>>)
    ensures
        parsed_on(given, rest) matches Ok(all) ==> all.switches == given.switches + switches_in(
            rest,
        ),
    decreases rest.len(),
{
    if rest.len() == 0 {
        assert(given.switches + switches_in(rest) =~= given.switches);
    } else {
        let argument = rest[0];
        if is_switch(argument) {
            lemma_switches(argument);
        }
        if !"-"@.is_prefix_of(argument) {
            a_switch_is_never_read_as_a_flags_value(
                Given { words: given.words.push(argument), ..given },
                rest.skip(1),
            );
        } else {
            match split_once(argument, "="@) {
                Some((flag, value)) => {
                    a_switch_is_never_read_as_a_flags_value(
                        Given { flags: given.flags.push((flag, value)), ..given },
                        rest.skip(1),
                    );
                },
                None => {
                    if takes_a_value(argument) {
                        if rest.len() >= 2 {
                            a_switch_is_never_read_as_a_flags_value(
                                Given { flags: given.flags.push((argument, rest[1])), ..given },
                                rest.skip(2),
                            );
                            let then = rest.skip(1);
                            assert(then.skip(1) =~= rest.skip(2));
                            assert(then[0] == rest[1]);
                            assert(!is_switch(rest[1]) ==> switches_in(then) == switches_in(
                                then.skip(1),
                            ));
                        }
                    } else if is_switch(argument) {
                        let more = given.switches.push(argument);
                        a_switch_is_never_read_as_a_flags_value(
                            Given { switches: more, ..given },
                            rest.skip(1),
                        );
                        assert(more + switches_in(rest.skip(1)) =~= given.switches + switches_in(
                            rest,
                        ));
                    }
                },
            }
        }
    }
}

/// What is not known is refused rather than ignored: of what is accepted, every
/// flag is one that takes a value, a word comes only after a command that takes
/// words, and every argument is kept, as a word, as a switch, or in a flag.
pub proof fn what_is_not_known_is_refused(given: Given, rest: Seq<Seq<char>>)
    ensures
        parsed_on(given, rest) matches Ok(all) ==> {
            &&& all.command == given.command
            &&& given.flags.len() <= all.flags.len()
            &&& forall|i: int|
                given.flags.len() <= i < all.flags.len() ==> takes_a_value(
                    (#[trigger] all.flags[i]).0,
                )
            &&& forall|i: int|
                0 <= i < given.flags.len() ==> #[trigger] all.flags[i] == given.flags[i]
            &&& takes_words(given.command) || all.words == given.words
            &&& given.words.len() <= all.words.len()
            &&& given.switches.len() <= all.switches.len()
            &&& rest.len() <= (all.words.len() - given.words.len()) + (all.switches.len()
                - given.switches.len()) + 2 * (all.flags.len() - given.flags.len())
        },
    decreases rest.len(),
{
    if rest.len() > 0 {
        let argument = rest[0];
        if !"-"@.is_prefix_of(argument) {
            what_is_not_known_is_refused(
                Given { words: given.words.push(argument), ..given },
                rest.skip(1),
            );
        } else {
            match split_once(argument, "="@) {
                Some((flag, value)) => {
                    let more = Given { flags: given.flags.push((flag, value)), ..given };
                    what_is_not_known_is_refused(more, rest.skip(1));
                    assert(more.flags.drop_last() =~= given.flags);
                    lemma_one_flag_more(given, more, parsed_on(given, rest));
                },
                None => {
                    if takes_a_value(argument) {
                        if rest.len() >= 2 {
                            let more = Given {
                                flags: given.flags.push((argument, rest[1])),
                                ..given
                            };
                            what_is_not_known_is_refused(more, rest.skip(2));
                            assert(more.flags.drop_last() =~= given.flags);
                            lemma_one_flag_more(given, more, parsed_on(given, rest));
                        }
                    } else if is_switch(argument) {
                        what_is_not_known_is_refused(
                            Given { switches: given.switches.push(argument), ..given },
                            rest.skip(1),
                        );
                    }
                },
            }
        }
    }
}

/// What keeps the flags of one more keeps those there were, and that one.
proof fn lemma_one_flag_more(given: Given, more: Given, r: Result<Given, Seq<char>>)
    requires
        more.flags.len() == given.flags.len() + 1,
        more.flags.drop_last() == given.flags,
        r matches Ok(all) ==> more.flags.len() <= all.flags.len() && forall|i: int|
            0 <= i < more.flags.len() ==> #[trigger] all.flags[i] == more.flags[i],
    ensures
        r matches Ok(all) ==> all.flags[given.flags.len() as int] == more.flags.last() && forall|
            i: int,
        |
            0 <= i < given.flags.len() ==> #[trigger] all.flags[i] == given.flags[i],
{
    if let Ok(all) = r {
        assert forall|i: int| 0 <= i < given.flags.len() implies #[trigger] all.flags[i]
            == given.flags[i] by {
            assert(all.flags[i] == more.flags[i]);
            assert(more.flags.drop_last()[i] == more.flags[i]);
        }
    }
}

/// A switch starts with a hyphen, holds no equals sign, and is no flag that
/// takes a value.
proof fn lemma_switches(switch: Seq<char>)
    requires
        is_switch(switch),
    ensures
        "-"@.is_prefix_of(switch),
        split_once(switch, "="@) is None,
        !takes_a_value(switch),
{
    reveal_strlit("--no-doctor");
    reveal_strlit("--yes");
    reveal_strlit("-h");
    reveal_strlit("--help");
    reveal_strlit("-v");
    reveal_strlit("-");
    reveal_strlit("=");
    assert("-"@ =~= seq!['-']);
    assert("="@ =~= seq!['=']);
    assert(switch[0] == '-');
    assert(switch.take(1) =~= "-"@);
    assert forall|j: int| 0 <= j < switch.len() implies switch[j] != '=' by {}
    crate::text::lemma_holds_char(switch, '=');
    crate::text::lemma_find(switch, "="@);
    if takes_a_value(switch) {
        lemma_flags(switch);
        reveal_strlit("--into");
        reveal_strlit("--deployment");
        reveal_strlit("--dir");
        reveal_strlit("--instance");
        reveal_strlit("-n");
        reveal_strlit("--namespace");
        reveal_strlit("--platform");
        reveal_strlit("--image");
        reveal_strlit("--release");
        reveal_strlit("--chart");
        reveal_strlit("--chart-version");
        reveal_strlit("--id");
        reveal_strlit("--enrolment-code");
        reveal_strlit("-p");
        reveal_strlit("--params");
        reveal_strlit("--first-run-code");
        reveal_strlit("--port");
        reveal_strlit("-f");
        reveal_strlit("--values");
        reveal_strlit("--timeout");
        assert(switch[1] != 'n' && switch[1] != 'p' && switch[1] != 'f');
        assert(switch.len() == 5 ==> switch[2] == 'y');
        assert(switch.len() == 6 ==> switch[2] == 'h');
        assert(switch.len() == 11 ==> switch[3] == 'o');
    }
}

/// No flag that takes a value holds an equals sign, and each starts with a
/// hyphen.
proof fn lemma_flags(flag: Seq<char>)
    requires
        takes_a_value(flag),
    ensures
        flag.len() > 0,
        flag[0] == '-',
        forall|j: int| 0 <= j < flag.len() ==> #[trigger] flag[j] != '=',
{
    reveal_strlit("--into");
    reveal_strlit("--deployment");
    reveal_strlit("--dir");
    reveal_strlit("--instance");
    reveal_strlit("-n");
    reveal_strlit("--namespace");
    reveal_strlit("--platform");
    reveal_strlit("--image");
    reveal_strlit("--release");
    reveal_strlit("--chart");
    reveal_strlit("--chart-version");
    reveal_strlit("--id");
    reveal_strlit("--enrolment-code");
    reveal_strlit("-p");
    reveal_strlit("--params");
    reveal_strlit("--first-run-code");
    reveal_strlit("--port");
    reveal_strlit("-f");
    reveal_strlit("--values");
    reveal_strlit("--timeout");
}

// ── What was given ───────────────────────────────────────────────────────────

/// The value of a flag by either of its names: the last that was given.
pub open spec fn value_of(flags: Seq<(Seq<char>, Seq<char>)>, long: Seq<char>, short: Seq<char>) -> Option<
    Seq<char>,
>
    decreases flags.len(),
{
    if flags.len() == 0 {
        None
    } else if flags.last().0 == long || flags.last().0 == short {
        Some(flags.last().1)
    } else {
        value_of(flags.drop_last(), long, short)
    }
}

/// Every value of a flag by either of its names, in the order they were given.
pub open spec fn every_value(
    flags: Seq<(Seq<char>, Seq<char>)>,
    long: Seq<char>,
    short: Seq<char>,
) -> Seq<Seq<char>>
    decreases flags.len(),
{
    if flags.len() == 0 {
        Seq::empty()
    } else {
        let rest = every_value(flags.drop_last(), long, short);
        if flags.last().0 == long || flags.last().0 == short {
            rest.push(flags.last().1)
        } else {
            rest
        }
    }
}

/// Values accumulate in the order they were given, and the last of them is the
/// one that counts where one is wanted.
pub proof fn values_accumulate_in_the_order_they_were_given(
    flags: Seq<(Seq<char>, Seq<char>)>,
    more: Seq<(Seq<char>, Seq<char>)>,
    long: Seq<char>,
    short: Seq<char>,
)
    ensures
        every_value(flags + more, long, short) == every_value(flags, long, short) + every_value(
            more,
            long,
            short,
        ),
        value_of(flags, long, short) == (if every_value(flags, long, short).len() == 0 {
            None
        } else {
            Some(every_value(flags, long, short).last())
        }),
    decreases more.len() + flags.len(),
{
    if more.len() == 0 {
        assert(flags + more =~= flags);
        assert(every_value(flags, long, short) + every_value(more, long, short) =~= every_value(
            flags,
            long,
            short,
        ));
        if flags.len() > 0 {
            values_accumulate_in_the_order_they_were_given(flags.drop_last(), more, long, short);
        }
    } else {
        values_accumulate_in_the_order_they_were_given(flags, more.drop_last(), long, short);
        assert((flags + more).drop_last() =~= flags + more.drop_last());
        assert((flags + more).last() == more.last());
        assert(every_value(flags + more, long, short) =~= every_value(flags, long, short)
            + every_value(more, long, short));
    }
}

/// Among the flags, the last by either name stands there.
pub open spec fn given_last(
    flags: Seq<(Seq<char>, Seq<char>)>,
    long: Seq<char>,
    short: Seq<char>,
    i: int,
) -> bool {
    &&& 0 <= i < flags.len()
    &&& flags[i].0 == long || flags[i].0 == short
    &&& forall|j: int|
        i < j < flags.len() ==> (#[trigger] flags[j]).0 != long && flags[j].0 != short
}

/// This was typed for a flag, or nothing was: it is what stands behind the last
/// of the flag's two names that was given.
pub open spec fn was_typed(
    flags: Seq<(Seq<char>, Seq<char>)>,
    long: Seq<char>,
    short: Seq<char>,
    value: Option<Seq<char>>,
) -> bool {
    match value {
        Some(value) => exists|i: int| #[trigger]
            given_last(flags, long, short, i) && flags[i].1 == value,
        None => forall|i: int|
            0 <= i < flags.len() ==> (#[trigger] flags[i]).0 != long && flags[i].0 != short,
    }
}

/// The value of a flag is what was typed behind it the last time, under either
/// name, and it has none only where neither name was typed.
pub proof fn the_last_value_given_is_the_flags_value(
    flags: Seq<(Seq<char>, Seq<char>)>,
    long: Seq<char>,
    short: Seq<char>,
)
    ensures
        was_typed(flags, long, short, value_of(flags, long, short)),
    decreases flags.len(),
{
    if flags.len() > 0 {
        let fewer = flags.drop_last();
        assert(flags[flags.len() - 1] == flags.last());
        if flags.last().0 == long || flags.last().0 == short {
            assert(given_last(flags, long, short, flags.len() - 1));
        } else {
            the_last_value_given_is_the_flags_value(fewer, long, short);
            assert forall|j: int| 0 <= j < fewer.len() implies #[trigger] flags[j] == fewer[j] by {
            }
            match value_of(flags, long, short) {
                Some(value) => {
                    let i = choose|i: int| #[trigger]
                        given_last(fewer, long, short, i) && fewer[i].1 == value;
                    assert(given_last(flags, long, short, i)) by {
                        assert forall|j: int| i < j < flags.len() implies (#[trigger] flags[j]).0
                            != long && flags[j].0 != short by {
                            if j < fewer.len() {
                                assert(fewer[j].0 != long);
                            }
                        }
                    }
                },
                None => {
                    assert forall|j: int| 0 <= j < flags.len() implies (#[trigger] flags[j]).0
                        != long && flags[j].0 != short by {
                        if j < fewer.len() {
                            assert(fewer[j].0 != long);
                        }
                    }
                },
            }
        }
    }
}

/// There is one last value: what was typed for a flag is the flag's value.
pub proof fn what_was_typed_is_the_flags_value(
    flags: Seq<(Seq<char>, Seq<char>)>,
    long: Seq<char>,
    short: Seq<char>,
    value: Option<Seq<char>>,
)
    requires
        was_typed(flags, long, short, value),
    ensures
        value_of(flags, long, short) == value,
{
    the_last_value_given_is_the_flags_value(flags, long, short);
    let found = value_of(flags, long, short);
    if found is Some {
        let k = choose|k: int| #[trigger]
            given_last(flags, long, short, k) && flags[k].1 == found->0;
        if value is Some {
            let i = choose|i: int| #[trigger]
                given_last(flags, long, short, i) && flags[i].1 == value->0;
            if i < k {
                assert(flags[k].0 != long && flags[k].0 != short);
            }
            if k < i {
                assert(flags[i].0 != long && flags[i].0 != short);
            }
        } else {
            assert(flags[k].0 != long && flags[k].0 != short);
        }
    } else if value is Some {
        let i = choose|i: int| #[trigger]
            given_last(flags, long, short, i) && flags[i].1 == value->0;
        assert(flags[i].0 != long && flags[i].0 != short);
    }
}

/// Every value that was given for a flag is among its values, whatever else was
/// given before and after, and what was given for another flag is not.
pub proof fn no_value_given_for_a_flag_is_lost(
    before: Seq<(Seq<char>, Seq<char>)>,
    flag: (Seq<char>, Seq<char>),
    after: Seq<(Seq<char>, Seq<char>)>,
    long: Seq<char>,
    short: Seq<char>,
)
    ensures
        every_value(Seq::empty(), long, short).len() == 0,
        flag.0 == long || flag.0 == short ==> every_value(before + seq![flag] + after, long, short)
            == every_value(before, long, short) + seq![flag.1] + every_value(after, long, short),
        flag.0 != long && flag.0 != short ==> every_value(before + seq![flag] + after, long, short)
            == every_value(before, long, short) + every_value(after, long, short),
{
    let one = seq![flag];
    let none = Seq::<(Seq<char>, Seq<char>)>::empty();
    values_accumulate_in_the_order_they_were_given(before + one, after, long, short);
    values_accumulate_in_the_order_they_were_given(before, one, long, short);
    assert(one.drop_last() =~= none);
    assert(every_value(none, long, short) =~= Seq::<Seq<char>>::empty());
    let all = every_value(before, long, short) + every_value(one, long, short) + every_value(
        after,
        long,
        short,
    );
    if flag.0 == long || flag.0 == short {
        assert(every_value(one, long, short) =~= seq![flag.1]);
    } else {
        assert(every_value(one, long, short) =~= Seq::<Seq<char>>::empty());
        assert(all =~= every_value(before, long, short) + every_value(after, long, short));
    }
}

impl Arguments {
    /// The value of a flag by either of its names: the last that was given.
    pub fn value(&self, long: &str, short: &str) -> (r: Option<&str>)
        ensures
            match r {
                Some(value) => value_of(self@.flags, long@, short@) == Some(value@),
                None => value_of(self@.flags, long@, short@) is None,
            },
    {
        let ghost all = self@.flags;
        let mut i: usize = self.flags.len();
        assert(all.take(i as int) =~= all);
        while i > 0
            invariant
                i <= self.flags@.len(),
                all == self@.flags,
                value_of(all, long@, short@) == value_of(all.take(i as int), long@, short@),
            decreases i,
        {
            assert(all.take(i as int).drop_last() =~= all.take(i - 1));
            assert(all.take(i as int).last() == all[i - 1]);
            let flag = self.flags[i - 1].0.as_str();
            if same(flag, long) || same(flag, short) {
                return Some(self.flags[i - 1].1.as_str());
            }
            i -= 1;
        }
        None
    }

    /// Every value of a flag by either of its names, in the order they were
    /// given.
    pub fn every(&self, long: &str, short: &str) -> (out: Vec<String>)
        ensures
            texts(out@) == every_value(self@.flags, long@, short@),
    {
        let ghost all = self@.flags;
        let mut out: Vec<String> = Vec::new();
        let mut i: usize = 0;
        assert(texts(out@) =~= Seq::<Seq<char>>::empty());
        assert(all.take(0) =~= Seq::<(Seq<char>, Seq<char>)>::empty());
        while i < self.flags.len()
            invariant
                i <= self.flags@.len(),
                all == self@.flags,
                texts(out@) == every_value(all.take(i as int), long@, short@),
            decreases self.flags@.len() - i,
        {
            let ghost before = texts(out@);
            assert(all.take(i + 1).drop_last() =~= all.take(i as int));
            assert(all.take(i + 1).last() == all[i as int]);
            let flag = self.flags[i].0.as_str();
            if same(flag, long) || same(flag, short) {
                out.push(self.flags[i].1.clone());
                assert(texts(out@) =~= before.push(all[i as int].1));
            }
            i += 1;
        }
        assert(all.take(i as int) =~= all);
        out
    }

    /// Whether a switch was given.
    pub fn set(&self, switch: &str) -> (r: bool)
        ensures
            r == self@.switches.contains(switch@),
    {
        let mut i: usize = 0;
        while i < self.switches.len()
            invariant
                i <= self.switches@.len(),
                forall|j: int| 0 <= j < i ==> (#[trigger] self.switches@[j])@ != switch@,
            decreases self.switches@.len() - i,
        {
            if same(self.switches[i].as_str(), switch) {
                assert(self@.switches[i as int] == switch@);
                return true;
            }
            i += 1;
        }
        assert forall|j: int| 0 <= j < self@.switches.len() implies self@.switches[j]
            != switch@ by {
            assert(self.switches@[j]@ != switch@);
        }
        false
    }
}

/// The value of a flag, or else this.
pub open spec fn value_or(flags: Seq<(Seq<char>, Seq<char>)>, long: Seq<char>, short: Seq<char>, or: Seq<char>) -> Seq<
    char,
> {
    match value_of(flags, long, short) {
        Some(value) => value,
        None => or,
    }
}

impl Arguments {
    /// The value of a flag, or else this.
    pub fn value_or(&self, long: &str, short: &str, or: &str) -> (out: String)
        ensures
            out@ == value_or(self@.flags, long@, short@, or@),
    {
        match self.value(long, short) {
            Some(value) => value.to_owned(),
            None => or.to_owned(),
        }
    }

    /// The value of a flag, as a string of its own.
    pub fn owned(&self, long: &str, short: &str) -> (r: Option<String>)
        ensures
            crate::catalogue::image::optional(r) == value_of(self@.flags, long@, short@),
    {
        match self.value(long, short) {
            Some(value) => Some(value.to_owned()),
            None => None,
        }
    }
}

/// A credential, from the flag if it was given and else from the environment,
/// if it is anything.
pub open spec fn secret_of(
    flags: Seq<(Seq<char>, Seq<char>)>,
    flag: Seq<char>,
    held: Option<Seq<char>>,
) -> Option<Seq<char>> {
    let given = match value_of(flags, flag, flag) {
        Some(value) => Some(value),
        None => held,
    };
    match given {
        Some(value) => if value.len() > 0 {
            Some(value)
        } else {
            None
        },
        None => None,
    }
}

/// A credential from the environment, of which `held` is what the variable
/// holds and which no shell history keeps, or from the flag, which one does.
pub fn credential(arguments: &Arguments, flag: &str, held: Option<String>) -> (r: Option<String>)
    ensures
        crate::catalogue::image::optional(r) == secret_of(
            arguments@.flags,
            flag@,
            crate::catalogue::image::optional(held),
        ),
{
    let given = match arguments.value(flag, flag) {
        Some(value) => Some(value.to_owned()),
        None => held,
    };
    match given {
        Some(value) => {
            if value.as_str().unicode_len() > 0 {
                Some(value)
            } else {
                None
            }
        },
        None => None,
    }
}

/// This was typed for a flag, or nothing was and it is what is assumed.
pub open spec fn typed_or(
    flags: Seq<(Seq<char>, Seq<char>)>,
    long: Seq<char>,
    short: Seq<char>,
    value: Seq<char>,
    or: Seq<char>,
) -> bool {
    was_typed(flags, long, short, Some(value)) || was_typed(flags, long, short, None) && value == or
}

/// What was typed counts, and something is assumed only where nothing was typed.
pub proof fn something_is_assumed_only_where_nothing_was_typed(
    flags: Seq<(Seq<char>, Seq<char>)>,
    long: Seq<char>,
    short: Seq<char>,
    or: Seq<char>,
)
    ensures
        typed_or(flags, long, short, value_or(flags, long, short, or), or),
{
    the_last_value_given_is_the_flags_value(flags, long, short);
}

/// A credential is what was typed for it, and what the environment holds only
/// where nothing was typed; and an empty one is none.
pub proof fn a_credential_is_what_was_typed_or_what_the_environment_holds(
    flags: Seq<(Seq<char>, Seq<char>)>,
    flag: Seq<char>,
    held: Option<Seq<char>>,
)
    ensures
        match secret_of(flags, flag, held) {
            Some(secret) => secret.len() > 0 && (was_typed(flags, flag, flag, Some(secret))
                || was_typed(flags, flag, flag, None) && held == Some(secret)),
            None => was_typed(flags, flag, flag, Some(Seq::empty())) || was_typed(
                flags,
                flag,
                flag,
                None,
            ) && (held matches Some(secret) ==> secret.len() == 0),
        },
{
    the_last_value_given_is_the_flags_value(flags, flag, flag);
    if let Some(typed) = value_of(flags, flag, flag) {
        if typed.len() == 0 {
            assert(typed =~= Seq::<char>::empty());
        }
    }
}

/// What is typed after something is taken apart after it, and changes nothing
/// of it.
pub proof fn what_is_typed_later_is_taken_apart_later(
    given: Given,
    rest: Seq<Seq<char>>,
    more: Seq<Seq<char>>,
)
    ensures
        parsed_on(given, rest) matches Ok(all) ==> parsed_on(given, rest + more) == parsed_on(
            all,
            more,
        ),
    decreases rest.len(),
{
    let whole = rest + more;
    if rest.len() == 0 {
        assert(whole =~= more);
    } else {
        let argument = rest[0];
        assert(whole[0] == argument);
        assert(whole.skip(1) =~= rest.skip(1) + more);
        if !"-"@.is_prefix_of(argument) {
            what_is_typed_later_is_taken_apart_later(
                Given { words: given.words.push(argument), ..given },
                rest.skip(1),
                more,
            );
        } else {
            match split_once(argument, "="@) {
                Some((flag, value)) => {
                    what_is_typed_later_is_taken_apart_later(
                        Given { flags: given.flags.push((flag, value)), ..given },
                        rest.skip(1),
                        more,
                    );
                },
                None => {
                    if takes_a_value(argument) {
                        if rest.len() >= 2 {
                            assert(whole[1] == rest[1]);
                            assert(whole.skip(2) =~= rest.skip(2) + more);
                            what_is_typed_later_is_taken_apart_later(
                                Given { flags: given.flags.push((argument, rest[1])), ..given },
                                rest.skip(2),
                                more,
                            );
                        }
                    } else if is_switch(argument) {
                        what_is_typed_later_is_taken_apart_later(
                            Given { switches: given.switches.push(argument), ..given },
                            rest.skip(1),
                            more,
                        );
                    }
                },
            }
        }
    }
}

/// A flag and a value that are typed last are kept as they were typed, behind
/// the flags that there were, and nothing else changes; so the value is the
/// flag's, under either of the names it goes by.
pub proof fn a_flag_that_is_typed_last_counts(
    said: Seq<Seq<char>>,
    flag: Seq<char>,
    value: Seq<char>,
)
    requires
        said.len() > 0,
        takes_a_value(flag),
        !is_switch(value),
    ensures
        parsed(said) matches Ok(given) ==> {
            &&& parsed(said + seq![flag, value]) matches Ok(more)
            &&& more.command == given.command
            &&& more.words == given.words
            &&& more.switches == given.switches
            &&& more.flags == given.flags + seq![(flag, value)]
            &&& forall|long: Seq<char>, short: Seq<char>|
                flag == long || flag == short ==> #[trigger] value_of(more.flags, long, short)
                    == Some(value) && every_value(more.flags, long, short).len() > 0
                    && every_value(more.flags, long, short).last() == value
        },
{
    if let Ok(given) = parsed(said) {
        let typed = seq![flag, value];
        let start = Given {
            command: said[0],
            words: Seq::empty(),
            flags: Seq::empty(),
            switches: Seq::empty(),
        };
        let whole = said + typed;
        assert(whole.skip(1) =~= said.skip(1) + typed);
        assert(whole[0] == said[0]);
        what_is_typed_later_is_taken_apart_later(start, said.skip(1), typed);
        what_is_not_known_is_refused(start, said.skip(1));
        lemma_flags(flag);
        reveal_strlit("-");
        reveal_strlit("=");
        assert("-"@ =~= seq!['-']);
        assert("="@ =~= seq!['=']);
        assert(flag.take(1) =~= "-"@);
        assert("-"@.is_prefix_of(flag));
        crate::text::lemma_holds_char(flag, '=');
        if flag.contains('=') {
            let k = choose|k: int| 0 <= k < flag.len() && flag[k] == '=';
        }
        crate::text::lemma_find(flag, "="@);
        assert(split_once(flag, "="@) is None);
        let more = Given { flags: given.flags.push((flag, value)), ..given };
        assert(typed[0] == flag && typed[1] == value);
        assert(typed.skip(2).len() == 0);
        assert(parsed_on(more, typed.skip(2)) == Ok::<Given, Seq<char>>(more));
        assert(parsed_on(given, typed) == parsed_on(more, typed.skip(2)));
        assert(given.flags.push((flag, value)) =~= given.flags + seq![(flag, value)]);
        assert(more.flags.drop_last() =~= given.flags);
    }
}

/// A switch, or a word after a command that takes words, is kept as it was typed
/// and behind those that there were.
pub proof fn a_switch_or_a_word_that_is_typed_is_kept(said: Seq<Seq<char>>, typed: Seq<char>)
    requires
        said.len() > 0,
    ensures
        parsed(said) matches Ok(given) ==> {
            &&& is_switch(typed) ==> parsed(said + seq![typed]) == Ok::<Given, Seq<char>>(
                Given { switches: given.switches + seq![typed], ..given },
            )
            &&& !"-"@.is_prefix_of(typed) && takes_words(said[0]) ==> parsed(said + seq![typed])
                == Ok::<Given, Seq<char>>(Given { words: given.words + seq![typed], ..given })
            &&& !"-"@.is_prefix_of(typed) && !takes_words(said[0]) ==> parsed(
                said + seq![typed],
            ) is Err
        },
{
    if let Ok(given) = parsed(said) {
        let start = Given {
            command: said[0],
            words: Seq::empty(),
            flags: Seq::empty(),
            switches: Seq::empty(),
        };
        let whole = said + seq![typed];
        assert(whole.skip(1) =~= said.skip(1) + seq![typed]);
        what_is_typed_later_is_taken_apart_later(start, said.skip(1), seq![typed]);
        what_is_not_known_is_refused(start, said.skip(1));
        assert(given.command == said[0]);
        assert(seq![typed].skip(1).len() == 0);
        if is_switch(typed) {
            lemma_switches(typed);
            assert(given.switches.push(typed) =~= given.switches + seq![typed]);
            let more = Given { switches: given.switches.push(typed), ..given };
            assert(parsed_on(more, seq![typed].skip(1)) == Ok::<Given, Seq<char>>(more));
        }
        if !"-"@.is_prefix_of(typed) && takes_words(said[0]) {
            assert(given.words.push(typed) =~= given.words + seq![typed]);
            let more = Given { words: given.words.push(typed), ..given };
            assert(parsed_on(more, seq![typed].skip(1)) == Ok::<Given, Seq<char>>(more));
        }
    }
}

/// What is refused is named: the reason starts with the argument that cannot be
/// taken, and says that it is not an option, or that it is one without its value.
pub proof fn what_is_refused_is_named(given: Given, rest: Seq<Seq<char>>)
    ensures
        parsed_on(given, rest) matches Err(why) ==> exists|i: int|
            0 <= i < rest.len() && (why == #[trigger] rest[i] + " is not an option this takes"@ && (
            !takes_a_value(rest[i])) || why == rest[i] + " needs a value"@ && takes_a_value(rest[i])
                && (i + 1 == rest.len() || is_switch(rest[i + 1]))),
    decreases rest.len(),
{
    if rest.len() > 0 {
        let argument = rest[0];
        if takes_a_value(argument) {
            lemma_flags(argument);
            lemma_flag_is_one(argument);
        }
        if !"-"@.is_prefix_of(argument) {
            let more = Given { words: given.words.push(argument), ..given };
            what_is_refused_is_named(more, rest.skip(1));
            lemma_named_later(parsed_on(more, rest.skip(1)), rest, 1);
        } else {
            match split_once(argument, "="@) {
                Some((flag, value)) => {
                    let more = Given { flags: given.flags.push((flag, value)), ..given };
                    what_is_refused_is_named(more, rest.skip(1));
                    lemma_named_later(parsed_on(more, rest.skip(1)), rest, 1);
                },
                None => {
                    if takes_a_value(argument) {
                        if rest.len() >= 2 {
                            let more = Given {
                                flags: given.flags.push((argument, rest[1])),
                                ..given
                            };
                            what_is_refused_is_named(more, rest.skip(2));
                            lemma_named_later(parsed_on(more, rest.skip(2)), rest, 2);
                        }
                    } else if is_switch(argument) {
                        let more = Given { switches: given.switches.push(argument), ..given };
                        what_is_refused_is_named(more, rest.skip(1));
                        lemma_named_later(parsed_on(more, rest.skip(1)), rest, 1);
                    }
                },
            }
        }
    }
}

/// A reason that names an argument of the rest names it in the whole.
proof fn lemma_named_later(r: Result<Given, Seq<char>>, rest: Seq<Seq<char>>, n: int)
    requires
        0 <= n <= rest.len(),
        r matches Err(why) ==> exists|i: int|
            0 <= i < rest.skip(n).len() && (why == #[trigger] rest.skip(n)[i]
                + " is not an option this takes"@ && (!takes_a_value(rest.skip(n)[i])) || why
                == rest.skip(n)[i] + " needs a value"@ && takes_a_value(rest.skip(n)[i]) && (i + 1
                == rest.skip(n).len() || is_switch(rest.skip(n)[i + 1]))),
    ensures
        r matches Err(why) ==> exists|i: int|
            0 <= i < rest.len() && (why == #[trigger] rest[i] + " is not an option this takes"@ && (
            !takes_a_value(rest[i])) || why == rest[i] + " needs a value"@ && takes_a_value(rest[i])
                && (i + 1 == rest.len() || is_switch(rest[i + 1]))),
{
    if let Err(why) = r {
        let then = rest.skip(n);
        let i = choose|i: int|
            0 <= i < then.len() && (why == #[trigger] then[i] + " is not an option this takes"@ && (
            !takes_a_value(then[i])) || why == then[i] + " needs a value"@ && takes_a_value(then[i])
                && (i + 1 == then.len() || is_switch(then[i + 1])));
        assert(then[i] == rest[n + i]);
        if i + 1 < then.len() {
            assert(then[i + 1] == rest[n + i + 1]);
        }
    }
}

/// A flag that takes a value starts with a hyphen and holds no equals sign.
proof fn lemma_flag_is_one(flag: Seq<char>)
    requires
        takes_a_value(flag),
    ensures
        "-"@.is_prefix_of(flag),
        split_once(flag, "="@) is None,
{
    lemma_flags(flag);
    reveal_strlit("-");
    reveal_strlit("=");
    assert("-"@ =~= seq!['-']);
    assert("="@ =~= seq!['=']);
    assert(flag.take(1) =~= "-"@);
    crate::text::lemma_holds_char(flag, '=');
    if flag.contains('=') {
        let k = choose|k: int| 0 <= k < flag.len() && flag[k] == '=';
    }
    crate::text::lemma_find(flag, "="@);
}

/// A stray word is refused after every command but the three that take words,
/// and kept after those.
pub proof fn a_stray_word_is_refused(said: Seq<Seq<char>>, word: Seq<char>)
    requires
        said.len() > 0,
        parsed(said) is Ok,
        !"-"@.is_prefix_of(word),
    ensures
        parsed(said + seq![word]) is Ok <==> said[0] == "plugin"@ || said[0] == "connect"@ || said[0]
            == "sign-out"@,
{
    a_switch_or_a_word_that_is_typed_is_kept(said, word);
}

} // verus!
