//! What the words of a command line mean.

use crate::args;
use crate::args::{
    Command, CommandView, ContextView, CorrectView, ExportView, ForgetView, GetView, IndexView,
    RememberView, Request, RequestView, SearchView, SettingView, StateClearView, StateCommand,
    StateSetView, StateShowView, WordsView,
};
use crate::laws::memory::lemma_filter_membership;
use crate::model;
use crate::text;
use vstd::prelude::*;

verus! {

/// Words that begin with those of a front, none of which is `--`, are sorted as the front is
/// and then as the rest is.
pub proof fn law_words_are_sorted_one_by_one(
    a: Seq<Seq<char>>,
    b: Seq<Seq<char>>,
    done: WordsView,
)
    requires
        args::sorted(a, done, false) is Ok,
        forall|i: int| 0 <= i < a.len() ==> #[trigger] a[i] != "--"@,
    ensures
        args::sorted(a + b, done, false) == args::sorted(
            b,
            args::sorted(a, done, false)->Ok_0,
            false,
        ),
    decreases a.len(),
{
    let all = a + b;
    if a.len() == 0 {
        assert(all =~= b);
    } else {
        let word = a[0];
        assert(all[0] == word);
        assert(all.skip(1) =~= a.skip(1) + b);
        assert(word != "--"@);
        if args::flag_name(word) is Some {
            let next = WordsView { flags: done.flags.push(args::flag_name(word)->0), ..done };
            law_words_are_sorted_one_by_one(a.skip(1), b, next);
        } else if args::setting_name(args::head(word)) is Some {
            let name = args::setting_name(args::head(word))->0;
            match args::tail(word) {
                Some(value) => {
                    let next = WordsView {
                        settings: done.settings.push(SettingView { name, value }),
                        ..done
                    };
                    law_words_are_sorted_one_by_one(a.skip(1), b, next);
                },
                None => {
                    assert(all[1] == a[1]);
                    assert(all.skip(2) =~= a.skip(2) + b);
                    let next = WordsView {
                        settings: done.settings.push(SettingView { name, value: a[1] }),
                        ..done
                    };
                    law_words_are_sorted_one_by_one(a.skip(2), b, next);
                },
            }
        } else {
            let next = WordsView { args: done.args.push(word), ..done };
            law_words_are_sorted_one_by_one(a.skip(1), b, next);
        }
    }
}

/// Behind the word `--` every word is an argument, whatever it looks like.
pub proof fn law_words_behind_two_dashes_are_arguments(words: Seq<Seq<char>>, done: WordsView)
    ensures
        args::sorted(seq!["--"@] + words, done, false) == Ok::<WordsView, Seq<char>>(
            WordsView { flags: done.flags, settings: done.settings, args: done.args + words },
        ),
{
    let all = seq!["--"@] + words;
    assert(all[0] == "--"@);
    assert(all.skip(1) =~= words);
    lemma_literal(words, done);
}

proof fn lemma_literal(words: Seq<Seq<char>>, done: WordsView)
    ensures
        args::sorted(words, done, true) == Ok::<WordsView, Seq<char>>(
            WordsView { flags: done.flags, settings: done.settings, args: done.args + words },
        ),
    decreases words.len(),
{
    if words.len() == 0 {
        assert(done.args + words =~= done.args);
    } else {
        let next = WordsView { args: done.args.push(words[0]), ..done };
        lemma_literal(words.skip(1), next);
        assert(next.args + words.skip(1) =~= done.args + words);
    }
}

/// A word that does not begin with a dash is an argument, as it is.
pub proof fn law_plain_words_are_arguments(word: Seq<char>, done: WordsView)
    requires
        word.len() == 0 || word[0] != '-',
    ensures
        args::sorted(seq![word], done, false) == Ok::<WordsView, Seq<char>>(
            WordsView { flags: done.flags, settings: done.settings, args: done.args.push(word) },
        ),
{
    lemma_head(word);
    lemma_dashed(word);
    lemma_dashed(args::head(word));
    let words = seq![word];
    assert(words.skip(1).len() == 0);
    reveal_strlit("--");
    reveal_with_fuel(args::sorted, 2);
}

/// The names of flags and options begin with a dash.
proof fn lemma_dashed(word: Seq<char>)
    requires
        word.len() == 0 || word[0] != '-',
    ensures
        args::flag_name(word) is None,
        args::setting_name(word) is None,
{
    reveal_strlit("--json");
    reveal_strlit("--semantic");
    reveal_strlit("--cached-only");
    reveal_strlit("--include-superseded");
    reveal_strlit("--help");
    reveal_strlit("-h");
    reveal_strlit("--version");
    reveal_strlit("-V");
    reveal_strlit("--db");
    reveal_strlit("--workspace");
    reveal_strlit("--session");
    reveal_strlit("--goal");
    reveal_strlit("--task");
    reveal_strlit("--checkpoint");
    reveal_strlit("--clear");
    reveal_strlit("--limit");
    reveal_strlit("-n");
    reveal_strlit("--max-bytes");
    reveal_strlit("--kind");
    reveal_strlit("--actor");
    reveal_strlit("--source-type");
    reveal_strlit("--source-ref");
}

proof fn lemma_head(word: Seq<char>)
    ensures
        args::head_len(word) <= word.len(),
        args::head(word).len() > 0 ==> args::head(word)[0] == word[0],
        forall|i: int| 0 <= i < args::head_len(word) ==> #[trigger] word[i] != '=',
        args::head_len(word) < word.len() ==> word[args::head_len(word) as int] == '=',
    decreases word.len(),
{
    if word.len() > 0 && word[0] != '=' {
        lemma_head(word.skip(1));
        assert forall|i: int| 0 <= i < args::head_len(word) implies #[trigger] word[i] != '=' by {
            if i > 0 {
                assert(word[i] == word.skip(1)[i - 1]);
            }
        }
    }
}

/// A word is parted at its first equals sign, and whole without one.
pub proof fn law_words_are_parted_at_the_first_equals_sign(name: Seq<char>, value: Seq<char>)
    requires
        forall|i: int| 0 <= i < name.len() ==> #[trigger] name[i] != '=',
    ensures
        args::head(name + seq!['='] + value) == name,
        args::tail(name + seq!['='] + value) == Some(value),
        args::head(name) == name,
        args::tail(name) is None,
{
    let word = name + seq!['='] + value;
    lemma_head(word);
    lemma_head(name);
    let n = args::head_len(word) as int;
    if n < name.len() {
        assert(word[n] == name[n]);
    }
    if n > name.len() {
        assert(word[name.len() as int] == '=');
    }
    assert(args::head(word) =~= name);
    assert(word.skip(n + 1) =~= value);
    let m = args::head_len(name) as int;
    assert(m == name.len());
    assert(args::head(name) =~= name);
}

/// A flag is noted by its name, wherever it stands.
pub proof fn law_flags_are_noted(word: Seq<char>, name: Seq<char>, done: WordsView)
    requires
        ({
            ||| word == "--json"@ && name == "json"@
            ||| word == "--semantic"@ && name == "semantic"@
            ||| word == "--cached-only"@ && name == "cached-only"@
            ||| word == "--include-superseded"@ && name == "include-superseded"@
            ||| word == "--help"@ && name == "help"@
            ||| word == "-h"@ && name == "help"@
            ||| word == "--version"@ && name == "version"@
            ||| word == "-V"@ && name == "version"@
        }),
    ensures
        args::sorted(seq![word], done, false) == Ok::<WordsView, Seq<char>>(
            WordsView { flags: done.flags.push(name), settings: done.settings, args: done.args },
        ),
{
    reveal_strlit("--");
    reveal_strlit("--json");
    reveal_strlit("--semantic");
    reveal_strlit("--cached-only");
    reveal_strlit("--include-superseded");
    reveal_strlit("--help");
    reveal_strlit("-h");
    reveal_strlit("--version");
    reveal_strlit("-V");
    let words = seq![word];
    assert(words.skip(1).len() == 0);
    assert("--"@.len() == 2);
    assert("--json"@.len() == 6);
    assert("--semantic"@.len() == 10);
    assert("--cached-only"@.len() == 13);
    assert("--include-superseded"@.len() == 20);
    assert("--help"@.len() == 6);
    assert("--json"@[2] == 'j');
    assert("--help"@[2] == 'h');
    assert("-h"@[1] == 'h');
    assert("-V"@[1] == 'V');
    assert("--"@[1] == '-');
    assert("--version"@.len() == 9);
    reveal_with_fuel(args::sorted, 2);
}

/// Holds of an option, by what it is called on the command line and by its name.
pub open spec fn is_option(word: Seq<char>, name: Seq<char>) -> bool {
    ||| word == "--db"@ && name == "db"@
    ||| word == "--workspace"@ && name == "workspace"@
    ||| word == "--session"@ && name == "session"@
    ||| word == "--goal"@ && name == "goal"@
    ||| word == "--task"@ && name == "task"@
    ||| word == "--checkpoint"@ && name == "checkpoint"@
    ||| word == "--clear"@ && name == "clear"@
    ||| word == "--limit"@ && name == "limit"@
    ||| word == "-n"@ && name == "limit"@
    ||| word == "--max-bytes"@ && name == "max-bytes"@
    ||| word == "--kind"@ && name == "kind"@
    ||| word == "--actor"@ && name == "actor"@
    ||| word == "--source-type"@ && name == "source-type"@
    ||| word == "--source-ref"@ && name == "source-ref"@
}

proof fn lemma_option(word: Seq<char>, name: Seq<char>)
    requires
        is_option(word, name),
    ensures
        args::setting_name(word) == Some(name),
        args::flag_name(word) is None,
        word != "--"@,
        word.len() > 1,
        word[0] == '-',
        forall|i: int| 0 <= i < word.len() ==> #[trigger] word[i] != '=',
{
    reveal_strlit("--");
    reveal_strlit("--json");
    reveal_strlit("--semantic");
    reveal_strlit("--cached-only");
    reveal_strlit("--include-superseded");
    reveal_strlit("--help");
    reveal_strlit("-h");
    reveal_strlit("--version");
    reveal_strlit("-V");
    reveal_strlit("--db");
    reveal_strlit("--workspace");
    reveal_strlit("--session");
    reveal_strlit("--goal");
    reveal_strlit("--task");
    reveal_strlit("--checkpoint");
    reveal_strlit("--clear");
    reveal_strlit("--limit");
    reveal_strlit("-n");
    reveal_strlit("--max-bytes");
    reveal_strlit("--kind");
    reveal_strlit("--actor");
    reveal_strlit("--source-type");
    reveal_strlit("--source-ref");
    assert("--"@.len() == 2);
    assert("--json"@.len() == 6 && "--json"@[2] == 'j');
    assert("--semantic"@.len() == 10 && "--semantic"@[3] == 'e' && "--semantic"@[4] == 'm');
    assert("--cached-only"@.len() == 13 && "--cached-only"@[2] == 'c');
    assert("--include-superseded"@.len() == 20);
    assert("--help"@.len() == 6 && "--help"@[2] == 'h');
    assert("-h"@.len() == 2 && "-h"@[1] == 'h');
    assert("-V"@.len() == 2 && "-V"@[1] == 'V');
    assert("-n"@.len() == 2 && "-n"@[1] == 'n');
    assert("--"@[1] == '-');
    assert("--version"@.len() == 9 && "--version"@[2] == 'v');
    assert("--db"@.len() == 4);
    assert("--workspace"@.len() == 11);
    assert("--session"@.len() == 9 && "--session"@[2] == 's');
    assert("--goal"@.len() == 6 && "--goal"@[2] == 'g');
    assert("--task"@.len() == 6 && "--task"@[2] == 't');
    assert("--checkpoint"@.len() == 12 && "--checkpoint"@[2] == 'c');
    assert("--clear"@.len() == 7 && "--clear"@[2] == 'c');
    assert("--limit"@.len() == 7 && "--limit"@[2] == 'l');
    assert("--max-bytes"@.len() == 11 && "--max-bytes"@[2] == 'm');
    assert("--workspace"@[2] == 'w');
    assert("--kind"@.len() == 6 && "--kind"@[2] == 'k');
    assert("--actor"@.len() == 7 && "--actor"@[2] == 'a');
    assert("--source-type"@.len() == 13 && "--source-type"@[2] == 's');
    assert("--source-ref"@.len() == 12 && "--source-ref"@[2] == 's');
}

/// An option takes the word behind it, or what stands behind its equals sign, as its value:
/// whole, and whatever it looks like. Without either it is refused.
pub proof fn law_options_take_their_values(
    word: Seq<char>,
    name: Seq<char>,
    value: Seq<char>,
    done: WordsView,
)
    requires
        is_option(word, name),
    ensures
        args::sorted(seq![word, value], done, false) == Ok::<WordsView, Seq<char>>(
            WordsView {
                flags: done.flags,
                settings: done.settings.push(SettingView { name, value }),
                args: done.args,
            },
        ),
        args::sorted(seq![word], done, false) == Err::<WordsView, Seq<char>>(
            "missing value for "@ + word,
        ),
{
    lemma_option(word, name);
    law_words_are_parted_at_the_first_equals_sign(word, value);
    let two = seq![word, value];
    assert(two.skip(2).len() == 0);
    reveal_with_fuel(args::sorted, 2);
}

/// An option and its value in one word, with an equals sign between, are the same as in two.
pub proof fn law_options_can_hold_their_values(
    word: Seq<char>,
    name: Seq<char>,
    value: Seq<char>,
    done: WordsView,
)
    requires
        is_option(word, name),
    ensures
        args::sorted(seq![word + seq!['='] + value], done, false) == args::sorted(
            seq![word, value],
            done,
            false,
        ),
{
    lemma_option(word, name);
    law_options_take_their_values(word, name, value, done);
    law_words_are_parted_at_the_first_equals_sign(word, value);
    let whole = word + seq!['='] + value;
    let one = seq![whole];
    assert(one.skip(1).len() == 0);
    assert(whole[word.len() as int] == '=');
    assert(whole != "--"@ && args::flag_name(whole) is None) by {
        lemma_no_equals_sign(whole, word.len() as int);
    }
    reveal_with_fuel(args::sorted, 2);
}

proof fn lemma_no_equals_sign(word: Seq<char>, k: int)
    requires
        0 <= k < word.len(),
        word[k] == '=',
    ensures
        word != "--"@,
        args::flag_name(word) is None,
{
    reveal_strlit("--");
    reveal_strlit("--json");
    reveal_strlit("--semantic");
    reveal_strlit("--cached-only");
    reveal_strlit("--include-superseded");
    reveal_strlit("--help");
    reveal_strlit("-h");
    reveal_strlit("--version");
    reveal_strlit("-V");
}

/// These are the flags and the options, and there are no others. A dash alone is an argument.
pub proof fn law_there_are_no_other_options(word: Seq<char>, done: WordsView)
    ensures
        args::flag_name(word) is Some <==> {
            ||| word == "--json"@
            ||| word == "--semantic"@
            ||| word == "--cached-only"@
            ||| word == "--include-superseded"@
            ||| word == "--help"@
            ||| word == "-h"@
            ||| word == "--version"@
            ||| word == "-V"@
        },
        args::setting_name(word) is Some <==> exists|name: Seq<char>| is_option(word, name),
        args::sorted(seq!["-"@], done, false) == Ok::<WordsView, Seq<char>>(
            WordsView { flags: done.flags, settings: done.settings, args: done.args.push("-"@) },
        ),
{
    if args::setting_name(word) is Some {
        assert(is_option(word, args::setting_name(word)->0));
    }
    if exists|name: Seq<char>| is_option(word, name) {
        let name = choose|name: Seq<char>| is_option(word, name);
        lemma_option(word, name);
    }
    reveal_strlit("-");
    let dash = "-"@;
    assert(dash.len() == 1 && dash[0] == '-');
    lemma_head(dash);
    lemma_short(dash);
    let words = seq![dash];
    assert(words.skip(1).len() == 0);
    assert(args::head(dash) =~= dash) by {
        assert(args::head_len(dash) == 1) by {
            reveal_with_fuel(args::head_len, 2);
        }
    }
    reveal_with_fuel(args::sorted, 2);
}

proof fn lemma_short(word: Seq<char>)
    requires
        word.len() == 1,
    ensures
        word != "--"@,
        args::flag_name(word) is None,
        args::setting_name(word) is None,
{
    reveal_strlit("--");
    reveal_strlit("--json");
    reveal_strlit("--semantic");
    reveal_strlit("--cached-only");
    reveal_strlit("--include-superseded");
    reveal_strlit("--help");
    reveal_strlit("-h");
    reveal_strlit("--version");
    reveal_strlit("-V");
    reveal_strlit("--db");
    reveal_strlit("--workspace");
    reveal_strlit("--session");
    reveal_strlit("--goal");
    reveal_strlit("--task");
    reveal_strlit("--checkpoint");
    reveal_strlit("--clear");
    reveal_strlit("--limit");
    reveal_strlit("-n");
    reveal_strlit("--max-bytes");
    reveal_strlit("--kind");
    reveal_strlit("--actor");
    reveal_strlit("--source-type");
    reveal_strlit("--source-ref");
}

/// What looks like a flag or an option and is none is refused.
pub proof fn law_unknown_options_are_refused(
    word: Seq<char>,
    rest: Seq<Seq<char>>,
    done: WordsView,
)
    requires
        word.len() > 1,
        word[0] == '-',
        word != "--"@,
        args::flag_name(word) is None,
        args::setting_name(args::head(word)) is None,
    ensures
        args::sorted(seq![word] + rest, done, false) == Err::<WordsView, Seq<char>>(
            "unexpected argument '"@ + word + "'"@,
        ),
{
    let words = seq![word] + rest;
    assert(words[0] == word);
}

/// The last value of an option counts; without one it has none.
pub proof fn law_the_last_value_counts(words: WordsView, name: Seq<char>, i: int)
    ensures
        0 <= i < words.settings.len() && words.settings[i].name == name && (forall|j: int|
            i < j < words.settings.len() ==> (#[trigger] words.settings[j]).name != name)
            ==> args::value_of(words, name) == Some(words.settings[i].value),
        (forall|j: int|
            0 <= j < words.settings.len() ==> (#[trigger] words.settings[j]).name != name)
            ==> args::value_of(words, name) is None,
        args::has_flag(words, name) <==> words.flags.contains(name),
{
    let p = args::setting_named(name);
    if 0 <= i < words.settings.len() && words.settings[i].name == name && (forall|j: int|
        i < j < words.settings.len() ==> (#[trigger] words.settings[j]).name != name) {
        lemma_last(words.settings, p, i);
    }
    if forall|j: int|
        0 <= j < words.settings.len() ==> (#[trigger] words.settings[j]).name != name {
        model::lemma_first_row(words.settings, p);
    }
    if words.flags.contains(name) {
        let k = choose|k: int| 0 <= k < words.flags.len() && words.flags[k] == name;
        assert(args::named(name)(words.flags[k]));
    }
}

proof fn lemma_last<V>(s: Seq<V>, p: spec_fn(V) -> bool, i: int)
    requires
        0 <= i < s.len(),
        p(s[i]),
        forall|j: int| i < j < s.len() ==> !p(#[trigger] s[j]),
    ensures
        s.filter(p).len() > 0,
        s.filter(p).last() == s[i],
    decreases s.len(),
{
    reveal(Seq::filter);
    let front = s.drop_last();
    if i < s.len() - 1 {
        assert(front[i] == s[i]);
        assert forall|j: int| i < j < front.len() implies !p(#[trigger] front[j]) by {
            assert(front[j] == s[j]);
        }
        lemma_last(front, p, i);
        assert(!p(s[s.len() - 1]));
    }
}

/// Every field to clear is kept.
pub proof fn law_every_field_to_clear_counts(words: WordsView, field: Seq<char>)
    ensures
        model::joined(words.settings, args::value_if("clear"@)).contains(field)
            <==> words.settings.contains(SettingView { name: "clear"@, value: field }),
{
    let g = args::value_if("clear"@);
    let p = model::gives(g);
    let kept = words.settings.filter(p);
    let values = model::joined(words.settings, g);
    lemma_filter_membership(words.settings, p);
    let x = SettingView { name: "clear"@, value: field };
    if values.contains(field) {
        let k = choose|k: int| 0 <= k < values.len() && values[k] == field;
        assert(kept.contains(kept[k]));
        assert(kept[k] == x);
    }
    if words.settings.contains(x) {
        assert(p(x));
        assert(kept.contains(x));
        let k = choose|k: int| 0 <= k < kept.len() && kept[k] == x;
        assert(values[k] == field);
    }
}

/// Holds when the flags and options of a command line are among the given ones, and the sizes
/// among them are numbers.
pub open spec fn takes_only(
    words: WordsView,
    flags: Seq<Seq<char>>,
    options: Seq<Seq<char>>,
) -> bool {
    &&& forall|i: int|
        0 <= i < words.flags.len() ==> #[trigger] words.flags[i] == "json"@ || flags.contains(
            words.flags[i],
        )
    &&& forall|i: int|
        0 <= i < words.settings.len() ==> (#[trigger] words.settings[i]).name == "db"@
            || options.contains(words.settings[i].name)
    &&& args::value_of(words, "limit"@) matches Some(v) ==> text::size_value(v) is Some
    &&& args::value_of(words, "max-bytes"@) matches Some(v) ==> text::size_value(v) is Some
}

/// The number that an option gives, if it is given.
pub open spec fn number_of(words: WordsView, name: Seq<char>) -> Option<int> {
    match args::value_of(words, name) {
        Some(v) => text::size_value(v),
        None => None,
    }
}

/// Holds when a request is to run a command, with the output and database that were asked for.
pub open spec fn is_request(
    r: Result<RequestView, Seq<char>>,
    words: WordsView,
    command: CommandView,
) -> bool {
    r == Ok::<RequestView, Seq<char>>(
        RequestView::Run {
            json: words.flags.contains("json"@),
            db: args::value_of(words, "db"@),
            command,
        },
    )
}

proof fn lemma_request(
    words: WordsView,
    kind: args::Kind,
    flags: Seq<Seq<char>>,
    options: Seq<Seq<char>>,
)
    requires
        words.args.len() > 0,
        args::kind_of(words.args) == Ok::<args::Kind, Seq<char>>(kind),
        words.args.len() == args::arity(kind),
        takes_only(words, flags, options),
        forall|i: int| 0 <= i < flags.len() ==> args::takes(kind, #[trigger] flags[i]),
        forall|i: int| 0 <= i < options.len() ==> args::takes(kind, #[trigger] options[i]),
        !flags.contains("help"@),
        !flags.contains("version"@),
    ensures
        is_request(args::request_of(words), words, args::command_of(words, kind)),
{
    reveal_strlit("json");
    reveal_strlit("help");
    reveal_strlit("version");
    assert("json"@[0] == 'j' && "help"@[0] == 'h' && "version"@[0] == 'v');
    law_the_last_value_counts(words, "help"@, 0);
    law_the_last_value_counts(words, "version"@, 0);
    law_the_last_value_counts(words, "json"@, 0);
    model::lemma_first_row(words.flags, args::stray_flag(kind));
    model::lemma_first_row(words.settings, args::stray_setting(kind));
    assert(!words.flags.contains("help"@));
    assert(!words.flags.contains("version"@));
}

proof fn lemma_kinds(args_: Seq<Seq<char>>)
    requires
        args_.len() > 0,
    ensures
        args_[0] == "init"@ ==> args::kind_of(args_) == Ok::<args::Kind, Seq<char>>(
            args::Kind::Init,
        ),
        args_[0] == "status"@ ==> args::kind_of(args_) == Ok::<args::Kind, Seq<char>>(
            args::Kind::Status,
        ),
        args_[0] == "context"@ ==> args::kind_of(args_) == Ok::<args::Kind, Seq<char>>(
            args::Kind::Context,
        ),
        args_[0] == "remember"@ ==> args::kind_of(args_) == Ok::<args::Kind, Seq<char>>(
            args::Kind::Remember,
        ),
        args_[0] == "correct"@ ==> args::kind_of(args_) == Ok::<args::Kind, Seq<char>>(
            args::Kind::Correct,
        ),
        args_[0] == "search"@ ==> args::kind_of(args_) == Ok::<args::Kind, Seq<char>>(
            args::Kind::Search,
        ),
        args_[0] == "get"@ ==> args::kind_of(args_) == Ok::<args::Kind, Seq<char>>(
            args::Kind::Get,
        ),
        args_[0] == "forget"@ ==> args::kind_of(args_) == Ok::<args::Kind, Seq<char>>(
            args::Kind::Forget,
        ),
        args_[0] == "index"@ ==> args::kind_of(args_) == Ok::<args::Kind, Seq<char>>(
            args::Kind::Index,
        ),
        args_[0] == "export"@ ==> args::kind_of(args_) == Ok::<args::Kind, Seq<char>>(
            args::Kind::Export,
        ),
        args_.len() > 1 && args_[0] == "state"@ && args_[1] == "show"@ ==> args::kind_of(args_)
            == Ok::<args::Kind, Seq<char>>(args::Kind::StateShow),
        args_.len() > 1 && args_[0] == "state"@ && args_[1] == "set"@ ==> args::kind_of(args_)
            == Ok::<args::Kind, Seq<char>>(args::Kind::StateSet),
        args_.len() > 1 && args_[0] == "state"@ && args_[1] == "clear"@ ==> args::kind_of(args_)
            == Ok::<args::Kind, Seq<char>>(args::Kind::StateClear),
{
    reveal_strlit("init");
    reveal_strlit("status");
    reveal_strlit("state");
    reveal_strlit("show");
    reveal_strlit("set");
    reveal_strlit("clear");
    reveal_strlit("context");
    reveal_strlit("remember");
    reveal_strlit("correct");
    reveal_strlit("search");
    reveal_strlit("get");
    reveal_strlit("forget");
    reveal_strlit("index");
    reveal_strlit("export");
    assert("init"@.len() == 4);
    assert("status"@.len() == 6 && "status"@[1] == 't');
    assert("state"@.len() == 5 && "state"@[0] == 's');
    assert("show"@.len() == 4);
    assert("set"@.len() == 3);
    assert("clear"@.len() == 5);
    assert("context"@.len() == 7 && "context"@[2] == 'n');
    assert("remember"@.len() == 8);
    assert("correct"@.len() == 7 && "correct"@[2] == 'r');
    assert("search"@.len() == 6 && "search"@[0] == 's' && "search"@[1] == 'e');
    assert("get"@.len() == 3);
    assert("forget"@.len() == 6 && "forget"@[0] == 'f');
    assert("index"@.len() == 5 && "index"@[0] == 'i');
    assert("export"@.len() == 6 && "export"@[0] == 'e');
    assert("status"@[0] == 's');
}

/// The commands that store and change memories take their words as they are, and each option
/// for what it is called.
pub proof fn law_commands_that_change_memories(words: WordsView, a: Seq<char>, b: Seq<char>)
    requires
        takes_only(
            words,
            Seq::empty(),
            seq!["kind"@, "actor"@, "source-type"@, "source-ref"@],
        ),
    ensures
        words.args == seq!["remember"@, a] ==> is_request(
            args::request_of(words),
            words,
            CommandView::Remember(
                RememberView {
                    text: a,
                    kind: args::value_of(words, "kind"@),
                    actor: args::value_of(words, "actor"@),
                    source_type: args::value_of(words, "source-type"@),
                    source_ref: args::value_of(words, "source-ref"@),
                },
            ),
        ),
        words.args == seq!["correct"@, a, b] ==> is_request(
            args::request_of(words),
            words,
            CommandView::Correct(
                CorrectView {
                    id: a,
                    text: b,
                    kind: args::value_of(words, "kind"@),
                    actor: args::value_of(words, "actor"@),
                    source_type: args::value_of(words, "source-type"@),
                    source_ref: args::value_of(words, "source-ref"@),
                },
            ),
        ),
{
    let options = seq!["kind"@, "actor"@, "source-type"@, "source-ref"@];
    if words.args == seq!["remember"@, a] {
        lemma_kinds(words.args);
        lemma_request(words, args::Kind::Remember, Seq::empty(), options);
    }
    if words.args == seq!["correct"@, a, b] {
        lemma_kinds(words.args);
        lemma_request(words, args::Kind::Correct, Seq::empty(), options);
    }
}

/// The commands without options of their own.
pub proof fn law_commands_without_options(words: WordsView, a: Seq<char>)
    requires
        takes_only(words, Seq::empty(), Seq::empty()),
    ensures
        words.args == seq!["init"@] ==> is_request(
            args::request_of(words),
            words,
            CommandView::Init,
        ),
        words.args == seq!["status"@] ==> is_request(
            args::request_of(words),
            words,
            CommandView::Status,
        ),
        words.args == seq!["get"@, a] ==> is_request(
            args::request_of(words),
            words,
            CommandView::Get(GetView { id: a }),
        ),
        words.args == seq!["forget"@, a] ==> is_request(
            args::request_of(words),
            words,
            CommandView::Forget(ForgetView { id: a }),
        ),
{
    let none = Seq::<Seq<char>>::empty();
    if words.args == seq!["init"@] {
        lemma_kinds(words.args);
        lemma_request(words, args::Kind::Init, none, none);
    }
    if words.args == seq!["status"@] {
        lemma_kinds(words.args);
        lemma_request(words, args::Kind::Status, none, none);
    }
    if words.args == seq!["get"@, a] {
        lemma_kinds(words.args);
        lemma_request(words, args::Kind::Get, none, none);
    }
    if words.args == seq!["forget"@, a] {
        lemma_kinds(words.args);
        lemma_request(words, args::Kind::Forget, none, none);
    }
}

/// The commands on the state of a workspace.
pub proof fn law_commands_on_states(words: WordsView)
    ensures
        words.args == seq!["state"@, "show"@] && takes_only(
            words,
            Seq::empty(),
            seq!["workspace"@],
        ) ==> is_request(
            args::request_of(words),
            words,
            CommandView::StateShow(
                StateShowView { workspace: args::value_of(words, "workspace"@) },
            ),
        ),
        words.args == seq!["state"@, "clear"@] && takes_only(
            words,
            Seq::empty(),
            seq!["workspace"@],
        ) ==> is_request(
            args::request_of(words),
            words,
            CommandView::StateClear(
                StateClearView { workspace: args::value_of(words, "workspace"@) },
            ),
        ),
        words.args == seq!["state"@, "set"@] && takes_only(
            words,
            Seq::empty(),
            seq!["workspace"@, "session"@, "goal"@, "task"@, "checkpoint"@, "clear"@],
        ) ==> is_request(
            args::request_of(words),
            words,
            CommandView::StateSet(
                StateSetView {
                    workspace: args::value_of(words, "workspace"@),
                    session: args::value_of(words, "session"@),
                    goal: args::value_of(words, "goal"@),
                    task: args::value_of(words, "task"@),
                    checkpoint: args::value_of(words, "checkpoint"@),
                    clear: model::joined(words.settings, args::value_if("clear"@)),
                },
            ),
        ),
{
    let none = Seq::<Seq<char>>::empty();
    if words.args == seq!["state"@, "show"@] && takes_only(words, none, seq!["workspace"@]) {
        lemma_kinds(words.args);
        lemma_request(words, args::Kind::StateShow, none, seq!["workspace"@]);
    }
    if words.args == seq!["state"@, "clear"@] && takes_only(words, none, seq!["workspace"@]) {
        lemma_kinds(words.args);
        lemma_request(words, args::Kind::StateClear, none, seq!["workspace"@]);
    }
    let all = seq!["workspace"@, "session"@, "goal"@, "task"@, "checkpoint"@, "clear"@];
    if words.args == seq!["state"@, "set"@] && takes_only(words, none, all) {
        lemma_kinds(words.args);
        lemma_request(words, args::Kind::StateSet, none, all);
    }
}

/// The commands that read memories, and the one that indexes them.
pub proof fn law_commands_that_read_memories(words: WordsView, a: Seq<char>)
    ensures
        words.args == seq!["context"@, a] && takes_only(
            words,
            Seq::empty(),
            seq!["workspace"@, "limit"@, "max-bytes"@],
        ) ==> is_request(
            args::request_of(words),
            words,
            CommandView::Context(
                ContextView {
                    query: a,
                    workspace: args::value_of(words, "workspace"@),
                    limit: number_of(words, "limit"@),
                    max_bytes: number_of(words, "max-bytes"@),
                },
            ),
        ),
        words.args == seq!["search"@, a] && takes_only(words, seq!["semantic"@], seq!["limit"@])
            ==> is_request(
            args::request_of(words),
            words,
            CommandView::Search(
                SearchView {
                    query: a,
                    semantic: words.flags.contains("semantic"@),
                    limit: number_of(words, "limit"@),
                },
            ),
        ),
        words.args == seq!["index"@] && takes_only(words, seq!["cached-only"@], seq!["limit"@])
            ==> is_request(
            args::request_of(words),
            words,
            CommandView::Index(
                IndexView {
                    limit: number_of(words, "limit"@),
                    cached_only: words.flags.contains("cached-only"@),
                },
            ),
        ),
        words.args == seq!["export"@] && takes_only(
            words,
            seq!["include-superseded"@],
            Seq::empty(),
        ) ==> is_request(
            args::request_of(words),
            words,
            CommandView::Export(
                ExportView { include_superseded: words.flags.contains("include-superseded"@) },
            ),
        ),
{
    let none = Seq::<Seq<char>>::empty();
    law_the_last_value_counts(words, "semantic"@, 0);
    law_the_last_value_counts(words, "cached-only"@, 0);
    law_the_last_value_counts(words, "include-superseded"@, 0);
    reveal_strlit("help");
    reveal_strlit("version");
    reveal_strlit("semantic");
    reveal_strlit("cached-only");
    reveal_strlit("include-superseded");
    assert("help"@.len() == 4 && "version"@.len() == 7 && "semantic"@.len() == 8);
    assert("cached-only"@.len() == 11 && "include-superseded"@.len() == 18);
    let options = seq!["workspace"@, "limit"@, "max-bytes"@];
    if words.args == seq!["context"@, a] && takes_only(words, none, options) {
        lemma_kinds(words.args);
        lemma_request(words, args::Kind::Context, none, options);
    }
    if words.args == seq!["search"@, a] && takes_only(words, seq!["semantic"@], seq!["limit"@]) {
        lemma_kinds(words.args);
        lemma_request(words, args::Kind::Search, seq!["semantic"@], seq!["limit"@]);
    }
    if words.args == seq!["index"@] && takes_only(words, seq!["cached-only"@], seq!["limit"@]) {
        lemma_kinds(words.args);
        lemma_request(words, args::Kind::Index, seq!["cached-only"@], seq!["limit"@]);
    }
    if words.args == seq!["export"@] && takes_only(words, seq!["include-superseded"@], none) {
        lemma_kinds(words.args);
        lemma_request(words, args::Kind::Export, seq!["include-superseded"@], none);
    }
}

/// Help is what is asked for with its flag, or without any argument; the version with its own.
pub proof fn law_help_comes_first(words: WordsView)
    ensures
        words.flags.contains("help"@) ==> args::request_of(words) == Ok::<RequestView, Seq<char>>(
            RequestView::Help,
        ),
        !words.flags.contains("help"@) && words.flags.contains("version"@) ==> args::request_of(
            words,
        ) == Ok::<RequestView, Seq<char>>(RequestView::Version),
        !words.flags.contains("version"@) && words.args.len() == 0 ==> args::request_of(words)
            == Ok::<RequestView, Seq<char>>(RequestView::Help),
{
    law_the_last_value_counts(words, "help"@, 0);
    law_the_last_value_counts(words, "version"@, 0);
}

/// A flag or an option that a command does not take is refused, and so are too few and too
/// many arguments.
pub proof fn law_stray_words_are_refused(words: WordsView, a: Seq<char>, i: int)
    requires
        !words.flags.contains("help"@),
        !words.flags.contains("version"@),
    ensures
        words.args == seq!["remember"@] || words.args == seq!["correct"@] || words.args
            == seq!["correct"@, a] || words.args == seq!["get"@] || words.args == seq!["forget"@]
            || words.args == seq!["search"@] || words.args == seq!["context"@] || words.args
            == seq!["state"@] ==> args::request_of(words) is Err,
        words.args.len() > 3 ==> args::request_of(words) is Err,
        words.args.len() > 0 && words.args[0] == "get"@ && 0 <= i < words.settings.len()
            && words.settings[i].name != "db"@ && words.settings[i].name != "json"@
            ==> args::request_of(words) is Err,
        words.args.len() > 0 && words.args[0] == "remember"@ && words.flags.contains("semantic"@)
            ==> args::request_of(words) is Err,
{
    law_the_last_value_counts(words, "help"@, 0);
    law_the_last_value_counts(words, "version"@, 0);
    if words.args.len() > 0 {
        lemma_kinds(words.args);
        reveal_strlit("json");
        reveal_strlit("db");
        reveal_strlit("semantic");
        reveal_strlit("kind");
        reveal_strlit("actor");
        reveal_strlit("source-type");
        reveal_strlit("source-ref");
        reveal_strlit("state");
        reveal_strlit("init");
        reveal_strlit("status");
        assert("state"@.len() == 5 && "init"@.len() == 4 && "status"@.len() == 6);
        assert("semantic"@.len() == 8 && "json"@.len() == 4 && "db"@.len() == 2);
        assert("kind"@.len() == 4 && "actor"@.len() == 5);
        assert("source-type"@.len() == 11 && "source-ref"@.len() == 10);
        if words.args[0] == "get"@ && 0 <= i < words.settings.len() && words.settings[i].name
            != "db"@ && words.settings[i].name != "json"@ {
            let kind = args::Kind::Get;
            model::lemma_first_row(words.settings, args::stray_setting(kind));
            assert(args::stray_setting(kind)(words.settings[i]));
        }
        if words.args[0] == "remember"@ && words.flags.contains("semantic"@) {
            let kind = args::Kind::Remember;
            let k = choose|k: int| 0 <= k < words.flags.len() && words.flags[k] == "semantic"@;
            model::lemma_first_row(words.flags, args::stray_flag(kind));
            assert(args::stray_flag(kind)(words.flags[k]));
        }
    }
}

/// A command line is sorted, from no words on, and then read.
pub proof fn law_a_command_line_is_sorted_and_read(words: Seq<Seq<char>>)
    ensures
        ({
            let none = WordsView {
                flags: Seq::empty(),
                settings: Seq::empty(),
                args: Seq::empty(),
            };
            match args::sorted(words, none, false) {
                Ok(w) => args::parsed(words) == args::request_of(w),
                Err(e) => args::parsed(words) == Err::<RequestView, Seq<char>>(e),
            }
        }),
{
}

/// Whatever a command is asked for with belongs to it: it has just its arguments, and only
/// flags and options that it takes.
pub proof fn law_commands_take_nothing_else(
    words: WordsView,
    json: bool,
    db: Option<Seq<char>>,
    c: CommandView,
)
    requires
        args::request_of(words) == Ok::<RequestView, Seq<char>>(
            RequestView::Run { json, db, command: c },
        ),
    ensures
        ({
            let none = Seq::<Seq<char>>::empty();
            let about = seq!["kind"@, "actor"@, "source-type"@, "source-ref"@];
            let state = seq![
                "workspace"@,
                "session"@,
                "goal"@,
                "task"@,
                "checkpoint"@,
                "clear"@,
            ];
            match c {
                CommandView::Init => words.args == seq!["init"@] && has_only(words, none, none),
                CommandView::Status => words.args == seq!["status"@] && has_only(
                    words,
                    none,
                    none,
                ),
                CommandView::StateShow(_) => words.args == seq!["state"@, "show"@] && has_only(
                    words,
                    none,
                    seq!["workspace"@],
                ),
                CommandView::StateSet(_) => words.args == seq!["state"@, "set"@] && has_only(
                    words,
                    none,
                    state,
                ),
                CommandView::StateClear(_) => words.args == seq!["state"@, "clear"@]
                    && has_only(words, none, seq!["workspace"@]),
                CommandView::Context(x) => words.args == seq!["context"@, x.query] && has_only(
                    words,
                    none,
                    seq!["workspace"@, "limit"@, "max-bytes"@],
                ),
                CommandView::Remember(x) => words.args == seq!["remember"@, x.text] && has_only(
                    words,
                    none,
                    about,
                ),
                CommandView::Correct(x) => words.args == seq!["correct"@, x.id, x.text]
                    && has_only(words, none, about),
                CommandView::Search(x) => words.args == seq!["search"@, x.query] && has_only(
                    words,
                    seq!["semantic"@],
                    seq!["limit"@],
                ),
                CommandView::Get(x) => words.args == seq!["get"@, x.id] && has_only(
                    words,
                    none,
                    none,
                ),
                CommandView::Forget(x) => words.args == seq!["forget"@, x.id] && has_only(
                    words,
                    none,
                    none,
                ),
                CommandView::Index(_) => words.args == seq!["index"@] && has_only(
                    words,
                    seq!["cached-only"@],
                    seq!["limit"@],
                ),
                CommandView::Export(_) => words.args == seq!["export"@] && has_only(
                    words,
                    seq!["include-superseded"@],
                    none,
                ),
            }
        }),
{
    let kind = args::kind_of(words.args)->Ok_0;
    lemma_kinds(words.args);
    model::lemma_first_row(words.flags, args::stray_flag(kind));
    model::lemma_first_row(words.settings, args::stray_setting(kind));
    assert forall|i: int| 0 <= i < words.flags.len() implies args::takes(
        kind,
        #[trigger] words.flags[i],
    ) by {
        assert(!args::stray_flag(kind)(words.flags[i]));
    }
    assert forall|i: int| 0 <= i < words.settings.len() implies args::takes(
        kind,
        (#[trigger] words.settings[i]).name,
    ) by {
        assert(!args::stray_setting(kind)(words.settings[i]));
    }
    lemma_taken(words, kind);
}

/// Holds when the flags and options of a command line are among those for every command and
/// the given ones.
pub open spec fn has_only(
    words: WordsView,
    flags: Seq<Seq<char>>,
    options: Seq<Seq<char>>,
) -> bool {
    &&& forall|i: int|
        0 <= i < words.flags.len() ==> is_among(#[trigger] words.flags[i], flags + options)
    &&& forall|i: int|
        0 <= i < words.settings.len() ==> is_among(
            (#[trigger] words.settings[i]).name,
            flags + options,
        )
}

/// Holds of a name for every command, or one of the given ones.
pub open spec fn is_among(name: Seq<char>, names: Seq<Seq<char>>) -> bool {
    name == "json"@ || name == "db"@ || names.contains(name)
}

proof fn lemma_taken(words: WordsView, kind: args::Kind)
    requires
        forall|i: int|
            0 <= i < words.flags.len() ==> args::takes(kind, #[trigger] words.flags[i]),
        forall|i: int|
            0 <= i < words.settings.len() ==> args::takes(
                kind,
                (#[trigger] words.settings[i]).name,
            ),
    ensures
        ({
            let none = Seq::<Seq<char>>::empty();
            let about = seq!["kind"@, "actor"@, "source-type"@, "source-ref"@];
            let state = seq![
                "workspace"@,
                "session"@,
                "goal"@,
                "task"@,
                "checkpoint"@,
                "clear"@,
            ];
            match kind {
                args::Kind::Init | args::Kind::Status | args::Kind::Get
                | args::Kind::Forget => has_only(words, none, none),
                args::Kind::StateShow | args::Kind::StateClear => has_only(
                    words,
                    none,
                    seq!["workspace"@],
                ),
                args::Kind::StateSet => has_only(words, none, state),
                args::Kind::Context => has_only(
                    words,
                    none,
                    seq!["workspace"@, "limit"@, "max-bytes"@],
                ),
                args::Kind::Remember | args::Kind::Correct => has_only(words, none, about),
                args::Kind::Search => has_only(words, seq!["semantic"@], seq!["limit"@]),
                args::Kind::Index => has_only(words, seq!["cached-only"@], seq!["limit"@]),
                args::Kind::Export => has_only(words, seq!["include-superseded"@], none),
            }
        }),
{
    let none = Seq::<Seq<char>>::empty();
    let about = seq!["kind"@, "actor"@, "source-type"@, "source-ref"@];
    let state = seq!["workspace"@, "session"@, "goal"@, "task"@, "checkpoint"@, "clear"@];
    assert(forall|n: Seq<char>| #[trigger] args::takes(kind, n) ==> match kind {
        args::Kind::Init | args::Kind::Status | args::Kind::Get | args::Kind::Forget => is_among(
            n,
            none + none,
        ),
        args::Kind::StateShow | args::Kind::StateClear => is_among(n, none + seq!["workspace"@]),
        args::Kind::StateSet => is_among(n, none + state),
        args::Kind::Context => is_among(n, none + seq!["workspace"@, "limit"@, "max-bytes"@]),
        args::Kind::Remember | args::Kind::Correct => is_among(n, none + about),
        args::Kind::Search => is_among(n, seq!["semantic"@] + seq!["limit"@]),
        args::Kind::Index => is_among(n, seq!["cached-only"@] + seq!["limit"@]),
        args::Kind::Export => is_among(n, seq!["include-superseded"@] + none),
    }) by {
        assert((none + state)[0] == "workspace"@ && (none + state)[1] == "session"@ && (none
            + state)[2] == "goal"@ && (none + state)[3] == "task"@ && (none + state)[4]
            == "checkpoint"@ && (none + state)[5] == "clear"@);
        assert((none + about)[0] == "kind"@ && (none + about)[1] == "actor"@ && (none + about)[2]
            == "source-type"@ && (none + about)[3] == "source-ref"@);
        let context = none + seq!["workspace"@, "limit"@, "max-bytes"@];
        assert(context[0] == "workspace"@ && context[1] == "limit"@ && context[2]
            == "max-bytes"@);
        assert((none + seq!["workspace"@])[0] == "workspace"@);
        let search = seq!["semantic"@] + seq!["limit"@];
        assert(search[0] == "semantic"@ && search[1] == "limit"@);
        let index = seq!["cached-only"@] + seq!["limit"@];
        assert(index[0] == "cached-only"@ && index[1] == "limit"@);
        assert((seq!["include-superseded"@] + none)[0] == "include-superseded"@);
    }
}

/// A request is seen as what it asks for.
pub proof fn law_requests_are_seen_whole(r: Request)
    ensures
        r is Help <==> r@ is Help,
        r is Version <==> r@ is Version,
        r matches Request::Run(m) ==> r@ is Run && r@->json == m.json && r@->command == m.command@
            && r@->db == model::text_of(m.db),
{
}

/// A command is seen as what it is, with its arguments.
pub proof fn law_commands_are_seen_whole(c: Command)
    ensures
        c is Init <==> c@ is Init,
        c is Status <==> c@ is Status,
        c matches Command::State(StateCommand::Show(x)) ==> c@ == CommandView::StateShow(x@),
        c matches Command::State(StateCommand::Update(x)) ==> c@ == CommandView::StateSet(x@),
        c matches Command::State(StateCommand::Clear(x)) ==> c@ == CommandView::StateClear(x@),
        c matches Command::Context(x) ==> c@ == CommandView::Context(x@),
        c matches Command::Remember(x) ==> c@ == CommandView::Remember(x@),
        c matches Command::Correct(x) ==> c@ == CommandView::Correct(x@),
        c matches Command::Search(x) ==> c@ == CommandView::Search(x@),
        c matches Command::Get(x) ==> c@ == CommandView::Get(x@),
        c matches Command::Forget(x) ==> c@ == CommandView::Forget(x@),
        c matches Command::Index(x) ==> c@ == CommandView::Index(x@),
        c matches Command::Export(x) ==> c@ == CommandView::Export(x@),
{
}

} // verus!
